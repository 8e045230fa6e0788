use rustgamex::engine::{camera_axis, next_level, start_level};
use rustgamex::player::starts_platform;

#[test]
fn start_level_clamps_to_the_last_level() {
    assert_eq!(start_level(3, 0), Ok(0));
    assert_eq!(start_level(3, 2), Ok(2));
    assert_eq!(start_level(3, 7), Ok(2));
}

#[test]
fn start_level_without_levels_is_an_error() {
    assert_eq!(start_level(0, 0), Err("no levels given".to_string()));
}

#[test]
fn levels_loop_back_to_the_first() {
    assert_eq!(next_level(0, 3), 1);
    assert_eq!(next_level(2, 3), 0);
    let mut l = 1;
    for _ in 0..3 {
        l = next_level(l, 3);
    }
    assert_eq!(l, 1);
}

#[test]
fn test_downward_platform_stays_inactive_while_player_on_solid_ground() {}

#[test]
fn camera_follows_the_player_within_the_level() {
    assert_eq!(camera_axis(100, 1600, 800), 0);
    assert_eq!(camera_axis(900, 1600, 800), 500);
    assert_eq!(camera_axis(1500, 1600, 800), 800);
    assert_eq!(camera_axis(500, 400, 800), 0, "a small level never scrolls");
}

#[test]
fn a_platform_starts_only_once_it_carries_the_player() {
    // Still held up by solid ground and overhanging the edge: stays put.
    assert!(!starts_platform(false, false, true));
    // Entirely on top, or with nothing else beneath him: it starts.
    assert!(starts_platform(false, true, true));
    assert!(starts_platform(false, false, false));
    // A platform already moving is not started again.
    assert!(!starts_platform(true, true, false));
}
