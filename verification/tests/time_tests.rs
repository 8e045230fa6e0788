use rustgamex::time::{MAX_DELTA_MILLIS, PLATFORM_RIDE_TOLERANCE, PLATFORM_SPEED};

#[test]
fn max_delta_keeps_platforms_within_ride_tolerance() {
    // Platforms move at PLATFORM_SPEED (100 px/s) and are updated before the
    // player, so one frame's travel has to stay under the 6 px
    // PLATFORM_RIDE_TOLERANCE or a rider loses his footing.
    let max_delta = MAX_DELTA_MILLIS as f32 / 1000.0;
    assert!(100.0 * max_delta < 6.0);
    assert!((PLATFORM_SPEED as f32) * max_delta < PLATFORM_RIDE_TOLERANCE as f32);
}

#[test]
fn timing_constants_have_their_values() {
    assert_eq!(MAX_DELTA_MILLIS, 50);
    assert_eq!(PLATFORM_SPEED, 100);
    assert_eq!(PLATFORM_RIDE_TOLERANCE, 6);
}
