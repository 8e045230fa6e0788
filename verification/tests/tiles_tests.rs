use rustgamex::tiles::{is_moving, is_solid, sheet_src_xy, tile_src_xy};

#[test]
fn sheet_indices_map_to_sprite_cells() {
    assert_eq!(sheet_src_xy(1), (0, 0));
    assert_eq!(sheet_src_xy(6), (200, 0));
    assert_eq!(sheet_src_xy(7), (0, 40));
    assert_eq!(sheet_src_xy(0), (0, 0));
}

#[test]
fn solid_and_moving_tiles() {
    assert!(is_solid(1));
    assert!(!is_solid(0));
    assert!(!is_solid(8));
    for t in 9..=12 {
        assert!(is_moving(t));
        assert!(is_solid(t));
    }
    assert!(!is_moving(13));
}

#[test]
fn tile_sprites_are_inside_the_sheet() {
    for t in 0..20 {
        let (x, y) = tile_src_xy(t);
        assert!(x >= 0 && x < 240 && y >= 0 && y < 240);
    }
}

#[test]
fn sheet_src_xy_reaches_the_last_row_within_i32() {
    assert_eq!(sheet_src_xy(322_122_552), (200, 2_147_483_640));
    assert_eq!(sheet_src_xy(322_122_547), (0, 2_147_483_640));
}
