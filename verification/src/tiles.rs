//! Tile types and their semantics.
use vstd::prelude::*;

verus! {

/// Width and height of a tile in pixels.
pub const TILE_SIZE: u32 = 40;

pub const EMPTY: u32 = 0;
pub const SOLID: u32 = 1;
/// The player dies when touching this tile.
pub const DEATH: u32 = 3;
/// Crumbling tile: starts decaying when touched (4 -> 5 -> 6 -> gone).
pub const CRUMBLE: u32 = 4;
pub const CRUMBLE_CRACKED: u32 = 5;
pub const CRUMBLE_VERY_CRACKED: u32 = 6;
/// Periodic tile, solid phase. Swaps with `PERIODIC_GHOST` every second.
pub const PERIODIC_SOLID: u32 = 7;
/// Periodic tile, phased-out (non-solid) phase.
pub const PERIODIC_GHOST: u32 = 8;
/// Moving tiles: activate when stepped on, then travel in their direction.
pub const MOVE_UP: u32 = 9;
pub const MOVE_RIGHT: u32 = 10;
pub const MOVE_DOWN: u32 = 11;
pub const MOVE_LEFT: u32 = 12;
/// Exit door, closed phase.
pub const EXIT: u32 = 13;
/// A collectible coin; every coin must be collected before the exits open.
pub const COIN: u32 = 14;
/// A secret exit door (grid character `S`); like `EXIT`, not solid.
pub const SECRET_EXIT: u32 = 16;
/// A red coin (grid character `R`); like `COIN`, not solid.
pub const RED_COIN: u32 = 17;
/// A path-following block (render-only id; never stored in the grid).
pub const PATH_BLOCK: u32 = 15;
/// Exit door, open phase (render-only substitution for `EXIT`).
pub const EXIT_OPEN: u32 = 19;

/// Number of 40px sprites per row in the sprite sheet.
pub const SHEET_COLUMNS: u32 = 6;

/// A tile coordinate `(column, row)`.
pub type TilePos = (usize, usize);

/// Pixel position of the sprite at a 1-based sheet index, laid out
/// left-to-right then top-to-bottom; index 0 behaves like index 1.
pub open spec fn sheet_src_xy_spec(index: u32) -> (int, int) {
    let i: int = if index == 0 { 0 } else { index - 1 };
    ((i % 6) * 40, (i / 6) * 40)
}

/// Top-left pixel coordinate of the sprite at a 1-based sheet index
/// (index 1 = (0,0), index 7 = (0,40)).
pub fn sheet_src_xy(index: u32) -> (r: (i32, i32))
    requires
        index <= 322_122_552,
    ensures
        r.0 == sheet_src_xy_spec(index).0,
        r.1 == sheet_src_xy_spec(index).1,
{
    let i = index.saturating_sub(1);
    let col = (i % SHEET_COLUMNS) as i32;
    let row = (i / SHEET_COLUMNS) as i32;
    (col * (TILE_SIZE as i32), row * (TILE_SIZE as i32))
}

} // verus!
verus! {

/// Sprite-sheet pixel position of each gameplay tile id.
pub open spec fn tile_src_xy_spec(tile_id: u32) -> (i32, i32) {
    if tile_id == SOLID {
        (0, 0)
    } else if tile_id == DEATH {
        (80, 0)
    } else if tile_id == CRUMBLE {
        (120, 0)
    } else if tile_id == CRUMBLE_CRACKED {
        (160, 0)
    } else if tile_id == CRUMBLE_VERY_CRACKED {
        (200, 0)
    } else if tile_id == PERIODIC_SOLID {
        (0, 40)
    } else if tile_id == PERIODIC_GHOST {
        (40, 40)
    } else if tile_id == MOVE_UP {
        (80, 40)
    } else if tile_id == MOVE_RIGHT {
        (120, 40)
    } else if tile_id == MOVE_DOWN {
        (160, 40)
    } else if tile_id == MOVE_LEFT {
        (200, 40)
    } else if tile_id == EXIT {
        (0, 120)
    } else if tile_id == COIN {
        (40, 120)
    } else if tile_id == PATH_BLOCK {
        (0, 80)
    } else if tile_id == EXIT_OPEN {
        (0, 160)
    } else {
        (0, 0)
    }
}

/// Top-left pixel coordinate of a tile's graphic within the sprite sheet.
pub fn tile_src_xy(tile_id: u32) -> (r: (i32, i32))
    ensures
        r == tile_src_xy_spec(tile_id),
{
    match tile_id {
        SOLID => (0, 0),
        DEATH => (80, 0),
        CRUMBLE => (120, 0),
        CRUMBLE_CRACKED => (160, 0),
        CRUMBLE_VERY_CRACKED => (200, 0),
        PERIODIC_SOLID => (0, 40),
        PERIODIC_GHOST => (40, 40),
        MOVE_UP => (80, 40),
        MOVE_RIGHT => (120, 40),
        MOVE_DOWN => (160, 40),
        MOVE_LEFT => (200, 40),
        EXIT => (0, 120),
        COIN => (40, 120),
        PATH_BLOCK => (0, 80),
        EXIT_OPEN => (0, 160),
        _ => (0, 0),
    }
}

/// Whether the player and moving platforms collide with this tile type.
pub open spec fn solid(tile_type: u32) -> bool {
    !(tile_type == EMPTY || tile_type == DEATH || tile_type == PERIODIC_GHOST || tile_type == EXIT
        || tile_type == COIN || tile_type == SECRET_EXIT || tile_type == RED_COIN)
}

/// Whether this tile type is extracted from the grid as a moving platform.
pub open spec fn moving(tile_type: u32) -> bool {
    tile_type == MOVE_UP || tile_type == MOVE_RIGHT || tile_type == MOVE_DOWN || tile_type
        == MOVE_LEFT
}

/// Whether the player and moving platforms collide with this tile type.
pub fn is_solid(tile_type: u32) -> (b: bool)
    ensures
        b == solid(tile_type),
{
    !matches!(tile_type, EMPTY | DEATH | PERIODIC_GHOST | EXIT | COIN | SECRET_EXIT | RED_COIN)
}

/// Whether this tile type is extracted from the grid as a moving platform.
pub fn is_moving(tile_type: u32) -> (b: bool)
    ensures
        b == moving(tile_type),
{
    matches!(tile_type, MOVE_UP | MOVE_RIGHT | MOVE_DOWN | MOVE_LEFT)
}

/// Every moving tile is solid: platforms collide like walls.
pub proof fn law_moving_tiles_are_solid(t: u32)
    ensures
        moving(t) ==> solid(t),
{
}

/// The periodic tile's two phases: only the solid phase collides.
pub proof fn law_periodic_phases()
    ensures
        solid(PERIODIC_SOLID),
        !solid(PERIODIC_GHOST),
        !solid(EXIT),
        !solid(COIN),
        !solid(EMPTY),
        !solid(DEATH),
{
}

/// Every sheet index addresses a sprite inside the 240x240 sheet once it is
/// between 1 and 36.
pub proof fn law_sheet_src_in_sheet(index: u32)
    requires
        1 <= index <= 36,
    ensures
        0 <= sheet_src_xy_spec(index).0 <= 200,
        0 <= sheet_src_xy_spec(index).1 <= 200,
{
}

/// The tiles the player and platforms pass through are exactly empty space,
/// deadly tiles, the periodic tile's phased-out phase, the exit doors (normal
/// and secret) and the coins (gold and red); every other tile collides. In
/// particular a crumbling tile stays solid in each of its three phases until
/// it has crumbled away.
pub proof fn law_solid_tiles(t: u32)
    ensures
        !solid(t) <==> (t == 0 || t == 3 || t == 8 || t == 13 || t == 14 || t == 16 || t == 17),
        solid(1),
        solid(4) && solid(5) && solid(6),
        solid(7),
        solid(9) && solid(10) && solid(11) && solid(12),
{
}

} // verus!
