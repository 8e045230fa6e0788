use rustgamex::level::LevelData;
use rustgamex::select::{clamp_move_target, move_selection, Selection};
use rustgamex::tiles;

/// A 10x10 empty level with a spawn in the bottom-left.
fn empty_level() -> LevelData {
    let mut rows = vec![".".repeat(10); 10];
    rows[9].replace_range(0..1, "P");
    LevelData::parse(&rows.join("\n")).unwrap()
}

#[test]
fn selection_from_corners_normalises_and_measures() {
    let sel = Selection::from_corners((5, 6), (2, 3));
    assert_eq!(sel.min, (2, 3));
    assert_eq!(sel.max, (5, 6));
    assert_eq!((sel.width(), sel.height()), (4, 4));
    assert!(sel.contains((3, 4)));
    assert!(sel.contains((2, 3)));
    assert!(sel.contains((5, 6)));
    assert!(!sel.contains((6, 6)));
}

#[test]
fn clamp_move_target_keeps_the_block_inside_the_grid() {
    let sel = Selection::at((0, 0), 3, 2); // 3x2 block, grab its top-left
    // Cursor at (8,9) in a 10x10 grid: a 3x2 block can start at most at (7,8).
    assert_eq!(clamp_move_target(10, 10, sel, (0, 0), (8, 9)), (7, 8));
    // Negative reach clamps to the origin.
    assert_eq!(clamp_move_target(10, 10, sel, (0, 0), (-4, -4)), (0, 0));
    // A grab offset shifts where the top-left lands.
    assert_eq!(clamp_move_target(10, 10, sel, (1, 1), (5, 5)), (4, 4));
}

#[test]
fn move_selection_relocates_the_block_and_clears_the_source() {
    let mut level = empty_level();
    level.tiles[1][1] = tiles::SOLID;
    level.tiles[1][2] = tiles::DEATH;

    let sel = Selection::at((1, 1), 2, 1);
    move_selection(&mut level, sel, (5, 5), false, "level02");

    // Source cleared, block stamped at the destination.
    assert_eq!(level.tiles[1][1], tiles::EMPTY);
    assert_eq!(level.tiles[1][2], tiles::EMPTY);
    assert_eq!(level.tiles[5][5], tiles::SOLID);
    assert_eq!(level.tiles[5][6], tiles::DEATH);
}

#[test]
fn move_selection_copy_leaves_the_source_intact() {
    let mut level = empty_level();
    level.tiles[2][2] = tiles::SOLID;

    let sel = Selection::at((2, 2), 1, 1);
    move_selection(&mut level, sel, (4, 4), true, "level02");

    assert_eq!(level.tiles[2][2], tiles::SOLID);
    assert_eq!(level.tiles[4][4], tiles::SOLID);
}

#[test]
fn move_selection_handles_overlapping_source_and_target() {
    let mut level = empty_level();
    level.tiles[0][0] = tiles::SOLID;
    level.tiles[0][1] = tiles::DEATH;

    // Shift a 2x1 block one cell right; the target overlaps the source.
    let sel = Selection::at((0, 0), 2, 1);
    move_selection(&mut level, sel, (1, 0), false, "level02");

    assert_eq!(level.tiles[0][0], tiles::EMPTY);
    assert_eq!(level.tiles[0][1], tiles::SOLID);
    assert_eq!(level.tiles[0][2], tiles::DEATH);
}

#[test]
fn erase_selection_empties_only_the_block() {
    let mut level = empty_level();
    level.tiles[3][3] = tiles::SOLID;
    level.tiles[3][4] = tiles::SOLID;
    level.tiles[3][5] = tiles::SOLID;
    rustgamex::select::erase_selection(&mut level, Selection::from_corners((3, 3), (4, 3)));
    assert_eq!(level.tiles[3][3], tiles::EMPTY);
    assert_eq!(level.tiles[3][4], tiles::EMPTY);
    assert_eq!(level.tiles[3][5], tiles::SOLID);
}

#[test]
fn move_selection_reconciles_exits_for_moved_doors() {
    let mut level = empty_level();
    // A routed door at (3,3), as apply_tool would leave it.
    assert!(rustgamex::tools::apply_tool(
        &mut level,
        rustgamex::tools::Tool::Tile(tiles::EXIT),
        "level02",
        3,
        3
    ));
    let sel = Selection::at((3, 3), 1, 1);
    move_selection(&mut level, sel, (6, 6), false, "level09");
    // The exit follows the door to its new cell, re-routed to the default.
    assert_eq!(
        level.exits,
        vec![rustgamex::level::ExitDoor { tile: (6, 6), dest: "level09".to_string() }]
    );
}
