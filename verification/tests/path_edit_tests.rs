use rustgamex::layout::{cursor_tile_i, TILE_AREA_TOP};
use rustgamex::level::{LevelData, PathBlock};
use rustgamex::path_edit::{
    axis_aligned, block_is_valid, drag_segment, path_left_click, path_right_click,
    segment_at_tile, snap_axis, toggle_loop, Drag,
};
use rustgamex::tiles::TilePos;

/// A 10x10 empty level with a spawn in the bottom-left.
fn empty_level() -> LevelData {
    let mut rows = vec![".".repeat(10); 10];
    rows[9].replace_range(0..1, "P");
    LevelData::parse(&rows.join("\n")).unwrap()
}

/// The cell under the screen position at the centre of tile (tx, ty) with
/// the camera at the origin, clamped to the level as the editor does.
fn click_at(level: &LevelData, tx: i32, ty: i32) -> Option<TilePos> {
    let s = 40;
    let screen = (tx * s + s / 2, TILE_AREA_TOP + ty * s + s / 2);
    let (cx, cy) = cursor_tile_i(screen, 0, -TILE_AREA_TOP)?;
    if cx < 0 || cy < 0 || cx >= level.width() as i32 || cy >= level.height() as i32 {
        return None;
    }
    Some((cx as usize, cy as usize))
}

fn block(points: Vec<(usize, usize)>, closed: bool) -> PathBlock {
    PathBlock { points, closed }
}

#[test]
fn level_editor_snap_axis_locks_to_dominant_axis() {
    assert_eq!(snap_axis((2, 2), (6, 3)), (6, 2)); // horizontal wins
    assert_eq!(snap_axis((2, 2), (3, 6)), (2, 6)); // vertical wins
}

#[test]
fn level_editor_axis_aligned_detects_orthogonal_neighbours() {
    assert!(axis_aligned((1, 1), (1, 5)));
    assert!(axis_aligned((1, 1), (4, 1)));
    assert!(!axis_aligned((1, 1), (2, 2)));
    assert!(!axis_aligned((1, 1), (1, 1)));
}

#[test]
fn level_editor_left_click_builds_an_axis_aligned_path() {
    let mut level = empty_level();
    let (mut active, mut drag, mut new) = (None, None, false);

    let t = click_at(&level, 1, 1);
    assert!(path_left_click(&mut level, &mut active, &mut drag, &mut new, t));
    // A diagonal target snaps to a horizontal segment from the last point.
    let t = click_at(&level, 4, 3);
    assert!(path_left_click(&mut level, &mut active, &mut drag, &mut new, t));

    assert_eq!(level.path_blocks[0].points, vec![(1, 1), (4, 1)]);
    assert_eq!(active, Some(0));
}

#[test]
fn level_editor_toggle_loop_requires_a_valid_closing_segment() {
    let mut level = empty_level();
    // Open L-shape: closing (4,4) -> (1,1) would be diagonal, so it can't close.
    level.path_blocks.push(block(vec![(1, 1), (4, 1), (4, 4)], false));
    assert!(!toggle_loop(&mut level, Some(0)));
    assert!(!level.path_blocks[0].closed);

    // A rectangle closes cleanly.
    level.path_blocks[0].points = vec![(1, 1), (4, 1), (4, 4), (1, 4)];
    assert!(toggle_loop(&mut level, Some(0)));
    assert!(level.path_blocks[0].closed);
}

#[test]
fn level_editor_right_click_deletes_endpoint_and_drops_degenerate_block() {
    let mut level = empty_level();
    level.path_blocks.push(block(vec![(1, 1), (4, 1)], false));
    let mut active = Some(0);

    let t = click_at(&level, 4, 1);
    assert!(path_right_click(&mut level, &mut active, t));
    // Down to one point, so the whole block is removed.
    assert!(level.path_blocks.is_empty());
    assert_eq!(active, None);
}

#[test]
fn level_editor_right_click_keeps_corner_points_of_a_loop() {
    let mut level = empty_level();
    level.path_blocks.push(block(vec![(1, 1), (4, 1), (4, 4), (1, 4)], true));
    let mut active = Some(0);
    // Deleting a corner would leave a diagonal join, so it is refused.
    let t = click_at(&level, 4, 1);
    assert!(!path_right_click(&mut level, &mut active, t));
    assert_eq!(level.path_blocks[0].points.len(), 4);
}

#[test]
fn level_editor_segment_at_tile_finds_edges_not_endpoints() {
    let mut level = empty_level();
    level.path_blocks.push(block(vec![(1, 1), (5, 1)], false));
    // A tile between the endpoints hits the edge...
    assert_eq!(segment_at_tile(&level, (3, 1)), Some((0, 0)));
    // ...but the endpoints themselves and off-line tiles do not.
    assert_eq!(segment_at_tile(&level, (1, 1)), None);
    assert_eq!(segment_at_tile(&level, (3, 2)), None);
}

#[test]
fn level_editor_drag_segment_slides_a_horizontal_edge_keeping_neighbours_valid() {
    // A square loop; dragging the top edge down carries both its corners.
    let mut b = block(vec![(1, 1), (4, 1), (4, 4), (1, 4)], true);
    assert!(drag_segment(&mut b, 0, (99, 2)));
    assert_eq!(b.points, vec![(1, 2), (4, 2), (4, 4), (1, 4)]);
    assert!(block_is_valid(&b));
}

#[test]
fn level_editor_drag_segment_slides_a_vertical_edge() {
    let mut b = block(vec![(1, 1), (1, 5)], false);
    // Vertical edge: only the column moves; both endpoints follow.
    assert!(drag_segment(&mut b, 0, (3, 99)));
    assert_eq!(b.points, vec![(3, 1), (3, 5)]);
}

#[test]
fn level_editor_drag_segment_reverts_when_it_would_collapse_a_neighbour() {
    // Open L-shape: dragging the top edge down onto row 4 would make its
    // right corner coincide with the next point, so the move is refused.
    let mut b = block(vec![(1, 1), (4, 1), (4, 4)], false);
    assert!(!drag_segment(&mut b, 0, (99, 4)));
    assert_eq!(b.points, vec![(1, 1), (4, 1), (4, 4)]);
}

#[test]
fn level_editor_left_click_on_edge_starts_a_segment_drag() {
    let mut level = empty_level();
    level.path_blocks.push(block(vec![(1, 1), (5, 1)], false));
    let (mut active, mut drag, mut new) = (None, None, false);
    let t = click_at(&level, 3, 1); // a tile on the edge
    assert!(!path_left_click(&mut level, &mut active, &mut drag, &mut new, t));
    assert_eq!(active, Some(0));
    assert_eq!(drag, Some(Drag::Segment(0)));
}

#[test]
fn path_edit_snap_axis_locks_to_dominant_axis() {
    assert_eq!(snap_axis((2, 2), (6, 3)), (6, 2)); // horizontal wins
    assert_eq!(snap_axis((2, 2), (3, 6)), (2, 6)); // vertical wins
}

#[test]
fn path_edit_axis_aligned_detects_orthogonal_neighbours() {
    assert!(axis_aligned((1, 1), (1, 5)));
    assert!(axis_aligned((1, 1), (4, 1)));
    assert!(!axis_aligned((1, 1), (2, 2)));
    assert!(!axis_aligned((1, 1), (1, 1)));
}

#[test]
fn path_edit_left_click_builds_an_axis_aligned_path() {
    let mut level = empty_level();
    let (mut active, mut drag, mut new) = (None, None, false);

    let t = click_at(&level, 1, 1);
    assert!(path_left_click(&mut level, &mut active, &mut drag, &mut new, t));
    // A diagonal target snaps to a horizontal segment from the last point.
    let t = click_at(&level, 4, 3);
    assert!(path_left_click(&mut level, &mut active, &mut drag, &mut new, t));

    assert_eq!(level.path_blocks[0].points, vec![(1, 1), (4, 1)]);
    assert_eq!(active, Some(0));
}

#[test]
fn path_edit_toggle_loop_requires_a_valid_closing_segment() {
    let mut level = empty_level();
    // Open L-shape: closing (4,4) -> (1,1) would be diagonal, so it can't close.
    level.path_blocks.push(block(vec![(1, 1), (4, 1), (4, 4)], false));
    assert!(!toggle_loop(&mut level, Some(0)));
    assert!(!level.path_blocks[0].closed);

    // A rectangle closes cleanly.
    level.path_blocks[0].points = vec![(1, 1), (4, 1), (4, 4), (1, 4)];
    assert!(toggle_loop(&mut level, Some(0)));
    assert!(level.path_blocks[0].closed);
}

#[test]
fn path_edit_right_click_deletes_endpoint_and_drops_degenerate_block() {
    let mut level = empty_level();
    level.path_blocks.push(block(vec![(1, 1), (4, 1)], false));
    let mut active = Some(0);

    let t = click_at(&level, 4, 1);
    assert!(path_right_click(&mut level, &mut active, t));
    // Down to one point, so the whole block is removed.
    assert!(level.path_blocks.is_empty());
    assert_eq!(active, None);
}

#[test]
fn path_edit_right_click_keeps_corner_points_of_a_loop() {
    let mut level = empty_level();
    level.path_blocks.push(block(vec![(1, 1), (4, 1), (4, 4), (1, 4)], true));
    let mut active = Some(0);
    // Deleting a corner would leave a diagonal join, so it is refused.
    let t = click_at(&level, 4, 1);
    assert!(!path_right_click(&mut level, &mut active, t));
    assert_eq!(level.path_blocks[0].points.len(), 4);
}

#[test]
fn path_edit_segment_at_tile_finds_edges_not_endpoints() {
    let mut level = empty_level();
    level.path_blocks.push(block(vec![(1, 1), (5, 1)], false));
    // A tile between the endpoints hits the edge...
    assert_eq!(segment_at_tile(&level, (3, 1)), Some((0, 0)));
    // ...but the endpoints themselves and off-line tiles do not.
    assert_eq!(segment_at_tile(&level, (1, 1)), None);
    assert_eq!(segment_at_tile(&level, (3, 2)), None);
}

#[test]
fn path_edit_drag_segment_slides_a_horizontal_edge_keeping_neighbours_valid() {
    // A square loop; dragging the top edge down carries both its corners.
    let mut b = block(vec![(1, 1), (4, 1), (4, 4), (1, 4)], true);
    assert!(drag_segment(&mut b, 0, (99, 2)));
    assert_eq!(b.points, vec![(1, 2), (4, 2), (4, 4), (1, 4)]);
    assert!(block_is_valid(&b));
}

#[test]
fn path_edit_drag_segment_slides_a_vertical_edge() {
    let mut b = block(vec![(1, 1), (1, 5)], false);
    // Vertical edge: only the column moves; both endpoints follow.
    assert!(drag_segment(&mut b, 0, (3, 99)));
    assert_eq!(b.points, vec![(3, 1), (3, 5)]);
}

#[test]
fn path_edit_drag_segment_reverts_when_it_would_collapse_a_neighbour() {
    // Open L-shape: dragging the top edge down onto row 4 would make its
    // right corner coincide with the next point, so the move is refused.
    let mut b = block(vec![(1, 1), (4, 1), (4, 4)], false);
    assert!(!drag_segment(&mut b, 0, (99, 4)));
    assert_eq!(b.points, vec![(1, 1), (4, 1), (4, 4)]);
}

#[test]
fn path_edit_left_click_on_edge_starts_a_segment_drag() {
    let mut level = empty_level();
    level.path_blocks.push(block(vec![(1, 1), (5, 1)], false));
    let (mut active, mut drag, mut new) = (None, None, false);
    let t = click_at(&level, 3, 1); // a tile on the edge
    assert!(!path_left_click(&mut level, &mut active, &mut drag, &mut new, t));
    assert_eq!(active, Some(0));
    assert_eq!(drag, Some(Drag::Segment(0)));
}
