use rustgamex::level::{LevelData, PathBlock};
use rustgamex::tilemap::{platform_destroy_sprite, platform_direction, PathState, Tile, TileGrid};
use rustgamex::tiles;

fn grid(level: &LevelData) -> (TileGrid, Vec<Tile>) {
    TileGrid::from_data(level.tiles.clone())
}

#[test]
fn moving_platforms_are_lifted_out_of_the_grid() {
    let level = LevelData::parse("P.^\n>11").unwrap();
    let (g, platforms) = grid(&level);
    assert_eq!(g.width, 3);
    assert_eq!(g.height, 2);
    assert_eq!(g.tiles, vec![vec![0, 0, 0], vec![0, 1, 1]]);
    assert_eq!(
        platforms,
        vec![
            Tile { tile_type: tiles::MOVE_UP, x: 2, y: 0 },
            Tile { tile_type: tiles::MOVE_RIGHT, x: 0, y: 1 },
        ]
    );
}

#[test]
fn reset_restores_the_grid_without_platforms() {
    let level = LevelData::parse("P4^\n111").unwrap();
    let (mut g, _) = grid(&level);
    g.set_tile(1, 0, tiles::EMPTY);
    g.set_tile(0, 1, tiles::EMPTY);
    g.reset();
    assert_eq!(g.tiles, vec![vec![0, 4, 0], vec![1, 1, 1]]);
}

#[test]
fn tiles_of_type_lists_cells_in_row_major_order() {
    let level = LevelData::parse("P.E\nE11").unwrap();
    let (g, _) = grid(&level);
    assert_eq!(
        g.tiles_of_type(tiles::EXIT),
        vec![Tile { tile_type: 13, x: 2, y: 0 }, Tile { tile_type: 13, x: 0, y: 1 }]
    );
    assert_eq!(g.tiles_of_type(tiles::SOLID).len(), 2);
}

#[test]
fn doors_open_once_every_coin_is_collected() {
    let mut level = LevelData::parse("P.E\n111").unwrap();
    level.tiles[0][1] = tiles::COIN;
    let (mut g, _) = grid(&level);
    assert_eq!(g.coins_remaining(), 1);
    assert!(!g.doors_open());
    g.set_tile(1, 0, tiles::EMPTY);
    assert_eq!(g.coins_remaining(), 0);
    assert!(g.doors_open());
}

#[test]
fn solid_and_tile_queries_treat_outside_as_empty() {
    let level = LevelData::parse("P.7\n118").unwrap();
    let (g, _) = grid(&level);
    assert!(g.is_solid(0, 1));
    assert!(g.is_solid(2, 0));
    assert!(!g.is_solid(2, 1));
    assert!(!g.is_solid(-1, 0));
    assert!(!g.is_solid(0, 5));
    assert_eq!(g.get_tile(2, 1), tiles::PERIODIC_GHOST);
    assert_eq!(g.get_tile(9, 9), tiles::EMPTY);
    assert!(g.any_solid_in(-1, 0, 1, 2));
    assert!(!g.any_solid_in(0, 1, -3, 0));
}

#[test]
fn test_periodic_tiles_swap_phases_and_back() {
    let level = LevelData::parse("P78\n111").unwrap();
    let (mut g, _) = grid(&level);
    g.swap_periodic_tiles();
    assert_eq!(g.tiles[0], vec![0, 8, 7]);
    g.swap_periodic_tiles();
    assert_eq!(g.tiles[0], vec![0, 7, 8]);
}

#[test]
fn touching_only_starts_crumbling_tiles() {
    let level = LevelData::parse("P456\n1111").unwrap();
    let (g, _) = grid(&level);
    assert_eq!(g.crumbling_at(1, 0), Some(tiles::CRUMBLE));
    assert_eq!(g.crumbling_at(3, 0), Some(tiles::CRUMBLE_VERY_CRACKED));
    assert_eq!(g.crumbling_at(0, 1), None);
    assert_eq!(g.crumbling_at(-1, 0), None);
}

#[test]
fn platforms_move_along_their_arrow() {
    assert_eq!(platform_direction(tiles::MOVE_UP), (0, -1));
    assert_eq!(platform_direction(tiles::MOVE_RIGHT), (1, 0));
    assert_eq!(platform_direction(tiles::MOVE_DOWN), (0, 1));
    assert_eq!(platform_direction(tiles::MOVE_LEFT), (-1, 0));
    assert_eq!(platform_direction(tiles::SOLID), (0, 0));
    assert_eq!(platform_destroy_sprite(tiles::MOVE_DOWN, 0), (160, 80));
    assert_eq!(platform_destroy_sprite(tiles::MOVE_DOWN, 1), (160, 120));
    assert_eq!(platform_destroy_sprite(tiles::SOLID, 1), (0, 0));
}

#[test]
fn open_path_reverses_at_each_end() {
    let def = PathBlock { points: vec![(1, 1), (2, 1), (3, 1)], closed: false };
    let mut p = PathState::from_block(&def).unwrap();
    assert_eq!(p.target(), 1);
    assert_eq!(p.target_point(), (2, 1));
    let mut seen = Vec::new();
    for _ in 0..4 {
        p.advance();
        seen.push(p.target());
    }
    // 1 -> 2 (far end) -> 1 -> 0 (start) -> 1: back to the starting state.
    assert_eq!(seen, vec![2, 1, 0, 1]);
}

#[test]
fn closed_loop_comes_round_after_one_advance_per_point() {
    let def = PathBlock { points: vec![(1, 1), (3, 1), (3, 3), (1, 3)], closed: true };
    let mut p = PathState::from_block(&def).unwrap();
    let start = p.target();
    let mut seen = Vec::new();
    for _ in 0..p.len() {
        p.advance();
        seen.push(p.target());
    }
    assert_eq!(seen, vec![2, 3, 0, 1]);
    assert_eq!(p.target(), start);
}

#[test]
fn a_block_needs_two_points_to_move() {
    let def = PathBlock { points: vec![(1, 1)], closed: false };
    assert!(PathState::from_block(&def).is_none());
}
