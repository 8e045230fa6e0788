use rustgamex::level::{
    move_coord, parse_all, tile_to_char, whole_coord_of, DecoLayer, Decoration, Edge, ExitDoor,
    LevelData,
};

#[test]
fn parses_grid_with_all_tile_characters() {
    let level = LevelData::parse("P.1345678\n^>v<E....").unwrap();
    assert_eq!(level.tiles[0], vec![0, 0, 1, 3, 4, 5, 6, 7, 8]);
    assert_eq!(level.tiles[1], vec![9, 10, 11, 12, 13, 0, 0, 0, 0]);
}

#[test]
fn parses_header_and_spawn() {
    let level = LevelData::parse("name: My Level\n\n...\n.P.\n111").unwrap();
    assert_eq!(level.name, "My Level");
    // P is at tile (1, 1): centered horizontally, feet on the tile floor
    assert_eq!(level.spawn, (52, 42));
    // The spawn tile itself is empty space
    assert_eq!(level.tiles[1][1], 0);
}

#[test]
fn pads_short_rows_to_uniform_width() {
    let level = LevelData::parse("P....\n11").unwrap();
    assert_eq!(level.tiles[1], vec![1, 1, 0, 0, 0]);
}

#[test]
fn header_is_optional() {
    let level = LevelData::parse("P.E\n111").unwrap();
    assert_eq!(level.name, "");
}

#[test]
fn rejects_unknown_character() {
    let err = LevelData::parse("P?\n11").unwrap_err();
    assert!(err.contains("'?'"), "unexpected error: {}", err);
}

#[test]
fn rejects_missing_spawn() {
    let err = LevelData::parse("...\n111").unwrap_err();
    assert!(err.contains("spawn"), "unexpected error: {}", err);
}

#[test]
fn rejects_duplicate_spawn() {
    let err = LevelData::parse("P.P\n111").unwrap_err();
    assert!(err.contains("more than one spawn"), "unexpected error: {}", err);
}

#[test]
fn rejects_empty_input() {
    assert!(LevelData::parse("").is_err());
    assert!(LevelData::parse("name: x\n\n").is_err());
}

#[test]
fn to_text_round_trips_through_parse() {
    let original = LevelData::parse(
        "name: Round Trip\nblock: 1,1 4,1 4,3 1,3 loop\nblock: 2,5 2,7\ndeco: 40,80 27\ndeco: 12.5,0 3\n\n.P1345678\n^>v<E.1.E",
    )
    .unwrap();
    let reparsed = LevelData::parse(&original.to_text()).unwrap();

    assert_eq!(reparsed.name, original.name);
    assert_eq!(reparsed.spawn, original.spawn);
    assert_eq!(reparsed.tiles, original.tiles);
    assert_eq!(reparsed.path_blocks, original.path_blocks);
    assert_eq!(reparsed.decorations, original.decorations);
}

#[test]
fn parses_decorations_with_pixel_coordinates() {
    let level = LevelData::parse("deco: 40,80 27\ndeco: 12.5,0 3\n\nP.\n11").unwrap();
    let d = &level.decorations;
    assert_eq!(d.len(), 2);
    assert_eq!(d[0].x.parse::<f32>().unwrap(), 40.0);
    assert_eq!(d[0].y.parse::<f32>().unwrap(), 80.0);
    assert_eq!(d[0].sprite, 27);
    assert_eq!(d[1].x.parse::<f32>().unwrap(), 12.5);
    assert_eq!(d[1].y.parse::<f32>().unwrap(), 0.0);
    assert_eq!(d[1].sprite, 3);
}

#[test]
fn rejects_decoration_with_bad_sprite_index() {
    assert!(LevelData::parse("deco: 0,0 0\n\nP.\n11").is_err());
    assert!(LevelData::parse("deco: 0,0 x\n\nP.\n11").is_err());
    assert!(LevelData::parse("deco: 00 1\n\nP.\n11").is_err());
    assert!(LevelData::parse("deco: 0,0\n\nP.\n11").is_err());
}

#[test]
fn parses_open_and_closed_path_blocks() {
    let level = LevelData::parse("block: 1,1 4,1 4,3 1,3 loop\nblock: 2,5 2,7\n\nP.\n11").unwrap();
    assert_eq!(level.path_blocks.len(), 2);
    assert_eq!(level.path_blocks[0].points, vec![(1, 1), (4, 1), (4, 3), (1, 3)]);
    assert!(level.path_blocks[0].closed);
    assert_eq!(level.path_blocks[1].points, vec![(2, 5), (2, 7)]);
    assert!(!level.path_blocks[1].closed);
}

#[test]
fn rejects_diagonal_path_segment() {
    let err = LevelData::parse("block: 1,1 3,3\n\nP.\n11").unwrap_err();
    assert!(err.contains("horizontal or vertical"), "unexpected error: {}", err);
}

#[test]
fn rejects_closing_wrap_that_is_not_axis_aligned() {
    // 1,1 -> 4,1 -> 4,3 are fine, but the wrap 4,3 -> 1,1 is diagonal.
    let err = LevelData::parse("block: 1,1 4,1 4,3 loop\n\nP.\n11").unwrap_err();
    assert!(err.contains("horizontal or vertical"), "unexpected error: {}", err);
}

#[test]
fn rejects_zero_length_path_segment() {
    let err = LevelData::parse("block: 2,2 2,2\n\nP.\n11").unwrap_err();
    assert!(err.contains("horizontal or vertical"), "unexpected error: {}", err);
}

#[test]
fn rejects_path_block_with_too_few_points() {
    let err = LevelData::parse("block: 2,2\n\nP.\n11").unwrap_err();
    assert!(err.contains("at least two"), "unexpected error: {}", err);
}

#[test]
fn spawn_tile_inverts_pixel_placement() {
    let level = LevelData::parse("name: x\n\n...\n.P.\n111").unwrap();
    assert_eq!(level.spawn_tile(), (1, 1));
}

#[test]
fn grow_right_and_bottom_extends_without_moving_content() {
    let mut level = LevelData::parse(".P.\n111").unwrap();
    level.grow(Edge::Right);
    level.grow(Edge::Bottom);

    assert_eq!(level.width(), 4);
    assert_eq!(level.height(), 3);
    assert_eq!(level.spawn_tile(), (1, 0), "spawn should not move");
    assert_eq!(level.tiles[0], vec![0, 0, 0, 0]);
    assert_eq!(level.tiles[1], vec![1, 1, 1, 0]);
    assert_eq!(level.tiles[2], vec![0, 0, 0, 0], "new empty bottom row");
}

#[test]
fn grow_top_and_left_shifts_content_and_spawn() {
    let mut level = LevelData::parse(".P.\n111").unwrap();
    level.grow(Edge::Top);
    level.grow(Edge::Left);

    assert_eq!(level.width(), 4);
    assert_eq!(level.height(), 3);
    // Spawn was at (1,0); a top row and a left column push it to (2,1)
    assert_eq!(level.spawn_tile(), (2, 1));
    assert_eq!(level.tiles[0], vec![0, 0, 0, 0], "new empty top row");
    assert_eq!(level.tiles[2], vec![0, 1, 1, 1], "ground shifted right");
}

#[test]
fn shrink_clamps_spawn_and_refuses_below_minimum() {
    let mut level = LevelData::parse("..\nP1").unwrap();
    // Spawn sits in the bottom-left; removing the bottom row must pull it up
    assert_eq!(level.spawn_tile(), (0, 1));
    assert!(level.shrink(Edge::Bottom));
    assert_eq!(level.height(), 1);
    assert_eq!(level.spawn_tile(), (0, 0), "spawn clamped into remaining row");

    // Now 2 wide, 1 tall: the last row can't be removed
    assert!(!level.shrink(Edge::Bottom));
    assert!(level.shrink(Edge::Right));
    assert!(!level.shrink(Edge::Right), "1x1 grid cannot shrink further");
    assert_eq!(level.width(), 1);
    assert_eq!(level.height(), 1);
}

#[test]
fn grow_then_shrink_same_edge_restores_tiles_and_spawn() {
    let original = LevelData::parse("..1\n.P1\n111").unwrap();
    for edge in [Edge::Top, Edge::Bottom, Edge::Left, Edge::Right] {
        let mut level = LevelData::parse("..1\n.P1\n111").unwrap();
        level.grow(edge);
        assert!(level.shrink(edge));
        assert_eq!(level.tiles, original.tiles);
        assert_eq!(level.spawn, original.spawn);
    }
}

#[test]
fn parse_reports_bad_block_point() {
    assert!(LevelData::parse("block: 1;1 2,1\n\nP.\n11").is_err());
    assert!(LevelData::parse("block: x,1 2,1\n\nP.\n11").is_err());
}

#[test]
fn to_text_writes_header_blocks_and_grid() {
    let level = LevelData::parse("name: T\nblock: 1,1 3,1\n\nP.\n11").unwrap();
    let text = level.to_text();
    let again = LevelData::parse(&text).unwrap();
    assert_eq!(again.name, "T");
    assert_eq!(again.path_blocks[0].points, vec![(1, 1), (3, 1)]);
    assert_eq!(again.tiles, vec![vec![0, 0], vec![1, 1]]);
}

#[test]
fn tile_to_char_maps_every_tile() {
    assert_eq!(tile_to_char(0), '.');
    assert_eq!(tile_to_char(1), '1');
    assert_eq!(tile_to_char(9), '^');
    assert_eq!(tile_to_char(10), '>');
    assert_eq!(tile_to_char(11), 'v');
    assert_eq!(tile_to_char(12), '<');
    assert_eq!(tile_to_char(13), 'E');
}

#[test]
fn parse_all_prefixes_the_failing_path() {
    let files = vec![
        ("a.txt".to_string(), "P.\n11".to_string()),
        ("b.txt".to_string(), "P?\n11".to_string()),
        ("c.txt".to_string(), "".to_string()),
    ];
    let err = parse_all(&files).err().unwrap();
    assert!(err.starts_with("b.txt: "), "{}", err);
    assert!(err.contains("'?'"), "{}", err);
    let ok = parse_all(&files[..1].to_vec()).unwrap();
    assert_eq!(ok.len(), 1);
    assert_eq!(ok[0].tiles, vec![vec![0, 0], vec![1, 1]]);
}

#[test]
fn grow_and_shrink_shift_decorations_with_content() {
    let mut level = LevelData::parse("deco: 40,40 5\n\n.P.\n111").unwrap();
    // Growing the top and left edges pushes content (and decorations) by one
    // tile down and right.
    level.grow(Edge::Top);
    level.grow(Edge::Left);
    assert_eq!(
        level.decorations[0],
        Decoration { x: "80".to_string(), y: "80".to_string(), sprite: 5, layer: DecoLayer::Background }
    );
    // Shrinking those edges again restores the original placement.
    level.shrink(Edge::Top);
    level.shrink(Edge::Left);
    assert_eq!(
        level.decorations[0],
        Decoration { x: "40".to_string(), y: "40".to_string(), sprite: 5, layer: DecoLayer::Background }
    );
}

#[test]
fn grow_top_and_left_move_path_blocks_with_the_grid() {
    let mut level = LevelData::parse("block: 1,1 3,1\n\n.P.\n111").unwrap();
    level.grow(Edge::Top);
    level.grow(Edge::Left);
    assert_eq!(level.path_blocks[0].points, vec![(2, 2), (4, 2)]);
    assert_eq!(level.spawn_tile(), (2, 1));
    level.grow(Edge::Right);
    level.grow(Edge::Bottom);
    assert_eq!(level.path_blocks[0].points, vec![(2, 2), (4, 2)]);
    assert!(level.shrink(Edge::Left));
    assert!(level.shrink(Edge::Top));
    assert_eq!(level.path_blocks[0].points, vec![(1, 1), (3, 1)]);
}

#[test]
fn shrink_keeps_path_points_on_the_first_row() {
    let mut level = LevelData::parse("block: 0,0 0,2\n\n.P.\n111\n...").unwrap();
    assert!(level.shrink(Edge::Top));
    assert_eq!(level.path_blocks[0].points, vec![(0, 0), (0, 1)]);
}

#[test]
fn resize_moves_whole_coordinates_and_keeps_other_text() {
    let mut level =
        LevelData::parse("deco: -40,0 1\ndeco: 12.5,+7 2\ndeco: 16777200,1e3 3\n\nP.\n11").unwrap();
    level.grow(Edge::Left);
    assert_eq!(level.decorations[0].x, "0");
    assert_eq!(level.decorations[1].x, "12.5");
    assert_eq!(level.decorations[2].x, "16777200");
    level.grow(Edge::Top);
    assert_eq!(level.decorations[0].y, "40");
    assert_eq!(level.decorations[1].y, "47");
    assert_eq!(level.decorations[2].y, "1e3");
    assert!(level.shrink(Edge::Top));
    assert!(level.shrink(Edge::Top));
    assert_eq!(level.decorations[0].y, "-40");
}

#[test]
fn whole_coordinates_read_with_sign() {
    assert_eq!(whole_coord_of(&"-12".to_string()), Some(-12));
    assert_eq!(whole_coord_of(&"+7".to_string()), Some(7));
    assert_eq!(whole_coord_of(&"007".to_string()), Some(7));
    assert_eq!(whole_coord_of(&"-+7".to_string()), None);
    assert_eq!(whole_coord_of(&"-".to_string()), None);
    assert_eq!(whole_coord_of(&"12.0".to_string()), Some(12));
    assert_eq!(whole_coord_of(&"-3.00".to_string()), Some(-3));
    assert_eq!(whole_coord_of(&"5.".to_string()), Some(5));
    assert_eq!(whole_coord_of(&"12.5".to_string()), None);
    assert_eq!(whole_coord_of(&"1.01".to_string()), None);
    assert_eq!(whole_coord_of(&".0".to_string()), None);
    assert_eq!(whole_coord_of(&"4e1".to_string()), None);
    assert_eq!(whole_coord_of(&"16777176".to_string()), Some(16777176));
    assert_eq!(whole_coord_of(&"16777177".to_string()), None);
    assert_eq!(move_coord(&"-20".to_string(), 40), "20");
    assert_eq!(move_coord(&"5".to_string(), -40), "-35");
}

#[test]
fn to_text_writes_whole_coordinates_in_shortest_form() {
    let level = LevelData::parse("deco: 40.0,+7 2\ndeco: 12.5,-0 3\n\nP.\n11").unwrap();
    let text = level.to_text();
    assert!(text.contains("deco: 40,7 2\n"), "{}", text);
    assert!(text.contains("deco: 12.5,0 3\n"), "{}", text);
    let again = LevelData::parse(&text).unwrap();
    assert_eq!(again.decorations[0].x, "40");
    assert_eq!(again.decorations[0].y, "7");
    assert_eq!(again.decorations[1].x, "12.5");
    assert_eq!(again.to_text(), text);
}

#[test]
fn grow_moves_whole_coordinates_written_with_a_point() {
    let mut level = LevelData::parse("deco: 40.0,0.00 2\n\nP.\n11").unwrap();
    level.grow(Edge::Left);
    level.grow(Edge::Top);
    assert_eq!(level.decorations[0].x, "80");
    assert_eq!(level.decorations[0].y, "40");
}

#[test]
fn shrink_undoes_grow_on_every_edge() {
    let text = "name: Back\nblock: 1,0 1,2 loop\nblock: 0,1 2,1\ndeco: 40,-80 4\ndeco: 12.5,7 9\n\n..1\n.P1\n111";
    let original = LevelData::parse(text).unwrap();
    for edge in [Edge::Top, Edge::Bottom, Edge::Left, Edge::Right] {
        let mut level = LevelData::parse(text).unwrap();
        level.grow(edge);
        assert!(level.shrink(edge));
        assert_eq!(level.name, original.name);
        assert_eq!(level.tiles, original.tiles);
        assert_eq!(level.spawn, original.spawn);
        assert_eq!(level.path_blocks, original.path_blocks);
        assert_eq!(level.decorations, original.decorations);
    }
}

#[test]
fn parses_id_foreground_decorations_and_red_coins() {
    let level = LevelData::parse("id: a\nfgdeco: 40,80 27\n\nP.R\n111").unwrap();
    assert_eq!(level.id, "a");
    assert_eq!(level.tiles, vec![vec![0, 0, 17], vec![1, 1, 1]]);
    assert_eq!(
        level.decorations,
        vec![Decoration {
            x: "40".to_string(),
            y: "80".to_string(),
            sprite: 27,
            layer: DecoLayer::Foreground
        }]
    );
}

#[test]
fn parses_exit_routing_and_secret_doors() {
    let level =
        LevelData::parse("id: level01\nexit: 2,0 level02\nexit: 3,0 hidden\n\nP.ES\n1111").unwrap();
    assert_eq!(level.tiles[0], vec![0, 0, 13, 16]);
    assert_eq!(
        level.exits,
        vec![
            ExitDoor { tile: (2, 0), dest: "level02".to_string() },
            ExitDoor { tile: (3, 0), dest: "hidden".to_string() },
        ]
    );
}

#[test]
fn rejects_malformed_exit_lines() {
    let err = LevelData::parse("exit: 2,0\n\nP.E\n111").unwrap_err();
    assert!(err.contains("destination"), "{}", err);
    let err = LevelData::parse("exit: 2;0 b\n\nP.E\n111").unwrap_err();
    assert!(err.contains("invalid exit door tile '2;0'"), "{}", err);
    let err = LevelData::parse("exit: 2,0 b c\n\nP.E\n111").unwrap_err();
    assert!(err.contains("destination"), "{}", err);
}

#[test]
fn to_text_round_trips_ids_exits_and_layers() {
    let text = "name: N\nid: lvl\nblock: 0,0 1,0\ndeco: 40,80 2\nfgdeco: 0,0 3\nexit: 2,0 next\n\nP.ES\nR111";
    let level = LevelData::parse(text).unwrap();
    let written = level.to_text();
    assert_eq!(written, format!("{}\n", text));
    let again = LevelData::parse(&written).unwrap();
    assert_eq!(again.id, level.id);
    assert_eq!(again.exits, level.exits);
    assert_eq!(again.decorations, level.decorations);
    assert_eq!(again.tiles, level.tiles);
}

#[test]
fn grow_moves_exit_routing_with_the_doors() {
    let mut level = LevelData::parse("exit: 2,0 b\n\nP.E\n111").unwrap();
    level.grow(Edge::Top);
    level.grow(Edge::Left);
    assert_eq!(level.exits[0].tile, (3, 1));
    assert_eq!(level.tiles[1][3], 13);
    assert!(level.shrink(Edge::Left));
    assert!(level.shrink(Edge::Top));
    assert_eq!(level.exits[0].tile, (2, 0));
}
