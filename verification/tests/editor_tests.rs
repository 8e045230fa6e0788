use rustgamex::editor::{
    key_command, layer_name, path_menu_command, topbar_command, DecoLayer, EditorState, Effect,
    Key, Mode, MouseBtn, Overlay, Pan, PressTarget, UICommand,
};
use rustgamex::layout::{
    cursor_tile_i, in_deco_picker, in_overlay, overlay_rect, overlay_row_at, palette_slot_at,
    picker_sprite_at, ButtonRect, PICKER_X, PICKER_Y,
};
use rustgamex::level::{Edge, ExitDoor, LevelData, PathBlock};
use rustgamex::select::{SelectDrag, Selection};
use rustgamex::tiles;
use rustgamex::tools::{
    apply_tool, erase_deco, is_door, place_deco, reconcile_exit, set_exit_dest, Tool,
};

fn empty_level() -> LevelData {
    let mut rows = vec![".".repeat(10); 10];
    rows[9].replace_range(0..1, "P");
    LevelData::parse(&rows.join("\n")).unwrap()
}

#[test]
fn mode_and_tool_names() {
    assert_eq!(Mode::Normal.name(), "Normal (tiles)");
    assert_eq!(Mode::Path.name(), "Path blocks");
    assert_eq!(Mode::Select.name(), "Select (region)");
    assert_eq!(Tool::Erase.name(), "Erase");
    assert_eq!(Tool::Spawn.name(), "Spawn");
    assert_eq!(Tool::Tile(13).name(), "Tile 13");
    assert_eq!(layer_name(DecoLayer::Foreground), "Foreground");
}

#[test]
fn pan_clear_releases_every_key() {
    let mut p = Pan { left: true, right: true, up: false, down: true };
    p.clear();
    assert_eq!(p, Pan { left: false, right: false, up: false, down: false });
}

#[test]
fn button_rect_hit_test_and_centre() {
    let b = ButtonRect::new(10, 20, 30, 40);
    assert!(b.contains(10, 20));
    assert!(b.contains(39, 59));
    assert!(!b.contains(40, 20));
    assert!(!b.contains(10, 60));
    assert_eq!(b.center(), (25, 40));
}

#[test]
fn key_bindings() {
    assert_eq!(
        key_command(Key::Up, true, false, Mode::Normal),
        Some(UICommand::Resize { edge: Edge::Top, shrink: false })
    );
    assert_eq!(
        key_command(Key::Left, true, true, Mode::Normal),
        Some(UICommand::Resize { edge: Edge::Left, shrink: true })
    );
    assert_eq!(key_command(Key::Up, false, false, Mode::Normal), None);
    assert_eq!(key_command(Key::S, true, false, Mode::Normal), Some(UICommand::Save));
    assert_eq!(key_command(Key::S, false, false, Mode::Normal), None);
    assert_eq!(key_command(Key::Q, false, false, Mode::Deco), Some(UICommand::Quit));
    assert_eq!(key_command(Key::Tab, false, false, Mode::Path), Some(UICommand::CycleBlock));
    assert_eq!(key_command(Key::Tab, false, false, Mode::Normal), Some(UICommand::OpenLevels));
    assert_eq!(key_command(Key::N, false, false, Mode::Normal), None);
    assert_eq!(key_command(Key::N, false, false, Mode::Path), Some(UICommand::NewBlock));
    assert_eq!(
        key_command(Key::Delete, false, false, Mode::Select),
        Some(UICommand::EraseSelection)
    );
    assert_eq!(key_command(Key::Backspace, false, false, Mode::Normal), None);
    assert_eq!(key_command(Key::F3, false, false, Mode::Normal), Some(UICommand::FlipDecoLayer));
}

#[test]
fn toolbar_buttons() {
    assert_eq!(topbar_command(MouseBtn::Left, 10, 10), Some(UICommand::OpenLevels));
    assert_eq!(topbar_command(MouseBtn::Left, 180, 10), Some(UICommand::ToggleBlockMode));
    assert_eq!(topbar_command(MouseBtn::Right, 180, 10), None);
    assert_eq!(topbar_command(MouseBtn::Left, 750, 10), Some(UICommand::Play));
    assert_eq!(
        topbar_command(MouseBtn::Left, 585, 10),
        Some(UICommand::Resize { edge: Edge::Top, shrink: false })
    );
    assert_eq!(
        topbar_command(MouseBtn::Right, 705, 10),
        Some(UICommand::Resize { edge: Edge::Right, shrink: true })
    );
    assert_eq!(topbar_command(MouseBtn::Left, 500, 10), None);
    assert_eq!(path_menu_command(MouseBtn::Left, 10, 650), Some(UICommand::NewBlock));
    assert_eq!(path_menu_command(MouseBtn::Left, 70, 650), Some(UICommand::ToggleLoop));
    assert_eq!(path_menu_command(MouseBtn::Right, 10, 650), None);
}

#[test]
fn overlay_rows_slots_and_picker() {
    let r = overlay_rect(3);
    assert_eq!(r, ButtonRect { x: 180, y: 36 + (600 - 118) / 2, w: 440, h: 118 });
    let first = r.y + 36;
    assert_eq!(overlay_row_at(3, 300, first), Some(0));
    assert_eq!(overlay_row_at(3, 300, first + 24 * 2 + 5), Some(2));
    assert_eq!(overlay_row_at(3, 300, first + 24 * 3), None);
    assert_eq!(overlay_row_at(3, 185, first), None);
    assert!(in_overlay(3, 200, r.y));
    assert!(!in_overlay(3, 100, r.y));
    assert_eq!(palette_slot_at(8, 5), Some(0));
    assert_eq!(palette_slot_at(8 + 46 + 39, 5), Some(1));
    assert_eq!(palette_slot_at(8 + 46 + 40, 5), None);
    assert_eq!(palette_slot_at(8 + 46 * 5, 5), None);
    assert!(in_deco_picker(560, 36));
    assert!(!in_deco_picker(559, 36));
    assert_eq!(picker_sprite_at(560, 36), Some(1));
    assert_eq!(picker_sprite_at(560 + 40 * 5, 36 + 40), Some(12));
    assert_eq!(picker_sprite_at(10, 10), None);
    assert_eq!(cursor_tile_i((45, 36 + 85), 0, -36), Some((1, 2)));
    assert_eq!(cursor_tile_i((45, 20), 0, -36), None);
    assert_eq!(overlay_rect(40).y, 44);
}

#[test]
fn commands_switch_modes_and_levels() {
    let mut s = EditorState::new();
    let mut level = empty_level();
    assert_eq!(s.execute(&mut level, 3, UICommand::PrevLevel), Effect::Nothing);
    assert_eq!(s.switch_to, Some(2));
    assert!(s.apply_switch());
    assert_eq!(s.current, 2);
    s.execute(&mut level, 3, UICommand::NextLevel);
    assert_eq!(s.switch_to, Some(0));
    s.execute(&mut level, 3, UICommand::ToggleBlockMode);
    assert_eq!(s.mode, Mode::Path);
    s.execute(&mut level, 3, UICommand::ToggleBlockMode);
    assert_eq!(s.mode, Mode::Normal);
    s.execute(&mut level, 3, UICommand::CycleDecoMode);
    assert_eq!((s.mode, s.deco_layer), (Mode::Deco, DecoLayer::Background));
    s.execute(&mut level, 3, UICommand::CycleDecoMode);
    assert_eq!(s.deco_layer, DecoLayer::Foreground);
    s.execute(&mut level, 3, UICommand::OpenLevels);
    assert_eq!(s.overlay, Some(Overlay::Jump));
    assert_eq!(s.execute(&mut level, 3, UICommand::Home), Effect::Home);
    assert_eq!(s.execute(&mut level, 3, UICommand::Save), Effect::Save);
    s.pan.left = true;
    assert_eq!(s.execute(&mut level, 3, UICommand::Play), Effect::Play);
    assert!(!s.pan.left);
    s.execute(&mut level, 3, UICommand::Quit);
    assert!(s.quit);
}

#[test]
fn resize_commands_report_the_content_shift() {
    let mut s = EditorState::new();
    let mut level = empty_level();
    let e = s.execute(&mut level, 1, UICommand::Resize { edge: Edge::Left, shrink: false });
    assert_eq!(e, Effect::Resized { dx: 1, dy: 0 });
    assert_eq!(level.width(), 11);
    assert!(s.dirty && s.retitle);
    let e = s.execute(&mut level, 1, UICommand::Resize { edge: Edge::Top, shrink: true });
    assert_eq!(e, Effect::Resized { dx: 0, dy: -1 });
    assert_eq!(level.height(), 9);
}

#[test]
fn path_block_commands() {
    let mut s = EditorState::new();
    let mut level = empty_level();
    level.path_blocks.push(PathBlock { points: vec![(1, 1), (4, 1), (4, 4), (1, 4)], closed: false });
    level.path_blocks.push(PathBlock { points: vec![(6, 1), (6, 3)], closed: false });
    s.execute(&mut level, 1, UICommand::CycleBlock);
    assert_eq!(s.active_block, Some(0));
    assert_eq!(s.execute(&mut level, 1, UICommand::ToggleLoop), Effect::Changed);
    assert!(level.path_blocks[0].closed);
    s.execute(&mut level, 1, UICommand::CycleBlock);
    s.execute(&mut level, 1, UICommand::CycleBlock);
    assert_eq!(s.active_block, Some(0));
    assert_eq!(s.execute(&mut level, 1, UICommand::DeleteBlock), Effect::Changed);
    assert_eq!(level.path_blocks.len(), 1);
    assert_eq!(s.active_block, None);
    s.execute(&mut level, 1, UICommand::NewBlock);
    assert!(s.start_new);
}

#[test]
fn selection_press_erase_and_move() {
    let mut s = EditorState::new();
    let mut level = empty_level();
    level.tiles[2][2] = tiles::SOLID;
    s.select_press(MouseBtn::Left, Some((2, 2)));
    assert_eq!(s.selection, Some(Selection { min: (2, 2), max: (2, 2) }));
    assert_eq!(s.select_drag, Some(SelectDrag::Marquee { anchor: (2, 2) }));
    s.select_press(MouseBtn::Left, Some((2, 2)));
    assert_eq!(s.select_drag, Some(SelectDrag::Move { grab: (0, 0), copy: false }));
    assert!(s.finish_select_drag(&mut level, Some((5, 6)), "level02"));
    assert_eq!(level.tiles[6][5], tiles::SOLID);
    assert_eq!(level.tiles[2][2], tiles::EMPTY);
    assert_eq!(s.selection, Some(Selection { min: (5, 6), max: (5, 6) }));
    assert_eq!(s.select_drag, None);
    assert_eq!(s.execute(&mut level, 1, UICommand::EraseSelection), Effect::Changed);
    assert_eq!(level.tiles[6][5], tiles::EMPTY);
    s.select_press(MouseBtn::Right, Some((0, 0)));
    assert_eq!(s.selection, None);
}

#[test]
fn overlay_click_jumps_or_closes() {
    let mut s = EditorState::new();
    s.overlay = Some(Overlay::Jump);
    let r = overlay_rect(2);
    assert_eq!(s.overlay_click(MouseBtn::Left, 300, r.y + 36 + 30, 2), None);
    assert_eq!(s.switch_to, Some(1));
    assert_eq!(s.overlay, None);
    s.overlay = Some(Overlay::PickDest);
    assert_eq!(s.overlay_click(MouseBtn::Left, 300, r.y + 36, 2), Some(0));
    s.overlay = Some(Overlay::Jump);
    s.overlay_click(MouseBtn::Left, 5, 5, 2);
    assert_eq!(s.overlay, None);
}

#[test]
fn tools_paint_erase_and_place_spawn() {
    let mut level = empty_level();
    assert!(apply_tool(&mut level, Tool::Tile(tiles::SOLID), "level02", 3, 3));
    assert!(!apply_tool(&mut level, Tool::Tile(tiles::SOLID), "level02", 3, 3));
    assert_eq!(level.tiles[3][3], tiles::SOLID);
    assert!(apply_tool(&mut level, Tool::Erase, "level02", 3, 3));
    assert!(!apply_tool(&mut level, Tool::Erase, "level02", 3, 3));
    assert!(!apply_tool(&mut level, Tool::Erase, "level02", 30, 3));
    level.tiles[4][4] = tiles::DEATH;
    assert!(apply_tool(&mut level, Tool::Spawn, "level02", 4, 4));
    assert_eq!(level.tiles[4][4], tiles::EMPTY);
    assert_eq!(level.spawn, (4 * 40 + 12, 4 * 40 + 2));
    assert_eq!(level.spawn_tile(), (4, 4));
}

#[test]
fn contains_reads_lengths_as_i32() {
    let wide = ButtonRect::new(0, 0, u32::MAX, 10);
    assert!(!wide.contains(0, 0));
    assert_eq!(wide.center(), (0, 5));
    assert_eq!(ButtonRect::new(10, 0, 0xFFFF_FFFC, 10).center(), (8, 5));
    let b = ButtonRect::new(8, 4, 76, 28);
    assert!(b.contains(8, 4));
    assert!(b.contains(83, 31));
    assert!(!b.contains(84, 4));
    assert!(!b.contains(83, 32));
    assert!(!b.contains(i32::MIN, 4));
}

#[test]
fn lookups_work_for_large_counts() {
    assert_eq!(palette_slot_at(8, 100_000_000), Some(0));
    assert_eq!(palette_slot_at(54, 100_000_000), Some(1));
    assert_eq!(palette_slot_at(48, 40_000_000), None);
    let r = overlay_rect(5_000_000);
    assert_eq!(r.y, 44);
    let first = r.y + 36;
    assert_eq!(overlay_row_at(5_000_000, 300, first + 24 * 7), Some(7));
    assert!(in_overlay(5_000_000, 300, first));
}

#[test]
fn presses_go_by_region_and_mode() {
    let mut s = EditorState::new();
    assert_eq!(s.press_target(100, 10), PressTarget::TopBar);
    assert_eq!(s.press_target(100, 640), PressTarget::Palette);
    assert_eq!(s.press_target(100, 300), PressTarget::Canvas);
    s.mode = Mode::Path;
    assert_eq!(s.press_target(100, 640), PressTarget::PathMenu);
    s.mode = Mode::Select;
    assert_eq!(s.press_target(100, 640), PressTarget::NoTool);
    s.mode = Mode::Deco;
    assert_eq!(s.press_target(PICKER_X, PICKER_Y), PressTarget::Picker);
    assert_eq!(s.press_target(PICKER_X - 1, PICKER_Y), PressTarget::Canvas);
    s.overlay = Some(Overlay::Jump);
    assert_eq!(s.press_target(100, 10), PressTarget::Overlay);
}

#[test]
fn overlay_rows_lie_inside_the_panel() {
    for count in [1usize, 3, 40] {
        let r = overlay_rect(count);
        let mut picked = 0;
        for y in r.y - 5..r.y + r.h as i32 + 5 {
            for x in [150, 185, 190, 300, 609, 610, 625] {
                if let Some(i) = overlay_row_at(count, x, y) {
                    assert!(i < count);
                    assert!(in_overlay(count, x, y));
                    picked += 1;
                }
            }
        }
        assert!(picked > 0);
    }
}

fn painting_a_door_syncs_a_routed_exit_and_erasing_removes_it_body() {
    let mut level = empty_level();
    // Painting a normal exit door creates its routed exit entry.
    assert!(apply_tool(&mut level, Tool::Tile(tiles::EXIT), "level02", 3, 3));
    assert_eq!(level.exits, vec![ExitDoor { tile: (3, 3), dest: "level02".to_string() }]);
    // Converting it to a secret door keeps the single exit entry.
    assert!(apply_tool(&mut level, Tool::Tile(tiles::SECRET_EXIT), "level02", 3, 3));
    assert_eq!(level.tiles[3][3], tiles::SECRET_EXIT);
    assert_eq!(level.exits.len(), 1);
    // Erasing the door drops its exit entry so the file stays valid.
    assert!(apply_tool(&mut level, Tool::Erase, "level02", 3, 3));
    assert!(level.exits.is_empty());
}

#[test]
fn tools_painting_a_door_syncs_a_routed_exit_and_erasing_removes_it() {
    painting_a_door_syncs_a_routed_exit_and_erasing_removes_it_body();
}

#[test]
fn level_editor_painting_a_door_syncs_a_routed_exit_and_erasing_removes_it() {
    painting_a_door_syncs_a_routed_exit_and_erasing_removes_it_body();
}

#[test]
fn doors_are_exit_and_secret_exit_tiles() {
    let mut level = empty_level();
    level.tiles[1][1] = tiles::EXIT;
    level.tiles[1][2] = tiles::SECRET_EXIT;
    level.tiles[1][3] = tiles::COIN;
    assert!(is_door(&level, (1, 1)));
    assert!(is_door(&level, (2, 1)));
    assert!(!is_door(&level, (3, 1)));
    reconcile_exit(&mut level, (1, 1), "x");
    reconcile_exit(&mut level, (1, 1), "y");
    reconcile_exit(&mut level, (3, 1), "z");
    assert_eq!(level.exits, vec![ExitDoor { tile: (1, 1), dest: "x".to_string() }]);
}

#[test]
fn routing_the_selected_door_sets_its_destination() {
    let mut level = empty_level();
    assert!(apply_tool(&mut level, Tool::Tile(tiles::EXIT), "level02", 3, 3));
    let mut s = EditorState::new();
    assert!(!s.route_selected_door(&mut level, "level05"));
    s.selected_door = Some((3, 3));
    assert!(s.route_selected_door(&mut level, "level05"));
    assert_eq!(level.exits[0].dest, "level05");
    s.selected_door = Some((4, 4));
    assert!(!s.route_selected_door(&mut level, "level06"));
    assert!(set_exit_dest(&mut level, (3, 3), "level07"));
    assert_eq!(level.exits[0].dest, "level07");
}

#[test]
fn default_exit_dest_is_the_next_levels_id() {
    let ids = vec!["a".to_string(), "b".to_string(), "c".to_string()];
    let mut s = EditorState::new();
    assert_eq!(s.default_exit_dest(&ids), "b");
    s.current = 2;
    assert_eq!(s.default_exit_dest(&ids), "a");
    s.current = 0;
    assert_eq!(s.default_exit_dest(&vec!["only".to_string()]), "only");
}

#[test]
fn erasing_a_selection_drops_its_doors_routing() {
    let mut level = empty_level();
    assert!(apply_tool(&mut level, Tool::Tile(tiles::EXIT), "d1", 3, 3));
    assert!(apply_tool(&mut level, Tool::Tile(tiles::EXIT), "d2", 6, 6));
    rustgamex::select::erase_selection(&mut level, Selection::from_corners((2, 2), (4, 4)));
    assert_eq!(level.tiles[3][3], tiles::EMPTY);
    assert_eq!(level.exits, vec![ExitDoor { tile: (6, 6), dest: "d2".to_string() }]);
}

#[test]
fn placing_a_decoration_replaces_or_adds() {
    let mut level = empty_level();
    assert!(place_deco(&mut level, None, 7, DecoLayer::Foreground, (2, 3)));
    assert_eq!(level.decorations.len(), 1);
    assert_eq!(level.decorations[0].x, "80");
    assert_eq!(level.decorations[0].y, "120");
    assert_eq!(level.decorations[0].layer, DecoLayer::Foreground);
    assert!(!place_deco(&mut level, Some(0), 7, DecoLayer::Foreground, (2, 3)));
    assert!(place_deco(&mut level, Some(0), 9, DecoLayer::Foreground, (2, 3)));
    assert_eq!(level.decorations[0].sprite, 9);
    assert!(!erase_deco(&mut level, None));
    assert!(erase_deco(&mut level, Some(0)));
    assert!(level.decorations.is_empty());
}

#[test]
fn exit_menu_picks_tools_and_opens_the_destination_picker() {
    let mut s = EditorState::new();
    s.mode = Mode::Exit;
    assert_eq!(s.press_target(100, 640), PressTarget::ExitMenu);
    assert_eq!(s.exit_menu_click(MouseBtn::Left, 54, 650, 4), Some(1));
    assert_eq!(s.exit_menu_click(MouseBtn::Right, 54, 650, 4), None);
    // The destination button needs a selected door.
    assert_eq!(s.exit_menu_click(MouseBtn::Left, 260, 650, 4), None);
    assert_eq!(s.overlay, None);
    s.selected_door = Some((3, 3));
    assert_eq!(s.exit_menu_click(MouseBtn::Left, 260, 650, 4), None);
    assert_eq!(s.overlay, Some(Overlay::PickDest));
}
