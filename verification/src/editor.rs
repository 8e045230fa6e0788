//! The level editor's discrete state and actions: the modes, the
//! `UICommand` every keyboard shortcut and toolbar button maps to, and the
//! state machine that runs a command against the level being edited.
//! What a command asks of the outside world (saving, launching the game,
//! moving the camera, shifting decorations) comes back as an `Effect`.
use vstd::prelude::*;
use crate::layout::{
    block_btn, deco_btn, exit_btn, levels_btn, normal_btn, path_loop_btn, path_new_btn, play_btn,
    resize_bot_btn, resize_left_btn, resize_right_btn, resize_top_btn, select_btn, ButtonRect,
};
pub use crate::level::DecoLayer;
use crate::level::{
    aligned, grid_width, grown_level, rows_view, shrink_refused, shrunk_level, Edge, ExitSpec,
    LevelData, LevelSpec, PathBlockSpec,
};
use crate::path_edit::{active_ok, toggle_loop, Drag};
use crate::select::{
    clamp_move_target, erase_selection, erased_tiles, move_selection, move_target_spec,
    moved_tiles, reconcile_touched, erased_exits, SelectDrag, Selection,
};
use crate::tiles::TilePos;

verus! {

/// Which editing mode the editor is in. Exactly one is active at a time.
#[derive(Clone, Copy, PartialEq, Eq, Structural, Debug)]
pub enum Mode {
    /// Paint normal tiles from the bottom palette.
    Normal,
    /// Edit path-block control points.
    Path,
    /// Place render-only decorations.
    Deco,
    /// Select exit doors.
    Exit,
    /// Select a rectangular block of tiles and drag it to move or copy it.
    Select,
}

impl Mode {
    pub open spec fn name_spec(self) -> Seq<char> {
        match self {
            Mode::Normal => "Normal (tiles)"@,
            Mode::Path => "Path blocks"@,
            Mode::Deco => "Decorations"@,
            Mode::Exit => "Exit doors"@,
            Mode::Select => "Select (region)"@,
        }
    }

    pub fn name(self) -> (r: &'static str)
        ensures
            r@ == self.name_spec(),
    {
        match self {
            Mode::Normal => "Normal (tiles)",
            Mode::Path => "Path blocks",
            Mode::Deco => "Decorations",
            Mode::Exit => "Exit doors",
            Mode::Select => "Select (region)",
        }
    }
}

/// The full-list level overlay, and what a click on one of its rows does.
#[derive(Clone, Copy, PartialEq, Eq, Structural, Debug)]
pub enum Overlay {
    /// Browsing levels: clicking a row switches to that level.
    Jump,
    /// Choosing where the selected exit door leads.
    PickDest,
}

/// Short human-readable name for a decoration layer.
pub fn layer_name(layer: DecoLayer) -> (r: &'static str)
    ensures
        r@ == (match layer {
            DecoLayer::Background => "Background"@,
            DecoLayer::Foreground => "Foreground"@,
        }),
{
    match layer {
        DecoLayer::Background => "Background",
        DecoLayer::Foreground => "Foreground",
    }
}

/// Camera-panning keys currently held.
#[derive(Clone, Copy, PartialEq, Eq, Debug, Default)]
pub struct Pan {
    pub left: bool,
    pub right: bool,
    pub up: bool,
    pub down: bool,
}

impl Pan {
    /// Release every panning key.
    pub fn clear(&mut self)
        ensures
            *final(self) == (Pan { left: false, right: false, up: false, down: false }),
    {
        *self = Pan { left: false, right: false, up: false, down: false };
    }
}

/// A discrete editor action, triggered by a toolbar button and/or a key.
#[derive(Clone, Copy, PartialEq, Eq, Debug)]
pub enum UICommand {
    /// Move to the previous / next level (wrapping).
    PrevLevel,
    NextLevel,
    /// Switch to a specific mode.
    SetMode(Mode),
    /// Path button: toggle between path mode and normal mode.
    ToggleBlockMode,
    /// Deco button: enter deco mode on the background layer, then toggle layers.
    CycleDecoMode,
    /// Enter deco mode, flipping the active layer on each press.
    FlipDecoLayer,
    /// Grow (or, when `shrink`, shrink) the canvas at one edge.
    Resize { edge: Edge, shrink: bool },
    /// Arm a fresh path block (the next level click places its first point).
    NewBlock,
    /// Toggle the active block between an open path and a closed loop.
    ToggleLoop,
    /// Remove the active path block.
    DeleteBlock,
    /// Cycle which path block is active.
    CycleBlock,
    /// Erase every tile in the current selection.
    EraseSelection,
    /// Toggle the grid overlay.
    ToggleGrid,
    /// Open the full-list level browser overlay.
    OpenLevels,
    /// Close any open overlay.
    CloseOverlay,
    /// Scroll the camera back to the level's origin.
    Home,
    /// Save the current level to its file.
    Save,
    /// Launch the game on the current level.
    Play,
    /// Quit the editor.
    Quit,
}

/// The keys the editor binds.
#[derive(Clone, Copy, PartialEq, Eq, Debug)]
pub enum Key {
    Up,
    Down,
    Left,
    Right,
    S,
    Escape,
    Q,
    Comma,
    PageUp,
    Period,
    PageDown,
    Home,
    G,
    F1,
    F2,
    F3,
    F4,
    F5,
    N,
    Tab,
    L,
    Delete,
    Backspace,
    Other,
}

/// A mouse button.
#[derive(Clone, Copy, PartialEq, Eq, Structural, Debug)]
pub enum MouseBtn {
    Left,
    Right,
    Other,
}

/// The command a key press triggers, if any (panning keys and unbound keys
/// give none): Ctrl+arrow resizes (Ctrl+Shift+arrow shrinks); the rest is a
/// fixed table, some entries only in path or select mode.
pub open spec fn key_command_spec(key: Key, ctrl: bool, shift: bool, mode: Mode) -> Option<UICommand> {
    if ctrl && (key is Up || key is Down || key is Left || key is Right) {
        let edge = match key {
            Key::Up => Edge::Top,
            Key::Down => Edge::Bottom,
            Key::Left => Edge::Left,
            _ => Edge::Right,
        };
        Some(UICommand::Resize { edge, shrink: shift })
    } else {
        match key {
            Key::S => if ctrl {
                Some(UICommand::Save)
            } else {
                None
            },
            Key::Escape | Key::Q => Some(UICommand::Quit),
            Key::Comma | Key::PageUp => Some(UICommand::PrevLevel),
            Key::Period | Key::PageDown => Some(UICommand::NextLevel),
            Key::Home => Some(UICommand::Home),
            Key::G => Some(UICommand::ToggleGrid),
            Key::F1 => Some(UICommand::SetMode(Mode::Normal)),
            Key::F2 => Some(UICommand::SetMode(Mode::Path)),
            Key::F3 => Some(UICommand::FlipDecoLayer),
            Key::F4 => Some(UICommand::SetMode(Mode::Exit)),
            Key::F5 => Some(UICommand::SetMode(Mode::Select)),
            Key::N => if mode is Path {
                Some(UICommand::NewBlock)
            } else {
                None
            },
            Key::L => if mode is Path {
                Some(UICommand::ToggleLoop)
            } else {
                None
            },
            Key::Tab => if mode is Path {
                Some(UICommand::CycleBlock)
            } else {
                Some(UICommand::OpenLevels)
            },
            Key::Delete | Key::Backspace => if mode is Path {
                Some(UICommand::DeleteBlock)
            } else if mode is Select {
                Some(UICommand::EraseSelection)
            } else {
                None
            },
            _ => None,
        }
    }
}

/// Map a key press (with its modifiers) to the command it triggers, if any.
pub fn key_command(key: Key, ctrl: bool, shift: bool, mode: Mode) -> (r: Option<UICommand>)
    ensures
        r == key_command_spec(key, ctrl, shift, mode),
{
    if ctrl {
        let edge = match key {
            Key::Up => Some(Edge::Top),
            Key::Down => Some(Edge::Bottom),
            Key::Left => Some(Edge::Left),
            Key::Right => Some(Edge::Right),
            _ => None,
        };
        if let Some(edge) = edge {
            return Some(UICommand::Resize { edge, shrink: shift });
        }
    }
    let path = mode == Mode::Path;
    match key {
        Key::S => if ctrl {
            Some(UICommand::Save)
        } else {
            None
        },
        Key::Escape | Key::Q => Some(UICommand::Quit),
        Key::Comma | Key::PageUp => Some(UICommand::PrevLevel),
        Key::Period | Key::PageDown => Some(UICommand::NextLevel),
        Key::Home => Some(UICommand::Home),
        Key::G => Some(UICommand::ToggleGrid),
        Key::F1 => Some(UICommand::SetMode(Mode::Normal)),
        Key::F2 => Some(UICommand::SetMode(Mode::Path)),
        Key::F3 => Some(UICommand::FlipDecoLayer),
        Key::F4 => Some(UICommand::SetMode(Mode::Exit)),
        Key::F5 => Some(UICommand::SetMode(Mode::Select)),
        Key::N => if path {
            Some(UICommand::NewBlock)
        } else {
            None
        },
        Key::L => if path {
            Some(UICommand::ToggleLoop)
        } else {
            None
        },
        Key::Tab => if path {
            Some(UICommand::CycleBlock)
        } else {
            Some(UICommand::OpenLevels)
        },
        Key::Delete | Key::Backspace => if path {
            Some(UICommand::DeleteBlock)
        } else if mode == Mode::Select {
            Some(UICommand::EraseSelection)
        } else {
            None
        },
        _ => None,
    }
}

/// The toolbar command under `(x, y)` for a press of `btn`: the mode and
/// action buttons answer only the left button; the resize buttons answer
/// both, left growing and right shrinking.
pub open spec fn topbar_spec(btn: MouseBtn, x: int, y: int) -> Option<UICommand> {
    let left_hit = if btn is Left {
        if (ButtonRect { x: 8, y: 4, w: 76, h: 28 }).holds(x, y) {
            Some(UICommand::OpenLevels)
        } else if (ButtonRect { x: 116, y: 4, w: 52, h: 28 }).holds(x, y) {
            Some(UICommand::SetMode(Mode::Normal))
        } else if (ButtonRect { x: 174, y: 4, w: 52, h: 28 }).holds(x, y) {
            Some(UICommand::ToggleBlockMode)
        } else if (ButtonRect { x: 232, y: 4, w: 52, h: 28 }).holds(x, y) {
            Some(UICommand::CycleDecoMode)
        } else if (ButtonRect { x: 290, y: 4, w: 52, h: 28 }).holds(x, y) {
            Some(UICommand::SetMode(Mode::Exit))
        } else if (ButtonRect { x: 348, y: 4, w: 52, h: 28 }).holds(x, y) {
            Some(UICommand::SetMode(Mode::Select))
        } else if (ButtonRect { x: 748, y: 4, w: 44, h: 28 }).holds(x, y) {
            Some(UICommand::Play)
        } else {
            None
        }
    } else {
        None
    };
    if left_hit is Some {
        left_hit
    } else {
        let edge = if (ButtonRect { x: 580, y: 4, w: 36, h: 28 }).holds(x, y) {
            Some(Edge::Top)
        } else if (ButtonRect { x: 620, y: 4, w: 36, h: 28 }).holds(x, y) {
            Some(Edge::Bottom)
        } else if (ButtonRect { x: 660, y: 4, w: 36, h: 28 }).holds(x, y) {
            Some(Edge::Left)
        } else if (ButtonRect { x: 700, y: 4, w: 36, h: 28 }).holds(x, y) {
            Some(Edge::Right)
        } else {
            None
        };
        match edge {
            Some(e) => Some(UICommand::Resize { edge: e, shrink: btn is Right }),
            None => None,
        }
    }
}

/// Map a mouse-button press in the top toolbar to the command it triggers.
pub fn topbar_command(btn: MouseBtn, x: i32, y: i32) -> (r: Option<UICommand>)
    ensures
        r == topbar_spec(btn, x as int, y as int),
{
    if btn == MouseBtn::Left {
        if levels_btn().contains(x, y) {
            return Some(UICommand::OpenLevels);
        } else if normal_btn().contains(x, y) {
            return Some(UICommand::SetMode(Mode::Normal));
        } else if block_btn().contains(x, y) {
            return Some(UICommand::ToggleBlockMode);
        } else if deco_btn().contains(x, y) {
            return Some(UICommand::CycleDecoMode);
        } else if exit_btn().contains(x, y) {
            return Some(UICommand::SetMode(Mode::Exit));
        } else if select_btn().contains(x, y) {
            return Some(UICommand::SetMode(Mode::Select));
        } else if play_btn().contains(x, y) {
            return Some(UICommand::Play);
        }
    }
    let edge = if resize_top_btn().contains(x, y) {
        Some(Edge::Top)
    } else if resize_bot_btn().contains(x, y) {
        Some(Edge::Bottom)
    } else if resize_left_btn().contains(x, y) {
        Some(Edge::Left)
    } else if resize_right_btn().contains(x, y) {
        Some(Edge::Right)
    } else {
        None
    };
    match edge {
        Some(e) => Some(UICommand::Resize { edge: e, shrink: btn == MouseBtn::Right }),
        None => None,
    }
}

/// Map a left-click in the path-mode HUD menu to the command it triggers.
pub fn path_menu_command(btn: MouseBtn, x: i32, y: i32) -> (r: Option<UICommand>)
    ensures
        r == (if !(btn is Left) {
            None
        } else if (ButtonRect { x: 8, y: 646, w: 52, h: 36 }).holds(x as int, y as int) {
            Some(UICommand::NewBlock)
        } else if (ButtonRect { x: 68, y: 646, w: 52, h: 36 }).holds(x as int, y as int) {
            Some(UICommand::ToggleLoop)
        } else {
            None
        }),
{
    if btn != MouseBtn::Left {
        return None;
    }
    if path_new_btn().contains(x, y) {
        Some(UICommand::NewBlock)
    } else if path_loop_btn().contains(x, y) {
        Some(UICommand::ToggleLoop)
    } else {
        None
    }
}

/// What a command asks of the world outside the editor state and the level.
#[derive(Clone, Copy, PartialEq, Eq, Debug)]
pub enum Effect {
    /// Nothing more to do.
    Nothing,
    /// The level changed: mark its document modified.
    Changed,
    /// The canvas was resized by `(dx, dy)` tiles at the top or left: mark the
    /// document modified. The level has moved its content, and every whole-
    /// number decoration coordinate with it; coordinates of other text are
    /// left for the caller to move as numbers.
    Resized { dx: i32, dy: i32 },
    /// Scroll the camera back to the origin.
    Home,
    /// Save the current level to its file.
    Save,
    /// Launch the game on the current level.
    Play,
}

/// Where a mouse press goes.
#[derive(Clone, Copy, PartialEq, Eq, Structural, Debug)]
pub enum PressTarget {
    /// The open level overlay takes every press.
    Overlay,
    /// The top toolbar.
    TopBar,
    /// The tool palette in the bottom bar (normal mode).
    Palette,
    /// The path action menu in the bottom bar (path mode).
    PathMenu,
    /// The exit palette and destination button in the bottom bar (exit
    /// mode).
    ExitMenu,
    /// The bottom bar of a mode that keeps no tools there.
    NoTool,
    /// The decoration sprite picker (deco mode).
    Picker,
    /// The level canvas.
    Canvas,
}

/// Where a press at `(x, y)` goes: the open overlay takes every press; above
/// the canvas is the toolbar; below it the bottom bar, whose content depends
/// on the mode; in deco mode the sprite picker lies over the canvas.
pub open spec fn press_target_spec(s: EditorState, x: int, y: int) -> PressTarget {
    if s.overlay is Some {
        PressTarget::Overlay
    } else if y < crate::layout::TOP_BAR_HEIGHT {
        PressTarget::TopBar
    } else if y >= crate::layout::HUD_TOP {
        match s.mode {
            Mode::Normal => PressTarget::Palette,
            Mode::Path => PressTarget::PathMenu,
            Mode::Exit => PressTarget::ExitMenu,
            _ => PressTarget::NoTool,
        }
    } else if s.mode is Deco && crate::layout::in_picker(x, y) {
        PressTarget::Picker
    } else {
        PressTarget::Canvas
    }
}

/// Everything the editor keeps from one frame to the next apart from the
/// documents, the camera and the rendered view.
#[derive(Clone, Copy, PartialEq, Eq, Debug)]
pub struct EditorState {
    pub current: usize,
    pub show_grid: bool,
    pub pan: Pan,
    pub mode: Mode,
    /// Path-block editing state (used while in path mode).
    pub active_block: Option<usize>,
    /// The point or edge currently being dragged within the active block.
    pub dragging: Option<Drag>,
    /// When set, the next left-click starts a fresh block instead of appending.
    pub start_new: bool,
    pub deco_layer: DecoLayer,
    /// The exit door currently selected (exit mode).
    pub selected_door: Option<TilePos>,
    /// The current rectangular tile selection (select mode).
    pub selection: Option<Selection>,
    /// The in-progress selection drag (select mode).
    pub select_drag: Option<SelectDrag>,
    /// Whether a Ctrl key is held, so a select drag copies instead of moving.
    pub copy_mod: bool,
    /// The open level overlay, if any.
    pub overlay: Option<Overlay>,
    /// The rendered view must be rebuilt from the level.
    pub dirty: bool,
    /// A pending level switch, applied once per frame.
    pub switch_to: Option<usize>,
    pub quit: bool,
    /// The window title needs refreshing.
    pub retitle: bool,
}

/// The state after switching to `mode`: per-mode transient state is reset,
/// the door selection survives only in exit mode and the tile selection only
/// in select mode.
pub open spec fn with_mode(s: EditorState, mode: Mode) -> EditorState {
    EditorState {
        mode,
        dragging: None,
        start_new: false,
        selected_door: if mode is Exit {
            s.selected_door
        } else {
            None
        },
        selection: if mode is Select {
            s.selection
        } else {
            None
        },
        select_drag: None,
        ..s
    }
}

/// The state after marking the level edited.
pub open spec fn marked(s: EditorState) -> EditorState {
    EditorState { dirty: true, retitle: true, ..s }
}

/// What `execute` may assume of the level for each command: an active block
/// that exists, a selection inside the grid, a spawn far from the integer
/// limits and non-empty rows for a resize.
pub open spec fn command_ok(s: EditorState, l: LevelSpec, cmd: UICommand) -> bool {
    match cmd {
        UICommand::Resize { .. } => {
            &&& -0x2000_0000_0000_0000 <= l.spawn.0 <= 0x2000_0000_0000_0000
            &&& -0x2000_0000_0000_0000 <= l.spawn.1 <= 0x2000_0000_0000_0000
            &&& forall|k: int| 0 <= k < l.tiles.len() ==> (#[trigger] l.tiles[k]).len() > 0
        },
        UICommand::ToggleLoop | UICommand::DeleteBlock => active_ok(l, s.active_block),
        _ => true,
    }
}

/// What finishing a select drag may assume: a rectangular grid within the
/// `i32` screen range, and a pending move whose selection lies inside it,
/// grabbed at one of its own cells, with the cursor in `i32` reach.
pub open spec fn finish_ok(s: EditorState, l: LevelSpec) -> bool {
    match (s.select_drag, s.selection) {
        (Some(SelectDrag::Move { grab, .. }), Some(sel)) => {
            let t = l.tiles;
            &&& t.len() <= 0x1000_0000
            &&& forall|y: int| 0 <= y < t.len() ==> (#[trigger] t[y]).len() == grid_width(t)
            &&& grid_width(t) <= 0x1000_0000
            &&& sel.ordered()
            &&& sel.max.1 < t.len()
            &&& sel.max.0 < grid_width(t)
            &&& grab.0 < sel.width_spec()
            &&& grab.1 < sel.height_spec()
        },
        _ => true,
    }
}

impl EditorState {
    /// The state the editor starts in: normal mode on the first level, grid
    /// shown, nothing selected.
    pub fn new() -> (r: Self)
        ensures
            r == (EditorState {
                current: 0,
                show_grid: true,
                pan: Pan { left: false, right: false, up: false, down: false },
                mode: Mode::Normal,
                active_block: None,
                dragging: None,
                start_new: false,
                deco_layer: DecoLayer::Background,
                selected_door: None,
                selection: None,
                select_drag: None,
                copy_mod: false,
                overlay: None,
                dirty: false,
                switch_to: None,
                quit: false,
                retitle: false,
            }),
    {
        EditorState {
            current: 0,
            show_grid: true,
            pan: Pan { left: false, right: false, up: false, down: false },
            mode: Mode::Normal,
            active_block: None,
            dragging: None,
            start_new: false,
            deco_layer: DecoLayer::Background,
            selected_door: None,
            selection: None,
            select_drag: None,
            copy_mod: false,
            overlay: None,
            dirty: false,
            switch_to: None,
            quit: false,
            retitle: false,
        }
    }

    /// Switch the active mode, clearing the per-mode transient state.
    pub fn set_mode(&mut self, mode: Mode)
        ensures
            *final(self) == with_mode(*old(self), mode),
    {
        self.mode = mode;
        self.dragging = None;
        self.start_new = false;
        if mode != Mode::Exit {
            self.selected_door = None;
        }
        if mode != Mode::Select {
            self.selection = None;
        }
        self.select_drag = None;
    }

    /// Mark the current level edited: flag it for redraw and a title refresh.
    pub fn mark_changed(&mut self)
        ensures
            *final(self) == marked(*old(self)),
    {
        self.dirty = true;
        self.retitle = true;
    }

    /// Queue a move by one level forward or back among `count`, wrapping.
    pub fn switch_level(&mut self, forward: bool, count: usize)
        requires
            count >= 1,
            old(self).current < count,
        ensures
            *final(self) == (EditorState {
                switch_to: Some(
                    (if forward {
                        (old(self).current + 1) % (count as int)
                    } else {
                        (old(self).current + count - 1) % (count as int)
                    }) as usize,
                ),
                ..*old(self)
            }),
    {
        let next = if forward {
            if self.current + 1 == count {
                0
            } else {
                self.current + 1
            }
        } else if self.current == 0 {
            count - 1
        } else {
            self.current - 1
        };
        proof {
            let c = self.current as int;
            let n = count as int;
            if forward {
                if c + 1 == n {
                    vstd::arithmetic::div_mod::lemma_mod_self_0(n);
                } else {
                    vstd::arithmetic::div_mod::lemma_small_mod((c + 1) as nat, n as nat);
                }
            } else if c == 0 {
                vstd::arithmetic::div_mod::lemma_small_mod((n - 1) as nat, n as nat);
            } else {
                vstd::arithmetic::div_mod::lemma_mod_add_multiples_vanish(c - 1, n);
                vstd::arithmetic::div_mod::lemma_small_mod((c - 1) as nat, n as nat);
            }
        }
        self.switch_to = Some(next);
    }

    /// Run a single command against the current level (one of `count`
    /// levels). Returns what the caller must still do.
    #[verifier::rlimit(80)]
    #[verifier::spinoff_prover]
    pub fn execute(&mut self, level: &mut LevelData, count: usize, cmd: UICommand) -> (effect:
        Effect)
        requires
            count >= 1,
            old(self).current < count,
            command_ok(*old(self), old(level)@, cmd),
        ensures
            final(level)@.name == old(level)@.name,
            !(cmd is Resize) ==> final(level)@.decorations == old(level)@.decorations,
            match cmd {
                UICommand::PrevLevel | UICommand::NextLevel => effect is Nothing && final(level)@
                    == old(level)@ && *final(self) == (EditorState {
                    switch_to: Some(
                        (if cmd is NextLevel {
                            (old(self).current + 1) % (count as int)
                        } else {
                            (old(self).current + count - 1) % (count as int)
                        }) as usize,
                    ),
                    ..*old(self)
                }),
                UICommand::SetMode(m) => effect is Nothing && final(level)@ == old(level)@
                    && *final(self) == with_mode(*old(self), m),
                UICommand::ToggleBlockMode => effect is Nothing && final(level)@ == old(level)@
                    && *final(self) == with_mode(
                    *old(self),
                    if old(self).mode is Path {
                        Mode::Normal
                    } else {
                        Mode::Path
                    },
                ),
                UICommand::CycleDecoMode => effect is Nothing && final(level)@ == old(level)@
                    && *final(self) == with_mode(
                    EditorState {
                        deco_layer: if !(old(self).mode is Deco) || old(self).deco_layer is Foreground {
                            DecoLayer::Background
                        } else {
                            DecoLayer::Foreground
                        },
                        ..*old(self)
                    },
                    Mode::Deco,
                ),
                UICommand::FlipDecoLayer => effect is Nothing && final(level)@ == old(level)@
                    && *final(self) == with_mode(
                    EditorState {
                        deco_layer: if old(self).deco_layer is Foreground {
                            DecoLayer::Background
                        } else {
                            DecoLayer::Foreground
                        },
                        ..*old(self)
                    },
                    Mode::Deco,
                ),
                UICommand::Resize { edge, shrink } => {
                    let t = rows_view(old(level).tiles@);
                    if shrink && shrink_refused(t, edge) {
                        effect is Nothing && final(level)@ == old(level)@ && *final(self)
                            == *old(self)
                    } else {
                        let d: i32 = if shrink {
                            -1i32
                        } else {
                            1i32
                        };
                        *final(self) == marked(*old(self)) && effect == (Effect::Resized {
                            dx: if edge is Left {
                                d
                            } else {
                                0
                            },
                            dy: if edge is Top {
                                d
                            } else {
                                0
                            },
                        }) && final(level)@ == if shrink {
                            shrunk_level(old(level)@, edge)
                        } else {
                            grown_level(old(level)@, edge)
                        }
                    }
                },
                UICommand::NewBlock => effect is Nothing && final(level)@ == old(level)@
                    && *final(self) == (EditorState {
                    start_new: true,
                    active_block: None,
                    dragging: None,
                    ..*old(self)
                }),
                UICommand::ToggleLoop => final(level)@.tiles == old(level)@.tiles
                    && final(level).spawn == old(level).spawn && match old(self).active_block {
                    None => effect is Nothing && final(level)@ == old(level)@ && *final(self)
                        == *old(self),
                    Some(b) => {
                        let blk = old(level)@.path_blocks[b as int];
                        let n = blk.points.len() as int;
                        if blk.closed || (n >= 3 && aligned(blk.points[n - 1], blk.points[0])) {
                            effect is Changed && *final(self) == marked(*old(self))
                                && final(level)@.path_blocks == old(level)@.path_blocks.update(
                                b as int,
                                PathBlockSpec { points: blk.points, closed: !blk.closed },
                            )
                        } else {
                            effect is Nothing && final(level)@ == old(level)@ && *final(self)
                                == *old(self)
                        }
                    },
                },
                UICommand::DeleteBlock => final(level)@.tiles == old(level)@.tiles
                    && final(level).spawn == old(level).spawn && match old(self).active_block {
                    None => effect is Nothing && final(level)@ == old(level)@ && *final(self)
                        == *old(self),
                    Some(b) => effect is Changed && final(level)@.path_blocks == old(
                        level,
                    )@.path_blocks.remove(b as int) && *final(self) == marked(
                        EditorState { active_block: None, dragging: None, ..*old(self) },
                    ),
                },
                UICommand::CycleBlock => {
                    let n = old(level).path_blocks@.len() as int;
                    effect is Nothing && final(level)@ == old(level)@ && *final(self)
                        == (EditorState {
                        active_block: if n > 0 {
                            Some(
                                match old(self).active_block {
                                    None => 0,
                                    Some(b) => ((b + 1) % n) as usize,
                                },
                            )
                        } else {
                            None
                        },
                        dragging: None,
                        ..*old(self)
                    })
                },
                UICommand::EraseSelection => final(level).spawn == old(level).spawn
                    && final(level)@.path_blocks == old(level)@.path_blocks && match old(
                    self,
                ).selection {
                    None => effect is Nothing && final(level)@ == old(level)@ && *final(self)
                        == *old(self),
                    Some(sel) => effect is Changed && rows_view(final(level).tiles@)
                        == erased_tiles(rows_view(old(level).tiles@), sel) && final(level)@.exits
                        == erased_exits(old(level)@.exits, sel, old(level)@.exits.len() as int)
                        && final(level)@.id == old(level)@.id && *final(self) == marked(
                        *old(self),
                    ),
                },
                UICommand::ToggleGrid => effect is Nothing && final(level)@ == old(level)@
                    && *final(self) == (EditorState { show_grid: !old(self).show_grid, ..*old(self) }),
                UICommand::OpenLevels => effect is Nothing && final(level)@ == old(level)@
                    && *final(self) == (EditorState { overlay: Some(Overlay::Jump), ..*old(self) }),
                UICommand::CloseOverlay => effect is Nothing && final(level)@ == old(level)@
                    && *final(self) == (EditorState { overlay: None, ..*old(self) }),
                UICommand::Home => effect is Home && final(level)@ == old(level)@ && *final(self)
                    == *old(self),
                UICommand::Save => effect is Save && final(level)@ == old(level)@ && *final(self)
                    == (EditorState { retitle: true, ..*old(self) }),
                UICommand::Play => effect is Play && final(level)@ == old(level)@ && *final(self)
                    == (EditorState {
                    pan: Pan { left: false, right: false, up: false, down: false },
                    ..*old(self)
                }),
                UICommand::Quit => effect is Nothing && final(level)@ == old(level)@
                    && *final(self) == (EditorState { quit: true, ..*old(self) }),
            },
    {
        match cmd {
            UICommand::PrevLevel => {
                self.switch_level(false, count);
                Effect::Nothing
            },
            UICommand::NextLevel => {
                self.switch_level(true, count);
                Effect::Nothing
            },
            UICommand::SetMode(mode) => {
                self.set_mode(mode);
                Effect::Nothing
            },
            UICommand::ToggleBlockMode => {
                let next = if self.mode == Mode::Path {
                    Mode::Normal
                } else {
                    Mode::Path
                };
                self.set_mode(next);
                Effect::Nothing
            },
            UICommand::CycleDecoMode => {
                if self.mode != Mode::Deco {
                    self.deco_layer = DecoLayer::Background;
                } else if self.deco_layer == DecoLayer::Background {
                    self.deco_layer = DecoLayer::Foreground;
                } else {
                    self.deco_layer = DecoLayer::Background;
                }
                self.set_mode(Mode::Deco);
                Effect::Nothing
            },
            UICommand::FlipDecoLayer => {
                self.deco_layer = if self.deco_layer == DecoLayer::Foreground {
                    DecoLayer::Background
                } else {
                    DecoLayer::Foreground
                };
                self.set_mode(Mode::Deco);
                Effect::Nothing
            },
            UICommand::Resize { edge, shrink } => {
                proof {
                    assert(command_ok(*old(self), old(level)@, cmd));
                    assert forall|k: int| 0 <= k < level.tiles@.len() implies (
                    #[trigger] level.tiles@[k])@.len() > 0 by {
                        assert(rows_view(level.tiles@)[k] == level.tiles@[k]@);
                        assert(old(level)@.tiles[k].len() > 0);
                    }
                }
                let changed = if shrink {
                    level.shrink(edge)
                } else {
                    level.grow(edge);
                    true
                };
                if changed {
                    self.mark_changed();
                    let d: i32 = if shrink {
                        -1
                    } else {
                        1
                    };
                    Effect::Resized {
                        dx: if edge == Edge::Left {
                            d
                        } else {
                            0
                        },
                        dy: if edge == Edge::Top {
                            d
                        } else {
                            0
                        },
                    }
                } else {
                    Effect::Nothing
                }
            },
            UICommand::NewBlock => {
                self.start_new = true;
                self.active_block = None;
                self.dragging = None;
                Effect::Nothing
            },
            UICommand::ToggleLoop => {
                if toggle_loop(level, self.active_block) {
                    self.mark_changed();
                    Effect::Changed
                } else {
                    Effect::Nothing
                }
            },
            UICommand::DeleteBlock => {
                if let Some(b) = self.active_block {
                    let ghost l0 = level@;
                    level.path_blocks.remove(b);
                    assert(level@.path_blocks =~= l0.path_blocks.remove(b as int));
                    self.active_block = None;
                    self.dragging = None;
                    self.mark_changed();
                    Effect::Changed
                } else {
                    Effect::Nothing
                }
            },
            UICommand::CycleBlock => {
                let n = level.path_blocks.len();
                self.active_block = if n > 0 {
                    Some(
                        match self.active_block {
                            None => 0,
                            Some(b) => (b % n + 1) % n,
                        },
                    )
                } else {
                    None
                };
                proof {
                    if let Some(b) = old(self).active_block {
                        if n > 0 {
                            vstd::arithmetic::div_mod::lemma_add_mod_noop(b as int, 1, n as int);
                            if n > 1 {
                                vstd::arithmetic::div_mod::lemma_small_mod(1, n as nat);
                            }
                            assert(((b as int) % (n as int) + 1) % (n as int) == (b + 1) % (
                            n as int));
                        }
                    }
                }
                self.dragging = None;
                Effect::Nothing
            },
            UICommand::EraseSelection => {
                if let Some(sel) = self.selection {
                    erase_selection(level, sel);
                    self.mark_changed();
                    Effect::Changed
                } else {
                    Effect::Nothing
                }
            },
            UICommand::ToggleGrid => {
                self.show_grid = !self.show_grid;
                Effect::Nothing
            },
            UICommand::OpenLevels => {
                self.overlay = Some(Overlay::Jump);
                Effect::Nothing
            },
            UICommand::CloseOverlay => {
                self.overlay = None;
                Effect::Nothing
            },
            UICommand::Home => Effect::Home,
            UICommand::Save => {
                self.retitle = true;
                Effect::Save
            },
            UICommand::Play => {
                self.pan.clear();
                Effect::Play
            },
            UICommand::Quit => {
                self.quit = true;
                Effect::Nothing
            },
        }
    }

    /// Apply a pending level switch, resetting the per-level view state.
    /// Returns whether a switch happened (the caller then resets the camera
    /// and rebuilds the view).
    pub fn apply_switch(&mut self) -> (switched: bool)
        ensures
            switched == old(self).switch_to is Some,
            match old(self).switch_to {
                None => *final(self) == *old(self),
                Some(index) => *final(self) == (EditorState {
                    current: index,
                    pan: Pan { left: false, right: false, up: false, down: false },
                    active_block: None,
                    dragging: None,
                    start_new: false,
                    selected_door: None,
                    selection: None,
                    select_drag: None,
                    dirty: true,
                    retitle: true,
                    switch_to: None,
                    ..*old(self)
                }),
            },
    {
        match self.switch_to {
            None => false,
            Some(index) => {
                self.switch_to = None;
                self.current = index;
                self.pan.clear();
                self.active_block = None;
                self.dragging = None;
                self.start_new = false;
                self.selected_door = None;
                self.selection = None;
                self.select_drag = None;
                self.dirty = true;
                self.retitle = true;
                true
            },
        }
    }

    /// The level id a newly painted exit door is routed to: that of the next
    /// level in the list of level `ids`, wrapping round (so this level's own
    /// when it is the only one).
    pub fn default_exit_dest(&self, ids: &Vec<String>) -> (r: String)
        requires
            self.current < ids@.len(),
        ensures
            r@ == ids@[(self.current + 1) % (ids@.len() as int)]@,
    {
        let next = if self.current < ids.len() - 1 {
            self.current + 1
        } else {
            0
        };
        proof {
            if self.current + 1 < ids@.len() {
                vstd::arithmetic::div_mod::lemma_small_mod((self.current + 1) as nat, ids@.len());
            } else {
                vstd::arithmetic::div_mod::lemma_mod_self_0(ids@.len() as int);
            }
        }
        ids[next].clone()
    }

    /// Route the selected exit door to the level whose id is `dest` (what
    /// picking a row of the destination overlay does). Returns whether the
    /// level changed: a door is selected and has a routing entry.
    pub fn route_selected_door(&mut self, level: &mut LevelData, dest: &str) -> (changed: bool)
        ensures
            match old(self).selected_door {
                Some(tile) => match crate::tools::exit_index_from(old(level)@.exits, tile, 0) {
                    Some(i) => changed && final(level)@ == (LevelSpec {
                        exits: old(level)@.exits.update(i, ExitSpec { tile, dest: dest@ }),
                        ..old(level)@
                    }) && *final(self) == marked(*old(self)),
                    None => !changed && final(level)@ == old(level)@ && *final(self)
                        == *old(self),
                },
                None => !changed && final(level)@ == old(level)@ && *final(self) == *old(self),
            },
    {
        match self.selected_door {
            None => false,
            Some(tile) => {
                if crate::tools::set_exit_dest(level, tile, dest) {
                    self.mark_changed();
                    true
                } else {
                    false
                }
            },
        }
    }

    /// Handle a press on the exit-mode bottom bar, whose palette has `slots`
    /// tools: a left press on a slot picks that tool (returned); one on the
    /// "Set dest" button, while a door is selected, opens the overlay to pick
    /// the door's destination level. Anything else does nothing.
    pub fn exit_menu_click(&mut self, btn: MouseBtn, x: i32, y: i32, slots: usize) -> (picked:
        Option<usize>)
        requires
            btn is Left ==> crate::layout::palette_fits(x as int, slots as int),
        ensures
            !(btn is Left) ==> picked is None && *final(self) == *old(self),
            btn is Left ==> match crate::layout::palette_slot_spec(x as int, slots as int) {
                Some(i) => picked == Some(i as usize) && *final(self) == *old(self),
                None => picked is None && if old(self).selected_door is Some
                    && (ButtonRect { x: 250, y: 646, w: 130, h: 36 }).holds(x as int, y as int) {
                    *final(self) == (EditorState { overlay: Some(Overlay::PickDest), ..*old(self) })
                } else {
                    *final(self) == *old(self)
                },
            },
    {
        if btn != MouseBtn::Left {
            return None;
        }
        match crate::layout::palette_slot_at(x, slots) {
            Some(i) => Some(i),
            None => {
                if self.selected_door.is_some() && crate::layout::exit_dest_btn().contains(x, y) {
                    self.overlay = Some(Overlay::PickDest);
                }
                None
            },
        }
    }

    /// Where a mouse press at `(x, y)` goes.
    pub fn press_target(&self, x: i32, y: i32) -> (r: PressTarget)
        ensures
            r == press_target_spec(*self, x as int, y as int),
    {
        if self.overlay.is_some() {
            PressTarget::Overlay
        } else if y < crate::layout::TOP_BAR_HEIGHT {
            PressTarget::TopBar
        } else if y >= crate::layout::HUD_TOP {
            match self.mode {
                Mode::Normal => PressTarget::Palette,
                Mode::Path => PressTarget::PathMenu,
                Mode::Exit => PressTarget::ExitMenu,
                _ => PressTarget::NoTool,
            }
        } else if self.mode == Mode::Deco && crate::layout::in_deco_picker(x, y) {
            PressTarget::Picker
        } else {
            PressTarget::Canvas
        }
    }

    /// Handle a click while the level overlay is open, with `count` levels
    /// listed: a row either queues a jump to that level or, when picking an
    /// exit's destination, is handed back; either way the overlay closes. A
    /// click off the panel closes it too.
    pub fn overlay_click(&mut self, btn: MouseBtn, x: i32, y: i32, count: usize) -> (picked:
        Option<usize>)
        requires
            btn is Left && old(self).overlay is Some ==> {
                &&& crate::layout::overlay_fits(count as int)
                &&& crate::layout::in_overlay_columns(count as int, x as int)
                    ==> crate::layout::overlay_rows_fit(count as int, y as int)
                &&& crate::layout::overlay_row_spec(count as int, x as int, y as int) is None
                    ==> crate::layout::overlay_bottom_fits(count as int, x as int, y as int)
            },
        ensures
            !(btn is Left) || old(self).overlay is None ==> *final(self) == *old(self)
                && picked is None,
            btn is Left && old(self).overlay is Some ==> match crate::layout::overlay_row_spec(
                count as int,
                x as int,
                y as int,
            ) {
                Some(i) => final(self).overlay is None && if old(self).overlay == Some(
                    Overlay::Jump,
                ) {
                    picked is None && *final(self) == (EditorState {
                        switch_to: Some(i as usize),
                        overlay: None,
                        ..*old(self)
                    })
                } else {
                    picked == Some(i as usize) && *final(self) == (EditorState {
                        overlay: None,
                        ..*old(self)
                    })
                },
                None => picked is None && if crate::layout::overlay_rect_spec(count as int).holds(
                    x as int,
                    y as int,
                ) {
                    *final(self) == *old(self)
                } else {
                    *final(self) == (EditorState { overlay: None, ..*old(self) })
                },
            },
    {
        if btn != MouseBtn::Left {
            return None;
        }
        let overlay = match self.overlay {
            None => {
                return None;
            },
            Some(o) => o,
        };
        match crate::layout::overlay_row_at(count, x, y) {
            Some(i) => {
                self.overlay = None;
                match overlay {
                    Overlay::Jump => {
                        self.switch_to = Some(i);
                        None
                    },
                    Overlay::PickDest => Some(i),
                }
            },
            None => {
                if !crate::layout::in_overlay(count, x, y) {
                    self.overlay = None;
                }
                None
            },
        }
    }

    /// Handle a mouse-button press in select mode over grid cell `tile`
    /// (`None` off the grid). Left inside the current selection starts a move
    /// (a copy while Ctrl is held); left elsewhere starts a fresh rubber-band
    /// selection; right clears the selection.
    pub fn select_press(&mut self, btn: MouseBtn, tile: Option<TilePos>)
        ensures
            match (tile, btn) {
                (Some(t), MouseBtn::Left) => match old(self).selection {
                    Some(sel) => if sel.holds(t) && sel.ordered() {
                        *final(self) == (EditorState {
                            select_drag: Some(
                                SelectDrag::Move {
                                    grab: ((t.0 - sel.min.0) as usize, (t.1 - sel.min.1) as usize),
                                    copy: old(self).copy_mod,
                                },
                            ),
                            ..*old(self)
                        })
                    } else {
                        *final(self) == (EditorState {
                            selection: Some(Selection { min: t, max: t }),
                            select_drag: Some(SelectDrag::Marquee { anchor: t }),
                            ..*old(self)
                        })
                    },
                    None => *final(self) == (EditorState {
                        selection: Some(Selection { min: t, max: t }),
                        select_drag: Some(SelectDrag::Marquee { anchor: t }),
                        ..*old(self)
                    }),
                },
                (Some(t), MouseBtn::Right) => *final(self) == (EditorState {
                    selection: None,
                    select_drag: None,
                    ..*old(self)
                }),
                _ => *final(self) == *old(self),
            },
    {
        let t = match tile {
            None => {
                return ;
            },
            Some(t) => t,
        };
        match btn {
            MouseBtn::Left => {
                let inside = match self.selection {
                    Some(sel) => sel.min.0 <= sel.max.0 && sel.min.1 <= sel.max.1 && sel.contains(
                        t,
                    ),
                    None => false,
                };
                if inside {
                    let sel = self.selection.unwrap();
                    self.select_drag = Some(
                        SelectDrag::Move {
                            grab: (t.0 - sel.min.0, t.1 - sel.min.1),
                            copy: self.copy_mod,
                        },
                    );
                } else {
                    self.selection = Some(Selection::from_corners(t, t));
                    self.select_drag = Some(SelectDrag::Marquee { anchor: t });
                }
            },
            MouseBtn::Right => {
                self.selection = None;
                self.select_drag = None;
            },
            MouseBtn::Other => {},
        }
    }
    /// End a select-mode pointer drag with the cursor over `cursor` (grid
    /// cell, possibly outside the grid; `None` off the tile area): a pending
    /// move or copy of the selected block is committed there, clamped so the
    /// block stays inside the grid, and the selection follows it. Any drag is
    /// cleared. Returns whether the level changed.
    /// Exit routing of the touched cells is reconciled, new doors leading to
    /// `default_dest`.
    pub fn finish_select_drag(
        &mut self,
        level: &mut LevelData,
        cursor: Option<(i32, i32)>,
        default_dest: &str,
    ) -> (changed: bool)
        requires
            finish_ok(*old(self), old(level)@),
            cursor matches Some(c) ==> c.0 >= 0 && c.1 >= 0,
        ensures
            final(level)@.name == old(level)@.name,
            final(level)@.id == old(level)@.id,
            final(level)@.spawn == old(level)@.spawn,
            final(level)@.path_blocks == old(level)@.path_blocks,
            final(level)@.decorations == old(level)@.decorations,
            match (old(self).select_drag, old(self).selection, cursor) {
                (Some(SelectDrag::Move { grab, copy }), Some(sel), Some(c)) => {
                    let t = old(level)@.tiles;
                    let target = move_target_spec(grid_width(t), t.len() as int, sel, grab, c);
                    if target.0 == sel.min.0 && target.1 == sel.min.1 {
                        !changed && final(level)@ == old(level)@ && *final(self) == (EditorState {
                            select_drag: None,
                            ..*old(self)
                        })
                    } else {
                        let tp = (target.0 as usize, target.1 as usize);
                        changed && final(level)@.tiles == moved_tiles(t, sel, tp, copy)
                            && final(level)@.exits == reconcile_touched(
                            old(level)@.exits,
                            moved_tiles(t, sel, tp, copy),
                            sel,
                            tp,
                            copy,
                            default_dest@,
                        ) && *final(self) == marked(
                            EditorState {
                                select_drag: None,
                                selection: Some(
                                    Selection {
                                        min: tp,
                                        max: (
                                            (tp.0 + sel.width_spec() - 1) as usize,
                                            (tp.1 + sel.height_spec() - 1) as usize,
                                        ),
                                    },
                                ),
                                ..*old(self)
                            },
                        )
                    }
                },
                _ => !changed && final(level)@ == old(level)@ && *final(self) == (EditorState {
                    select_drag: None,
                    ..*old(self)
                }),
            },
    {
        let drag = self.select_drag;
        self.select_drag = None;
        let (grab, copy) = match drag {
            Some(SelectDrag::Move { grab, copy }) => (grab, copy),
            _ => {
                return false;
            },
        };
        let sel = match self.selection {
            None => {
                return false;
            },
            Some(sel) => sel,
        };
        let c = match cursor {
            None => {
                return false;
            },
            Some(c) => c,
        };
        let w = level.width();
        let h = level.height();
        proof {
            if level.tiles@.len() > 0 {
                assert(rows_view(level.tiles@)[0] == level.tiles@[0]@);
            }
        }
        let target = clamp_move_target(w, h, sel, grab, c);
        if target.0 == sel.min.0 && target.1 == sel.min.1 {
            return false;
        }
        move_selection(level, sel, target, copy, default_dest);
        self.selection = Some(Selection::at(target, sel.width(), sel.height()));
        self.mark_changed();
        true
    }

}

} // verus!
