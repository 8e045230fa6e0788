//! Screen layout of the level editor's UI: the window dimensions, where each
//! toolbar and menu button sits, and the hit tests that map a screen
//! position to a UI element or a tile cell.
use vstd::prelude::*;

verus! {

/// A `u32` length read as an `i32`, as `w as i32` does: lengths past
/// `i32::MAX` wrap to negative values.
pub open spec fn as_i32(w: u32) -> int {
    if w <= i32::MAX {
        w as int
    } else {
        w - 0x1_0000_0000
    }
}

/// Whether a value fits in an `i32`.
pub open spec fn in_i32(v: int) -> bool {
    i32::MIN <= v <= i32::MAX
}

/// `w as i32`: the same bits read as a signed length.
pub fn wrap_i32(w: u32) -> (r: i32)
    ensures
        r == as_i32(w),
{
    if w <= 0x7fff_ffff {
        w as i32
    } else {
        ((w - 0x8000_0000) as i32) - 0x7fff_ffff - 1
    }
}

/// A rectangular UI button on the screen, with hit-testing.
#[derive(Clone, Copy, PartialEq, Eq, Debug)]
pub struct ButtonRect {
    pub x: i32,
    pub y: i32,
    pub w: u32,
    pub h: u32,
}

impl ButtonRect {
    /// Whether `(x, y)` lies inside the button (right and bottom edges
    /// excluded), its width and height taken as `i32` screen lengths.
    pub open spec fn holds(self, x: int, y: int) -> bool {
        self.x <= x < self.x + as_i32(self.w) && self.y <= y < self.y + as_i32(self.h)
    }

    pub fn new(x: i32, y: i32, w: u32, h: u32) -> (r: Self)
        ensures
            r == (ButtonRect { x, y, w, h }),
    {
        ButtonRect { x, y, w, h }
    }

    /// Whether a screen position falls inside the button. The right edge is
    /// computed only for a position right of the left edge, and the bottom
    /// edge only for one within both side edges and below the top: those sums
    /// stay within `i32`.
    pub fn contains(self, x: i32, y: i32) -> (r: bool)
        requires
            x >= self.x ==> in_i32(self.x + as_i32(self.w)),
            x >= self.x && x < self.x + as_i32(self.w) && y >= self.y ==> in_i32(
                self.y + as_i32(self.h),
            ),
        ensures
            r == self.holds(x as int, y as int),
    {
        let w = wrap_i32(self.w);
        let h = wrap_i32(self.h);
        x >= self.x && x < self.x + w && y >= self.y && y < self.y + h
    }

    /// The button's centre point, where glyphs are drawn around. The width
    /// and height are read as `i32` lengths and halved toward zero.
    pub fn center(self) -> (r: (i32, i32))
        requires
            in_i32(self.x + half_toward_zero(as_i32(self.w))),
            in_i32(self.y + half_toward_zero(as_i32(self.h))),
        ensures
            r.0 == self.x + half_toward_zero(as_i32(self.w)),
            r.1 == self.y + half_toward_zero(as_i32(self.h)),
    {
        (self.x + wrap_i32(self.w) / 2, self.y + wrap_i32(self.h) / 2)
    }
}

pub const VIEW_WIDTH: u32 = 800;

/// The visible play area matches the game's, so levels look the same in the
/// editor; the window is taller to fit the bars above and below it.
pub const PLAY_HEIGHT: u32 = 600;

pub const VIEW_HEIGHT: u32 = 692;

// Top toolbar
pub const TOP_BAR_HEIGHT: i32 = 36;

pub const BTN_Y: i32 = 4;

pub const BTN_H: u32 = 28;

// Palette HUD layout
pub const HUD_HEIGHT: i32 = 56;

pub const HUD_TOP: i32 = 636;

pub const SLOT: i32 = 40;

pub const SLOT_PAD: i32 = 6;

pub const HUD_MARGIN_X: i32 = 8;

/// Height of the buttons of the path-mode menu in the HUD bar.
pub const PATH_MENU_BTN_H: i32 = 36;

/// Tile area is between top bar and palette HUD.
pub const TILE_AREA_TOP: i32 = 36;

// Decoration sprite picker: the whole 240x240 sheet (6x6 sprites), drawn in
// the top-right of the tile area while in decoration mode.
pub const PICKER_ROWS: i32 = 6;

pub const PICKER_CELL: i32 = 40;

pub const PICKER_W: i32 = 240;

pub const PICKER_H: i32 = 240;

pub const PICKER_X: i32 = 560;

pub const PICKER_Y: i32 = 36;

pub const MODE_BTN_W: u32 = 52;

pub const MODE_BTN_X0: i32 = 116;

pub const MODE_BTN_STEP: i32 = 58;

// Level-browser overlay layout (a centred panel listing every level).
pub const OVERLAY_W: i32 = 440;

pub const OVERLAY_ROW_H: i32 = 24;

pub const OVERLAY_PAD: i32 = 10;

pub const OVERLAY_TITLE_H: i32 = 26;

/// The "new block" button of the path-mode menu.
pub fn path_new_btn() -> (r: ButtonRect)
    ensures
        r == (ButtonRect { x: 8, y: 646, w: 52, h: 36 }),
{
    ButtonRect::new(HUD_MARGIN_X, HUD_TOP + (HUD_HEIGHT - PATH_MENU_BTN_H) / 2, 52, 36)
}

/// The "toggle loop" button, right of the "new block" one.
pub fn path_loop_btn() -> (r: ButtonRect)
    ensures
        r == (ButtonRect { x: 68, y: 646, w: 52, h: 36 }),
{
    let n = path_new_btn();
    ButtonRect::new(n.x + n.w as i32 + 8, n.y, 52, 36)
}

/// The "Levels" button (top-left), which opens the level browser.
pub fn levels_btn() -> (r: ButtonRect)
    ensures
        r == (ButtonRect { x: 8, y: 4, w: 76, h: 28 }),
{
    ButtonRect::new(8, BTN_Y, 76, BTN_H)
}

/// The `i`-th mode-switch button (normal, path, deco, exit, select).
pub fn mode_btn(i: i32) -> (r: ButtonRect)
    requires
        0 <= i < 5,
    ensures
        r == (ButtonRect { x: (116 + 58 * i) as i32, y: 4, w: 52, h: 28 }),
{
    ButtonRect::new(MODE_BTN_X0 + i * MODE_BTN_STEP, BTN_Y, MODE_BTN_W, BTN_H)
}

pub fn normal_btn() -> (r: ButtonRect)
    ensures
        r == (ButtonRect { x: 116, y: 4, w: 52, h: 28 }),
{
    mode_btn(0)
}

pub fn block_btn() -> (r: ButtonRect)
    ensures
        r == (ButtonRect { x: 174, y: 4, w: 52, h: 28 }),
{
    mode_btn(1)
}

pub fn deco_btn() -> (r: ButtonRect)
    ensures
        r == (ButtonRect { x: 232, y: 4, w: 52, h: 28 }),
{
    mode_btn(2)
}

pub fn exit_btn() -> (r: ButtonRect)
    ensures
        r == (ButtonRect { x: 290, y: 4, w: 52, h: 28 }),
{
    mode_btn(3)
}

/// Number of slots of the exit-mode palette (the two doors and two coins,
/// with room for one more).
pub const EXIT_PALETTE_SLOTS: i32 = 5;

pub const EXIT_MENU_BTN_H: i32 = 36;

/// The exit-mode "Set dest" button, right of the exit palette.
pub fn exit_dest_btn() -> (r: ButtonRect)
    ensures
        r == (ButtonRect { x: 250, y: 646, w: 130, h: 36 }),
{
    ButtonRect::new(
        HUD_MARGIN_X + EXIT_PALETTE_SLOTS * (SLOT + SLOT_PAD) + 12,
        HUD_TOP + (HUD_HEIGHT - EXIT_MENU_BTN_H) / 2,
        130,
        EXIT_MENU_BTN_H as u32,
    )
}

pub fn select_btn() -> (r: ButtonRect)
    ensures
        r == (ButtonRect { x: 348, y: 4, w: 52, h: 28 }),
{
    mode_btn(4)
}

/// Resize buttons: left-click grows the canvas at that edge, right-click shrinks.
pub fn resize_top_btn() -> (r: ButtonRect)
    ensures
        r == (ButtonRect { x: 580, y: 4, w: 36, h: 28 }),
{
    ButtonRect::new(580, BTN_Y, 36, BTN_H)
}

pub fn resize_bot_btn() -> (r: ButtonRect)
    ensures
        r == (ButtonRect { x: 620, y: 4, w: 36, h: 28 }),
{
    ButtonRect::new(620, BTN_Y, 36, BTN_H)
}

pub fn resize_left_btn() -> (r: ButtonRect)
    ensures
        r == (ButtonRect { x: 660, y: 4, w: 36, h: 28 }),
{
    ButtonRect::new(660, BTN_Y, 36, BTN_H)
}

pub fn resize_right_btn() -> (r: ButtonRect)
    ensures
        r == (ButtonRect { x: 700, y: 4, w: 36, h: 28 }),
{
    ButtonRect::new(700, BTN_Y, 36, BTN_H)
}

pub fn play_btn() -> (r: ButtonRect)
    ensures
        r == (ButtonRect { x: 748, y: 4, w: 44, h: 28 }),
{
    ButtonRect::new(748, BTN_Y, 44, BTN_H)
}

/// Rust's `/ 2` on a signed value: rounds toward zero.
pub open spec fn half_toward_zero(a: int) -> int {
    if a >= 0 {
        a / 2
    } else {
        -((-a) / 2)
    }
}

/// Height of the level-browser panel for `count` levels.
pub open spec fn overlay_height(count: int) -> int {
    OVERLAY_TITLE_H + count * OVERLAY_ROW_H + OVERLAY_PAD * 2
}

/// Bounding rectangle of the level-browser panel for `count` levels: centred
/// horizontally, centred vertically in the tile area but never above a small
/// margin below the toolbar.
pub open spec fn overlay_rect_spec(count: int) -> ButtonRect {
    let h = overlay_height(count);
    let y = TILE_AREA_TOP + half_toward_zero((HUD_TOP - TILE_AREA_TOP) - h);
    ButtonRect {
        x: 180,
        y: (if y >= TILE_AREA_TOP + 8 {
            y
        } else {
            TILE_AREA_TOP + 8
        }) as i32,
        w: 440,
        h: h as u32,
    }
}

/// The panel's height for `count` levels fits in an `i32`.
pub open spec fn overlay_fits(count: int) -> bool {
    overlay_height(count) <= i32::MAX
}

/// Top of the first list row of the panel.
pub open spec fn overlay_first(count: int) -> int {
    overlay_rect_spec(count).y + OVERLAY_TITLE_H + OVERLAY_PAD
}

/// Whether `x` lies between the panel's side paddings, where its rows are
/// looked up.
pub open spec fn in_overlay_columns(count: int, x: int) -> bool {
    let r = overlay_rect_spec(count);
    !(x < r.x + OVERLAY_PAD || x >= r.x + r.w - OVERLAY_PAD)
}

/// The rows stepped through while looking up `y` end within `i32`: all of
/// them do, or `y` lies in a row that does.
pub open spec fn overlay_rows_fit(count: int, y: int) -> bool {
    let first = overlay_first(count);
    first + count * OVERLAY_ROW_H <= i32::MAX || (y >= first && first + (y - first) / 24 * 24
        + 24 <= i32::MAX)
}

/// The panel's bottom edge, tested for a position within its sides and
/// below its top, is within `i32`.
pub open spec fn overlay_bottom_fits(count: int, x: int, y: int) -> bool {
    let r = overlay_rect_spec(count);
    r.x <= x < r.x + r.w && y >= r.y ==> r.y + r.h <= i32::MAX
}

/// Bounding rect of the level-browser overlay panel for `count` levels.
pub fn overlay_rect(count: usize) -> (r: ButtonRect)
    requires
        overlay_fits(count as int),
    ensures
        r == overlay_rect_spec(count as int),
{
    let h = OVERLAY_TITLE_H + count as i32 * OVERLAY_ROW_H + OVERLAY_PAD * 2;
    let x = (VIEW_WIDTH as i32 - OVERLAY_W) / 2;
    let avail = HUD_TOP - TILE_AREA_TOP;
    let d = avail - h;
    let half = if d >= 0 {
        d / 2
    } else {
        -((-d) / 2)
    };
    let y0 = TILE_AREA_TOP + half;
    let y = if y0 >= TILE_AREA_TOP + 8 {
        y0
    } else {
        TILE_AREA_TOP + 8
    };
    ButtonRect::new(x, y, OVERLAY_W as u32, h as u32)
}

/// The overlay row under `(x, y)` for `count` levels.
pub open spec fn overlay_row_spec(count: int, x: int, y: int) -> Option<int> {
    let r = overlay_rect_spec(count);
    let first = r.y + OVERLAY_TITLE_H + OVERLAY_PAD;
    if x < r.x + OVERLAY_PAD || x >= r.x + r.w - OVERLAY_PAD {
        None
    } else if first <= y < first + count * OVERLAY_ROW_H {
        Some((y - first) / 24)
    } else {
        None
    }
}

proof fn lemma_row_of(d: int, i: int)
    requires
        0 <= i,
    ensures
        (i * 24 <= d < i * 24 + 24) <==> (d >= 0 && d / 24 == i),
{
    if i * 24 <= d < i * 24 + 24 {
        assert(d / 24 == i) by (nonlinear_arith)
            requires
                i * 24 <= d < i * 24 + 24,
        ;
    }
    if d >= 0 && d / 24 == i {
        assert(i * 24 <= d < i * 24 + 24) by (nonlinear_arith)
            requires
                d >= 0,
                d / 24 == i,
        ;
    }
}

/// Whether `y` falls in row `k` of a list whose first row starts at `first`.
pub open spec fn in_row(first: int, k: int, y: int) -> bool {
    first + k * 24 <= y < first + k * 24 + 24
}

/// Index of the overlay list row under a screen position, if any.
pub fn overlay_row_at(count: usize, x: i32, y: i32) -> (r: Option<usize>)
    requires
        overlay_fits(count as int),
        in_overlay_columns(count as int, x as int) ==> overlay_rows_fit(count as int, y as int),
    ensures
        r matches Some(i) ==> overlay_row_spec(count as int, x as int, y as int) == Some(i as int),
        r is None ==> overlay_row_spec(count as int, x as int, y as int) is None,
{
    let r = overlay_rect(count);
    if x < r.x + OVERLAY_PAD || x >= r.x + r.w as i32 - OVERLAY_PAD {
        return None;
    }
    let first = r.y + OVERLAY_TITLE_H + OVERLAY_PAD;
    let mut i: usize = 0;
    while i < count
        invariant
            i <= count,
            first == overlay_first(count as int),
            r == overlay_rect_spec(count as int),
            0 <= first <= 1000,
            !(x < r.x + OVERLAY_PAD || x >= r.x + r.w - OVERLAY_PAD),
            overlay_rows_fit(count as int, y as int),
            forall|k: int| 0 <= k < i ==> !#[trigger] in_row(first as int, k, y as int),
        decreases count - i,
    {
        proof {
            if first + count * 24 <= i32::MAX {
                assert(i * 24 + 24 <= count * 24) by (nonlinear_arith)
                    requires
                        i < count,
                ;
            } else {
                let k = (y - first) / 24;
                lemma_row_of(y - first, k);
                assert(k >= 0 && k * 24 <= y - first < k * 24 + 24) by (nonlinear_arith)
                    requires
                        k == (y - first) / 24,
                        y - first >= 0,
                ;
                assert(in_row(first as int, k, y as int));
                assert(k >= i);
                assert(i * 24 <= k * 24) by (nonlinear_arith)
                    requires
                        i <= k,
                ;
            }
        }
        let ry = first + i as i32 * OVERLAY_ROW_H;
        if y >= ry && y < ry + OVERLAY_ROW_H {
            proof {
                lemma_row_of(y - first, i as int);
                assert(i * 24 + 24 <= count * 24) by (nonlinear_arith)
                    requires
                        i < count,
                ;
            }
            return Some(i);
        }
        i = i + 1;
    }
    proof {
        if first <= y < first + count * 24 {
            let k = (y - first) / 24;
            lemma_row_of(y - first, k);
            assert(k * 24 <= y - first) by (nonlinear_arith)
                requires
                    k == (y - first) / 24,
                    y - first >= 0,
            ;
            assert(k < count) by (nonlinear_arith)
                requires
                    k == (y - first) / 24,
                    0 <= y - first < count * 24,
            ;
            assert(!in_row(first as int, k, y as int));
        }
    }
    None
}

/// Every list row lies inside the panel: a position that picks a row is on
/// the panel, and the row is one of the `count` listed, so a click off the
/// panel never picks a row.
pub proof fn law_overlay_rows_inside_panel(count: int, x: int, y: int)
    requires
        count >= 0,
        overlay_fits(count),
    ensures
        overlay_row_spec(count, x, y) matches Some(i) ==> 0 <= i < count && overlay_rect_spec(
            count,
        ).holds(x, y),
{
    let first = overlay_first(count);
    if let Some(i) = overlay_row_spec(count, x, y) {
        assert(0 <= i < count) by (nonlinear_arith)
            requires
                i == (y - first) / 24,
                first <= y < first + count * 24,
        ;
    }
}

/// Whether a screen position falls inside the overlay panel at all.
pub fn in_overlay(count: usize, x: i32, y: i32) -> (r: bool)
    requires
        overlay_fits(count as int),
        overlay_bottom_fits(count as int, x as int, y as int),
    ensures
        r == overlay_rect_spec(count as int).holds(x as int, y as int),
{
    overlay_rect(count).contains(x, y)
}

/// The HUD palette slot under `x`, for a bar of `count` slots.
pub open spec fn palette_slot_spec(x: int, count: int) -> Option<int> {
    let d = x - HUD_MARGIN_X;
    if d >= 0 && d % 46 < SLOT && d / 46 < count {
        Some(d / 46)
    } else {
        None
    }
}

proof fn lemma_slot_of(d: int, i: int)
    requires
        0 <= i,
    ensures
        (i * 46 <= d < i * 46 + 40) <==> (d >= 0 && d / 46 == i && d % 46 < 40),
{
    if i * 46 <= d < i * 46 + 40 {
        assert(d / 46 == i && d % 46 == d - i * 46) by (nonlinear_arith)
            requires
                i * 46 <= d < i * 46 + 40,
        ;
    }
    if d >= 0 && d / 46 == i && d % 46 < 40 {
        assert(i * 46 <= d < i * 46 + 40) by (nonlinear_arith)
            requires
                d >= 0,
                d / 46 == i,
                d % 46 < 40,
        ;
    }
}

/// Whether `x` falls on palette slot `k`.
pub open spec fn in_slot(k: int, x: int) -> bool {
    8 + k * 46 <= x < 8 + k * 46 + 40
}

/// The slots stepped through while looking up `x` end within `i32`: all of
/// them do, or `x` lies on a slot (whose end always does).
pub open spec fn palette_fits(x: int, count: int) -> bool {
    46 * count + 2 <= i32::MAX || (x - HUD_MARGIN_X >= 0 && (x - HUD_MARGIN_X) % 46 < SLOT)
}

/// Index of the HUD palette slot under an x position, for a bar of `count`
/// slots starting at the left margin.
pub fn palette_slot_at(x: i32, count: usize) -> (r: Option<usize>)
    requires
        palette_fits(x as int, count as int),
    ensures
        r matches Some(i) ==> palette_slot_spec(x as int, count as int) == Some(i as int),
        r is None ==> palette_slot_spec(x as int, count as int) is None,
{
    let mut i: usize = 0;
    while i < count
        invariant
            i <= count,
            palette_fits(x as int, count as int),
            forall|k: int| 0 <= k < i ==> !#[trigger] in_slot(k, x as int),
        decreases count - i,
    {
        proof {
            if 46 * count + 2 <= i32::MAX {
                assert(i * 46 + 48 <= 46 * count + 2) by (nonlinear_arith)
                    requires
                        i < count,
                ;
            } else {
                let d = x - 8;
                let k = d / 46;
                assert(k >= 0 && k * 46 <= d && d % 46 == d - k * 46) by (nonlinear_arith)
                    requires
                        k == d / 46,
                        d >= 0,
                ;
                lemma_slot_of(d, k);
                assert(in_slot(k, x as int));
                assert(k >= i);
                assert(k * 46 + 48 <= i32::MAX) by (nonlinear_arith)
                    requires
                        k * 46 <= d,
                        d - k * 46 < 40,
                        d <= i32::MAX - 8,
                        k >= 0,
                ;
                assert(i * 46 <= k * 46) by (nonlinear_arith)
                    requires
                        i <= k,
                ;
            }
        }
        let slot_x = HUD_MARGIN_X + i as i32 * (SLOT + SLOT_PAD);
        if x >= slot_x && x < slot_x + SLOT {
            proof {
                lemma_slot_of(x - 8, i as int);
            }
            return Some(i);
        }
        i = i + 1;
    }
    proof {
        let d = x - 8;
        if d >= 0 && d % 46 < 40 && d / 46 < count {
            let k = d / 46;
            assert(k >= 0) by (nonlinear_arith)
                requires
                    k == d / 46,
                    d >= 0,
            ;
            lemma_slot_of(d, k);
            assert(!in_slot(k, x as int));
        }
    }
    None
}

/// Whether `(x, y)` is over the decoration sprite picker.
pub open spec fn in_picker(x: int, y: int) -> bool {
    PICKER_X <= x < PICKER_X + PICKER_W && PICKER_Y <= y < PICKER_Y + PICKER_H
}

/// Whether a screen position is over the decoration sprite-picker overlay.
pub fn in_deco_picker(x: i32, y: i32) -> (r: bool)
    ensures
        r == in_picker(x as int, y as int),
{
    x >= PICKER_X && x < PICKER_X + PICKER_W && y >= PICKER_Y && y < PICKER_Y + PICKER_H
}

/// The 1-based sprite-sheet index for the picker cell under a screen position,
/// or `None` if the position is outside the picker.
pub fn picker_sprite_at(x: i32, y: i32) -> (r: Option<u32>)
    ensures
        r == (if in_picker(x as int, y as int) {
            Some((((y - 36) / 40) * 6 + (x - 560) / 40 + 1) as u32)
        } else {
            None
        }),
{
    if !in_deco_picker(x, y) {
        return None;
    }
    let col = (x - PICKER_X) / PICKER_CELL;
    let row = (y - PICKER_Y) / PICKER_CELL;
    proof {
        assert(0 <= col < 6 && 0 <= row < 6) by (nonlinear_arith)
            requires
                col == (x - 560) / 40,
                row == (y - 36) / 40,
                0 <= x - 560 < 240,
                0 <= y - 36 < 240,
        ;
    }
    Some((row * 6 + col + 1) as u32)
}

/// The tile cell (possibly outside the grid) under `mouse` for the integer
/// render camera, or `None` outside the tile area or left of/above the world.
pub open spec fn cursor_tile_i_spec(mouse: (i32, i32), camera_x: int, render_cam_y: int) -> Option<
    (int, int),
> {
    let wx = mouse.0 + camera_x;
    let wy = mouse.1 + render_cam_y;
    if !(TILE_AREA_TOP <= mouse.1 < HUD_TOP) || wx < 0 || wy < 0 {
        None
    } else {
        Some((wx / 40, wy / 40))
    }
}

/// Tile coordinates (possibly outside the grid) under a screen position, using
/// the same integer render camera the tiles are drawn with: `camera_x` is the
/// truncated horizontal camera and `render_cam_y` is `camera_y - TILE_AREA_TOP`.
pub fn cursor_tile_i(mouse: (i32, i32), camera_x: i32, render_cam_y: i32) -> (r: Option<(i32, i32)>)
    requires
        i32::MIN <= mouse.0 + camera_x <= i32::MAX,
        i32::MIN <= mouse.1 + render_cam_y <= i32::MAX,
    ensures
        r matches Some(t) ==> cursor_tile_i_spec(mouse, camera_x as int, render_cam_y as int)
            == Some((t.0 as int, t.1 as int)),
        r is None ==> cursor_tile_i_spec(mouse, camera_x as int, render_cam_y as int) is None,
{
    let (mx, my) = mouse;
    if !(my >= TILE_AREA_TOP && my < HUD_TOP) {
        return None;
    }
    let world_x = mx + camera_x;
    let world_y = my + render_cam_y;
    if world_x < 0 || world_y < 0 {
        return None;
    }
    Some((world_x / 40, world_y / 40))
}

} // verus!
