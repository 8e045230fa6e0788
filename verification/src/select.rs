//! Region select: marking a rectangular block of tiles and moving or copying
//! it elsewhere in the grid.
use vstd::prelude::*;
use crate::level::{exits_view, rows_view, ExitDoor, ExitSpec, LevelData};
use crate::tools::{exit_index, exit_index_from, reconcile_exit, reconciled};
use crate::tiles::{self, TilePos};

verus! {

/// A rectangular block of tile cells selected in select mode, as inclusive
/// tile bounds: `min` is the top-left corner, `max` the bottom-right.
#[derive(Clone, Copy, PartialEq, Eq, Debug)]
pub struct Selection {
    pub min: TilePos,
    pub max: TilePos,
}

/// The in-progress pointer interaction while in select mode.
#[derive(Clone, Copy, PartialEq, Eq, Debug)]
pub enum SelectDrag {
    /// Rubber-band selecting: `anchor` is the fixed corner; the moving corner
    /// is the cell under the cursor.
    Marquee { anchor: TilePos },
    /// Moving (or, when `copy`, copying) the current selection. `grab` is the
    /// offset from the selection's top-left to the grabbed cell.
    Move { grab: TilePos, copy: bool },
}

pub open spec fn min_u(a: usize, b: usize) -> usize {
    if a <= b {
        a
    } else {
        b
    }
}

pub open spec fn max_u(a: usize, b: usize) -> usize {
    if a >= b {
        a
    } else {
        b
    }
}

impl Selection {
    /// The corners are ordered.
    pub open spec fn ordered(self) -> bool {
        self.min.0 <= self.max.0 && self.min.1 <= self.max.1
    }

    pub open spec fn width_spec(self) -> int {
        self.max.0 - self.min.0 + 1
    }

    pub open spec fn height_spec(self) -> int {
        self.max.1 - self.min.1 + 1
    }

    pub open spec fn holds(self, t: TilePos) -> bool {
        self.min.0 <= t.0 <= self.max.0 && self.min.1 <= t.1 <= self.max.1
    }

    /// The rectangle spanning two (possibly unordered) corner cells.
    pub fn from_corners(a: TilePos, b: TilePos) -> (r: Selection)
        ensures
            r.min == (min_u(a.0, b.0), min_u(a.1, b.1)),
            r.max == (max_u(a.0, b.0), max_u(a.1, b.1)),
            r.ordered(),
    {
        Selection {
            min: (
                if a.0 <= b.0 {
                    a.0
                } else {
                    b.0
                },
                if a.1 <= b.1 {
                    a.1
                } else {
                    b.1
                },
            ),
            max: (
                if a.0 >= b.0 {
                    a.0
                } else {
                    b.0
                },
                if a.1 >= b.1 {
                    a.1
                } else {
                    b.1
                },
            ),
        }
    }

    /// A `w`x`h` selection with its top-left at `min`.
    pub fn at(min: TilePos, w: usize, h: usize) -> (r: Selection)
        requires
            w >= 1,
            h >= 1,
            min.0 + w - 1 <= usize::MAX,
            min.1 + h - 1 <= usize::MAX,
        ensures
            r.min == min,
            r.max == ((min.0 + w - 1) as usize, (min.1 + h - 1) as usize),
            r.ordered(),
            r.width_spec() == w,
            r.height_spec() == h,
    {
        Selection { min, max: (min.0 + (w - 1), min.1 + (h - 1)) }
    }

    pub fn width(&self) -> (r: usize)
        requires
            self.ordered(),
            self.max.0 - self.min.0 + 1 <= usize::MAX,
        ensures
            r == self.width_spec(),
    {
        self.max.0 - self.min.0 + 1
    }

    pub fn height(&self) -> (r: usize)
        requires
            self.ordered(),
            self.max.1 - self.min.1 + 1 <= usize::MAX,
        ensures
            r == self.height_spec(),
    {
        self.max.1 - self.min.1 + 1
    }

    pub fn contains(&self, t: TilePos) -> (r: bool)
        ensures
            r == self.holds(t),
    {
        self.min.0 <= t.0 && t.0 <= self.max.0 && self.min.1 <= t.1 && t.1 <= self.max.1
    }
}

pub open spec fn clamp_int(v: int, lo: int, hi: int) -> int {
    if v < lo {
        lo
    } else if v > hi {
        hi
    } else {
        v
    }
}

/// Where a selection's top-left lands when its `grab` cell follows `cursor`,
/// kept so the whole block stays inside a `width`x`height` grid.
pub open spec fn move_target_spec(
    width: int,
    height: int,
    sel: Selection,
    grab: TilePos,
    cursor: (i32, i32),
) -> (int, int) {
    let max_x = if width - sel.width_spec() > 0 {
        width - sel.width_spec()
    } else {
        0
    };
    let max_y = if height - sel.height_spec() > 0 {
        height - sel.height_spec()
    } else {
        0
    };
    (clamp_int(cursor.0 - grab.0, 0, max_x), clamp_int(cursor.1 - grab.1, 0, max_y))
}

/// Where a selection's top-left should land when its `grab` cell follows the
/// cursor, clamped so the whole block stays inside a `width`x`height` grid.
pub fn clamp_move_target(
    width: usize,
    height: usize,
    sel: Selection,
    grab: TilePos,
    cursor: (i32, i32),
) -> (r: TilePos)
    requires
        sel.ordered(),
        width <= i32::MAX,
        height <= i32::MAX,
        sel.width_spec() <= i32::MAX,
        sel.height_spec() <= i32::MAX,
        grab.0 <= i32::MAX,
        grab.1 <= i32::MAX,
        cursor.0 - grab.0 >= i32::MIN,
        cursor.1 - grab.1 >= i32::MIN,
    ensures
        r.0 == move_target_spec(width as int, height as int, sel, grab, cursor).0,
        r.1 == move_target_spec(width as int, height as int, sel, grab, cursor).1,
{
    let sw = sel.width() as i32;
    let sh = sel.height() as i32;
    let dx = width as i32 - sw;
    let dy = height as i32 - sh;
    let max_x = if dx > 0 {
        dx
    } else {
        0
    };
    let max_y = if dy > 0 {
        dy
    } else {
        0
    };
    let vx = cursor.0 - grab.0 as i32;
    let vy = cursor.1 - grab.1 as i32;
    let tx = if vx < 0 {
        0
    } else if vx > max_x {
        max_x
    } else {
        vx
    };
    let ty = if vy < 0 {
        0
    } else if vy > max_y {
        max_y
    } else {
        vy
    };
    (tx as usize, ty as usize)
}

/// Tile `(x, y)` after moving (or, when `copy`, copying) the block `sel` so
/// its top-left lands at `target`: the target area shows the block as it
/// was, the vacated source (when moving) is empty, the rest is unchanged.
pub open spec fn moved_tile(
    t: Seq<Seq<u32>>,
    sel: Selection,
    target: TilePos,
    copy: bool,
    x: int,
    y: int,
) -> u32 {
    if target.0 <= x < target.0 + sel.width_spec() && target.1 <= y < target.1
        + sel.height_spec() {
        t[sel.min.1 + (y - target.1)][sel.min.0 + (x - target.0)]
    } else if !copy && sel.holds((x as usize, y as usize)) {
        tiles::EMPTY
    } else {
        t[y][x]
    }
}

/// The whole grid after the move: each row keeps its length.
pub open spec fn moved_tiles(t: Seq<Seq<u32>>, sel: Selection, target: TilePos, copy: bool) -> Seq<
    Seq<u32>,
> {
    Seq::new(
        t.len(),
        |y: int| Seq::new(t[y].len(), |x: int| moved_tile(t, sel, target, copy, x, y)),
    )
}

/// Both the block and its destination lie inside the grid.
pub open spec fn move_in_grid(t: Seq<Seq<u32>>, sel: Selection, target: TilePos) -> bool {
    &&& sel.ordered()
    &&& sel.max.1 < t.len()
    &&& target.1 + sel.height_spec() <= t.len()
    &&& forall|y: int|
        0 <= y < t.len() ==> sel.max.0 < (#[trigger] t[y]).len() && target.0 + sel.width_spec()
            <= t[y].len()
}

/// Move (or, when `copy`, copy) the block of tiles in `sel` so its top-left
/// lands at `target`. Both must lie fully inside the grid; source and target
/// may overlap, as the block is read before anything is written.
///
/// The exit routing of every touched cell (the target area and, when moving,
/// the vacated source) is then reconciled in `(x, y)` order, with new doors
/// routed to `default_dest`.
pub fn move_selection(
    level: &mut LevelData,
    sel: Selection,
    target: TilePos,
    copy: bool,
    default_dest: &str,
)
    requires
        move_in_grid(rows_view(old(level).tiles@), sel, target),
    ensures
        rows_view(final(level).tiles@) == moved_tiles(rows_view(old(level).tiles@), sel, target, copy),
        exits_view(final(level).exits@) == reconcile_touched(
            exits_view(old(level).exits@),
            moved_tiles(rows_view(old(level).tiles@), sel, target, copy),
            sel,
            target,
            copy,
            default_dest@,
        ),
        final(level).name == old(level).name,
        final(level).id == old(level).id,
        final(level).spawn == old(level).spawn,
        final(level).path_blocks == old(level).path_blocks,
        final(level).decorations == old(level).decorations,
{
    let ghost t = rows_view(level.tiles@);
    let mut out: Vec<Vec<u32>> = Vec::new();
    let h = level.tiles.len();
    let mut y: usize = 0;
    while y < h
        invariant
            h == level.tiles@.len(),
            t == rows_view(level.tiles@),
            move_in_grid(t, sel, target),
            y <= h,
            out@.len() == y,
            forall|k: int| 0 <= k < y ==> (#[trigger] out@[k])@ == moved_tiles(t, sel, target, copy)[k],
        decreases h - y,
    {
        let w = level.tiles[y].len();
        assert(level.tiles@[y as int]@ == t[y as int]);
        let mut row: Vec<u32> = Vec::new();
        let mut x: usize = 0;
        while x < w
            invariant
                h == level.tiles@.len(),
                t == rows_view(level.tiles@),
                move_in_grid(t, sel, target),
                y < h,
                w == t[y as int].len(),
                x <= w,
                row@.len() == x,
                forall|k: int| 0 <= k < x ==> #[trigger] row@[k] == moved_tile(t, sel, target, copy, k, y as int),
            decreases w - x,
        {
            let in_target = target.0 <= x && x - target.0 < sel.max.0 - sel.min.0 + 1 && target.1 <= y
                && y - target.1 < sel.max.1 - sel.min.1 + 1;
            let v = if in_target {
                let sy = sel.min.1 + (y - target.1);
                let sx = sel.min.0 + (x - target.0);
                assert(sel.max.0 < t[sy as int].len());
                assert(level.tiles@[sy as int]@ == t[sy as int]);
                level.tiles[sy][sx]
            } else if !copy && sel.contains((x, y)) {
                tiles::EMPTY
            } else {
                assert(level.tiles@[y as int]@ == t[y as int]);
                level.tiles[y][x]
            };
            row.push(v);
            x = x + 1;
        }
        assert(row@ =~= moved_tiles(t, sel, target, copy)[y as int]);
        out.push(row);
        y = y + 1;
    }
    level.tiles = out;
    assert(rows_view(level.tiles@) =~= moved_tiles(t, sel, target, copy));
    reconcile_touched_cells(level, sel, target, copy, default_dest);
}

/// Whether a move or copy of `sel` to `target` touches cell `c`: it lies in
/// the target area, or (when moving) in the vacated source.
pub open spec fn touched(sel: Selection, target: TilePos, copy: bool, c: TilePos) -> bool {
    ||| (target.0 <= c.0 < target.0 + sel.width_spec() && target.1 <= c.1 < target.1
        + sel.height_spec())
    ||| (!copy && sel.holds(c))
}

/// Column `x` of the touched cells, rows `y0` up to `y` (exclusive),
/// reconciled in turn.
pub open spec fn reconcile_touched_col(
    es: Seq<ExitSpec>,
    t: Seq<Seq<u32>>,
    sel: Selection,
    target: TilePos,
    copy: bool,
    dest: Seq<char>,
    x: int,
    y0: int,
    y: int,
) -> Seq<ExitSpec>
    decreases y - y0,
{
    if y <= y0 {
        es
    } else {
        let p = reconcile_touched_col(es, t, sel, target, copy, dest, x, y0, y - 1);
        let c = (x as usize, (y - 1) as usize);
        if touched(sel, target, copy, c) {
            reconciled(p, t, c, dest)
        } else {
            p
        }
    }
}

/// Columns `x0` up to `x` (exclusive) of the touched cells, rows `y0` up to
/// `y1` (exclusive), reconciled column by column.
pub open spec fn reconcile_touched_cols(
    es: Seq<ExitSpec>,
    t: Seq<Seq<u32>>,
    sel: Selection,
    target: TilePos,
    copy: bool,
    dest: Seq<char>,
    x0: int,
    x: int,
    y0: int,
    y1: int,
) -> Seq<ExitSpec>
    decreases x - x0,
{
    if x <= x0 {
        es
    } else {
        reconcile_touched_col(
            reconcile_touched_cols(es, t, sel, target, copy, dest, x0, x - 1, y0, y1),
            t,
            sel,
            target,
            copy,
            dest,
            x - 1,
            y0,
            y1,
        )
    }
}

/// The exit routing after reconciling every cell a move touches, in `(x, y)`
/// order over the box that spans the source and the target.
pub open spec fn reconcile_touched(
    es: Seq<ExitSpec>,
    t: Seq<Seq<u32>>,
    sel: Selection,
    target: TilePos,
    copy: bool,
    dest: Seq<char>,
) -> Seq<ExitSpec> {
    let x0 = if sel.min.0 <= target.0 { sel.min.0 as int } else { target.0 as int };
    let y0 = if sel.min.1 <= target.1 { sel.min.1 as int } else { target.1 as int };
    let tx1 = target.0 + sel.width_spec();
    let ty1 = target.1 + sel.height_spec();
    let x1 = if sel.max.0 + 1 >= tx1 { sel.max.0 + 1 } else { tx1 };
    let y1 = if sel.max.1 + 1 >= ty1 { sel.max.1 + 1 } else { ty1 };
    reconcile_touched_cols(es, t, sel, target, copy, dest, x0, x1, y0, y1)
}

fn reconcile_touched_cells(
    level: &mut LevelData,
    sel: Selection,
    target: TilePos,
    copy: bool,
    default_dest: &str,
)
    requires
        move_in_grid(rows_view(old(level).tiles@), sel, target),
    ensures
        exits_view(final(level).exits@) == reconcile_touched(
            exits_view(old(level).exits@),
            rows_view(old(level).tiles@),
            sel,
            target,
            copy,
            default_dest@,
        ),
        final(level).tiles == old(level).tiles,
        final(level).name == old(level).name,
        final(level).id == old(level).id,
        final(level).spawn == old(level).spawn,
        final(level).path_blocks == old(level).path_blocks,
        final(level).decorations == old(level).decorations,
{
    let ghost es = exits_view(level.exits@);
    let ghost t = rows_view(level.tiles@);
    let ghost d = default_dest@;
    let nrows = level.tiles.len();
    let ncols = level.tiles[0].len();
    assert(t[0] == level.tiles@[0]@);
    assert(sel.max.0 < t[0].len());
    let w = sel.max.0 - sel.min.0 + 1;
    let h = sel.max.1 - sel.min.1 + 1;
    let x0 = if sel.min.0 <= target.0 { sel.min.0 } else { target.0 };
    let y0 = if sel.min.1 <= target.1 { sel.min.1 } else { target.1 };
    let x1 = if sel.max.0 + 1 >= target.0 + w { sel.max.0 + 1 } else { target.0 + w };
    let y1 = if sel.max.1 + 1 >= target.1 + h { sel.max.1 + 1 } else { target.1 + h };
    let mut x = x0;
    while x < x1
        invariant
            x0 <= x <= x1,
            y0 <= y1,
            d == default_dest@,
            t == rows_view(level.tiles@),
            move_in_grid(t, sel, target),
            w == sel.width_spec(),
            h == sel.height_spec(),
            exits_view(level.exits@) == reconcile_touched_cols(
                es,
                t,
                sel,
                target,
                copy,
                d,
                x0 as int,
                x as int,
                y0 as int,
                y1 as int,
            ),
            level.name == old(level).name,
            level.id == old(level).id,
            level.spawn == old(level).spawn,
            level.tiles == old(level).tiles,
            level.path_blocks == old(level).path_blocks,
            level.decorations == old(level).decorations,
        decreases x1 - x,
    {
        let ghost before = exits_view(level.exits@);
        let mut y = y0;
        while y < y1
            invariant
                x0 <= x < x1,
                y0 <= y <= y1,
                d == default_dest@,
                t == rows_view(level.tiles@),
                move_in_grid(t, sel, target),
                w == sel.width_spec(),
                h == sel.height_spec(),
                exits_view(level.exits@) == reconcile_touched_col(
                    before,
                    t,
                    sel,
                    target,
                    copy,
                    d,
                    x as int,
                    y0 as int,
                    y as int,
                ),
                level.name == old(level).name,
                level.id == old(level).id,
                level.spawn == old(level).spawn,
                level.tiles == old(level).tiles,
                level.path_blocks == old(level).path_blocks,
                level.decorations == old(level).decorations,
            decreases y1 - y,
        {
            let in_target = target.0 <= x && x - target.0 < w && target.1 <= y && y - target.1 < h;
            let in_source = !copy && sel.contains((x, y));
            assert((in_target || in_source) == touched(sel, target, copy, (x, y)));
            let ghost prev = exits_view(level.exits@);
            if in_target || in_source {
                reconcile_exit(level, (x, y), default_dest);
                assert(exits_view(level.exits@) == reconciled(prev, t, (x, y), d));
            }
            assert(reconcile_touched_col(before, t, sel, target, copy, d, x as int, y0 as int, y + 1)
                == if touched(sel, target, copy, (x, y)) {
                reconciled(prev, t, (x, y), d)
            } else {
                prev
            });
            y = y + 1;
        }
        x = x + 1;
    }
}

/// The grid with every cell of `sel` emptied.
pub open spec fn erased_tiles(t: Seq<Seq<u32>>, sel: Selection) -> Seq<Seq<u32>> {
    Seq::new(
        t.len(),
        |y: int|
            Seq::new(
                t[y].len(),
                |x: int|
                    if sel.holds((x as usize, y as usize)) {
                        tiles::EMPTY
                    } else {
                        t[y][x]
                    },
            ),
    )
}

/// Whether erasing `sel` drops routing entry `i` of `es`: it is the first
/// entry of a cell of `sel`, which no longer holds a door.
pub open spec fn erase_drops(es: Seq<ExitSpec>, sel: Selection, i: int) -> bool {
    sel.holds(es[i].tile) && exit_index_from(es, es[i].tile, 0) == Some(i)
}

/// The first `n` routing entries of `es` that erasing `sel` keeps, in order.
pub open spec fn erased_exits(es: Seq<ExitSpec>, sel: Selection, n: int) -> Seq<ExitSpec>
    decreases n,
{
    if n <= 0 {
        seq![]
    } else {
        let p = erased_exits(es, sel, n - 1);
        if erase_drops(es, sel, n - 1) {
            p
        } else {
            p.push(es[n - 1])
        }
    }
}

/// Erase every tile in `sel`; cells of it outside the grid are ignored. Each
/// cell of `sel` then loses its exit routing entry, as it holds no door.
pub fn erase_selection(level: &mut LevelData, sel: Selection)
    ensures
        rows_view(final(level).tiles@) == erased_tiles(rows_view(old(level).tiles@), sel),
        exits_view(final(level).exits@) == erased_exits(
            exits_view(old(level).exits@),
            sel,
            old(level).exits@.len() as int,
        ),
        final(level).id == old(level).id,
        final(level).name == old(level).name,
        final(level).spawn == old(level).spawn,
        final(level).path_blocks == old(level).path_blocks,
        final(level).decorations == old(level).decorations,
{
    let ghost t = rows_view(level.tiles@);
    let mut out: Vec<Vec<u32>> = Vec::new();
    let h = level.tiles.len();
    let mut y: usize = 0;
    while y < h
        invariant
            h == level.tiles@.len(),
            t == rows_view(level.tiles@),
            y <= h,
            out@.len() == y,
            forall|k: int| 0 <= k < y ==> (#[trigger] out@[k])@ == erased_tiles(t, sel)[k],
        decreases h - y,
    {
        let w = level.tiles[y].len();
        assert(level.tiles@[y as int]@ == t[y as int]);
        let mut row: Vec<u32> = Vec::new();
        let mut x: usize = 0;
        while x < w
            invariant
                h == level.tiles@.len(),
                t == rows_view(level.tiles@),
                y < h,
                w == t[y as int].len(),
                x <= w,
                row@.len() == x,
                forall|k: int|
                    0 <= k < x ==> #[trigger] row@[k] == erased_tiles(t, sel)[y as int][k],
            decreases w - x,
        {
            let v = if sel.contains((x, y)) {
                tiles::EMPTY
            } else {
                assert(level.tiles@[y as int]@ == t[y as int]);
                level.tiles[y][x]
            };
            row.push(v);
            x = x + 1;
        }
        assert(row@ =~= erased_tiles(t, sel)[y as int]);
        out.push(row);
        y = y + 1;
    }
    level.tiles = out;
    assert(rows_view(level.tiles@) =~= erased_tiles(t, sel));
    let ghost es = exits_view(level.exits@);
    let mut kept: Vec<ExitDoor> = Vec::new();
    let n = level.exits.len();
    let mut i: usize = 0;
    while i < n
        invariant
            n == level.exits@.len(),
            es == exits_view(level.exits@),
            i <= n,
            exits_view(kept@) == erased_exits(es, sel, i as int),
        decreases n - i,
    {
        let tile = level.exits[i].tile;
        assert(es[i as int].tile == tile);
        let first = match exit_index(level, tile) {
            Some(j) => j == i,
            None => false,
        };
        assert(first == (exit_index_from(es, tile, 0) == Some(i as int)));
        if sel.contains(tile) && first {
        } else {
            let e = &level.exits[i];
            kept.push(ExitDoor { tile: e.tile, dest: e.dest.clone() });
            assert(exits_view(kept@) =~= erased_exits(es, sel, i as int).push(es[i as int]));
        }
        i = i + 1;
    }
    level.exits = kept;
}

} // verus!

verus! {

/// A block that fits in the grid always lands wholly inside it, wherever
/// the cursor drags it.
pub proof fn law_move_target_keeps_block_inside(
    width: int,
    height: int,
    sel: Selection,
    grab: TilePos,
    cursor: (i32, i32),
)
    requires
        sel.ordered(),
        sel.width_spec() <= width,
        sel.height_spec() <= height,
    ensures
        0 <= move_target_spec(width, height, sel, grab, cursor).0,
        move_target_spec(width, height, sel, grab, cursor).0 + sel.width_spec() <= width,
        0 <= move_target_spec(width, height, sel, grab, cursor).1,
        move_target_spec(width, height, sel, grab, cursor).1 + sel.height_spec() <= height,
{
}

/// The grabbed cell follows the cursor: on each axis, when the block fits
/// in the grid with its top-left at the cursor minus the grab offset, it
/// lands exactly there; when that spot lies before the grid's start, the
/// block lands at the start, and when it lies past the last place the block
/// fits, at that last place. Each axis depends on the cursor and grab of that
/// axis alone.
pub proof fn law_move_target_follows_cursor(
    width: int,
    height: int,
    sel: Selection,
    grab: TilePos,
    cursor: (i32, i32),
    other_grab: TilePos,
    other_cursor: (i32, i32),
)
    requires
        sel.ordered(),
        sel.width_spec() <= width,
        sel.height_spec() <= height,
    ensures
        ({
            let r = move_target_spec(width, height, sel, grab, cursor);
            let vx = cursor.0 - grab.0;
            let vy = cursor.1 - grab.1;
            &&& 0 <= vx <= width - sel.width_spec() ==> r.0 == vx
            &&& vx < 0 ==> r.0 == 0
            &&& vx > width - sel.width_spec() ==> r.0 == width - sel.width_spec()
            &&& 0 <= vy <= height - sel.height_spec() ==> r.1 == vy
            &&& vy < 0 ==> r.1 == 0
            &&& vy > height - sel.height_spec() ==> r.1 == height - sel.height_spec()
        }),
        other_grab.0 == grab.0 && other_cursor.0 == cursor.0 ==> move_target_spec(
            width,
            height,
            sel,
            other_grab,
            other_cursor,
        ).0 == move_target_spec(width, height, sel, grab, cursor).0,
        other_grab.1 == grab.1 && other_cursor.1 == cursor.1 ==> move_target_spec(
            width,
            height,
            sel,
            other_grab,
            other_cursor,
        ).1 == move_target_spec(width, height, sel, grab, cursor).1,
{
}

} // verus!
