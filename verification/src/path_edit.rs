//! Path-block editing: creating, extending, dragging and deleting the control
//! points of the moving blocks declared with `block:` header lines. Every
//! operation keeps each path's segments strictly horizontal or vertical,
//! the rule the level parser enforces.
use vstd::prelude::*;
use crate::level::{
    aligned, bad_segment_from, blocks_view, LevelData, LevelSpec, PathBlock, PathBlockSpec,
    segment_count,
};
use crate::tiles::TilePos;

verus! {

/// What the cursor is currently dragging within the active path block.
#[derive(Clone, Copy, PartialEq, Eq, Debug)]
pub enum Drag {
    /// A single control point (only open-path endpoints are dragged this way).
    Point(usize),
    /// A whole edge `points[i] -> points[(i+1)%n]`, moved perpendicular to itself.
    Segment(usize),
}

pub open spec fn abs_diff(a: usize, b: usize) -> int {
    if a >= b {
        a - b
    } else {
        b - a
    }
}

/// `to` snapped so it lies strictly horizontal or vertical from `from`: the
/// axis that moves the most is kept, the other locked to `from`.
pub open spec fn snap_axis_spec(from: TilePos, to: TilePos) -> TilePos {
    if abs_diff(to.0, from.0) >= abs_diff(to.1, from.1) {
        (to.0, from.1)
    } else {
        (from.0, to.1)
    }
}

/// Distance between two coordinates.
pub open spec fn distance(a: int, b: int) -> int {
    if a >= b {
        a - b
    } else {
        b - a
    }
}

/// Snapping keeps the coordinate along which `to` lies farther from `from`
/// (the horizontal one on a tie), whichever side of `from` it lies on, and
/// locks the other to `from`'s: the snapped point shares a row or a column
/// with `from`. Mirroring `to` about `from`'s column (`flip_x`) or row
/// (`flip_y`) mirrors the snapped point in the same way.
pub proof fn law_snap_keeps_dominant_axis(
    from: TilePos,
    to: TilePos,
    flip_x: TilePos,
    flip_y: TilePos,
)
    requires
        flip_x.0 + to.0 == 2 * from.0,
        flip_x.1 == to.1,
        flip_y.0 == to.0,
        flip_y.1 + to.1 == 2 * from.1,
    ensures
        distance(to.0 as int, from.0 as int) >= distance(to.1 as int, from.1 as int)
            ==> snap_axis_spec(from, to) == (to.0, from.1),
        distance(to.0 as int, from.0 as int) < distance(to.1 as int, from.1 as int)
            ==> snap_axis_spec(from, to) == (from.0, to.1),
        snap_axis_spec(from, to).0 == from.0 || snap_axis_spec(from, to).1 == from.1,
        snap_axis_spec(from, flip_x).0 + snap_axis_spec(from, to).0 == 2 * from.0,
        snap_axis_spec(from, flip_x).1 == snap_axis_spec(from, to).1,
        snap_axis_spec(from, flip_y).0 == snap_axis_spec(from, to).0,
        snap_axis_spec(from, flip_y).1 + snap_axis_spec(from, to).1 == 2 * from.1,
{
}

/// Snap `to` so it lies strictly horizontal or vertical from `from`.
pub fn snap_axis(from: TilePos, to: TilePos) -> (r: TilePos)
    requires
        from.0 <= i32::MAX,
        from.1 <= i32::MAX,
        to.0 <= i32::MAX,
        to.1 <= i32::MAX,
    ensures
        r == snap_axis_spec(from, to),
{
    let ddx = to.0 as i32 - from.0 as i32;
    let ddy = to.1 as i32 - from.1 as i32;
    let dx = if ddx < 0 {
        -ddx
    } else {
        ddx
    };
    let dy = if ddy < 0 {
        -ddy
    } else {
        ddy
    };
    if dx >= dy {
        (to.0, from.1)
    } else {
        (from.0, to.1)
    }
}

/// Whether two tile positions are the same.
pub fn pos_eq(a: TilePos, b: TilePos) -> (r: bool)
    ensures
        r == (a == b),
{
    a.0 == b.0 && a.1 == b.1
}

/// True if `a` and `b` are strictly horizontal or vertical neighbours.
pub fn axis_aligned(a: TilePos, b: TilePos) -> (r: bool)
    ensures
        r == aligned(a, b),
{
    (a.0 == b.0) != (a.1 == b.1)
}

/// Every segment of the path is axis aligned (vacuous for a single point).
pub open spec fn segments_aligned(b: PathBlockSpec) -> bool {
    bad_segment_from(b.points, b.closed, 0) is None
}

/// A path block the parser accepts: two or more points, all segments aligned.
pub open spec fn block_valid(b: PathBlockSpec) -> bool {
    b.points.len() >= 2 && segments_aligned(b)
}

/// Every path block of the level has only aligned segments.
pub open spec fn paths_aligned(l: LevelSpec) -> bool {
    forall|i: int| 0 <= i < l.path_blocks.len() ==> segments_aligned(#[trigger] l.path_blocks[i])
}

/// The segments from `i` on are all aligned exactly when no bad one is found.
pub proof fn lemma_bad_segment_from(pts: Seq<(usize, usize)>, closed: bool, i: int)
    requires
        0 <= i,
        pts.len() > 0,
    ensures
        (bad_segment_from(pts, closed, i) is None) <==> (forall|k: int|
            i <= k < segment_count(pts.len() as int, closed) ==> aligned(
                #[trigger] pts[k],
                pts[(k + 1) % (pts.len() as int)],
            )),
    decreases segment_count(pts.len() as int, closed) - i,
{
    if i < segment_count(pts.len() as int, closed) {
        lemma_bad_segment_from(pts, closed, i + 1);
    }
}

/// All segments of the points are aligned.
pub open spec fn all_aligned(pts: Seq<(usize, usize)>, closed: bool) -> bool {
    forall|k: int|
        0 <= k < segment_count(pts.len() as int, closed) ==> aligned(
            #[trigger] pts[k],
            pts[(k + 1) % (pts.len() as int)],
        )
}

pub proof fn lemma_segments_aligned(b: PathBlockSpec)
    requires
        b.points.len() > 0,
    ensures
        segments_aligned(b) == all_aligned(b.points, b.closed),
{
    lemma_bad_segment_from(b.points, b.closed, 0);
}

/// Whether every edge of the block (including the closing wrap when looped)
/// is a valid strictly horizontal/vertical segment.
pub fn block_is_valid(block: &PathBlock) -> (r: bool)
    ensures
        r == block_valid(block@),
{
    let n = block.points.len();
    if n < 2 {
        return false;
    }
    let segments = if block.closed {
        n
    } else {
        n - 1
    };
    let mut i: usize = 0;
    while i < segments
        invariant
            n == block.points@.len(),
            n >= 2,
            segments == segment_count(n as int, block.closed),
            i <= segments,
            bad_segment_from(block.points@, block.closed, 0) == bad_segment_from(
                block.points@,
                block.closed,
                i as int,
            ),
        decreases segments - i,
    {
        if !axis_aligned(block.points[i], block.points[(i + 1) % n]) {
            return false;
        }
        i = i + 1;
    }
    true
}

/// The first control point in `blocks[b..]` sitting on `tile`, as
/// `(block index, point index)`.
pub open spec fn point_search(blocks: Seq<PathBlockSpec>, b: int, tile: TilePos) -> Option<
    (int, int),
>
    decreases blocks.len() - b,
{
    if b < 0 || b >= blocks.len() {
        None
    } else if exists|p: int| 0 <= p < blocks[b].points.len() && blocks[b].points[p] == tile {
        Some((b, first_index(blocks[b].points, tile, 0)))
    } else {
        point_search(blocks, b + 1, tile)
    }
}

/// The first index at or after `i` of `tile` in `pts`.
pub open spec fn first_index(pts: Seq<(usize, usize)>, tile: TilePos, i: int) -> int
    decreases pts.len() - i,
{
    if i < 0 || i >= pts.len() {
        -1
    } else if pts[i] == tile {
        i
    } else {
        first_index(pts, tile, i + 1)
    }
}

proof fn lemma_first_index(pts: Seq<(usize, usize)>, tile: TilePos, i: int, j: int)
    requires
        0 <= i <= j < pts.len(),
        pts[j] == tile,
        forall|k: int| i <= k < j ==> pts[k] != tile,
    ensures
        first_index(pts, tile, i) == j,
    decreases j - i,
{
    if i < j {
        lemma_first_index(pts, tile, i + 1, j);
    }
}

/// Find the (block index, point index) of a control point sitting on `tile`.
pub fn point_at_tile(level: &LevelData, tile: TilePos) -> (r: Option<(usize, usize)>)
    ensures
        match r {
            Some((b, p)) => point_search(level@.path_blocks, 0, tile) == Some((b as int, p as int))
                && b < level@.path_blocks.len() && p < level@.path_blocks[b as int].points.len()
                && level@.path_blocks[b as int].points[p as int] == tile,
            None => point_search(level@.path_blocks, 0, tile) is None,
        },
{
    let ghost bs = level@.path_blocks;
    let mut b: usize = 0;
    while b < level.path_blocks.len()
        invariant
            b <= level.path_blocks@.len(),
            bs == level@.path_blocks,
            bs.len() == level.path_blocks@.len(),
            point_search(bs, 0, tile) == point_search(bs, b as int, tile),
        decreases level.path_blocks.len() - b,
    {
        let block = &level.path_blocks[b];
        assert(bs[b as int] == block@);
        let mut p: usize = 0;
        while p < block.points.len()
            invariant
                p <= block.points@.len(),
                b < bs.len(),
                bs == level@.path_blocks,
                bs[b as int] == block@,
                point_search(bs, 0, tile) == point_search(bs, b as int, tile),
                forall|k: int| 0 <= k < p ==> block.points@[k] != tile,
            decreases block.points.len() - p,
        {
            if pos_eq(block.points[p], tile) {
                proof {
                    lemma_first_index(block.points@, tile, 0, p as int);
                    assert(bs[b as int].points[p as int] == tile);
                }
                return Some((b, p));
            }
            p = p + 1;
        }
        b = b + 1;
    }
    None
}

/// `tile` lies strictly between the endpoints of the axis-aligned edge `a`-`b`.
pub open spec fn on_segment_spec(a: TilePos, b: TilePos, tile: TilePos) -> bool {
    if a.1 == b.1 && tile.1 == a.1 {
        (a.0 < tile.0 < b.0) || (b.0 < tile.0 < a.0)
    } else if a.0 == b.0 && tile.0 == a.0 {
        (a.1 < tile.1 < b.1) || (b.1 < tile.1 < a.1)
    } else {
        false
    }
}

/// True if `tile` lies strictly between the endpoints of the edge `a`-`b`.
pub fn on_segment(a: TilePos, b: TilePos, tile: TilePos) -> (r: bool)
    ensures
        r == on_segment_spec(a, b, tile),
{
    if a.1 == b.1 && tile.1 == a.1 {
        let lo = if a.0 < b.0 {
            a.0
        } else {
            b.0
        };
        let hi = if a.0 < b.0 {
            b.0
        } else {
            a.0
        };
        return tile.0 > lo && tile.0 < hi;
    }
    if a.0 == b.0 && tile.0 == a.0 {
        let lo = if a.1 < b.1 {
            a.1
        } else {
            b.1
        };
        let hi = if a.1 < b.1 {
            b.1
        } else {
            a.1
        };
        return tile.1 > lo && tile.1 < hi;
    }
    false
}

/// The first segment index `i` of a block at or after `i` whose edge passes
/// through `tile`.
pub open spec fn segment_search_in(b: PathBlockSpec, tile: TilePos, i: int) -> Option<int>
    decreases segment_count(b.points.len() as int, b.closed) - i,
{
    let n = b.points.len() as int;
    if n < 2 || i < 0 || i >= segment_count(n, b.closed) {
        None
    } else if on_segment_spec(b.points[i], b.points[(i + 1) % n], tile) {
        Some(i)
    } else {
        segment_search_in(b, tile, i + 1)
    }
}

/// The first (block, segment) in `blocks[b..]` whose edge passes through `tile`.
pub open spec fn segment_search(blocks: Seq<PathBlockSpec>, b: int, tile: TilePos) -> Option<
    (int, int),
>
    decreases blocks.len() - b,
{
    if b < 0 || b >= blocks.len() {
        None
    } else {
        match segment_search_in(blocks[b], tile, 0) {
            Some(s) => Some((b, s)),
            None => segment_search(blocks, b + 1, tile),
        }
    }
}

proof fn lemma_segment_search_in_range(b: PathBlockSpec, tile: TilePos, i: int)
    ensures
        segment_search_in(b, tile, i) matches Some(s) ==> 0 <= s < segment_count(
            b.points.len() as int,
            b.closed,
        ) && b.points.len() >= 2,
    decreases segment_count(b.points.len() as int, b.closed) - i,
{
    let n = b.points.len() as int;
    if !(n < 2 || i < 0 || i >= segment_count(n, b.closed)) && !on_segment_spec(
        b.points[i],
        b.points[(i + 1) % n],
        tile,
    ) {
        lemma_segment_search_in_range(b, tile, i + 1);
    }
}

/// Find the (block index, segment index) of an edge passing through `tile`;
/// segment `i` is the edge `points[i] -> points[(i+1) % n]`.
pub fn segment_at_tile(level: &LevelData, tile: TilePos) -> (r: Option<(usize, usize)>)
    ensures
        match r {
            Some((b, s)) => segment_search(level@.path_blocks, 0, tile) == Some((b as int, s as int))
                && b < level@.path_blocks.len() && s < segment_count(
                level@.path_blocks[b as int].points.len() as int,
                level@.path_blocks[b as int].closed,
            ) && level@.path_blocks[b as int].points.len() >= 2,
            None => segment_search(level@.path_blocks, 0, tile) is None,
        },
{
    let ghost bs = level@.path_blocks;
    let mut b: usize = 0;
    while b < level.path_blocks.len()
        invariant
            b <= level.path_blocks@.len(),
            bs == level@.path_blocks,
            bs.len() == level.path_blocks@.len(),
            segment_search(bs, 0, tile) == segment_search(bs, b as int, tile),
        decreases level.path_blocks.len() - b,
    {
        let block = &level.path_blocks[b];
        assert(bs[b as int] == block@);
        proof {
            lemma_segment_search_in_range(block@, tile, 0);
        }
        let n = block.points.len();
        if n >= 2 {
            let segments = if block.closed {
                n
            } else {
                n - 1
            };
            let mut i: usize = 0;
            while i < segments
                invariant
                    n == block.points@.len(),
                    n >= 2,
                    segments == segment_count(n as int, block.closed),
                    i <= segments,
                    b < bs.len(),
                    bs == level@.path_blocks,
                    bs[b as int] == block@,
                    segment_search(bs, 0, tile) == segment_search(bs, b as int, tile),
                    segment_search_in(block@, tile, 0) == segment_search_in(block@, tile, i as int),
                decreases segments - i,
            {
                if on_segment(block.points[i], block.points[(i + 1) % n], tile) {
                    assert(segment_search_in(block@, tile, i as int) == Some(i as int));
                    return Some((b, i));
                }
                i = i + 1;
            }
        }
        b = b + 1;
    }
    None
}

} // verus!

verus! {

/// Every control point coordinate fits the editor's `i32` screen arithmetic.
pub open spec fn coords_small(l: LevelSpec) -> bool {
    forall|i: int, k: int|
        0 <= i < l.path_blocks.len() && 0 <= k < l.path_blocks[i].points.len() ==> (
        #[trigger] l.path_blocks[i].points[k]).0 <= i32::MAX && l.path_blocks[i].points[k].1
            <= i32::MAX
}

/// The active block, if any, exists and has at least one point.
pub open spec fn active_ok(l: LevelSpec, active: Option<usize>) -> bool {
    active matches Some(i) ==> i < l.path_blocks.len() && l.path_blocks[i as int].points.len() >= 1
}

pub open spec fn tile_small(t: TilePos) -> bool {
    t.0 <= i32::MAX && t.1 <= i32::MAX
}

/// The other fields of the level are untouched.
pub open spec fn same_but_paths(a: LevelSpec, b: LevelSpec) -> bool {
    a.name == b.name && a.id == b.id && a.spawn == b.spawn && a.tiles == b.tiles && a.decorations
        == b.decorations && a.exits == b.exits
}

proof fn lemma_push_aligned(pts: Seq<(usize, usize)>, next: (usize, usize))
    requires
        pts.len() >= 1,
        all_aligned(pts, false),
        aligned(pts.last(), next),
    ensures
        all_aligned(pts.push(next), false),
{
    let q = pts.push(next);
    assert forall|k: int| 0 <= k < segment_count(q.len() as int, false) implies aligned(
        #[trigger] q[k],
        q[(k + 1) % (q.len() as int)],
    ) by {
        vstd::arithmetic::div_mod::lemma_small_mod((k + 1) as nat, q.len());
        if k < pts.len() - 1 {
            vstd::arithmetic::div_mod::lemma_small_mod((k + 1) as nat, pts.len());
            assert(aligned(pts[k], pts[(k + 1) % (pts.len() as int)]));
        }
    }
}

fn take_block(level: &mut LevelData, i: usize) -> (blk: PathBlock)
    requires
        i < old(level).path_blocks@.len(),
    ensures
        blk == old(level).path_blocks@[i as int],
        final(level).path_blocks@.len() == old(level).path_blocks@.len(),
        forall|j: int|
            0 <= j < old(level).path_blocks@.len() && j != i ==> #[trigger] final(level).path_blocks@[j] == old(level).path_blocks@[j],
        final(level).name == old(level).name,
        final(level).spawn == old(level).spawn,
        final(level).tiles == old(level).tiles,
        final(level).decorations == old(level).decorations,
        final(level).id == old(level).id,
        final(level).exits == old(level).exits,
{
    let mut blk = PathBlock { points: Vec::new(), closed: false };
    level.path_blocks.set_and_swap(i, &mut blk);
    blk
}

fn put_block(level: &mut LevelData, i: usize, blk: PathBlock)
    requires
        i < old(level).path_blocks@.len(),
    ensures
        final(level).path_blocks@ == old(level).path_blocks@.update(i as int, blk),
        final(level).name == old(level).name,
        final(level).spawn == old(level).spawn,
        final(level).tiles == old(level).tiles,
        final(level).decorations == old(level).decorations,
        final(level).id == old(level).id,
        final(level).exits == old(level).exits,
{
    let mut b = blk;
    level.path_blocks.set_and_swap(i, &mut b);
}

/// Handle a left-click on `tile` (the grid cell under the cursor, `None` when
/// the cursor is off the grid) while in path mode: select or start dragging an
/// existing point or edge, start a new block, or append a snapped point to the
/// active open block. Returns whether the level changed.
pub fn path_left_click(
    level: &mut LevelData,
    active_block: &mut Option<usize>,
    dragging: &mut Option<Drag>,
    start_new: &mut bool,
    tile: Option<TilePos>,
) -> (changed: bool)
    requires
        active_ok(old(level)@, *old(active_block)),
        coords_small(old(level)@),
        tile matches Some(t) ==> tile_small(t),
    ensures
        same_but_paths(final(level)@, old(level)@),
        active_ok(final(level)@, *final(active_block)),
        coords_small(final(level)@),
        paths_aligned(old(level)@) ==> paths_aligned(final(level)@),
        match tile {
            None => !changed && final(level)@ == old(level)@ && *final(active_block)
                == *old(active_block) && *final(dragging) == *old(dragging) && *final(start_new)
                == *old(start_new),
            Some(t) => match point_search(old(level)@.path_blocks, 0, t) {
                Some((b, p)) => !changed && final(level)@ == old(level)@ && *final(active_block)
                    == Some(b as usize) && *final(start_new) == *old(start_new) && *final(dragging)
                    == (if !old(level)@.path_blocks[b].closed && (p == 0 || p
                    == old(level)@.path_blocks[b].points.len() - 1) {
                    Some(Drag::Point(p as usize))
                } else {
                    None
                }),
                None => match segment_search(old(level)@.path_blocks, 0, t) {
                    Some((b, s)) => !changed && final(level)@ == old(level)@ && *final(active_block) == Some(b as usize) && *final(dragging) == Some(Drag::Segment(s as usize))
                        && *final(start_new) == *old(start_new),
                    None => if *old(start_new) || old(active_block).is_none() {
                        changed && final(level)@.path_blocks == old(level)@.path_blocks.push(
                            PathBlockSpec { points: seq![t], closed: false },
                        ) && *final(active_block) == Some(old(level)@.path_blocks.len() as usize)
                            && !*final(start_new) && *final(dragging) == *old(dragging)
                    } else {
                        let i = old(active_block).unwrap() as int;
                        let blk = old(level)@.path_blocks[i];
                        let next = snap_axis_spec(blk.points.last(), t);
                        *final(active_block) == *old(active_block) && *final(dragging) == *old(dragging) && *final(start_new) == *old(start_new) && if blk.closed || next
                            == blk.points.last() {
                            !changed && final(level)@ == old(level)@
                        } else {
                            changed && final(level)@.path_blocks == old(level)@.path_blocks.update(
                                i,
                                PathBlockSpec { points: blk.points.push(next), closed: false },
                            )
                        }
                    },
                },
            },
        },
{
    let t = match tile {
        None => {
            return false;
        },
        Some(t) => t,
    };
    let hit = point_at_tile(level, t);
    if let Some((b, p)) = hit {
        *active_block = Some(b);
        let block = &level.path_blocks[b];
        assert(block@ == level@.path_blocks[b as int]);
        let is_endpoint = !block.closed && (p == 0 || p == block.points.len() - 1);
        *dragging = if is_endpoint {
            Some(Drag::Point(p))
        } else {
            None
        };
        return false;
    }
    if let Some((b, s)) = segment_at_tile(level, t) {
        *active_block = Some(b);
        *dragging = Some(Drag::Segment(s));
        return false;
    }
    let ghost l0 = level@;
    if *start_new || active_block.is_none() {
        let mut pts: Vec<(usize, usize)> = Vec::new();
        pts.push(t);
        level.path_blocks.push(PathBlock { points: pts, closed: false });
        *active_block = Some(level.path_blocks.len() - 1);
        *start_new = false;
        proof {
            assert(blocks_view(level.path_blocks@) =~= l0.path_blocks.push(
                PathBlockSpec { points: seq![t], closed: false },
            ));
            let nb = level@.path_blocks;
            if paths_aligned(l0) {
                assert forall|i: int| 0 <= i < nb.len() implies segments_aligned(#[trigger] nb[i]) by {
                    if i < l0.path_blocks.len() {
                        assert(nb[i] == l0.path_blocks[i]);
                    } else {
                        lemma_segments_aligned(nb[i]);
                    }
                }
            }
            assert forall|i: int, k: int|
                0 <= i < nb.len() && 0 <= k < nb[i].points.len() implies (
            #[trigger] nb[i].points[k]).0 <= i32::MAX && nb[i].points[k].1 <= i32::MAX by {
                if i < l0.path_blocks.len() {
                    assert(nb[i] == l0.path_blocks[i]);
                }
            }
        }
        return true;
    }
    let i = active_block.unwrap();
    if level.path_blocks[i].closed {
        return false;
    }
    let n = level.path_blocks[i].points.len();
    let last = level.path_blocks[i].points[n - 1];
    proof {
        assert(l0.path_blocks[i as int].points.last() == last);
    }
    let next = snap_axis(last, t);
    if pos_eq(next, last) {
        return false;
    }
    let mut blk = take_block(level, i);
    blk.points.push(next);
    put_block(level, i, blk);
    proof {
        let ob = l0.path_blocks[i as int];
        assert(blocks_view(level.path_blocks@) =~= l0.path_blocks.update(
            i as int,
            PathBlockSpec { points: ob.points.push(next), closed: false },
        ));
        assert(aligned(last, next));
        let nb = level@.path_blocks;
        if paths_aligned(l0) {
            assert forall|j: int| 0 <= j < nb.len() implies segments_aligned(#[trigger] nb[j]) by {
                if j == i {
                    assert(segments_aligned(ob));
                    lemma_segments_aligned(ob);
                    lemma_push_aligned(ob.points, next);
                    lemma_segments_aligned(nb[j]);
                } else {
                    assert(nb[j] == l0.path_blocks[j]);
                }
            }
        }
        assert forall|j: int, k: int|
            0 <= j < nb.len() && 0 <= k < nb[j].points.len() implies (
        #[trigger] nb[j].points[k]).0 <= i32::MAX && nb[j].points[k].1 <= i32::MAX by {
            if j != i {
                assert(nb[j] == l0.path_blocks[j]);
            } else if k < ob.points.len() {
                assert(nb[j].points[k] == ob.points[k]);
            }
        }
    }
    true
}

} // verus!

verus! {

proof fn lemma_wrap(k: int, m: int)
    requires
        0 <= k < m,
    ensures
        (k + 1) % m == if k + 1 == m {
            0
        } else {
            k + 1
        },
{
    if k + 1 == m {
        vstd::arithmetic::div_mod::lemma_mod_self_0(m);
    } else {
        vstd::arithmetic::div_mod::lemma_small_mod((k + 1) as nat, m as nat);
    }
}

proof fn lemma_prev(p: int, n: int)
    requires
        0 <= p < n,
    ensures
        (p + n - 1) % n == if p == 0 {
            n - 1
        } else {
            p - 1
        },
{
    if p == 0 {
        vstd::arithmetic::div_mod::lemma_small_mod((n - 1) as nat, n as nat);
    } else {
        vstd::arithmetic::div_mod::lemma_mod_add_multiples_vanish(p - 1, n);
        vstd::arithmetic::div_mod::lemma_small_mod((p - 1) as nat, n as nat);
    }
}

/// Whether control point `p` can be deleted without breaking the path: an
/// open path's endpoint always can; any other point only when its two
/// neighbours stay aligned once it is gone (a loop also keeps three points).
pub open spec fn removable(b: PathBlockSpec, p: int) -> bool {
    let n = b.points.len() as int;
    if b.closed {
        n > 2 && aligned(b.points[(p + n - 1) % n], b.points[(p + 1) % n])
    } else if p == 0 || p == n - 1 {
        true
    } else {
        aligned(b.points[p - 1], b.points[p + 1])
    }
}

/// The blocks after deleting point `p` of block `b`: a block left with fewer
/// than two points is dropped altogether.
pub open spec fn blocks_after_removal(bs: Seq<PathBlockSpec>, b: int, p: int) -> Seq<
    PathBlockSpec,
> {
    let pts = bs[b].points.remove(p);
    if pts.len() < 2 {
        bs.remove(b)
    } else {
        bs.update(b, PathBlockSpec { points: pts, closed: bs[b].closed })
    }
}

proof fn lemma_remove_aligned(pts: Seq<(usize, usize)>, closed: bool, p: int)
    requires
        0 <= p < pts.len(),
        all_aligned(pts, closed),
        removable(PathBlockSpec { points: pts, closed }, p),
    ensures
        all_aligned(pts.remove(p), closed),
{
    let n = pts.len() as int;
    let q = pts.remove(p);
    let m = n - 1;
    assert forall|k: int| 0 <= k < segment_count(m, closed) implies aligned(
        #[trigger] q[k],
        q[(k + 1) % m],
    ) by {
        lemma_wrap(k, m);
        lemma_prev(p, n);
        lemma_wrap(p, n);
        if k + 1 < m {
            if k + 1 < p {
                lemma_wrap(k, n);
                assert(aligned(pts[k], pts[(k + 1) % n]));
            } else if k + 1 == p {
            } else {
                lemma_wrap(k + 1, n);
                assert(aligned(pts[k + 1], pts[(k + 2) % n]));
            }
        } else {
            if k >= p && p > 0 {
                lemma_wrap(n - 1, n);
                assert(aligned(pts[n - 1], pts[(n - 1 + 1) % n]));
            }
        }
    }
}

/// Delete the control point on `tile` from its block when that keeps the path
/// valid; a block left with a single point is removed. Returns whether the
/// level changed.
pub fn path_right_click(
    level: &mut LevelData,
    active_block: &mut Option<usize>,
    tile: Option<TilePos>,
) -> (changed: bool)
    requires
        active_ok(old(level)@, *old(active_block)),
    ensures
        same_but_paths(final(level)@, old(level)@),
        active_ok(final(level)@, *final(active_block)),
        coords_small(old(level)@) ==> coords_small(final(level)@),
        paths_aligned(old(level)@) ==> paths_aligned(final(level)@),
        match tile {
            None => !changed && final(level)@ == old(level)@ && *final(active_block)
                == *old(active_block),
            Some(t) => match point_search(old(level)@.path_blocks, 0, t) {
                None => !changed && final(level)@ == old(level)@ && *final(active_block)
                    == *old(active_block),
                Some((b, p)) => if removable(old(level)@.path_blocks[b], p) {
                    changed && final(level)@.path_blocks == blocks_after_removal(
                        old(level)@.path_blocks,
                        b,
                        p,
                    ) && *final(active_block) == (if old(level)@.path_blocks[b].points.len() <= 2 {
                        None
                    } else {
                        Some(b as usize)
                    })
                } else {
                    !changed && final(level)@ == old(level)@ && *final(active_block)
                        == *old(active_block)
                },
            },
        },
{
    let t = match tile {
        None => {
            return false;
        },
        Some(t) => t,
    };
    let (b, p) = match point_at_tile(level, t) {
        None => {
            return false;
        },
        Some(hit) => hit,
    };
    let ghost l0 = level@;
    let ghost ob = l0.path_blocks[b as int];
    let n = level.path_blocks[b].points.len();
    assert(level.path_blocks@[b as int]@ == ob);
    let closed = level.path_blocks[b].closed;
    let removable_now = if closed {
        let prev = if p == 0 {
            n - 1
        } else {
            p - 1
        };
        let next = if p + 1 == n {
            0
        } else {
            p + 1
        };
        proof {
            lemma_prev(p as int, n as int);
            lemma_wrap(p as int, n as int);
        }
        n > 2 && axis_aligned(level.path_blocks[b].points[prev], level.path_blocks[b].points[next])
    } else if p == 0 || p == n - 1 {
        true
    } else {
        axis_aligned(level.path_blocks[b].points[p - 1], level.path_blocks[b].points[p + 1])
    };
    if !removable_now {
        return false;
    }
    let mut blk = take_block(level, b);
    blk.points.remove(p);
    let ghost np = ob.points.remove(p as int);
    assert(blk.points@ == np);
    if blk.points.len() < 2 {
        level.path_blocks.remove(b);
        *active_block = None;
        proof {
            assert(blocks_view(level.path_blocks@) =~= l0.path_blocks.remove(b as int));
            let nb = level@.path_blocks;
            if paths_aligned(l0) {
                assert forall|j: int| 0 <= j < nb.len() implies segments_aligned(#[trigger] nb[j]) by {
                    if j < b {
                        assert(nb[j] == l0.path_blocks[j]);
                    } else {
                        assert(nb[j] == l0.path_blocks[j + 1]);
                    }
                }
            }
            if coords_small(l0) {
                assert forall|j: int, k: int|
                    0 <= j < nb.len() && 0 <= k < nb[j].points.len() implies (
                    #[trigger] nb[j].points[k]).0 <= i32::MAX && nb[j].points[k].1 <= i32::MAX by {
                    if j < b {
                        assert(nb[j] == l0.path_blocks[j]);
                    } else {
                        assert(nb[j] == l0.path_blocks[j + 1]);
                    }
                }
            }
        }
    } else {
        put_block(level, b, blk);
        *active_block = Some(b);
        proof {
            let nbk = PathBlockSpec { points: np, closed: ob.closed };
            assert(blocks_view(level.path_blocks@) =~= l0.path_blocks.update(b as int, nbk));
            let nb = level@.path_blocks;
            if paths_aligned(l0) {
                assert forall|j: int| 0 <= j < nb.len() implies segments_aligned(
                    #[trigger] nb[j],
                ) by {
                    if j == b {
                        assert(segments_aligned(ob));
                        lemma_segments_aligned(ob);
                        lemma_remove_aligned(ob.points, ob.closed, p as int);
                        lemma_segments_aligned(nbk);
                    } else {
                        assert(nb[j] == l0.path_blocks[j]);
                    }
                }
            }
            if coords_small(l0) {
                assert forall|j: int, k: int|
                    0 <= j < nb.len() && 0 <= k < nb[j].points.len() implies (
                    #[trigger] nb[j].points[k]).0 <= i32::MAX && nb[j].points[k].1 <= i32::MAX by {
                    if j != b {
                        assert(nb[j] == l0.path_blocks[j]);
                    } else if k < p {
                        assert(nb[j].points[k] == ob.points[k]);
                    } else {
                        assert(nb[j].points[k] == ob.points[k + 1]);
                    }
                }
            }
        }
    }
    true
}

} // verus!

verus! {

/// Where an endpoint dragged onto `tile` lands: snapped to stay aligned with
/// its single neighbour (the next point for the first, the previous one
/// otherwise), or `tile` itself when it has none.
pub open spec fn drag_point_target(pts: Seq<(usize, usize)>, p: int, tile: TilePos) -> TilePos {
    if p == 0 {
        if pts.len() > 1 {
            snap_axis_spec(pts[1], tile)
        } else {
            tile
        }
    } else {
        snap_axis_spec(pts[p - 1], tile)
    }
}

/// The neighbour an endpoint is snapped against, when it has one.
pub open spec fn drag_neighbour(pts: Seq<(usize, usize)>, p: int) -> Option<(usize, usize)> {
    if p == 0 {
        if pts.len() > 1 {
            Some(pts[1])
        } else {
            None
        }
    } else {
        Some(pts[p - 1])
    }
}

/// The block's points after sliding edge `s` onto `tile`, or `None` when the
/// edge is not axis aligned or `tile` lies on its own line.
pub open spec fn slid_points(pts: Seq<(usize, usize)>, s: int, tile: TilePos) -> Option<
    Seq<(usize, usize)>,
> {
    let n = pts.len() as int;
    let j = (s + 1) % n;
    let a = pts[s];
    let c = pts[j];
    if a.1 == c.1 {
        if tile.1 == a.1 {
            None
        } else {
            Some(pts.update(s, (a.0, tile.1)).update(j, (c.0, tile.1)))
        }
    } else if a.0 == c.0 {
        if tile.0 == a.0 {
            None
        } else {
            Some(pts.update(s, (tile.0, a.1)).update(j, (tile.0, c.1)))
        }
    } else {
        None
    }
}

/// What sliding edge `s` onto `tile` makes of the block: the slid block when
/// it is still valid, else the block unchanged.
pub open spec fn drag_segment_spec(b: PathBlockSpec, s: int, tile: TilePos) -> PathBlockSpec {
    match slid_points(b.points, s, tile) {
        Some(q) => if block_valid(PathBlockSpec { points: q, closed: b.closed }) {
            PathBlockSpec { points: q, closed: b.closed }
        } else {
            b
        },
        None => b,
    }
}

/// Slide edge `s` (`points[s] -> points[(s+1) % n]`) perpendicular to itself
/// onto `tile`, carrying both endpoints. The move is refused when it would
/// leave the block invalid (an adjacent edge collapsed). Returns whether the
/// block changed.
pub fn drag_segment(block: &mut PathBlock, s: usize, tile: TilePos) -> (changed: bool)
    requires
        s < old(block).points@.len(),
    ensures
        final(block)@ == drag_segment_spec(old(block)@, s as int, tile),
        changed == (final(block)@ != old(block)@),
        changed ==> block_valid(final(block)@),
{
    let n = block.points.len();
    let j = (s + 1) % n;
    let a = block.points[s];
    let c = block.points[j];
    let ghost b0 = block@;
    let (new_a, new_c) = if a.1 == c.1 {
        if tile.1 == a.1 {
            return false;
        }
        ((a.0, tile.1), (c.0, tile.1))
    } else if a.0 == c.0 {
        if tile.0 == a.0 {
            return false;
        }
        ((tile.0, a.1), (tile.0, c.1))
    } else {
        return false;
    };
    block.points.set(s, new_a);
    block.points.set(j, new_c);
    let ghost q = block.points@;
    assert(q == b0.points.update(s as int, new_a).update(j as int, new_c));
    if !block_is_valid(block) {
        block.points.set(s, a);
        block.points.set(j, c);
        assert(block.points@ =~= b0.points);
        return false;
    }
    proof {
        // the moved endpoint differs from before, so the block did change
        if j == s {
            assert(q[s as int] != b0.points[s as int]);
        } else {
            assert(q[s as int] != b0.points[s as int]);
        }
    }
    true
}

proof fn lemma_update_endpoint(pts: Seq<(usize, usize)>, p: int, x: (usize, usize))
    requires
        pts.len() >= 2,
        p == 0 || p == pts.len() - 1,
        all_aligned(pts, false),
        p == 0 ==> aligned(x, pts[1]),
        p != 0 ==> aligned(pts[p - 1], x),
    ensures
        all_aligned(pts.update(p, x), false),
{
    let n = pts.len() as int;
    let q = pts.update(p, x);
    assert forall|k: int| 0 <= k < segment_count(n, false) implies aligned(
        #[trigger] q[k],
        q[(k + 1) % n],
    ) by {
        lemma_wrap(k, n);
        assert(aligned(pts[k], pts[(k + 1) % n]));
    }
}

/// Move what is being dragged to follow the cursor on `tile`: an endpoint is
/// snapped against its neighbour, an edge slides as `drag_segment` does.
/// Returns whether the level changed.
pub fn drag_path(
    level: &mut LevelData,
    active_block: Option<usize>,
    dragging: Option<Drag>,
    tile: Option<TilePos>,
) -> (changed: bool)
    requires
        coords_small(old(level)@),
        tile matches Some(t) ==> tile_small(t),
        active_block matches Some(b) ==> (dragging matches Some(d) ==> b < old(
            level,
        )@.path_blocks.len() && match d {
            Drag::Point(p) => p < old(level)@.path_blocks[b as int].points.len(),
            Drag::Segment(s) => s < old(level)@.path_blocks[b as int].points.len(),
        }),
    ensures
        same_but_paths(final(level)@, old(level)@),
        coords_small(final(level)@),
        final(level)@.path_blocks.len() == old(level)@.path_blocks.len(),
        forall|i: int|
            0 <= i < old(level)@.path_blocks.len() ==> (#[trigger] final(level)@.path_blocks[i]).points.len()
                == old(level)@.path_blocks[i].points.len(),
        changed == (final(level)@ != old(level)@),
        match (active_block, dragging, tile) {
            (Some(b), Some(Drag::Point(p)), Some(t)) => {
                let blk = old(level)@.path_blocks[b as int];
                let target = drag_point_target(blk.points, p as int, t);
                final(level)@.path_blocks == old(level)@.path_blocks.update(
                    b as int,
                    PathBlockSpec { points: blk.points.update(p as int, target), closed: blk.closed },
                )
            },
            (Some(b), Some(Drag::Segment(s)), Some(t)) => final(level)@.path_blocks == old(
                level,
            )@.path_blocks.update(
                b as int,
                drag_segment_spec(old(level)@.path_blocks[b as int], s as int, t),
            ),
            _ => final(level)@ == old(level)@,
        },
        match (active_block, dragging) {
            (Some(b), Some(Drag::Point(p))) => {
                let blk = old(level)@.path_blocks[b as int];
                paths_aligned(old(level)@) && !blk.closed && (p == 0 || p == blk.points.len() - 1)
                    && (tile matches Some(t) ==> drag_neighbour(blk.points, p as int) != Some(
                    drag_point_target(blk.points, p as int, t),
                )) ==> paths_aligned(final(level)@)
            },
            _ => paths_aligned(old(level)@) ==> paths_aligned(final(level)@),
        },
{
    let (b, drag) = match (active_block, dragging) {
        (Some(b), Some(d)) => (b, d),
        _ => {
            return false;
        },
    };
    let t = match tile {
        None => {
            return false;
        },
        Some(t) => t,
    };
    let ghost l0 = level@;
    let ghost ob = l0.path_blocks[b as int];
    assert(level.path_blocks@[b as int]@ == ob);
    let mut blk = take_block(level, b);
    let changed = match drag {
        Drag::Point(p) => {
            proof {
                assert(ob.points[p as int] == blk.points@[p as int]);
                if p > 0 {
                    assert(ob.points[p - 1] == blk.points@[p - 1]);
                }
                if p == 0 && blk.points@.len() > 1 {
                    assert(ob.points[1] == blk.points@[1]);
                }
            }
            let new_pt = if p == 0 {
                if blk.points.len() > 1 {
                    snap_axis(blk.points[1], t)
                } else {
                    t
                }
            } else {
                snap_axis(blk.points[p - 1], t)
            };
            if pos_eq(blk.points[p], new_pt) {
                assert(ob.points.update(p as int, new_pt) =~= ob.points);
                false
            } else {
                blk.points.set(p, new_pt);
                true
            }
        },
        Drag::Segment(s) => drag_segment(&mut blk, s, t),
    };
    put_block(level, b, blk);
    proof {
        let nbk = blk@;
        assert(blocks_view(level.path_blocks@) =~= l0.path_blocks.update(b as int, nbk));
        let nb = level@.path_blocks;
        if !changed {
            assert(nbk == ob);
            assert(nb =~= l0.path_blocks);
        } else {
            assert(nb[b as int] != l0.path_blocks[b as int]);
        }
        assert forall|j: int, k: int|
            0 <= j < nb.len() && 0 <= k < nb[j].points.len() implies (
        #[trigger] nb[j].points[k]).0 <= i32::MAX && nb[j].points[k].1 <= i32::MAX by {
            if j != b {
                assert(nb[j] == l0.path_blocks[j]);
            } else {
                assert(ob.points.len() > 0);
                assert(ob.points[0].0 <= i32::MAX);
                let n = ob.points.len() as int;
                match drag {
                    Drag::Point(p) => {
                        if k != p {
                            assert(nb[j].points[k] == ob.points[k]);
                        } else if p == 0 {
                            if n > 1 {
                                assert(ob.points[1].0 <= i32::MAX);
                            }
                        } else {
                            assert(ob.points[p - 1].0 <= i32::MAX);
                        }
                    },
                    Drag::Segment(s) => {
                        let jj = (s + 1) % n;
                        assert(ob.points[s as int].0 <= i32::MAX);
                        assert(0 <= jj < n);
                        assert(ob.points[jj].0 <= i32::MAX);
                        if k != s && k != jj {
                            assert(nb[j].points[k] == ob.points[k]);
                        }
                    },
                }
            }
        }
        match drag {
            Drag::Point(p) => {
                let n = ob.points.len() as int;
                let target = drag_point_target(ob.points, p as int, t);
                if paths_aligned(l0) && !ob.closed && (p == 0 || p == n - 1)
                    && drag_neighbour(ob.points, p as int) != Some(target) {
                    assert forall|j: int| 0 <= j < nb.len() implies segments_aligned(
                        #[trigger] nb[j],
                    ) by {
                        if j == b {
                            assert(segments_aligned(ob));
                            lemma_segments_aligned(ob);
                            if n >= 2 {
                                lemma_update_endpoint(ob.points, p as int, target);
                            }
                            lemma_segments_aligned(nb[j]);
                        } else {
                            assert(nb[j] == l0.path_blocks[j]);
                        }
                    }
                }
            },
            Drag::Segment(s) => {
                if paths_aligned(l0) {
                    assert forall|j: int| 0 <= j < nb.len() implies segments_aligned(
                        #[trigger] nb[j],
                    ) by {
                        if j != b {
                            assert(nb[j] == l0.path_blocks[j]);
                        } else {
                            assert(segments_aligned(ob));
                        }
                    }
                }
            },
        }
    }
    changed
}

/// Toggle the active block between an open path and a closed loop. Closing
/// needs three or more points and an aligned segment from the last point back
/// to the first. Returns whether anything changed.
pub fn toggle_loop(level: &mut LevelData, active_block: Option<usize>) -> (changed: bool)
    requires
        active_block matches Some(b) ==> b < old(level)@.path_blocks.len() && old(
            level,
        )@.path_blocks[b as int].points.len() >= 1,
    ensures
        same_but_paths(final(level)@, old(level)@),
        paths_aligned(old(level)@) ==> paths_aligned(final(level)@),
        match active_block {
            None => !changed && final(level)@ == old(level)@,
            Some(b) => {
                let blk = old(level)@.path_blocks[b as int];
                let n = blk.points.len() as int;
                if blk.closed {
                    changed && final(level)@.path_blocks == old(level)@.path_blocks.update(
                        b as int,
                        PathBlockSpec { points: blk.points, closed: false },
                    )
                } else if n >= 3 && aligned(blk.points[n - 1], blk.points[0]) {
                    changed && final(level)@.path_blocks == old(level)@.path_blocks.update(
                        b as int,
                        PathBlockSpec { points: blk.points, closed: true },
                    )
                } else {
                    !changed && final(level)@ == old(level)@
                }
            },
        },
{
    let b = match active_block {
        None => {
            return false;
        },
        Some(b) => b,
    };
    let ghost l0 = level@;
    let ghost ob = l0.path_blocks[b as int];
    assert(level.path_blocks@[b as int]@ == ob);
    let n = level.path_blocks[b].points.len();
    let closing = if level.path_blocks[b].closed {
        false
    } else {
        let first = level.path_blocks[b].points[0];
        let last = level.path_blocks[b].points[n - 1];
        if n >= 3 && axis_aligned(last, first) {
            true
        } else {
            return false;
        }
    };
    let mut blk = take_block(level, b);
    blk.closed = closing;
    put_block(level, b, blk);
    proof {
        let nbk = PathBlockSpec { points: ob.points, closed: closing };
        assert(blocks_view(level.path_blocks@) =~= l0.path_blocks.update(b as int, nbk));
        let nb = level@.path_blocks;
        if paths_aligned(l0) {
            assert forall|j: int| 0 <= j < nb.len() implies segments_aligned(#[trigger] nb[j]) by {
                if j != b {
                    assert(nb[j] == l0.path_blocks[j]);
                } else {
                    assert(segments_aligned(ob));
                    lemma_segments_aligned(ob);
                    lemma_segments_aligned(nbk);
                    let m = n as int;
                    assert forall|k: int| 0 <= k < segment_count(m, closing) implies aligned(
                        #[trigger] ob.points[k],
                        ob.points[(k + 1) % m],
                    ) by {
                        lemma_wrap(k, m);
                        if k < m - 1 {
                            assert(aligned(ob.points[k], ob.points[(k + 1) % m]));
                        }
                    }
                }
            }
        }
    }
    true
}

} // verus!
