//! The tile grid as the game plays it: moving platforms are lifted out of
//! the grid when a level starts, periodic tiles blink, crumbling tiles start
//! decaying when touched, coins gate the exit doors, and path blocks walk
//! their control points back and forth or round a loop.
use vstd::prelude::*;
use crate::level::{rows_view, PathBlock};
use crate::tiles::{self, moving, solid};

verus! {

/// One cell of the grid: its tile type and position.
#[derive(Clone, Copy, PartialEq, Eq, Debug)]
pub struct Tile {
    pub tile_type: u32,
    pub x: usize,
    pub y: usize,
}

/// Every row of `t` has length `w`.
pub open spec fn rectangular(t: Seq<Seq<u32>>, w: int) -> bool {
    forall|y: int| 0 <= y < t.len() ==> (#[trigger] t[y]).len() == w
}

/// The `i`-th cell of a `w`-wide grid in row-major order.
pub open spec fn cell_at(t: Seq<Seq<u32>>, w: int, i: int) -> Tile {
    Tile { tile_type: t[i / w][i % w], x: (i % w) as usize, y: (i / w) as usize }
}

/// The cells among the first `k` (row-major) whose type satisfies `p`.
pub open spec fn cells_where(t: Seq<Seq<u32>>, w: int, p: spec_fn(u32) -> bool, k: int) -> Seq<
    Tile,
>
    decreases k,
{
    if k <= 0 {
        Seq::empty()
    } else {
        let prev = cells_where(t, w, p, k - 1);
        let c = cell_at(t, w, k - 1);
        if p(c.tile_type) {
            prev.push(c)
        } else {
            prev
        }
    }
}

/// The test for tiles of type `ty`.
pub open spec fn type_is(ty: u32) -> spec_fn(u32) -> bool {
    |v: u32| v == ty
}

/// The cells of type `ty`, in row-major order.
pub open spec fn cells_of_type(t: Seq<Seq<u32>>, w: int, ty: u32) -> Seq<Tile> {
    cells_where(t, w, type_is(ty), t.len() * w)
}

/// The grid with every moving-platform tile emptied.
pub open spec fn without_platforms(t: Seq<Seq<u32>>) -> Seq<Seq<u32>> {
    t.map_values(
        |r: Seq<u32>|
            r.map_values(
                |v: u32|
                    if moving(v) {
                        tiles::EMPTY
                    } else {
                        v
                    },
            ),
    )
}

/// The grid with the two phases of every periodic tile swapped.
pub open spec fn periodic_swapped(t: Seq<Seq<u32>>) -> Seq<Seq<u32>> {
    t.map_values(|r: Seq<u32>| r.map_values(|v: u32| swap_phase(v)))
}

pub open spec fn swap_phase(v: u32) -> u32 {
    if v == tiles::PERIODIC_SOLID {
        tiles::PERIODIC_GHOST
    } else if v == tiles::PERIODIC_GHOST {
        tiles::PERIODIC_SOLID
    } else {
        v
    }
}

proof fn lemma_cell_index(w: int, y: int, x: int)
    requires
        w > 0,
        0 <= x < w,
        0 <= y,
    ensures
        (y * w + x) / w == y,
        (y * w + x) % w == x,
{
    vstd::arithmetic::div_mod::lemma_fundamental_div_mod_converse(y * w + x, w, y, x);
}

/// The level's tile grid while it is being played.
pub struct TileGrid {
    pub width: usize,
    pub height: usize,
    pub tiles: Vec<Vec<u32>>,
    /// The grid as loaded, platforms included, for a reset.
    pub original: Vec<Vec<u32>>,
}

impl TileGrid {
    /// The grid as loaded.
    pub open spec fn original_view(&self) -> Seq<Seq<u32>> {
        rows_view(self.original@)
    }

    /// The grid is `width` x `height`.
    pub open spec fn wf(&self) -> bool {
        &&& self.height == self.tiles@.len()
        &&& rectangular(rows_view(self.tiles@), self.width as int)
        &&& self.width * self.height <= usize::MAX
    }

    pub open spec fn grid(&self) -> Seq<Seq<u32>> {
        rows_view(self.tiles@)
    }

    /// Build the grid of a level. Moving platform tiles are lifted out of it
    /// and returned, in row-major order, to become platforms.
    pub fn from_data(level_data: Vec<Vec<u32>>) -> (r: (TileGrid, Vec<Tile>))
        requires
            rectangular(
                rows_view(level_data@),
                if level_data@.len() == 0 {
                    0
                } else {
                    level_data@[0]@.len() as int
                },
            ),
            level_data@.len() * (if level_data@.len() == 0 {
                0
            } else {
                level_data@[0]@.len() as int
            }) <= usize::MAX,
        ensures
            r.0.wf(),
            r.0.height == level_data@.len(),
            r.0.width == (if level_data@.len() == 0 {
                0
            } else {
                level_data@[0]@.len() as int
            }),
            r.0.grid() == without_platforms(rows_view(level_data@)),
            r.0.original_view() == rows_view(level_data@),
            r.1@ == cells_where(
                rows_view(level_data@),
                r.0.width as int,
                |v: u32| moving(v),
                r.0.height * r.0.width,
            ),
    {
        let height = level_data.len();
        let width = if height == 0 {
            0
        } else {
            level_data[0].len()
        };
        let ghost t = rows_view(level_data@);
        proof {
            if height > 0 {
                assert(t[0] == level_data@[0]@);
            }
        }
        let mut platforms: Vec<Tile> = Vec::new();
        let mut tiles_out: Vec<Vec<u32>> = Vec::new();
        let mut y: usize = 0;
        while y < height
            invariant
                height == level_data@.len(),
                t == rows_view(level_data@),
                rectangular(t, width as int),
                height * width <= usize::MAX,
                y <= height,
                tiles_out@.len() == y,
                forall|k: int|
                    0 <= k < y ==> (#[trigger] tiles_out@[k])@ == without_platforms(t)[k],
                platforms@ == cells_where(t, width as int, |v: u32| moving(v), y * width),
            decreases height - y,
        {
            let mut row: Vec<u32> = Vec::new();
            assert(level_data@[y as int]@ == t[y as int]);
            let mut x: usize = 0;
            while x < width
                invariant
                    height == level_data@.len(),
                    t == rows_view(level_data@),
                    rectangular(t, width as int),
                    height * width <= usize::MAX,
                    y < height,
                    x <= width,
                    row@.len() == x,
                    forall|k: int|
                        0 <= k < x ==> #[trigger] row@[k] == without_platforms(t)[y as int][k],
                    platforms@ == cells_where(
                        t,
                        width as int,
                        |v: u32| moving(v),
                        y * width + x,
                    ),
                decreases width - x,
            {
                assert(t[y as int].len() == width);
                assert(level_data@[y as int]@ == t[y as int]);
                let v = level_data[y][x];
                proof {
                    lemma_cell_index(width as int, y as int, x as int);
                    assert(y * width + x < height * width) by (nonlinear_arith)
                        requires
                            y < height,
                            x < width,
                    ;
                }
                if tiles::is_moving(v) {
                    platforms.push(Tile { tile_type: v, x, y });
                    row.push(tiles::EMPTY);
                } else {
                    row.push(v);
                }
                x = x + 1;
            }
            assert(row@ =~= without_platforms(t)[y as int]);
            tiles_out.push(row);
            proof {
                assert(y * width + width == (y + 1) * width) by (nonlinear_arith);
            }
            y = y + 1;
        }
        proof {
            assert(rows_view(tiles_out@) =~= without_platforms(t));
            assert forall|k: int| 0 <= k < tiles_out@.len() implies (#[trigger] rows_view(
                tiles_out@,
            )[k]).len() == width by {
                assert(rows_view(tiles_out@)[k] == without_platforms(t)[k]);
            }
        }
        (TileGrid { width, height, tiles: tiles_out, original: level_data }, platforms)
    }

    /// Put every tile back as the level was loaded, with the moving platforms
    /// lifted out again.
    pub fn reset(&mut self)
        requires
            old(self).wf(),
            rectangular(old(self).original_view(), old(self).width as int),
            old(self).original_view().len() == old(self).height,
        ensures
            final(self).grid() == without_platforms(old(self).original_view()),
            final(self).original_view() == old(self).original_view(),
            final(self).width == old(self).width,
            final(self).height == old(self).height,
            final(self).wf(),
    {
        let ghost t = rows_view(self.original@);
        let mut out: Vec<Vec<u32>> = Vec::new();
        let mut y: usize = 0;
        while y < self.original.len()
            invariant
                t == rows_view(self.original@),
                y <= self.original@.len(),
                out@.len() == y,
                forall|k: int| 0 <= k < y ==> (#[trigger] out@[k])@ == without_platforms(t)[k],
            decreases self.original@.len() - y,
        {
            let mut row: Vec<u32> = Vec::new();
            assert(self.original@[y as int]@ == t[y as int]);
            let mut x: usize = 0;
            while x < self.original[y].len()
                invariant
                    t == rows_view(self.original@),
                    y < self.original@.len(),
                    x <= self.original@[y as int]@.len(),
                    self.original@[y as int]@ == t[y as int],
                    row@.len() == x,
                    forall|k: int|
                        0 <= k < x ==> #[trigger] row@[k] == without_platforms(t)[y as int][k],
                decreases self.original@[y as int]@.len() - x,
            {
                let v = self.original[y][x];
                row.push(
                    if tiles::is_moving(v) {
                        tiles::EMPTY
                    } else {
                        v
                    },
                );
                x = x + 1;
            }
            assert(row@ =~= without_platforms(t)[y as int]);
            out.push(row);
            y = y + 1;
        }
        self.tiles = out;
        proof {
            assert(rows_view(self.tiles@) =~= without_platforms(t));
            assert forall|k: int| 0 <= k < self.tiles@.len() implies (#[trigger] rows_view(
                self.tiles@,
            )[k]).len() == self.width by {
                assert(rows_view(self.tiles@)[k] == without_platforms(t)[k]);
            }
        }
    }

    /// Every cell of type `t`, in row-major order.
    pub fn tiles_of_type(&self, t: u32) -> (r: Vec<Tile>)
        requires
            self.wf(),
        ensures
            r@ == cells_of_type(self.grid(), self.width as int, t),
    {
        let ghost g = self.grid();
        let w = self.width;
        let h = self.height;
        let mut out: Vec<Tile> = Vec::new();
        let mut y: usize = 0;
        while y < h
            invariant
                self.wf(),
                g == self.grid(),
                w == self.width,
                h == self.height,
                y <= h,
                out@ == cells_where(g, w as int, type_is(t), y * w),
            decreases h - y,
        {
            let mut x: usize = 0;
            while x < w
                invariant
                    self.wf(),
                    g == self.grid(),
                    w == self.width,
                    h == self.height,
                    y < h,
                    x <= w,
                    out@ == cells_where(g, w as int, type_is(t), y * w + x),
                decreases w - x,
            {
                assert(g[y as int].len() == w);
                assert(self.tiles@[y as int]@ == g[y as int]);
                let v = self.tiles[y][x];
                proof {
                    lemma_cell_index(w as int, y as int, x as int);
                }
                if v == t {
                    out.push(Tile { tile_type: v, x, y });
                }
                x = x + 1;
            }
            proof {
                assert(y * w + w == (y + 1) * w) by (nonlinear_arith);
            }
            y = y + 1;
        }
        proof {
            assert(h * w == g.len() * w);
        }
        out
    }

    /// How many uncollected coins remain in the level.
    pub fn coins_remaining(&self) -> (r: usize)
        requires
            self.wf(),
        ensures
            r == cells_of_type(self.grid(), self.width as int, tiles::COIN).len(),
    {
        self.tiles_of_type(tiles::COIN).len()
    }

    /// Exit doors stay shut until every coin has been collected.
    pub fn doors_open(&self) -> (r: bool)
        requires
            self.wf(),
        ensures
            r == (cells_of_type(self.grid(), self.width as int, tiles::COIN).len() == 0),
    {
        self.coins_remaining() == 0
    }

    /// The tile at a cell, empty outside the grid.
    pub open spec fn tile_at(&self, x: int, y: int) -> u32 {
        if x < 0 || y < 0 || x >= self.width || y >= self.height {
            tiles::EMPTY
        } else {
            self.grid()[y][x]
        }
    }

    /// Get the tile type at a tile position (empty outside the grid).
    pub fn get_tile(&self, tile_x: i32, tile_y: i32) -> (r: u32)
        requires
            self.wf(),
        ensures
            r == self.tile_at(tile_x as int, tile_y as int),
    {
        if tile_x < 0 || tile_y < 0 || tile_x as usize >= self.width || tile_y as usize
            >= self.height {
            return tiles::EMPTY;
        }
        assert(self.grid()[tile_y as int].len() == self.width);
        assert(self.tiles@[tile_y as int]@ == self.grid()[tile_y as int]);
        self.tiles[tile_y as usize][tile_x as usize]
    }

    /// Whether the tile at a position blocks movement (nothing outside the
    /// grid does).
    pub fn is_solid(&self, tile_x: i32, tile_y: i32) -> (r: bool)
        requires
            self.wf(),
        ensures
            r == (0 <= tile_x < self.width && 0 <= tile_y < self.height && solid(
                self.tile_at(tile_x as int, tile_y as int),
            )),
    {
        if tile_x < 0 || tile_y < 0 || tile_x as usize >= self.width || tile_y as usize
            >= self.height {
            return false;
        }
        tiles::is_solid(self.get_tile(tile_x, tile_y))
    }

    /// Whether any solid tile lies in the block of cells `[left, right]` x
    /// `[top, bottom]` (cells outside the grid are not solid).
    pub fn any_solid_in(&self, left: i32, right: i32, top: i32, bottom: i32) -> (r: bool)
        requires
            self.wf(),
            right < i32::MAX,
            bottom < i32::MAX,
        ensures
            r == exists|tx: int, ty: int|
                left <= tx <= right && top <= ty <= bottom && 0 <= tx < self.width && 0 <= ty
                    < self.height && #[trigger] solid(self.tile_at(tx, ty)),
    {
        if top > bottom || left > right {
            return false;
        }
        let mut ty = top;
        while ty <= bottom
            invariant
                self.wf(),
                top <= ty,
                ty <= bottom + 1,
                top <= bottom,
                left <= right,
                bottom < i32::MAX,
                right < i32::MAX,
                forall|a: int, b: int|
                    left <= a <= right && top <= b < ty && 0 <= a < self.width && 0 <= b
                        < self.height ==> !#[trigger] solid(self.tile_at(a, b)),
            decreases bottom + 1 - ty,
        {
            let mut tx = left;
            while tx <= right
                invariant
                    self.wf(),
                    top <= ty <= bottom,
                    left <= right,
                    bottom < i32::MAX,
                    right < i32::MAX,
                    left <= tx <= right + 1,
                    forall|a: int, b: int|
                        left <= a <= right && top <= b < ty && 0 <= a < self.width && 0 <= b
                            < self.height ==> !#[trigger] solid(self.tile_at(a, b)),
                    forall|a: int|
                        left <= a < tx && 0 <= a < self.width && 0 <= ty < self.height ==> !solid(
                            #[trigger] self.tile_at(a, ty as int),
                        ),
                decreases right + 1 - tx,
            {
                if self.is_solid(tx, ty) {
                    return true;
                }
                tx = tx + 1;
            }
            ty = ty + 1;
        }
        false
    }

    /// If the cell holds a crumbling tile (in any decay stage), that tile;
    /// the game starts its decay when the player touches it.
    pub fn crumbling_at(&self, tile_x: i32, tile_y: i32) -> (r: Option<u32>)
        requires
            self.wf(),
        ensures
            r == (if 0 <= tile_x < self.width && 0 <= tile_y < self.height && (self.tile_at(
                tile_x as int,
                tile_y as int,
            ) == tiles::CRUMBLE || self.tile_at(tile_x as int, tile_y as int)
                == tiles::CRUMBLE_CRACKED || self.tile_at(tile_x as int, tile_y as int)
                == tiles::CRUMBLE_VERY_CRACKED) {
                Some(self.tile_at(tile_x as int, tile_y as int))
            } else {
                None
            }),
    {
        if tile_x < 0 || tile_y < 0 || tile_x as usize >= self.width || tile_y as usize
            >= self.height {
            return None;
        }
        let t = self.get_tile(tile_x, tile_y);
        if t == tiles::CRUMBLE || t == tiles::CRUMBLE_CRACKED || t == tiles::CRUMBLE_VERY_CRACKED {
            Some(t)
        } else {
            None
        }
    }

    /// Set one cell (as a crumbling tile decays or a coin is collected).
    pub fn set_tile(&mut self, x: usize, y: usize, v: u32)
        requires
            old(self).wf(),
            x < old(self).width,
            y < old(self).height,
        ensures
            final(self).wf(),
            final(self).width == old(self).width,
            final(self).height == old(self).height,
            final(self).original_view() == old(self).original_view(),
            final(self).grid() == old(self).grid().update(
                y as int,
                old(self).grid()[y as int].update(x as int, v),
            ),
    {
        assert(self.grid()[y as int].len() == self.width);
        assert(self.tiles@[y as int]@ == self.grid()[y as int]);
        crate::tools::set_tile(&mut self.tiles, x, y, v);
        proof {
            let g = self.grid();
            assert(g.len() == old(self).grid().len());
            assert forall|k: int| 0 <= k < g.len() implies (#[trigger] g[k]).len() == self.width by {
                if k != y {
                    assert(g[k] == old(self).grid()[k]);
                }
            }
        }
    }

    /// All periodic tiles swap between their solid and ghost phase at once.
    pub fn swap_periodic_tiles(&mut self)
        requires
            old(self).wf(),
        ensures
            final(self).wf(),
            final(self).width == old(self).width,
            final(self).height == old(self).height,
            final(self).original_view() == old(self).original_view(),
            final(self).grid() == periodic_swapped(old(self).grid()),
    {
        let ghost g = self.grid();
        let mut out: Vec<Vec<u32>> = Vec::new();
        let mut y: usize = 0;
        while y < self.tiles.len()
            invariant
                g == rows_view(self.tiles@),
                y <= self.tiles@.len(),
                out@.len() == y,
                forall|k: int| 0 <= k < y ==> (#[trigger] out@[k])@ == periodic_swapped(g)[k],
            decreases self.tiles@.len() - y,
        {
            let mut row: Vec<u32> = Vec::new();
            assert(self.tiles@[y as int]@ == g[y as int]);
            let mut x: usize = 0;
            while x < self.tiles[y].len()
                invariant
                    g == rows_view(self.tiles@),
                    y < self.tiles@.len(),
                    x <= self.tiles@[y as int]@.len(),
                    self.tiles@[y as int]@ == g[y as int],
                    row@.len() == x,
                    forall|k: int| 0 <= k < x ==> #[trigger] row@[k] == periodic_swapped(g)[y as int][k],
                decreases self.tiles@[y as int]@.len() - x,
            {
                let v = self.tiles[y][x];
                row.push(
                    if v == tiles::PERIODIC_SOLID {
                        tiles::PERIODIC_GHOST
                    } else if v == tiles::PERIODIC_GHOST {
                        tiles::PERIODIC_SOLID
                    } else {
                        v
                    },
                );
                x = x + 1;
            }
            assert(row@ =~= periodic_swapped(g)[y as int]);
            out.push(row);
            y = y + 1;
        }
        self.tiles = out;
        proof {
            assert(rows_view(self.tiles@) =~= periodic_swapped(g));
            assert forall|k: int| 0 <= k < self.tiles@.len() implies (#[trigger] rows_view(
                self.tiles@,
            )[k]).len() == self.width by {
                assert(rows_view(self.tiles@)[k] == periodic_swapped(g)[k]);
                assert(g[k].len() == self.width);
            }
        }
    }
}

/// Swapping the periodic tiles twice gives back the grid: the blinking
/// follows a fixed two-phase rhythm.
pub proof fn law_periodic_swap_twice_restores(t: Seq<Seq<u32>>)
    ensures
        periodic_swapped(periodic_swapped(t)) == t,
{
    let s = periodic_swapped(periodic_swapped(t));
    assert forall|y: int| 0 <= y < t.len() implies #[trigger] s[y] == t[y] by {
        assert(s[y] =~= t[y]);
    }
    assert(s =~= t);
}

proof fn lemma_cells_where_empty(t: Seq<Seq<u32>>, w: int, p: spec_fn(u32) -> bool, k: int)
    ensures
        cells_where(t, w, p, k).len() == 0 <==> forall|i: int|
            0 <= i < k ==> !p(#[trigger] cell_at(t, w, i).tile_type),
    decreases k,
{
    if k > 0 {
        lemma_cells_where_empty(t, w, p, k - 1);
        if cells_where(t, w, p, k).len() == 0 {
            assert forall|i: int| 0 <= i < k implies !p(#[trigger] cell_at(t, w, i).tile_type) by {
                if i < k - 1 {
                } else {
                    assert(!p(cell_at(t, w, k - 1).tile_type));
                }
            }
        }
    }
}

/// The exit doors are open exactly when no cell of the grid holds a coin.
pub proof fn law_doors_open_iff_no_coin_left(t: Seq<Seq<u32>>, w: int)
    requires
        w > 0,
        rectangular(t, w),
    ensures
        (cells_of_type(t, w, tiles::COIN).len() == 0) <==> (forall|y: int, x: int|
            0 <= y < t.len() && 0 <= x < w ==> #[trigger] t[y][x] != tiles::COIN),
{
    let p = type_is(tiles::COIN);
    lemma_cells_where_empty(t, w, p, t.len() * w);
    if cells_of_type(t, w, tiles::COIN).len() == 0 {
        assert forall|y: int, x: int| 0 <= y < t.len() && 0 <= x < w implies #[trigger] t[y][x]
            != tiles::COIN by {
            lemma_cell_index(w, y, x);
            let n = t.len() as int;
            assert(y * w + x < n * w) by (nonlinear_arith)
                requires
                    0 <= y < n,
                    0 <= x < w,
            ;
            assert(!p(cell_at(t, w, y * w + x).tile_type));
        }
    } else {
        let i = choose|i: int| 0 <= i < t.len() * w && p(#[trigger] cell_at(t, w, i).tile_type);
        let y = i / w;
        let x = i % w;
        assert(0 <= y < t.len() && 0 <= x < w) by (nonlinear_arith)
            requires
                0 <= i < t.len() * w,
                w > 0,
                y == i / w,
                x == i % w,
        ;
        assert(t[y][x] == tiles::COIN);
    }
}

/// Velocity direction of an activated moving platform: one unit along its
/// arrow (screen y grows downwards), none for any other tile.
pub open spec fn platform_direction_spec(tile_type: u32) -> (i32, i32) {
    if tile_type == tiles::MOVE_UP {
        (0i32, -1i32)
    } else if tile_type == tiles::MOVE_RIGHT {
        (1, 0)
    } else if tile_type == tiles::MOVE_DOWN {
        (0, 1)
    } else if tile_type == tiles::MOVE_LEFT {
        (-1i32, 0i32)
    } else {
        (0, 0)
    }
}

pub fn platform_direction(tile_type: u32) -> (r: (i32, i32))
    ensures
        r == platform_direction_spec(tile_type),
{
    if tile_type == tiles::MOVE_UP {
        (0, -1)
    } else if tile_type == tiles::MOVE_RIGHT {
        (1, 0)
    } else if tile_type == tiles::MOVE_DOWN {
        (0, 1)
    } else if tile_type == tiles::MOVE_LEFT {
        (-1, 0)
    } else {
        (0, 0)
    }
}

/// Sprite of a destroying platform for a decay frame (0 = just collided,
/// otherwise the final stretch before removal).
pub open spec fn platform_destroy_sprite_spec(tile_type: u32, frame: usize) -> (i32, i32) {
    let row = if frame == 0 {
        80
    } else {
        120
    };
    if tile_type == tiles::MOVE_UP {
        (80, row)
    } else if tile_type == tiles::MOVE_RIGHT {
        (120, row)
    } else if tile_type == tiles::MOVE_DOWN {
        (160, row)
    } else if tile_type == tiles::MOVE_LEFT {
        (200, row)
    } else {
        (0, 0)
    }
}

pub fn platform_destroy_sprite(tile_type: u32, frame: usize) -> (r: (i32, i32))
    ensures
        r == platform_destroy_sprite_spec(tile_type, frame),
{
    let row = if frame == 0 {
        80
    } else {
        120
    };
    if tile_type == tiles::MOVE_UP {
        (80, row)
    } else if tile_type == tiles::MOVE_RIGHT {
        (120, row)
    } else if tile_type == tiles::MOVE_DOWN {
        (160, row)
    } else if tile_type == tiles::MOVE_LEFT {
        (200, row)
    } else {
        (0, 0)
    }
}

/// The traversal state of a path-following block: its control points (tile
/// coordinates) and which one it is heading for.
#[derive(Clone, Debug)]
pub struct PathState {
    points: Vec<(usize, usize)>,
    closed: bool,
    /// Index of the control point the block is currently moving toward.
    target: usize,
    /// For open paths, whether we are travelling toward higher indices.
    forward: bool,
}

/// The part of a path state that advancing changes, with the number of
/// control points and whether the path loops.
pub struct PathModel {
    pub n: int,
    pub closed: bool,
    pub target: int,
    pub forward: bool,
}

/// A reachable state: two or more points, the target among them, and an
/// open path heading for a point it can still move on from.
pub open spec fn model_wf(m: PathModel) -> bool {
    &&& m.n >= 2
    &&& 0 <= m.target < m.n
    &&& !m.closed ==> (m.forward ==> m.target >= 1) && (!m.forward ==> m.target <= m.n - 2)
}

/// Pick the next control point once the current target is reached: closed
/// paths wrap around, open paths reverse at each end.
pub open spec fn advance_spec(m: PathModel) -> PathModel {
    if m.closed {
        PathModel { target: (m.target + 1) % m.n, ..m }
    } else if m.forward {
        if m.target == m.n - 1 {
            PathModel { forward: false, target: m.n - 2, ..m }
        } else {
            PathModel { target: m.target + 1, ..m }
        }
    } else if m.target == 0 {
        PathModel { forward: true, target: 1, ..m }
    } else {
        PathModel { target: m.target - 1, ..m }
    }
}

/// `k` advances in a row.
pub open spec fn advance_n(m: PathModel, k: nat) -> PathModel
    decreases k,
{
    if k == 0 {
        m
    } else {
        advance_spec(advance_n(m, (k - 1) as nat))
    }
}

impl PathState {
    pub closed spec fn model(&self) -> PathModel {
        PathModel {
            n: self.points@.len() as int,
            closed: self.closed,
            target: self.target as int,
            forward: self.forward,
        }
    }

    pub closed spec fn points_view(&self) -> Seq<(usize, usize)> {
        self.points@
    }

    /// The path of a block definition, starting at its first point heading
    /// for its second; `None` for a block with fewer than two points.
    pub fn from_block(def: &PathBlock) -> (r: Option<PathState>)
        ensures
            def.points@.len() < 2 ==> r is None,
            def.points@.len() >= 2 ==> (r matches Some(s) && s.points_view() == def.points@
                && s.model() == (PathModel {
                n: def.points@.len() as int,
                closed: def.closed,
                target: 1,
                forward: true,
            }) && model_wf(s.model())),
    {
        if def.points.len() < 2 {
            return None;
        }
        let mut points: Vec<(usize, usize)> = Vec::new();
        let mut i: usize = 0;
        while i < def.points.len()
            invariant
                i <= def.points@.len(),
                points@ == def.points@.subrange(0, i as int),
            decreases def.points@.len() - i,
        {
            points.push(def.points[i]);
            assert(points@ =~= def.points@.subrange(0, i + 1));
            i = i + 1;
        }
        assert(points@ =~= def.points@);
        Some(PathState { points, closed: def.closed, target: 1, forward: true })
    }

    /// The control point the block is heading for.
    pub fn target_point(&self) -> (r: (usize, usize))
        requires
            model_wf(self.model()),
        ensures
            r == self.points_view()[self.model().target],
    {
        self.points[self.target]
    }

    /// The index of the control point the block is heading for.
    pub fn target(&self) -> (r: usize)
        ensures
            r == self.model().target,
    {
        self.target
    }

    /// The number of control points.
    pub fn len(&self) -> (r: usize)
        ensures
            r == self.model().n,
    {
        self.points.len()
    }

    /// Pick the next control point to head for once the current target is
    /// reached. Closed paths wrap around; open paths reverse at each end.
    pub fn advance(&mut self)
        requires
            model_wf(old(self).model()),
        ensures
            final(self).model() == advance_spec(old(self).model()),
            final(self).points_view() == old(self).points_view(),
            model_wf(final(self).model()),
    {
        let n = self.points.len();
        let last = n - 1;
        if self.closed {
            self.target = if self.target + 1 == n {
                0
            } else {
                self.target + 1
            };
            proof {
                lemma_wrap_next(old(self).target as int, n as int);
            }
        } else if self.forward {
            if self.target == last {
                self.forward = false;
                self.target = last - 1;
            } else {
                self.target = self.target + 1;
            }
        } else if self.target == 0 {
            self.forward = true;
            self.target = 1;
        } else {
            self.target = self.target - 1;
        }
    }
}

proof fn lemma_wrap_next(t: int, n: int)
    requires
        0 <= t < n,
    ensures
        (t + 1) % n == if t + 1 == n {
            0
        } else {
            t + 1
        },
{
    if t + 1 == n {
        vstd::arithmetic::div_mod::lemma_mod_self_0(n);
    } else {
        vstd::arithmetic::div_mod::lemma_small_mod((t + 1) as nat, n as nat);
    }
}

/// Advancing keeps a state reachable.
pub proof fn law_advance_keeps_target_in_range(m: PathModel)
    requires
        model_wf(m),
    ensures
        model_wf(advance_spec(m)),
        advance_spec(m).n == m.n,
        advance_spec(m).closed == m.closed,
{
    if m.closed {
        lemma_wrap_next(m.target, m.n);
    }
}

proof fn lemma_advance_n_wf(m: PathModel, k: nat)
    requires
        model_wf(m),
    ensures
        model_wf(advance_n(m, k)),
        advance_n(m, k).n == m.n,
        advance_n(m, k).closed == m.closed,
    decreases k,
{
    if k > 0 {
        lemma_advance_n_wf(m, (k - 1) as nat);
        law_advance_keeps_target_in_range(advance_n(m, (k - 1) as nat));
    }
}

proof fn lemma_closed_advance_n(m: PathModel, k: nat)
    requires
        model_wf(m),
        m.closed,
    ensures
        advance_n(m, k) == (PathModel { target: (m.target + k) % m.n, ..m }),
    decreases k,
{
    if k > 0 {
        lemma_closed_advance_n(m, (k - 1) as nat);
        let p = advance_n(m, (k - 1) as nat);
        lemma_advance_n_wf(m, (k - 1) as nat);
        vstd::arithmetic::div_mod::lemma_add_mod_noop(m.target + k - 1, 1, m.n);
        if m.n > 1 {
            vstd::arithmetic::div_mod::lemma_small_mod(1, m.n as nat);
        }
        assert((p.target + 1) % m.n == (m.target + k) % m.n);
        assert(p == (PathModel { target: (m.target + k - 1) % m.n, ..m }));
        assert(advance_n(m, k) == advance_spec(p));
        assert(advance_spec(p) == (PathModel { target: (p.target + 1) % m.n, ..p }));
    } else {
        vstd::arithmetic::div_mod::lemma_small_mod(m.target as nat, m.n as nat);
    }
}

/// A block on a closed loop is heading for the same point again after one
/// advance per control point: it has gone once round the loop.
pub proof fn law_closed_loop_comes_round(m: PathModel)
    requires
        model_wf(m),
        m.closed,
    ensures
        advance_n(m, m.n as nat) == m,
{
    lemma_closed_advance_n(m, m.n as nat);
    vstd::arithmetic::div_mod::lemma_mod_add_multiples_vanish(m.target, m.n);
    vstd::arithmetic::div_mod::lemma_small_mod(m.target as nat, m.n as nat);
}

/// Where an open-path state lies on its back-and-forth round, from 1 to
/// `2(n-1)`.
pub open spec fn phase(m: PathModel) -> int {
    if m.forward {
        m.target
    } else {
        2 * (m.n - 1) - m.target
    }
}

proof fn lemma_phase_step(m: PathModel)
    requires
        model_wf(m),
        !m.closed,
    ensures
        phase(advance_spec(m)) == (if phase(m) == 2 * (m.n - 1) {
            1
        } else {
            phase(m) + 1
        }),
        1 <= phase(m) <= 2 * (m.n - 1),
{
}

proof fn lemma_open_advance_n(m: PathModel, k: nat)
    requires
        model_wf(m),
        !m.closed,
    ensures
        phase(advance_n(m, k)) == (phase(m) - 1 + k) % (2 * (m.n - 1)) + 1,
    decreases k,
{
    let p2 = 2 * (m.n - 1);
    if k == 0 {
        vstd::arithmetic::div_mod::lemma_small_mod((phase(m) - 1) as nat, p2 as nat);
    } else {
        lemma_open_advance_n(m, (k - 1) as nat);
        let p = advance_n(m, (k - 1) as nat);
        lemma_advance_n_wf(m, (k - 1) as nat);
        lemma_phase_step(p);
        let a = phase(m) - 1 + k - 1;
        vstd::arithmetic::div_mod::lemma_add_mod_noop(a, 1, p2);
        vstd::arithmetic::div_mod::lemma_small_mod(1, p2 as nat);
        let r = a % p2;
        assert(0 <= r < p2) by {
            vstd::arithmetic::div_mod::lemma_mod_bound(a, p2);
        }
        if r + 1 == p2 {
            vstd::arithmetic::div_mod::lemma_mod_self_0(p2);
        } else {
            vstd::arithmetic::div_mod::lemma_small_mod((r + 1) as nat, p2 as nat);
        }
    }
}

/// A block on an open path is back where it started, heading the same way,
/// after `2(n-1)` advances: one trip to the far end and back.
pub proof fn law_open_path_round_trip(m: PathModel)
    requires
        model_wf(m),
        !m.closed,
    ensures
        advance_n(m, (2 * (m.n - 1)) as nat) == m,
{
    let k = (2 * (m.n - 1)) as nat;
    lemma_open_advance_n(m, k);
    lemma_advance_n_wf(m, k);
    let p2 = 2 * (m.n - 1);
    vstd::arithmetic::div_mod::lemma_mod_add_multiples_vanish(phase(m) - 1, p2);
    vstd::arithmetic::div_mod::lemma_small_mod((phase(m) - 1) as nat, p2 as nat);
    let e = advance_n(m, k);
    assert(phase(e) == phase(m));
    assert(e.forward == m.forward);
}

} // verus!
