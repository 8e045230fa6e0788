//! Level data and the ASCII level file format.
//!
//! A level file consists of an optional header of `key: value` lines, a blank
//! line, and then the tile grid:
//!
//! ```text
//! name: First Steps
//! block: 1,1 4,1 4,3 1,3 loop
//! deco: 40,80 27
//!
//! ..........
//! .P.....E..
//! 1111111111
//! ```
//!
//! A `block:` header defines a platform moving along a path of `x,y` tile
//! control points; consecutive points must be strictly horizontal or vertical
//! neighbours, and a trailing `loop` closes the path. A `deco:` header places a
//! render-only sprite at an `x,y` pixel position (two decimal numbers, kept as
//! the text they were read from; a whole number is written back in its
//! shortest form and moves with the content when the grid grows or shrinks at
//! the top or left) with a 1-based sprite-sheet index.
//!
//! Grid characters: `.`, ` ` and `0` are empty; `1` and `3`-`8` are those tile
//! ids; `^ > v <` are the moving tiles 9-12; `E` is the exit (13); `C` a coin
//! (14); `S` a secret exit (16); `R` a red coin (17); `P` the player spawn (an
//! empty tile).
//!
//! Further headers: `id:` names the level for exit routing; `fgdeco:` places
//! a decoration drawn in front (same form as `deco:`); `exit: x,y dest`
//! routes the exit door on tile `x,y` to the level whose id is `dest`.
use vstd::prelude::*;
use crate::text::{
    all_digits, chars_of, decimal, digits_value, find, find_in, is_digit, is_float_literal,
    is_float_literal_in, lemma_decimal_parses, lines, parse_unsigned,
    parse_unsigned_in, push_char, push_chars, push_decimal, split_lines, split_tokens, string_of,
    tokens, trim, trim_bounds, trim_end, trim_end_bounds,
};
use crate::tiles;

verus! {

/// A platform that travels along a fixed path of control points.
#[derive(Clone, Debug, PartialEq)]
pub struct PathBlock {
    /// Control points in tile coordinates, in path order.
    pub points: Vec<(usize, usize)>,
    /// `true` for a closed loop; `false` for an open path travelled back and forth.
    pub closed: bool,
}

/// Which layer a decoration is drawn on: behind the player and the tiles'
/// contents (`deco:` lines), or over them (`fgdeco:` lines).
#[derive(Clone, Copy, PartialEq, Eq, Structural, Debug)]
pub enum DecoLayer {
    Background,
    Foreground,
}

/// A render-only sprite placed somewhere in the level.
#[derive(Clone, Debug, PartialEq)]
pub struct Decoration {
    /// Horizontal pixel position of the sprite's top-left corner, as the
    /// decimal text it was written with.
    pub x: String,
    /// Vertical pixel position of the sprite's top-left corner, as text.
    pub y: String,
    /// 1-based index into the sprite sheet.
    pub sprite: u32,
    /// The layer it is drawn on.
    pub layer: DecoLayer,
}

/// The routing of one exit door: the door's tile and the id of the level it
/// leads to. Defined by an `exit:` header line.
#[derive(Debug, PartialEq)]
pub struct ExitDoor {
    pub tile: (usize, usize),
    pub dest: String,
}

/// Parsed level, independent of how it was stored on disk.
#[derive(Debug)]
pub struct LevelData {
    pub name: String,
    /// The level's id, which exit doors of other levels name as their
    /// destination (an `id:` header line; empty when there is none).
    pub id: String,
    /// Player spawn position in pixels (top-left corner of the player).
    pub spawn: (i64, i64),
    pub tiles: Vec<Vec<u32>>,
    /// Path-following moving blocks defined by `block:` header lines.
    pub path_blocks: Vec<PathBlock>,
    /// Render-only decorative sprites defined by `deco:` and `fgdeco:`
    /// header lines.
    pub decorations: Vec<Decoration>,
    /// Exit-door routing defined by `exit:` header lines.
    pub exits: Vec<ExitDoor>,
}

/// One edge of the level grid.
#[derive(Clone, Copy, PartialEq, Eq, Structural, Debug)]
pub enum Edge {
    Top,
    Bottom,
    Left,
    Right,
}

pub struct PathBlockSpec {
    pub points: Seq<(usize, usize)>,
    pub closed: bool,
}

pub struct DecorationSpec {
    pub x: Seq<char>,
    pub y: Seq<char>,
    pub sprite: u32,
    pub layer: DecoLayer,
}

pub struct ExitSpec {
    pub tile: (usize, usize),
    pub dest: Seq<char>,
}

pub struct LevelSpec {
    pub name: Seq<char>,
    pub id: Seq<char>,
    pub spawn: (i64, i64),
    pub tiles: Seq<Seq<u32>>,
    pub path_blocks: Seq<PathBlockSpec>,
    pub decorations: Seq<DecorationSpec>,
    pub exits: Seq<ExitSpec>,
}

impl View for PathBlock {
    type V = PathBlockSpec;

    open spec fn view(&self) -> PathBlockSpec {
        PathBlockSpec { points: self.points@, closed: self.closed }
    }
}

impl View for Decoration {
    type V = DecorationSpec;

    open spec fn view(&self) -> DecorationSpec {
        DecorationSpec { x: self.x@, y: self.y@, sprite: self.sprite, layer: self.layer }
    }
}

impl View for ExitDoor {
    type V = ExitSpec;

    open spec fn view(&self) -> ExitSpec {
        ExitSpec { tile: self.tile, dest: self.dest@ }
    }
}

pub open spec fn rows_view(t: Seq<Vec<u32>>) -> Seq<Seq<u32>> {
    t.map_values(|r: Vec<u32>| r@)
}

pub open spec fn blocks_view(b: Seq<PathBlock>) -> Seq<PathBlockSpec> {
    b.map_values(|p: PathBlock| p@)
}

pub open spec fn decos_view(d: Seq<Decoration>) -> Seq<DecorationSpec> {
    d.map_values(|x: Decoration| x@)
}

pub open spec fn exits_view(e: Seq<ExitDoor>) -> Seq<ExitSpec> {
    e.map_values(|x: ExitDoor| x@)
}

impl View for LevelData {
    type V = LevelSpec;

    open spec fn view(&self) -> LevelSpec {
        LevelSpec {
            name: self.name@,
            id: self.id@,
            spawn: self.spawn,
            tiles: rows_view(self.tiles@),
            path_blocks: blocks_view(self.path_blocks@),
            decorations: decos_view(self.decorations@),
            exits: exits_view(self.exits@),
        }
    }
}

// ---------------------------------------------------------------------------
// Spawn placement
// ---------------------------------------------------------------------------

/// Horizontal offset of the spawn within its tile: the player is centred.
pub open spec fn spawn_dx() -> int {
    (tiles::TILE_SIZE - crate::player::PLAYER_WIDTH) as int / 2
}

/// Vertical offset of the spawn within its tile: feet on the tile's floor.
pub open spec fn spawn_dy() -> int {
    (tiles::TILE_SIZE - crate::player::PLAYER_HEIGHT) as int
}

/// Pixel spawn position of a player placed on tile `(x, y)`.
pub open spec fn spawn_pixel(x: int, y: int) -> (i64, i64) {
    ((x * 40 + spawn_dx()) as i64, (y * 40 + spawn_dy()) as i64)
}

/// Nearest tile coordinate to a pixel coordinate `p` whose in-tile offset is
/// `off`, rounding halves away from zero and clamping below at 0.
pub open spec fn nearest_tile(p: int, off: int) -> int {
    let v = p - off;
    if v < 0 {
        0
    } else {
        (v + 20) / 40
    }
}

/// The spawn expressed in tile coordinates.
pub open spec fn spawn_tile_spec(spawn: (i64, i64)) -> (int, int) {
    (nearest_tile(spawn.0 as int, spawn_dx()), nearest_tile(spawn.1 as int, spawn_dy()))
}

// ---------------------------------------------------------------------------
// Header lines
// ---------------------------------------------------------------------------

pub open spec fn kw_name() -> Seq<char> {
    seq!['n', 'a', 'm', 'e']
}

pub open spec fn kw_block() -> Seq<char> {
    seq!['b', 'l', 'o', 'c', 'k']
}

pub open spec fn kw_deco() -> Seq<char> {
    seq!['d', 'e', 'c', 'o']
}

pub open spec fn kw_loop() -> Seq<char> {
    seq!['l', 'o', 'o', 'p']
}

pub open spec fn kw_id() -> Seq<char> {
    seq!['i', 'd']
}

pub open spec fn kw_fgdeco() -> Seq<char> {
    seq!['f', 'g', 'd', 'e', 'c', 'o']
}

pub open spec fn kw_exit() -> Seq<char> {
    seq!['e', 'x', 'i', 't']
}

/// True if `a` and `b` are strictly horizontal or vertical neighbours (share
/// exactly one coordinate).
pub open spec fn aligned(a: (usize, usize), b: (usize, usize)) -> bool {
    (a.0 == b.0) != (a.1 == b.1)
}

/// Number of segments of a path of `n` points (the wrap counts when closed).
pub open spec fn segment_count(n: int, closed: bool) -> int {
    if closed {
        n
    } else {
        n - 1
    }
}

/// The first segment at or after `i` that is not axis aligned.
pub open spec fn bad_segment_from(pts: Seq<(usize, usize)>, closed: bool, i: int) -> Option<int>
    decreases segment_count(pts.len() as int, closed) - i,
{
    if i < 0 || i >= segment_count(pts.len() as int, closed) || pts.len() == 0 {
        None
    } else if !aligned(pts[i], pts[(i + 1) % (pts.len() as int)]) {
        Some(i)
    } else {
        bad_segment_from(pts, closed, i + 1)
    }
}

pub open spec fn msg_two_points() -> Seq<char> {
    "block path needs at least two control points"@
}

pub open spec fn msg_bad_point(tok: Seq<char>) -> Seq<char> {
    "invalid control point '"@ + tok + "', expected 'x,y'"@
}

pub open spec fn msg_bad_x(tok: Seq<char>) -> Seq<char> {
    "invalid x in control point '"@ + tok + "'"@
}

pub open spec fn msg_bad_y(tok: Seq<char>) -> Seq<char> {
    "invalid y in control point '"@ + tok + "'"@
}

pub open spec fn msg_bad_segment(a: (usize, usize), b: (usize, usize)) -> Seq<char> {
    "control points "@ + decimal(a.0 as nat) + ","@ + decimal(a.1 as nat) + " and "@ + decimal(
        b.0 as nat,
    ) + ","@ + decimal(b.1 as nat) + " must be strictly horizontal or vertical neighbours"@
}

/// One `x,y` control point token.
pub open spec fn parse_point(tok: Seq<char>) -> Result<(usize, usize), Seq<char>> {
    match find(tok, ',') {
        None => Err(msg_bad_point(tok)),
        Some(c) => match parse_unsigned(tok.take(c), usize::MAX as int) {
            None => Err(msg_bad_x(tok)),
            Some(x) => match parse_unsigned(tok.skip(c + 1), usize::MAX as int) {
                None => Err(msg_bad_y(tok)),
                Some(y) => Ok((x as usize, y as usize)),
            },
        },
    }
}

/// Control points from `toks[i..]`, appended to `acc`.
pub open spec fn parse_points(toks: Seq<Seq<char>>, i: int, acc: Seq<(usize, usize)>) -> Result<
    Seq<(usize, usize)>,
    Seq<char>,
>
    decreases toks.len() - i,
{
    if i < 0 || i >= toks.len() {
        Ok(acc)
    } else {
        match parse_point(toks[i]) {
            Err(e) => Err(e),
            Ok(p) => parse_points(toks, i + 1, acc.push(p)),
        }
    }
}

/// The value of a `block:` header: whitespace-separated `x,y` points,
/// optionally ending with the word `loop`.
pub open spec fn parse_block_spec(value: Seq<char>) -> Result<PathBlockSpec, Seq<char>> {
    let all = tokens(value);
    let closed = all.len() > 0 && all.last() == kw_loop();
    let toks = if closed {
        all.drop_last()
    } else {
        all
    };
    if toks.len() < 2 {
        Err(msg_two_points())
    } else {
        match parse_points(toks, 0, seq![]) {
            Err(e) => Err(e),
            Ok(pts) => match bad_segment_from(pts, closed, 0) {
                Some(i) => Err(msg_bad_segment(pts[i], pts[(i + 1) % (pts.len() as int)])),
                None => Ok(PathBlockSpec { points: pts, closed }),
            },
        }
    }
}

pub open spec fn msg_deco_empty() -> Seq<char> {
    "decoration needs an 'x,y' position and a sprite index"@
}

pub open spec fn msg_deco_no_sprite() -> Seq<char> {
    "decoration needs a sprite index after its position"@
}

pub open spec fn msg_deco_fields(value: Seq<char>) -> Seq<char> {
    "decoration '"@ + value + "' has too many fields, expected 'x,y index'"@
}

pub open spec fn msg_deco_pos(pos: Seq<char>) -> Seq<char> {
    "invalid decoration position '"@ + pos + "', expected 'x,y'"@
}

pub open spec fn msg_deco_x(pos: Seq<char>) -> Seq<char> {
    "invalid x in decoration position '"@ + pos + "'"@
}

pub open spec fn msg_deco_y(pos: Seq<char>) -> Seq<char> {
    "invalid y in decoration position '"@ + pos + "'"@
}

pub open spec fn msg_deco_sprite(tok: Seq<char>) -> Seq<char> {
    "invalid sprite index '"@ + tok + "'"@
}

pub open spec fn msg_deco_zero() -> Seq<char> {
    "decoration sprite index must be 1 or greater"@
}

/// The value of a `deco:` or `fgdeco:` header: an `x,y` pixel position
/// (each a number `str::parse::<f32>` accepts) and a sprite index of at least
/// 1; the decoration goes on `layer`.
pub open spec fn parse_deco_spec(value: Seq<char>, layer: DecoLayer) -> Result<
    DecorationSpec,
    Seq<char>,
> {
    let toks = tokens(value);
    if toks.len() == 0 {
        Err(msg_deco_empty())
    } else if toks.len() == 1 {
        Err(msg_deco_no_sprite())
    } else if toks.len() > 2 {
        Err(msg_deco_fields(value))
    } else {
        let pos = toks[0];
        match find(pos, ',') {
            None => Err(msg_deco_pos(pos)),
            Some(c) => if !is_float_literal(pos.take(c)) {
                Err(msg_deco_x(pos))
            } else if !is_float_literal(pos.skip(c + 1)) {
                Err(msg_deco_y(pos))
            } else {
                match parse_unsigned(toks[1], u32::MAX as int) {
                    None => Err(msg_deco_sprite(toks[1])),
                    Some(s) => if s < 1 {
                        Err(msg_deco_zero())
                    } else {
                        Ok(
                            DecorationSpec {
                                x: pos.take(c),
                                y: pos.skip(c + 1),
                                sprite: s as u32,
                                layer,
                            },
                        )
                    },
                }
            },
        }
    }
}

pub open spec fn msg_exit_fields(value: Seq<char>) -> Seq<char> {
    "exit '"@ + value + "' needs a door tile 'x,y' and a destination level id"@
}

pub open spec fn msg_exit_tile(tok: Seq<char>) -> Seq<char> {
    "invalid exit door tile '"@ + tok + "', expected 'x,y'"@
}

/// The value of an `exit:` header: the door's `x,y` tile and the id of the
/// level it leads to.
pub open spec fn parse_exit_spec(value: Seq<char>) -> Result<ExitSpec, Seq<char>> {
    let toks = tokens(value);
    if toks.len() != 2 {
        Err(msg_exit_fields(value))
    } else {
        match parse_point(toks[0]) {
            Err(_) => Err(msg_exit_tile(toks[0])),
            Ok(p) => Ok(ExitSpec { tile: p, dest: toks[1] }),
        }
    }
}

pub struct HeaderState {
    pub name: Seq<char>,
    pub id: Seq<char>,
    pub blocks: Seq<PathBlockSpec>,
    pub decos: Seq<DecorationSpec>,
    pub exits: Seq<ExitSpec>,
}

pub open spec fn msg_unknown_key(key: Seq<char>) -> Seq<char> {
    "unknown header key '"@ + key + "'"@
}

/// Read header lines from `ls[i..]` into `st`. Blank lines are skipped; the
/// first non-blank line without a `:` starts the grid, whose index is returned.
pub open spec fn scan_headers(ls: Seq<Seq<char>>, i: int, st: HeaderState) -> Result<
    (HeaderState, int),
    Seq<char>,
>
    decreases ls.len() - i,
{
    if i < 0 || i >= ls.len() {
        Ok((st, ls.len() as int))
    } else {
        let t = trim(ls[i]);
        if t.len() == 0 {
            scan_headers(ls, i + 1, st)
        } else {
            match find(t, ':') {
                None => Ok((st, i)),
                Some(p) => {
                    let key = trim(t.take(p));
                    let value = trim(t.skip(p + 1));
                    if key == kw_name() {
                        scan_headers(ls, i + 1, HeaderState { name: value, ..st })
                    } else if key == kw_id() {
                        scan_headers(ls, i + 1, HeaderState { id: value, ..st })
                    } else if key == kw_block() {
                        match parse_block_spec(value) {
                            Err(e) => Err(e),
                            Ok(b) => scan_headers(
                                ls,
                                i + 1,
                                HeaderState { blocks: st.blocks.push(b), ..st },
                            ),
                        }
                    } else if key == kw_deco() || key == kw_fgdeco() {
                        let layer = if key == kw_deco() {
                            DecoLayer::Background
                        } else {
                            DecoLayer::Foreground
                        };
                        match parse_deco_spec(value, layer) {
                            Err(e) => Err(e),
                            Ok(d) => scan_headers(
                                ls,
                                i + 1,
                                HeaderState { decos: st.decos.push(d), ..st },
                            ),
                        }
                    } else if key == kw_exit() {
                        match parse_exit_spec(value) {
                            Err(e) => Err(e),
                            Ok(x) => scan_headers(
                                ls,
                                i + 1,
                                HeaderState { exits: st.exits.push(x), ..st },
                            ),
                        }
                    } else {
                        Err(msg_unknown_key(key))
                    }
                },
            }
        }
    }
}

// ---------------------------------------------------------------------------
// Tile grid
// ---------------------------------------------------------------------------

/// The tile a grid character stands for (`P` is handled separately).
pub open spec fn char_tile(c: char) -> Option<u32> {
    if c == '.' || c == ' ' || c == '0' {
        Some(tiles::EMPTY)
    } else if c == '1' {
        Some(1)
    } else if c == '3' {
        Some(3)
    } else if c == '4' {
        Some(4)
    } else if c == '5' {
        Some(5)
    } else if c == '6' {
        Some(6)
    } else if c == '7' {
        Some(7)
    } else if c == '8' {
        Some(8)
    } else if c == '^' {
        Some(tiles::MOVE_UP)
    } else if c == '>' {
        Some(tiles::MOVE_RIGHT)
    } else if c == 'v' {
        Some(tiles::MOVE_DOWN)
    } else if c == '<' {
        Some(tiles::MOVE_LEFT)
    } else if c == 'E' {
        Some(tiles::EXIT)
    } else if c == 'C' {
        Some(tiles::COIN)
    } else if c == 'S' {
        Some(tiles::SECRET_EXIT)
    } else if c == 'R' {
        Some(tiles::RED_COIN)
    } else {
        None
    }
}

pub open spec fn msg_dup_spawn() -> Seq<char> {
    "level has more than one spawn point 'P'"@
}

pub open spec fn msg_unknown_char(c: char, line: nat, col: nat) -> Seq<char> {
    "unknown tile character '"@ + seq![c] + "' at line "@ + decimal(line) + ", column "@ + decimal(
        col,
    )
}

pub open spec fn msg_no_grid() -> Seq<char> {
    "level has no tile grid"@
}

pub open spec fn msg_no_spawn() -> Seq<char> {
    "level has no spawn point 'P'"@
}

/// Tiles of grid row `y` from column `x` on, appended to `acc`; `spawn` is the
/// spawn tile found so far.
pub open spec fn scan_row(
    line: Seq<char>,
    y: int,
    x: int,
    acc: Seq<u32>,
    spawn: Option<(int, int)>,
) -> Result<(Seq<u32>, Option<(int, int)>), Seq<char>>
    decreases line.len() - x,
{
    if x < 0 || x >= line.len() {
        Ok((acc, spawn))
    } else {
        let c = line[x];
        if c == 'P' {
            if spawn is Some {
                Err(msg_dup_spawn())
            } else {
                scan_row(line, y, x + 1, acc.push(tiles::EMPTY), Some((x, y)))
            }
        } else {
            match char_tile(c) {
                Some(t) => scan_row(line, y, x + 1, acc.push(t), spawn),
                None => Err(msg_unknown_char(c, (y + 1) as nat, (x + 1) as nat)),
            }
        }
    }
}

/// `r` padded with empty tiles to `width`.
pub open spec fn pad(r: Seq<u32>, width: int) -> Seq<u32> {
    r + Seq::new((width - r.len()) as nat, |i: int| tiles::EMPTY)
}

/// Rows `gl[y..]` of the grid, appended to `rows`.
pub open spec fn scan_grid(
    gl: Seq<Seq<char>>,
    width: int,
    y: int,
    rows: Seq<Seq<u32>>,
    spawn: Option<(int, int)>,
) -> Result<(Seq<Seq<u32>>, Option<(int, int)>), Seq<char>>
    decreases gl.len() - y,
{
    if y < 0 || y >= gl.len() {
        Ok((rows, spawn))
    } else {
        match scan_row(gl[y], y, 0, seq![], spawn) {
            Err(e) => Err(e),
            Ok((r, sp)) => scan_grid(gl, width, y + 1, rows.push(pad(r, width)), sp),
        }
    }
}

/// Lines with trailing empty lines removed.
pub open spec fn drop_trailing_empty(gl: Seq<Seq<char>>) -> Seq<Seq<char>>
    decreases gl.len(),
{
    if gl.len() > 0 && gl.last().len() == 0 {
        drop_trailing_empty(gl.drop_last())
    } else {
        gl
    }
}

/// The grid lines: every line from `g` on, right-trimmed, without trailing
/// empty lines.
pub open spec fn grid_lines(ls: Seq<Seq<char>>, g: int) -> Seq<Seq<char>> {
    drop_trailing_empty(Seq::new((ls.len() - g) as nat, |k: int| trim_end(ls[g + k])))
}

/// Length of the longest line.
pub open spec fn max_len(gl: Seq<Seq<char>>) -> int
    decreases gl.len(),
{
    if gl.len() == 0 {
        0
    } else {
        let m = max_len(gl.drop_last());
        if gl.last().len() > m {
            gl.last().len() as int
        } else {
            m
        }
    }
}

pub open spec fn empty_headers() -> HeaderState {
    HeaderState { name: seq![], id: seq![], blocks: seq![], decos: seq![], exits: seq![] }
}

/// What parsing a level file yields: the level, or the error message.
pub open spec fn parse_spec(text: Seq<char>) -> Result<LevelSpec, Seq<char>> {
    let ls = lines(text);
    match scan_headers(ls, 0, empty_headers()) {
        Err(e) => Err(e),
        Ok((h, g)) => {
            let gl = grid_lines(ls, g);
            if gl.len() == 0 {
                Err(msg_no_grid())
            } else {
                match scan_grid(gl, max_len(gl), 0, seq![], None) {
                    Err(e) => Err(e),
                    Ok((rows, sp)) => match sp {
                        None => Err(msg_no_spawn()),
                        Some(t) => Ok(
                            LevelSpec {
                                name: h.name,
                                id: h.id,
                                spawn: spawn_pixel(t.0, t.1),
                                tiles: rows,
                                path_blocks: h.blocks,
                                decorations: h.decos,
                                exits: h.exits,
                            },
                        ),
                    },
                }
            }
        },
    }
}

} // verus!

verus! {

// ---------------------------------------------------------------------------
// Parsing
// ---------------------------------------------------------------------------

/// `prefix` + `v[lo..hi]` + `suffix`.
fn quoted(prefix: &str, v: &Vec<char>, lo: usize, hi: usize, suffix: &str) -> (r: String)
    requires
        lo <= hi <= v.len(),
    ensures
        r@ == prefix@ + v@.subrange(lo as int, hi as int) + suffix@,
{
    let mut m = String::from_str(prefix);
    push_chars(&mut m, v, lo, hi);
    m.append(suffix);
    m
}

/// Whether `v[lo..hi]` equals `w`.
fn chars_eq_in(v: &Vec<char>, lo: usize, hi: usize, w: &Vec<char>) -> (r: bool)
    requires
        lo <= hi <= v.len(),
    ensures
        r == (v@.subrange(lo as int, hi as int) == w@),
{
    if hi - lo != w.len() {
        assert(v@.subrange(lo as int, hi as int).len() != w@.len());
        return false;
    }
    let mut i: usize = 0;
    while i < w.len()
        invariant
            lo <= hi <= v.len(),
            hi - lo == w.len(),
            i <= w.len(),
            forall|j: int| 0 <= j < i ==> v@[lo + j] == w@[j],
        decreases w.len() - i,
    {
        if v[lo + i] != w[i] {
            assert(v@.subrange(lo as int, hi as int)[i as int] != w@[i as int]);
            return false;
        }
        i = i + 1;
    }
    assert(v@.subrange(lo as int, hi as int) =~= w@);
    true
}

fn segment_message(a: (usize, usize), b: (usize, usize)) -> (r: String)
    ensures
        r@ == msg_bad_segment(a, b),
{
    let mut m = String::from_str("control points ");
    push_decimal(&mut m, a.0 as u64);
    m.append(",");
    push_decimal(&mut m, a.1 as u64);
    m.append(" and ");
    push_decimal(&mut m, b.0 as u64);
    m.append(",");
    push_decimal(&mut m, b.1 as u64);
    m.append(" must be strictly horizontal or vertical neighbours");
    m
}

/// Parse the value `v[lo..hi]` of a `block:` header into a [`PathBlock`].
pub fn parse_path_block(v: &Vec<char>, lo: usize, hi: usize) -> (r: Result<PathBlock, String>)
    requires
        lo <= hi <= v.len(),
    ensures
        match r {
            Ok(b) => parse_block_spec(v@.subrange(lo as int, hi as int)) == Ok::<
                PathBlockSpec,
                Seq<char>,
            >(b@),
            Err(e) => parse_block_spec(v@.subrange(lo as int, hi as int)) == Err::<
                PathBlockSpec,
                Seq<char>,
            >(e@),
        },
{
    let ghost value = v@.subrange(lo as int, hi as int);
    let toks = split_tokens(v, lo, hi);
    let ghost all = tokens(value);
    let lp = vec!['l', 'o', 'o', 'p'];
    assert(lp@ =~= kw_loop());
    let n_all = toks.len();
    let closed = n_all > 0 && chars_eq_in(&toks[n_all - 1], 0, toks[n_all - 1].len(), &lp);
    proof {
        if n_all > 0 {
            assert(toks@[n_all - 1]@.subrange(0, toks@[n_all - 1]@.len() as int) =~= toks@[n_all - 1]@);
        }
    }
    let n = if closed {
        n_all - 1
    } else {
        n_all
    };
    let ghost ts = if closed {
        all.drop_last()
    } else {
        all
    };
    assert(closed == (all.len() > 0 && all.last() == kw_loop()));
    assert(ts.len() == n);
    if n < 2 {
        return Err(String::from_str("block path needs at least two control points"));
    }
    let mut points: Vec<(usize, usize)> = Vec::new();
    let mut i: usize = 0;
    while i < n
        invariant
            value == v@.subrange(lo as int, hi as int),
            all == tokens(value),
            closed == (all.len() > 0 && all.last() == kw_loop()),
            ts == (if closed { all.drop_last() } else { all }),
            n >= 2,
            n <= toks@.len(),
            ts.len() == n,
            forall|k: int| 0 <= k < n ==> (#[trigger] toks@[k])@ == ts[k],
            i <= n,
            points@.len() == i,
            parse_points(ts, 0, seq![]) == parse_points(ts, i as int, points@),
        decreases n - i,
    {
        let tok = &toks[i];
        let ghost t = tok@;
        assert(t.subrange(0, t.len() as int) =~= t);
        match find_in(tok, 0, tok.len(), ',') {
            None => {
                return Err(quoted("invalid control point '", tok, 0, tok.len(), "', expected 'x,y'"));
            },
            Some(c) => {
                assert(find(tok@.subrange(0, tok@.len() as int), ',') == Some(c as int));
                assert(t.subrange(0, c as int) =~= t.take(c as int));
                assert(t.subrange(c + 1, t.len() as int) =~= t.skip(c + 1));
                match parse_unsigned_in(tok, 0, c, usize::MAX as u64) {
                    None => {
                        assert(find(t, ',') == Some(c as int));
                        assert(parse_unsigned(t.take(c as int), usize::MAX as int) is None);
                        assert(parse_point(t) == Err::<(usize, usize), Seq<char>>(msg_bad_x(t)));
                        assert(parse_points(ts, i as int, points@) == Err::<Seq<(usize, usize)>, Seq<char>>(msg_bad_x(t)));
                        let m = quoted("invalid x in control point '", tok, 0, tok.len(), "'");
                        assert(m@ == msg_bad_x(t));
                        assert(parse_points(ts, 0, seq![]) == Err::<Seq<(usize, usize)>, Seq<char>>(msg_bad_x(t)));
                        assert(parse_block_spec(value) == Err::<PathBlockSpec, Seq<char>>(msg_bad_x(t)));
                        return Err(m);
                    },
                    Some(x) => {
                        match parse_unsigned_in(tok, c + 1, tok.len(), usize::MAX as u64) {
                            None => {
                                return Err(
                                    quoted("invalid y in control point '", tok, 0, tok.len(), "'"),
                                );
                            },
                            Some(y) => {
                                assert(find(t, ',') == Some(c as int));
                                assert(parse_point(t) == Ok::<(usize, usize), Seq<char>>((x as usize, y as usize)));
                                points.push((x as usize, y as usize));
                            },
                        }
                    },
                }
            },
        }
        i = i + 1;
    }
    let ghost pts = points@;
    assert(parse_points(ts, n as int, points@) == Ok::<Seq<(usize, usize)>, Seq<char>>(pts));
    let np = points.len();
    let segments = if closed {
        np
    } else {
        np - 1
    };
    let mut k: usize = 0;
    while k < segments
        invariant
            value == v@.subrange(lo as int, hi as int),
            all == tokens(value),
            closed == (all.len() > 0 && all.last() == kw_loop()),
            ts == (if closed { all.drop_last() } else { all }),
            ts.len() >= 2,
            parse_points(ts, 0, seq![]) == Ok::<Seq<(usize, usize)>, Seq<char>>(pts),
            np == points@.len(),
            np >= 2,
            pts == points@,
            segments == segment_count(np as int, closed),
            k <= segments,
            bad_segment_from(pts, closed, 0) == bad_segment_from(pts, closed, k as int),
        decreases segments - k,
    {
        let a = points[k];
        let b = points[(k + 1) % np];
        let ok = (a.0 == b.0) != (a.1 == b.1);
        if !ok {
            assert(bad_segment_from(pts, closed, k as int) == Some(k as int));
            assert((k + 1) % (np as int) == (k as int + 1) % (pts.len() as int));
            return Err(segment_message(a, b));
        }
        k = k + 1;
    }
    Ok(PathBlock { points, closed })
}

/// Parse the value `v[lo..hi]` of a `deco:` or `fgdeco:` header into a
/// [`Decoration`] on `layer`.
pub fn parse_decoration(v: &Vec<char>, lo: usize, hi: usize, layer: DecoLayer) -> (r: Result<
    Decoration,
    String,
>)
    requires
        lo <= hi <= v.len(),
    ensures
        match r {
            Ok(d) => parse_deco_spec(v@.subrange(lo as int, hi as int), layer) == Ok::<
                DecorationSpec,
                Seq<char>,
            >(d@),
            Err(e) => parse_deco_spec(v@.subrange(lo as int, hi as int), layer) == Err::<
                DecorationSpec,
                Seq<char>,
            >(e@),
        },
{
    let toks = split_tokens(v, lo, hi);
    if toks.len() == 0 {
        return Err(String::from_str("decoration needs an 'x,y' position and a sprite index"));
    }
    if toks.len() == 1 {
        return Err(String::from_str("decoration needs a sprite index after its position"));
    }
    if toks.len() > 2 {
        return Err(
            quoted("decoration '", v, lo, hi, "' has too many fields, expected 'x,y index'"),
        );
    }
    let pos = &toks[0];
    let ghost p = pos@;
    assert(p.subrange(0, p.len() as int) =~= p);
    match find_in(pos, 0, pos.len(), ',') {
        None => Err(quoted("invalid decoration position '", pos, 0, pos.len(), "', expected 'x,y'")),
        Some(c) => {
            assert(p.subrange(0, c as int) =~= p.take(c as int));
            assert(p.subrange(c + 1, p.len() as int) =~= p.skip(c + 1));
            assert(find(p, ',') == Some(c as int));
            if !is_float_literal_in(pos, 0, c) {
                assert(!is_float_literal(p.take(c as int)));
                return Err(quoted("invalid x in decoration position '", pos, 0, pos.len(), "'"));
            }
            if !is_float_literal_in(pos, c + 1, pos.len()) {
                return Err(quoted("invalid y in decoration position '", pos, 0, pos.len(), "'"));
            }
            let st = &toks[1];
            assert(st@.subrange(0, st@.len() as int) =~= st@);
            match parse_unsigned_in(st, 0, st.len(), u32::MAX as u64) {
                None => Err(quoted("invalid sprite index '", st, 0, st.len(), "'")),
                Some(sprite) => {
                    if sprite < 1 {
                        Err(String::from_str("decoration sprite index must be 1 or greater"))
                    } else {
                        let ghost value = v@.subrange(lo as int, hi as int);
                        assert(tokens(value)[0] == p);
                        assert(tokens(value)[1] == st@);
                        assert(parse_unsigned(st@, u32::MAX as int) == Some(sprite as int));
                        assert(parse_deco_spec(value, layer) == Ok::<DecorationSpec, Seq<char>>(
                            DecorationSpec {
                                x: p.take(c as int),
                                y: p.skip(c + 1),
                                sprite: sprite as u32,
                                layer,
                            },
                        ));
                        Ok(
                            Decoration {
                                x: string_of(pos, 0, c),
                                y: string_of(pos, c + 1, pos.len()),
                                sprite: sprite as u32,
                                layer,
                            },
                        )
                    }
                },
            }
        },
    }
}

/// The tile of an `x,y` token (see `parse_point`).
fn point_of(tok: &Vec<char>) -> (r: Option<(usize, usize)>)
    ensures
        match parse_point(tok@) {
            Ok(p) => r == Some(p),
            Err(_) => r is None,
        },
{
    let ghost t = tok@;
    assert(t.subrange(0, t.len() as int) =~= t);
    match find_in(tok, 0, tok.len(), ',') {
        None => None,
        Some(c) => {
            assert(t.subrange(0, c as int) =~= t.take(c as int));
            assert(t.subrange(c + 1, t.len() as int) =~= t.skip(c + 1));
            match parse_unsigned_in(tok, 0, c, usize::MAX as u64) {
                None => None,
                Some(x) => match parse_unsigned_in(tok, c + 1, tok.len(), usize::MAX as u64) {
                    None => None,
                    Some(y) => Some((x as usize, y as usize)),
                },
            }
        },
    }
}

/// Parse the value `v[lo..hi]` of an `exit:` header into an [`ExitDoor`].
pub fn parse_exit(v: &Vec<char>, lo: usize, hi: usize) -> (r: Result<ExitDoor, String>)
    requires
        lo <= hi <= v.len(),
    ensures
        match r {
            Ok(x) => parse_exit_spec(v@.subrange(lo as int, hi as int)) == Ok::<ExitSpec, Seq<char>>(
                x@,
            ),
            Err(e) => parse_exit_spec(v@.subrange(lo as int, hi as int)) == Err::<
                ExitSpec,
                Seq<char>,
            >(e@),
        },
{
    let toks = split_tokens(v, lo, hi);
    if toks.len() != 2 {
        return Err(
            quoted("exit '", v, lo, hi, "' needs a door tile 'x,y' and a destination level id"),
        );
    }
    let tok = &toks[0];
    let d = &toks[1];
    assert(tok@.subrange(0, tok@.len() as int) =~= tok@);
    assert(d@.subrange(0, d@.len() as int) =~= d@);
    match point_of(tok) {
        None => Err(quoted("invalid exit door tile '", tok, 0, tok.len(), "', expected 'x,y'")),
        Some(p) => Ok(ExitDoor { tile: p, dest: string_of(d, 0, d.len()) }),
    }
}

} // verus!

verus! {

pub open spec fn seqs_view(v: Seq<Vec<char>>) -> Seq<Seq<char>> {
    v.map_values(|l: Vec<char>| l@)
}

pub open spec fn opt_view(o: Option<(usize, usize)>) -> Option<(int, int)> {
    match o {
        Some(p) => Some((p.0 as int, p.1 as int)),
        None => None,
    }
}

fn copy_range(v: &Vec<char>, lo: usize, hi: usize) -> (r: Vec<char>)
    requires
        lo <= hi <= v.len(),
    ensures
        r@ == v@.subrange(lo as int, hi as int),
{
    let mut r: Vec<char> = Vec::new();
    let mut i = lo;
    while i < hi
        invariant
            lo <= i <= hi <= v.len(),
            r@ == v@.subrange(lo as int, i as int),
        decreases hi - i,
    {
        r.push(v[i]);
        assert(v@.subrange(lo as int, i + 1) =~= v@.subrange(lo as int, i as int).push(v@[i as int]));
        i = i + 1;
    }
    r
}

/// What the header lines hold.
pub struct Headers {
    pub name: String,
    pub id: String,
    pub blocks: Vec<PathBlock>,
    pub decos: Vec<Decoration>,
    pub exits: Vec<ExitDoor>,
}

impl View for Headers {
    type V = HeaderState;

    open spec fn view(&self) -> HeaderState {
        HeaderState {
            name: self.name@,
            id: self.id@,
            blocks: blocks_view(self.blocks@),
            decos: decos_view(self.decos@),
            exits: exits_view(self.exits@),
        }
    }
}

/// Read the header lines; on success, what they hold and the index of the
/// first grid line.
fn scan_header_lines(ls: &Vec<Vec<char>>) -> (r: Result<(Headers, usize), String>)
    ensures
        match scan_headers(seqs_view(ls@), 0, empty_headers()) {
            Ok((h, g)) => r matches Ok((hd, gi)) && hd@ == h && gi == g && g <= ls@.len(),
            Err(e) => r matches Err(m) && m@ == e,
        },
{
    let ghost lsv = seqs_view(ls@);
    let kn = vec!['n', 'a', 'm', 'e'];
    let ki = vec!['i', 'd'];
    let kb = vec!['b', 'l', 'o', 'c', 'k'];
    let kd = vec!['d', 'e', 'c', 'o'];
    let kf = vec!['f', 'g', 'd', 'e', 'c', 'o'];
    let ke = vec!['e', 'x', 'i', 't'];
    assert(kn@ =~= kw_name());
    assert(ki@ =~= kw_id());
    assert(kb@ =~= kw_block());
    assert(kd@ =~= kw_deco());
    assert(kf@ =~= kw_fgdeco());
    assert(ke@ =~= kw_exit());
    let mut hd = Headers {
        name: String::new(),
        id: String::new(),
        blocks: Vec::new(),
        decos: Vec::new(),
        exits: Vec::new(),
    };
    assert(blocks_view(hd.blocks@) =~= seq![]);
    assert(decos_view(hd.decos@) =~= seq![]);
    assert(exits_view(hd.exits@) =~= seq![]);
    assert(hd@ =~= empty_headers());
    let mut i: usize = 0;
    while i < ls.len()
        invariant
            lsv == seqs_view(ls@),
            kn@ == kw_name(),
            ki@ == kw_id(),
            kb@ == kw_block(),
            kd@ == kw_deco(),
            kf@ == kw_fgdeco(),
            ke@ == kw_exit(),
            i <= ls.len(),
            scan_headers(lsv, 0, empty_headers()) == scan_headers(lsv, i as int, hd@),
        decreases ls.len() - i,
    {
        let line = &ls[i];
        let ghost l = line@;
        assert(lsv[i as int] == l);
        assert(l.subrange(0, l.len() as int) =~= l);
        let (a, b) = trim_bounds(line, 0, line.len());
        let ghost t = l.subrange(a as int, b as int);
        if a == b {
            i = i + 1;
            continue;
        }
        match find_in(line, a, b, ':') {
            None => {
                return Ok((hd, i));
            },
            Some(p) => {
                assert(t.take(p - a) =~= l.subrange(a as int, p as int));
                assert(t.skip(p - a + 1) =~= l.subrange(p + 1, b as int));
                let (ka, kz) = trim_bounds(line, a, p);
                let (va, vz) = trim_bounds(line, p + 1, b);
                let ghost key = l.subrange(ka as int, kz as int);
                let ghost value = l.subrange(va as int, vz as int);
                let ghost h0 = hd@;
                if chars_eq_in(line, ka, kz, &kn) {
                    hd.name = string_of(line, va, vz);
                    assert(hd@ =~= HeaderState { name: value, ..h0 });
                } else if chars_eq_in(line, ka, kz, &ki) {
                    hd.id = string_of(line, va, vz);
                    assert(hd@ =~= HeaderState { id: value, ..h0 });
                } else if chars_eq_in(line, ka, kz, &kb) {
                    match parse_path_block(line, va, vz) {
                        Ok(blk) => {
                            hd.blocks.push(blk);
                            assert(blocks_view(hd.blocks@) =~= h0.blocks.push(blk@));
                            assert(hd@ =~= HeaderState { blocks: h0.blocks.push(blk@), ..h0 });
                        },
                        Err(e) => {
                            return Err(e);
                        },
                    }
                } else if chars_eq_in(line, ka, kz, &kd) || chars_eq_in(line, ka, kz, &kf) {
                    let layer = if chars_eq_in(line, ka, kz, &kd) {
                        DecoLayer::Background
                    } else {
                        DecoLayer::Foreground
                    };
                    match parse_decoration(line, va, vz, layer) {
                        Ok(d) => {
                            hd.decos.push(d);
                            assert(decos_view(hd.decos@) =~= h0.decos.push(d@));
                            assert(hd@ =~= HeaderState { decos: h0.decos.push(d@), ..h0 });
                        },
                        Err(e) => {
                            return Err(e);
                        },
                    }
                } else if chars_eq_in(line, ka, kz, &ke) {
                    match parse_exit(line, va, vz) {
                        Ok(x) => {
                            hd.exits.push(x);
                            assert(exits_view(hd.exits@) =~= h0.exits.push(x@));
                            assert(hd@ =~= HeaderState { exits: h0.exits.push(x@), ..h0 });
                        },
                        Err(e) => {
                            return Err(e);
                        },
                    }
                } else {
                    return Err(quoted("unknown header key '", line, ka, kz, "'"));
                }
            },
        }
        i = i + 1;
    }
    Ok((hd, ls.len()))
}

pub proof fn lemma_drop_trailing_prefix(gl: Seq<Seq<char>>)
    ensures
        drop_trailing_empty(gl).len() <= gl.len(),
        forall|k: int| 0 <= k < drop_trailing_empty(gl).len() ==> #[trigger] drop_trailing_empty(gl)[k] == gl[k],
        drop_trailing_empty(gl).len() > 0 ==> drop_trailing_empty(gl).last().len() > 0,
    decreases gl.len(),
{
    if gl.len() > 0 && gl.last().len() == 0 {
        lemma_drop_trailing_prefix(gl.drop_last());
    }
}

/// The grid lines (see [`grid_lines`]).
fn collect_grid_lines(ls: &Vec<Vec<char>>, g: usize) -> (r: Vec<Vec<char>>)
    requires
        g <= ls.len(),
    ensures
        seqs_view(r@) == grid_lines(seqs_view(ls@), g as int),
        r@.len() <= ls@.len() - g,
        forall|k: int| 0 <= k < r@.len() ==> (#[trigger] r@[k])@.len() <= ls@[g + k]@.len(),
{
    let ghost lsv = seqs_view(ls@);
    let ghost full = Seq::new((lsv.len() - g) as nat, |k: int| trim_end(lsv[g + k]));
    let mut r: Vec<Vec<char>> = Vec::new();
    let mut k = g;
    while k < ls.len()
        invariant
            g <= k <= ls.len(),
            lsv == seqs_view(ls@),
            full == Seq::new((lsv.len() - g) as nat, |j: int| trim_end(lsv[g + j])),
            r@.len() == k - g,
            forall|j: int| 0 <= j < r@.len() ==> (#[trigger] r@[j])@ == full[j],
            forall|j: int| 0 <= j < r@.len() ==> (#[trigger] r@[j])@.len() <= ls@[g + j]@.len(),
        decreases ls.len() - k,
    {
        let line = &ls[k];
        assert(line@.subrange(0, line@.len() as int) =~= line@);
        let e = trim_end_bounds(line, 0, line.len());
        r.push(copy_range(line, 0, e));
        k = k + 1;
    }
    assert(seqs_view(r@) =~= full);
    while r.len() > 0 && r[r.len() - 1].len() == 0
        invariant
            drop_trailing_empty(full) == drop_trailing_empty(seqs_view(r@)),
            r@.len() <= ls@.len() - g,
            forall|j: int| 0 <= j < r@.len() ==> (#[trigger] r@[j])@.len() <= ls@[g + j]@.len(),
        decreases r.len(),
    {
        let ghost before = seqs_view(r@);
        r.pop();
        assert(seqs_view(r@) =~= before.drop_last());
    }
    assert(drop_trailing_empty(seqs_view(r@)) == seqs_view(r@));
    r
}

pub proof fn lemma_max_len_bound(gl: Seq<Seq<char>>, b: int)
    requires
        b >= 0,
        forall|k: int| 0 <= k < gl.len() ==> (#[trigger] gl[k]).len() <= b,
    ensures
        0 <= max_len(gl) <= b,
    decreases gl.len(),
{
    if gl.len() > 0 {
        lemma_max_len_bound(gl.drop_last(), b);
    }
}

pub proof fn lemma_max_len_ge(gl: Seq<Seq<char>>)
    ensures
        forall|k: int| 0 <= k < gl.len() ==> (#[trigger] gl[k]).len() <= max_len(gl),
    decreases gl.len(),
{
    if gl.len() > 0 {
        lemma_max_len_ge(gl.drop_last());
        assert forall|k: int| 0 <= k < gl.len() implies (#[trigger] gl[k]).len() <= max_len(gl) by {
            if k < gl.len() - 1 {
                assert(gl[k] == gl.drop_last()[k]);
            }
        }
    }
}

/// Length of the longest line.
fn max_line_len(gl: &Vec<Vec<char>>) -> (r: usize)
    ensures
        r == max_len(seqs_view(gl@)),
{
    let ghost g = seqs_view(gl@);
    let mut w: usize = 0;
    let mut i: usize = 0;
    while i < gl.len()
        invariant
            i <= gl.len(),
            g == seqs_view(gl@),
            w as int == max_len(g.take(i as int)),
        decreases gl.len() - i,
    {
        assert(g.take(i + 1).drop_last() =~= g.take(i as int));
        if gl[i].len() > w {
            w = gl[i].len();
        }
        i = i + 1;
    }
    assert(g.take(gl.len() as int) =~= g);
    w
}

fn char_tile_of(c: char) -> (r: Option<u32>)
    ensures
        r == char_tile(c),
{
    match c {
        '.' | ' ' | '0' => Some(tiles::EMPTY),
        '1' => Some(1),
        '3' => Some(3),
        '4' => Some(4),
        '5' => Some(5),
        '6' => Some(6),
        '7' => Some(7),
        '8' => Some(8),
        '^' => Some(tiles::MOVE_UP),
        '>' => Some(tiles::MOVE_RIGHT),
        'v' => Some(tiles::MOVE_DOWN),
        '<' => Some(tiles::MOVE_LEFT),
        'E' => Some(tiles::EXIT),
        'C' => Some(tiles::COIN),
        'S' => Some(tiles::SECRET_EXIT),
        'R' => Some(tiles::RED_COIN),
        _ => None,
    }
}

fn unknown_char_message(c: char, line: usize, col: usize) -> (r: String)
    ensures
        r@ == msg_unknown_char(c, line as nat, col as nat),
{
    let mut m = String::from_str("unknown tile character '");
    push_char(&mut m, c);
    m.append("' at line ");
    push_decimal(&mut m, line as u64);
    m.append(", column ");
    push_decimal(&mut m, col as u64);
    assert(m@ =~= msg_unknown_char(c, line as nat, col as nat));
    m
}

/// Turn the grid lines into padded tile rows, locating the single spawn.
fn scan_grid_rows(gl: &Vec<Vec<char>>, width: usize) -> (r: Result<
    (Vec<Vec<u32>>, Option<(usize, usize)>),
    String,
>)
    requires
        forall|k: int| 0 <= k < gl@.len() ==> (#[trigger] gl@[k])@.len() <= width,
    ensures
        match scan_grid(seqs_view(gl@), width as int, 0, seq![], None) {
            Ok((rows, sp)) => r matches Ok((t, s)) && rows_view(t@) == rows && opt_view(s) == sp
                && (s matches Some(p) ==> p.0 < gl@[p.1 as int]@.len() && p.1 < gl@.len()),
            Err(e) => r matches Err(m) && m@ == e,
        },
{
    let ghost g = seqs_view(gl@);
    let mut tiles: Vec<Vec<u32>> = Vec::new();
    let mut spawn: Option<(usize, usize)> = None;
    let mut y: usize = 0;
    assert(rows_view(tiles@) =~= seq![]);
    while y < gl.len()
        invariant
            y <= gl.len(),
            g == seqs_view(gl@),
            forall|k: int| 0 <= k < gl@.len() ==> (#[trigger] gl@[k])@.len() <= width,
            scan_grid(g, width as int, 0, seq![], None) == scan_grid(
                g,
                width as int,
                y as int,
                rows_view(tiles@),
                opt_view(spawn),
            ),
            spawn matches Some(p) ==> p.0 < gl@[p.1 as int]@.len() && p.1 < y,
        decreases gl.len() - y,
    {
        let line = &gl[y];
        let ghost l = line@;
        assert(g[y as int] == l);
        let ghost sp0 = opt_view(spawn);
        let mut row: Vec<u32> = Vec::new();
        let mut x: usize = 0;
        while x < line.len()
            invariant
                x <= line.len(),
                l == line@,
                y < gl.len(),
                g == seqs_view(gl@),
                g[y as int] == l,
                scan_grid(g, width as int, 0, seq![], None) == scan_grid(
                    g,
                    width as int,
                    y as int,
                    rows_view(tiles@),
                    sp0,
                ),
                scan_row(l, y as int, 0, seq![], sp0) == scan_row(
                    l,
                    y as int,
                    x as int,
                    row@,
                    opt_view(spawn),
                ),
                row@.len() == x,
                spawn matches Some(p) ==> (p.1 < y && p.0 < gl@[p.1 as int]@.len()) || (p.1 == y
                    && p.0 < x),
            decreases line.len() - x,
        {
            let c = line[x];
            if c == 'P' {
                if spawn.is_some() {
                    return Err(String::from_str("level has more than one spawn point 'P'"));
                }
                spawn = Some((x, y));
                row.push(tiles::EMPTY);
            } else {
                match char_tile_of(c) {
                    Some(t) => {
                        row.push(t);
                    },
                    None => {
                        return Err(unknown_char_message(c, y + 1, x + 1));
                    },
                }
            }
            x = x + 1;
        }
        let ghost r0 = row@;
        assert(row@.len() <= width);
        while row.len() < width
            invariant
                r0.len() <= row@.len() <= width,
                row@ == r0 + Seq::new((row@.len() - r0.len()) as nat, |i: int| tiles::EMPTY),
            decreases width - row.len(),
        {
            row.push(tiles::EMPTY);
            assert(row@ =~= r0 + Seq::new((row@.len() - r0.len()) as nat, |i: int| tiles::EMPTY));
        }
        assert(row@ =~= pad(r0, width as int));
        let ghost old_rows = rows_view(tiles@);
        tiles.push(row);
        assert(rows_view(tiles@) =~= old_rows.push(pad(r0, width as int)));
        y = y + 1;
    }
    Ok((tiles, spawn))
}

/// Longest level text that `parse` takes: a spawn on any column or row of it
/// still has its pixel position within `i64`.
pub const MAX_TEXT_LEN: u64 = 230_584_300_921_369_395;

impl LevelData {
    /// Parse a level from its text (see [`parse_spec`] for exactly what is
    /// accepted and which error message each rejection carries).
    pub fn parse(text: &str) -> (r: Result<LevelData, String>)
        requires
            text@.len() <= MAX_TEXT_LEN,
        ensures
            match r {
                Ok(l) => parse_spec(text@) == Ok::<LevelSpec, Seq<char>>(l@),
                Err(e) => parse_spec(text@) == Err::<LevelSpec, Seq<char>>(e@),
            },
    {
        let chars = chars_of(text);
        let ls = split_lines(&chars);
        let ghost lsv = lines(text@);
        assert(seqs_view(ls@) =~= lsv);
        proof {
            crate::text::lemma_lines_bound(text@);
        }
        let (hd, g) = match scan_header_lines(&ls) {
            Ok(h) => h,
            Err(e) => {
                return Err(e);
            },
        };
        let gl = collect_grid_lines(&ls, g);
        if gl.len() == 0 {
            return Err(String::from_str("level has no tile grid"));
        }
        let width = max_line_len(&gl);
        proof {
            lemma_max_len_ge(seqs_view(gl@));
            assert forall|k: int| 0 <= k < gl@.len() implies (#[trigger] gl@[k])@.len() <= width by {
                assert(seqs_view(gl@)[k] == gl@[k]@);
            }
        }
        let (tiles, spawn) = match scan_grid_rows(&gl, width) {
            Ok(t) => t,
            Err(e) => {
                return Err(e);
            },
        };
        match spawn {
            None => Err(String::from_str("level has no spawn point 'P'")),
            Some((x, y)) => {
                assert(x < MAX_TEXT_LEN && y < MAX_TEXT_LEN) by {
                    assert(gl@[y as int]@.len() <= ls@[g + y]@.len());
                    assert(ls@[g + y]@ == lsv[g + y]);
                }
                let sx = (x as i64) * 40 + 12;
                let sy = (y as i64) * 40 + 2;
                Ok(
                    LevelData {
                        name: hd.name,
                        id: hd.id,
                        spawn: (sx, sy),
                        tiles,
                        path_blocks: hd.blocks,
                        decorations: hd.decos,
                        exits: hd.exits,
                    },
                )
            },
        }
    }
}

} // verus!

verus! {

// ---------------------------------------------------------------------------
// Serialising
// ---------------------------------------------------------------------------

/// The grid character of a tile id (`.` for ids with no character).
pub open spec fn tile_char(t: u32) -> char {
    if t == tiles::MOVE_UP {
        '^'
    } else if t == tiles::MOVE_RIGHT {
        '>'
    } else if t == tiles::MOVE_DOWN {
        'v'
    } else if t == tiles::MOVE_LEFT {
        '<'
    } else if t == tiles::EXIT {
        'E'
    } else if t == tiles::COIN {
        'C'
    } else if t == tiles::SECRET_EXIT {
        'S'
    } else if t == tiles::RED_COIN {
        'R'
    } else if t == 1 {
        '1'
    } else if t == 3 {
        '3'
    } else if t == 4 {
        '4'
    } else if t == 5 {
        '5'
    } else if t == 6 {
        '6'
    } else if t == 7 {
        '7'
    } else if t == 8 {
        '8'
    } else {
        '.'
    }
}

/// Map a tile code back to its level-file character.
pub fn tile_to_char(tile: u32) -> (c: char)
    ensures
        c == tile_char(tile),
{
    match tile {
        tiles::MOVE_UP => '^',
        tiles::MOVE_RIGHT => '>',
        tiles::MOVE_DOWN => 'v',
        tiles::MOVE_LEFT => '<',
        tiles::EXIT => 'E',
        tiles::COIN => 'C',
        tiles::SECRET_EXIT => 'S',
        tiles::RED_COIN => 'R',
        1 => '1',
        3 => '3',
        4 => '4',
        5 => '5',
        6 => '6',
        7 => '7',
        8 => '8',
        _ => '.',
    }
}

/// Lines joined, each followed by `\n`.
pub open spec fn join_lines(ls: Seq<Seq<char>>) -> Seq<char>
    decreases ls.len(),
{
    if ls.len() == 0 {
        seq![]
    } else {
        join_lines(ls.drop_last()) + ls.last() + seq!['\n']
    }
}

pub open spec fn name_lines(name: Seq<char>) -> Seq<Seq<char>> {
    if name.len() > 0 {
        seq!["name: "@ + name]
    } else {
        seq![]
    }
}

pub open spec fn id_lines(id: Seq<char>) -> Seq<Seq<char>> {
    if id.len() > 0 {
        seq!["id: "@ + id]
    } else {
        seq![]
    }
}

/// ` x,y` for each point, in order.
pub open spec fn points_text(ps: Seq<(usize, usize)>) -> Seq<char>
    decreases ps.len(),
{
    if ps.len() == 0 {
        seq![]
    } else {
        points_text(ps.drop_last()) + " "@ + decimal(ps.last().0 as nat) + ","@ + decimal(
            ps.last().1 as nat,
        )
    }
}

pub open spec fn block_line(b: PathBlockSpec) -> Seq<char> {
    "block:"@ + points_text(b.points) + (if b.closed {
        " loop"@
    } else {
        seq![]
    })
}

/// One `block:` line per block of at least two points (shorter ones, e.g. a
/// block still being drawn in the editor, are left out).
pub open spec fn block_lines(bs: Seq<PathBlockSpec>) -> Seq<Seq<char>>
    decreases bs.len(),
{
    if bs.len() == 0 {
        seq![]
    } else {
        block_lines(bs.drop_last()) + (if bs.last().points.len() >= 2 {
            seq![block_line(bs.last())]
        } else {
            seq![]
        })
    }
}

/// How a decoration coordinate is written out: a whole number as its
/// shortest decimal text, other text as it was read.
pub open spec fn written_coord(t: Seq<char>) -> Seq<char> {
    moved_coord(t, 0)
}

/// The header key a decoration on `layer` is written with, and its colon
/// and space.
pub open spec fn deco_prefix(layer: DecoLayer) -> Seq<char> {
    match layer {
        DecoLayer::Background => "deco: "@,
        DecoLayer::Foreground => "fgdeco: "@,
    }
}

pub open spec fn deco_line(d: DecorationSpec) -> Seq<char> {
    deco_prefix(d.layer) + written_coord(d.x) + ","@ + written_coord(d.y) + " "@ + decimal(
        d.sprite as nat,
    )
}

pub open spec fn deco_lines(ds: Seq<DecorationSpec>) -> Seq<Seq<char>> {
    Seq::new(ds.len(), |i: int| deco_line(ds[i]))
}

pub open spec fn exit_line(e: ExitSpec) -> Seq<char> {
    "exit: "@ + decimal(e.tile.0 as nat) + ","@ + decimal(e.tile.1 as nat) + " "@ + e.dest
}

pub open spec fn exit_lines(es: Seq<ExitSpec>) -> Seq<Seq<char>> {
    Seq::new(es.len(), |i: int| exit_line(es[i]))
}

pub open spec fn header_lines(l: LevelSpec) -> Seq<Seq<char>> {
    name_lines(l.name) + id_lines(l.id) + block_lines(l.path_blocks) + deco_lines(l.decorations)
        + exit_lines(l.exits)
}

/// Grid row `y`, with `P` at the spawn tile `st`.
pub open spec fn row_text(row: Seq<u32>, y: int, st: (int, int)) -> Seq<char> {
    Seq::new(
        row.len(),
        |x: int|
            if x == st.0 && y == st.1 {
                'P'
            } else {
                tile_char(row[x])
            },
    )
}

pub open spec fn grid_text_lines(l: LevelSpec) -> Seq<Seq<char>> {
    Seq::new(l.tiles.len(), |y: int| row_text(l.tiles[y], y, spawn_tile_spec(l.spawn)))
}

/// The lines of a level's file: header, a blank separator when there is a
/// header, then the grid.
pub open spec fn text_lines(l: LevelSpec) -> Seq<Seq<char>> {
    let h = header_lines(l);
    h + (if h.len() > 0 {
        seq![seq![]]
    } else {
        seq![]
    }) + grid_text_lines(l)
}

/// The text `to_text` writes for a level.
pub open spec fn to_text_spec(l: LevelSpec) -> Seq<char> {
    join_lines(text_lines(l))
}

/// `usize` saturation of a non-negative integer.
pub open spec fn sat_usize(n: int) -> usize {
    if n > usize::MAX {
        usize::MAX
    } else {
        n as usize
    }
}

/// Exec: nearest tile of a pixel coordinate (see [`nearest_tile`]), saturated.
fn nearest_tile_of(p: i64, off: i64) -> (r: usize)
    requires
        0 <= off < 40,
    ensures
        r == sat_usize(nearest_tile(p as int, off as int)),
{
    if p < off {
        return 0;
    }
    let v = p - off;
    let q = v / 40 + if v % 40 >= 20 {
        1
    } else {
        0
    };
    assert(q == (v + 20) / 40);
    if q as u64 > usize::MAX as u64 {
        usize::MAX
    } else {
        q as usize
    }
}

pub fn append_line_end(out: &mut String)
    ensures
        final(out)@ == old(out)@ + seq!['\n'],
{
    push_char(out, '\n');
}

pub proof fn lemma_join_push(ls: Seq<Seq<char>>, x: Seq<char>)
    ensures
        join_lines(ls.push(x)) == join_lines(ls) + x + seq!['\n'],
{
    assert(ls.push(x).drop_last() =~= ls);
}

impl LevelData {
    /// The spawn point expressed in tile coordinates (the inverse of the pixel
    /// placement `parse` computes for a `P`).
    pub fn spawn_tile(&self) -> (r: (usize, usize))
        ensures
            r.0 == sat_usize(spawn_tile_spec(self.spawn).0),
            r.1 == sat_usize(spawn_tile_spec(self.spawn).1),
    {
        (nearest_tile_of(self.spawn.0, 12), nearest_tile_of(self.spawn.1, 2))
    }

    /// Grid width in tiles (the length of the first row).
    pub fn width(&self) -> (r: usize)
        ensures
            r == (if self.tiles@.len() == 0 {
                0
            } else {
                self.tiles@[0]@.len()
            }),
    {
        if self.tiles.len() == 0 {
            0
        } else {
            self.tiles[0].len()
        }
    }

    /// Grid height in tiles.
    pub fn height(&self) -> (r: usize)
        ensures
            r == self.tiles@.len(),
    {
        self.tiles.len()
    }

    /// Serialise the level into the text format `parse` reads.
    pub fn to_text(&self) -> (r: String)
        ensures
            r@ == to_text_spec(self@),
    {
        let ghost l = self@;
        let (spawn_x, spawn_y) = self.spawn_tile();
        let mut out = String::new();
        let ghost mut done: Seq<Seq<char>> = seq![];
        let mut has_header = false;
        if !self.name.as_str().is_empty() {
            let ghost line = "name: "@ + self.name@;
            out.append("name: ");
            out.append(self.name.as_str());
            append_line_end(&mut out);
            proof {
                lemma_join_push(done, line);
                done = done.push(line);
            }
            has_header = true;
        }
        assert(done =~= name_lines(l.name));
        if !self.id.as_str().is_empty() {
            let ghost line = "id: "@ + self.id@;
            out.append("id: ");
            out.append(self.id.as_str());
            append_line_end(&mut out);
            proof {
                lemma_join_push(done, line);
                done = done.push(line);
            }
            has_header = true;
        }
        assert(done =~= name_lines(l.name) + id_lines(l.id));
        let ghost nl = done;
        let mut i: usize = 0;
        while i < self.path_blocks.len()
            invariant
                l == self@,
                i <= self.path_blocks@.len(),
                nl == name_lines(l.name) + id_lines(l.id),
                done == nl + block_lines(l.path_blocks.take(i as int)),
                out@ == join_lines(done),
                has_header == (done.len() > 0),
            decreases self.path_blocks.len() - i,
        {
            let block = &self.path_blocks[i];
            assert(l.path_blocks.take(i + 1).drop_last() =~= l.path_blocks.take(i as int));
            assert(l.path_blocks.take(i + 1).last() == block@);
            if block.points.len() >= 2 {
                let ghost start = out@;
                out.append("block:");
                let mut k: usize = 0;
                while k < block.points.len()
                    invariant
                        k <= block.points@.len(),
                        out@ == start + "block:"@ + points_text(block.points@.take(k as int)),
                    decreases block.points.len() - k,
                {
                    let (px, py) = block.points[k];
                    assert(block.points@.take(k + 1).drop_last() =~= block.points@.take(k as int));
                    out.append(" ");
                    push_decimal(&mut out, px as u64);
                    out.append(",");
                    push_decimal(&mut out, py as u64);
                    k = k + 1;
                }
                assert(block.points@.take(block.points@.len() as int) =~= block.points@);
                if block.closed {
                    out.append(" loop");
                }
                append_line_end(&mut out);
                proof {
                    let line = block_line(block@);
                    assert(out@ =~= start + line + seq!['\n']);
                    lemma_join_push(done, line);
                    done = done.push(line);
                }
                has_header = true;
            }
            i = i + 1;
        }
        assert(l.path_blocks.take(self.path_blocks@.len() as int) =~= l.path_blocks);
        let mut j: usize = 0;
        let ghost nb = done;
        while j < self.decorations.len()
            invariant
                l == self@,
                j <= self.decorations@.len(),
                nb == name_lines(l.name) + id_lines(l.id) + block_lines(l.path_blocks),
                done == nb + deco_lines(l.decorations.take(j as int)),
                out@ == join_lines(done),
                has_header == (done.len() > 0),
            decreases self.decorations.len() - j,
        {
            let d = &self.decorations[j];
            let ghost start = out@;
            let x = move_coord(&d.x, 0);
            let y = move_coord(&d.y, 0);
            match d.layer {
                DecoLayer::Background => out.append("deco: "),
                DecoLayer::Foreground => out.append("fgdeco: "),
            }
            out.append(x.as_str());
            out.append(",");
            out.append(y.as_str());
            out.append(" ");
            push_decimal(&mut out, d.sprite as u64);
            append_line_end(&mut out);
            proof {
                let line = deco_line(d@);
                assert(l.decorations[j as int] == d@);
                assert(out@ =~= start + line + seq!['\n']);
                lemma_join_push(done, line);
                assert(deco_lines(l.decorations.take(j + 1)) =~= deco_lines(l.decorations.take(j as int)).push(line));
                done = done.push(line);
            }
            has_header = true;
            j = j + 1;
        }
        assert(l.decorations.take(self.decorations@.len() as int) =~= l.decorations);
        let mut e: usize = 0;
        let ghost nd = done;
        while e < self.exits.len()
            invariant
                l == self@,
                e <= self.exits@.len(),
                nd == name_lines(l.name) + id_lines(l.id) + block_lines(l.path_blocks) + deco_lines(
                    l.decorations,
                ),
                done == nd + exit_lines(l.exits.take(e as int)),
                out@ == join_lines(done),
                has_header == (done.len() > 0),
            decreases self.exits.len() - e,
        {
            let x = &self.exits[e];
            let ghost start = out@;
            out.append("exit: ");
            push_decimal(&mut out, x.tile.0 as u64);
            out.append(",");
            push_decimal(&mut out, x.tile.1 as u64);
            out.append(" ");
            out.append(x.dest.as_str());
            append_line_end(&mut out);
            proof {
                let line = exit_line(x@);
                assert(l.exits[e as int] == x@);
                assert(out@ =~= start + line + seq!['\n']);
                lemma_join_push(done, line);
                assert(exit_lines(l.exits.take(e + 1)) =~= exit_lines(l.exits.take(e as int)).push(line));
                done = done.push(line);
            }
            has_header = true;
            e = e + 1;
        }
        assert(l.exits.take(self.exits@.len() as int) =~= l.exits);
        assert(done =~= header_lines(l));
        if has_header {
            append_line_end(&mut out);
            proof {
                lemma_join_push(done, seq![]);
                assert(done.push(seq![]) =~= done + seq![seq![]]);
                done = done.push(seq![]);
                assert(join_lines(done) =~= out@);
            }
        }
        let ghost hd = done;
        assert(hd == header_lines(l) + (if header_lines(l).len() > 0 {
            seq![seq![]]
        } else {
            seq![]
        })) by {
            if !has_header {
                assert(hd =~= header_lines(l) + seq![]);
            }
        }
        let ghost st = spawn_tile_spec(l.spawn);
        let mut y: usize = 0;
        while y < self.tiles.len()
            invariant
                l == self@,
                y <= self.tiles@.len(),
                st == spawn_tile_spec(l.spawn),
                spawn_x == sat_usize(st.0),
                spawn_y == sat_usize(st.1),
                st.0 >= 0 && st.1 >= 0,
                done == hd + grid_text_lines(l).take(y as int),
                out@ == join_lines(done),
            decreases self.tiles.len() - y,
        {
            let row = &self.tiles[y];
            assert(l.tiles[y as int] == row@);
            let ghost start = out@;
            let rl = row.len();
            let tl = self.tiles.len();
            let mut x: usize = 0;
            while x < rl
                invariant
                    x <= row@.len(),
                    y < self.tiles@.len(),
                    rl == row@.len(),
                    tl == self.tiles@.len(),
                    spawn_x == sat_usize(st.0),
                    spawn_y == sat_usize(st.1),
                    st.0 >= 0 && st.1 >= 0,
                    out@ == start + row_text(row@, y as int, st).take(x as int),
                decreases rl - x,
            {
                let ch = if x == spawn_x && y == spawn_y {
                    'P'
                } else {
                    tile_to_char(row[x])
                };
                assert((x == spawn_x) == (x as int == st.0));
                assert((y == spawn_y) == (y as int == st.1));
                assert(ch == row_text(row@, y as int, st)[x as int]);
                push_char(&mut out, ch);
                assert(row_text(row@, y as int, st).take(x + 1) =~= row_text(row@, y as int, st).take(
                    x as int,
                ).push(ch));
                x = x + 1;
            }
            assert(row_text(row@, y as int, st).take(row@.len() as int) =~= row_text(row@, y as int, st));
            append_line_end(&mut out);
            proof {
                let line = row_text(row@, y as int, st);
                assert(grid_text_lines(l)[y as int] == line);
                lemma_join_push(done, line);
                assert(grid_text_lines(l).take(y + 1) =~= grid_text_lines(l).take(y as int).push(line));
                done = done.push(line);
                assert(done =~= hd + grid_text_lines(l).take(y + 1));
            }
            y = y + 1;
        }
        assert(grid_text_lines(l).take(self.tiles@.len() as int) =~= grid_text_lines(l));
        assert(done =~= text_lines(l));
        out
    }
}

} // verus!

verus! {

// ---------------------------------------------------------------------------
// Resizing
// ---------------------------------------------------------------------------

/// Width of a grid: the length of its first row.
pub open spec fn grid_width(t: Seq<Seq<u32>>) -> int {
    if t.len() == 0 {
        0
    } else {
        t[0].len() as int
    }
}

pub open spec fn zero_row(w: int) -> Seq<u32> {
    Seq::new(w as nat, |i: int| tiles::EMPTY)
}

/// The grid with an empty row or column added along `edge`.
pub open spec fn grown_tiles(t: Seq<Seq<u32>>, edge: Edge) -> Seq<Seq<u32>> {
    match edge {
        Edge::Top => seq![zero_row(grid_width(t))] + t,
        Edge::Bottom => t.push(zero_row(grid_width(t))),
        Edge::Left => t.map_values(|r: Seq<u32>| seq![tiles::EMPTY] + r),
        Edge::Right => t.map_values(|r: Seq<u32>| r.push(tiles::EMPTY)),
    }
}

/// The grid with the row or column along `edge` removed.
pub open spec fn shrunk_tiles(t: Seq<Seq<u32>>, edge: Edge) -> Seq<Seq<u32>> {
    match edge {
        Edge::Top => t.drop_first(),
        Edge::Bottom => t.drop_last(),
        Edge::Left => t.map_values(|r: Seq<u32>| r.drop_first()),
        Edge::Right => t.map_values(
            |r: Seq<u32>|
                if r.len() > 0 {
                    r.drop_last()
                } else {
                    r
                },
        ),
    }
}

/// The spawn shifted by whole tiles when content moves down or right.
pub open spec fn shifted_spawn(spawn: (i64, i64), edge: Edge, delta: int) -> (i64, i64) {
    match edge {
        Edge::Top => (spawn.0, (spawn.1 + delta) as i64),
        Edge::Left => ((spawn.0 + delta) as i64, spawn.1),
        _ => spawn,
    }
}

/// The spawn snapped back inside a `w`x`h` grid.
pub open spec fn clamped_spawn(spawn: (i64, i64), w: int, h: int) -> (i64, i64) {
    let st = spawn_tile_spec(spawn);
    let x = if sat_usize(st.0) < w - 1 {
        sat_usize(st.0) as int
    } else if w >= 1 {
        w - 1
    } else {
        0
    };
    let y = if sat_usize(st.1) < h - 1 {
        sat_usize(st.1) as int
    } else if h >= 1 {
        h - 1
    } else {
        0
    };
    spawn_pixel(x, y)
}

/// Whether `shrink(edge)` refuses: it would leave the grid below 1x1.
pub open spec fn shrink_refused(t: Seq<Seq<u32>>, edge: Edge) -> bool {
    match edge {
        Edge::Top | Edge::Bottom => t.len() <= 1,
        Edge::Left | Edge::Right => grid_width(t) <= 1,
    }
}

/// One tile coordinate of a path point moved by a row or column inserted
/// before it (`grow`) or removed before it; it stays within `usize`, and a
/// point on the removed row or column stays on the new first one.
pub open spec fn step_coord(c: usize, grow: bool) -> usize {
    if grow {
        if c < usize::MAX {
            (c + 1) as usize
        } else {
            c
        }
    } else if c > 0 {
        (c - 1) as usize
    } else {
        0
    }
}

/// A path point moved with the content when a row is inserted at or removed
/// from the top, or a column at the left; other edges leave it in place.
pub open spec fn moved_point(p: (usize, usize), edge: Edge, grow: bool) -> (usize, usize) {
    match edge {
        Edge::Top => (p.0, step_coord(p.1, grow)),
        Edge::Left => (step_coord(p.0, grow), p.1),
        _ => p,
    }
}

/// Every block's control points moved with the content.
pub open spec fn moved_blocks(bs: Seq<PathBlockSpec>, edge: Edge, grow: bool) -> Seq<
    PathBlockSpec,
> {
    Seq::new(
        bs.len(),
        |i: int|
            PathBlockSpec {
                points: bs[i].points.map_values(|p: (usize, usize)| moved_point(p, edge, grow)),
                closed: bs[i].closed,
            },
    )
}

/// Largest magnitude of a whole-number decoration coordinate that moves with
/// resized content: adding or taking a tile's 40 pixels keeps it within 2^24,
/// where every whole number is exact as a 32-bit float.
pub const WHOLE_COORD_LIMIT: u64 = 16_777_176;

/// Whether every character of `s` is `0`.
pub open spec fn all_zeros(s: Seq<char>) -> bool {
    forall|i: int| 0 <= i < s.len() ==> #[trigger] s[i] == '0'
}

/// Whether `d` is one or more digits whose value is at most
/// `WHOLE_COORD_LIMIT`.
pub open spec fn small_digits(d: Seq<char>) -> bool {
    d.len() > 0 && all_digits(d) && digits_value(d) <= WHOLE_COORD_LIMIT as int
}

/// The value of one or more digits, optionally followed by a decimal point
/// and zeros, when it is at most `WHOLE_COORD_LIMIT`.
pub open spec fn whole_digits(b: Seq<char>) -> Option<int> {
    match find(b, '.') {
        None => if small_digits(b) {
            Some(digits_value(b))
        } else {
            None
        },
        Some(k) => if small_digits(b.take(k)) && all_zeros(b.skip(k + 1)) {
            Some(digits_value(b.take(k)))
        } else {
            None
        },
    }
}

/// The value of decoration coordinate text that is a whole number: an
/// optional sign, one or more digits, and optionally a decimal point followed
/// by zeros, of magnitude at most `WHOLE_COORD_LIMIT`. Other text (a
/// fraction, an exponent, a larger number) has none.
pub open spec fn whole_coord(t: Seq<char>) -> Option<int> {
    if t.len() > 0 && t[0] == '-' {
        match whole_digits(t.drop_first()) {
            Some(v) => Some(-v),
            None => None,
        }
    } else if t.len() > 0 && t[0] == '+' {
        whole_digits(t.drop_first())
    } else {
        whole_digits(t)
    }
}

/// Decimal text of a whole number, with a `-` before a negative one.
pub open spec fn whole_text(v: int) -> Seq<char> {
    if v < 0 {
        seq!['-'] + decimal((-v) as nat)
    } else {
        decimal(v as nat)
    }
}

/// A decoration coordinate moved by `delta` pixels: a whole number becomes
/// the decimal text of the moved value; other text is kept as written.
pub open spec fn moved_coord(t: Seq<char>, delta: int) -> Seq<char> {
    match whole_coord(t) {
        Some(v) => whole_text(v + delta),
        None => t,
    }
}

/// Every decoration moved by `delta` pixels along the axis that `edge`
/// shifts: down for the top edge, right for the left edge.
pub open spec fn moved_decos(ds: Seq<DecorationSpec>, edge: Edge, delta: int) -> Seq<
    DecorationSpec,
> {
    Seq::new(
        ds.len(),
        |i: int|
            DecorationSpec {
                x: if edge is Left {
                    moved_coord(ds[i].x, delta)
                } else {
                    ds[i].x
                },
                y: if edge is Top {
                    moved_coord(ds[i].y, delta)
                } else {
                    ds[i].y
                },
                sprite: ds[i].sprite,
                layer: ds[i].layer,
            },
    )
}

/// Every exit door's tile moved with the content.
pub open spec fn moved_exits(es: Seq<ExitSpec>, edge: Edge, grow: bool) -> Seq<ExitSpec> {
    Seq::new(
        es.len(),
        |i: int| ExitSpec { tile: moved_point(es[i].tile, edge, grow), dest: es[i].dest },
    )
}

/// The level after `grow(edge)`.
pub open spec fn grown_level(l: LevelSpec, edge: Edge) -> LevelSpec {
    LevelSpec {
        name: l.name,
        id: l.id,
        spawn: shifted_spawn(l.spawn, edge, 40),
        tiles: grown_tiles(l.tiles, edge),
        path_blocks: moved_blocks(l.path_blocks, edge, true),
        decorations: moved_decos(l.decorations, edge, 40),
        exits: moved_exits(l.exits, edge, true),
    }
}

/// The level after a `shrink(edge)` that is not refused.
pub open spec fn shrunk_level(l: LevelSpec, edge: Edge) -> LevelSpec {
    let t = shrunk_tiles(l.tiles, edge);
    LevelSpec {
        name: l.name,
        id: l.id,
        spawn: clamped_spawn(shifted_spawn(l.spawn, edge, -40), grid_width(t), t.len() as int),
        tiles: t,
        path_blocks: moved_blocks(l.path_blocks, edge, false),
        decorations: moved_decos(l.decorations, edge, -40),
        exits: moved_exits(l.exits, edge, false),
    }
}

/// The value of a whole-number decoration coordinate (see `whole_coord`).
pub fn whole_coord_of(t: &String) -> (r: Option<i64>)
    ensures
        match whole_coord(t@) {
            Some(v) => r == Some(v as i64) && -(WHOLE_COORD_LIMIT as int) <= v
                <= WHOLE_COORD_LIMIT as int,
            None => r is None,
        },
{
    let v = chars_of(t.as_str());
    let n = v.len();
    let neg = n > 0 && v[0] == '-';
    let start: usize = if n > 0 && (v[0] == '-' || v[0] == '+') {
        1
    } else {
        0
    };
    let ghost b = v@.subrange(start as int, n as int);
    assert(b =~= (if n > 0 && (v@[0] == '-' || v@[0] == '+') {
        t@.drop_first()
    } else {
        t@
    }));
    let k = match find_in(&v, start, n, '.') {
        Some(k) => k,
        None => n,
    };
    let ghost kb: int = k - start;
    let ghost d = v@.subrange(start as int, k as int);
    let ghost z = v@.subrange(
        if k < n {
            k + 1
        } else {
            n as int
        },
        n as int,
    );
    proof {
        crate::text::lemma_find_from_range(b, '.', 0);
        if k < n {
            assert(d =~= b.take(kb));
            assert(z =~= b.skip(kb + 1));
        } else {
            assert(d =~= b);
        }
    }
    if start < k && v[start] == '+' {
        assert(!is_digit(d[0]));
        return None;
    }
    let m = match parse_unsigned_in(&v, start, k, WHOLE_COORD_LIMIT) {
        None => {
            return None;
        },
        Some(m) => m,
    };
    assert(v@.subrange(start as int, k as int) == d);
    proof {
        crate::text::lemma_digits_value_nonneg(d);
        if k == n {
            assert(z.len() == 0);
        }
    }
    let ghost val: int = if neg {
        -(m as int)
    } else {
        m as int
    };
    assert(whole_coord(t@) == (if all_zeros(z) {
        Some(val)
    } else {
        None::<int>
    }));
    let mut i = if k < n {
        k + 1
    } else {
        n
    };
    let ghost from: int = i as int;
    while i < n
        invariant
            0 <= from <= i <= n,
            n == v@.len(),
            z =~= v@.subrange(from, n as int),
            forall|j: int| from <= j < i ==> v@[j] == '0',
            whole_coord(t@) == (if all_zeros(z) {
                Some(val)
            } else {
                None::<int>
            }),
        decreases n - i,
    {
        if v[i] != '0' {
            assert(z[i - from] == v@[i as int]);
            return None;
        }
        i = i + 1;
    }
    assert(all_zeros(z)) by {
        assert forall|j: int| 0 <= j < z.len() implies #[trigger] z[j] == '0' by {
            assert(z[j] == v@[from + j]);
        }
    }
    if neg {
        Some(-(m as i64))
    } else {
        Some(m as i64)
    }
}

/// Move one decoration coordinate by `delta` pixels (see `moved_coord`).
pub fn move_coord(t: &String, delta: i64) -> (r: String)
    requires
        -40 <= delta <= 40,
    ensures
        r@ == moved_coord(t@, delta as int),
{
    match whole_coord_of(t) {
        None => t.clone(),
        Some(v) => {
            let w: i64 = v + delta;
            let mut out = String::new();
            if w < 0 {
                push_char(&mut out, '-');
                push_decimal(&mut out, (-w) as u64);
            } else {
                push_decimal(&mut out, w as u64);
            }
            assert(out@ =~= whole_text(w as int));
            out
        },
    }
}

/// The blocks' control points moved with the content (see `moved_blocks`).
fn move_blocks(bs: &Vec<PathBlock>, edge: Edge, grow: bool) -> (r: Vec<PathBlock>)
    ensures
        blocks_view(r@) == moved_blocks(blocks_view(bs@), edge, grow),
{
    let mut out: Vec<PathBlock> = Vec::new();
    let mut i: usize = 0;
    while i < bs.len()
        invariant
            i <= bs@.len(),
            out@.len() == i,
            forall|k: int|
                0 <= k < i ==> (#[trigger] out@[k])@ == moved_blocks(blocks_view(bs@), edge, grow)[k],
        decreases bs.len() - i,
    {
        let src = &bs[i].points;
        let mut pts: Vec<(usize, usize)> = Vec::new();
        let mut j: usize = 0;
        while j < src.len()
            invariant
                j <= src@.len(),
                pts@ == src@.take(j as int).map_values(|p: (usize, usize)| moved_point(p, edge, grow)),
            decreases src.len() - j,
        {
            let (x, y) = src[j];
            let q = match edge {
                Edge::Top => (x, if grow { y.saturating_add(1) } else { y.saturating_sub(1) }),
                Edge::Left => (if grow { x.saturating_add(1) } else { x.saturating_sub(1) }, y),
                _ => (x, y),
            };
            assert(q == moved_point(src@[j as int], edge, grow));
            pts.push(q);
            assert(src@.take(j + 1).map_values(|p: (usize, usize)| moved_point(p, edge, grow))
                =~= src@.take(j as int).map_values(|p: (usize, usize)| moved_point(p, edge, grow)).push(q));
            j = j + 1;
        }
        assert(src@.take(src@.len() as int) =~= src@);
        out.push(PathBlock { points: pts, closed: bs[i].closed });
        i = i + 1;
    }
    assert(blocks_view(out@) =~= moved_blocks(blocks_view(bs@), edge, grow));
    out
}

/// The decorations moved by `delta` pixels with the content (see `moved_decos`).
fn move_decos(ds: &Vec<Decoration>, edge: Edge, delta: i64) -> (r: Vec<Decoration>)
    requires
        -40 <= delta <= 40,
    ensures
        decos_view(r@) == moved_decos(decos_view(ds@), edge, delta as int),
{
    let mut out: Vec<Decoration> = Vec::new();
    let mut i: usize = 0;
    while i < ds.len()
        invariant
            i <= ds@.len(),
            -40 <= delta <= 40,
            out@.len() == i,
            forall|k: int|
                0 <= k < i ==> (#[trigger] out@[k])@ == moved_decos(decos_view(ds@), edge, delta as int)[k],
        decreases ds.len() - i,
    {
        let d = &ds[i];
        let x = if edge == Edge::Left {
            move_coord(&d.x, delta)
        } else {
            d.x.clone()
        };
        let y = if edge == Edge::Top {
            move_coord(&d.y, delta)
        } else {
            d.y.clone()
        };
        out.push(Decoration { x, y, sprite: d.sprite, layer: d.layer });
        i = i + 1;
    }
    assert(decos_view(out@) =~= moved_decos(decos_view(ds@), edge, delta as int));
    out
}

/// The exit doors' tiles moved with the content (see `moved_exits`).
fn move_exits(es: &Vec<ExitDoor>, edge: Edge, grow: bool) -> (r: Vec<ExitDoor>)
    ensures
        exits_view(r@) == moved_exits(exits_view(es@), edge, grow),
{
    let mut out: Vec<ExitDoor> = Vec::new();
    let mut i: usize = 0;
    while i < es.len()
        invariant
            i <= es@.len(),
            out@.len() == i,
            forall|k: int|
                0 <= k < i ==> (#[trigger] out@[k])@ == moved_exits(exits_view(es@), edge, grow)[k],
        decreases es.len() - i,
    {
        let (x, y) = es[i].tile;
        let q = match edge {
            Edge::Top => (x, if grow { y.saturating_add(1) } else { y.saturating_sub(1) }),
            Edge::Left => (if grow { x.saturating_add(1) } else { x.saturating_sub(1) }, y),
            _ => (x, y),
        };
        out.push(ExitDoor { tile: q, dest: es[i].dest.clone() });
        i = i + 1;
    }
    assert(exits_view(out@) =~= moved_exits(exits_view(es@), edge, grow));
    out
}

fn copy_row(r: &Vec<u32>) -> (c: Vec<u32>)
    ensures
        c@ == r@,
{
    let mut c: Vec<u32> = Vec::new();
    let mut i: usize = 0;
    while i < r.len()
        invariant
            i <= r@.len(),
            c@ == r@.take(i as int),
        decreases r.len() - i,
    {
        c.push(r[i]);
        assert(r@.take(i + 1) =~= r@.take(i as int).push(r@[i as int]));
        i = i + 1;
    }
    assert(r@.take(r@.len() as int) =~= r@);
    c
}

fn zeros(w: usize) -> (c: Vec<u32>)
    ensures
        c@ == zero_row(w as int),
{
    let mut c: Vec<u32> = Vec::new();
    let mut i: usize = 0;
    while i < w
        invariant
            i <= w,
            c@ == zero_row(i as int),
        decreases w - i,
    {
        c.push(tiles::EMPTY);
        assert(c@ =~= zero_row(i + 1));
        i = i + 1;
    }
    c
}

pub enum RowEdit {
    PrependZero,
    AppendZero,
    DropFirst,
    DropLast,
}

pub open spec fn row_edit(r: Seq<u32>, e: RowEdit) -> Seq<u32> {
    match e {
        RowEdit::PrependZero => seq![tiles::EMPTY] + r,
        RowEdit::AppendZero => r.push(tiles::EMPTY),
        RowEdit::DropFirst => r.drop_first(),
        RowEdit::DropLast => if r.len() > 0 {
            r.drop_last()
        } else {
            r
        },
    }
}

/// Apply one edit to every row.
fn edit_rows(t: &Vec<Vec<u32>>, e: RowEdit) -> (r: Vec<Vec<u32>>)
    requires
        e is DropFirst ==> forall|k: int| 0 <= k < t@.len() ==> (#[trigger] t@[k])@.len() > 0,
    ensures
        rows_view(r@) == rows_view(t@).map_values(|x: Seq<u32>| row_edit(x, e)),
{
    let mut out: Vec<Vec<u32>> = Vec::new();
    let mut i: usize = 0;
    while i < t.len()
        invariant
            i <= t@.len(),
            e is DropFirst ==> forall|k: int| 0 <= k < t@.len() ==> (#[trigger] t@[k])@.len() > 0,
            out@.len() == i,
            forall|k: int| 0 <= k < i ==> (#[trigger] out@[k])@ == row_edit(t@[k]@, e),
        decreases t.len() - i,
    {
        let mut row = copy_row(&t[i]);
        match e {
            RowEdit::PrependZero => {
                row.insert(0, tiles::EMPTY);
                assert(row@ =~= seq![tiles::EMPTY] + t@[i as int]@);
            },
            RowEdit::AppendZero => {
                row.push(tiles::EMPTY);
            },
            RowEdit::DropFirst => {
                row.remove(0);
                assert(row@ =~= t@[i as int]@.drop_first());
            },
            RowEdit::DropLast => {
                row.pop();
                assert(row@ =~= row_edit(t@[i as int]@, e));
            },
        }
        out.push(row);
        i = i + 1;
    }
    assert(rows_view(out@) =~= rows_view(t@).map_values(|x: Seq<u32>| row_edit(x, e)));
    out
}

impl LevelData {
    /// Add a row or column of empty tiles along `edge`. Inserting at the top or
    /// left shifts the existing content to keep it put: the spawn, the path
    /// blocks' control points and the decorations move with it.
    pub fn grow(&mut self, edge: Edge)
        requires
            edge is Top ==> old(self).spawn.1 <= i64::MAX - 40,
            edge is Left ==> old(self).spawn.0 <= i64::MAX - 40,
        ensures
            final(self)@ == grown_level(old(self)@, edge),
    {
        let ghost t0 = rows_view(self.tiles@);
        let w = self.width();
        assert(w == grid_width(t0));
        let mut old_rows: Vec<Vec<u32>> = Vec::new();
        std::mem::swap(&mut old_rows, &mut self.tiles);
        match edge {
            Edge::Top => {
                let mut rows: Vec<Vec<u32>> = Vec::new();
                rows.push(zeros(w));
                let ghost z = rows@;
                rows.append(&mut old_rows);
                assert(rows_view(rows@) =~= grown_tiles(t0, edge));
                self.tiles = rows;
                self.spawn = (self.spawn.0, self.spawn.1 + 40);
            },
            Edge::Bottom => {
                let mut rows = old_rows;
                rows.push(zeros(w));
                assert(rows_view(rows@) =~= grown_tiles(t0, edge));
                self.tiles = rows;
            },
            Edge::Left => {
                let rows = edit_rows(&old_rows, RowEdit::PrependZero);
                assert(rows_view(rows@) =~= grown_tiles(t0, edge));
                self.tiles = rows;
                self.spawn = (self.spawn.0 + 40, self.spawn.1);
            },
            Edge::Right => {
                let rows = edit_rows(&old_rows, RowEdit::AppendZero);
                assert(rows_view(rows@) =~= grown_tiles(t0, edge));
                self.tiles = rows;
            },
        }
        self.path_blocks = move_blocks(&self.path_blocks, edge, true);
        self.decorations = move_decos(&self.decorations, edge, 40);
        self.exits = move_exits(&self.exits, edge, true);
    }

    /// Snap the spawn back inside the current grid bounds.
    fn clamp_spawn(&mut self)
        requires
            -0x4000_0000_0000_0000 <= old(self).spawn.0 <= 0x4000_0000_0000_0000,
            -0x4000_0000_0000_0000 <= old(self).spawn.1 <= 0x4000_0000_0000_0000,
        ensures
            final(self).spawn == clamped_spawn(
                old(self).spawn,
                grid_width(rows_view(old(self).tiles@)),
                rows_view(old(self).tiles@).len() as int,
            ),
            final(self).tiles == old(self).tiles,
            final(self).name == old(self).name,
            final(self).name == old(self).name,
            final(self).id == old(self).id,
            final(self).path_blocks == old(self).path_blocks,
            final(self).decorations == old(self).decorations,
            final(self).exits == old(self).exits,
    {
        let (sx, sy) = self.spawn_tile();
        let w = self.width();
        let h = self.height();
        let x = if sx < w.saturating_sub(1) {
            sx
        } else {
            w.saturating_sub(1)
        };
        let y = if sy < h.saturating_sub(1) {
            sy
        } else {
            h.saturating_sub(1)
        };
        assert(x <= 0x0200_0000_0000_0000 && y <= 0x0200_0000_0000_0000);
        self.spawn = ((x as i64) * 40 + 12, (y as i64) * 40 + 2);
    }

    /// Remove the row or column along `edge`. Returns false, leaving the level
    /// untouched, when that would shrink the grid below 1x1. The spawn, the
    /// path blocks' control points and the decorations move with the content,
    /// and the spawn is clamped back inside the grid.
    pub fn shrink(&mut self, edge: Edge) -> (changed: bool)
        requires
            -0x3000_0000_0000_0000 <= old(self).spawn.0 <= 0x3000_0000_0000_0000,
            -0x3000_0000_0000_0000 <= old(self).spawn.1 <= 0x3000_0000_0000_0000,
            edge is Left ==> forall|k: int|
                0 <= k < old(self).tiles@.len() ==> (#[trigger] old(self).tiles@[k])@.len() > 0,
        ensures
            changed == !shrink_refused(rows_view(old(self).tiles@), edge),
            !changed ==> *final(self) == *old(self),
            changed ==> final(self)@ == shrunk_level(old(self)@, edge),
    {
        let ghost t0 = rows_view(self.tiles@);
        let w = self.width();
        let h = self.height();
        match edge {
            Edge::Top | Edge::Bottom => {
                if h <= 1 {
                    return false;
                }
            },
            Edge::Left | Edge::Right => {
                if w <= 1 {
                    return false;
                }
            },
        }
        let mut old_rows: Vec<Vec<u32>> = Vec::new();
        std::mem::swap(&mut old_rows, &mut self.tiles);
        match edge {
            Edge::Top => {
                let mut rows = old_rows;
                rows.remove(0);
                assert(rows_view(rows@) =~= shrunk_tiles(t0, edge));
                self.tiles = rows;
                self.spawn = (self.spawn.0, self.spawn.1 - 40);
            },
            Edge::Bottom => {
                let mut rows = old_rows;
                rows.pop();
                assert(rows_view(rows@) =~= shrunk_tiles(t0, edge));
                self.tiles = rows;
            },
            Edge::Left => {
                let rows = edit_rows(&old_rows, RowEdit::DropFirst);
                assert(rows_view(rows@) =~= shrunk_tiles(t0, edge));
                self.tiles = rows;
                self.spawn = (self.spawn.0 - 40, self.spawn.1);
            },
            Edge::Right => {
                let rows = edit_rows(&old_rows, RowEdit::DropLast);
                assert(rows_view(rows@) =~= shrunk_tiles(t0, edge));
                self.tiles = rows;
            },
        }
        self.clamp_spawn();
        self.path_blocks = move_blocks(&self.path_blocks, edge, false);
        self.decorations = move_decos(&self.decorations, edge, -40);
        self.exits = move_exits(&self.exits, edge, false);
        true
    }
}

} // verus!

verus! {

/// Growing the grid at one edge and then shrinking it at the same edge gives
/// back the same tiles, and a spawn standing on a tile of the grid returns to
/// where it was.
pub proof fn law_grow_then_shrink_restores(t: Seq<Seq<u32>>, x: int, y: int, edge: Edge)
    requires
        t.len() >= 1,
        grid_width(t) >= 1,
        0 <= x < grid_width(t),
        0 <= y < t.len(),
        x < MAX_TEXT_LEN - 1,
        y < MAX_TEXT_LEN - 1,
        x <= usize::MAX,
        y <= usize::MAX,
    ensures
        !shrink_refused(grown_tiles(t, edge), edge),
        shrunk_tiles(grown_tiles(t, edge), edge) == t,
        clamped_spawn(
            shifted_spawn(shifted_spawn(spawn_pixel(x, y), edge, 40), edge, -40),
            grid_width(shrunk_tiles(grown_tiles(t, edge), edge)),
            shrunk_tiles(grown_tiles(t, edge), edge).len() as int,
        ) == spawn_pixel(x, y),
{
    let g = grown_tiles(t, edge);
    let s = shrunk_tiles(g, edge);
    match edge {
        Edge::Top => {
            assert(s =~= t);
        },
        Edge::Bottom => {
            assert(s =~= t);
        },
        Edge::Left => {
            assert(g[0] == seq![tiles::EMPTY] + t[0]);
            assert forall|k: int| 0 <= k < t.len() implies #[trigger] s[k] == t[k] by {
                assert(s[k] =~= t[k]);
            }
            assert(s =~= t);
        },
        Edge::Right => {
            assert(g[0] == t[0].push(tiles::EMPTY));
            assert forall|k: int| 0 <= k < t.len() implies #[trigger] s[k] == t[k] by {
                assert(g[k] == t[k].push(tiles::EMPTY));
                assert(s[k] =~= t[k]);
            }
            assert(s =~= t);
        },
    }
    let p = spawn_pixel(x, y);
    assert(x * 40 <= 9_223_372_036_854_775_720 && y * 40 <= 9_223_372_036_854_775_720)
        by (nonlinear_arith)
        requires
            0 <= x <= 230_584_300_921_369_393,
            0 <= y <= 230_584_300_921_369_393,
    ;
    assert(p.0 == x * 40 + 12 && p.1 == y * 40 + 2);
    assert(p.0 + 40 <= i64::MAX && p.1 + 40 <= i64::MAX);
    let q = shifted_spawn(p, edge, 40);
    match edge {
        Edge::Top => assert(q.1 == p.1 + 40),
        Edge::Left => assert(q.0 == p.0 + 40),
        _ => {},
    }
    assert(shifted_spawn(q, edge, -40) == p);
    assert(spawn_tile_spec(p) == (x, y)) by {
        assert((x * 40 + 12 - 12 + 20) / 40 == x);
        assert((y * 40 + 2 - 2 + 20) / 40 == y);
    }
    assert(s == t);
    assert(sat_usize(x) == x);
    assert(sat_usize(y) == y);
}

/// A control point that growing at `edge` moves by one tile: it is not
/// at the largest `usize` on the axis that moves.
pub open spec fn point_movable(p: (usize, usize), edge: Edge) -> bool {
    match edge {
        Edge::Top => p.1 < usize::MAX,
        Edge::Left => p.0 < usize::MAX,
        _ => true,
    }
}

/// Coordinate text that a move by one tile forward and back gives back: text
/// that is not a whole number, or a whole number written in its shortest form
/// whose moved value is still within `WHOLE_COORD_LIMIT`.
pub open spec fn coord_restorable(t: Seq<char>) -> bool {
    match whole_coord(t) {
        None => true,
        Some(v) => t == whole_text(v) && v + 40 <= WHOLE_COORD_LIMIT as int,
    }
}

/// Whether the decoration coordinate that `edge` moves is restorable.
pub open spec fn deco_restorable(d: DecorationSpec, edge: Edge) -> bool {
    match edge {
        Edge::Top => coord_restorable(d.y),
        Edge::Left => coord_restorable(d.x),
        _ => true,
    }
}

/// The value of whole-number text is within the limit.
pub proof fn lemma_whole_coord_range(t: Seq<char>)
    ensures
        whole_coord(t) matches Some(v) ==> -(WHOLE_COORD_LIMIT as int) <= v
            <= WHOLE_COORD_LIMIT as int,
{
    let b = if t.len() > 0 && (t[0] == '-' || t[0] == '+') {
        t.drop_first()
    } else {
        t
    };
    match find(b, '.') {
        None => if small_digits(b) {
            crate::text::lemma_digits_value_nonneg(b);
        },
        Some(k) => if small_digits(b.take(k)) {
            crate::text::lemma_digits_value_nonneg(b.take(k));
        },
    }
}

/// A whole number within the limit reads back from its own text.
pub proof fn lemma_whole_text_reads_back(w: int)
    requires
        -(WHOLE_COORD_LIMIT as int) <= w <= WHOLE_COORD_LIMIT as int,
    ensures
        whole_coord(whole_text(w)) == Some(w),
{
    let n: nat = if w < 0 {
        (-w) as nat
    } else {
        w as nat
    };
    lemma_decimal_parses(n);
    let d = decimal(n);
    assert forall|j: int| 0 <= j < d.len() implies d[j] != '.' by {
        assert(is_digit(d[j]));
    }
    crate::text::lemma_find_from_none(d, '.', 0);
    assert(is_digit(d[0]));
    if w < 0 {
        assert(whole_text(w).drop_first() =~= d);
    }
}

/// A coordinate moved one tile forward and back is as it was, when it is
/// restorable.
pub proof fn lemma_coord_moves_back(t: Seq<char>)
    requires
        coord_restorable(t),
    ensures
        moved_coord(moved_coord(t, 40), -40) == t,
{
    lemma_whole_coord_range(t);
    match whole_coord(t) {
        None => {},
        Some(v) => {
            lemma_whole_text_reads_back(v + 40);
        },
    }
}

/// Growing a level at one edge and then shrinking it at the same edge gives
/// back the level: its name, id, tiles, spawn, path blocks, decorations and
/// exit routing. This holds when the spawn stands on a tile of the grid, no
/// control point or exit door tile sits at the largest `usize` on the axis that
/// moves, and each decoration coordinate that moves is restorable
/// (`coord_restorable`).
pub proof fn law_shrink_undoes_grow(l: LevelSpec, x: int, y: int, edge: Edge)
    requires
        l.tiles.len() >= 1,
        grid_width(l.tiles) >= 1,
        0 <= x < grid_width(l.tiles),
        0 <= y < l.tiles.len(),
        x < MAX_TEXT_LEN - 1,
        y < MAX_TEXT_LEN - 1,
        x <= usize::MAX,
        y <= usize::MAX,
        l.spawn == spawn_pixel(x, y),
        forall|i: int, k: int|
            0 <= i < l.path_blocks.len() && 0 <= k < l.path_blocks[i].points.len()
                ==> point_movable(#[trigger] l.path_blocks[i].points[k], edge),
        forall|i: int| 0 <= i < l.decorations.len() ==> deco_restorable(#[trigger] l.decorations[i], edge),
        forall|i: int| 0 <= i < l.exits.len() ==> point_movable(#[trigger] l.exits[i].tile, edge),
    ensures
        !shrink_refused(grown_level(l, edge).tiles, edge),
        shrunk_level(grown_level(l, edge), edge) == l,
{
    law_grow_then_shrink_restores(l.tiles, x, y, edge);
    let g = grown_level(l, edge);
    let s = shrunk_level(g, edge);
    assert forall|i: int| 0 <= i < l.path_blocks.len() implies #[trigger] s.path_blocks[i] == l.path_blocks[i] by {
        let ps = l.path_blocks[i].points;
        assert forall|k: int| 0 <= k < ps.len() implies #[trigger] s.path_blocks[i].points[k] == ps[k] by {
            assert(point_movable(l.path_blocks[i].points[k], edge));
        }
        assert(s.path_blocks[i].points =~= ps);
    }
    assert(s.path_blocks =~= l.path_blocks);
    assert forall|i: int| 0 <= i < l.decorations.len() implies #[trigger] s.decorations[i] == l.decorations[i] by {
        assert(deco_restorable(l.decorations[i], edge));
        match edge {
            Edge::Top => lemma_coord_moves_back(l.decorations[i].y),
            Edge::Left => lemma_coord_moves_back(l.decorations[i].x),
            _ => {},
        }
    }
    assert(s.decorations =~= l.decorations);
    assert forall|i: int| 0 <= i < l.exits.len() implies #[trigger] s.exits[i] == l.exits[i] by {
        assert(point_movable(l.exits[i].tile, edge));
    }
    assert(s.exits =~= l.exits);
}

} // verus!

verus! {

/// File `i` is the first that fails to parse, and `e` is what the load
/// reports: its path, a colon, and the parse error.
pub open spec fn first_failure(files: Seq<(String, String)>, i: int, e: Seq<char>) -> bool {
    &&& 0 <= i < files.len()
    &&& forall|j: int| 0 <= j < i ==> parse_spec((#[trigger] files[j]).1@) is Ok
    &&& match parse_spec(files[i].1@) {
        Err(m) => e == files[i].0@ + ": "@ + m,
        Ok(_) => false,
    }
}

/// Parse every level file's text, in order, each given with the path it was
/// read from. The first file that fails to parse fails the whole load, its
/// error prefixed with the file's path.
pub fn parse_all(files: &Vec<(String, String)>) -> (r: Result<Vec<LevelData>, String>)
    requires
        forall|i: int| 0 <= i < files@.len() ==> (#[trigger] files@[i]).1@.len() <= MAX_TEXT_LEN,
    ensures
        r matches Ok(v) ==> v@.len() == files@.len() && forall|i: int|
            0 <= i < files@.len() ==> parse_spec((#[trigger] files@[i]).1@) == Ok::<
                LevelSpec,
                Seq<char>,
            >(v@[i]@),
        r matches Err(e) ==> exists|i: int| #[trigger] first_failure(files@, i, e@),
{
    let mut levels: Vec<LevelData> = Vec::new();
    let mut i: usize = 0;
    while i < files.len()
        invariant
            i <= files@.len(),
            forall|k: int| 0 <= k < files@.len() ==> (#[trigger] files@[k]).1@.len() <= MAX_TEXT_LEN,
            levels@.len() == i,
            forall|k: int|
                0 <= k < i ==> parse_spec((#[trigger] files@[k]).1@) == Ok::<LevelSpec, Seq<char>>(
                    levels@[k]@,
                ),
        decreases files@.len() - i,
    {
        let (path, text) = &files[i];
        match LevelData::parse(text.as_str()) {
            Ok(l) => levels.push(l),
            Err(e) => {
                let mut msg = String::from_str(path.as_str());
                msg.append(": ");
                msg.append(e.as_str());
                assert(first_failure(files@, i as int, msg@));
                let r: Result<Vec<LevelData>, String> = Err(msg);
                assert(r matches Err(e) && e@ == msg@);
                return r;
            },
        }
        i = i + 1;
    }
    Ok(levels)
}

} // verus!

verus! {

/// Placing the spawn on a tile and reading back the spawn's tile gives that
/// tile: `spawn_tile` inverts the pixel placement.
pub proof fn law_spawn_tile_inverts_placement(x: int, y: int)
    requires
        0 <= x < MAX_TEXT_LEN,
        0 <= y < MAX_TEXT_LEN,
    ensures
        spawn_tile_spec(spawn_pixel(x, y)) == (x, y),
{
    assert((x * 40 + 12 - 12 + 20) / 40 == x);
    assert((y * 40 + 2 - 2 + 20) / 40 == y);
}

} // verus!

verus! {

pub proof fn lemma_scan_row_len(
    line: Seq<char>,
    y: int,
    x: int,
    acc: Seq<u32>,
    spawn: Option<(int, int)>,
)
    requires
        0 <= x <= line.len(),
    ensures
        scan_row(line, y, x, acc, spawn) matches Ok((r, _)) ==> r.len() == acc.len() + line.len()
            - x,
    decreases line.len() - x,
{
    if x < line.len() {
        let c = line[x];
        if c == 'P' {
            if spawn is None {
                lemma_scan_row_len(line, y, x + 1, acc.push(tiles::EMPTY), Some((x, y)));
            }
        } else {
            match char_tile(c) {
                Some(t) => lemma_scan_row_len(line, y, x + 1, acc.push(t), spawn),
                None => {},
            }
        }
    }
}

pub proof fn lemma_scan_grid_rect(
    gl: Seq<Seq<char>>,
    width: int,
    y: int,
    rows: Seq<Seq<u32>>,
    spawn: Option<(int, int)>,
)
    requires
        0 <= y <= gl.len(),
        rows.len() == y,
        forall|k: int| 0 <= k < gl.len() ==> (#[trigger] gl[k]).len() <= width,
        forall|k: int| 0 <= k < rows.len() ==> (#[trigger] rows[k]).len() == width,
    ensures
        scan_grid(gl, width, y, rows, spawn) matches Ok((r, _)) ==> r.len() == gl.len() && forall|
            k: int,
        | 0 <= k < r.len() ==> (#[trigger] r[k]).len() == width,
    decreases gl.len() - y,
{
    if y < gl.len() {
        lemma_scan_row_len(gl[y], y, 0, seq![], spawn);
        match scan_row(gl[y], y, 0, seq![], spawn) {
            Err(_) => {},
            Ok((row, sp)) => {
                let nrows = rows.push(pad(row, width));
                assert(pad(row, width).len() == width);
                assert forall|k: int| 0 <= k < nrows.len() implies (#[trigger] nrows[k]).len()
                    == width by {
                    if k < rows.len() {
                        assert(nrows[k] == rows[k]);
                    }
                }
                lemma_scan_grid_rect(gl, width, y + 1, nrows, sp);
            },
        }
    }
}

/// Every level that parses has a non-empty grid whose rows all have the
/// same width: short rows are padded with empty tiles.
pub proof fn law_parsed_grid_is_rectangular(text: Seq<char>)
    ensures
        parse_spec(text) matches Ok(l) ==> l.tiles.len() >= 1 && forall|k: int|
            0 <= k < l.tiles.len() ==> (#[trigger] l.tiles[k]).len() == l.tiles[0].len(),
{
    let ls = lines(text);
    match scan_headers(ls, 0, empty_headers()) {
        Err(_) => {},
        Ok((h, g)) => {
            let gl = grid_lines(ls, g);
            if gl.len() > 0 {
                lemma_max_len_ge(gl);
                lemma_scan_grid_rect(gl, max_len(gl), 0, seq![], None);
            }
        },
    }
}

} // verus!

verus! {

/// Where a spawn found so far may lie while scanning row `y` up to column
/// `x`: in an earlier row, or earlier in this row on an empty tile of `acc`.
pub open spec fn spawn_before(spawn: Option<(int, int)>, y: int, x: int, acc: Seq<u32>) -> bool {
    spawn matches Some(s) ==> s.1 < y || (s.1 == y && 0 <= s.0 < x && acc[s.0] == tiles::EMPTY)
}

pub proof fn lemma_scan_row_spawn(
    line: Seq<char>,
    y: int,
    x: int,
    acc: Seq<u32>,
    spawn: Option<(int, int)>,
)
    requires
        0 <= y,
        0 <= x <= line.len(),
        acc.len() == x,
        spawn_before(spawn, y, x, acc),
        spawn matches Some(s) ==> 0 <= s.0 && 0 <= s.1,
    ensures
        scan_row(line, y, x, acc, spawn) matches Ok((r, sp)) ==> r.len() == line.len()
            && spawn_before(sp, y, line.len() as int, r) && (sp matches Some(s) ==> 0 <= s.0
            && 0 <= s.1 && (sp == spawn || s.1 == y)) && (spawn is Some ==> sp == spawn),
    decreases line.len() - x,
{
    if x < line.len() {
        let c = line[x];
        if c == 'P' {
            if spawn is None {
                let na = acc.push(tiles::EMPTY);
                lemma_scan_row_spawn(line, y, x + 1, na, Some((x, y)));
            }
        } else {
            match char_tile(c) {
                Some(t) => {
                    let na = acc.push(t);
                    if let Some(s) = spawn {
                        if s.1 == y {
                            assert(na[s.0] == acc[s.0]);
                        }
                    }
                    lemma_scan_row_spawn(line, y, x + 1, na, spawn);
                },
                None => {},
            }
        }
    }
}

/// The spawn tile found so far lies in `rows` on an empty tile.
pub open spec fn spawn_in_rows(spawn: Option<(int, int)>, rows: Seq<Seq<u32>>) -> bool {
    spawn matches Some(s) ==> 0 <= s.1 < rows.len() && 0 <= s.0 < rows[s.1].len()
        && rows[s.1][s.0] == tiles::EMPTY
}

pub proof fn lemma_scan_grid_spawn(
    gl: Seq<Seq<char>>,
    width: int,
    y: int,
    rows: Seq<Seq<u32>>,
    spawn: Option<(int, int)>,
)
    requires
        0 <= y <= gl.len(),
        rows.len() == y,
        forall|k: int| 0 <= k < gl.len() ==> (#[trigger] gl[k]).len() <= width,
        spawn_in_rows(spawn, rows),
    ensures
        scan_grid(gl, width, y, rows, spawn) matches Ok((r, sp)) ==> spawn_in_rows(sp, r),
    decreases gl.len() - y,
{
    if y < gl.len() {
        lemma_scan_row_spawn(gl[y], y, 0, seq![], spawn);
        match scan_row(gl[y], y, 0, seq![], spawn) {
            Err(_) => {},
            Ok((row, sp)) => {
                let p = pad(row, width);
                let nrows = rows.push(p);
                assert(row.len() == gl[y].len());
                assert(p.len() == width);
                if let Some(s) = sp {
                    if s.1 == y {
                        assert(p[s.0] == row[s.0]);
                    } else {
                        assert(sp == spawn);
                        assert(nrows[s.1] == rows[s.1]);
                    }
                }
                lemma_scan_grid_spawn(gl, width, y + 1, nrows, sp);
            },
        }
    }
}

/// Every level that parses has its spawn standing on an empty tile of its
/// grid (the `P` cell itself is empty space).
pub proof fn law_parsed_spawn_is_on_an_empty_tile(text: Seq<char>)
    ensures
        parse_spec(text) matches Ok(l) ==> exists|x: int, y: int|
            0 <= y < l.tiles.len() && 0 <= x < l.tiles[y].len() && l.tiles[y][x] == tiles::EMPTY
                && #[trigger] spawn_pixel(x, y) == l.spawn,
{
    let ls = lines(text);
    match scan_headers(ls, 0, empty_headers()) {
        Err(_) => {},
        Ok((h, g)) => {
            let gl = grid_lines(ls, g);
            if gl.len() > 0 {
                lemma_max_len_ge(gl);
                lemma_scan_grid_spawn(gl, max_len(gl), 0, seq![], None);
                match scan_grid(gl, max_len(gl), 0, seq![], None) {
                    Err(_) => {},
                    Ok((rows, sp)) => {
                        if let Some(t) = sp {
                            assert(spawn_pixel(t.0, t.1) == spawn_pixel(t.0, t.1));
                        }
                    },
                }
            }
        },
    }
}

} // verus!
