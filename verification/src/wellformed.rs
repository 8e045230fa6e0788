//! Every level that parses is well formed, so writing it out and parsing the
//! text again gives it back.
use vstd::prelude::*;
use crate::text::{
    find, find_from, has_no_ws, is_float_literal, is_ws, lines, lines_acc, strip_cr, tokens,
    tokens_acc, trim, trim_end, trim_start,
};
use crate::roundtrip::{has_no_char, plain_coord, plain_dest};
use crate::level::{
    tile_char, bad_segment_from, char_tile, parse_exit_spec, DecoLayer, drop_trailing_empty, empty_headers, grid_lines, grid_width,
    lemma_drop_trailing_prefix, lemma_max_len_bound, lemma_max_len_ge, lemma_scan_grid_rect,
    lemma_scan_grid_spawn, law_spawn_tile_inverts_placement, max_len, pad, parse_block_spec,
    parse_deco_spec, parse_points, parse_spec, scan_grid, scan_headers, scan_row,
    spawn_in_rows, spawn_pixel, spawn_tile_spec, to_text_spec, HeaderState, LevelSpec,
    MAX_TEXT_LEN, written_coord, whole_coord, whole_text, lemma_whole_coord_range,
    lemma_whole_text_reads_back, DecorationSpec, deco_lines, header_lines, text_lines, Edge,
    grown_level, shrunk_level, law_shrink_undoes_grow, point_movable, deco_restorable,
};
use crate::roundtrip::{law_to_text_round_trips, valid_tile, valid_tiles, well_formed_level};
use crate::tiles;

verus! {

proof fn lemma_lines_acc_no_newline(s: Seq<char>)
    ensures
        has_no_char(lines_acc(s).1, '\n'),
        forall|k: int|
            0 <= k < lines_acc(s).0.len() ==> has_no_char(#[trigger] lines_acc(s).0[k], '\n'),
    decreases s.len(),
{
    if s.len() > 0 {
        lemma_lines_acc_no_newline(s.drop_last());
        let (d, c) = lines_acc(s.drop_last());
        if s.last() == '\n' {
            let sc = strip_cr(c);
            assert(has_no_char(sc, '\n')) by {
                if c.len() > 0 && c.last() == '\r' {
                    assert forall|i: int| 0 <= i < sc.len() implies sc[i] != '\n' by {
                        assert(sc[i] == c[i]);
                    }
                }
            }
            assert forall|k: int| 0 <= k < d.push(sc).len() implies has_no_char(
                #[trigger] d.push(sc)[k],
                '\n',
            ) by {
                if k < d.len() {
                    assert(d.push(sc)[k] == d[k]);
                }
            }
        }
    }
}

/// No line of a text holds a line break.
pub proof fn lemma_lines_no_newline(s: Seq<char>)
    ensures
        forall|k: int| 0 <= k < lines(s).len() ==> has_no_char(#[trigger] lines(s)[k], '\n'),
{
    lemma_lines_acc_no_newline(s);
    let (d, c) = lines_acc(s);
    if c.len() > 0 {
        assert forall|k: int| 0 <= k < d.push(c).len() implies has_no_char(
            #[trigger] d.push(c)[k],
            '\n',
        ) by {
            if k < d.len() {
                assert(d.push(c)[k] == d[k]);
            }
        }
    }
}

proof fn lemma_trim_start_suffix(s: Seq<char>)
    ensures
        trim_start(s).len() <= s.len(),
        trim_start(s) == s.skip(s.len() - trim_start(s).len()),
        trim_start(s).len() > 0 ==> !is_ws(trim_start(s)[0]),
    decreases s.len(),
{
    if s.len() > 0 && is_ws(s[0]) {
        lemma_trim_start_suffix(s.drop_first());
        let t = trim_start(s.drop_first());
        assert(s.drop_first().skip(s.drop_first().len() - t.len()) =~= s.skip(s.len() - t.len()));
    } else {
        assert(s.skip(0) =~= s);
    }
}

proof fn lemma_trim_end_prefix(s: Seq<char>)
    ensures
        trim_end(s).len() <= s.len(),
        trim_end(s) == s.take(trim_end(s).len() as int),
        trim_end(s).len() > 0 ==> !is_ws(trim_end(s).last()),
    decreases s.len(),
{
    if s.len() > 0 && is_ws(s.last()) {
        lemma_trim_end_prefix(s.drop_last());
        let t = trim_end(s.drop_last());
        assert(s.drop_last().take(t.len() as int) =~= s.take(t.len() as int));
    } else {
        assert(s.take(s.len() as int) =~= s);
    }
}

/// Trimming keeps a run of the characters of `s`, and what it keeps starts
/// and ends with a character that is not whitespace.
pub proof fn lemma_trim(s: Seq<char>)
    ensures
        trim(s).len() <= s.len(),
        0 <= s.len() - trim_start(s).len() <= s.len() - trim(s).len(),
        trim(s) == s.subrange(
            s.len() - trim_start(s).len(),
            s.len() - trim_start(s).len() + trim(s).len(),
        ),
        trim(s).len() > 0 ==> !is_ws(trim(s)[0]) && !is_ws(trim(s).last()),
{
    let t = trim_start(s);
    lemma_trim_start_suffix(s);
    lemma_trim_end_prefix(t);
    let r = trim_end(t);
    let a = s.len() - t.len();
    assert(r.len() <= t.len());
    assert(r =~= s.subrange(a, a + r.len()));
    if r.len() > 0 {
        assert(r[0] == t[0]);
    }
}

/// Trimming brings in no character that `s` does not hold.
pub proof fn lemma_trim_no_char(s: Seq<char>, c: char)
    requires
        has_no_char(s, c),
    ensures
        has_no_char(trim(s), c),
{
    lemma_trim(s);
    let a = s.len() - trim_start(s).len();
    assert forall|i: int| 0 <= i < trim(s).len() implies trim(s)[i] != c by {
        assert(trim(s)[i] == s[a + i]);
    }
}

proof fn lemma_tokens_acc_no_ws(s: Seq<char>)
    ensures
        has_no_ws(tokens_acc(s).1),
        forall|k: int| 0 <= k < tokens_acc(s).0.len() ==> has_no_ws(#[trigger] tokens_acc(s).0[k]),
        forall|k: int| 0 <= k < tokens_acc(s).0.len() ==> (#[trigger] tokens_acc(s).0[k]).len() > 0,
    decreases s.len(),
{
    if s.len() > 0 {
        lemma_tokens_acc_no_ws(s.drop_last());
        let (d, c) = tokens_acc(s.drop_last());
        if is_ws(s.last()) {
            if c.len() > 0 {
                assert forall|k: int| 0 <= k < d.push(c).len() implies has_no_ws(
                    #[trigger] d.push(c)[k],
                ) && d.push(c)[k].len() > 0 by {
                    if k < d.len() {
                        assert(d.push(c)[k] == d[k]);
                    }
                }
            }
        } else {
            let nc = c.push(s.last());
            assert forall|i: int| 0 <= i < nc.len() implies !is_ws(#[trigger] nc[i]) by {
                if i < c.len() {
                    assert(nc[i] == c[i]);
                }
            }
        }
    }
}

/// Every token is non-empty and holds no whitespace.
pub proof fn lemma_tokens_no_ws(s: Seq<char>)
    ensures
        forall|k: int| 0 <= k < tokens(s).len() ==> has_no_ws(#[trigger] tokens(s)[k]),
        forall|k: int| 0 <= k < tokens(s).len() ==> (#[trigger] tokens(s)[k]).len() > 0,
{
    lemma_tokens_acc_no_ws(s);
    let (d, c) = tokens_acc(s);
    if c.len() > 0 {
        assert forall|k: int| 0 <= k < d.push(c).len() implies has_no_ws(#[trigger] d.push(c)[k])
            && d.push(c)[k].len() > 0 by {
            if k < d.len() {
                assert(d.push(c)[k] == d[k]);
            }
        }
    }
}

/// Nothing before the first `c` found from `i` on is a `c`.
pub proof fn lemma_find_from_first(s: Seq<char>, c: char, i: int)
    requires
        0 <= i,
    ensures
        find_from(s, c, i) matches Some(k) ==> forall|j: int| i <= j < k ==> s[j] != c,
    decreases s.len() - i,
{
    if 0 <= i < s.len() && s[i] != c {
        lemma_find_from_first(s, c, i + 1);
    }
}

/// A float literal is never empty.
pub proof fn lemma_float_literal_nonempty(s: Seq<char>)
    requires
        is_float_literal(s),
    ensures
        s.len() > 0,
{
    if s.len() == 0 {
        assert(find_from(s, 'e', 0) is None);
        assert(crate::text::find_exp_from(s, 0) is None);
        assert(!crate::text::is_mantissa(s));
    }
}

proof fn lemma_parse_points_len(toks: Seq<Seq<char>>, i: int, acc: Seq<(usize, usize)>)
    requires
        0 <= i <= toks.len(),
    ensures
        parse_points(toks, i, acc) matches Ok(p) ==> p.len() == acc.len() + toks.len() - i,
    decreases toks.len() - i,
{
    if i < toks.len() {
        match crate::level::parse_point(toks[i]) {
            Err(_) => {},
            Ok(p) => lemma_parse_points_len(toks, i + 1, acc.push(p)),
        }
    }
}

/// A block that parses has two or more points and only axis-aligned segments.
pub proof fn lemma_parsed_block_valid(value: Seq<char>)
    ensures
        parse_block_spec(value) matches Ok(b) ==> b.points.len() >= 2 && bad_segment_from(
            b.points,
            b.closed,
            0,
        ) is None,
{
    let all = tokens(value);
    let closed = all.len() > 0 && all.last() == crate::level::kw_loop();
    let toks = if closed {
        all.drop_last()
    } else {
        all
    };
    lemma_parse_points_len(toks, 0, seq![]);
}

/// A decoration that parses has coordinates `to_text` can write back and a
/// sprite of at least 1.
pub proof fn lemma_parsed_deco_valid(value: Seq<char>, layer: DecoLayer)
    ensures
        parse_deco_spec(value, layer) matches Ok(d) ==> plain_coord(d.x) && plain_coord(d.y)
            && has_no_char(d.x, ',') && d.sprite >= 1,
{
    let toks = tokens(value);
    lemma_tokens_no_ws(value);
    if toks.len() == 2 {
        let pos = toks[0];
        assert(has_no_ws(pos));
        crate::text::lemma_find_from_range(pos, ',', 0);
        lemma_find_from_first(pos, ',', 0);
        match find(pos, ',') {
            None => {},
            Some(c) => {
                let x = pos.take(c);
                let y = pos.skip(c + 1);
                assert(has_no_ws(x)) by {
                    assert forall|i: int| 0 <= i < x.len() implies !is_ws(#[trigger] x[i]) by {
                        assert(x[i] == pos[i]);
                    }
                }
                assert(has_no_ws(y)) by {
                    assert forall|i: int| 0 <= i < y.len() implies !is_ws(#[trigger] y[i]) by {
                        assert(y[i] == pos[i + c + 1]);
                    }
                }
                assert(has_no_char(x, ',')) by {
                    assert forall|i: int| 0 <= i < x.len() implies x[i] != ',' by {
                        assert(x[i] == pos[i]);
                    }
                }
                if is_float_literal(x) {
                    lemma_float_literal_nonempty(x);
                }
                if is_float_literal(y) {
                    lemma_float_literal_nonempty(y);
                }
            },
        }
    }
}

/// An exit that parses has a one-word destination.
pub proof fn lemma_parsed_exit_valid(value: Seq<char>)
    ensures
        parse_exit_spec(value) matches Ok(x) ==> plain_dest(x.dest),
{
    lemma_tokens_no_ws(value);
}

/// Header values read so far that `to_text` writes back unchanged: a name
/// without line breaks or surrounding whitespace, valid blocks and
/// decorations.
pub open spec fn good_headers(h: HeaderState) -> bool {
    &&& has_no_char(h.name, '\n')
    &&& h.name.len() > 0 ==> !is_ws(h.name[0]) && !is_ws(h.name.last())
    &&& has_no_char(h.id, '\n')
    &&& h.id.len() > 0 ==> !is_ws(h.id[0]) && !is_ws(h.id.last())
    &&& forall|i: int| 0 <= i < h.exits.len() ==> plain_dest((#[trigger] h.exits[i]).dest)
    &&& forall|i: int|
        0 <= i < h.blocks.len() ==> (#[trigger] h.blocks[i]).points.len() >= 2 && bad_segment_from(
            h.blocks[i].points,
            h.blocks[i].closed,
            0,
        ) is None
    &&& forall|i: int|
        0 <= i < h.decos.len() ==> plain_coord((#[trigger] h.decos[i]).x) && plain_coord(
            h.decos[i].y,
        ) && has_no_char(h.decos[i].x, ',') && h.decos[i].sprite >= 1
}

/// Scanning header lines without line breaks keeps the headers good, and
/// the grid starts within the lines.
pub proof fn lemma_scan_headers_good(ls: Seq<Seq<char>>, i: int, st: HeaderState)
    requires
        0 <= i,
        forall|k: int| 0 <= k < ls.len() ==> has_no_char(#[trigger] ls[k], '\n'),
        good_headers(st),
    ensures
        scan_headers(ls, i, st) matches Ok((h, g)) ==> good_headers(h) && 0 <= g <= ls.len(),
    decreases ls.len() - i,
{
    if i < ls.len() {
        let t = trim(ls[i]);
        if t.len() == 0 {
            lemma_scan_headers_good(ls, i + 1, st);
        } else {
            match find(t, ':') {
                None => {},
                Some(p) => {
                    crate::text::lemma_find_from_range(t, ':', 0);
                    let key = trim(t.take(p));
                    let value = trim(t.skip(p + 1));
                    let rest = t.skip(p + 1);
                    lemma_trim_no_char(ls[i], '\n');
                    assert(has_no_char(rest, '\n')) by {
                        assert forall|j: int| 0 <= j < rest.len() implies rest[j] != '\n' by {
                            assert(rest[j] == t[j + p + 1]);
                        }
                    }
                    lemma_trim_no_char(rest, '\n');
                    lemma_trim(rest);
                    if key == crate::level::kw_name() {
                        lemma_scan_headers_good(ls, i + 1, HeaderState { name: value, ..st });
                    } else if key == crate::level::kw_id() {
                        lemma_scan_headers_good(ls, i + 1, HeaderState { id: value, ..st });
                    } else if key == crate::level::kw_block() {
                        lemma_parsed_block_valid(value);
                        match parse_block_spec(value) {
                            Err(_) => {},
                            Ok(b) => {
                                let nb = st.blocks.push(b);
                                let ns = HeaderState { blocks: nb, ..st };
                                assert forall|k: int| 0 <= k < nb.len() implies (
                                #[trigger] nb[k]).points.len() >= 2 && bad_segment_from(
                                    nb[k].points,
                                    nb[k].closed,
                                    0,
                                ) is None by {
                                    if k < st.blocks.len() {
                                        assert(nb[k] == st.blocks[k]);
                                    }
                                }
                                lemma_scan_headers_good(ls, i + 1, ns);
                            },
                        }
                    } else if key == crate::level::kw_deco() || key == crate::level::kw_fgdeco() {
                        let layer = if key == crate::level::kw_deco() {
                            DecoLayer::Background
                        } else {
                            DecoLayer::Foreground
                        };
                        lemma_parsed_deco_valid(value, layer);
                        match parse_deco_spec(value, layer) {
                            Err(_) => {},
                            Ok(d) => {
                                let nd = st.decos.push(d);
                                let ns = HeaderState { decos: nd, ..st };
                                assert forall|k: int| 0 <= k < nd.len() implies plain_coord(
                                    (#[trigger] nd[k]).x,
                                ) && plain_coord(nd[k].y) && has_no_char(nd[k].x, ',')
                                    && nd[k].sprite >= 1 by {
                                    if k < st.decos.len() {
                                        assert(nd[k] == st.decos[k]);
                                    }
                                }
                                lemma_scan_headers_good(ls, i + 1, ns);
                            },
                        }
                    } else if key == crate::level::kw_exit() {
                        lemma_parsed_exit_valid(value);
                        match parse_exit_spec(value) {
                            Err(_) => {},
                            Ok(x) => {
                                let ne = st.exits.push(x);
                                let ns = HeaderState { exits: ne, ..st };
                                assert forall|k: int| 0 <= k < ne.len() implies plain_dest(
                                    (#[trigger] ne[k]).dest,
                                ) by {
                                    if k < st.exits.len() {
                                        assert(ne[k] == st.exits[k]);
                                    }
                                }
                                lemma_scan_headers_good(ls, i + 1, ns);
                            },
                        }
                    }
                },
            }
        }
    }
}

proof fn lemma_scan_row_valid(
    line: Seq<char>,
    y: int,
    x: int,
    acc: Seq<u32>,
    spawn: Option<(int, int)>,
)
    requires
        forall|k: int| 0 <= k < acc.len() ==> valid_tile(#[trigger] acc[k]),
    ensures
        scan_row(line, y, x, acc, spawn) matches Ok((r, _)) ==> forall|k: int|
            0 <= k < r.len() ==> valid_tile(#[trigger] r[k]),
    decreases line.len() - x,
{
    if 0 <= x < line.len() {
        let c = line[x];
        let t = if c == 'P' {
            tiles::EMPTY
        } else {
            match char_tile(c) {
                Some(t) => t,
                None => 0,
            }
        };
        let na = acc.push(t);
        assert forall|k: int| 0 <= k < na.len() implies valid_tile(#[trigger] na[k]) by {
            if k < acc.len() {
                assert(na[k] == acc[k]);
            }
        }
        if c == 'P' {
            if spawn is None {
                lemma_scan_row_valid(line, y, x + 1, na, Some((x, y)));
            }
        } else {
            lemma_scan_row_valid(line, y, x + 1, na, spawn);
        }
    }
}

proof fn lemma_scan_grid_valid(
    gl: Seq<Seq<char>>,
    width: int,
    y: int,
    rows: Seq<Seq<u32>>,
    spawn: Option<(int, int)>,
)
    requires
        valid_tiles(rows),
    ensures
        scan_grid(gl, width, y, rows, spawn) matches Ok((r, _)) ==> valid_tiles(r),
    decreases gl.len() - y,
{
    if 0 <= y < gl.len() {
        lemma_scan_row_valid(gl[y], y, 0, seq![], spawn);
        match scan_row(gl[y], y, 0, seq![], spawn) {
            Err(_) => {},
            Ok((row, sp)) => {
                let p = pad(row, width);
                let nrows = rows.push(p);
                assert forall|j: int, k: int| 0 <= j < nrows.len() && 0 <= k < nrows[j].len()
                    implies valid_tile(#[trigger] nrows[j][k]) by {
                    if j < rows.len() {
                        assert(nrows[j] == rows[j]);
                    } else if k < row.len() {
                        assert(p[k] == row[k]);
                    } else {
                        assert(p[k] == tiles::EMPTY);
                    }
                }
                lemma_scan_grid_valid(gl, width, y + 1, nrows, sp);
            },
        }
    }
}

proof fn lemma_find_exp_none(s: Seq<char>, i: int)
    requires
        0 <= i,
        crate::text::all_digits(s),
    ensures
        crate::text::find_exp_from(s, i) is None,
    decreases s.len() - i,
{
    if i < s.len() {
        assert(crate::text::is_digit(s[i]));
        lemma_find_exp_none(s, i + 1);
    }
}

/// The text a whole number is written as can be written back and read again.
pub proof fn lemma_whole_text_plain(v: int)
    ensures
        plain_coord(whole_text(v)),
        has_no_char(whole_text(v), ','),
{
    let n: nat = if v < 0 {
        (-v) as nat
    } else {
        v as nat
    };
    crate::roundtrip::lemma_decimal_plain(n);
    let d = crate::text::decimal(n);
    let w = whole_text(v);
    assert(crate::text::is_digit(d[0]));
    lemma_find_exp_none(d, 0);
    assert forall|i: int| 0 <= i < d.len() implies crate::text::is_digit(#[trigger] d[i]) || d[i]
        == '.' by {}
    assert(crate::text::is_mantissa(d));
    if v < 0 {
        assert(w.drop_first() =~= d);
        assert forall|i: int| 0 <= i < w.len() implies !is_ws(#[trigger] w[i]) && w[i] != ',' by {
            if i > 0 {
                assert(w[i] == d[i - 1]);
            }
        }
    }
}

/// Writing a coordinate a second time changes nothing.
pub proof fn lemma_written_coord_idempotent(t: Seq<char>)
    ensures
        written_coord(written_coord(t)) == written_coord(t),
{
    lemma_whole_coord_range(t);
    if let Some(v) = whole_coord(t) {
        lemma_whole_text_reads_back(v);
    }
}

/// The level with every decoration coordinate as `to_text` writes it.
pub open spec fn written_level(l: LevelSpec) -> LevelSpec {
    LevelSpec {
        decorations: Seq::new(
            l.decorations.len(),
            |i: int|
                DecorationSpec {
                    x: written_coord(l.decorations[i].x),
                    y: written_coord(l.decorations[i].y),
                    sprite: l.decorations[i].sprite,
                    layer: l.decorations[i].layer,
                },
        ),
        ..l
    }
}

/// A level is written out as the level with its coordinates in written form.
pub proof fn lemma_written_level_text(l: LevelSpec)
    ensures
        to_text_spec(written_level(l)) == to_text_spec(l),
{
    let c = written_level(l);
    assert forall|i: int| 0 <= i < l.decorations.len() implies #[trigger] deco_lines(
        c.decorations,
    )[i] == deco_lines(l.decorations)[i] by {
        lemma_written_coord_idempotent(l.decorations[i].x);
        lemma_written_coord_idempotent(l.decorations[i].y);
    }
    assert(deco_lines(c.decorations) =~= deco_lines(l.decorations));
    assert(header_lines(c) == header_lines(l));
    assert(text_lines(c) == text_lines(l));
}

/// Every level that parses is well formed once its decoration coordinates
/// are in written form: a name without line breaks or surrounding
/// whitespace, path blocks of two or more axis-aligned points, decorations
/// with plain-number coordinates and a sprite of at least 1, and a non-empty
/// rectangular grid of tile ids the format can express, whose spawn stands
/// on an empty tile inside it.
pub proof fn law_parsed_level_is_well_formed(text: Seq<char>)
    requires
        text.len() <= MAX_TEXT_LEN,
    ensures
        parse_spec(text) matches Ok(l) ==> well_formed_level(written_level(l)) && grid_width(
            l.tiles,
        ) <= text.len() && l.tiles.len() <= text.len(),
{
    let ls = lines(text);
    lemma_lines_no_newline(text);
    crate::text::lemma_lines_bound(text);
    assert(good_headers(empty_headers()));
    lemma_scan_headers_good(ls, 0, empty_headers());
    match scan_headers(ls, 0, empty_headers()) {
        Err(_) => {},
        Ok((h, g)) => {
            let gl = grid_lines(ls, g);
            let full = Seq::new((ls.len() - g) as nat, |k: int| crate::text::trim_end(ls[g + k]));
            lemma_drop_trailing_prefix(full);
            if gl.len() > 0 {
                let w = max_len(gl);
                lemma_max_len_ge(gl);
                assert forall|k: int| 0 <= k < gl.len() implies (#[trigger] gl[k]).len()
                    <= text.len() by {
                    assert(gl[k] == full[k]);
                    lemma_trim_end_prefix(ls[g + k]);
                }
                lemma_max_len_bound(gl, text.len() as int);
                assert(gl.last().len() > 0);
                assert(gl[gl.len() - 1].len() <= w);
                lemma_scan_grid_rect(gl, w, 0, seq![], None);
                lemma_scan_grid_spawn(gl, w, 0, seq![], None);
                lemma_scan_grid_valid(gl, w, 0, seq![], None);
                match scan_grid(gl, w, 0, seq![], None) {
                    Err(_) => {},
                    Ok((rows, sp)) => {
                        if let Some(t) = sp {
                            let l = parse_spec(text)->Ok_0;
                            assert(l.tiles == rows);
                            assert(rows[0].len() == w);
                            assert(spawn_in_rows(sp, rows));
                            law_spawn_tile_inverts_placement(t.0, t.1);
                            assert(spawn_tile_spec(l.spawn) == t);
                            assert(grid_width(l.tiles) == w);
                            let c = written_level(l);
                            assert forall|i: int| 0 <= i < c.decorations.len() implies plain_coord(
                                (#[trigger] c.decorations[i]).x,
                            ) && plain_coord(c.decorations[i].y) && has_no_char(
                                c.decorations[i].x,
                                ',',
                            ) && c.decorations[i].sprite >= 1 && written_coord(c.decorations[i].x)
                                == c.decorations[i].x && written_coord(c.decorations[i].y)
                                == c.decorations[i].y by {
                                let d = l.decorations[i];
                                assert(h.decos[i] == d);
                                lemma_written_coord_idempotent(d.x);
                                lemma_written_coord_idempotent(d.y);
                                if let Some(v) = whole_coord(d.x) {
                                    lemma_whole_text_plain(v + 0);
                                }
                                if let Some(v) = whole_coord(d.y) {
                                    lemma_whole_text_plain(v + 0);
                                }
                            }
                        }
                    },
                }
            }
        },
    }
}

/// Parsing the text that `to_text` writes for a level that was parsed gives
/// that level back, with each whole-number decoration coordinate in its
/// shortest decimal form (a level whose coordinates are already in that form
/// comes back unchanged).
pub proof fn law_parsed_level_round_trips(text: Seq<char>)
    requires
        text.len() <= MAX_TEXT_LEN,
    ensures
        parse_spec(text) matches Ok(l) ==> parse_spec(to_text_spec(l)) == Ok::<LevelSpec, Seq<char>>(
            written_level(l),
        ),
{
    law_parsed_level_is_well_formed(text);
    if let Ok(l) = parse_spec(text) {
        lemma_written_level_text(l);
        law_to_text_round_trips(written_level(l));
    }
}

/// For a level that parses, growing it at one edge and shrinking it at that
/// edge gives it back, when no control point or exit door tile sits at the
/// largest `usize` on the axis that moves and each decoration coordinate that
/// moves is restorable (`coord_restorable`); the text is short enough that
/// the grown spawn stays within `i64`.
pub proof fn law_parsed_level_shrink_undoes_grow(text: Seq<char>, edge: Edge)
    requires
        text.len() < MAX_TEXT_LEN - 1,
        text.len() <= usize::MAX,
        parse_spec(text) matches Ok(l) ==> {
            &&& forall|i: int, k: int|
                0 <= i < l.path_blocks.len() && 0 <= k < l.path_blocks[i].points.len()
                    ==> point_movable(#[trigger] l.path_blocks[i].points[k], edge)
            &&& forall|i: int|
                0 <= i < l.decorations.len() ==> deco_restorable(#[trigger] l.decorations[i], edge)
            &&& forall|i: int| 0 <= i < l.exits.len() ==> point_movable(#[trigger] l.exits[i].tile, edge)
        },
    ensures
        parse_spec(text) matches Ok(l) ==> shrunk_level(grown_level(l, edge), edge) == l,
{
    law_parsed_level_is_well_formed(text);
    if let Ok(l) = parse_spec(text) {
        let c = written_level(l);
        let st = spawn_tile_spec(l.spawn);
        assert(c.tiles == l.tiles && c.spawn == l.spawn);
        law_shrink_undoes_grow(l, st.0, st.1, edge);
    }
}

/// The grid characters and the tile ids they stand for, both ways: `.`,
/// space and `0` are empty space (0); `1` and `3` to `8` are those ids; `^`,
/// `>`, `v`, `<` are the moving tiles 9 to 12; `E` is the exit (13); `C` a
/// coin (14); `S` a secret exit (16); `R` a red coin (17). No other
/// character is a tile (`P`, the spawn, is read separately), and every id
/// without a character of its own is written as `.`.
pub proof fn law_grid_characters(c: char, t: u32)
    ensures
        char_tile(c) == Some(0u32) <==> (c == '.' || c == ' ' || c == '0'),
        char_tile(c) == Some(1u32) <==> c == '1',
        char_tile(c) == Some(3u32) <==> c == '3',
        char_tile(c) == Some(4u32) <==> c == '4',
        char_tile(c) == Some(5u32) <==> c == '5',
        char_tile(c) == Some(6u32) <==> c == '6',
        char_tile(c) == Some(7u32) <==> c == '7',
        char_tile(c) == Some(8u32) <==> c == '8',
        char_tile(c) == Some(9u32) <==> c == '^',
        char_tile(c) == Some(10u32) <==> c == '>',
        char_tile(c) == Some(11u32) <==> c == 'v',
        char_tile(c) == Some(12u32) <==> c == '<',
        char_tile(c) == Some(13u32) <==> c == 'E',
        char_tile(c) == Some(14u32) <==> c == 'C',
        char_tile(c) == Some(16u32) <==> c == 'S',
        char_tile(c) == Some(17u32) <==> c == 'R',
        char_tile(c) is None <==> !(c == '.' || c == ' ' || c == '0' || c == '1' || ('3' <= c
            <= '8') || c == '^' || c == '>' || c == 'v' || c == '<' || c == 'E' || c == 'C' || c
            == 'S' || c == 'R'),
        tile_char(t) == '1' <==> t == 1,
        tile_char(t) == '3' <==> t == 3,
        tile_char(t) == '4' <==> t == 4,
        tile_char(t) == '5' <==> t == 5,
        tile_char(t) == '6' <==> t == 6,
        tile_char(t) == '7' <==> t == 7,
        tile_char(t) == '8' <==> t == 8,
        tile_char(t) == '^' <==> t == 9,
        tile_char(t) == '>' <==> t == 10,
        tile_char(t) == 'v' <==> t == 11,
        tile_char(t) == '<' <==> t == 12,
        tile_char(t) == 'E' <==> t == 13,
        tile_char(t) == 'C' <==> t == 14,
        tile_char(t) == 'S' <==> t == 16,
        tile_char(t) == 'R' <==> t == 17,
        tile_char(t) == '.' <==> !(t == 1 || (3 <= t <= 14) || t == 16 || t == 17),
{
}

/// The tile a grid line gives column `x`: its character's tile, the spawn
/// `P` and any column past the line's end being empty space.
pub open spec fn cell_tile(line: Seq<char>, x: int) -> u32 {
    if 0 <= x < line.len() && line[x] != 'P' {
        match char_tile(line[x]) {
            Some(t) => t,
            None => 0,
        }
    } else {
        0
    }
}

proof fn lemma_scan_row_cells(
    line: Seq<char>,
    y: int,
    x: int,
    acc: Seq<u32>,
    spawn: Option<(int, int)>,
)
    requires
        0 <= x <= line.len(),
        acc.len() == x,
        forall|k: int| 0 <= k < x ==> #[trigger] acc[k] == cell_tile(line, k),
    ensures
        scan_row(line, y, x, acc, spawn) matches Ok((r, _)) ==> r.len() == line.len() && forall|
            k: int,
        | 0 <= k < line.len() ==> #[trigger] r[k] == cell_tile(line, k),
    decreases line.len() - x,
{
    if x < line.len() {
        let c = line[x];
        let t = if c == 'P' {
            tiles::EMPTY
        } else {
            match char_tile(c) {
                Some(t) => t,
                None => 0,
            }
        };
        let na = acc.push(t);
        assert forall|k: int| 0 <= k < x + 1 implies #[trigger] na[k] == cell_tile(line, k) by {
            if k < x {
                assert(na[k] == acc[k]);
            }
        }
        if c == 'P' {
            if spawn is None {
                lemma_scan_row_cells(line, y, x + 1, na, Some((x, y)));
            }
        } else {
            lemma_scan_row_cells(line, y, x + 1, na, spawn);
        }
    }
}

proof fn lemma_scan_grid_cells(
    gl: Seq<Seq<char>>,
    width: int,
    y: int,
    rows: Seq<Seq<u32>>,
    spawn: Option<(int, int)>,
)
    requires
        0 <= y <= gl.len(),
        rows.len() == y,
        forall|k: int, x: int|
            0 <= k < y && 0 <= x < rows[k].len() ==> #[trigger] rows[k][x] == cell_tile(gl[k], x),
    ensures
        scan_grid(gl, width, y, rows, spawn) matches Ok((r, _)) ==> r.len() == gl.len() && forall|
            k: int,
            x: int,
        | 0 <= k < r.len() && 0 <= x < r[k].len() ==> #[trigger] r[k][x] == cell_tile(gl[k], x),
    decreases gl.len() - y,
{
    if y < gl.len() {
        lemma_scan_row_cells(gl[y], y, 0, seq![], spawn);
        match scan_row(gl[y], y, 0, seq![], spawn) {
            Err(_) => {},
            Ok((row, sp)) => {
                let p = pad(row, width);
                let nrows = rows.push(p);
                assert forall|k: int, x: int| 0 <= k < y + 1 && 0 <= x < nrows[k].len() implies
                    #[trigger] nrows[k][x] == cell_tile(gl[k], x) by {
                    if k < y {
                        assert(nrows[k] == rows[k]);
                    } else if x < row.len() {
                        assert(p[x] == row[x]);
                    } else {
                        assert(p[x] == tiles::EMPTY);
                    }
                }
                lemma_scan_grid_cells(gl, width, y + 1, nrows, sp);
            },
        }
    }
}

/// Each cell of a parsed level is the tile its grid character stands for
/// (see `law_grid_characters`), the spawn `P` and columns past a line's end
/// being empty: in particular a cell holds a coin exactly where the text has
/// a `C`.
pub proof fn law_parsed_cells_follow_the_grid_text(text: Seq<char>)
    ensures
        parse_spec(text) matches Ok(l) ==> scan_headers(lines(text), 0, empty_headers()) matches Ok(
            (h, g),
        ) && l.tiles.len() == grid_lines(lines(text), g).len() && forall|y: int, x: int|
            0 <= y < l.tiles.len() && 0 <= x < l.tiles[y].len() ==> {
                let line = grid_lines(lines(text), g)[y];
                &&& #[trigger] l.tiles[y][x] == cell_tile(line, x)
                &&& (l.tiles[y][x] == tiles::COIN <==> (x < line.len() && line[x] == 'C'))
            },
{
    let ls = lines(text);
    match scan_headers(ls, 0, empty_headers()) {
        Err(_) => {},
        Ok((h, g)) => {
            let gl = grid_lines(ls, g);
            if gl.len() > 0 {
                lemma_scan_grid_cells(gl, max_len(gl), 0, seq![], None);
                if let Ok(l) = parse_spec(text) {
                    assert forall|y: int, x: int|
                        0 <= y < l.tiles.len() && 0 <= x < l.tiles[y].len() implies (
                        l.tiles[y][x] == tiles::COIN <==> (x < gl[y].len() && gl[y][x] == 'C'))
                        by {
                        assert(l.tiles[y][x] == cell_tile(gl[y], x));
                        if x < gl[y].len() {
                            law_grid_characters(gl[y][x], 0);
                        }
                    }
                }
            }
        },
    }
}

/// `to_text` writes each cell as its tile's grid character (see
/// `law_grid_characters`), the spawn's cell as `P`: in particular a `C`
/// exactly where a cell other than the spawn's holds a coin.
pub proof fn law_written_cells_follow_the_tiles(row: Seq<u32>, y: int, st: (int, int), x: int)
    requires
        0 <= x < row.len(),
    ensures
        crate::level::row_text(row, y, st)[x] == (if x == st.0 && y == st.1 {
            'P'
        } else {
            tile_char(row[x])
        }),
        crate::level::row_text(row, y, st)[x] == 'C' <==> (row[x] == tiles::COIN && !(x == st.0
            && y == st.1)),
{
    law_grid_characters(' ', row[x]);
}

} // verus!
