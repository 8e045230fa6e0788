//! The level file format round-trips: parsing the text a well-formed level is
//! written as gives the level back.
use vstd::prelude::*;
use crate::text::{
    decimal, find, find_from, has_no_ws, is_float_literal, is_ws, lemma_decimal_parses,
    lemma_find_first, lines, lines_acc, parse_unsigned, strip_cr, tokens, tokens_acc, trim,
    trim_end, trim_start, all_digits, digits_value,
};
use crate::level::{
    aligned, bad_segment_from, block_line, block_lines, char_tile, deco_line, deco_lines,
    deco_prefix, DecoLayer, DecorationSpec, exit_line, exit_lines, ExitSpec, grid_text_lines,
    header_lines, id_lines, join_lines, kw_block, kw_deco, kw_exit, kw_fgdeco, kw_id, kw_loop,
    kw_name, LevelSpec, name_lines, parse_spec, PathBlockSpec, points_text, row_text, spawn_pixel,
    spawn_tile_spec, text_lines, tile_char, to_text_spec, written_coord,
};
use crate::tiles;

verus! {

pub open spec fn has_no_char(s: Seq<char>, c: char) -> bool {
    forall|i: int| 0 <= i < s.len() ==> s[i] != c
}

/// A line `to_text` can write and `lines` gives back unchanged.
pub open spec fn plain_line(x: Seq<char>) -> bool {
    has_no_char(x, '\n') && !(x.len() > 0 && x.last() == '\r')
}

proof fn lemma_lines_acc_extend(a: Seq<char>, x: Seq<char>)
    requires
        has_no_char(x, '\n'),
    ensures
        lines_acc(a + x) == (lines_acc(a).0, lines_acc(a).1 + x),
    decreases x.len(),
{
    if x.len() == 0 {
        assert(a + x =~= a);
        assert(lines_acc(a).1 + x =~= lines_acc(a).1);
    } else {
        let x0 = x.drop_last();
        lemma_lines_acc_extend(a, x0);
        assert((a + x).drop_last() =~= a + x0);
        assert((a + x).last() == x.last());
        assert(lines_acc(a).1 + x0.push(x.last()) =~= lines_acc(a).1 + x);
        assert(x0.push(x.last()) =~= x);
    }
}

proof fn lemma_lines_acc_join(ls: Seq<Seq<char>>)
    requires
        forall|k: int| 0 <= k < ls.len() ==> plain_line(#[trigger] ls[k]),
    ensures
        lines_acc(join_lines(ls)) == (ls, Seq::<char>::empty()),
    decreases ls.len(),
{
    if ls.len() == 0 {
        assert(lines_acc(join_lines(ls)).0 =~= ls);
    } else {
        let p = ls.drop_last();
        let x = ls.last();
        assert forall|k: int| 0 <= k < p.len() implies plain_line(#[trigger] p[k]) by {
            assert(p[k] == ls[k]);
        }
        lemma_lines_acc_join(p);
        assert(plain_line(ls[ls.len() - 1]));
        lemma_lines_acc_extend(join_lines(p), x);
        let s = join_lines(ls);
        assert(s == join_lines(p) + x + seq!['\n']);
        assert(s.drop_last() =~= join_lines(p) + x);
        assert(lines_acc(join_lines(p) + x) == (p, Seq::<char>::empty() + x));
        assert(Seq::<char>::empty() + x =~= x);
        assert(strip_cr(x) == x);
        assert(p.push(x) =~= ls);
    }
}

/// `lines` undoes `join_lines` on lines without line breaks.
pub proof fn lemma_lines_of_join(ls: Seq<Seq<char>>)
    requires
        forall|k: int| 0 <= k < ls.len() ==> plain_line(#[trigger] ls[k]),
    ensures
        lines(join_lines(ls)) == ls,
{
    lemma_lines_acc_join(ls);
}

// ---------------------------------------------------------------------------
// Tokens
// ---------------------------------------------------------------------------

proof fn lemma_tokens_acc_extend(a: Seq<char>, x: Seq<char>)
    requires
        has_no_ws(x),
    ensures
        tokens_acc(a + x) == (tokens_acc(a).0, tokens_acc(a).1 + x),
    decreases x.len(),
{
    if x.len() == 0 {
        assert(a + x =~= a);
        assert(tokens_acc(a).1 + x =~= tokens_acc(a).1);
    } else {
        let x0 = x.drop_last();
        assert(has_no_ws(x0));
        lemma_tokens_acc_extend(a, x0);
        assert((a + x).drop_last() =~= a + x0);
        assert((a + x).last() == x.last());
        assert(!is_ws(x[x.len() - 1]));
        assert(tokens_acc(a).1 + x0.push(x.last()) =~= tokens_acc(a).1 + x);
    }
}

/// Appending a space and a word adds that word as the last token.
pub proof fn lemma_tokens_push_word(a: Seq<char>, x: Seq<char>)
    requires
        has_no_ws(x),
        x.len() > 0,
    ensures
        tokens(a + seq![' '] + x) == tokens(a).push(x),
{
    let b = a + seq![' '];
    assert(b.drop_last() =~= a);
    assert(b.last() == ' ');
    assert(is_ws(' '));
    assert(tokens_acc(b).1.len() == 0);
    assert(tokens_acc(b).0 =~= tokens(a));
    lemma_tokens_acc_extend(b, x);
    assert(tokens_acc(b).1 + x =~= x);
}

/// A single word is a single token.
pub proof fn lemma_tokens_word(x: Seq<char>)
    requires
        has_no_ws(x),
        x.len() > 0,
    ensures
        tokens(x) == seq![x],
{
    lemma_tokens_acc_extend(seq![], x);
    assert(Seq::<char>::empty() + x =~= x);
    assert(tokens_acc(Seq::<char>::empty()).0 =~= Seq::<Seq<char>>::empty());
    assert(Seq::<Seq<char>>::empty().push(x) =~= seq![x]);
}

// ---------------------------------------------------------------------------
// Trimming
// ---------------------------------------------------------------------------

/// Trimming a string that starts with one space before a non-blank,
/// non-blank-ended rest removes just that space.
pub proof fn lemma_trim_space_prefix(s: Seq<char>)
    requires
        s.len() >= 2,
        s[0] == ' ',
        !is_ws(s[1]),
        !is_ws(s.last()),
    ensures
        trim(s) == s.drop_first(),
{
    assert(is_ws(' '));
    let r = s.drop_first();
    assert(r[0] == s[1]);
    assert(trim_start(r) == r);
    assert(trim_start(s) == r);
    assert(r.last() == s.last());
    assert(trim_end(r) == r);
}

/// A string that neither starts nor ends with whitespace is its own trim.
pub proof fn lemma_trim_plain(s: Seq<char>)
    requires
        s.len() > 0,
        !is_ws(s[0]),
        !is_ws(s.last()),
    ensures
        trim(s) == s,
{
}

} // verus!

verus! {

proof fn lemma_tokens_acc_leading_space(r: Seq<char>)
    ensures
        tokens_acc(seq![' '] + r) == tokens_acc(r),
    decreases r.len(),
{
    assert(is_ws(' '));
    if r.len() == 0 {
        assert(seq![' '] + r =~= seq![' ']);
        let sp: Seq<char> = seq![' '];
        assert(sp.drop_last() =~= Seq::<char>::empty());
        assert(sp.last() == ' ');
        let e = tokens_acc(Seq::<char>::empty());
        assert(e == (Seq::<Seq<char>>::empty(), Seq::<char>::empty()));
        assert(tokens_acc(sp) == e);
    } else {
        lemma_tokens_acc_leading_space(r.drop_last());
        assert((seq![' '] + r).drop_last() =~= seq![' '] + r.drop_last());
        assert((seq![' '] + r).last() == r.last());
    }
}

/// A leading space does not change the tokens.
pub proof fn lemma_tokens_leading_space(r: Seq<char>)
    ensures
        tokens(seq![' '] + r) == tokens(r),
{
    lemma_tokens_acc_leading_space(r);
}

/// The `x,y` word of one control point.
pub open spec fn point_word(p: (usize, usize)) -> Seq<char> {
    decimal(p.0 as nat) + seq![','] + decimal(p.1 as nat)
}

pub proof fn lemma_decimal_plain(n: nat)
    ensures
        decimal(n).len() > 0,
        has_no_ws(decimal(n)),
        has_no_char(decimal(n), ','),
        has_no_char(decimal(n), '\n'),
        all_digits(decimal(n)),
        parse_unsigned(decimal(n), n as int) == Some(n as int),
        !is_ws(decimal(n)[0]),
        !is_ws(decimal(n).last()),
        decimal(n).last() != '\r',
{
    lemma_decimal_parses(n);
    let d = decimal(n);
    assert forall|i: int| 0 <= i < d.len() implies d[i] != ',' && d[i] != '\n' by {
        assert(crate::text::is_digit(d[i]));
    }
    assert(crate::text::is_digit(d[d.len() - 1]));
    assert(!(d.len() > 0 && d[0] == '+'));
    assert(d =~= (if d.len() > 0 && d[0] == '+' { d.drop_first() } else { d }));
}

pub proof fn lemma_point_word(p: (usize, usize))
    ensures
        point_word(p).len() > 0,
        has_no_ws(point_word(p)),
        has_no_char(point_word(p), '\n'),
        !is_ws(point_word(p)[0]),
        point_word(p).last() != '\r',
        !is_ws(point_word(p).last()),
        crate::level::parse_point(point_word(p)) == Ok::<(usize, usize), Seq<char>>(p),
        point_word(p) != kw_loop(),
{
    let a = decimal(p.0 as nat);
    let b = decimal(p.1 as nat);
    lemma_decimal_plain(p.0 as nat);
    lemma_decimal_plain(p.1 as nat);
    let w = point_word(p);
    assert(is_ws(',') == false);
    assert forall|i: int| 0 <= i < w.len() implies !is_ws(#[trigger] w[i]) && w[i] != '\n' by {
        if i < a.len() {
            assert(w[i] == a[i]);
        } else if i > a.len() {
            assert(w[i] == b[i - a.len() - 1]);
        }
    }
    assert(w[a.len() as int] == ',');
    assert forall|j: int| 0 <= j < a.len() implies w[j] != ',' by {
        assert(w[j] == a[j]);
    }
    lemma_find_first(w, ',', a.len() as int);
    assert(w.take(a.len() as int) =~= a);
    assert(w.skip(a.len() as int + 1) =~= b);
    assert(w.last() == b.last());
    assert(w[0] == a[0]);
    lemma_decimal_parses(p.0 as nat);
    lemma_decimal_parses(p.1 as nat);
    let ba = if a.len() > 0 && a[0] == '+' { a.drop_first() } else { a };
    assert(ba == a);
    let bb = if b.len() > 0 && b[0] == '+' { b.drop_first() } else { b };
    assert(bb == b);
    assert(parse_unsigned(a, usize::MAX as int) == Some(p.0 as int));
    assert(parse_unsigned(b, usize::MAX as int) == Some(p.1 as int));
    if w == kw_loop() {
        assert(w[0] == 'l');
        assert(crate::text::is_digit(a[0]));
    }
}

/// The words of a path's control points.
pub open spec fn point_words(ps: Seq<(usize, usize)>) -> Seq<Seq<char>> {
    Seq::new(ps.len(), |i: int| point_word(ps[i]))
}

pub proof fn lemma_points_text(ps: Seq<(usize, usize)>)
    ensures
        tokens(points_text(ps)) == point_words(ps),
        has_no_char(points_text(ps), '\n'),
        ps.len() > 0 ==> points_text(ps).len() >= 2 && points_text(ps)[0] == ' ' && !is_ws(
            points_text(ps)[1],
        ) && !is_ws(points_text(ps).last()) && points_text(ps).last() != '\r',
    decreases ps.len(),
{
    reveal_strlit(" ");
    reveal_strlit(",");
    if ps.len() == 0 {
        assert(tokens(points_text(ps)) =~= point_words(ps));
    } else {
        let q = ps.drop_last();
        let p = ps.last();
        lemma_points_text(q);
        lemma_point_word(p);
        let pre = points_text(q);
        let w = point_word(p);
        assert(points_text(ps) =~= pre + seq![' '] + w);
        lemma_tokens_push_word(pre, w);
        assert(point_words(ps) =~= point_words(q).push(w));
        let s = points_text(ps);
        assert forall|i: int| 0 <= i < s.len() implies s[i] != '\n' by {
            if i < pre.len() {
                assert(s[i] == pre[i]);
            } else if i > pre.len() {
                assert(s[i] == w[i - pre.len() - 1]);
            }
        }
        assert(s.last() == w.last());
        if q.len() == 0 {
            assert(s[1] == w[0]);
        } else {
            assert(s[1] == pre[1]);
            assert(s[0] == pre[0]);
        }
    }
}

} // verus!

verus! {

use crate::level::{HeaderState, scan_headers, parse_block_spec, parse_deco_spec, parse_points};

proof fn lemma_parse_points(ps: Seq<(usize, usize)>, i: int)
    requires
        0 <= i <= ps.len(),
    ensures
        parse_points(point_words(ps), i, ps.take(i)) == Ok::<Seq<(usize, usize)>, Seq<char>>(ps),
    decreases ps.len() - i,
{
    if i < ps.len() {
        lemma_point_word(ps[i]);
        assert(point_words(ps)[i] == point_word(ps[i]));
        assert(ps.take(i).push(ps[i]) =~= ps.take(i + 1));
        lemma_parse_points(ps, i + 1);
    } else {
        assert(ps.take(i) =~= ps);
    }
}

/// The first `:` of `w + ":" + rest` when `w` holds no `:`.
proof fn lemma_find_colon(s: Seq<char>, k: int)
    requires
        0 <= k < s.len(),
        s[k] == ':',
        forall|j: int| 0 <= j < k ==> s[j] != ':',
    ensures
        find(s, ':') == Some(k),
{
    lemma_find_first(s, ':', k);
}

pub proof fn lemma_name_line_step(ls: Seq<Seq<char>>, i: int, st: HeaderState, name: Seq<char>)
    requires
        0 <= i < ls.len(),
        ls[i] == "name: "@ + name,
        name.len() > 0,
        !is_ws(name[0]),
        !is_ws(name.last()),
    ensures
        scan_headers(ls, i, st) == scan_headers(ls, i + 1, HeaderState { name, ..st }),
{
    reveal_strlit("name: ");
    let l = ls[i];
    assert(l[0] == 'n');
    assert(l.last() == name.last());
    lemma_trim_plain(l);
    lemma_find_colon(l, 4);
    assert(l.take(4) =~= kw_name());
    lemma_trim_plain(kw_name());
    assert(l.skip(5) =~= seq![' '] + name);
    lemma_trim_space_prefix(l.skip(5));
    assert((seq![' '] + name).drop_first() =~= name);
}

pub proof fn lemma_id_line_step(ls: Seq<Seq<char>>, i: int, st: HeaderState, id: Seq<char>)
    requires
        0 <= i < ls.len(),
        ls[i] == "id: "@ + id,
        id.len() > 0,
        !is_ws(id[0]),
        !is_ws(id.last()),
    ensures
        scan_headers(ls, i, st) == scan_headers(ls, i + 1, HeaderState { id, ..st }),
{
    reveal_strlit("id: ");
    let l = ls[i];
    assert(l[0] == 'i');
    assert(l.last() == id.last());
    lemma_trim_plain(l);
    lemma_find_colon(l, 2);
    assert(l.take(2) =~= kw_id());
    lemma_trim_plain(kw_id());
    assert(l.skip(3) =~= seq![' '] + id);
    lemma_trim_space_prefix(l.skip(3));
    assert((seq![' '] + id).drop_first() =~= id);
    assert(kw_id() != kw_name());
}

#[verifier::rlimit(60)]
#[verifier::spinoff_prover]
pub proof fn lemma_block_line_step(ls: Seq<Seq<char>>, i: int, st: HeaderState, b: PathBlockSpec)
    requires
        0 <= i < ls.len(),
        ls[i] == block_line(b),
        b.points.len() >= 2,
        bad_segment_from(b.points, b.closed, 0) is None,
    ensures
        scan_headers(ls, i, st) == scan_headers(
            ls,
            i + 1,
            HeaderState { blocks: st.blocks.push(b), ..st },
        ),
{
    reveal_strlit("block:");
    reveal_strlit(" loop");
    let l = ls[i];
    let pt = points_text(b.points);
    let lp: Seq<char> = if b.closed { " loop"@ } else { seq![] };
    lemma_points_text(b.points);
    assert(l =~= "block:"@ + pt + lp);
    assert(l[0] == 'b');
    assert(l.last() == (if b.closed { 'p' } else { pt.last() }));
    lemma_trim_plain(l);
    lemma_find_colon(l, 5);
    assert(l.take(5) =~= kw_block());
    lemma_trim_plain(kw_block());
    let rest = l.skip(6);
    assert(rest =~= pt + lp);
    assert(rest[0] == ' ');
    assert(rest[1] == pt[1]);
    lemma_trim_space_prefix(rest);
    let value = rest.drop_first();
    assert(seq![' '] + value =~= rest);
    lemma_tokens_leading_space(value);
    let words = point_words(b.points);
    if b.closed {
        assert(lp =~= seq![' '] + kw_loop());
        assert(pt + lp =~= pt + seq![' '] + kw_loop());
        lemma_tokens_push_word(pt, kw_loop());
        assert(tokens(value) == words.push(kw_loop()));
        assert(tokens(value).drop_last() =~= words);
    } else {
        assert(pt + lp =~= pt);
        assert(tokens(value) == words);
        lemma_point_word(b.points.last());
        assert(words.last() == point_word(b.points.last()));
    }
    lemma_parse_points(b.points, 0);
    assert(b.points.take(0) =~= Seq::<(usize, usize)>::empty());
    assert(parse_block_spec(value) == Ok::<PathBlockSpec, Seq<char>>(
        PathBlockSpec { points: b.points, closed: b.closed },
    ));
}

/// A decoration coordinate `to_text` can write back: a float literal with no
/// whitespace, and (for `x`) no comma.
pub open spec fn plain_coord(s: Seq<char>) -> bool {
    is_float_literal(s) && has_no_ws(s) && s.len() > 0
}

#[verifier::rlimit(60)]
#[verifier::spinoff_prover]
pub proof fn lemma_deco_line_step(ls: Seq<Seq<char>>, i: int, st: HeaderState, d: DecorationSpec)
    requires
        0 <= i < ls.len(),
        ls[i] == deco_line(d),
        plain_coord(d.x),
        plain_coord(d.y),
        has_no_char(d.x, ','),
        d.sprite >= 1,
        written_coord(d.x) == d.x,
        written_coord(d.y) == d.y,
    ensures
        scan_headers(ls, i, st) == scan_headers(
            ls,
            i + 1,
            HeaderState { decos: st.decos.push(d), ..st },
        ),
{
    reveal_strlit("deco: ");
    reveal_strlit("fgdeco: ");
    reveal_strlit(",");
    reveal_strlit(" ");
    let l = ls[i];
    let pre = deco_prefix(d.layer);
    let kl: int = pre.len() - 2;
    let kw = if d.layer is Background {
        kw_deco()
    } else {
        kw_fgdeco()
    };
    let dec = decimal(d.sprite as nat);
    lemma_decimal_plain(d.sprite as nat);
    let pos = d.x + seq![','] + d.y;
    assert(l =~= pre + pos + seq![' '] + dec);
    assert(!is_ws(l[0]));
    assert(l.last() == dec.last());
    lemma_trim_plain(l);
    lemma_find_colon(l, kl);
    assert(l.take(kl) =~= kw);
    lemma_trim_plain(kw);
    let rest = l.skip(kl + 1);
    assert(rest =~= seq![' '] + pos + seq![' '] + dec);
    assert(rest[1] == d.x[0]);
    assert(rest.last() == dec.last());
    lemma_trim_space_prefix(rest);
    let value = rest.drop_first();
    assert(value =~= pos + seq![' '] + dec);
    assert(!is_ws(','));
    assert(has_no_ws(pos)) by {
        assert forall|k: int| 0 <= k < pos.len() implies !is_ws(#[trigger] pos[k]) by {
            if k < d.x.len() {
                assert(pos[k] == d.x[k]);
            } else if k > d.x.len() {
                assert(pos[k] == d.y[k - d.x.len() - 1]);
            }
        }
    }
    lemma_tokens_word(pos);
    lemma_tokens_push_word(pos, dec);
    assert(tokens(value) =~= seq![pos, dec]);
    assert(pos[d.x.len() as int] == ',');
    assert forall|j: int| 0 <= j < d.x.len() implies pos[j] != ',' by {
        assert(pos[j] == d.x[j]);
    }
    lemma_find_first(pos, ',', d.x.len() as int);
    assert(pos.take(d.x.len() as int) =~= d.x);
    assert(pos.skip(d.x.len() as int + 1) =~= d.y);
    lemma_decimal_parses(d.sprite as nat);
    assert(dec =~= (if dec.len() > 0 && dec[0] == '+' { dec.drop_first() } else { dec }));
    assert(parse_unsigned(dec, u32::MAX as int) == Some(d.sprite as int));
    assert(kw != kw_name());
    assert(kw != kw_id());
    assert(kw != kw_block());
    assert(kw_fgdeco() != kw_deco());
    assert(parse_deco_spec(value, d.layer) == Ok::<DecorationSpec, Seq<char>>(
        DecorationSpec { x: d.x, y: d.y, sprite: d.sprite, layer: d.layer },
    ));
}

/// An exit's destination `to_text` can write back: one word.
pub open spec fn plain_dest(s: Seq<char>) -> bool {
    s.len() > 0 && has_no_ws(s)
}

pub proof fn lemma_exit_line_step(ls: Seq<Seq<char>>, i: int, st: HeaderState, e: ExitSpec)
    requires
        0 <= i < ls.len(),
        ls[i] == exit_line(e),
        plain_dest(e.dest),
    ensures
        scan_headers(ls, i, st) == scan_headers(
            ls,
            i + 1,
            HeaderState { exits: st.exits.push(e), ..st },
        ),
{
    reveal_strlit("exit: ");
    reveal_strlit(",");
    reveal_strlit(" ");
    let l = ls[i];
    let pw = point_word(e.tile);
    lemma_point_word(e.tile);
    assert(l =~= "exit: "@ + pw + seq![' '] + e.dest);
    assert(l[0] == 'e');
    assert(l.last() == e.dest.last());
    lemma_trim_plain(l);
    lemma_find_colon(l, 4);
    assert(l.take(4) =~= kw_exit());
    lemma_trim_plain(kw_exit());
    let rest = l.skip(5);
    assert(rest =~= seq![' '] + pw + seq![' '] + e.dest);
    assert(rest[1] == pw[0]);
    assert(rest.last() == e.dest.last());
    lemma_trim_space_prefix(rest);
    let value = rest.drop_first();
    assert(value =~= pw + seq![' '] + e.dest);
    lemma_tokens_word(pw);
    lemma_tokens_push_word(pw, e.dest);
    assert(tokens(value) =~= seq![pw, e.dest]);
    assert(kw_exit() != kw_name());
    assert(kw_exit() != kw_id());
    assert(kw_exit() != kw_block());
    assert(kw_exit() != kw_deco());
    assert(kw_exit() != kw_fgdeco());
    assert(crate::level::parse_exit_spec(value) == Ok::<ExitSpec, Seq<char>>(
        ExitSpec { tile: e.tile, dest: e.dest },
    ));
}

} // verus!

verus! {

use crate::level::{scan_row, scan_grid, pad, grid_lines, max_len, drop_trailing_empty, grid_width,
    empty_headers, nearest_tile};

/// Tile ids the grid format can express.
pub open spec fn valid_tile(t: u32) -> bool {
    t == 0 || t == 1 || (3 <= t <= 14) || t == 16 || t == 17
}

pub proof fn lemma_tile_char(t: u32)
    requires
        valid_tile(t),
    ensures
        char_tile(tile_char(t)) == Some(t),
        tile_char(t) != 'P',
        !is_ws(tile_char(t)),
        tile_char(t) != ':',
        tile_char(t) != '\n',
        tile_char(t) != '\r',
{
}

/// The spawn seen before grid position `(x, y)` when it lies at `st`.
pub open spec fn spawn_before(st: (int, int), x: int, y: int) -> Option<(int, int)> {
    if y > st.1 || (y == st.1 && x > st.0) {
        Some(st)
    } else {
        None
    }
}

proof fn lemma_scan_row(r: Seq<u32>, y: int, st: (int, int), x: int)
    requires
        0 <= x <= r.len(),
        0 <= y,
        forall|k: int| 0 <= k < r.len() ==> valid_tile(#[trigger] r[k]),
        y == st.1 ==> 0 <= st.0 < r.len() && r[st.0] == tiles::EMPTY,
    ensures
        scan_row(row_text(r, y, st), y, x, r.take(x), spawn_before(st, x, y)) == Ok::<
            (Seq<u32>, Option<(int, int)>),
            Seq<char>,
        >((r, spawn_before(st, r.len() as int, y))),
    decreases r.len() - x,
{
    let line = row_text(r, y, st);
    if x < r.len() {
        lemma_tile_char(r[x]);
        assert(line[x] == (if x == st.0 && y == st.1 { 'P' } else { tile_char(r[x]) }));
        assert(r.take(x).push(r[x]) =~= r.take(x + 1));
        if x == st.0 && y == st.1 {
            assert(spawn_before(st, x + 1, y) == Some(st));
        } else {
            assert(spawn_before(st, x + 1, y) == spawn_before(st, x, y));
        }
        lemma_scan_row(r, y, st, x + 1);
    } else {
        assert(r.take(x) =~= r);
    }
}

pub open spec fn rect_grid(t: Seq<Seq<u32>>, w: int) -> bool {
    forall|y: int| 0 <= y < t.len() ==> (#[trigger] t[y]).len() == w
}

pub open spec fn valid_tiles(t: Seq<Seq<u32>>) -> bool {
    forall|y: int, x: int| 0 <= y < t.len() && 0 <= x < t[y].len() ==> valid_tile(#[trigger] t[y][x])
}

proof fn lemma_scan_grid(l: LevelSpec, w: int, st: (int, int), y: int)
    requires
        0 <= y <= l.tiles.len(),
        rect_grid(l.tiles, w),
        valid_tiles(l.tiles),
        st == spawn_tile_spec(l.spawn),
        0 <= st.1 < l.tiles.len(),
        0 <= st.0 < w,
        l.tiles[st.1][st.0] == tiles::EMPTY,
    ensures
        scan_grid(grid_text_lines(l), w, y, l.tiles.take(y), spawn_before(st, 0, y)) == Ok::<
            (Seq<Seq<u32>>, Option<(int, int)>),
            Seq<char>,
        >((l.tiles, Some(st))),
    decreases l.tiles.len() - y,
{
    let g = grid_text_lines(l);
    if y < l.tiles.len() {
        let r = l.tiles[y];
        assert(r.len() == w);
        assert forall|k: int| 0 <= k < r.len() implies valid_tile(#[trigger] r[k]) by {
            assert(valid_tile(l.tiles[y][k]));
        }
        assert(g[y] == row_text(r, y, st));
        lemma_scan_row(r, y, st, 0);
        assert(r.take(0) =~= Seq::<u32>::empty());
        assert(spawn_before(st, 0, y) == spawn_before(st, 0, y));
        assert(pad(r, w) =~= r);
        assert(spawn_before(st, r.len() as int, y) == spawn_before(st, 0, y + 1));
        assert(l.tiles.take(y).push(r) =~= l.tiles.take(y + 1));
        lemma_scan_grid(l, w, st, y + 1);
    } else {
        assert(l.tiles.take(y) =~= l.tiles);
        assert(spawn_before(st, 0, y) == Some(st));
    }
}

proof fn lemma_max_len_rect(g: Seq<Seq<char>>, w: int)
    requires
        g.len() > 0,
        w >= 0,
        forall|k: int| 0 <= k < g.len() ==> (#[trigger] g[k]).len() == w,
    ensures
        max_len(g) == w,
    decreases g.len(),
{
    assert(g.last().len() == w) by {
        assert(g[g.len() - 1].len() == w);
    }
    if g.len() > 1 {
        let p = g.drop_last();
        assert forall|k: int| 0 <= k < p.len() implies (#[trigger] p[k]).len() == w by {
            assert(p[k] == g[k]);
        }
        lemma_max_len_rect(p, w);
    } else {
        assert(g.drop_last().len() == 0);
        assert(max_len(g.drop_last()) == 0);
    }
}

/// A level `to_text` writes in a form `parse` reads back unchanged: a name
/// without line breaks or surrounding whitespace, path blocks of two or more
/// axis-aligned points, decorations whose coordinates are plain numbers in
/// the form `to_text` writes them and whose sprite is at least 1, and a
/// non-empty rectangular grid of expressible tiles whose spawn sits exactly on
/// an empty tile inside it.
pub open spec fn well_formed_level(l: LevelSpec) -> bool {
    &&& has_no_char(l.name, '\n')
    &&& l.name.len() > 0 ==> !is_ws(l.name[0]) && !is_ws(l.name.last())
    &&& has_no_char(l.id, '\n')
    &&& l.id.len() > 0 ==> !is_ws(l.id[0]) && !is_ws(l.id.last())
    &&& forall|i: int| 0 <= i < l.exits.len() ==> plain_dest((#[trigger] l.exits[i]).dest)
    &&& forall|i: int|
        0 <= i < l.path_blocks.len() ==> (#[trigger] l.path_blocks[i]).points.len() >= 2
            && bad_segment_from(l.path_blocks[i].points, l.path_blocks[i].closed, 0) is None
    &&& forall|i: int|
        0 <= i < l.decorations.len() ==> plain_coord((#[trigger] l.decorations[i]).x) && plain_coord(
            l.decorations[i].y,
        ) && has_no_char(l.decorations[i].x, ',') && l.decorations[i].sprite >= 1
            && written_coord(l.decorations[i].x) == l.decorations[i].x && written_coord(
            l.decorations[i].y,
        ) == l.decorations[i].y
    &&& l.tiles.len() >= 1
    &&& grid_width(l.tiles) >= 1
    &&& rect_grid(l.tiles, grid_width(l.tiles))
    &&& valid_tiles(l.tiles)
    &&& 0 <= spawn_tile_spec(l.spawn).0 < grid_width(l.tiles)
    &&& 0 <= spawn_tile_spec(l.spawn).1 < l.tiles.len()
    &&& l.spawn == spawn_pixel(spawn_tile_spec(l.spawn).0, spawn_tile_spec(l.spawn).1)
    &&& l.tiles[spawn_tile_spec(l.spawn).1][spawn_tile_spec(l.spawn).0] == tiles::EMPTY
}

proof fn lemma_block_lines_all(bs: Seq<PathBlockSpec>)
    requires
        forall|i: int| 0 <= i < bs.len() ==> (#[trigger] bs[i]).points.len() >= 2,
    ensures
        block_lines(bs) == Seq::new(bs.len(), |i: int| block_line(bs[i])),
    decreases bs.len(),
{
    if bs.len() > 0 {
        let p = bs.drop_last();
        assert forall|i: int| 0 <= i < p.len() implies (#[trigger] p[i]).points.len() >= 2 by {
            assert(p[i] == bs[i]);
        }
        lemma_block_lines_all(p);
        assert(bs[bs.len() - 1].points.len() >= 2);
        assert(block_lines(bs) =~= Seq::new(bs.len(), |i: int| block_line(bs[i])));
    } else {
        assert(block_lines(bs) =~= Seq::new(bs.len(), |i: int| block_line(bs[i])));
    }
}

pub open spec fn clamp_take(k: int, n: int) -> int {
    if k < 0 {
        0
    } else if k > n {
        n
    } else {
        k
    }
}

/// The header state after the first `k` header lines of `l`'s text.
pub open spec fn hstate(l: LevelSpec, k: int) -> HeaderState {
    let nn = name_lines(l.name).len() as int;
    let ni = id_lines(l.id).len() as int;
    let nb = l.path_blocks.len() as int;
    let nd = l.decorations.len() as int;
    HeaderState {
        name: if k >= 1 {
            l.name
        } else {
            seq![]
        },
        id: if k >= nn + 1 {
            l.id
        } else {
            seq![]
        },
        blocks: l.path_blocks.take(clamp_take(k - nn - ni, nb)),
        decos: l.decorations.take(clamp_take(k - nn - ni - nb, nd)),
        exits: l.exits.take(clamp_take(k - nn - ni - nb - nd, l.exits.len() as int)),
    }
}

} // verus!

verus! {

proof fn lemma_header_step(l: LevelSpec, ls: Seq<Seq<char>>, k: int)
    requires
        well_formed_level(l),
        0 <= k < header_lines(l).len(),
        header_lines(l).len() <= ls.len(),
        forall|i: int| 0 <= i < header_lines(l).len() ==> ls[i] == #[trigger] header_lines(l)[i],
    ensures
        scan_headers(ls, k, hstate(l, k)) == scan_headers(ls, k + 1, hstate(l, k + 1)),
{
    let h = header_lines(l);
    let nn = name_lines(l.name).len() as int;
    let ni = id_lines(l.id).len() as int;
    let nb = l.path_blocks.len() as int;
    let nd = l.decorations.len() as int;
    let ne = l.exits.len() as int;
    lemma_block_lines_all(l.path_blocks);
    assert(h.len() == nn + ni + nb + nd + ne);
    assert(ls[k] == h[k]);
    if nn == 0 {
        assert(l.name =~= Seq::<char>::empty());
    }
    if ni == 0 {
        assert(l.id =~= Seq::<char>::empty());
    }
    if k < nn {
        assert(k == 0);
        assert(h[0] == "name: "@ + l.name);
        lemma_name_line_step(ls, k, hstate(l, k), l.name);
        assert(hstate(l, k + 1) =~= HeaderState { name: l.name, ..hstate(l, k) });
    } else if k < nn + ni {
        assert(k == nn);
        assert(h[k] == "id: "@ + l.id);
        lemma_id_line_step(ls, k, hstate(l, k), l.id);
        assert(hstate(l, k + 1) =~= HeaderState { id: l.id, ..hstate(l, k) });
    } else if k < nn + ni + nb {
        let j = k - nn - ni;
        assert(h[k] == block_line(l.path_blocks[j]));
        lemma_block_line_step(ls, k, hstate(l, k), l.path_blocks[j]);
        assert(l.path_blocks.take(j).push(l.path_blocks[j]) =~= l.path_blocks.take(j + 1));
        assert(hstate(l, k + 1) =~= HeaderState {
            blocks: hstate(l, k).blocks.push(l.path_blocks[j]),
            ..hstate(l, k)
        });
    } else if k < nn + ni + nb + nd {
        let j = k - nn - ni - nb;
        assert(h[k] == deco_line(l.decorations[j]));
        lemma_deco_line_step(ls, k, hstate(l, k), l.decorations[j]);
        assert(l.decorations.take(j).push(l.decorations[j]) =~= l.decorations.take(j + 1));
        assert(hstate(l, k + 1) =~= HeaderState {
            decos: hstate(l, k).decos.push(l.decorations[j]),
            ..hstate(l, k)
        });
    } else {
        let j = k - nn - ni - nb - nd;
        assert(h[k] == exit_line(l.exits[j]));
        lemma_exit_line_step(ls, k, hstate(l, k), l.exits[j]);
        assert(l.exits.take(j).push(l.exits[j]) =~= l.exits.take(j + 1));
        assert(hstate(l, k + 1) =~= HeaderState {
            exits: hstate(l, k).exits.push(l.exits[j]),
            ..hstate(l, k)
        });
    }
}

proof fn lemma_headers_walk(l: LevelSpec, ls: Seq<Seq<char>>, k: int)
    requires
        well_formed_level(l),
        0 <= k <= header_lines(l).len(),
        header_lines(l).len() <= ls.len(),
        forall|i: int| 0 <= i < header_lines(l).len() ==> ls[i] == #[trigger] header_lines(l)[i],
    ensures
        scan_headers(ls, 0, empty_headers()) == scan_headers(ls, k, hstate(l, k)),
    decreases k,
{
    if k == 0 {
        assert(hstate(l, 0).blocks =~= empty_headers().blocks);
        assert(hstate(l, 0).decos =~= empty_headers().decos);
        assert(hstate(l, 0).exits =~= empty_headers().exits);
        assert(hstate(l, 0).name =~= empty_headers().name);
        assert(hstate(l, 0).id =~= empty_headers().id);
    } else {
        lemma_headers_walk(l, ls, k - 1);
        lemma_header_step(l, ls, k - 1);
    }
}

proof fn lemma_row_text_plain(l: LevelSpec, y: int)
    requires
        well_formed_level(l),
        0 <= y < l.tiles.len(),
    ensures
        plain_line(grid_text_lines(l)[y]),
        grid_text_lines(l)[y].len() == grid_width(l.tiles),
        !is_ws(grid_text_lines(l)[y][0]),
        !is_ws(grid_text_lines(l)[y].last()),
        forall|x: int| 0 <= x < grid_text_lines(l)[y].len() ==> #[trigger] grid_text_lines(l)[y][x] != ':',
{
    let st = spawn_tile_spec(l.spawn);
    let r = l.tiles[y];
    let line = grid_text_lines(l)[y];
    assert(line == row_text(r, y, st));
    assert(r.len() == grid_width(l.tiles));
    assert forall|x: int| 0 <= x < line.len() implies line[x] != '\n' && line[x] != ':' && !is_ws(
        #[trigger] line[x],
    ) && line[x] != '\r' by {
        assert(valid_tile(l.tiles[y][x]));
        lemma_tile_char(r[x]);
    }
    assert(line[line.len() - 1] == line.last());
}

proof fn lemma_text_lines_plain(l: LevelSpec)
    requires
        well_formed_level(l),
    ensures
        forall|k: int| 0 <= k < text_lines(l).len() ==> plain_line(#[trigger] text_lines(l)[k]),
{
    let h = header_lines(l);
    let sep: Seq<Seq<char>> = if h.len() > 0 { seq![seq![]] } else { seq![] };
    let g = grid_text_lines(l);
    let ls = text_lines(l);
    assert(ls == h + sep + g);
    let nn = name_lines(l.name).len() as int;
    let ni = id_lines(l.id).len() as int;
    let nb = l.path_blocks.len() as int;
    let nd = l.decorations.len() as int;
    lemma_block_lines_all(l.path_blocks);
    assert(h.len() == nn + ni + nb + nd + l.exits.len());
    // every line survives `lines`
    assert forall|k: int| 0 <= k < ls.len() implies plain_line(#[trigger] ls[k]) by {
        if k < h.len() {
            assert(ls[k] == h[k]);
            lemma_header_line_plain(l, k);
        } else if k < h.len() + sep.len() {
            assert(ls[k] == Seq::<char>::empty());
        } else {
            let y = k - h.len() - sep.len();
            assert(ls[k] == g[y]);
            lemma_row_text_plain(l, y);
        }
    }
}

#[verifier::rlimit(60)]
#[verifier::spinoff_prover]
proof fn lemma_header_line_plain(l: LevelSpec, k: int)
    requires
        well_formed_level(l),
        0 <= k < header_lines(l).len(),
    ensures
        plain_line(header_lines(l)[k]),
{
    reveal_strlit("name: ");
    reveal_strlit("id: ");
    reveal_strlit("block:");
    reveal_strlit(" loop");
    reveal_strlit("deco: ");
    reveal_strlit("fgdeco: ");
    reveal_strlit("exit: ");
    reveal_strlit(",");
    reveal_strlit(" ");
    let h = header_lines(l);
    let nn = name_lines(l.name).len() as int;
    let ni = id_lines(l.id).len() as int;
    let nb = l.path_blocks.len() as int;
    let nd = l.decorations.len() as int;
    lemma_block_lines_all(l.path_blocks);
    let x = h[k];
    if k < nn {
        assert(x == "name: "@ + l.name);
        assert forall|i: int| 0 <= i < x.len() implies x[i] != '\n' by {
            if i >= 6 {
                assert(x[i] == l.name[i - 6]);
            }
        }
        assert(x.last() == l.name.last());
    } else if k < nn + ni {
        assert(x == "id: "@ + l.id);
        assert forall|i: int| 0 <= i < x.len() implies x[i] != '\n' by {
            if i >= 4 {
                assert(x[i] == l.id[i - 4]);
            }
        }
        assert(x.last() == l.id.last());
    } else if k < nn + ni + nb {
        let b = l.path_blocks[k - nn - ni];
        assert(x == block_line(b));
        lemma_points_text(b.points);
        let pt = points_text(b.points);
        let lp: Seq<char> = if b.closed { " loop"@ } else { seq![] };
        assert(x =~= "block:"@ + pt + lp);
        assert forall|i: int| 0 <= i < x.len() implies x[i] != '\n' by {
            if 6 <= i < 6 + pt.len() {
                assert(x[i] == pt[i - 6]);
            }
        }
    } else if k < nn + ni + nb + nd {
        let d = l.decorations[k - nn - ni - nb];
        assert(x == deco_line(d));
        lemma_decimal_plain(d.sprite as nat);
        let dec = decimal(d.sprite as nat);
        let pre = deco_prefix(d.layer);
        let p = pre.len();
        assert(x =~= pre + d.x + seq![','] + d.y + seq![' '] + dec);
        assert forall|i: int| 0 <= i < x.len() implies x[i] != '\n' by {
            let a = p + d.x.len();
            let b2 = a + 1 + d.y.len();
            if i < p {
                assert(x[i] == pre[i]);
            } else if p <= i < a {
                assert(x[i] == d.x[i - p]);
                assert(!is_ws(d.x[i - p]));
            } else if a < i < b2 {
                assert(x[i] == d.y[i - a - 1]);
                assert(!is_ws(d.y[i - a - 1]));
            } else if i > b2 {
                assert(x[i] == dec[i - b2 - 1]);
            }
        }
        assert(x.last() == dec.last());
    } else {
        let e = l.exits[k - nn - ni - nb - nd];
        assert(x == exit_line(e));
        lemma_point_word(e.tile);
        let pw = point_word(e.tile);
        assert(x =~= "exit: "@ + pw + seq![' '] + e.dest);
        assert(plain_dest(e.dest));
        assert forall|i: int| 0 <= i < x.len() implies x[i] != '\n' by {
            let a = 6 + pw.len();
            if 6 <= i < a {
                assert(x[i] == pw[i - 6]);
            } else if i > a {
                assert(x[i] == e.dest[i - a - 1]);
                assert(!is_ws(e.dest[i - a - 1]));
            }
        }
        assert(x.last() == e.dest.last());
        assert(!is_ws(e.dest.last()));
    }
}

/// For a well-formed level, parsing the text `to_text` writes gives the
/// level back.
#[verifier::rlimit(60)]
#[verifier::spinoff_prover]
pub proof fn law_to_text_round_trips(l: LevelSpec)
    requires
        well_formed_level(l),
    ensures
        parse_spec(to_text_spec(l)) == Ok::<LevelSpec, Seq<char>>(l),
{
    let h = header_lines(l);
    let sep: Seq<Seq<char>> = if h.len() > 0 { seq![seq![]] } else { seq![] };
    let g = grid_text_lines(l);
    let ls = text_lines(l);
    assert(ls == h + sep + g);
    let nn = name_lines(l.name).len() as int;
    let ni = id_lines(l.id).len() as int;
    let nb = l.path_blocks.len() as int;
    let nd = l.decorations.len() as int;
    let ne = l.exits.len() as int;
    lemma_block_lines_all(l.path_blocks);
    assert(h.len() == nn + ni + nb + nd + ne);
    let w = grid_width(l.tiles);
    let st = spawn_tile_spec(l.spawn);
    lemma_text_lines_plain(l);
    lemma_lines_of_join(ls);
    assert(crate::text::lines(to_text_spec(l)) == ls);
    // headers
    assert forall|i: int| 0 <= i < h.len() implies ls[i] == #[trigger] h[i] by {}
    lemma_headers_walk(l, ls, h.len() as int);
    let gi: int = (h.len() + sep.len()) as int;
    let hs = HeaderState {
        name: l.name,
        id: l.id,
        blocks: l.path_blocks,
        decos: l.decorations,
        exits: l.exits,
    };
    assert(hstate(l, h.len() as int) == hs) by {
        if nn == 0 {
            assert(l.name =~= Seq::<char>::empty());
        }
        if ni == 0 {
            assert(l.id =~= Seq::<char>::empty());
        }
        assert(l.path_blocks.take(nb) =~= l.path_blocks);
        assert(l.decorations.take(nd) =~= l.decorations);
        assert(l.exits.take(ne) =~= l.exits);
    }
    if sep.len() > 0 {
        assert(ls[h.len() as int] == Seq::<char>::empty());
        assert(trim(Seq::<char>::empty()) == Seq::<char>::empty());
    }
    assert(scan_headers(ls, h.len() as int, hs) == scan_headers(ls, gi, hs));
    lemma_row_text_plain(l, 0);
    assert(ls[gi] == g[0]);
    lemma_trim_plain(g[0]);
    crate::text::lemma_find_from_none(g[0], ':', 0);
    assert(scan_headers(ls, gi, hs) == Ok::<(HeaderState, int), Seq<char>>((hs, gi)));
    // grid lines
    let full = Seq::new((ls.len() - gi) as nat, |k: int| trim_end(ls[gi + k]));
    assert forall|k: int| 0 <= k < full.len() implies #[trigger] full[k] == g[k] by {
        lemma_row_text_plain(l, k);
        assert(ls[gi + k] == g[k]);
        assert(trim_end(g[k]) == g[k]);
    }
    assert(full =~= g);
    lemma_row_text_plain(l, g.len() - 1);
    assert(drop_trailing_empty(g) == g);
    assert(grid_lines(ls, gi) == g);
    assert forall|k: int| 0 <= k < g.len() implies (#[trigger] g[k]).len() == w by {
        lemma_row_text_plain(l, k);
    }
    lemma_max_len_rect(g, w);
    lemma_scan_grid(l, w, st, 0);
    assert(l.tiles.take(0) =~= Seq::<Seq<u32>>::empty());
    assert(spawn_before(st, 0, 0) == None::<(int, int)>);
    assert(parse_spec(to_text_spec(l)) == Ok::<LevelSpec, Seq<char>>(
        LevelSpec {
            name: l.name,
            id: l.id,
            spawn: spawn_pixel(st.0, st.1),
            tiles: l.tiles,
            path_blocks: l.path_blocks,
            decorations: l.decorations,
            exits: l.exits,
        },
    ));
}

} // verus!
