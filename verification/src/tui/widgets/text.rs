//! Text placed in a box: aligned, and broken into chunks where it is wider than the box.
use std::marker::PhantomData;
use vstd::prelude::*;
use vstd::string::*;
use vstd::utf8::encode_utf8;

use crate::utils::align::{x, y};
use crate::utils::color::{reset_bg_seq, reset_fg_seq, ColorEscape};
use crate::utils::term::{csi, decimal, goto, reset_style};
use crate::utils::{
    count_checked, count_without_styling, grapheme_clusters, graphemes, is_measurable, is_single,
    spec_count,
    spec_count_without_styling, styling_closed, views, write_str,
};

verus! {

/// The cluster ESC, which starts an escape sequence.
pub open spec fn esc() -> Seq<char> {
    seq!['\x1b']
}

/// Where a partial escape sequence starts with `prefix`.
pub open spec fn starts_with(e: Seq<char>, prefix: Seq<char>) -> bool {
    prefix.len() <= e.len() && e.take(prefix.len() as int) == prefix
}

/// The sequence that ends what the escape sequence `e` started, where a chunk ends with it
/// still open: the default foreground after a foreground color, the default background after
/// a background color, a reset of all attributes after anything else.
pub open spec fn closing(e: Seq<char>) -> Seq<char> {
    if starts_with(e, csi(seq!['3', '8', ';'])) {
        reset_fg_seq()
    } else if starts_with(e, csi(seq!['4', '8', ';'])) {
        reset_bg_seq()
    } else {
        csi(seq!['m'])
    }
}

/// The closing sequences of the open escape sequences `escs`, the latest first.
pub open spec fn closings(escs: Seq<Seq<char>>) -> Seq<char>
    decreases escs.len(),
{
    if escs.len() == 0 {
        Seq::empty()
    } else {
        closing(escs.last()) + closings(escs.drop_last())
    }
}

/// The open escape sequences `escs` again, the latest first.
pub open spec fn reopenings(escs: Seq<Seq<char>>) -> Seq<char>
    decreases escs.len(),
{
    if escs.len() == 0 {
        Seq::empty()
    } else {
        escs.last() + reopenings(escs.drop_last())
    }
}

/// What a reset sequence of `kind` cancels of the open escape sequence `e`: a full reset
/// (kind 0) an attribute, one without a `;`; a reset of the foreground (kind 1) a foreground
/// color; a reset of the background (kind 2) a background color.
pub open spec fn cancels(kind: u8, e: Seq<char>) -> bool {
    if kind == 0 {
        !e.contains(';')
    } else if kind == 1 {
        starts_with(e, csi(seq!['3', '8', ';']))
    } else {
        starts_with(e, csi(seq!['4', '8', ';']))
    }
}

/// The latest of `escs[0..=j]` that a reset of `kind` cancels, or -1 where there is none.
pub open spec fn cancelled(escs: Seq<Seq<char>>, j: int, kind: u8) -> int
    decreases j + 1,
{
    if j < 0 {
        -1
    } else if cancels(kind, escs[j]) {
        j
    } else {
        cancelled(escs, j - 1, kind)
    }
}

/// The kind of reset that the complete escape sequence `e` is: 0 for a full reset (ESC `[m`),
/// 1 for the default foreground (ESC `[39m`), 2 for the default background (ESC `[49m`), none
/// otherwise.
pub open spec fn reset_kind(e: Seq<char>) -> Option<u8> {
    if e == csi(seq!['m']) {
        Some(0u8)
    } else if e == csi(seq!['3', '9', 'm']) {
        Some(1u8)
    } else if e == csi(seq!['4', '9', 'm']) {
        Some(2u8)
    } else {
        None
    }
}

/// The state of breaking text into chunks: the current chunk, the columns it takes up,
/// whether an escape sequence is being read, the escape sequences seen and not cancelled, the
/// chunks, and whether every step so far could be taken.
pub struct Chunking {
    pub idx: nat,
    pub cnt: int,
    pub inside: bool,
    pub escs: Seq<Seq<char>>,
    pub chunks: Seq<Seq<char>>,
    pub ok: bool,
}

/// The chunking before any cluster: one empty chunk.
pub open spec fn chunking_start() -> Chunking {
    Chunking {
        idx: 0,
        cnt: 0,
        inside: false,
        escs: Seq::empty(),
        chunks: seq![Seq::empty()],
        ok: true,
    }
}

/// `c` appended to the current chunk.
pub open spec fn extend(s: Chunking, c: Seq<char>) -> Seq<Seq<char>> {
    s.chunks.update(s.idx as int, s.chunks[s.idx as int] + c)
}

/// Takes the cluster `g` of text broken into chunks narrower than `width` columns. An ESC
/// opens an escape sequence; the clusters up to an "m" belong to it, and all of them go to
/// the current chunk. A complete escape sequence stays open, unless it resets styling: then it
/// cancels the latest open one of its kind (see `cancels`), and neither stays open. A visible
/// cluster goes to the current chunk, or starts a new one where it would make the chunk
/// `width` columns wide; the chunk that ends closes the open escape sequences, and the new one
/// opens them again. Where a width overflows, `ok` is false from then on.
pub open spec fn chunk_step(s: Chunking, g: Seq<char>, width: u16) -> Chunking {
    if !s.ok {
        s
    } else if g == esc() {
        Chunking { inside: true, escs: s.escs.push(esc()), chunks: extend(s, esc()), ..s }
    } else if s.inside && s.escs.len() == 0 {
        Chunking { ok: false, ..s }
    } else if s.inside && g != seq!['m'] {
        Chunking {
            escs: s.escs.update(s.escs.len() - 1, s.escs.last() + g),
            chunks: extend(s, g),
            ..s
        }
    } else if s.inside {
        let e = s.escs.last() + seq!['m'];
        let rest = s.escs.drop_last();
        match reset_kind(e) {
            None => Chunking {
                inside: false,
                escs: rest.push(e),
                chunks: extend(s, seq!['m']),
                ..s
            },
            Some(kind) => {
                let r = cancelled(rest, rest.len() - 1, kind);
                Chunking {
                    inside: false,
                    escs: if r >= 0 {
                        rest.remove(r)
                    } else {
                        rest
                    },
                    chunks: extend(s, seq!['m']),
                    ..s
                }
            },
        }
    } else {
        let l = spec_count(g);
        if l > usize::MAX || s.cnt + l > usize::MAX {
            Chunking { ok: false, ..s }
        } else if s.cnt + l >= width {
            Chunking {
                idx: s.idx + 1,
                cnt: l,
                chunks: extend(s, closings(s.escs)).push(reopenings(s.escs) + g),
                ..s
            }
        } else {
            Chunking { cnt: s.cnt + l, chunks: extend(s, g), ..s }
        }
    }
}

/// The chunking after the clusters `gs`.
pub open spec fn chunking(gs: Seq<Seq<char>>, width: u16) -> Chunking
    decreases gs.len(),
{
    if gs.len() == 0 {
        chunking_start()
    } else {
        chunk_step(chunking(gs.drop_last(), width), gs.last(), width)
    }
}

/// The chunks that take up at least one column (by the 16-bit count), in order.
pub open spec fn visible(chunks: Seq<Seq<char>>) -> Seq<Seq<char>>
    decreases chunks.len(),
{
    if chunks.len() == 0 {
        Seq::empty()
    } else if spec_count_without_styling(chunks.last()) % 0x10000 != 0 {
        visible(chunks.drop_last()).push(chunks.last())
    } else {
        visible(chunks.drop_last())
    }
}

/// A line of output: a move to column `x`, row `row` where `do_goto` holds, then `t`.
pub open spec fn line(do_goto: bool, x: u16, row: int, t: Seq<char>) -> Seq<char> {
    if do_goto {
        csi(decimal(row as nat).push(';') + decimal(x as nat).push('H')) + t
    } else {
        t
    }
}

/// A move to column `x`, row `row` can be written: the row fits 16 bits, and the position is
/// not 0, 0.
pub open spec fn placeable(do_goto: bool, x: u16, row: int) -> bool {
    row <= u16::MAX && (do_goto ==> x != 0 || row != 0)
}

/// What is written for the chunks `cs` from `k` on, the first of them on row `y + i`: a chunk
/// that a chunk wider than one column follows ends with `-` and the next goes on the next
/// row, or with `…` where the box has no row left; a chunk that a chunk of at most one column
/// follows is written together with it, and that ends the text. The last chunk, or the last
/// two, go on row `y + 1`.
pub open spec fn emitted(
    cs: Seq<Seq<char>>,
    k: int,
    i: int,
    x: u16,
    y: u16,
    height: u16,
    do_goto: bool,
) -> Seq<u8>
    decreases cs.len() - k,
{
    if k >= cs.len() || k < 0 {
        Seq::empty()
    } else if k + 1 < cs.len() {
        if spec_count_without_styling(cs[k + 1]) % 0x10000 > 1 {
            if i + 1 >= height {
                encode_utf8(line(do_goto, x, y + i, cs[k] + seq!['…']))
            } else {
                encode_utf8(line(do_goto, x, y + i, cs[k] + seq!['-'])) + emitted(
                    cs,
                    k + 1,
                    i + 1,
                    x,
                    y,
                    height,
                    do_goto,
                )
            }
        } else {
            encode_utf8(line(do_goto, x, y + 1, cs[k] + cs[k + 1]))
        }
    } else {
        encode_utf8(line(do_goto, x, y + 1, cs[k]))
    }
}

/// Every line that `emitted` writes can be placed.
pub open spec fn emit_ok(
    cs: Seq<Seq<char>>,
    k: int,
    i: int,
    x: u16,
    y: u16,
    height: u16,
    do_goto: bool,
) -> bool
    decreases cs.len() - k,
{
    if k >= cs.len() || k < 0 {
        true
    } else if k + 1 < cs.len() {
        if spec_count_without_styling(cs[k + 1]) % 0x10000 > 1 {
            placeable(do_goto, x, y + i) && (i + 1 < height ==> emit_ok(
                cs,
                k + 1,
                i + 1,
                x,
                y,
                height,
                do_goto,
            ))
        } else {
            placeable(do_goto, x, y + 1)
        }
    } else {
        placeable(do_goto, x, y + 1)
    }
}

/// Each chunk can be measured.
pub open spec fn chunks_measurable(chunks: Seq<Seq<char>>) -> bool {
    forall|j: int|
        0 <= j < chunks.len() ==> styling_closed(#[trigger] chunks[j])
            && spec_count_without_styling(chunks[j]) <= usize::MAX
}

/// `a` and `b` hold the same characters.
pub(crate) fn same_text(a: &str, b: &str) -> (r: bool)
    ensures
        r == (a@ == b@),
{
    let n = a.unicode_len();
    if n != b.unicode_len() {
        return false;
    }
    let mut i: usize = 0;
    while i < n
        invariant
            n == a@.len(),
            n == b@.len(),
            i <= n,
            a@.take(i as int) == b@.take(i as int),
        decreases n - i,
    {
        if a.get_char(i) != b.get_char(i) {
            return false;
        }
        proof {
            assert(a@.take(i + 1) =~= a@.take(i as int).push(a@[i as int]));
            assert(b@.take(i + 1) =~= b@.take(i as int).push(b@[i as int]));
        }
        i = i + 1;
    }
    proof {
        assert(a@.take(n as int) =~= a@);
        assert(b@.take(n as int) =~= b@);
    }
    true
}

/// `s` starts with `p`.
fn has_prefix(s: &str, p: &str) -> (r: bool)
    ensures
        r == starts_with(s@, p@),
{
    let n = p.unicode_len();
    if n > s.unicode_len() {
        return false;
    }
    let mut i: usize = 0;
    while i < n
        invariant
            n == p@.len(),
            n <= s@.len(),
            i <= n,
            s@.take(i as int) == p@.take(i as int),
        decreases n - i,
    {
        if s.get_char(i) != p.get_char(i) {
            proof {
                assert(s@.take(n as int)[i as int] != p@[i as int]);
            }
            return false;
        }
        proof {
            assert(s@.take(i + 1) =~= s@.take(i as int).push(s@[i as int]));
            assert(p@.take(i + 1) =~= p@.take(i as int).push(p@[i as int]));
        }
        i = i + 1;
    }
    proof {
        assert(p@.take(n as int) =~= p@);
    }
    true
}

/// `s` holds the character `c`.
fn has_char(s: &str, c: char) -> (r: bool)
    ensures
        r == s@.contains(c),
{
    let n = s.unicode_len();
    let mut i: usize = 0;
    while i < n
        invariant
            n == s@.len(),
            i <= n,
            forall|j: int| 0 <= j < i ==> s@[j] != c,
        decreases n - i,
    {
        if s.get_char(i) == c {
            return true;
        }
        i = i + 1;
    }
    false
}

/// The kind of reset that the escape sequence `e` is, as `reset_kind` says.
fn reset_kind_of(e: &str) -> (r: Option<u8>)
    ensures
        r == reset_kind(e@),
{
    proof {
        reveal_strlit("\x1b[m");
        reveal_strlit("\x1b[39m");
        reveal_strlit("\x1b[49m");
        assert("\x1b[m"@ =~= csi(seq!['m']));
        assert("\x1b[39m"@ =~= csi(seq!['3', '9', 'm']));
        assert("\x1b[49m"@ =~= csi(seq!['4', '9', 'm']));
    }
    if same_text(e, "\x1b[m") {
        Some(0)
    } else if same_text(e, "\x1b[39m") {
        Some(1)
    } else if same_text(e, "\x1b[49m") {
        Some(2)
    } else {
        None
    }
}

/// Whether a reset of `kind` cancels `e`, as `cancels` says.
fn cancels_esc(kind: u8, e: &str) -> (r: bool)
    ensures
        r == cancels(kind, e@),
{
    proof {
        reveal_strlit("\x1b[38;");
        reveal_strlit("\x1b[48;");
        assert("\x1b[38;"@ =~= csi(seq!['3', '8', ';']));
        assert("\x1b[48;"@ =~= csi(seq!['4', '8', ';']));
    }
    if kind == 0 {
        !has_char(e, ';')
    } else if kind == 1 {
        has_prefix(e, "\x1b[38;")
    } else {
        has_prefix(e, "\x1b[48;")
    }
}

/// The closing sequence of `e`, as `closing` says.
fn closing_of(e: &str) -> (r: String)
    ensures
        r@ == closing(e@),
{
    proof {
        reveal_strlit("\x1b[38;");
        reveal_strlit("\x1b[48;");
        assert("\x1b[38;"@ =~= csi(seq!['3', '8', ';']));
        assert("\x1b[48;"@ =~= csi(seq!['4', '8', ';']));
    }
    if has_prefix(e, "\x1b[38;") {
        String::from_str(ColorEscape::reset().inner())
    } else if has_prefix(e, "\x1b[48;") {
        String::from_str(ColorEscape::reset_bg().inner())
    } else {
        reset_style()
    }
}

/// The closing sequences and the reopenings of the open escape sequences `escs`.
fn close_and_reopen(escs: &Vec<String>) -> (r: (String, String))
    ensures
        r.0@ == closings(views(escs@)),
        r.1@ == reopenings(views(escs@)),
{
    let ghost v = views(escs@);
    let mut closed = String::new();
    let mut reopened = String::new();
    let mut j = escs.len();
    proof {
        assert(v.take(j as int) =~= v);
        assert(closings(v) =~= closed@ + closings(v.take(j as int)));
        assert(reopenings(v) =~= reopened@ + reopenings(v.take(j as int)));
    }
    while j > 0
        invariant
            v == views(escs@),
            j <= escs@.len(),
            closings(v) == closed@ + closings(v.take(j as int)),
            reopenings(v) == reopened@ + reopenings(v.take(j as int)),
        decreases j,
    {
        proof {
            assert(v.take(j as int).drop_last() =~= v.take(j - 1));
            assert(v.take(j as int).last() == v[j - 1]);
        }
        let c = closing_of(escs[j - 1].as_str());
        closed.append(c.as_str());
        reopened.append(escs[j - 1].as_str());
        j = j - 1;
    }
    proof {
        assert(v.take(0) =~= Seq::<Seq<char>>::empty());
        assert(closed@ =~= closed@ + closings(v.take(0)));
        assert(reopened@ =~= reopened@ + reopenings(v.take(0)));
    }
    (closed, reopened)
}

/// Appends `t` to `v[i]`.
fn append_at(v: &mut Vec<String>, i: usize, t: &str)
    requires
        i < old(v)@.len(),
    ensures
        views(final(v)@) == views(old(v)@).update(i as int, old(v)@[i as int]@ + t@),
        final(v)@.len() == old(v)@.len(),
{
    let mut c = v[i].clone();
    c.append(t);
    v.set(i, c);
    proof {
        assert(views(v@) =~= views(old(v)@).update(i as int, old(v)@[i as int]@ + t@));
    }
}

/// A step that could not be taken leaves the chunking stuck.
proof fn lemma_chunking_prefix_ok(gs: Seq<Seq<char>>, j: int, width: u16)
    requires
        0 <= j <= gs.len(),
        chunking(gs, width).ok,
    ensures
        chunking(gs.take(j), width).ok,
    decreases gs.len(),
{
    if j == gs.len() {
        assert(gs.take(j) =~= gs);
    } else {
        lemma_chunking_prefix_ok(gs.drop_last(), j, width);
        assert(gs.drop_last().take(j) =~= gs.take(j));
    }
}

/// A chunking that gets stuck on a prefix of the clusters stays stuck.
proof fn lemma_chunking_stuck(gs: Seq<Seq<char>>, j: int, width: u16)
    requires
        0 <= j <= gs.len(),
        !chunking(gs.take(j), width).ok,
    ensures
        !chunking(gs, width).ok,
{
    if chunking(gs, width).ok {
        lemma_chunking_prefix_ok(gs, j, width);
    }
}

/// The chunking after one more cluster.
proof fn lemma_chunking_next(gs: Seq<Seq<char>>, i: int, width: u16)
    requires
        0 <= i < gs.len(),
    ensures
        chunking(gs.take(i + 1), width) == chunk_step(chunking(gs.take(i), width), gs[i], width),
{
    assert(gs.take(i + 1).drop_last() =~= gs.take(i));
    assert(gs.take(i + 1).last() == gs[i]);
}

/// The position of the latest escape sequence among `escs[0..=j]` that a reset of `kind`
/// cancels, as `cancelled` says; none where there is none.
fn find_cancelled(escs: &Vec<String>, j: usize, kind: u8) -> (r: Option<usize>)
    requires
        j < escs@.len(),
    ensures
        r matches Some(k) ==> k == cancelled(views(escs@), j as int, kind) && k <= j,
        r is None ==> cancelled(views(escs@), j as int, kind) == -1,
{
    let ghost v = views(escs@);
    let n = escs.len();
    assert(j < n);
    let mut k = j + 1;
    while k > 0
        invariant
            v == views(escs@),
            k <= j + 1,
            j < escs@.len(),
            cancelled(v, j as int, kind) == cancelled(v, k - 1, kind),
        decreases k,
    {
        if cancels_esc(kind, escs[k - 1].as_str()) {
            return Some(k - 1);
        }
        k = k - 1;
    }
    None
}

/// Breaks `content` into the chunks that `chunking` describes.
fn chunk_text(content: &str, width: u16) -> (r: Option<Vec<String>>)
    ensures
        (r is Some) == chunking(grapheme_clusters(content@), width).ok,
        r matches Some(v) ==> views(v@) == chunking(grapheme_clusters(content@), width).chunks,
{
    let gs = graphemes(content);
    let ghost g = views(gs@);
    let mut idx: usize = 0;
    let mut cnt: usize = 0;
    let mut inside = false;
    let mut escs: Vec<String> = Vec::new();
    let mut chunks: Vec<String> = Vec::new();
    chunks.push(String::new());
    proof {
        assert(g.take(0) =~= Seq::<Seq<char>>::empty());
        assert(views(chunks@) =~= seq![Seq::<char>::empty()]);
        assert(views(escs@) =~= Seq::<Seq<char>>::empty());
    }
    let mut i: usize = 0;
    while i < gs.len()
        invariant
            g == views(gs@),
            g == grapheme_clusters(content@),
            i <= gs@.len(),
            chunks@.len() == idx + 1,
            chunking(g.take(i as int), width) == (Chunking {
                idx: idx as nat,
                cnt: cnt as int,
                inside,
                escs: views(escs@),
                chunks: views(chunks@),
                ok: true,
            }),
        decreases gs.len() - i,
    {
        proof {
            lemma_chunking_next(g, i as int, width);
        }
        let ghost before = chunking(g.take(i as int), width);
        let gi = gs[i].as_str();
        if is_single(gi, '\x1b') {
            inside = true;
            let ghost prev = escs@;
            escs.push(String::from_str("\x1b"));
            append_at(&mut chunks, idx, "\x1b");
            proof {
                reveal_strlit("\x1b");
                assert(escs@ =~= prev.push(escs@.last()));
                assert(escs@.last()@ == "\x1b"@);
                assert("\x1b"@ =~= esc());
                assert(escs@.last()@ == esc());
                assert(views(escs@) =~= views(prev).push(esc()));
            }
        } else if inside && escs.len() == 0 {
            proof {
                lemma_chunking_stuck(g, i + 1, width);
            }
            return None;
        } else if inside && !is_single(gi, 'm') {
            let last = escs.len() - 1;
            append_at(&mut escs, last, gi);
            append_at(&mut chunks, idx, gi);
            assert(views(escs@) =~= chunk_step(before, g[i as int], width).escs);
            assert(views(chunks@) =~= chunk_step(before, g[i as int], width).chunks);
        } else if inside {
            inside = false;
            append_at(&mut chunks, idx, "m");
            let ghost full = views(escs@);
            let mut e = escs.pop().unwrap();
            e.append("m");
            proof {
                reveal_strlit("m");
                assert(g[i as int] == seq!['m']);
                assert("m"@ == seq!['m']);
                assert(views(escs@) =~= full.drop_last());
                assert(e@ == full.last() + seq!['m']);
            }
            let ghost rest = views(escs@);
            match reset_kind_of(e.as_str()) {
                None => {
                    escs.push(e);
                    proof {
                        assert(views(escs@) =~= rest.push(full.last() + seq!['m']));
                    }
                },
                Some(kind) => {
                    if escs.len() > 0 {
                        match find_cancelled(&escs, escs.len() - 1, kind) {
                            Some(r) => {
                                escs.remove(r);
                                proof {
                                    assert(views(escs@) =~= rest.remove(r as int));
                                }
                            },
                            None => {},
                        }
                    }
                },
            }
            assert(views(escs@) =~= chunk_step(before, g[i as int], width).escs);
            assert(views(chunks@) =~= chunk_step(before, g[i as int], width).chunks);
        } else {
            let l = match count_checked(gi) {
                Some(l) => l,
                None => {
                    proof {
                        lemma_chunking_stuck(g, i + 1, width);
                    }
                    return None;
                },
            };
            let total = match cnt.checked_add(l) {
                Some(t) => t,
                None => {
                    proof {
                        lemma_chunking_stuck(g, i + 1, width);
                    }
                    return None;
                },
            };
            if total >= width as usize {
                let (closed, reopened) = close_and_reopen(&escs);
                append_at(&mut chunks, idx, closed.as_str());
                let mut next = reopened;
                next.append(gi);
                let ghost mid = views(chunks@);
                chunks.push(next);
                proof {
                    assert(views(chunks@) =~= mid.push(reopenings(before.escs) + g[i as int]));
                }
                idx = chunks.len() - 1;
                cnt = l;
                assert(views(escs@) =~= chunk_step(before, g[i as int], width).escs);
                assert(views(chunks@) =~= chunk_step(before, g[i as int], width).chunks);
            } else {
                cnt = total;
                append_at(&mut chunks, idx, gi);
                assert(views(escs@) =~= chunk_step(before, g[i as int], width).escs);
                assert(views(chunks@) =~= chunk_step(before, g[i as int], width).chunks);
            }
        }
        proof {
            assert(chunk_step(before, g[i as int], width).escs =~= views(escs@));
            assert(chunk_step(before, g[i as int], width).chunks =~= views(chunks@));
            assert(chunk_step(before, g[i as int], width) == (Chunking {
                idx: idx as nat,
                cnt: cnt as int,
                inside,
                escs: views(escs@),
                chunks: views(chunks@),
                ok: true,
            }));
        }
        i = i + 1;
    }
    proof {
        assert(g.take(i as int) =~= g);
    }
    Some(chunks)
}

/// The chunks that take up at least one column, as `visible` says.
fn visible_chunks(chunks: Vec<String>) -> (r: Vec<String>)
    requires
        chunks_measurable(views(chunks@)),
    ensures
        views(r@) == visible(views(chunks@)),
        chunks_measurable(views(r@)),
{
    let ghost v = views(chunks@);
    let mut kept: Vec<String> = Vec::new();
    let mut i: usize = 0;
    proof {
        assert(v.take(0) =~= Seq::<Seq<char>>::empty());
        assert(views(kept@) =~= visible(v.take(0)));
    }
    while i < chunks.len()
        invariant
            v == views(chunks@),
            chunks_measurable(v),
            i <= chunks@.len(),
            views(kept@) == visible(v.take(i as int)),
            chunks_measurable(views(kept@)),
        decreases chunks.len() - i,
    {
        proof {
            assert(v.take(i + 1).drop_last() =~= v.take(i as int));
            assert(v.take(i + 1).last() == v[i as int]);
            assert(styling_closed(v[i as int]));
        }
        let w = count_without_styling(chunks[i].as_str());
        if w != 0 {
            let ghost prev = kept@;
            kept.push(chunks[i].clone());
            proof {
                assert(views(kept@) =~= views(prev).push(v[i as int]));
                assert forall|j: int| 0 <= j < views(kept@).len() implies styling_closed(
                    #[trigger] views(kept@)[j],
                ) && spec_count_without_styling(views(kept@)[j]) <= usize::MAX by {
                    if j < prev.len() {
                        assert(views(kept@)[j] == views(prev)[j]);
                    }
                }
            }
        }
        i = i + 1;
    }
    proof {
        assert(v.take(i as int) =~= v);
    }
    kept
}

/// Writes `t`, after a move to column `x`, row `row` where `do_goto` holds.
fn write_line(target: &mut Vec<u8>, do_goto: bool, x: u16, row: u16, t: &str)
    requires
        placeable(do_goto, x, row as int),
    ensures
        final(target)@ == old(target)@ + encode_utf8(line(do_goto, x, row as int, t@)),
{
    let mut s = String::new();
    if do_goto {
        s.append(goto(x, row).as_str());
    }
    s.append(t);
    proof {
        assert(s@ =~= line(do_goto, x, row as int, t@));
    }
    write_str(target, s.as_str());
}

/// Writes the chunks `cs` as `emitted` says.
fn emit_chunks(target: &mut Vec<u8>, cs: &Vec<String>, x: u16, y: u16, height: u16, do_goto: bool)
    requires
        chunks_measurable(views(cs@)),
        emit_ok(views(cs@), 0, 0, x, y, height, do_goto),
    ensures
        final(target)@ == old(target)@ + emitted(views(cs@), 0, 0, x, y, height, do_goto),
{
    let ghost v = views(cs@);
    let mut k: usize = 0;
    let mut i: u16 = 0;
    proof {
        assert(old(target)@ + emitted(v, 0, 0, x, y, height, do_goto) =~= target@ + emitted(
            v,
            0,
            0,
            x,
            y,
            height,
            do_goto,
        ));
    }
    while k < cs.len()
        invariant
            v == views(cs@),
            chunks_measurable(v),
            k <= cs@.len(),
            i == 0 || i < height,
            emit_ok(v, k as int, i as int, x, y, height, do_goto),
            old(target)@ + emitted(v, 0, 0, x, y, height, do_goto) == target@ + emitted(
                v,
                k as int,
                i as int,
                x,
                y,
                height,
                do_goto,
            ),
        decreases cs.len() - k,
    {
        let ghost t0 = target@;
        if k + 1 < cs.len() {
            proof {
                assert(styling_closed(v[k + 1]));
            }
            let wn = count_without_styling(cs[k + 1].as_str());
            if wn > 1 {
                let mut t = cs[k].clone();
                if i as u32 + 1 >= height as u32 {
                    t.append("…");
                    proof {
                        reveal_strlit("…");
                        assert(t@ =~= v[k as int] + seq!['…']);
                    }
                    write_line(target, do_goto, x, y + i, t.as_str());
                    proof {
                        assert(target@ =~= t0 + emitted(v, k as int, i as int, x, y, height, do_goto));
                    }
                    return;
                } else {
                    t.append("-");
                    proof {
                        reveal_strlit("-");
                        assert(t@ =~= v[k as int] + seq!['-']);
                    }
                    write_line(target, do_goto, x, y + i, t.as_str());
                    proof {
                        assert(t0 + emitted(v, k as int, i as int, x, y, height, do_goto) =~= target@
                            + emitted(v, k + 1, i + 1, x, y, height, do_goto));
                    }
                    k = k + 1;
                    i = i + 1;
                }
            } else {
                let mut t = cs[k].clone();
                t.append(cs[k + 1].as_str());
                write_line(target, do_goto, x, y + 1, t.as_str());
                proof {
                    assert(target@ =~= t0 + emitted(v, k as int, i as int, x, y, height, do_goto));
                }
                return;
            }
        } else {
            write_line(target, do_goto, x, y + 1, cs[k].as_str());
            proof {
                assert(target@ =~= t0 + emitted(v, k as int, i as int, x, y, height, do_goto));
            }
            return;
        }
    }
    proof {
        assert(target@ =~= old(target)@ + emitted(v, 0, 0, x, y, height, do_goto));
    }
}

/// Whether every chunk can be measured, as `chunks_measurable` says.
fn all_measurable_chunks(chunks: &Vec<String>) -> (r: bool)
    ensures
        r == chunks_measurable(views(chunks@)),
{
    let ghost v = views(chunks@);
    let mut i: usize = 0;
    while i < chunks.len()
        invariant
            v == views(chunks@),
            i <= chunks@.len(),
            forall|j: int|
                0 <= j < i ==> styling_closed(#[trigger] v[j]) && spec_count_without_styling(v[j])
                    <= usize::MAX,
        decreases chunks.len() - i,
    {
        if !is_measurable(chunks[i].as_str()) {
            assert(!(styling_closed(v[i as int]) && spec_count_without_styling(v[i as int])
                <= usize::MAX));
            return false;
        }
        i = i + 1;
    }
    true
}

/// Whether a move to column `x`, row `row` can be written, as `placeable` says.
fn can_place(do_goto: bool, x: u16, row: u32) -> (r: bool)
    ensures
        r == placeable(do_goto, x, row as int),
{
    row <= 0xffff && (!do_goto || x != 0 || row != 0)
}

/// Whether every line that `emitted` writes for `cs` can be placed, as `emit_ok` says.
fn emit_check(cs: &Vec<String>, x: u16, y: u16, height: u16, do_goto: bool) -> (r: bool)
    requires
        chunks_measurable(views(cs@)),
    ensures
        r == emit_ok(views(cs@), 0, 0, x, y, height, do_goto),
{
    let ghost v = views(cs@);
    let mut k: usize = 0;
    let mut i: u32 = 0;
    while k < cs.len()
        invariant
            v == views(cs@),
            chunks_measurable(v),
            k <= cs@.len(),
            i <= k,
            i <= height,
            emit_ok(v, 0, 0, x, y, height, do_goto) == emit_ok(v, k as int, i as int, x, y, height, do_goto),
        decreases cs.len() - k,
    {
        if k + 1 < cs.len() {
            proof {
                assert(styling_closed(v[k + 1]));
            }
            let wn = count_without_styling(cs[k + 1].as_str());
            if wn > 1 {
                if !can_place(do_goto, x, y as u32 + i) {
                    return false;
                }
                if i + 1 >= height as u32 {
                    return true;
                }
                k = k + 1;
                i = i + 1;
            } else {
                return can_place(do_goto, x, y as u32 + 1);
            }
        } else {
            return can_place(do_goto, x, y as u32 + 1);
        }
    }
    true
}

/// A text, placed in its box by the horizontal alignment `AX` and the vertical one `AY`.
pub struct Text<AX, AY> {
    do_goto: bool,
    content: String,
    _align: PhantomData<(AX, AY)>,
}

impl<AX, AY> Text<AX, AY> {
    /// The text.
    pub closed spec fn content(&self) -> Seq<char> {
        self.content@
    }

    /// Whether drawing starts with a move to the text's position.
    pub closed spec fn goes_to(&self) -> bool {
        self.do_goto
    }

    /// The text `t`, drawn after a move to its position where `do_goto` holds, and where the
    /// cursor stands otherwise.
    pub fn new(do_goto: bool, t: String) -> (r: Text<AX, AY>)
        ensures
            r.content() == t@,
            r.goes_to() == do_goto,
    {
        Text { do_goto, content: t, _align: PhantomData }
    }

    /// The text.
    pub fn inner(&self) -> (r: &str)
        ensures
            r@ == self.content(),
    {
        self.content.as_str()
    }
}

/// The column offset of a single line: the one offset, or the first of the offsets.
pub open spec fn first_offset(a: x::AlignmentView) -> int {
    match a {
        x::AlignmentView::Single(c) => c as int,
        x::AlignmentView::Each(v) => v[0] as int,
    }
}

/// The column where a text `c` starts in a box `width` columns wide at column `x_off`.
pub open spec fn text_column<AX: x::Align>(c: Seq<char>, width: u16, x_off: u16) -> int {
    x_off + first_offset(AX::offset(seq![c], width))
}

/// The row where a text starts in a box `height` rows high at row `y_off`.
pub open spec fn text_row<AY: y::Align>(height: u16, y_off: u16) -> int {
    y_off + AY::offset(1, height)
}

/// The text `c` can be drawn in the box: the alignment takes it and gives one offset; the
/// position and the rows written fit 16 bits and none is 0, 0 where moves are written; its
/// escape sequences are closed and its width fits a `usize`; where it is wider than the box,
/// breaking it into chunks takes every step and leaves measurable chunks.
pub open spec fn text_drawable<AX: x::Align, AY: y::Align>(
    c: Seq<char>,
    do_goto: bool,
    width: u16,
    height: u16,
    x_off: u16,
    y_off: u16,
) -> bool {
    let col = text_column::<AX>(c, width, x_off);
    let row = text_row::<AY>(height, y_off);
    &&& AX::accepts(seq![c])
    &&& AX::offset(seq![c], width) matches x::AlignmentView::Each(v) ==> v.len() == 1
    &&& col <= u16::MAX
    &&& row <= u16::MAX
    &&& styling_closed(c)
    &&& spec_count_without_styling(c) <= usize::MAX
    &&& if spec_count_without_styling(c) % 0x10000 <= width {
        placeable(do_goto, col as u16, row)
    } else {
        let ch = chunking(grapheme_clusters(c), width);
        &&& ch.ok
        &&& chunks_measurable(ch.chunks)
        &&& emit_ok(visible(ch.chunks), 0, 0, col as u16, row as u16, height, do_goto)
    }
}

/// What drawing the text `c` writes: the text on its row where it fits the width (by the
/// 16-bit count), and otherwise its visible chunks, as `emitted` says.
pub open spec fn text_drawn<AX: x::Align, AY: y::Align>(
    c: Seq<char>,
    do_goto: bool,
    width: u16,
    height: u16,
    x_off: u16,
    y_off: u16,
) -> Seq<u8> {
    let col = text_column::<AX>(c, width, x_off) as u16;
    let row = text_row::<AY>(height, y_off);
    if spec_count_without_styling(c) % 0x10000 <= width {
        encode_utf8(line(do_goto, col, row, c))
    } else {
        emitted(
            visible(chunking(grapheme_clusters(c), width).chunks),
            0,
            0,
            col,
            row as u16,
            height,
            do_goto,
        )
    }
}

impl<AX: x::Align, AY: y::Align> Text<AX, AY> {
    /// The text can be drawn in the `width` by `height` box at column `x_off` and row `y_off`.
    pub open spec fn drawable(&self, width: u16, height: u16, x_off: u16, y_off: u16) -> bool {
        text_drawable::<AX, AY>(self.content(), self.goes_to(), width, height, x_off, y_off)
    }

    /// What drawing the text in that box writes.
    pub open spec fn drawn(&self, width: u16, height: u16, x_off: u16, y_off: u16) -> Seq<u8> {
        text_drawn::<AX, AY>(self.content(), self.goes_to(), width, height, x_off, y_off)
    }

    /// Whether the text can be drawn in the `width` by `height` box at column `x_off` and row
    /// `y_off`, as `drawable` says.
    pub fn can_draw(&self, width: u16, height: u16, x_off: u16, y_off: u16) -> (r: bool)
        ensures
            r == self.drawable(width, height, x_off, y_off),
    {
        let content = self.content.as_str();
        let lines: [&str; 1] = [content];
        proof {
            assert(x::lines_view(lines@) =~= seq![self.content()]);
        }
        if !AX::accepts_lines(&lines) {
            return false;
        }
        let ax = match AX::align_offset(&lines, width) {
            x::Alignment::Single(c) => c,
            x::Alignment::Each(v) => {
                if v.len() != 1 {
                    return false;
                }
                v[0]
            },
        };
        let col = x_off as u32 + ax as u32;
        let row = y_off as u32 + AY::align_offset(&lines, height) as u32;
        if col > 0xffff || row > 0xffff {
            return false;
        }
        if !is_measurable(content) {
            return false;
        }
        let len = count_without_styling(content);
        if width >= len {
            can_place(self.do_goto, col as u16, row)
        } else {
            match chunk_text(content, width) {
                None => false,
                Some(chunks) => {
                    if !all_measurable_chunks(&chunks) {
                        return false;
                    }
                    let cs = visible_chunks(chunks);
                    emit_check(&cs, col as u16, row as u16, height, self.do_goto)
                },
            }
        }
    }

    /// Draws the text into `target`, in the `width` by `height` box at column `x_off` and row
    /// `y_off`.
    pub fn render(&self, target: &mut Vec<u8>, width: u16, height: u16, x_off: u16, y_off: u16)
        requires
            self.drawable(width, height, x_off, y_off),
        ensures
            final(target)@ == old(target)@ + self.drawn(width, height, x_off, y_off),
    {
        let content = self.content.as_str();
        let lines: [&str; 1] = [content];
        proof {
            assert(x::lines_view(lines@) =~= seq![self.content()]);
        }
        let ax = match AX::align_offset(&lines, width) {
            x::Alignment::Single(c) => c,
            x::Alignment::Each(v) => v[0],
        };
        let col = x_off + ax;
        let row = y_off + AY::align_offset(&lines, height);
        let len = count_without_styling(content);
        if width >= len {
            write_line(target, self.do_goto, col, row, content);
        } else {
            let chunks = chunk_text(content, width).unwrap();
            let cs = visible_chunks(chunks);
            emit_chunks(target, &cs, col, row, height, self.do_goto);
        }
    }

    /// Draws the text where it can be drawn, as `render` does, and tells whether it could; where
    /// it cannot (an escape sequence left open, a row past the box), nothing is written.
    pub fn draw(&self, target: &mut Vec<u8>, width: u16, height: u16, x_off: u16, y_off: u16) -> (r: bool)
        ensures
            r == self.drawable(width, height, x_off, y_off),
            r ==> final(target)@ == old(target)@ + self.drawn(width, height, x_off, y_off),
            !r ==> final(target)@ == old(target)@,
    {
        if self.can_draw(width, height, x_off, y_off) {
            self.render(target, width, height, x_off, y_off);
            true
        } else {
            false
        }
    }
}

} // verus!
