//! Text measurement, alignment, colors, filtering and formatting helpers.
use unicode_segmentation::UnicodeSegmentation;
use unicode_width::UnicodeWidthStr;
use vstd::prelude::*;

pub mod align;
pub mod color;
pub mod filter;
pub mod fmt;
pub mod term;

verus! {

/// The extended grapheme clusters of a string, as `unicode_segmentation` splits it.
pub uninterp spec fn grapheme_clusters(s: Seq<char>) -> Seq<Seq<char>>;

/// The display width of a string, as `unicode_width` measures it.
pub uninterp spec fn display_width(s: Seq<char>) -> usize;

/// Joins a sequence of strings.
pub open spec fn concat(gs: Seq<Seq<char>>) -> Seq<char>
    decreases gs.len(),
{
    if gs.len() == 0 {
        Seq::empty()
    } else {
        concat(gs.drop_last()) + gs.last()
    }
}

/// The views of a vector of strings.
pub open spec fn views(v: Seq<String>) -> Seq<Seq<char>> {
    v.map_values(|s: String| s@)
}

/// Whether every character of `s` is printable ASCII, from a blank to `~`.
pub open spec fn printable_ascii(s: Seq<char>) -> bool {
    forall|i: int| 0 <= i < s.len() ==> 0x20 <= (#[trigger] s[i] as u32) <= 0x7e
}

/// Each character of `s` on its own.
pub open spec fn single_chars(s: Seq<char>) -> Seq<Seq<char>> {
    Seq::new(s.len(), |i: int| seq![s[i]])
}

/// Splits `s` into its extended grapheme clusters (`UnicodeSegmentation::graphemes(s, true)`).
/// The clusters are consecutive, non-empty slices of `s`, so they join back to `s`. Printable
/// ASCII characters (U+0020 to U+007E) all fall in the crate's category `Any`, between two of
/// which its pair rule always breaks, so a text of them splits into its characters; which
/// boundaries Unicode picks elsewhere is left to the name `grapheme_clusters`.
#[verifier::external_body]
pub(crate) fn graphemes(s: &str) -> (r: Vec<String>)
    ensures
        views(r@) == grapheme_clusters(s@),
        concat(views(r@)) == s@,
        forall|i: int| 0 <= i < r@.len() ==> #[trigger] r@[i]@.len() > 0,
        printable_ascii(s@) ==> views(r@) == single_chars(s@),
{
    s.graphemes(true).map(String::from).collect()
}

/// The display width of `s` (`UnicodeWidthStr::width`).
#[verifier::external_body]
pub(crate) fn width(s: &str) -> (r: usize)
    ensures
        r == display_width(s@),
{
    s.width()
}


/// Joining the characters of `s`, each on its own, gives `s`.
pub proof fn lemma_concat_single_chars(s: Seq<char>)
    ensures
        concat(single_chars(s)) == s,
    decreases s.len(),
{
    if s.len() > 0 {
        lemma_concat_single_chars(s.drop_last());
        assert(single_chars(s).drop_last() =~= single_chars(s.drop_last()));
        assert(concat(single_chars(s)) =~= s);
    }
}

/// Joining distributes over appending.
pub proof fn lemma_concat_add(a: Seq<Seq<char>>, b: Seq<Seq<char>>)
    ensures
        concat(a + b) == concat(a) + concat(b),
    decreases b.len(),
{
    if b.len() == 0 {
        assert(a + b =~= a);
        assert(concat(b) + Seq::empty() =~= concat(b));
        assert(concat(a) + concat(b) =~= concat(a));
    } else {
        lemma_concat_add(a, b.drop_last());
        assert((a + b).drop_last() =~= a + b.drop_last());
        assert(concat(a) + concat(b) =~= concat(a) + concat(b.drop_last()) + b.last());
    }
}

/// Joining a single string gives that string.
pub proof fn lemma_concat_single(x: Seq<char>)
    ensures
        concat(seq![x]) == x,
{
    assert(seq![x].drop_last() =~= Seq::<Seq<char>>::empty());
    assert(concat(Seq::<Seq<char>>::empty()) + x =~= x);
}

/// Joining a prefix and the matching suffix gives the whole.
pub proof fn lemma_concat_split(gs: Seq<Seq<char>>, i: int)
    requires
        0 <= i <= gs.len(),
    ensures
        concat(gs) == concat(gs.take(i)) + concat(gs.skip(i)),
{
    assert(gs =~= gs.take(i) + gs.skip(i));
    lemma_concat_add(gs.take(i), gs.skip(i));
}

/// A joined sequence of non-empty strings is at least as long as the sequence.
pub proof fn lemma_concat_len(gs: Seq<Seq<char>>)
    requires
        forall|i: int| 0 <= i < gs.len() ==> #[trigger] gs[i].len() > 0,
    ensures
        gs.len() <= concat(gs).len(),
    decreases gs.len(),
{
    if gs.len() > 0 {
        lemma_concat_len(gs.drop_last());
    }
}

/// Appends `c` to `s` (`String::push`).
#[verifier::external_body]
pub(crate) fn push_char(s: &mut String, c: char)
    ensures
        final(s)@ == old(s)@.push(c),
{
    s.push(c);
}

/// Appends the strings `v[from..to]` to `s`.
pub(crate) fn append_all(s: &mut String, v: &Vec<String>, from: usize, to: usize)
    requires
        from <= to <= v@.len(),
    ensures
        final(s)@ == old(s)@ + concat(views(v@).subrange(from as int, to as int)),
{
    let ghost g = views(v@);
    let mut i = from;
    while i < to
        invariant
            from <= i <= to <= v@.len(),
            g == views(v@),
            s@ == old(s)@ + concat(g.subrange(from as int, i as int)),
        decreases to - i,
    {
        s.append(v[i].as_str());
        proof {
            assert(g.subrange(from as int, i + 1).drop_last() =~= g.subrange(from as int, i as int));
        }
        i = i + 1;
    }
}

/// Writes the UTF-8 bytes of `s` to `target`.
pub(crate) fn write_str(target: &mut Vec<u8>, s: &str)
    ensures
        final(target)@ == old(target)@ + vstd::utf8::encode_utf8(s@),
{
    let b = s.as_bytes();
    let mut i: usize = 0;
    while i < b.len()
        invariant
            b@ == vstd::utf8::encode_utf8(s@),
            i <= b@.len(),
            target@ == old(target)@ + b@.take(i as int),
        decreases b.len() - i,
    {
        target.push(b[i]);
        i = i + 1;
        proof {
            assert(target@ =~= old(target)@ + b@.take(i as int));
        }
    }
    proof {
        assert(b@.take(i as int) =~= b@);
    }
}

/// `s` consists of the single character `c`.
pub(crate) fn is_single(s: &str, c: char) -> (r: bool)
    ensures
        r == (s@ == seq![c]),
{
    if s.unicode_len() == 1 {
        let d = s.get_char(0);
        proof {
            if d == c {
                assert(s@ =~= seq![c]);
            }
        }
        d == c
    } else {
        false
    }
}

/// The summed display width of a sequence of grapheme clusters.
pub open spec fn widths(gs: Seq<Seq<char>>) -> int
    decreases gs.len(),
{
    if gs.len() == 0 {
        0
    } else {
        widths(gs.drop_last()) + display_width(gs.last())
    }
}

/// The terminal width of `l`: the display widths of its grapheme clusters, summed.
pub open spec fn spec_count(l: Seq<char>) -> int {
    widths(grapheme_clusters(l))
}

/// A prefix never measures wider than the whole.
pub proof fn lemma_widths_prefix(gs: Seq<Seq<char>>, i: int)
    requires
        0 <= i <= gs.len(),
    ensures
        0 <= widths(gs.take(i)) <= widths(gs),
    decreases gs.len(),
{
    if gs.len() > 0 {
        if i == gs.len() {
            assert(gs.take(i) =~= gs);
            lemma_widths_prefix(gs.drop_last(), i - 1);
            assert(gs.drop_last().take(i - 1) =~= gs.drop_last());
        } else {
            lemma_widths_prefix(gs.drop_last(), i);
            assert(gs.drop_last().take(i) =~= gs.take(i));
        }
    } else {
        assert(gs.take(i) =~= gs);
    }
}

/// Counts the terminal columns that `l` takes up.
pub fn count(l: &str) -> (r: usize)
    requires
        spec_count(l@) <= usize::MAX,
    ensures
        r == spec_count(l@),
{
    let gs = graphemes(l);
    let ghost g = views(gs@);
    let mut sum: usize = 0;
    let mut i: usize = 0;
    while i < gs.len()
        invariant
            g == grapheme_clusters(l@),
            g == views(gs@),
            widths(g) <= usize::MAX,
            i <= gs.len(),
            sum == widths(g.take(i as int)),
        decreases gs.len() - i,
    {
        let w = width(gs[i].as_str());
        proof {
            assert(g.take(i + 1).drop_last() =~= g.take(i as int));
            lemma_widths_prefix(g, i + 1);
        }
        sum = sum + w;
        i = i + 1;
    }
    proof {
        assert(g.take(i as int) =~= g);
    }
    sum
}

/// Counts the terminal columns that `l` takes up where the count fits a `usize`.
pub fn count_checked(l: &str) -> (r: Option<usize>)
    ensures
        r matches Some(n) ==> n == spec_count(l@),
        r is None ==> spec_count(l@) > usize::MAX,
{
    let gs = graphemes(l);
    let ghost g = views(gs@);
    let mut sum: usize = 0;
    let mut i: usize = 0;
    while i < gs.len()
        invariant
            g == grapheme_clusters(l@),
            g == views(gs@),
            i <= gs.len(),
            sum == widths(g.take(i as int)),
        decreases gs.len() - i,
    {
        let w = width(gs[i].as_str());
        proof {
            assert(g.take(i + 1).drop_last() =~= g.take(i as int));
            lemma_widths_prefix(g, i + 1);
        }
        match sum.checked_add(w) {
            Some(t) => sum = t,
            None => return None,
        }
        i = i + 1;
    }
    proof {
        assert(g.take(i as int) =~= g);
    }
    Some(sum)
}

/// An escape sequence starts with the cluster ESC.
pub open spec fn is_escape(g: Seq<char>) -> bool {
    g == seq!['\x1b']
}

/// An escape sequence ends with the cluster "m".
pub open spec fn is_escape_end(g: Seq<char>) -> bool {
    g == seq!['m']
}

/// The width of the clusters from `i` on, skipping escape sequences; `inside` tells whether
/// cluster `i` lies within an escape sequence.
pub open spec fn unstyled_width(gs: Seq<Seq<char>>, i: int, inside: bool) -> int
    decreases gs.len() - i,
{
    if i >= gs.len() || i < 0 {
        0
    } else if inside {
        unstyled_width(gs, i + 1, !is_escape_end(gs[i]))
    } else if is_escape(gs[i]) {
        unstyled_width(gs, i + 1, true)
    } else {
        display_width(gs[i]) + unstyled_width(gs, i + 1, false)
    }
}

/// Every escape sequence from cluster `i` on is closed by an "m".
pub open spec fn escapes_closed(gs: Seq<Seq<char>>, i: int, inside: bool) -> bool
    decreases gs.len() - i,
{
    if i >= gs.len() || i < 0 {
        !inside
    } else if inside {
        escapes_closed(gs, i + 1, !is_escape_end(gs[i]))
    } else if is_escape(gs[i]) {
        escapes_closed(gs, i + 1, true)
    } else {
        escapes_closed(gs, i + 1, false)
    }
}

/// The width of `l` without its escape sequences.
pub open spec fn spec_count_without_styling(l: Seq<char>) -> int {
    unstyled_width(grapheme_clusters(l), 0, false)
}

/// `l` holds no escape sequence left open.
pub open spec fn styling_closed(l: Seq<char>) -> bool {
    escapes_closed(grapheme_clusters(l), 0, false)
}

proof fn lemma_unstyled_nonneg(gs: Seq<Seq<char>>, i: int, inside: bool)
    ensures
        unstyled_width(gs, i, inside) >= 0,
    decreases gs.len() - i,
{
    if 0 <= i < gs.len() {
        if inside {
            lemma_unstyled_nonneg(gs, i + 1, !is_escape_end(gs[i]));
        } else if is_escape(gs[i]) {
            lemma_unstyled_nonneg(gs, i + 1, true);
        } else {
            lemma_unstyled_nonneg(gs, i + 1, false);
        }
    }
}

/// Counts the terminal columns that `l` takes up, not counting escape sequences (an ESC up to
/// and including the next "m"); the count is truncated to 16 bits.
pub fn count_without_styling(l: &str) -> (r: u16)
    requires
        styling_closed(l@),
        spec_count_without_styling(l@) <= usize::MAX,
    ensures
        r as int == spec_count_without_styling(l@) % 0x10000,
{
    let gs = graphemes(l);
    let ghost g = views(gs@);
    let mut sum: usize = 0;
    let mut inside = false;
    let mut i: usize = 0;
    while i < gs.len()
        invariant
            g == grapheme_clusters(l@),
            g == views(gs@),
            i <= gs.len(),
            escapes_closed(g, i as int, inside),
            sum + unstyled_width(g, i as int, inside) == unstyled_width(g, 0, false),
            unstyled_width(g, 0, false) <= usize::MAX,
        decreases gs.len() - i,
    {
        let s = gs[i].as_str();
        proof {
            lemma_unstyled_nonneg(g, i + 1, false);
        }
        if inside {
            inside = !is_single(s, 'm');
        } else if is_single(s, '\x1b') {
            inside = true;
        } else {
            sum = sum + width(s);
        }
        i = i + 1;
    }
    let r = sum as u16;
    assert(r == sum % 0x10000) by (bit_vector)
        requires
            r == sum as u16,
    ;
    r
}

/// Whether `l` can be measured by `count_without_styling`: its escape sequences are closed and
/// its width fits a `usize`.
pub fn is_measurable(l: &str) -> (r: bool)
    ensures
        r == (styling_closed(l@) && spec_count_without_styling(l@) <= usize::MAX),
{
    let gs = graphemes(l);
    let ghost g = views(gs@);
    let mut sum: usize = 0;
    let mut inside = false;
    let mut i: usize = 0;
    while i < gs.len()
        invariant
            g == grapheme_clusters(l@),
            g == views(gs@),
            i <= gs.len(),
            escapes_closed(g, 0, false) == escapes_closed(g, i as int, inside),
            sum + unstyled_width(g, i as int, inside) == unstyled_width(g, 0, false),
        decreases gs.len() - i,
    {
        let s = gs[i].as_str();
        proof {
            lemma_unstyled_nonneg(g, i + 1, false);
        }
        if inside {
            inside = !is_single(s, 'm');
        } else if is_single(s, '\x1b') {
            inside = true;
        } else {
            match sum.checked_add(width(s)) {
                Some(t) => sum = t,
                None => return false,
            }
        }
        i = i + 1;
    }
    !inside
}

/// The order of two strings, character by character by code point, a prefix first: -1, 0 or 1.
/// (On UTF-8 text this is the byte order that `str` compares by.)
pub open spec fn text_order(a: Seq<char>, b: Seq<char>) -> int
    decreases a.len(),
{
    if a.len() == 0 {
        if b.len() == 0 {
            0
        } else {
            -1
        }
    } else if b.len() == 0 {
        1
    } else if (a[0] as u32) < (b[0] as u32) {
        -1
    } else if (a[0] as u32) > (b[0] as u32) {
        1
    } else {
        text_order(a.drop_first(), b.drop_first())
    }
}

/// Compares two strings as `text_order` does.
pub fn compare_text(a: &str, b: &str) -> (r: i8)
    ensures
        r as int == text_order(a@, b@),
{
    let n = a.unicode_len();
    let m = b.unicode_len();
    let mut i: usize = 0;
    assert(a@.skip(0) =~= a@);
    assert(b@.skip(0) =~= b@);
    while i < n && i < m
        invariant
            n == a@.len(),
            m == b@.len(),
            i <= n,
            i <= m,
            text_order(a@, b@) == text_order(a@.skip(i as int), b@.skip(i as int)),
        decreases n - i,
    {
        let x = a.get_char(i) as u32;
        let y = b.get_char(i) as u32;
        proof {
            assert(a@.skip(i as int)[0] == a@[i as int]);
            assert(b@.skip(i as int)[0] == b@[i as int]);
            assert(a@.skip(i as int).drop_first() =~= a@.skip(i + 1));
            assert(b@.skip(i as int).drop_first() =~= b@.skip(i + 1));
        }
        if x < y {
            return -1;
        } else if x > y {
            return 1;
        }
        i = i + 1;
    }
    if i == n {
        if i == m {
            proof {
                assert(a@.skip(i as int).len() == 0);
                assert(b@.skip(i as int).len() == 0);
            }
            0
        } else {
            assert(a@.skip(i as int).len() == 0);
            -1
        }
    } else {
        assert(b@.skip(i as int).len() == 0);
        1
    }
}

/// The decimal digits of `n`, as text.
pub fn decimal_string(n: u64) -> (r: String)
    ensures
        r@ == term::decimal(n as nat),
    decreases n,
{
    if n < 10 {
        let mut s = String::new();
        push_char(&mut s, digit_char(n));
        proof {
            assert(s@ =~= term::decimal(n as nat));
        }
        s
    } else {
        let mut s = decimal_string(n / 10);
        push_char(&mut s, digit_char(n % 10));
        s
    }
}

fn digit_char(d: u64) -> (r: char)
    requires
        d < 10,
    ensures
        r == term::digit(d as nat),
{
    if d == 0 { '0' } else if d == 1 { '1' } else if d == 2 { '2' } else if d == 3 { '3' }
    else if d == 4 { '4' } else if d == 5 { '5' } else if d == 6 { '6' } else if d == 7 { '7' }
    else if d == 8 { '8' } else { '9' }
}

/// Without escape sequences, the width from cluster `i` on is the width of the whole less
/// that of the clusters before `i`.
proof fn lemma_unstyled_suffix(gs: Seq<Seq<char>>, i: int)
    requires
        0 <= i <= gs.len(),
        forall|j: int| 0 <= j < gs.len() ==> !is_escape(#[trigger] gs[j]),
    ensures
        unstyled_width(gs, i, false) + widths(gs.take(i)) == widths(gs),
        escapes_closed(gs, i, false),
    decreases gs.len() - i,
{
    if i == gs.len() {
        assert(gs.take(i) =~= gs);
    } else {
        lemma_unstyled_suffix(gs, i + 1);
        assert(gs.take(i + 1).drop_last() =~= gs.take(i));
        assert(gs.take(i + 1).last() == gs[i]);
        assert(!is_escape(gs[i]));
    }
}

/// A text without escape sequences measures the same with and without skipping styling: its
/// escape sequences are trivially closed, and `count_without_styling` reports the width that
/// `count` does, in 16 bits.
pub proof fn lemma_unstyled_text_width(l: Seq<char>)
    requires
        forall|j: int|
            0 <= j < grapheme_clusters(l).len() ==> #[trigger] grapheme_clusters(l)[j] != seq![
                '\x1b',
            ],
    ensures
        styling_closed(l),
        spec_count_without_styling(l) == spec_count(l),
{
    let gs = grapheme_clusters(l);
    assert forall|j: int| 0 <= j < gs.len() implies !is_escape(#[trigger] gs[j]) by {
        assert(gs[j] != seq!['\x1b']);
    }
    lemma_unstyled_suffix(gs, 0);
    assert(gs.take(0) =~= Seq::<Seq<char>>::empty());
}

} // verus!
