//! The torrent filter: a text input whose words select torrents by name, tracker, progress,
//! size and status.
use vstd::prelude::*;

use crate::rpc::{
    Criterion, CriterionView, FilterRequest, Operation, RequestView, ResourceKind, Term, TermView, Value,
    ValueView, terms_view,
};
use crate::tui::widgets::{concat_without, inserted, Input};
use crate::tui::{HandleInput, InputResult, Key};
use crate::utils::color::{fg_seq, reset_fg_seq, ColorEscape};
use crate::utils::{concat, grapheme_clusters, push_char};

verus! {

/// A character of the Unicode `White_Space` property.
pub open spec fn is_ws(c: char) -> bool {
    let v = c as u32;
    (0x9 <= v <= 0xd) || v == 0x20 || v == 0x85 || v == 0xa0 || v == 0x1680 || (0x2000 <= v
        <= 0x200a) || v == 0x2028 || v == 0x2029 || v == 0x202f || v == 0x205f || v == 0x3000
}

/// Whether `c` is white space (`char::is_whitespace`).
pub fn is_whitespace(c: char) -> (r: bool)
    ensures
        r == is_ws(c),
{
    let v = c as u32;
    (0x9 <= v && v <= 0xd) || v == 0x20 || v == 0x85 || v == 0xa0 || v == 0x1680 || (0x2000 <= v
        && v <= 0x200a) || v == 0x2028 || v == 0x2029 || v == 0x202f || v == 0x205f || v == 0x3000
}

/// The words of `s`: its longest runs of characters that are not white space, in order.
pub open spec fn words(s: Seq<char>) -> Seq<Seq<char>>
    decreases s.len(),
{
    if s.len() == 0 {
        Seq::empty()
    } else {
        let w = words(s.drop_last());
        let c = s.last();
        if is_ws(c) {
            w
        } else if s.len() >= 2 && !is_ws(s[s.len() - 2]) {
            w.drop_last().push(w.last().push(c))
        } else {
            w.push(seq![c])
        }
    }
}

/// Splits `s` into its words (`str::split_whitespace`).
pub fn split_whitespace(s: &str) -> (r: Vec<String>)
    ensures
        crate::utils::views(r@) == words(s@),
{
    let n = s.unicode_len();
    let mut ws: Vec<String> = Vec::new();
    let mut in_word = false;
    let mut i: usize = 0;
    while i < n
        invariant
            n == s@.len(),
            i <= n,
            crate::utils::views(ws@) == words(s@.take(i as int)),
            in_word == (i > 0 && !is_ws(s@[i - 1])),
            in_word ==> ws@.len() > 0,
        decreases n - i,
    {
        let c = s.get_char(i);
        proof {
            assert(s@.take(i + 1).drop_last() =~= s@.take(i as int));
            assert(s@.take(i + 1).last() == c);
        }
        let ghost before = crate::utils::views(ws@);
        if is_whitespace(c) {
            in_word = false;
        } else if in_word {
            let mut last = ws.pop().unwrap();
            push_char(&mut last, c);
            ws.push(last);
            proof {
                assert(crate::utils::views(ws@) =~= before.drop_last().push(before.last().push(c)));
            }
        } else {
            let mut w = String::new();
            push_char(&mut w, c);
            ws.push(w);
            in_word = true;
            proof {
                assert(Seq::<char>::empty().push(c) =~= seq![c]);
                assert(crate::utils::views(ws@) =~= before.push(seq![c]));
            }
        }
        i = i + 1;
    }
    proof {
        assert(s@.take(n as int) =~= s@);
    }
    ws
}

/// An ASCII character.
pub open spec fn is_ascii_char(c: char) -> bool {
    (c as u32) < 0x80
}

/// A word that may be a criterion: at least three characters, the first two ASCII.
pub open spec fn shaped(w: Seq<char>) -> bool {
    w.len() >= 3 && is_ascii_char(w[0]) && is_ascii_char(w[1])
}

/// What a word of the filter stands for.
pub enum WordRole {
    /// Part of the torrent name.
    Name,
    /// A criterion.
    Term(TermView),
    /// Nothing.
    Skip,
}

/// The comparison of a progress criterion: `:` equal, `<` less, `>` greater.
pub open spec fn progress_op(c: char) -> Option<Operation> {
    if c == ':' {
        Some(Operation::Eq)
    } else if c == '<' {
        Some(Operation::LT)
    } else if c == '>' {
        Some(Operation::GT)
    } else {
        None
    }
}

/// The comparison of a size criterion: `<` at most, `>` at least.
pub open spec fn size_op(c: char) -> Option<Operation> {
    if c == '<' {
        Some(Operation::LTE)
    } else if c == '>' {
        Some(Operation::GTE)
    } else {
        None
    }
}

/// The torrent status that the rest of a status word names: a word starting with `pe` is
/// pending; otherwise its first letter decides: `i` idle, `s` seeding, `l` leeching, `e` error,
/// `p` paused, `n` pending, `h` hashing, `m` magnet.
pub open spec fn status_name(w: Seq<char>) -> Option<Seq<char>> {
    if w.len() >= 2 && w[0] == 'p' && w[1] == 'e' {
        Some(seq!['p', 'e', 'n', 'd', 'i', 'n', 'g'])
    } else if w.len() == 0 {
        None
    } else if w[0] == 'i' {
        Some(seq!['i', 'd', 'l', 'e'])
    } else if w[0] == 's' {
        Some(seq!['s', 'e', 'e', 'd', 'i', 'n', 'g'])
    } else if w[0] == 'l' {
        Some(seq!['l', 'e', 'e', 'c', 'h', 'i', 'n', 'g'])
    } else if w[0] == 'e' {
        Some(seq!['e', 'r', 'r', 'o', 'r'])
    } else if w[0] == 'p' {
        Some(seq!['p', 'a', 'u', 's', 'e', 'd'])
    } else if w[0] == 'n' {
        Some(seq!['p', 'e', 'n', 'd', 'i', 'n', 'g'])
    } else if w[0] == 'h' {
        Some(seq!['h', 'a', 's', 'h', 'i', 'n', 'g'])
    } else if w[0] == 'm' {
        Some(seq!['m', 'a', 'g', 'n', 'e', 't'])
    } else {
        None
    }
}

pub open spec fn tracker_field() -> Seq<char> {
    seq!['t', 'r', 'a', 'c', 'k', 'e', 'r', '_', 'u', 'r', 'l', 's']
}

pub open spec fn name_field() -> Seq<char> {
    seq!['n', 'a', 'm', 'e']
}

/// What the word `w` stands for: `t:<host>` a tracker, `p[:<>]<number>` progress in percent,
/// `s[<>]<number>` size in mebibytes or `s:<letter>` a status; other words are part of the name.
pub open spec fn role(w: Seq<char>) -> WordRole {
    if !shaped(w) {
        WordRole::Name
    } else if w[0] == 't' {
        if w[1] == ':' {
            WordRole::Term(
                TermView::Ready(
                    CriterionView {
                        field: tracker_field(),
                        op: Operation::Has,
                        value: ValueView::S(w.skip(2)),
                    },
                ),
            )
        } else {
            WordRole::Skip
        }
    } else if w[0] == 'p' {
        WordRole::Term(TermView::Progress { op: progress_op(w[1]), number: w.skip(2) })
    } else if w[0] == 's' {
        WordRole::Term(
            TermView::SizeOrStatus {
                op: size_op(w[1]),
                number: w.skip(2),
                status: status_name(w.skip(2)),
            },
        )
    } else {
        WordRole::Name
    }
}

/// `name` with the word `w` added, a blank between.
pub open spec fn add_name(name: Seq<char>, w: Seq<char>) -> Seq<char> {
    if name.len() > 0 {
        name.push(' ') + w
    } else {
        w
    }
}

/// The terms of the words `ws`, and their name words joined.
pub open spec fn scan(ws: Seq<Seq<char>>) -> (Seq<TermView>, Seq<char>)
    decreases ws.len(),
{
    if ws.len() == 0 {
        (Seq::empty(), Seq::empty())
    } else {
        let (ts, name) = scan(ws.drop_last());
        match role(ws.last()) {
            WordRole::Name => (ts, add_name(name, ws.last())),
            WordRole::Term(t) => (ts.push(t), name),
            WordRole::Skip => (ts, name),
        }
    }
}

/// The terms that the filter text `text` comes to: those of its words in order, then one on
/// the name where there are name words; the name is compared ignoring case or not by `mode`.
pub open spec fn filter_terms(text: Seq<char>, mode: FilterMode) -> Seq<TermView> {
    let (ts, name) = scan(words(text));
    if name.len() > 0 {
        ts.push(
            TermView::Ready(
                CriterionView {
                    field: name_field(),
                    op: match mode {
                        FilterMode::Insensitive => Operation::ILike,
                        FilterMode::Sensitive => Operation::Like,
                    },
                    value: ValueView::S(name),
                },
            ),
        )
    } else {
        ts
    }
}

/// The filter text can be read: no word asks for a status by a letter that is not ASCII.
pub open spec fn readable(text: Seq<char>) -> bool {
    forall|i: int|
        0 <= i < words(text).len() ==> {
            let w = #[trigger] words(text)[i];
            shaped(w) && w[0] == 's' ==> is_ascii_char(w[2])
        }
}

/// Whether names compare ignoring case.
#[derive(Clone, Copy, PartialEq, Eq, Structural)]
pub enum FilterMode {
    Insensitive,
    Sensitive,
}

impl FilterMode {
    /// The other mode.
    pub open spec fn next(self) -> FilterMode {
        match self {
            FilterMode::Insensitive => FilterMode::Sensitive,
            FilterMode::Sensitive => FilterMode::Insensitive,
        }
    }

    fn cycle(&mut self)
        ensures
            *final(self) == old(self).next(),
    {
        match *self {
            FilterMode::Insensitive => {
                *self = FilterMode::Sensitive;
            },
            FilterMode::Sensitive => {
                *self = FilterMode::Insensitive;
            },
        }
    }
}

fn progress_op_of(c: char) -> (r: Option<Operation>)
    ensures
        r == progress_op(c),
{
    if c == ':' {
        Some(Operation::Eq)
    } else if c == '<' {
        Some(Operation::LT)
    } else if c == '>' {
        Some(Operation::GT)
    } else {
        None
    }
}

fn size_op_of(c: char) -> (r: Option<Operation>)
    ensures
        r == size_op(c),
{
    if c == '<' {
        Some(Operation::LTE)
    } else if c == '>' {
        Some(Operation::GTE)
    } else {
        None
    }
}

/// A string holding `s`.
fn text_of(s: &str) -> (r: String)
    ensures
        r@ == s@,
{
    String::from_str(s)
}

fn status_name_of(w: &str) -> (r: Option<String>)
    ensures
        r matches Some(s) ==> status_name(w@) is Some && status_name(w@)->0 == s@,
        r is None ==> status_name(w@) is None,
{
    let n = w.unicode_len();
    if n >= 2 && w.get_char(0) == 'p' && w.get_char(1) == 'e' {
        proof { reveal_strlit("pending"); }
        return Some(text_of("pending"));
    }
    if n == 0 {
        return None;
    }
    let c = w.get_char(0);
    if c == 'i' {
        proof { reveal_strlit("idle"); }
        Some(text_of("idle"))
    } else if c == 's' {
        proof { reveal_strlit("seeding"); }
        Some(text_of("seeding"))
    } else if c == 'l' {
        proof { reveal_strlit("leeching"); }
        Some(text_of("leeching"))
    } else if c == 'e' {
        proof { reveal_strlit("error"); }
        Some(text_of("error"))
    } else if c == 'p' {
        proof { reveal_strlit("paused"); }
        Some(text_of("paused"))
    } else if c == 'n' {
        proof { reveal_strlit("pending"); }
        Some(text_of("pending"))
    } else if c == 'h' {
        proof { reveal_strlit("hashing"); }
        Some(text_of("hashing"))
    } else if c == 'm' {
        proof { reveal_strlit("magnet"); }
        Some(text_of("magnet"))
    } else {
        None
    }
}

/// The terms that the filter text `text` comes to (see `filter_terms`).
pub fn compute_terms(text: &str, mode: FilterMode) -> (r: Vec<Term>)
    ensures
        terms_view(r@) == filter_terms(text@, mode),
{
    let ws = split_whitespace(text);
    let ghost wv = crate::utils::views(ws@);
    let mut ts: Vec<Term> = Vec::new();
    let mut name = String::new();
    let mut i: usize = 0;
    while i < ws.len()
        invariant
            wv == crate::utils::views(ws@),
            wv == words(text@),
            i <= ws@.len(),
            terms_view(ts@) == scan(wv.take(i as int)).0,
            name@ == scan(wv.take(i as int)).1,
        decreases ws.len() - i,
    {
        let w = ws[i].as_str();
        let ghost before = terms_view(ts@);
        proof {
            assert(wv.take(i + 1).drop_last() =~= wv.take(i as int));
            assert(wv.take(i + 1).last() == w@);
        }
        let n = w.unicode_len();
        let mut is_name = true;
        if n >= 3 {
            let c0 = w.get_char(0);
            let c1 = w.get_char(1);
            if (c0 as u32) < 0x80 && (c1 as u32) < 0x80 {
                assert(shaped(w@));
                let number = text_of(w.substring_char(2, n));
                assert(number@ =~= w@.skip(2));
                if c0 == 't' {
                    is_name = false;
                    if c1 == ':' {
                        proof {
                            reveal_strlit("tracker_urls");
                        }
                        let field = text_of("tracker_urls");
                        assert(field@ =~= tracker_field());
                        ts.push(
                            Term::Ready(
                                Criterion { field, op: Operation::Has, value: Value::S(number) },
                            ),
                        );
                        proof {
                            assert(terms_view(ts@) =~= before.push(ts@.last()@));
                            assert(role(w@) == WordRole::Term(ts@.last()@));
                        }
                    } else {
                        assert(role(w@) == WordRole::Skip);
                    }
                } else if c0 == 'p' {
                    is_name = false;
                    ts.push(Term::Progress { op: progress_op_of(c1), number });
                    proof {
                        assert(terms_view(ts@) =~= before.push(ts@.last()@));
                        assert(role(w@) == WordRole::Term(ts@.last()@));
                    }
                } else if c0 == 's' {
                    is_name = false;
                    let status = status_name_of(number.as_str());
                    ts.push(Term::SizeOrStatus { op: size_op_of(c1), number, status });
                    proof {
                        assert(terms_view(ts@) =~= before.push(ts@.last()@));
                        assert(role(w@) == WordRole::Term(ts@.last()@));
                    }
                } else {
                    assert(role(w@) == WordRole::Name);
                }
            } else {
                assert(role(w@) == WordRole::Name);
            }
        } else {
            assert(role(w@) == WordRole::Name);
        }
        if is_name {
            if name.as_str().unicode_len() > 0 {
                push_char(&mut name, ' ');
            }
            name.append(w);
        }
        i = i + 1;
    }
    proof {
        assert(wv.take(i as int) =~= wv);
    }
    if name.as_str().unicode_len() > 0 {
        proof { reveal_strlit("name"); }
        let op = match mode {
            FilterMode::Insensitive => Operation::ILike,
            FilterMode::Sensitive => Operation::Like,
        };
        let ghost before = terms_view(ts@);
        let ghost nm = name@;
        let field = text_of("name");
        assert(field@ =~= name_field());
        ts.push(Term::Ready(Criterion { field, op, value: Value::S(name) }));
        proof {
            assert(terms_view(ts@) =~= before.push(ts@.last()@));
            assert(ts@.last()@ == TermView::Ready(
                CriterionView { field: name_field(), op, value: ValueView::S(nm) },
            ));
        }
    }
    ts
}

/// The torrent filter: an input, the mode of comparing names, and the subscription it keeps
/// up to date with the server.
pub struct Filter {
    mode: FilterMode,
    input: Input,
    serial: u64,
    outbox: Vec<FilterRequest>,
}

/// The subscription to the torrents that the filter text `text` selects.
pub open spec fn subscription(serial: u64, text: Seq<char>, mode: FilterMode) -> RequestView {
    RequestView { serial, kind: ResourceKind::Torrent, terms: filter_terms(text, mode) }
}

/// The text of an input after a backspace.
pub open spec fn text_after_backspace(i: Input) -> Seq<char> {
    if i.cursor() > 1 {
        concat_without(i.clusters(), i.cursor() - 2)
    } else {
        i.text()
    }
}

/// The text of an input after a delete.
pub open spec fn text_after_delete(i: Input) -> Seq<char> {
    if i.text().len() > 0 && i.cursor() <= i.clusters().len() {
        concat_without(i.clusters(), i.cursor() - 1)
    } else {
        i.text()
    }
}

/// The label before the filter text.
pub open spec fn filter_label(mode: FilterMode) -> Seq<char> {
    match mode {
        FilterMode::Insensitive => seq!['F', 'i', 'l', 't', 'e', 'r', '[', 'i', ']', ':', ' '],
        FilterMode::Sensitive => seq!['F', 'i', 'l', 't', 'e', 'r', '[', 's', ']', ':', ' '],
    }
}

impl Filter {
    /// How names are compared.
    pub closed spec fn mode(&self) -> FilterMode {
        self.mode
    }

    /// The input holding the filter text.
    pub closed spec fn entry(&self) -> Input {
        self.input
    }

    /// The serial of the subscription.
    pub closed spec fn serial(&self) -> u64 {
        self.serial
    }

    /// The requests not yet sent, oldest first.
    pub closed spec fn requests(&self) -> Seq<crate::rpc::RequestView> {
        crate::rpc::requests_view(self.outbox@)
    }

    /// The filter text.
    pub open spec fn text(&self) -> Seq<char> {
        self.entry().text()
    }

    /// An empty filter on the subscription `serial`, which asks for all torrents.
    pub fn new(serial: u64) -> (r: Filter)
        ensures
            r.mode() == FilterMode::Insensitive,
            r.text() == Seq::<char>::empty(),
            r.entry().cursor() == 1,
            r.serial() == serial,
            r.requests() == seq![
                RequestView { serial, kind: ResourceKind::Torrent, terms: Seq::empty() },
            ],
    {
        let mut outbox: Vec<FilterRequest> = Vec::new();
        let terms: Vec<Term> = Vec::new();
        assert(terms_view(terms@) =~= Seq::<TermView>::empty());
        outbox.push(FilterRequest { serial, kind: ResourceKind::Torrent, terms });
        let r = Filter {
            mode: FilterMode::Insensitive,
            input: Input::from(String::new(), Some(1)),
            serial,
            outbox,
        };
        proof {
            assert(r.requests() =~= seq![
                RequestView { serial, kind: ResourceKind::Torrent, terms: Seq::empty() },
            ]);
        }
        r
    }

    /// Empties the filter and asks for all torrents again.
    pub fn reset(&mut self)
        ensures
            reset_post(*old(self), *final(self)),
    {
        self.input.clear();
        let terms: Vec<Term> = Vec::new();
        assert(terms_view(terms@) =~= Seq::<TermView>::empty());
        self.outbox.push(FilterRequest { serial: self.serial, kind: ResourceKind::Torrent, terms });
        proof {
            assert(final(self).requests() =~= old(self).requests().push(
                RequestView {
                    serial: old(self).serial(),
                    kind: ResourceKind::Torrent,
                    terms: Seq::empty(),
                },
            ));
        }
    }

    /// Asks for the torrents that the filter text selects.
    fn update(&mut self)
        ensures
            final(self).mode() == old(self).mode(),
            final(self).serial() == old(self).serial(),
            final(self).entry() == old(self).entry(),
            final(self).requests() == old(self).requests().push(
                subscription(old(self).serial(), old(self).text(), old(self).mode()),
            ),
    {
        let terms = compute_terms(self.input.inner(), self.mode);
        self.outbox.push(FilterRequest { serial: self.serial, kind: ResourceKind::Torrent, terms });
        proof {
            assert(final(self).requests() =~= old(self).requests().push(
                subscription(old(self).serial(), old(self).text(), old(self).mode()),
            ));
        }
    }

    /// Switches between comparing names with and without case.
    pub fn cycle(&mut self)
        ensures
            final(self).mode() == old(self).mode().next(),
            final(self).entry() == old(self).entry(),
            final(self).serial() == old(self).serial(),
            final(self).requests() == old(self).requests(),
    {
        self.mode.cycle();
    }

    /// Hands out the requests not yet sent, oldest first.
    pub fn take_requests(&mut self) -> (r: Vec<FilterRequest>)
        ensures
            crate::rpc::requests_view(r@) == old(self).requests(),
            final(self).requests() == Seq::<RequestView>::empty(),
            final(self).mode() == old(self).mode(),
            final(self).entry() == old(self).entry(),
            final(self).serial() == old(self).serial(),
    {
        let mut r: Vec<FilterRequest> = Vec::new();
        std::mem::swap(&mut r, &mut self.outbox);
        proof {
            assert(final(self).requests() =~= Seq::<RequestView>::empty());
        }
        r
    }

    /// The label and the filter text; when `active`, the label is cyan and the cursor shows.
    pub fn format(&self, active: bool) -> (r: String)
        ensures
            r@ == if active {
                fg_seq(seq!['6']) + filter_label(self.mode()) + reset_fg_seq()
                    + Input::spec_format_active(self.entry().clusters(), self.entry().cursor())
            } else {
                filter_label(self.mode()) + self.text()
            },
    {
        let mut s = String::new();
        if active {
            s.append(ColorEscape::cyan().inner());
        }
        match self.mode {
            FilterMode::Insensitive => {
                proof {
                    reveal_strlit("Filter[i]: ");
                }
                s.append("Filter[i]: ");
            },
            FilterMode::Sensitive => {
                proof {
                    reveal_strlit("Filter[s]: ");
                }
                s.append("Filter[s]: ");
            },
        }
        if active {
            s.append(ColorEscape::reset().inner());
            s.append(self.input.format_active().as_str());
        } else {
            s.append(self.input.format_inactive());
        }
        s
    }
}

/// `new` is the filter `old` emptied, asking for all torrents again.
pub open spec fn reset_post(old: Filter, new: Filter) -> bool {
    &&& new.mode() == old.mode()
    &&& new.serial() == old.serial()
    &&& new.text() == Seq::<char>::empty()
    &&& new.entry().cursor() == 1
    &&& new.requests() == old.requests().push(
        RequestView { serial: old.serial(), kind: ResourceKind::Torrent, terms: Seq::empty() },
    )
}

/// What handling the key `k` does to the filter `old`, leaving `new` and answering `r`.
pub open spec fn input_post(old: Filter, new: Filter, k: Key, r: InputResult) -> bool {
    &&& (new.serial() == old.serial())
    &&& (k == Key::Ctrl('s') ==> new.mode() == old.mode().next()
                && new.entry() == old.entry())
    &&& (k != Key::Ctrl('s') ==> new.mode() == old.mode())
    &&& (k == Key::Backspace ==> new.text() == text_after_backspace(old.entry()))
    &&& (k == Key::Delete ==> new.text() == text_after_delete(old.entry())
                && new.entry().cursor() == old.entry().cursor())
    &&& (k == Key::Home ==> new.text() == old.text() && new.entry().cursor() == 1)
    &&& (k == Key::End ==> new.text() == old.text() && new.entry().cursor()
                == vstd::utf8::encode_utf8(old.text()).len() + 1)
    &&& (k == Key::Left ==> new.text() == old.text() && new.entry().cursor()
                == if old.entry().cursor() > 1 {
                old.entry().cursor() - 1
            } else {
                old.entry().cursor()
            })
    &&& (k == Key::Right ==> new.text() == old.text() && new.entry().cursor()
                == if old.entry().cursor() <= old.entry().clusters().len() {
                old.entry().cursor() + 1
            } else {
                old.entry().cursor()
            })
    &&& (k matches Key::Char(c) ==> new.text() == inserted(
        old.entry().clusters(),
        old.entry().cursor() - 1,
        c,
    ) && new.entry().cursor() == old.entry().cursor() + 1)
    &&& ((k == Key::Ctrl('s') || k == Key::Backspace || k == Key::Delete || k is Char)
        ==> new.requests() == old.requests().push(
        subscription(old.serial(), new.text(), new.mode()),
    ))
    &&& (!(k == Key::Ctrl('s') || k == Key::Backspace || k == Key::Delete || k is Char)
                ==> new.requests() == old.requests())
    &&& ((k == Key::Ctrl('s') || k == Key::Backspace || k == Key::Delete || k == Key::Home || k
                == Key::End || k == Key::Left || k == Key::Right || k is Char) ==> r
                is Rerender)
    &&& (!(k == Key::Ctrl('s') || k == Key::Backspace || k == Key::Delete || k == Key::Home || k
                == Key::End || k == Key::Left || k == Key::Right || k is Char) ==> r == InputResult::Key(k)
                && new.entry() == old.entry())
}

impl HandleInput for Filter {
    /// Editing must leave a readable filter text, within the machine's limits.
    open spec fn accepts_input(&self, k: Key, width: u16, height: u16) -> bool {
        &&& k matches Key::Char(c) ==> self.entry().cursor() < usize::MAX && readable(
            inserted(self.entry().clusters(), self.entry().cursor() - 1, c),
        )
        &&& k == Key::Backspace ==> readable(text_after_backspace(self.entry()))
        &&& k == Key::Delete ==> readable(text_after_delete(self.entry()))
        &&& k == Key::Ctrl('s') ==> readable(self.text())
        &&& k == Key::End ==> self.text().len() < usize::MAX / 4
        &&& k == Key::Right ==> self.text().len() < usize::MAX
    }

    /// The filter after the key, and the answer, as `input_post` relates them.
    open spec fn handled(&self, next: &Self, k: Key, width: u16, height: u16, r: InputResult) -> bool {
        input_post(*self, *next, k, r)
    }

    /// Edits the filter text, or switches the mode on Ctrl-s; each change of the text or the
    /// mode asks the server for the torrents that the filter now selects. Other keys are handed
    /// back.
    fn input(&mut self, k: Key, width: u16, height: u16) -> (r: InputResult)
        ensures
            input_post(*old(self), *final(self), k, r),
    {
        match k {
            Key::Ctrl('s') => {
                self.mode.cycle();
                self.update();
            },
            Key::Backspace => {
                self.input.backspace();
                self.update();
            },
            Key::Delete => {
                self.input.delete();
                self.update();
            },
            Key::Home => {
                self.input.home();
            },
            Key::End => {
                self.input.end();
            },
            Key::Left => {
                self.input.cursor_left();
            },
            Key::Right => {
                self.input.cursor_right();
            },
            Key::Char(c) => {
                self.input.push(c);
                self.update();
            },
            _ => {
                return InputResult::Key(k);
            },
        }
        InputResult::Rerender
    }
}


/// Whether the filter text `text` can be read, as `readable` says.
pub fn is_readable(text: &str) -> (r: bool)
    ensures
        r == readable(text@),
{
    let ws = split_whitespace(text);
    let ghost wv = crate::utils::views(ws@);
    let mut i: usize = 0;
    while i < ws.len()
        invariant
            wv == crate::utils::views(ws@),
            wv == words(text@),
            i <= ws@.len(),
            forall|j: int|
                0 <= j < i ==> {
                    let w = #[trigger] wv[j];
                    shaped(w) && w[0] == 's' ==> is_ascii_char(w[2])
                },
        decreases ws.len() - i,
    {
        let w = ws[i].as_str();
        assert(w@ == wv[i as int]);
        let n = w.unicode_len();
        if n >= 3 {
            let c0 = w.get_char(0);
            let c1 = w.get_char(1);
            if (c0 as u32) < 0x80 && (c1 as u32) < 0x80 && c0 == 's' {
                let c2 = w.get_char(2);
                if (c2 as u32) >= 0x80 {
                    assert(!readable(text@)) by {
                        let ww = words(text@)[i as int];
                        assert(shaped(ww) && ww[0] == 's' && !is_ascii_char(ww[2]));
                    }
                    return false;
                }
            }
        }
        i = i + 1;
    }
    true
}

impl Filter {
    /// The cursor position of the filter text.
    pub fn cursor(&self) -> (r: usize)
        ensures
            r == self.entry().cursor(),
    {
        self.input.cursor_pos()
    }

    /// Whether the filter can take the key `k`, as `accepts_input` says.
    pub fn accepts(&self, k: Key, width: u16, height: u16) -> (r: bool)
        ensures
            r == self.accepts_input(k, width, height),
    {
        match k {
            Key::Char(c) => {
                if self.input.cursor_pos() == usize::MAX {
                    return false;
                }
                let mut after = self.input.clone();
                after.push(c);
                is_readable(after.inner())
            },
            Key::Backspace => {
                let mut after = self.input.clone();
                after.backspace();
                is_readable(after.inner())
            },
            Key::Delete => {
                let mut after = self.input.clone();
                after.delete();
                is_readable(after.inner())
            },
            Key::Ctrl('s') => is_readable(self.input.inner()),
            Key::End => self.input.inner().unicode_len() < usize::MAX / 4,
            Key::Right => self.input.inner().unicode_len() < usize::MAX,
            _ => true,
        }
    }
}

/// Whether the word `w` is a status word for the status `name`: a size-or-status term whose
/// number is the rest of the word and whose status is `name`.
pub open spec fn status_word(w: Seq<char>, name: Seq<char>) -> bool {
    role(w) == WordRole::Term(
        TermView::SizeOrStatus { op: None, number: w.skip(2), status: Some(name) },
    )
}

/// Each status that a status word `s:<letter>` names: `i` idle, `s` seeding, `l` leeching,
/// `e` error, `p` paused, `pe` pending, `h` hashing, `m` magnet (and `n` pending).
pub proof fn lemma_status_words(w: Seq<char>)
    requires
        w.len() >= 3,
        w[0] == 's',
        w[1] == ':',
    ensures
        w[2] == 'i' ==> status_word(w, seq!['i', 'd', 'l', 'e']),
        w[2] == 's' ==> status_word(w, seq!['s', 'e', 'e', 'd', 'i', 'n', 'g']),
        w[2] == 'l' ==> status_word(w, seq!['l', 'e', 'e', 'c', 'h', 'i', 'n', 'g']),
        w[2] == 'e' ==> status_word(w, seq!['e', 'r', 'r', 'o', 'r']),
        w[2] == 'p' && !(w.len() >= 4 && w[3] == 'e') ==> status_word(
            w,
            seq!['p', 'a', 'u', 's', 'e', 'd'],
        ),
        w[2] == 'p' && w.len() >= 4 && w[3] == 'e' ==> status_word(
            w,
            seq!['p', 'e', 'n', 'd', 'i', 'n', 'g'],
        ),
        w[2] == 'n' ==> status_word(w, seq!['p', 'e', 'n', 'd', 'i', 'n', 'g']),
        w[2] == 'h' ==> status_word(w, seq!['h', 'a', 's', 'h', 'i', 'n', 'g']),
        w[2] == 'm' ==> status_word(w, seq!['m', 'a', 'g', 'n', 'e', 't']),
{
    let rest = w.skip(2);
    assert(rest[0] == w[2]);
    if w.len() >= 4 {
        assert(rest[1] == w[3]);
    }
}

/// Switching the way names compare (`C-s`) twice leaves it as it was.
pub proof fn lemma_cycle_twice(m: FilterMode)
    ensures
        m.next().next() == m,
{
}

/// The words of a filter text that are part of the name, in order.
pub open spec fn name_words(ws: Seq<Seq<char>>) -> Seq<Seq<char>>
    decreases ws.len(),
{
    if ws.len() == 0 {
        Seq::empty()
    } else if role(ws.last()) is Name {
        name_words(ws.drop_last()).push(ws.last())
    } else {
        name_words(ws.drop_last())
    }
}

/// Words joined by single blanks.
pub open spec fn joined_words(ws: Seq<Seq<char>>) -> Seq<char>
    decreases ws.len(),
{
    if ws.len() == 0 {
        Seq::empty()
    } else if ws.len() == 1 {
        ws[0]
    } else {
        joined_words(ws.drop_last()).push(' ') + ws.last()
    }
}

/// A text that ends in a character other than white space has a word.
proof fn lemma_words_nonempty_list(s: Seq<char>)
    requires
        s.len() > 0,
        !is_ws(s.last()),
    ensures
        words(s).len() > 0,
    decreases s.len(),
{
    if s.len() >= 2 && !is_ws(s[s.len() - 2]) {
        lemma_words_nonempty_list(s.drop_last());
    }
}

/// Every word has a character.
pub proof fn lemma_words_nonempty(s: Seq<char>)
    ensures
        forall|i: int| 0 <= i < words(s).len() ==> #[trigger] words(s)[i].len() > 0,
    decreases s.len(),
{
    if s.len() > 0 {
        lemma_words_nonempty(s.drop_last());
        let w = words(s.drop_last());
        if !is_ws(s.last()) && s.len() >= 2 && !is_ws(s[s.len() - 2]) {
            lemma_words_nonempty_list(s.drop_last());
            let r = w.drop_last().push(w.last().push(s.last()));
            assert forall|i: int| 0 <= i < r.len() implies #[trigger] r[i].len() > 0 by {
                if i < r.len() - 1 {
                    assert(r[i] == w[i]);
                }
            }
        }
    }
}

/// Joining words that each have a character gives an empty text only for no words.
proof fn lemma_joined_empty(ws: Seq<Seq<char>>)
    requires
        forall|i: int| 0 <= i < ws.len() ==> #[trigger] ws[i].len() > 0,
    ensures
        (joined_words(ws).len() == 0) == (ws.len() == 0),
    decreases ws.len(),
{
    if ws.len() > 1 {
        lemma_joined_empty(ws.drop_last());
    }
}

/// The name that scanning words gathers is their name words joined by blanks.
proof fn lemma_scan_name(ws: Seq<Seq<char>>)
    requires
        forall|i: int| 0 <= i < ws.len() ==> #[trigger] ws[i].len() > 0,
    ensures
        scan(ws).1 == joined_words(name_words(ws)),
        forall|i: int|
            0 <= i < name_words(ws).len() ==> #[trigger] name_words(ws)[i].len() > 0,
    decreases ws.len(),
{
    if ws.len() > 0 {
        let rest = ws.drop_last();
        assert forall|i: int| 0 <= i < rest.len() implies #[trigger] rest[i].len() > 0 by {
            assert(rest[i] == ws[i]);
        }
        lemma_scan_name(rest);
        lemma_joined_empty(name_words(rest));
        if role(ws.last()) is Name {
            let ns = name_words(ws);
            assert(ns.drop_last() =~= name_words(rest));
            assert forall|i: int| 0 <= i < ns.len() implies #[trigger] ns[i].len() > 0 by {
                if i < ns.len() - 1 {
                    assert(ns[i] == name_words(rest)[i]);
                }
            }
            if name_words(rest).len() == 0 {
                assert(ns =~= seq![ws.last()]);
            }
        }
    }
}

/// The words of a filter text that are no specifier refine the name criterion in the order
/// in which they occur: the terms end with a criterion on the name that holds those words
/// joined by blanks, compared with or without case by the mode; where there are none, there
/// is no such criterion and the terms are those of the specifiers alone.
pub proof fn lemma_name_words_in_order(text: Seq<char>, mode: FilterMode)
    ensures
        name_words(words(text)).len() > 0 ==> filter_terms(text, mode) == scan(words(text)).0.push(
            TermView::Ready(
                CriterionView {
                    field: name_field(),
                    op: match mode {
                        FilterMode::Insensitive => Operation::ILike,
                        FilterMode::Sensitive => Operation::Like,
                    },
                    value: ValueView::S(joined_words(name_words(words(text)))),
                },
            ),
        ),
        name_words(words(text)).len() == 0 ==> filter_terms(text, mode) == scan(words(text)).0,
{
    lemma_words_nonempty(text);
    lemma_scan_name(words(text));
    lemma_joined_empty(name_words(words(text)));
}

} // verus!
