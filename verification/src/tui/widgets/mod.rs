//! Text inputs and the building blocks that components are composed of.
use vstd::prelude::*;

pub mod overlay;
pub mod split;
pub mod tabs;
pub mod text;

pub use self::overlay::{BorrowedOverlay, OwnedOverlay};
pub use self::split::{HSplit, VSplit};
pub use self::tabs::{BorrowedSameTabs, Tabs};
pub use self::text::Text;
use vstd::string::*;

use crate::tui::{HandleInput, InputResult, Key, Renderable};
use crate::utils::term::{no_underline, no_underline_seq, underline, underline_seq};
use crate::utils::{
    append_all, concat, grapheme_clusters, graphemes, lemma_concat_len, lemma_concat_split,
    printable_ascii, push_char, single_chars, views,
};

verus! {

/// The clusters of `gs` without the one at `i`; all of them where there is none at `i`.
pub open spec fn without(gs: Seq<Seq<char>>, i: int) -> Seq<Seq<char>> {
    if 0 <= i < gs.len() {
        gs.take(i) + gs.skip(i + 1)
    } else {
        gs
    }
}

/// The text of `gs` with `c` inserted after the first `i` clusters (after all where there are
/// fewer).
pub open spec fn inserted(gs: Seq<Seq<char>>, i: int, c: char) -> Seq<char> {
    let k = if i < gs.len() { i } else { gs.len() as int };
    concat(gs.take(k)) + seq![c] + concat(gs.skip(k))
}

/// The text of the clusters `gs` without the one at `i`.
pub open spec fn concat_without(gs: Seq<Seq<char>>, i: int) -> Seq<char> {
    concat(without(gs, i))
}

/// `n` stars.
pub open spec fn stars(n: nat) -> Seq<char> {
    Seq::new(n, |i: int| '*')
}

/// A single-line text input with a cursor. The cursor position is one-based and counts
/// grapheme clusters: it stands on the cluster it is placed before.
pub struct Input {
    content: String,
    pos: usize,
}

impl Clone for Input {
    fn clone(&self) -> (r: Input)
        ensures
            r.text() == self.text(),
            r.cursor() == self.cursor(),
    {
        proof {
            use_type_invariant(self);
        }
        Input { content: self.content.clone(), pos: self.pos }
    }
}

impl Input {
    #[verifier::type_invariant]
    spec fn cursor_at_least_one(self) -> bool {
        self.pos >= 1
    }

    /// The text of the input.
    pub closed spec fn text(&self) -> Seq<char> {
        self.content@
    }

    /// The cursor position, one-based.
    pub closed spec fn cursor(&self) -> int {
        self.pos as int
    }

    /// The grapheme clusters of the text.
    pub open spec fn clusters(&self) -> Seq<Seq<char>> {
        grapheme_clusters(self.text())
    }

    /// An input holding `content`, with the cursor at `pos`, or after the last cluster where
    /// `pos` is `None`.
    pub fn from(content: String, pos: Option<usize>) -> (r: Input)
        requires
            pos != Some(0usize),
            content@.len() < usize::MAX,
        ensures
            r.text() == content@,
            r.cursor() == match pos {
                Some(p) => p as int,
                None => grapheme_clusters(content@).len() + 1int,
            },
    {
        let p = match pos {
            Some(p) => p,
            None => {
                let gs = graphemes(content.as_str());
                proof {
                    lemma_concat_len(views(gs@));
                }
                gs.len() + 1
            },
        };
        Input { content, pos: p }
    }

    /// The cursor position, one-based.
    pub fn cursor_pos(&self) -> (r: usize)
        ensures
            r == self.cursor(),
    {
        self.pos
    }

    /// An empty input with the cursor at the start.
    pub fn with_capacity(n: usize) -> (r: Input)
        ensures
            r.text() == Seq::<char>::empty(),
            r.cursor() == 1,
    {
        Input { content: String::new(), pos: 1 }
    }

    /// The text of the input.
    pub fn inner(&self) -> (r: &str)
        ensures
            r@ == self.text(),
    {
        self.content.as_str()
    }

    /// Empties the input and puts the cursor at the start.
    pub fn clear(&mut self)
        ensures
            final(self).text() == Seq::<char>::empty(),
            final(self).cursor() == 1,
    {
        self.pos = 1;
        self.content = String::new();
    }

    /// Puts the cursor at the start.
    pub fn home(&mut self)
        ensures
            final(self).text() == old(self).text(),
            final(self).cursor() == 1,
    {
        self.pos = 1;
    }

    /// Puts the cursor one past the text's length in bytes.
    pub fn end(&mut self)
        requires
            old(self).text().len() < usize::MAX / 4,
        ensures
            final(self).text() == old(self).text(),
            final(self).cursor() == vstd::utf8::encode_utf8(old(self).text()).len() + 1,
    {
        let n = self.content.as_str().len();
        proof {
            lemma_utf8_len_bound(self.content@);
        }
        self.pos = n + 1;
    }

    /// Moves the cursor one cluster to the left, unless it is at the start.
    pub fn cursor_left(&mut self)
        ensures
            final(self).text() == old(self).text(),
            final(self).cursor() == if old(self).cursor() > 1 {
                old(self).cursor() - 1
            } else {
                old(self).cursor()
            },
    {
        if self.pos > 1 {
            self.pos = self.pos - 1;
        }
    }

    /// Moves the cursor one cluster to the right, unless it is past the last cluster.
    pub fn cursor_right(&mut self)
        requires
            old(self).text().len() < usize::MAX,
        ensures
            final(self).text() == old(self).text(),
            final(self).cursor() == if old(self).cursor() <= old(self).clusters().len() {
                old(self).cursor() + 1
            } else {
                old(self).cursor()
            },
    {
        let gs = graphemes(self.content.as_str());
        let n = gs.len();
        proof {
            lemma_concat_len(views(gs@));
        }
        if self.pos <= n {
            self.pos = self.pos + 1;
        }
    }

    /// Inserts `c` at the cursor and moves the cursor past it.
    pub fn push(&mut self, c: char)
        requires
            old(self).cursor() < usize::MAX,
        ensures
            final(self).text() == inserted(old(self).clusters(), old(self).cursor() - 1, c),
            final(self).cursor() == old(self).cursor() + 1,
            printable_ascii(old(self).text()) ==> final(self).text() == old(self).text().insert(
                if old(self).cursor() - 1 < old(self).text().len() {
                    old(self).cursor() - 1
                } else {
                    old(self).text().len() as int
                },
                c,
            ),
    {
        proof {
            use_type_invariant(&*self);
        }
        let gs = graphemes(self.content.as_str());
        let ghost g = views(gs@);
        proof {
            if printable_ascii(self.content@) {
                lemma_ascii_inserted(self.content@, self.pos - 1, c);
            }
        }
        let k = if self.pos - 1 < gs.len() {
            self.pos - 1
        } else {
            gs.len()
        };
        let mut s = String::new();
        append_all(&mut s, &gs, 0, k);
        push_char(&mut s, c);
        append_all(&mut s, &gs, k, gs.len());
        proof {
            assert(g.subrange(0, k as int) =~= g.take(k as int));
            assert(g.subrange(k as int, g.len() as int) =~= g.skip(k as int));
        }
        self.content = s;
        self.pos = self.pos + 1;
    }

    /// Removes the cluster before the cursor and moves the cursor left, unless the cursor is at
    /// the start.
    pub fn backspace(&mut self)
        ensures
            old(self).cursor() > 1 ==> final(self).text() == concat(
                without(old(self).clusters(), old(self).cursor() - 2),
            ) && final(self).cursor() == old(self).cursor() - 1,
            old(self).cursor() <= 1 ==> final(self).text() == old(self).text()
                && final(self).cursor() == old(self).cursor(),
            printable_ascii(old(self).text()) && 1 < old(self).cursor() <= old(self).text().len()
                + 1 ==> final(self).text() == old(self).text().remove(old(self).cursor() - 2),
    {
        proof {
            use_type_invariant(&*self);
        }
        if self.pos > 1 {
            let gs = graphemes(self.content.as_str());
            proof {
                if printable_ascii(self.content@) && self.pos <= self.content@.len() + 1 {
                    lemma_ascii_without(self.content@, self.pos - 2);
                }
            }
            self.content = Self::remove_cluster(&gs, self.pos - 2);
            self.pos = self.pos - 1;
        }
    }

    /// Removes the cluster under the cursor, if there is one.
    pub fn delete(&mut self)
        ensures
            final(self).cursor() == old(self).cursor(),
            final(self).text() == if old(self).text().len() > 0 && old(self).cursor()
                <= old(self).clusters().len() {
                concat(without(old(self).clusters(), old(self).cursor() - 1))
            } else {
                old(self).text()
            },
    {
        proof {
            use_type_invariant(&*self);
        }
        let gs = graphemes(self.content.as_str());
        if !self.content.as_str().is_empty() && self.pos <= gs.len() {
            self.content = Self::remove_cluster(&gs, self.pos - 1);
        }
    }

    /// Joins the clusters `gs` without the one at `i`.
    fn remove_cluster(gs: &Vec<String>, i: usize) -> (r: String)
        ensures
            r@ == concat(without(views(gs@), i as int)),
    {
        let ghost g = views(gs@);
        let mut s = String::new();
        if i < gs.len() {
            append_all(&mut s, gs, 0, i);
            append_all(&mut s, gs, i + 1, gs.len());
            proof {
                assert(g.subrange(0, i as int) =~= g.take(i as int));
                assert(g.subrange(i + 1, g.len() as int) =~= g.skip(i + 1));
                crate::utils::lemma_concat_add(g.take(i as int), g.skip(i + 1));
            }
        } else {
            append_all(&mut s, gs, 0, gs.len());
            proof {
                assert(g.subrange(0, g.len() as int) =~= g);
            }
        }
        s
    }

    /// The text with the cluster under the cursor underlined; a blank stands for the cursor
    /// past the end.
    pub fn format_active(&self) -> (r: String)
        ensures
            r@ == Self::spec_format_active(self.clusters(), self.cursor()),
    {
        proof {
            use_type_invariant(self);
        }
        let gs = graphemes(self.content.as_str());
        let ghost g = views(gs@);
        let len = gs.len();
        let mut s = String::new();
        if self.pos > len {
            s.append(self.content.as_str());
            s.append(underline().as_str());
            push_char(&mut s, ' ');
            s.append(no_underline().as_str());
        } else {
            append_all(&mut s, &gs, 0, self.pos - 1);
            s.append(underline().as_str());
            append_all(&mut s, &gs, self.pos - 1, self.pos);
            s.append(no_underline().as_str());
            if self.pos < len {
                append_all(&mut s, &gs, self.pos, len);
            }
            proof {
                assert(g.subrange(0, self.pos - 1) =~= g.take(self.pos - 1));
                assert(g.subrange(self.pos - 1, self.pos as int) =~= seq![g[self.pos - 1]]);
                crate::utils::lemma_concat_single(g[self.pos - 1]);
                assert(g.subrange(self.pos as int, len as int) =~= g.skip(self.pos as int));
            }
        }
        proof {
            crate::utils::lemma_concat_split(g, 0);
            assert(g.skip(0) =~= g);
        }
        s
    }

    /// What `format_active` writes for the clusters `gs` and the cursor `pos`.
    pub open spec fn spec_format_active(gs: Seq<Seq<char>>, pos: int) -> Seq<char> {
        if pos > gs.len() {
            concat(gs) + underline_seq() + seq![' '] + no_underline_seq()
        } else {
            concat(gs.take(pos - 1)) + underline_seq() + gs[pos - 1] + no_underline_seq() + if pos
                < gs.len() {
                concat(gs.skip(pos))
            } else {
                Seq::empty()
            }
        }
    }

    /// The text as it stands.
    pub fn format_inactive(&self) -> (r: &str)
        ensures
            r@ == self.text(),
    {
        self.content.as_str()
    }
}

/// A text input that shows a star for each grapheme cluster.
pub struct PasswordInput(Input);

impl Clone for PasswordInput {
    fn clone(&self) -> (r: PasswordInput)
        ensures
            r.text() == self.text(),
            r.cursor() == self.cursor(),
    {
        PasswordInput(self.0.clone())
    }
}

/// Appends `n` stars to `s`.
fn push_stars(s: &mut String, n: usize)
    ensures
        final(s)@ == old(s)@ + stars(n as nat),
{
    let mut i: usize = 0;
    while i < n
        invariant
            i <= n,
            s@ == old(s)@ + stars(i as nat),
        decreases n - i,
    {
        push_char(s, '*');
        i = i + 1;
        proof {
            assert(s@ =~= old(s)@ + stars(i as nat));
        }
    }
}

impl PasswordInput {
    /// The input underneath.
    pub closed spec fn input(&self) -> Input {
        self.0
    }

    /// The text of the input.
    pub open spec fn text(&self) -> Seq<char> {
        self.input().text()
    }

    /// The cursor position, one-based.
    pub open spec fn cursor(&self) -> int {
        self.input().cursor()
    }

    /// A password input holding `content`, with the cursor at `pos`, or after the last cluster
    /// where `pos` is `None`.
    pub fn from(content: String, pos: Option<usize>) -> (r: PasswordInput)
        requires
            pos != Some(0usize),
            content@.len() < usize::MAX,
        ensures
            r.text() == content@,
            r.cursor() == match pos {
                Some(p) => p as int,
                None => grapheme_clusters(content@).len() + 1int,
            },
    {
        PasswordInput(Input::from(content, pos))
    }

    /// An empty password input.
    pub fn with_capacity(n: usize) -> (r: PasswordInput)
        ensures
            r.text() == Seq::<char>::empty(),
            r.cursor() == 1,
    {
        PasswordInput(Input::with_capacity(n))
    }

    /// The password as typed.
    pub fn inner(&self) -> (r: &str)
        ensures
            r@ == self.text(),
    {
        self.0.inner()
    }

    /// The cursor position, one-based.
    pub fn cursor_pos(&self) -> (r: usize)
        ensures
            r == self.cursor(),
    {
        self.0.cursor_pos()
    }

    /// As `Input::clear`.
    pub fn clear(&mut self)
        ensures
            final(self).text() == Seq::<char>::empty(),
            final(self).cursor() == 1,
    {
        self.0.clear();
    }

    /// As `Input::home`.
    pub fn home(&mut self)
        ensures
            final(self).text() == old(self).text(),
            final(self).cursor() == 1,
    {
        self.0.home();
    }

    /// As `Input::end`.
    pub fn end(&mut self)
        requires
            old(self).text().len() < usize::MAX / 4,
        ensures
            final(self).text() == old(self).text(),
            final(self).cursor() == vstd::utf8::encode_utf8(old(self).text()).len() + 1,
    {
        self.0.end();
    }

    /// As `Input::cursor_left`.
    pub fn cursor_left(&mut self)
        ensures
            final(self).text() == old(self).text(),
            final(self).cursor() == if old(self).cursor() > 1 {
                old(self).cursor() - 1
            } else {
                old(self).cursor()
            },
    {
        self.0.cursor_left();
    }

    /// As `Input::cursor_right`.
    pub fn cursor_right(&mut self)
        requires
            old(self).text().len() < usize::MAX,
        ensures
            final(self).text() == old(self).text(),
            final(self).cursor() == if old(self).cursor() <= grapheme_clusters(old(self).text()).len() {
                old(self).cursor() + 1
            } else {
                old(self).cursor()
            },
    {
        self.0.cursor_right();
    }

    /// As `Input::push`.
    pub fn push(&mut self, c: char)
        requires
            old(self).cursor() < usize::MAX,
        ensures
            final(self).text() == inserted(grapheme_clusters(old(self).text()), old(self).cursor() - 1, c),
            final(self).cursor() == old(self).cursor() + 1,
    {
        self.0.push(c);
    }

    /// As `Input::backspace`.
    pub fn backspace(&mut self)
        ensures
            old(self).cursor() > 1 ==> final(self).text() == concat(
                without(grapheme_clusters(old(self).text()), old(self).cursor() - 2),
            ) && final(self).cursor() == old(self).cursor() - 1,
            old(self).cursor() <= 1 ==> final(self).text() == old(self).text()
                && final(self).cursor() == old(self).cursor(),
    {
        self.0.backspace();
    }

    /// As `Input::delete`.
    pub fn delete(&mut self)
        ensures
            final(self).cursor() == old(self).cursor(),
            final(self).text() == if old(self).text().len() > 0 && old(self).cursor()
                <= grapheme_clusters(old(self).text()).len() {
                concat(without(grapheme_clusters(old(self).text()), old(self).cursor() - 1))
            } else {
                old(self).text()
            },
    {
        self.0.delete();
    }

    /// A star for each cluster, with the star under the cursor underlined; a blank stands for
    /// the cursor past the end.
    pub fn format_active(&self) -> (r: String)
        ensures
            r@ == Self::spec_format_active(grapheme_clusters(self.text()).len(), self.cursor()),
    {
        proof {
            use_type_invariant(&self.0);
        }
        let len = graphemes(self.0.inner()).len();
        let pos = self.0.pos;
        let mut s = String::new();
        if pos > len {
            push_stars(&mut s, len);
            s.append(underline().as_str());
            push_char(&mut s, ' ');
            s.append(no_underline().as_str());
        } else {
            push_stars(&mut s, pos - 1);
            s.append(underline().as_str());
            push_char(&mut s, '*');
            s.append(no_underline().as_str());
            if pos < len {
                push_stars(&mut s, len - pos);
            }
        }
        proof {
            assert(stars(0) =~= Seq::<char>::empty());
        }
        s
    }

    /// What `format_active` writes for `len` clusters and the cursor `pos`.
    pub open spec fn spec_format_active(len: nat, pos: int) -> Seq<char> {
        if pos > len {
            stars(len) + underline_seq() + seq![' '] + no_underline_seq()
        } else {
            stars((pos - 1) as nat) + underline_seq() + seq!['*'] + no_underline_seq() + stars(
                (len - pos) as nat,
            )
        }
    }

    /// A star for each cluster.
    pub fn format_inactive(&self) -> (r: String)
        ensures
            r@ == stars(grapheme_clusters(self.text()).len()),
    {
        let len = graphemes(self.0.inner()).len();
        let mut s = String::new();
        push_stars(&mut s, len);
        s
    }
}

/// The keys that edit an input.
pub open spec fn is_edit_key(k: Key) -> bool {
    k == Key::Home || k == Key::End || k == Key::Left || k == Key::Right || k == Key::Backspace
        || k == Key::Delete || k is Char
}

/// The keys an input can take in its state, within the machine's limits.
pub open spec fn edit_accepts(i: Input, k: Key) -> bool {
    &&& k == Key::End ==> i.text().len() < usize::MAX / 4
    &&& k == Key::Right ==> i.text().len() < usize::MAX
    &&& k is Char ==> i.cursor() < usize::MAX
}

/// Whether an input holding `text` with the cursor at `cursor` can take the edit key `k`, as
/// `edit_accepts` says.
pub fn edit_accepted(text: &str, cursor: usize, k: Key) -> (r: bool)
    ensures
        forall|i: Input| i.text() == text@ && i.cursor() == cursor ==> (r == edit_accepts(i, k)),
{
    match k {
        Key::End => text.unicode_len() < usize::MAX / 4,
        Key::Right => text.unicode_len() < usize::MAX,
        Key::Char(_) => cursor < usize::MAX,
        _ => true,
    }
}

/// What the edit key `k` does to the input `old`, leaving `new`.
pub open spec fn edit_post(old: Input, new: Input, k: Key) -> bool {
    &&& k == Key::Home ==> new.text() == old.text() && new.cursor() == 1
    &&& k == Key::End ==> new.text() == old.text() && new.cursor() == vstd::utf8::encode_utf8(
        old.text(),
    ).len() + 1
    &&& k == Key::Left ==> new.text() == old.text() && new.cursor() == if old.cursor() > 1 {
        old.cursor() - 1
    } else {
        old.cursor()
    }
    &&& k == Key::Right ==> new.text() == old.text() && new.cursor() == if old.cursor()
        <= old.clusters().len() {
        old.cursor() + 1
    } else {
        old.cursor()
    }
    &&& k == Key::Backspace ==> if old.cursor() > 1 {
        new.text() == concat(without(old.clusters(), old.cursor() - 2)) && new.cursor()
            == old.cursor() - 1
    } else {
        new.text() == old.text() && new.cursor() == old.cursor()
    }
    &&& (k == Key::Backspace && printable_ascii(old.text()) && 1 < old.cursor() <= old.text().len()
        + 1) ==> new.text() == old.text().remove(old.cursor() - 2)
    &&& (k is Char && printable_ascii(old.text())) ==> new.text() == old.text().insert(
        if old.cursor() - 1 < old.text().len() {
            old.cursor() - 1
        } else {
            old.text().len() as int
        },
        k->Char_0,
    )
    &&& k == Key::Delete ==> new.cursor() == old.cursor() && new.text() == if old.text().len() > 0
        && old.cursor() <= old.clusters().len() {
        concat(without(old.clusters(), old.cursor() - 1))
    } else {
        old.text()
    }
    &&& k matches Key::Char(c) ==> new.text() == inserted(old.clusters(), old.cursor() - 1, c)
        && new.cursor() == old.cursor() + 1
}

impl Input {
    /// Applies the edit key `k`.
    pub fn edit(&mut self, k: Key)
        requires
            is_edit_key(k),
            edit_accepts(*old(self), k),
        ensures
            edit_post(*old(self), *final(self), k),
    {
        match k {
            Key::Home => self.home(),
            Key::End => self.end(),
            Key::Left => self.cursor_left(),
            Key::Right => self.cursor_right(),
            Key::Backspace => self.backspace(),
            Key::Delete => self.delete(),
            Key::Char(c) => self.push(c),
            _ => {},
        }
    }
}

impl PasswordInput {
    /// Applies the edit key `k`.
    pub fn edit(&mut self, k: Key)
        requires
            is_edit_key(k),
            edit_accepts(old(self).input(), k),
        ensures
            edit_post(old(self).input(), final(self).input(), k),
    {
        self.0.edit(k);
    }
}

/// Encoding a character as UTF-8 takes at most four bytes.
pub proof fn lemma_utf8_len_bound(s: Seq<char>)
    ensures
        vstd::utf8::encode_utf8(s).len() <= 4 * s.len(),
    decreases s.len(),
{
    reveal_with_fuel(vstd::utf8::encode_utf8, 1);
    if s.len() > 0 {
        lemma_utf8_len_bound(s.drop_first());
    }
}


/// Shows a component and closes on the trigger keys, or on any key where there are none.
pub struct CloseOnInput<'t, T> {
    content: T,
    trigger: &'t [Key],
}

impl<'t, T> CloseOnInput<'t, T> {
    /// The component shown.
    pub closed spec fn content(&self) -> T {
        self.content
    }

    /// The keys that close it.
    pub closed spec fn trigger(&self) -> Seq<Key> {
        self.trigger@
    }

    /// Shows `content` until one of `trigger` is pressed.
    pub fn new(content: T, trigger: &'t [Key]) -> (r: CloseOnInput<'t, T>)
        ensures
            r.content() == content,
            r.trigger() == trigger@,
    {
        CloseOnInput { content, trigger }
    }

    /// The component shown, to draw.
    pub fn inner(&self) -> (r: &T)
        ensures
            *r == self.content(),
    {
        &self.content
    }

    /// The component shown, to change.
    pub fn inner_mut(&mut self) -> (r: &mut T)
        ensures
            *r == old(self).content(),
            final(self).content() == *final(r),
            final(self).trigger() == old(self).trigger(),
    {
        &mut self.content
    }
}

impl<'t, T> HandleInput for CloseOnInput<'t, T> {
    open spec fn accepts_input(&self, k: Key, width: u16, height: u16) -> bool {
        true
    }

    /// Closes on a trigger key, or on any key where there are none; otherwise asks to be drawn
    /// again. The component stays as it was.
    open spec fn handled(&self, next: &Self, k: Key, width: u16, height: u16, r: InputResult) -> bool {
        &&& *next == *self
        &&& r is Close <==> (self.trigger().len() == 0 || self.trigger().contains(k))
        &&& !(r is Close) ==> r is Rerender
    }

    /// Closes on a trigger key, or on any key where there are none; otherwise asks to be drawn
    /// again.
    fn input(&mut self, k: Key, width: u16, height: u16) -> (r: InputResult)
        ensures
            *final(self) == *old(self),
            r is Close <==> (old(self).trigger().len() == 0 || old(self).trigger().contains(k)),
            !(r is Close) ==> r is Rerender,
    {
        let mut i: usize = 0;
        let mut found = self.trigger.len() == 0;
        while i < self.trigger.len() && !found
            invariant
                i <= self.trigger@.len(),
                found <==> (self.trigger@.len() == 0 || exists|j: int|
                    0 <= j < i && self.trigger@[j] == k),
            decreases self.trigger.len() - i,
        {
            if self.trigger[i] == k {
                found = true;
            }
            i = i + 1;
        }
        if found {
            InputResult::Close
        } else {
            proof {
                assert forall|j: int| 0 <= j < self.trigger@.len() implies self.trigger@[j] != k by {
                }
            }
            InputResult::Rerender
        }
    }
}

/// Shows a component and takes no part in what the server reports.
pub struct IgnoreRpc<T> {
    content: T,
}

impl<T> IgnoreRpc<T> {
    /// The component shown.
    pub closed spec fn content(&self) -> T {
        self.content
    }

    /// Shows `ct`.
    pub fn new(ct: T) -> (r: IgnoreRpc<T>)
        ensures
            r.content() == ct,
    {
        IgnoreRpc { content: ct }
    }

    /// The component shown.
    pub fn inner(&self) -> (r: &T)
        ensures
            *r == self.content(),
    {
        &self.content
    }

    /// The component shown, to change.
    pub fn inner_mut(&mut self) -> (r: &mut T)
        ensures
            *r == old(self).content(),
            final(self).content() == *final(r),
    {
        &mut self.content
    }

    /// Takes a server message: it changes nothing, so nothing needs to be drawn again.
    pub fn rpc<M>(&mut self, msg: M) -> (r: bool)
        ensures
            !r,
            *final(self) == *old(self),
    {
        false
    }
}

/// A component drawn by a function.
pub struct RenderFn<F> {
    ct: F,
}

impl<F> RenderFn<F> {
    /// The drawing function.
    pub closed spec fn fun(&self) -> F {
        self.ct
    }

    /// A component that `fun` draws.
    pub fn new(fun: F) -> (r: RenderFn<F>)
        ensures
            r.fun() == fun,
    {
        RenderFn { ct: fun }
    }

    /// The drawing function, which takes the target buffer, the width and height of the box
    /// and its column and row.
    pub fn inner(&self) -> (r: &F)
        ensures
            *r == self.fun(),
    {
        &self.ct
    }
}

/// A component drawn by a function from a state of its own.
pub struct RenderStateFn<F, T> {
    ct: F,
    state: T,
}

impl<F, T> RenderStateFn<F, T> {
    /// The drawing function.
    pub closed spec fn fun(&self) -> F {
        self.ct
    }

    /// The state it draws from.
    pub closed spec fn state(&self) -> T {
        self.state
    }

    /// A component that `fun` draws from `state`.
    pub fn new(fun: F, state: T) -> (r: RenderStateFn<F, T>)
        ensures
            r.fun() == fun,
            r.state() == state,
    {
        RenderStateFn { ct: fun, state }
    }

    /// The drawing function and the state, which the function takes last, to change.
    pub fn parts(&mut self) -> (r: (&F, &mut T))
        ensures
            *r.0 == old(self).fun(),
            *r.1 == old(self).state(),
            final(self).fun() == old(self).fun(),
            final(self).state() == *final(r.1),
    {
        (&self.ct, &mut self.state)
    }
}

/// Moving the cursor left and back right puts it where it was, where it could move left and
/// stood at most one past the last cluster.
pub proof fn lemma_left_then_right(a: Input, b: Input, c: Input)
    requires
        edit_post(a, b, Key::Left),
        edit_post(b, c, Key::Right),
        1 < a.cursor() <= a.clusters().len() + 1,
    ensures
        c.text() == a.text(),
        c.cursor() == a.cursor(),
{
}

/// Inserting into the characters of a printable ASCII text, each on its own, inserts into the
/// text.
proof fn lemma_ascii_inserted(t: Seq<char>, i: int, c: char)
    requires
        0 <= i,
    ensures
        inserted(single_chars(t), i, c) == t.insert(if i < t.len() { i } else { t.len() as int }, c),
{
    let gs = single_chars(t);
    let k = if i < gs.len() { i } else { gs.len() as int };
    assert(gs.take(k) =~= single_chars(t.take(k)));
    assert(gs.skip(k) =~= single_chars(t.skip(k)));
    crate::utils::lemma_concat_single_chars(t.take(k));
    crate::utils::lemma_concat_single_chars(t.skip(k));
    assert(t.take(k) + seq![c] + t.skip(k) =~= t.insert(if i < t.len() { i } else { t.len() as int }, c));
}

/// Leaving out one of the characters of a text, each on its own, removes it from the text.
proof fn lemma_ascii_without(t: Seq<char>, i: int)
    requires
        0 <= i < t.len(),
    ensures
        concat(without(single_chars(t), i)) == t.remove(i),
{
    let gs = single_chars(t);
    assert(without(gs, i) =~= single_chars(t.remove(i)));
    crate::utils::lemma_concat_single_chars(t.remove(i));
}

/// Typing a printable ASCII character into a printable ASCII text and erasing it with
/// backspace gives the input back, where the cursor stands within the text.
pub proof fn lemma_push_then_backspace(a: Input, b: Input, d: Input, c: char)
    requires
        edit_post(a, b, Key::Char(c)),
        edit_post(b, d, Key::Backspace),
        printable_ascii(a.text()),
        0x20 <= (c as u32) <= 0x7e,
        1 <= a.cursor() <= a.text().len() + 1,
    ensures
        d.text() == a.text(),
        d.cursor() == a.cursor(),
{
    let t = a.text();
    let k = a.cursor() - 1;
    assert(b.text() == t.insert(k, c));
    assert(printable_ascii(b.text())) by {
        assert forall|i: int| 0 <= i < b.text().len() implies 0x20 <= (#[trigger] b.text()[i] as u32)
            <= 0x7e by {
            if i < k {
                assert(b.text()[i] == t[i]);
            } else if i > k {
                assert(b.text()[i] == t[i - 1]);
            }
        }
    }
    assert(d.text() =~= t);
}

/// `Home` puts the cursor on the first cluster and `End` one past the text's bytes, whatever
/// came before; neither changes the text.
pub proof fn lemma_home_end(a: Input, b: Input, c: Input)
    requires
        edit_post(a, b, Key::Home),
        edit_post(b, c, Key::End),
    ensures
        b.cursor() == 1,
        c.text() == a.text(),
        c.cursor() == vstd::utf8::encode_utf8(a.text()).len() + 1,
{
}

} // verus!
