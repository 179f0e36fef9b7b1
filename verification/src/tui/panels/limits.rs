//! The rate limit panel of a torrent: its upload and download limits, edited as numbers of
//! bytes per second, where an empty field stands for no limit.
use vstd::prelude::*;

use super::login::label;
use crate::tui::widgets::{edit_accepts, edit_post, is_edit_key, Input};
use crate::tui::{HandleInput, InputResult, Key};
use crate::utils::grapheme_clusters;
use crate::utils::term::decimal;

verus! {

/// The text a limit field starts with: the limit in bytes per second, or nothing where there
/// is none (or where the server reports a negative one).
pub open spec fn limit_text(t: Option<i64>) -> Seq<char> {
    match t {
        Some(n) => if n >= 0 {
            decimal(n as nat)
        } else {
            Seq::empty()
        },
        None => Seq::empty(),
    }
}

/// Whether `c` is a decimal digit.
pub open spec fn is_digit(c: char) -> bool {
    48 <= (c as u32) <= 57
}

/// Whether every character of `s` is a decimal digit.
pub open spec fn all_digits(s: Seq<char>) -> bool {
    forall|i: int| 0 <= i < s.len() ==> is_digit(#[trigger] s[i])
}

/// The number that the digits `s` write in decimal.
pub open spec fn digits_value(s: Seq<char>) -> nat
    decreases s.len(),
{
    if s.len() == 0 {
        0
    } else {
        digits_value(s.drop_last()) * 10 + ((s.last() as u32) - 48) as nat
    }
}

/// The limit that a field holding `s` sets: `Some(None)` for no limit where it is empty,
/// `Some(Some(n))` where it writes a number `n` that fits in an `i64`, and `None` where it is
/// no limit.
pub open spec fn limit_value(s: Seq<char>) -> Option<Option<i64>> {
    if s.len() == 0 {
        Some(None)
    } else if all_digits(s) && digits_value(s) <= i64::MAX {
        Some(Some(digits_value(s) as i64))
    } else {
        None
    }
}

pub open spec fn limits_header() -> Seq<char> {
    seq!['L', 'i', 'm', 'i', 't', 's', ' ', 'i', 'n', ' ', 'B', '/', 's']
}

pub open spec fn upload_word() -> Seq<char> {
    seq!['U', 'p', 'l', 'o', 'a', 'd']
}

pub open spec fn download_word() -> Seq<char> {
    seq!['D', 'o', 'w', 'n', 'l', 'o', 'a', 'd']
}

/// The line of a limit field: its label, cyan where it is selected, then its text, with the
/// cursor shown where it is selected.
pub open spec fn field_line(name: Seq<char>, i: Input, selected: bool) -> Seq<char> {
    if selected {
        label(name, true) + Input::spec_format_active(i.clusters(), i.cursor())
    } else {
        label(name, false) + i.text()
    }
}

/// Ten to the power `k`.
pub open spec fn pow10(k: nat) -> nat
    decreases k,
{
    if k == 0 {
        1
    } else {
        10 * pow10((k - 1) as nat)
    }
}

/// A number below `10^k` takes at most `k` digits.
proof fn lemma_decimal_short(n: nat, k: nat)
    requires
        k >= 1,
        n < pow10(k),
    ensures
        decimal(n).len() <= k,
    decreases k,
{
    if n >= 10 {
        if k == 1 {
            assert(pow10(1) == 10) by {
                reveal_with_fuel(pow10, 2);
            }
        } else {
            assert(n / 10 < pow10((k - 1) as nat)) by (nonlinear_arith)
                requires
                    n < 10 * pow10((k - 1) as nat),
            ;
            lemma_decimal_short(n / 10, (k - 1) as nat);
        }
    }
}

/// A limit's text is short.
proof fn lemma_limit_text_short(t: Option<i64>)
    ensures
        limit_text(t).len() <= 19,
{
    if let Some(n) = t {
        if n >= 0 {
            assert(pow10(19) == 10000000000000000000) by {
                reveal_with_fuel(pow10, 20);
            }
            lemma_decimal_short(n as nat, 19);
        }
    }
}

/// The digits of a prefix write no more than the digits of the whole.
proof fn lemma_digits_prefix(s: Seq<char>, i: int)
    requires
        all_digits(s),
        0 <= i <= s.len(),
    ensures
        digits_value(s.take(i)) <= digits_value(s),
    decreases s.len(),
{
    if i < s.len() {
        let d = s.drop_last();
        assert(all_digits(d)) by {
            assert forall|j: int| 0 <= j < d.len() implies is_digit(#[trigger] d[j]) by {
                assert(d[j] == s[j]);
            }
        }
        lemma_digits_prefix(d, i);
        assert(d.take(i) =~= s.take(i));
        assert(is_digit(s.last())) by {
            assert(s.last() == s[s.len() - 1]);
        }
    } else {
        assert(s.take(i) =~= s);
    }
}

/// The limit that the text `s` sets, as `limit_value` says.
pub fn parse_limit(s: &str) -> (r: Option<Option<i64>>)
    ensures
        r == limit_value(s@),
{
    let n = s.unicode_len();
    if n == 0 {
        return Some(None);
    }
    let mut v: u64 = 0;
    let mut i: usize = 0;
    while i < n
        invariant
            n == s@.len(),
            i <= n,
            all_digits(s@.take(i as int)),
            v == digits_value(s@.take(i as int)),
            v <= i64::MAX,
        decreases n - i,
    {
        let c = s.get_char(i);
        assert(s@.take(i + 1).drop_last() =~= s@.take(i as int));
        assert(s@.take(i + 1).last() == c);
        if !((c as u32) >= 48 && (c as u32) <= 57) {
            assert(!all_digits(s@)) by {
                assert(s@[i as int] == c);
            }
            return None;
        }
        let d: u64 = ((c as u32) - 48) as u64;
        assert(d <= 9);
        if v > 922337203685477580u64 || (v == 922337203685477580u64 && d > 7) {
            assert(digits_value(s@.take(i + 1)) > i64::MAX);
            proof {
                if all_digits(s@) {
                    lemma_digits_prefix(s@, i + 1);
                }
            }
            return None;
        }
        v = v * 10 + d;
        assert(all_digits(s@.take(i + 1))) by {
            assert forall|j: int| 0 <= j < i + 1 implies is_digit(#[trigger] s@.take(i + 1)[j]) by {
                if j < i {
                    assert(s@.take(i + 1)[j] == s@.take(i as int)[j]);
                }
            }
        }
        i = i + 1;
    }
    assert(s@.take(n as int) =~= s@);
    Some(Some(v as i64))
}

/// Whether `l` is the rate limit panel of the torrent `t` as it opens: its limits in the
/// fields, the cursor after each, the upload field selected.
pub open spec fn limits_of(l: Limits, t: crate::tui::panels::TorrentView) -> bool {
    &&& l.id() == t.id
    &&& l.up().text() == limit_text(t.throttle_up)
    &&& l.up().cursor() == grapheme_clusters(limit_text(t.throttle_up)).len() + 1
    &&& l.down().text() == limit_text(t.throttle_down)
    &&& l.down().cursor() == grapheme_clusters(limit_text(t.throttle_down)).len() + 1
    &&& l.up_selected()
}

/// The rate limit panel of a torrent: an upload and a download field, one of them selected.
pub struct Limits {
    id: String,
    up: Input,
    down: Input,
    up_selected: bool,
}

impl Limits {
    /// The id of the torrent whose limits these are.
    pub closed spec fn id(&self) -> Seq<char> {
        self.id@
    }

    /// The upload field.
    pub closed spec fn up(&self) -> Input {
        self.up
    }

    /// The download field.
    pub closed spec fn down(&self) -> Input {
        self.down
    }

    /// Whether the upload field is selected.
    pub closed spec fn up_selected(&self) -> bool {
        self.up_selected
    }

    /// The three lines of the panel.
    pub open spec fn lines(&self) -> Seq<Seq<char>> {
        seq![
            limits_header(),
            field_line(upload_word(), self.up(), self.up_selected()),
            field_line(download_word(), self.down(), !self.up_selected()),
        ]
    }

    /// The limits of the torrent `id`, upload `up` and download `down`, each field with its
    /// cursor after its text; the upload field is selected.
    pub fn new(id: String, up: Option<i64>, down: Option<i64>) -> (r: Limits)
        ensures
            r.id() == id@,
            r.up().text() == limit_text(up),
            r.up().cursor() == grapheme_clusters(limit_text(up)).len() + 1,
            r.down().text() == limit_text(down),
            r.down().cursor() == grapheme_clusters(limit_text(down)).len() + 1,
            r.up_selected(),
    {
        Limits { id, up: Self::field(up), down: Self::field(down), up_selected: true }
    }

    /// A field holding the limit `t`, with its cursor after its text.
    fn field(t: Option<i64>) -> (r: Input)
        ensures
            r.text() == limit_text(t),
            r.cursor() == grapheme_clusters(limit_text(t)).len() + 1,
    {
        proof {
            lemma_limit_text_short(t);
        }
        let text = match t {
            Some(n) => if n >= 0 {
                crate::utils::decimal_string(n as u64)
            } else {
                String::new()
            },
            None => String::new(),
        };
        Input::from(text, None)
    }

    /// The three lines of the panel, as `lines` says.
    pub fn render_lines(&self) -> (r: Vec<String>)
        ensures
            crate::utils::views(r@) == self.lines(),
    {
        proof {
            reveal_strlit("Limits in B/s");
            reveal_strlit("Upload");
            reveal_strlit("Download");
        }
        let header = String::from_str("Limits in B/s");
        let up_word = String::from_str("Upload");
        let down_word = String::from_str("Download");
        assert(header@ =~= limits_header());
        assert(up_word@ =~= upload_word());
        assert(down_word@ =~= download_word());
        let up = Self::line(up_word, &self.up, self.up_selected);
        let down = Self::line(down_word, &self.down, !self.up_selected);
        let mut r: Vec<String> = Vec::new();
        r.push(header);
        r.push(up);
        r.push(down);
        proof {
            let vs = crate::utils::views(r@);
            assert(vs.len() == 3);
            assert(vs[0] == limits_header());
            assert(vs[1] == field_line(upload_word(), self.up(), self.up_selected()));
            assert(vs[2] == field_line(download_word(), self.down(), !self.up_selected()));
            assert(vs =~= self.lines());
        }
        r
    }

    fn line(name: String, i: &Input, selected: bool) -> (r: String)
        ensures
            r@ == field_line(name@, *i, selected),
    {
        proof {
            reveal_strlit(": ");
        }
        let mut s = String::new();
        if selected {
            s.append(crate::utils::color::ColorEscape::cyan().inner());
            s.append(name.as_str());
            s.append(crate::utils::color::ColorEscape::reset().inner());
            s.append(": ");
            s.append(i.format_active().as_str());
        } else {
            s.append(name.as_str());
            s.append(": ");
            s.append(i.inner());
        }
        proof {
            assert(s@ =~= field_line(name@, *i, selected));
        }
        s
    }
}

impl HandleInput for Limits {
    /// Editing stays within the machine's limits.
    open spec fn accepts_input(&self, k: Key, width: u16, height: u16) -> bool {
        let sel = if self.up_selected() {
            self.up()
        } else {
            self.down()
        };
        is_edit_key(k) && k != Key::Char('\t') && k != Key::Char('\n') ==> edit_accepts(sel, k)
    }

    /// Tab and the arrows up and down switch between the fields, and the editing keys edit
    /// the selected one. Enter commits the limits where both fields hold one, and Esc closes
    /// the panel without them. Other keys are handed back.
    open spec fn handled(&self, next: &Self, k: Key, width: u16, height: u16, r: InputResult) -> bool {
        &&& (k == Key::Down || k == Key::Up || k == Key::Char('\t')) ==> next.up_selected()
            == !self.up_selected() && next.up() == self.up() && next.down() == self.down()
            && next.id() == self.id() && r is Rerender
        &&& k == Key::Char('\n') ==> *next == *self && match (
            limit_value(self.up().text()),
            limit_value(self.down().text()),
        ) {
            (Some(u), Some(d)) => r matches InputResult::SetLimits(id, u2, d2) && id@ == self.id()
                && u2 == u && d2 == d,
            _ => r is Rerender,
        }
        &&& k == Key::Esc ==> *next == *self && r is Close
        &&& (is_edit_key(k) && k != Key::Char('\t') && k != Key::Char('\n')) ==> {
            &&& next.up_selected() == self.up_selected()
            &&& next.id() == self.id()
            &&& r is Rerender
            &&& self.up_selected() ==> edit_post(self.up(), next.up(), k) && next.down()
                == self.down()
            &&& !self.up_selected() ==> edit_post(self.down(), next.down(), k) && next.up()
                == self.up()
        }
        &&& !(is_edit_key(k) || k == Key::Down || k == Key::Up || k == Key::Esc) ==> *next
            == *self && r == InputResult::Key(k)
    }

    fn input(&mut self, k: Key, width: u16, height: u16) -> (r: InputResult) {
        if k == Key::Down || k == Key::Up || k == Key::Char('\t') {
            self.up_selected = !self.up_selected;
        } else if k == Key::Char('\n') {
            let up = parse_limit(self.up.inner());
            let down = parse_limit(self.down.inner());
            return match (up, down) {
                (Some(u), Some(d)) => InputResult::SetLimits(self.id.clone(), u, d),
                _ => InputResult::Rerender,
            };
        } else if k == Key::Esc {
            return InputResult::Close;
        } else if match k {
            Key::Home | Key::End | Key::Left | Key::Right | Key::Backspace | Key::Delete
            | Key::Char(_) => true,
            _ => false,
        } {
            if self.up_selected {
                self.up.edit(k);
            } else {
                self.down.edit(k);
            }
        } else {
            return InputResult::Key(k);
        }
        InputResult::Rerender
    }
}

impl Limits {
    /// Whether the panel can take the key `k`, as `accepts_input` says.
    pub fn accepts(&self, k: Key) -> (r: bool)
        ensures
            forall|w: u16, h: u16| r == self.accepts_input(k, w, h),
    {
        let sel = if self.up_selected {
            &self.up
        } else {
            &self.down
        };
        let edit = match k {
            Key::Home | Key::End | Key::Left | Key::Right | Key::Backspace | Key::Delete
            | Key::Char(_) => true,
            _ => false,
        };
        if edit && k != Key::Char('\t') && k != Key::Char('\n') {
            crate::tui::widgets::edit_accepted(sel.inner(), sel.cursor_pos(), k)
        } else {
            true
        }
    }
}

} // verus!
