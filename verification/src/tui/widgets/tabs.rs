//! Components shown one at a time under a header of tab names.
use vstd::prelude::*;
use vstd::string::*;
use vstd::utf8::encode_utf8;

use super::text::{text_drawable, text_drawn, Text};
use crate::tui::Renderable;
use crate::utils::align::{x::Left, y::Top};
use crate::utils::color::{fg_seq, reset_fg_seq, ColorEscape};
use crate::utils::align::x::{sat_sub, styled_width};
use crate::utils::term::{csi, decimal, goto};
use crate::utils::{
    count_without_styling, is_measurable, push_char, spec_count_without_styling, styling_closed, write_str,
};

verus! {

/// A move to column `x`, row `y`.
pub open spec fn goto_seq(x: u16, y: u16) -> Seq<char> {
    csi(decimal(y as nat).push(';') + decimal(x as nat).push('H'))
}

/// Tab titles, separated by ` | `.
pub open spec fn joined(titles: Seq<Seq<char>>) -> Seq<char>
    decreases titles.len(),
{
    if titles.len() == 0 {
        Seq::empty()
    } else if titles.len() == 1 {
        titles[0]
    } else {
        joined(titles.drop_last()) + seq![' ', '|', ' '] + titles.last()
    }
}

/// The name of a tab set: the one tab's name, or `tabs: ` and all names separated by ` | `.
pub open spec fn tabs_title(titles: Seq<Seq<char>>) -> Seq<char> {
    if titles.len() == 1 {
        titles[0]
    } else {
        seq!['t', 'a', 'b', 's', ':', ' '] + joined(titles)
    }
}

/// The titles of components.
pub open spec fn titles<T: Renderable>(tabs: Seq<T>) -> Seq<Seq<char>> {
    tabs.map_values(|t: T| t.title())
}

/// Components shown one at a time, with a header that names them all.
pub struct Tabs<T> {
    tabs: Vec<T>,
    active_idx: usize,
}

impl<T> Tabs<T> {
    /// The active tab is one of the tabs, or the first where there are none.
    #[verifier::type_invariant]
    spec fn active_in_range(self) -> bool {
        self.active_idx < self.tabs@.len() || self.active_idx == 0
    }

    /// The tabs.
    pub closed spec fn tabs(&self) -> Seq<T> {
        self.tabs@
    }

    /// The index of the tab shown.
    pub closed spec fn active(&self) -> int {
        self.active_idx as int
    }

    /// Tabs `tabs`, showing the one at `active`.
    pub fn new(tabs: Vec<T>, active: usize) -> (r: Tabs<T>)
        requires
            active < tabs@.len() || active == 0,
        ensures
            r.tabs() == tabs@,
            r.active() == active,
    {
        Tabs { tabs, active_idx: active }
    }

    /// Adds a tab at the end.
    pub fn push(&mut self, tab: T)
        ensures
            final(self).tabs() == old(self).tabs().push(tab),
            final(self).active() == old(self).active(),
    {
        let mut taken = Tabs { tabs: Vec::new(), active_idx: 0 };
        std::mem::swap(&mut taken, self);
        proof {
            use_type_invariant(&taken);
        }
        let Tabs { mut tabs, active_idx } = taken;
        tabs.push(tab);
        *self = Tabs { tabs, active_idx };
    }

    /// The number of tabs.
    pub fn n_tabs(&self) -> (r: usize)
        ensures
            r == self.tabs().len(),
    {
        self.tabs.len()
    }
}

impl<T: Renderable> Renderable for Tabs<T> {
    open spec fn title(&self) -> Seq<char> {
        tabs_title(titles(self.tabs()))
    }

    fn name(&self) -> (r: String) {
        let ghost ts = titles(self.tabs());
        if self.tabs.len() == 1 {
            return self.tabs[0].name();
        }
        let mut names = String::new();
        let mut i: usize = 0;
        while i < self.tabs.len()
            invariant
                ts == titles(self.tabs()),
                self.tabs() == self.tabs@,
                i <= self.tabs@.len(),
                names@ == joined(ts.take(i as int)),
            decreases self.tabs.len() - i,
        {
            let ghost before = names@;
            if i > 0 {
                names.append(" | ");
                proof {
                    reveal_strlit(" | ");
                }
            }
            let n = self.tabs[i].name();
            names.append(n.as_str());
            proof {
                assert(ts.take(i + 1).drop_last() =~= ts.take(i as int));
                if i == 0 {
                    assert(names@ =~= ts.take(1)[0]);
                }
            }
            i = i + 1;
        }
        proof {
            reveal_strlit("tabs: ");
            assert(ts.take(i as int) =~= ts);
        }
        let mut r = String::from_str("tabs: ");
        r.append(names.as_str());
        r
    }
}

/// `n` horizontal box-drawing lines.
pub open spec fn dashes(n: nat) -> Seq<char> {
    Seq::new(n, |i: int| '─')
}

/// The smaller of two numbers.
pub open spec fn min(a: nat, b: nat) -> nat {
    if a <= b {
        a
    } else {
        b
    }
}

/// The summed 16-bit widths of the names.
pub open spec fn widths_sum(names: Seq<Seq<char>>) -> int
    decreases names.len(),
{
    if names.len() == 0 {
        0
    } else {
        widths_sum(names.drop_last()) + styled_width(names.last())
    }
}

/// The margin on each side of the name at `i` within its section `sec` columns wide.
pub open spec fn margin(names: Seq<Seq<char>>, i: int, sec: u16) -> nat {
    (sat_sub(sec, styled_width(names[i])) / 2) as nat
}

/// The column where the name at `i` is drawn.
pub open spec fn name_column(names: Seq<Seq<char>>, i: int, sec: u16, x_off: u16) -> int {
    x_off + (i % 0x10000) * sec + margin(names, i, sec) + 1
}

/// The name at `i` can be drawn: its column fits 16 bits (each step of computing it does),
/// and the text can be drawn there in the section.
pub open spec fn name_drawable(
    names: Seq<Seq<char>>,
    i: int,
    sec: u16,
    x_off: u16,
    y_off: u16,
) -> bool {
    &&& (i % 0x10000) * sec <= u16::MAX
    &&& x_off + (i % 0x10000) * sec <= u16::MAX
    &&& x_off + (i % 0x10000) * sec + margin(names, i, sec) <= u16::MAX
    &&& name_column(names, i, sec, x_off) <= u16::MAX
    &&& text_drawable::<Left, Top>(
        names[i],
        false,
        sec,
        1,
        name_column(names, i, sec, x_off) as u16,
        y_off,
    )
}

/// The header from the tab at `i` on, with `rem` lines of the budget left: each name has
/// the lines of its margin and one more before and after it, taken from the budget as far as
/// it goes, and the last name has all that is left after it; the active name is cyan.
pub open spec fn header_from(
    names: Seq<Seq<char>>,
    active: int,
    sec: u16,
    x_off: u16,
    y_off: u16,
    i: int,
    rem: nat,
) -> Seq<u8>
    decreases names.len() - i,
{
    if i >= names.len() || i < 0 {
        Seq::empty()
    } else {
        let d = margin(names, i, sec) + 1;
        let first = min(d, rem);
        let rem1 = (rem - first) as nat;
        let second = if i + 1 == names.len() {
            rem1
        } else {
            min(d, rem1)
        };
        let rem2 = (rem1 - second) as nat;
        let on = if active == i {
            fg_seq(seq!['6'])
        } else {
            Seq::empty()
        };
        let off = if active == i {
            reset_fg_seq()
        } else {
            Seq::empty()
        };
        encode_utf8(on + dashes(first)) + text_drawn::<Left, Top>(
            names[i],
            false,
            sec,
            1,
            name_column(names, i, sec, x_off) as u16,
            y_off,
        ) + encode_utf8(dashes(second) + off) + header_from(
            names,
            active,
            sec,
            x_off,
            y_off,
            i + 1,
            rem2,
        )
    }
}

/// `n` horizontal lines, as text.
fn dash_line(n: u16) -> (r: String)
    ensures
        r@ == dashes(n as nat),
{
    let mut s = String::new();
    let mut i: u16 = 0;
    while i < n
        invariant
            i <= n,
            s@ == dashes(i as nat),
        decreases n - i,
    {
        push_char(&mut s, '─');
        proof {
            assert(s@ =~= dashes((i + 1) as nat));
        }
        i = i + 1;
    }
    s
}

/// The tabs of a slice that the caller keeps, the one at `active` shown.
pub struct BorrowedSameTabs<'a, T> {
    tabs: &'a mut [T],
    active_idx: usize,
}

impl<'a, T: Renderable> BorrowedSameTabs<'a, T> {
    /// The tabs.
    pub closed spec fn tabs(&self) -> Seq<T> {
        self.tabs@
    }

    /// The index of the tab shown.
    pub closed spec fn active(&self) -> int {
        self.active_idx as int
    }

    /// The names of the tabs.
    pub open spec fn names(&self) -> Seq<Seq<char>> {
        titles(self.tabs())
    }

    /// The width of each tab's section of the header.
    pub open spec fn section(&self, width: u16) -> u16 {
        (width / (self.tabs().len() % 0x10000) as u16) as u16
    }

    /// Tabs over `tabs`, showing the one at `active`.
    pub fn new(tabs: &'a mut [T], active: usize) -> (r: BorrowedSameTabs<'a, T>)
        ensures
            r.tabs() == old(tabs)@,
            r.active() == active,
    {
        BorrowedSameTabs { tabs, active_idx: active }
    }

    /// The header can be drawn: there are tabs (and not a multiple of 65536 of them), their
    /// names can be measured and their widths summed in 16 bits, the start is not 0, 0, and
    /// each name can be drawn in its section.
    pub open spec fn header_drawable(&self, width: u16, x_off: u16, y_off: u16) -> bool {
        let names = self.names();
        &&& self.tabs().len() % 0x10000 != 0
        &&& x_off != 0 || y_off != 0
        &&& forall|i: int|
            0 <= i < names.len() ==> styling_closed(#[trigger] names[i])
                && spec_count_without_styling(names[i]) <= usize::MAX
        &&& forall|j: int| 0 <= j <= names.len() ==> widths_sum(#[trigger] names.take(j))
            <= u16::MAX
        &&& forall|i: int|
            0 <= i < names.len() ==> #[trigger] name_drawable(
                names,
                i,
                self.section(width),
                x_off,
                y_off,
            )
    }

    /// What drawing the header writes: a move to its start, then the names, each in its
    /// section, between lines from a budget of as many as the width leaves beside all names.
    pub open spec fn header(&self, width: u16, x_off: u16, y_off: u16) -> Seq<u8> {
        let names = self.names();
        encode_utf8(goto_seq(x_off, y_off)) + header_from(
            names,
            self.active(),
            self.section(width),
            x_off,
            y_off,
            0,
            sat_sub(width, widths_sum(names) as u16) as nat,
        )
    }
}

impl<'a, T: Renderable> BorrowedSameTabs<'a, T> {
    /// Whether the header can be drawn, as `header_drawable` says.
    pub fn can_draw_header(&self, width: u16, x_off: u16, y_off: u16) -> (r: bool)
        ensures
            r == self.header_drawable(width, x_off, y_off),
    {
        let ghost names = self.names();
        let n = self.tabs.len();
        let n16 = n as u16;
        assert(n16 == n % 0x10000) by (bit_vector)
            requires
                n16 == n as u16,
        ;
        if n16 == 0 || (x_off == 0 && y_off == 0) {
            return false;
        }
        let sec = width / n16;
        let mut total: u16 = 0;
        let mut i: usize = 0;
        proof {
            assert(names.take(0) =~= Seq::<Seq<char>>::empty());
        }
        while i < n
            invariant
                names == self.names(),
                n == names.len(),
                i <= n,
                sec == self.section(width),
                total == widths_sum(names.take(i as int)),
                forall|j: int|
                    0 <= j < i ==> styling_closed(#[trigger] names[j])
                        && spec_count_without_styling(names[j]) <= usize::MAX,
                forall|j: int| 0 <= j <= i ==> widths_sum(#[trigger] names.take(j)) <= u16::MAX,
                forall|j: int| 0 <= j < i ==> #[trigger] name_drawable(names, j, sec, x_off, y_off),
            decreases n - i,
        {
            let name = self.tabs[i].name();
            assert(name@ == names[i as int]);
            if !is_measurable(name.as_str()) {
                return false;
            }
            let w = count_without_styling(name.as_str());
            proof {
                assert(names.take(i + 1).drop_last() =~= names.take(i as int));
                assert(names.take(i + 1).last() == names[i as int]);
            }
            total = match total.checked_add(w) {
                Some(t) => t,
                None => {
                    assert(widths_sum(names.take(i + 1)) > u16::MAX);
                    return false;
                },
            };
            let i16 = i as u16;
            assert(i16 == i % 0x10000) by (bit_vector)
                requires
                    i16 == i as u16,
            ;
            let d = sec.saturating_sub(w) / 2;
            assert(i16 as u32 * sec as u32 <= 0xffff * 0xffff) by (nonlinear_arith)
                requires
                    i16 <= 0xffff,
                    sec <= 0xffff,
            ;
            let step = i16 as u32 * sec as u32;
            assert(margin(names, i as int, sec) == d);
            if step > 0xffff || x_off as u32 + step > 0xffff || x_off as u32 + step + d as u32
                > 0xffff || x_off as u32 + step + d as u32 + 1 > 0xffff {
                assert(!name_drawable(names, i as int, sec, x_off, y_off));
                return false;
            }
            let col = (x_off as u32 + step + d as u32 + 1) as u16;
            let text = Text::<Left, Top>::new(false, name);
            if !text.can_draw(sec, 1, col, y_off) {
                assert(!name_drawable(names, i as int, sec, x_off, y_off));
                return false;
            }
            i = i + 1;
        }
        proof {
            assert(names.take(n as int) =~= names);
        }
        true
    }

    /// Draws the header: the names of the tabs in sections of equal width, separated by
    /// lines, the active one cyan. The active tab draws itself below it.
    #[verifier::rlimit(40)]
    pub fn render_header(&self, target: &mut Vec<u8>, width: u16, x_off: u16, y_off: u16)
        requires
            self.header_drawable(width, x_off, y_off),
        ensures
            final(target)@ == old(target)@ + self.header(width, x_off, y_off),
    {
        let ghost names = self.names();
        write_str(target, goto(x_off, y_off).as_str());
        let n = self.tabs.len();
        let n16 = n as u16;
        assert(n16 == n % 0x10000) by (bit_vector)
            requires
                n16 == n as u16,
        ;
        let sec = width / n16;
        let mut total: u16 = 0;
        let mut i: usize = 0;
        while i < n
            invariant
                names == self.names(),
                n == names.len(),
                i <= n,
                total == widths_sum(names.take(i as int)),
                forall|k: int|
                    0 <= k < names.len() ==> styling_closed(#[trigger] names[k])
                        && spec_count_without_styling(names[k]) <= usize::MAX,
                forall|j: int| 0 <= j <= names.len() ==> widths_sum(#[trigger] names.take(j))
                    <= u16::MAX,
            decreases n - i,
        {
            let name = self.tabs[i].name();
            assert(name@ == names[i as int]);
            let w = count_without_styling(name.as_str());
            proof {
                assert(names.take(i + 1).drop_last() =~= names.take(i as int));
                assert(names.take(i + 1).last() == names[i as int]);
                assert(widths_sum(names.take(i + 1)) <= u16::MAX);
            }
            total = total + w;
            i = i + 1;
        }
        proof {
            assert(names.take(n as int) =~= names);
        }
        let mut rem: u16 = width.saturating_sub(total);
        let ghost start = target@;
        let mut i: usize = 0;
        while i < n
            invariant
                names == self.names(),
                n == names.len(),
                i <= n,
                sec == self.section(width),
                self.header_drawable(width, x_off, y_off),
                old(target)@ + self.header(width, x_off, y_off) == target@ + header_from(
                    names,
                    self.active(),
                    sec,
                    x_off,
                    y_off,
                    i as int,
                    rem as nat,
                ),
            decreases n - i,
        {
            let ghost t0 = target@;
            let name = self.tabs[i].name();
            assert(name@ == names[i as int]);
            assert(styling_closed(names[i as int]));
            assert(name_drawable(names, i as int, sec, x_off, y_off));
            let w = count_without_styling(name.as_str());
            let d = sec.saturating_sub(w) / 2;
            let first = if d + 1 <= rem {
                d + 1
            } else {
                rem
            };
            rem = rem - first;
            let active = self.active_idx == i;
            let mut pre = String::new();
            if active {
                pre.append(ColorEscape::cyan().inner());
            }
            pre.append(dash_line(first).as_str());
            write_str(target, pre.as_str());
            let i16 = i as u16;
            assert(i16 == i % 0x10000) by (bit_vector)
                requires
                    i16 == i as u16,
            ;
            let col = x_off + i16 * sec + d + 1;
            let text = Text::<Left, Top>::new(false, name);
            text.render(target, sec, 1, col, y_off);
            let second = if i + 1 == n {
                rem
            } else if d + 1 <= rem {
                d + 1
            } else {
                rem
            };
            rem = rem - second;
            let mut post = dash_line(second);
            if active {
                post.append(ColorEscape::reset().inner());
            }
            write_str(target, post.as_str());
            proof {
                assert(pre@ =~= (if active {
                    fg_seq(seq!['6'])
                } else {
                    Seq::empty()
                }) + dashes(first as nat));
                assert(post@ =~= dashes(second as nat) + (if active {
                    reset_fg_seq()
                } else {
                    Seq::empty()
                }));
                assert(target@ =~= t0 + encode_utf8(pre@) + text_drawn::<Left, Top>(
                    names[i as int],
                    false,
                    sec,
                    1,
                    name_column(names, i as int, sec, x_off) as u16,
                    y_off,
                ) + encode_utf8(post@));
            }
            i = i + 1;
        }
    }

    /// Draws the header where it can be drawn, as `render_header` does, and tells whether it
    /// could; where it cannot, nothing is written.
    pub fn draw_header(&self, target: &mut Vec<u8>, width: u16, x_off: u16, y_off: u16) -> (r:
        bool)
        ensures
            r == self.header_drawable(width, x_off, y_off),
            r ==> final(target)@ == old(target)@ + self.header(width, x_off, y_off),
            !r ==> final(target)@ == old(target)@,
    {
        if self.can_draw_header(width, x_off, y_off) {
            self.render_header(target, width, x_off, y_off);
            true
        } else {
            false
        }
    }

    /// The index of the tab shown.
    pub fn active_idx(&self) -> (r: usize)
        ensures
            r == self.active(),
    {
        self.active_idx
    }
}

} // verus!
