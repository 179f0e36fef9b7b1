//! Horizontal alignment: the column offset of each line.
use vstd::prelude::*;

use crate::utils::term::{cursor_down, cursor_left, csi, decimal};
use crate::utils::{
    count_without_styling, is_measurable, spec_count_without_styling, styling_closed, write_str,
};

verus! {

/// The views of a slice of strings.
pub open spec fn lines_view(lines: Seq<&str>) -> Seq<Seq<char>> {
    lines.map_values(|l: &str| l@)
}

/// A line can be measured: its escape sequences are closed and its width fits a `usize`.
pub open spec fn measurable(l: Seq<char>) -> bool {
    styling_closed(l) && spec_count_without_styling(l) <= usize::MAX
}

/// All lines can be measured.
pub open spec fn all_measurable(lines: Seq<Seq<char>>) -> bool {
    forall|i: int| 0 <= i < lines.len() ==> measurable(#[trigger] lines[i])
}

/// The width `count_without_styling` reports for a line.
pub open spec fn styled_width(l: Seq<char>) -> u16 {
    (spec_count_without_styling(l) % 0x10000) as u16
}

/// `a - b`, or 0 where `b` is larger.
pub open spec fn sat_sub(a: u16, b: u16) -> u16 {
    if a >= b {
        (a - b) as u16
    } else {
        0
    }
}

/// The column offset of lines: one for all, or one for each line.
pub enum Alignment {
    Single(u16),
    Each(Vec<u16>),
}

/// The plain-value form of an `Alignment`.
pub enum AlignmentView {
    Single(u16),
    Each(Seq<u16>),
}

impl View for Alignment {
    type V = AlignmentView;

    open spec fn view(&self) -> AlignmentView {
        match self {
            Alignment::Single(x) => AlignmentView::Single(*x),
            Alignment::Each(v) => AlignmentView::Each(v@),
        }
    }
}

/// A horizontal alignment.
pub trait Align {
    /// The lines that this alignment can place.
    spec fn accepts(lines: Seq<Seq<char>>) -> bool;

    /// The offsets of `lines` in a box `width` columns wide.
    spec fn offset(lines: Seq<Seq<char>>, width: u16) -> AlignmentView;

    fn align_offset(lines: &[&str], width: u16) -> (r: Alignment)
        requires
            Self::accepts(lines_view(lines@)),
        ensures
            r@ == Self::offset(lines_view(lines@), width),
    ;

    /// Whether the alignment can place `lines`.
    fn accepts_lines(lines: &[&str]) -> (r: bool)
        ensures
            r == Self::accepts(lines_view(lines@)),
    ;
}

/// Whether every line can be measured, as `all_measurable` says.
pub fn lines_measurable(lines: &[&str]) -> (r: bool)
    ensures
        r == all_measurable(lines_view(lines@)),
{
    let ghost ls = lines_view(lines@);
    let mut i: usize = 0;
    while i < lines.len()
        invariant
            ls == lines_view(lines@),
            i <= lines@.len(),
            forall|j: int| 0 <= j < i ==> measurable(#[trigger] ls[j]),
        decreases lines.len() - i,
    {
        if !is_measurable(lines[i]) {
            assert(!measurable(ls[i as int]));
            return false;
        }
        i = i + 1;
    }
    true
}

/// Flush left.
pub struct Left {}

impl Align for Left {
    open spec fn accepts(lines: Seq<Seq<char>>) -> bool {
        true
    }

    open spec fn offset(lines: Seq<Seq<char>>, width: u16) -> AlignmentView {
        AlignmentView::Single(0)
    }

    fn align_offset(lines: &[&str], width: u16) -> (r: Alignment)
        ensures
            r == Alignment::Single(0),
    {
        Alignment::Single(0)
    }

    fn accepts_lines(lines: &[&str]) -> (r: bool) {
        true
    }
}

/// The bytes that `Left::align` writes for `lines`: each line, then a move back to its start
/// column and one row down.
pub open spec fn left_aligned(lines: Seq<Seq<char>>) -> Seq<u8>
    decreases lines.len(),
{
    if lines.len() == 0 {
        Seq::empty()
    } else {
        left_aligned(lines.drop_last()) + vstd::utf8::encode_utf8(
            lines.last() + csi(decimal(styled_width(lines.last()) as nat).push('D')) + csi(
                seq!['1', 'B'],
            ),
        )
    }
}

impl Left {
    /// Writes the lines one below the other, each starting in the column where the first one
    /// starts.
    pub fn align(target: &mut Vec<u8>, lines: &[&str])
        requires
            all_measurable(lines_view(lines@)),
        ensures
            final(target)@ == old(target)@ + left_aligned(lines_view(lines@)),
    {
        let ghost ls = lines_view(lines@);
        let mut i: usize = 0;
        while i < lines.len()
            invariant
                ls == lines_view(lines@),
                all_measurable(ls),
                i <= lines@.len(),
                target@ == old(target)@ + left_aligned(ls.take(i as int)),
            decreases lines.len() - i,
        {
            let l = lines[i];
            assert(measurable(ls[i as int]));
            let n = count_without_styling(l);
            let mut s = String::new();
            s.append(l);
            s.append(cursor_left(n).as_str());
            s.append(cursor_down(1).as_str());
            write_str(target, s.as_str());
            proof {
                assert(ls.take(i + 1).drop_last() =~= ls.take(i as int));
                assert(ls.take(i + 1).last() == ls[i as int]);
                assert(seq!['1', 'B'] =~= decimal(1).push('B'));
            }
            i = i + 1;
        }
        proof {
            assert(ls.take(i as int) =~= ls);
        }
    }
}

/// Against the right edge; aligns a single line.
pub struct Right {}

impl Align for Right {
    open spec fn accepts(lines: Seq<Seq<char>>) -> bool {
        lines.len() == 1 && measurable(lines[0])
    }

    open spec fn offset(lines: Seq<Seq<char>>, width: u16) -> AlignmentView {
        AlignmentView::Single(sat_sub(width, styled_width(lines[0])))
    }

    fn align_offset(lines: &[&str], width: u16) -> (r: Alignment)
        ensures
            r == Alignment::Single(sat_sub(width, styled_width(lines@[0]@))),
    {
        assert(measurable(lines_view(lines@)[0]));
        Alignment::Single(width.saturating_sub(count_without_styling(lines[0])))
    }

    fn accepts_lines(lines: &[&str]) -> (r: bool) {
        lines.len() == 1 && is_measurable(lines[0])
    }
}

/// Each line centered on its own.
pub struct Center {}

impl Align for Center {
    open spec fn accepts(lines: Seq<Seq<char>>) -> bool {
        all_measurable(lines)
    }

    open spec fn offset(lines: Seq<Seq<char>>, width: u16) -> AlignmentView {
        AlignmentView::Each(
            Seq::new(lines.len(), |i: int| sat_sub(width / 2, styled_width(lines[i]) / 2)),
        )
    }

    fn align_offset(lines: &[&str], width: u16) -> (r: Alignment)
        ensures
            r matches Alignment::Each(v) && v@.len() == lines@.len() && forall|i: int|
                0 <= i < lines@.len() ==> #[trigger] v@[i] == sat_sub(
                    width / 2,
                    styled_width(lines@[i]@) / 2,
                ),
    {
        let ghost ls = lines_view(lines@);
        let mut algns: Vec<u16> = Vec::new();
        let mut i: usize = 0;
        while i < lines.len()
            invariant
                ls == lines_view(lines@),
                all_measurable(ls),
                i <= lines@.len(),
                algns@.len() == i,
                forall|j: int|
                    0 <= j < i ==> #[trigger] algns@[j] == sat_sub(
                        width / 2,
                        styled_width(lines@[j]@) / 2,
                    ),
            decreases lines.len() - i,
        {
            assert(measurable(ls[i as int]));
            let w = count_without_styling(lines[i]);
            algns.push((width / 2).saturating_sub(w / 2));
            i = i + 1;
        }
        proof {
            assert(algns@ =~= Seq::new(
                ls.len(),
                |i: int| sat_sub(width / 2, styled_width(ls[i]) / 2),
            ));
        }
        Alignment::Each(algns)
    }

    fn accepts_lines(lines: &[&str]) -> (r: bool) {
        lines_measurable(lines)
    }
}

/// All lines flush left, the block centered by its longest line.
pub struct CenterLongestLeft {}

/// The widest of the lines.
pub open spec fn max_width(lines: Seq<Seq<char>>) -> u16
    decreases lines.len(),
{
    if lines.len() == 0 {
        0
    } else {
        let rest = max_width(lines.drop_last());
        let w = styled_width(lines.last());
        if w > rest {
            w
        } else {
            rest
        }
    }
}

impl Align for CenterLongestLeft {
    open spec fn accepts(lines: Seq<Seq<char>>) -> bool {
        lines.len() > 0 && all_measurable(lines)
    }

    open spec fn offset(lines: Seq<Seq<char>>, width: u16) -> AlignmentView {
        AlignmentView::Single(sat_sub(width / 2, max_width(lines) / 2))
    }

    fn align_offset(lines: &[&str], width: u16) -> (r: Alignment)
        ensures
            r == Alignment::Single(sat_sub(width / 2, max_width(lines_view(lines@)) / 2)),
    {
        let ghost ls = lines_view(lines@);
        let mut max_len: u16 = 0;
        let mut i: usize = 0;
        while i < lines.len()
            invariant
                ls == lines_view(lines@),
                all_measurable(ls),
                i <= lines@.len(),
                max_len == max_width(ls.take(i as int)),
            decreases lines.len() - i,
        {
            assert(measurable(ls[i as int]));
            let w = count_without_styling(lines[i]);
            proof {
                assert(ls.take(i + 1).drop_last() =~= ls.take(i as int));
            }
            if w > max_len {
                max_len = w;
            }
            i = i + 1;
        }
        proof {
            assert(ls.take(i as int) =~= ls);
        }
        Alignment::Single((width / 2).saturating_sub(max_len / 2))
    }

    fn accepts_lines(lines: &[&str]) -> (r: bool) {
        lines.len() > 0 && lines_measurable(lines)
    }
}

} // verus!
