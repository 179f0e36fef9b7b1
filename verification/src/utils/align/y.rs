//! Vertical alignment: the row offset of a block of lines.
use vstd::prelude::*;

verus! {

/// A vertical alignment; unlike the horizontal one, the offset is the same for every line.
pub trait Align {
    /// The row offset of `n_lines` lines in a box `height` rows high.
    spec fn offset(n_lines: nat, height: u16) -> u16;

    fn align_offset(lines: &[&str], height: u16) -> (r: u16)
        ensures
            r == Self::offset(lines@.len(), height),
    ;
}

/// At the top.
pub struct Top {}

impl Align for Top {
    open spec fn offset(n_lines: nat, height: u16) -> u16 {
        0
    }

    fn align_offset(lines: &[&str], height: u16) -> (r: u16)
        ensures
            r == 0,
    {
        0
    }
}

/// Around the middle: half the height less half the number of lines (truncated to 16 bits).
pub struct Center {}

impl Center {
    pub open spec fn spec_offset(n_lines: nat, height: u16) -> u16 {
        let half = (n_lines % 0x10000) / 2;
        if height / 2 >= half {
            (height / 2 - half) as u16
        } else {
            0
        }
    }
}

impl Align for Center {
    open spec fn offset(n_lines: nat, height: u16) -> u16 {
        Center::spec_offset(n_lines, height)
    }

    fn align_offset(lines: &[&str], height: u16) -> (r: u16)
        ensures
            r == Center::spec_offset(lines@.len(), height),
    {
        let l = lines.len();
        let n = l as u16;
        assert(n == l % 0x10000) by (bit_vector)
            requires
                n == l as u16,
        ;
        (height / 2).saturating_sub(n / 2)
    }
}

} // verus!
