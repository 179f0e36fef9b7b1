//! Color escape sequences.
use vstd::prelude::*;

use crate::utils::term::csi;

verus! {

/// Foreground color `code` of the 256-color palette: ESC `[38;5;` code `m`.
pub open spec fn fg_seq(code: Seq<char>) -> Seq<char> {
    csi(seq!['3', '8', ';', '5', ';'] + code + seq!['m'])
}

/// Background color `code` of the 256-color palette: ESC `[48;5;` code `m`.
pub open spec fn bg_seq(code: Seq<char>) -> Seq<char> {
    csi(seq!['4', '8', ';', '5', ';'] + code + seq!['m'])
}

/// The default foreground color: ESC `[39m`.
pub open spec fn reset_fg_seq() -> Seq<char> {
    csi(seq!['3', '9', 'm'])
}

/// The default background color: ESC `[49m`.
pub open spec fn reset_bg_seq() -> Seq<char> {
    csi(seq!['4', '9', 'm'])
}

/// `termion::color::Reset.fg_str()`, the sequence ESC `[39m`.
#[verifier::external_body]
fn reset_fg_str() -> (r: &'static str)
    ensures
        r@ == reset_fg_seq(),
{
    termion::color::Reset.fg_str()
}

/// `termion::color::Reset.bg_str()`, the sequence ESC `[49m`.
#[verifier::external_body]
fn reset_bg_str() -> (r: &'static str)
    ensures
        r@ == reset_bg_seq(),
{
    termion::color::Reset.bg_str()
}

/// `termion::color::Black.fg_str()`, palette color 0.
#[verifier::external_body]
fn black_fg_str() -> (r: &'static str)
    ensures
        r@ == fg_seq(seq!['0']),
{
    termion::color::Black.fg_str()
}

/// `termion::color::Red.fg_str()`, palette color 1.
#[verifier::external_body]
fn red_fg_str() -> (r: &'static str)
    ensures
        r@ == fg_seq(seq!['1']),
{
    termion::color::Red.fg_str()
}

/// `termion::color::Cyan.fg_str()`, palette color 6.
#[verifier::external_body]
fn cyan_fg_str() -> (r: &'static str)
    ensures
        r@ == fg_seq(seq!['6']),
{
    termion::color::Cyan.fg_str()
}

/// `termion::color::Red.bg_str()`, palette color 1.
#[verifier::external_body]
fn red_bg_str() -> (r: &'static str)
    ensures
        r@ == bg_seq(seq!['1']),
{
    termion::color::Red.bg_str()
}

/// An escape sequence that sets a color, or nothing.
pub struct ColorEscape(&'static str);

impl ColorEscape {
    /// The sequence.
    pub closed spec fn seq(&self) -> Seq<char> {
        self.0@
    }

    /// No sequence at all.
    pub fn empty() -> (r: ColorEscape)
        ensures
            r.seq() == Seq::<char>::empty(),
    {
        proof {
            reveal_strlit("");
        }
        ColorEscape("")
    }

    /// The sequence as text.
    pub fn inner(&self) -> (r: &'static str)
        ensures
            r@ == self.seq(),
    {
        self.0
    }

    /// The default foreground color.
    pub fn reset() -> (r: ColorEscape)
        ensures
            r.seq() == reset_fg_seq(),
    {
        ColorEscape(reset_fg_str())
    }

    /// Black text.
    pub fn black() -> (r: ColorEscape)
        ensures
            r.seq() == fg_seq(seq!['0']),
    {
        ColorEscape(black_fg_str())
    }

    /// Red text.
    pub fn red() -> (r: ColorEscape)
        ensures
            r.seq() == fg_seq(seq!['1']),
    {
        ColorEscape(red_fg_str())
    }

    /// Cyan text.
    pub fn cyan() -> (r: ColorEscape)
        ensures
            r.seq() == fg_seq(seq!['6']),
    {
        ColorEscape(cyan_fg_str())
    }

    /// The default background color.
    pub fn reset_bg() -> (r: ColorEscape)
        ensures
            r.seq() == reset_bg_seq(),
    {
        ColorEscape(reset_bg_str())
    }

    /// A red background.
    pub fn red_bg() -> (r: ColorEscape)
        ensures
            r.seq() == bg_seq(seq!['1']),
    {
        ColorEscape(red_bg_str())
    }
}

} // verus!
