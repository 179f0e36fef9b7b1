//! The terminal escape sequences that `termion` writes.
use vstd::prelude::*;

verus! {

/// A control sequence: ESC `[` followed by `body`.
pub open spec fn csi(body: Seq<char>) -> Seq<char> {
    seq!['\x1b', '['] + body
}

/// The decimal digits of `n`.
pub open spec fn decimal(n: nat) -> Seq<char>
    decreases n,
{
    if n < 10 {
        seq![digit(n)]
    } else {
        decimal(n / 10).push(digit(n % 10))
    }
}

/// The character of a decimal digit.
pub open spec fn digit(d: nat) -> char {
    if d == 0 { '0' } else if d == 1 { '1' } else if d == 2 { '2' } else if d == 3 { '3' }
    else if d == 4 { '4' } else if d == 5 { '5' } else if d == 6 { '6' } else if d == 7 { '7' }
    else if d == 8 { '8' } else { '9' }
}

/// Underlining on (`termion::style::Underline`).
pub open spec fn underline_seq() -> Seq<char> {
    csi(seq!['4', 'm'])
}

/// Underlining off (`termion::style::NoUnderline`).
pub open spec fn no_underline_seq() -> Seq<char> {
    csi(seq!['2', '4', 'm'])
}

/// Writes `termion::style::Underline`, the sequence ESC `[4m`.
#[verifier::external_body]
pub(crate) fn underline() -> (r: String)
    ensures
        r@ == underline_seq(),
{
    format!("{}", termion::style::Underline)
}

/// Writes `termion::style::Reset`, the sequence ESC `[m`, which resets all attributes.
#[verifier::external_body]
pub(crate) fn reset_style() -> (r: String)
    ensures
        r@ == csi(seq!['m']),
{
    format!("{}", termion::style::Reset)
}

/// Writes `termion::style::NoUnderline`, the sequence ESC `[24m`.
#[verifier::external_body]
pub(crate) fn no_underline() -> (r: String)
    ensures
        r@ == no_underline_seq(),
{
    format!("{}", termion::style::NoUnderline)
}

/// Moves the cursor `n` columns left: writes `termion::cursor::Left(n)`, the sequence
/// ESC `[` n `D`.
#[verifier::external_body]
pub(crate) fn cursor_left(n: u16) -> (r: String)
    ensures
        r@ == csi(decimal(n as nat).push('D')),
{
    format!("{}", termion::cursor::Left(n))
}

/// Moves the cursor `n` rows down: writes `termion::cursor::Down(n)`, the sequence
/// ESC `[` n `B`.
#[verifier::external_body]
pub(crate) fn cursor_down(n: u16) -> (r: String)
    ensures
        r@ == csi(decimal(n as nat).push('B')),
{
    format!("{}", termion::cursor::Down(n))
}

/// Moves the cursor to column `x`, row `y` (one-based): writes `termion::cursor::Goto(x, y)`,
/// the sequence ESC `[` y `;` x `H`.
#[verifier::external_body]
pub(crate) fn goto(x: u16, y: u16) -> (r: String)
    requires
        x != 0 || y != 0,
    ensures
        r@ == csi(decimal(y as nat).push(';') + decimal(x as nat).push('H')),
{
    format!("{}", termion::cursor::Goto(x, y))
}

} // verus!
