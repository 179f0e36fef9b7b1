//! Human-readable renderings of elapsed times.
use vstd::prelude::*;
use vstd::string::*;
use crate::utils::term::decimal;
use crate::utils::decimal_string;

verus! {

/// One field of a clock reading `hh:mm:ss`, written as `{:02}` writes `v`, or `-v` where
/// `negative` holds.
pub open spec fn clock_field(v: nat, negative: bool) -> Seq<char> {
    if negative && v > 0 {
        seq!['-'] + decimal(v)
    } else if v < 10 {
        seq!['0'] + decimal(v)
    } else {
        decimal(v)
    }
}

/// The text for a span of `secs` seconds: whole weeks (`3w`), then the remaining whole days
/// (`2d `), then the remaining hours, minutes and seconds as `hh:mm:ss`. Weeks and days are
/// written only when there is at least one of them; a week count is followed by a space only
/// where no day count comes after it. A negative span (a date in the future) is truncated
/// toward zero in each unit, so it has no weeks or days and its clock fields carry a sign.
pub open spec fn elapsed_text(secs: int) -> Seq<char> {
    let negative = secs < 0;
    let a: nat = (if negative { -secs } else { secs }) as nat;
    let w: nat = a / 604800;
    let d: nat = (a / 86400) % 7;
    let weeks = if !negative && w > 0 {
        decimal(w) + (if d > 0 { seq!['w'] } else { seq!['w', ' '] })
    } else {
        Seq::empty()
    };
    let days = if !negative && d > 0 {
        decimal(d) + seq!['d', ' ']
    } else {
        Seq::empty()
    };
    weeks + days + clock_field((a / 3600) % 24, negative) + seq![':'] + clock_field(
        (a / 60) % 60,
        negative,
    ) + seq![':'] + clock_field(a % 60, negative)
}

/// Appends the decimal digits of `n`.
fn push_decimal(s: &mut String, n: u64)
    ensures
        final(s)@ == old(s)@ + decimal(n as nat),
{
    let digits = decimal_string(n);
    s.append(digits.as_str());
}

/// Appends one clock field.
fn push_clock_field(s: &mut String, v: u64, negative: bool)
    requires
        v < 100,
    ensures
        final(s)@ == old(s)@ + clock_field(v as nat, negative),
{
    let ghost start = s@;
    if negative && v > 0 {
        s.append("-");
        proof {
            reveal_strlit("-");
        }
    } else if v < 10 {
        s.append("0");
        proof {
            reveal_strlit("0");
        }
    }
    push_decimal(s, v);
    proof {
        if negative && v > 0 {
            assert(s@ =~= start + (seq!['-'] + decimal(v as nat)));
        } else if v < 10 {
            assert(s@ =~= start + (seq!['0'] + decimal(v as nat)));
        }
    }
}

/// Renders a span of `secs` seconds as `elapsed_text` says.
pub fn format_elapsed(secs: i64) -> (r: String)
    ensures
        r@ == elapsed_text(secs as int),
{
    let negative = secs < 0;
    let a: u64 = if negative {
        ((-(secs + 1)) as u64) + 1
    } else {
        secs as u64
    };
    assert(a as int == (if negative { -secs } else { secs as int }));
    let w: u64 = a / 604800;
    let d: u64 = (a / 86400) % 7;
    let mut r = String::new();
    if !negative && w > 0 {
        push_decimal(&mut r, w);
        if d > 0 {
            r.append("w");
            proof {
                reveal_strlit("w");
            }
        } else {
            r.append("w ");
            proof {
                reveal_strlit("w ");
            }
        }
    }
    let ghost after_weeks = r@;
    if !negative && d > 0 {
        push_decimal(&mut r, d);
        r.append("d ");
        proof {
            reveal_strlit("d ");
        }
    }
    let ghost after_days = r@;
    push_clock_field(&mut r, (a / 3600) % 24, negative);
    r.append(":");
    push_clock_field(&mut r, (a / 60) % 60, negative);
    r.append(":");
    push_clock_field(&mut r, a % 60, negative);
    proof {
        reveal_strlit(":");
        let ng = negative;
        let an: nat = a as nat;
        let weeks = if !ng && w > 0 {
            decimal(w as nat) + (if d > 0 { seq!['w'] } else { seq!['w', ' '] })
        } else {
            Seq::<char>::empty()
        };
        let days = if !ng && d > 0 {
            decimal(d as nat) + seq!['d', ' ']
        } else {
            Seq::<char>::empty()
        };
        assert(after_weeks =~= weeks);
        assert(after_days =~= weeks + days);
        assert(r@ =~= elapsed_text(secs as int));
    }
    r
}

/// The weeks, days, hours, minutes and seconds that `elapsed_text` shows of a span of `secs`
/// seconds, its sign aside, add up to the span.
pub proof fn lemma_elapsed_parts(secs: int)
    ensures
        ({
            let a = if secs < 0 { -secs } else { secs };
            604800 * (a / 604800) + 86400 * ((a / 86400) % 7) + 3600 * ((a / 3600) % 24) + 60 * ((
            a / 60) % 60) + a % 60 == a
        }),
{
    let a = if secs < 0 { -secs } else { secs };
    vstd::arithmetic::div_mod::lemma_fundamental_div_mod(a, 60);
    vstd::arithmetic::div_mod::lemma_fundamental_div_mod(a / 60, 60);
    vstd::arithmetic::div_mod::lemma_fundamental_div_mod(a / 3600, 24);
    vstd::arithmetic::div_mod::lemma_fundamental_div_mod(a / 86400, 7);
    vstd::arithmetic::div_mod::lemma_div_denominator(a, 60, 60);
    vstd::arithmetic::div_mod::lemma_div_denominator(a, 3600, 24);
    vstd::arithmetic::div_mod::lemma_div_denominator(a, 86400, 7);
    let q1 = a / 60;
    let q2 = a / 3600;
    let q3 = a / 86400;
    let q4 = a / 604800;
    assert(a == 60 * q1 + a % 60);
    assert(q1 == 60 * q2 + q1 % 60);
    assert(q2 == 24 * q3 + q2 % 24);
    assert(q3 == 7 * q4 + q3 % 7);
    assert(604800 * q4 + 86400 * (q3 % 7) + 3600 * (q2 % 24) + 60 * (q1 % 60) + a % 60 == a)
        by (nonlinear_arith)
        requires
            a == 60 * q1 + a % 60,
            q1 == 60 * q2 + q1 % 60,
            q2 == 24 * q3 + q2 % 24,
            q3 == 7 * q4 + q3 % 7,
    ;
}

} // verus!
