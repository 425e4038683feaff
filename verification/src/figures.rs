//! Numbers as text.

use crate::domain::score::Score;
use crate::double::{
    from_whole, lemma_two_40, lemma_two_mono, quotient, ratio, two, whole, Double, LEAST, MOST,
};
use crate::natural::Natural;
use crate::shortest::doubled;
use crate::text::{dec, dec_padded, decimal, decimal_padded, decimal_wide};
use vstd::prelude::*;

verus! {

/// A number of hundredths, with two digits behind the point.
pub open spec fn two_places(h: nat) -> Seq<char> {
    dec(h / 100) + "."@ + dec_padded(h % 100, 2)
}

pub fn two_places_text(h: u128) -> (r: String)
    ensures
        r@ == two_places(h as nat),
{
    let mut out = decimal_wide(h / 100);
    out.append(".");
    out.append(decimal_padded((h % 100) as u64, 2).as_str());
    out
}

/// A number of hundredths, with no more digits than it needs.
pub open spec fn short_places(h: nat) -> Seq<char> {
    if h % 100 == 0 {
        dec(h / 100)
    } else if h % 10 == 0 {
        dec(h / 100) + "."@ + dec(h / 10 % 10)
    } else {
        two_places(h)
    }
}

pub fn short_places_text(h: u128) -> (r: String)
    ensures
        r@ == short_places(h as nat),
{
    if h % 100 == 0 {
        decimal_wide(h / 100)
    } else if h % 10 == 0 {
        let mut out = decimal_wide(h / 100);
        out.append(".");
        out.append(decimal((h / 10 % 10) as u64).as_str());
        out
    } else {
        two_places_text(h)
    }
}

/// The part `a / b`, with two digits behind the point.
pub open spec fn ratio_text(a: nat, b: nat) -> Seq<char> {
    two_places(ratio(a, b).hundredths())
}

pub fn ratio_string(a: u64, b: u64) -> (r: String)
    requires
        0 < b,
        a <= b,
    ensures
        r@ == ratio_text(a as nat, b as nat),
{
    let q = quotient(a as u128, b as u128);
    two_places_text(q.to_hundredths())
}

/// A score as a binary fraction, without its sign.
pub open spec fn as_double(s: Score) -> Double {
    s.number().size
}

/// A score as a binary fraction, without its sign.
pub fn double_of(s: Score) -> (r: Double)
    ensures
        r == as_double(s),
        r.within(1075),
        r.m < MOST,
        r.e <= 973,
{
    s.to_number().size
}

/// A number with the sign of a score before it.
pub open spec fn signed_as(s: Score, body: Seq<char>) -> Seq<char> {
    if s.0 < 0 {
        "-"@ + body
    } else {
        body
    }
}

fn with_sign(s: Score, body: String) -> (r: String)
    ensures
        r@ == signed_as(s, body@),
{
    if s.0 < 0 {
        let mut out = "-".to_owned();
        out.append(body.as_str());
        out
    } else {
        body
    }
}

/// The digits of a number that has none behind the point.
fn whole_digits(d: Double) -> (r: String)
    requires
        d.e >= 0,
    ensures
        r@ == dec((d.m * two(d.e as nat)) as nat),
{
    doubled(Natural::of(d.m), d.e as u32).to_decimal()
}

/// A score with two digits behind the point.
pub open spec fn score_text(s: Score) -> Seq<char> {
    signed_as(s, two_places(as_double(s).hundredths()))
}

pub fn score_string(s: Score) -> (r: String)
    ensures
        r@ == score_text(s),
{
    let d = double_of(s);
    let body = if d.e <= 40 {
        two_places_text(d.to_hundredths())
    } else {
        let mut out = whole_digits(d);
        out.append(".");
        out.append(decimal_padded(0, 2).as_str());
        proof {
            let n = (d.m * two(d.e as nat)) as int;
            let m = d.m as int;
            let t = two(d.e as nat) as int;
            assert(100 * m * t == 100 * (m * t)) by (nonlinear_arith);
            assert(d.hundredths() == 100 * n);
            assert((100 * n) / 100 == n && (100 * n) % 100 == 0);
        }
        out
    };
    with_sign(s, body)
}

/// A score with all of its digits.
pub open spec fn full_text(s: Score) -> Seq<char> {
    signed_as(s, as_double(s).short_text())
}

pub fn full_string(s: Score) -> (r: String)
    ensures
        r@ == full_text(s),
{
    with_sign(s, double_of(s).to_text())
}

/// A score in percent, with no digit behind the point.
pub open spec fn percent_text(s: Score) -> Seq<char> {
    signed_as(s, dec(as_double(s).times(whole(100)).ones()))
}

pub fn percent_string(s: Score) -> (r: String)
    ensures
        r@ == percent_text(s),
{
    let hundred = from_whole(100);
    let d = double_of(s);
    let p = d.multiplied(hundred);
    proof {
        assert(hundred.within(74) && d.within(1075));
    }
    let body = if p.e >= 0 {
        whole_digits(p)
    } else {
        decimal_wide(p.to_ones())
    };
    with_sign(s, body)
}

/// A score in percent, to the nearest whole number. It is no less than zero, and
/// no more than 64 bits hold.
pub open spec fn percent(s: Score) -> nat {
    let n = as_double(s).times(whole(100)).rounded();
    if s.0 < 0 {
        0
    } else if n > u64::MAX {
        u64::MAX as nat
    } else {
        n
    }
}

pub fn percent_of(s: Score) -> (r: u64)
    ensures
        r == percent(s),
{
    if s.0 < 0 {
        return 0;
    }
    let hundred = from_whole(100);
    let d = double_of(s);
    let p = d.multiplied(hundred);
    proof {
        assert(hundred.within(74) && d.within(1075));
    }
    if p.e > 40 {
        proof {
            lemma_two_mono(40, p.e as nat);
            lemma_two_40();
            let m = p.m as int;
            let t = two(p.e as nat) as int;
            assert(m * t > u64::MAX) by (nonlinear_arith)
                requires
                    m >= LEAST,
                    t >= 1099511627776,
            ;
        }
        return u64::MAX;
    }
    let n: u128 = p.to_rounded();
    if n > u64::MAX as u128 {
        u64::MAX
    } else {
        n as u64
    }
}

} // verus!
