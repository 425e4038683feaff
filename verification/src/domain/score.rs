//! Scores such as a memory's confidence: binary fractions of 53 bits.
//!
//! A score is held as one whole number, its code. Codes are ordered as the
//! numbers that they stand for, so that scores are compared by them. The code of
//! a number that is not negative has the bits of the number in the usual double
//! format; that of a negative number is the negative of its size's.

use crate::double::{
    lemma_below_asymmetric, lemma_lift_mono, lemma_lifted, lemma_nearest_bound, lemma_nearest_mono,
    lemma_norm_exact, lemma_over_bound, lemma_over_mono, lemma_over_span, lemma_two_add,
    lemma_two_mono, lemma_two_pos, lift, nearest, norm, over, two, Double, LEAST, MOST,
};
use crate::signed::Signed;
use vstd::prelude::*;

verus! {

/// A score, by its code. Valid scores lie between zero and one; a record that
/// was brought in from elsewhere can hold another.
#[derive(Debug, Clone, Copy, PartialEq, Eq, Hash, PartialOrd, Ord, Structural)]
pub struct Score(pub i64);

/// The code of one.
pub const UNIT: i64 = 4_607_182_418_800_017_408;

/// What reading a memory, or calling it useful, adds to its confidence: 0.015.
pub const ACCESS_STEP: i64 = 4_579_800_533_065_604_792;

/// What loading a memory into a session adds to its confidence, and what
/// calling it useless takes away: 0.02.
pub const BOOST_STEP: i64 = 4_581_421_828_931_458_171;

/// What a new session takes from the confidence of every attempt: 0.002.
pub const DECAY_STEP: i64 = 4_566_758_108_544_739_836;

/// The size of a number by its code. Zero has the code zero.
pub open spec fn decoded(n: nat) -> Double {
    if n == 0 {
        Double { m: 0, e: 0 }
    } else {
        Double { m: (LEAST + n % (LEAST as nat)) as u64, e: (n / LEAST as nat - 1075) as i32 }
    }
}

/// The code of a size. What is too small for a code counts as zero, and what is
/// too large has the greatest.
pub open spec fn coded(d: Double) -> int {
    let n = (d.e + 1075) * LEAST + (d.m - LEAST);
    if d.m == 0 || d.e < -1075 {
        0
    } else if n > i64::MAX {
        i64::MAX as int
    } else {
        n
    }
}

/// The code of a number.
pub open spec fn coded_signed(x: Signed) -> Score {
    Score(
        if x.negative {
            -coded(x.size)
        } else {
            coded(x.size)
        } as i64,
    )
}

pub fn code(d: Double) -> (r: i64)
    requires
        d.within(90_000),
    ensures
        r == coded(d),
        r >= 0,
{
    if d.m == 0 || d.e < -1075 {
        return 0;
    }
    proof {
        let x = d.e + 1075;
        assert(0 <= x * LEAST <= 91_075 * LEAST) by (nonlinear_arith)
            requires
                0 <= x <= 91_075,
        ;
    }
    let n: i128 = (d.e as i128 + 1075) * LEAST as i128 + (d.m as i128 - LEAST as i128);
    if n > i64::MAX as i128 {
        i64::MAX
    } else {
        n as i64
    }
}

impl Score {
    /// Whether the score lies between zero and one.
    pub open spec fn valid(self) -> bool {
        0 <= self.0 <= UNIT
    }

    /// How far the code is from that of zero.
    pub open spec fn distance(self) -> nat {
        if self.0 < 0 {
            (-self.0) as nat
        } else {
            self.0 as nat
        }
    }

    /// The number.
    pub open spec fn number(self) -> Signed {
        Signed { negative: self.0 < 0, size: decoded(self.distance()) }
    }

    /// The score after adding `step`, but no more than one.
    pub open spec fn up(self, step: Score) -> Score {
        let sum = coded_signed(self.number().plus(step.number()));
        if sum.0 < UNIT {
            sum
        } else {
            Score(UNIT)
        }
    }

    /// The score after taking `step` away, but no less than zero.
    pub open spec fn down(self, step: Score) -> Score {
        let rest = coded_signed(self.number().plus(step.number().negated()));
        if rest.0 > 0 {
            rest
        } else {
            Score(0)
        }
    }

    pub fn is_valid(&self) -> (r: bool)
        ensures
            r == self.valid(),
    {
        0 <= self.0 && self.0 <= UNIT
    }

    /// The number.
    pub fn to_number(&self) -> (r: Signed)
        ensures
            r == self.number(),
            r.size.within(1075),
            r.size.m < MOST,
            r.size.e <= 973,
    {
        let n: u64 = if self.0 < 0 {
            (-(self.0 as i128)) as u64
        } else {
            self.0 as u64
        };
        let size = if n == 0 {
            Double { m: 0, e: 0 }
        } else {
            Double { m: LEAST + n % LEAST, e: (n / LEAST) as i32 - 1075 }
        };
        Signed { negative: self.0 < 0, size }
    }

    /// The score nearest to a number.
    pub fn from_number(x: Signed) -> (r: Self)
        requires
            x.size.within(90_000),
        ensures
            r == coded_signed(x),
    {
        let n: i64 = code(x.size);
        Score(
            if x.negative {
                -n
            } else {
                n
            },
        )
    }

    pub fn raised(&self, step: Score) -> (r: Self)
        ensures
            r == self.up(step),
    {
        let sum = Score::from_number(self.to_number().added(step.to_number(), Ghost(1075)));
        if sum.0 < UNIT {
            sum
        } else {
            Score(UNIT)
        }
    }

    pub fn lowered(&self, step: Score) -> (r: Self)
        ensures
            r == self.down(step),
    {
        let s = step.to_number();
        let less = Signed { negative: !s.negative, size: s.size };
        let rest = Score::from_number(self.to_number().added(less, Ghost(1075)));
        if rest.0 > 0 {
            rest
        } else {
            Score(0)
        }
    }
}

/// A code is read back from the size that it stands for.
pub proof fn lemma_decoded(n: nat)
    requires
        n <= i64::MAX,
    ensures
        coded(decoded(n)) == n,
        decoded(n).m < MOST,
        decoded(n).m > 0 ==> LEAST <= decoded(n).m,
        n == 0 <==> decoded(n).m == 0,
        -1075 <= decoded(n).e <= 972,
{
    if n > 0 {
        let q = n / LEAST as nat;
        assert(q <= 2047);
        assert(n == q * LEAST + n % (LEAST as nat));
    }
}

/// Sizes are ordered as their codes: by the exponent, and then by the bits.
proof fn lemma_coded_mono(a: Double, b: Double)
    requires
        a.m == 0 || LEAST <= a.m <= MOST,
        LEAST <= b.m <= MOST,
        a.m == 0 || a.e < b.e || (a.e == b.e && a.m <= b.m),
    ensures
        0 <= coded(a) <= coded(b),
{
    if a.m > 0 {
        let x = a.e + 1075;
        let y = b.e + 1075;
        if a.e < b.e {
            assert(x * LEAST + LEAST <= y * LEAST) by (nonlinear_arith)
                requires
                    x + 1 <= y,
            ;
        }
    }
    if b.e >= -1075 {
        let y = b.e + 1075;
        assert(y * LEAST >= 0) by (nonlinear_arith)
            requires
                y >= 0,
        ;
    }
    if a.m > 0 && a.e >= -1075 {
        let x = a.e + 1075;
        assert(x * LEAST >= 0) by (nonlinear_arith)
            requires
                x >= 0,
        ;
    }
}

/// Rounding keeps the order.
proof fn lemma_norm_order(a: nat, b: nat, e: int)
    requires
        a <= b,
        b < MOST * two(80),
        -50_000 <= e <= 50_000,
    ensures
        0 <= coded(norm(a, e)) <= coded(norm(b, e)),
{
    if b > 0 {
        lemma_norm_form(b, e);
    }
    if a > 0 {
        lemma_norm_form(a, e);
        if b < MOST {
            lemma_lifted(a);
            lemma_lifted(b);
            lemma_lift_mono(a, b);
            if lift(a, 1) == lift(b, 1) {
                let t = two(lift(a, 1)) as int;
                assert(a * t <= b * t) by (nonlinear_arith)
                    requires
                        a <= b,
                        t >= 0,
                ;
            }
        } else if a >= MOST {
            lemma_over_mono(a, b);
            if over(a) == over(b) {
                lemma_two_pos(over(a));
                lemma_nearest_mono(a, b, two(over(a)));
            }
        } else {
            lemma_lifted(a);
        }
        lemma_coded_mono(norm(a, e), norm(b, e));
    } else if b > 0 {
        lemma_coded_mono(norm(a, e), norm(b, e));
    }
}

proof fn lemma_norm_form(n: nat, e: int)
    requires
        0 < n < MOST * two(80),
        -50_000 <= e <= 50_000,
    ensures
        LEAST <= norm(n, e).m <= MOST,
        n < MOST ==> norm(n, e).e == e - lift(n, 1) && norm(n, e).m == n * two(lift(n, 1)),
        n >= MOST ==> norm(n, e).e == e + over(n) && norm(n, e).m == nearest(n, two(over(n)))
            && over(n) >= 1,
{
    if n < MOST {
        lemma_lifted(n);
    } else {
        lemma_over_span(n);
        lemma_over_bound(n, 80);
        lemma_two_pos(over(n));
        lemma_nearest_bound(n, two(over(n)), LEAST as nat, MOST as nat);
    }
}

/// A number is no less for something that is added to it.
proof fn lemma_plus_grows(a: Double, b: Double)
    requires
        a.m == 0 || LEAST <= a.m < MOST,
        b.m == 0 || LEAST <= b.m < MOST,
        -1200 <= a.e <= 1200,
        -1200 <= b.e <= 1200,
    ensures
        0 <= coded(a) <= coded(a.plus(b)),
{
    if a.m == 0 {
        lemma_plus_coded(b);
    } else if b.m == 0 {
        lemma_coded_mono(a, a);
    } else if a.e >= b.e {
        let d = (a.e - b.e) as nat;
        if d > 70 {
            lemma_coded_mono(a, a);
        } else {
            let x = (a.m * two(d)) as nat;
            lemma_wide(a.m, d, b.m);
            lemma_norm_order(x, x + b.m as nat, b.e as int);
            lemma_norm_exact(a.m, d, b.e as int);
            lemma_coded_mono(a, a);
        }
    } else {
        let d = (b.e - a.e) as nat;
        if d > 70 {
            lemma_coded_mono(a, b);
        } else {
            let x = (b.m * two(d)) as nat;
            lemma_wide(b.m, d, a.m);
            lemma_norm_order(a.m as nat, x + a.m as nat, a.e as int);
            lemma_norm_exact(a.m, 0, a.e as int);
            assert(two(0) == 1);
            assert(a.m * two(0) == a.m);
            lemma_coded_mono(a, a);
        }
    }
}

proof fn lemma_plus_coded(b: Double)
    requires
        b.m == 0 || LEAST <= b.m <= MOST,
    ensures
        coded(b) >= 0,
{
    if b.m > 0 {
        lemma_coded_mono(b, b);
    }
}

/// What is far below 2^133.
proof fn lemma_wide(m: u64, d: nat, o: u64)
    requires
        m <= MOST,
        o <= MOST,
        d <= 70,
    ensures
        m * two(d) + o < MOST * two(80),
{
    lemma_two_mono(d, 70);
    lemma_two_add(70, 10);
    lemma_two_pos(70);
    reveal_with_fuel(two, 11);
    assert(two(10) == 1024);
    let x = two(d) as int;
    let y = two(70) as int;
    let mm = m as int;
    assert(mm * x <= MOST * y) by (nonlinear_arith)
        requires
            0 <= mm <= MOST,
            0 <= x <= y,
    ;
    assert(MOST * (y * 1024) >= MOST * y + MOST + 1) by (nonlinear_arith)
        requires
            y >= 1,
    ;
}

/// A number is no more for something that is taken from it.
proof fn lemma_minus_shrinks(a: Double, b: Double)
    requires
        a.m == 0 || LEAST <= a.m < MOST,
        b.m == 0 || LEAST <= b.m < MOST,
        -1200 <= a.e <= 1200,
        -1200 <= b.e <= 1200,
        a.m == 0 ==> a.e == 0,
        b.m == 0 ==> b.e == 0,
        !a.below(b),
    ensures
        0 <= coded(a.minus(b)) <= coded(a),
{
    lemma_plus_coded(a);
    if b.m == 0 || a.e - b.e > 70 {
    } else if a.e >= b.e {
        let d = (a.e - b.e) as nat;
        let x = (a.m * two(d)) as nat;
        assert(x >= b.m) by {
            if d == 0 {
                assert(two(0) == 1);
            }
        }
        lemma_wide(a.m, d, 0);
        lemma_norm_order((x - b.m) as nat, x, b.e as int);
        lemma_norm_exact(a.m, d, b.e as int);
    } else {
        let d = (b.e - a.e) as nat;
        let x = (b.m * two(d)) as nat;
        lemma_wide(a.m, 0, 0);
        assert(two(0) == 1);
        assert(a.m * two(0) == a.m);
        lemma_norm_order((a.m - x) as nat, a.m as nat, a.e as int);
        lemma_norm_exact(a.m, 0, a.e as int);
    }
}

/// Raising and lowering keep a valid score valid, and move it the right way.
pub proof fn law_score_stays_valid(s: Score, step: Score)
    requires
        s.valid(),
        0 <= step.0,
    ensures
        s.up(step).valid(),
        s.down(step).valid(),
        s.down(step).0 <= s.0 <= s.up(step).0,
{
    let a = decoded(s.distance());
    let b = decoded(step.distance());
    lemma_decoded(s.distance());
    lemma_decoded(step.distance());
    lemma_plus_grows(a, b);
    assert(s.number().plus(step.number()).size == a.plus(b));
    if !a.below(b) {
        lemma_minus_shrinks(a, b);
    } else {
        let x = s.number().plus(step.number().negated());
        lemma_below_asymmetric(a, b);
        lemma_minus_shrinks(b, a);
        assert(x.negative && x.size == b.minus(a));
    }
    assert(0 <= coded(a.plus(b)) <= i64::MAX);
}

} // verus!
