//! Binary fractions of 53 bits, as ratios and averages are computed in them.
//!
//! A number is a whole number of 53 bits times a power of two. Every operation
//! gives the number of that form that is nearest to the true result; of two
//! that are equally near it gives the even one. Only numbers that are not
//! negative are needed.

use vstd::arithmetic::div_mod::{lemma_div_denominator, lemma_fundamental_div_mod};
use vstd::prelude::*;

verus! {

/// The number `m` times two to the power of `e`.
#[derive(Debug, Clone, Copy, PartialEq, Eq, Structural)]
pub struct Double {
    pub m: u64,
    pub e: i32,
}

/// Two to the power of 52, and of 53.
pub const LEAST: u64 = 4503599627370496;

pub const MOST: u64 = 9007199254740992;

/// The widest whole number that is turned into a fraction: 2^66.
pub const WIDEST: u128 = 73786976294838206464;

/// Two to the power of `n`.
pub open spec fn two(n: nat) -> nat
    decreases n,
{
    if n == 0 {
        1
    } else {
        2 * two((n - 1) as nat)
    }
}

/// The whole number nearest to `n / d`; of two, the even one.
pub open spec fn nearest(n: nat, d: nat) -> nat {
    let q = n / d;
    let r = n % d;
    if 2 * r < d || (2 * r == d && q % 2 == 0) {
        q
    } else {
        q + 1
    }
}

/// How often `n` must be halved to come below 2^53.
pub open spec fn over(n: nat) -> nat
    decreases n,
{
    if n < MOST {
        0
    } else {
        1 + over(n / 2)
    }
}

/// How often `n` must be doubled to reach `2^52 * d`.
pub open spec fn lift(n: nat, d: nat) -> nat
    decreases 2 * (LEAST * d) - n,
{
    if n == 0 || n >= LEAST * d {
        0
    } else {
        1 + lift(2 * n, d)
    }
}

/// The number of 53 bits that is nearest to `n * 2^e`.
pub open spec fn norm(n: nat, e: int) -> Double {
    if n == 0 {
        Double { m: 0, e: 0 }
    } else if n < MOST {
        Double { m: (n * two(lift(n, 1))) as u64, e: (e - lift(n, 1)) as i32 }
    } else {
        Double { m: nearest(n, two(over(n))) as u64, e: (e + over(n)) as i32 }
    }
}

impl Double {
    /// Whether the number is zero or has all of its 53 bits, and is not far
    /// out of the ordinary: its exponent is at most `k`, up or down.
    pub open spec fn within(self, k: int) -> bool {
        &&& self.m == 0 ==> self.e == 0
        &&& self.m > 0 ==> LEAST <= self.m <= MOST
        &&& -k <= self.e <= k
    }

    pub open spec fn plus(self, o: Double) -> Double {
        if self.m == 0 {
            o
        } else if o.m == 0 {
            self
        } else if self.e >= o.e {
            if self.e - o.e > 70 {
                self
            } else {
                norm((self.m * two((self.e - o.e) as nat) + o.m) as nat, o.e as int)
            }
        } else {
            if o.e - self.e > 70 {
                o
            } else {
                norm((o.m * two((o.e - self.e) as nat) + self.m) as nat, self.e as int)
            }
        }
    }

    /// The difference, where `o` is no more than `self`.
    pub open spec fn minus(self, o: Double) -> Double {
        if o.m == 0 || self.e - o.e > 70 {
            self
        } else if self.e >= o.e {
            norm((self.m * two((self.e - o.e) as nat) - o.m) as nat, o.e as int)
        } else {
            norm((self.m - o.m * two((o.e - self.e) as nat)) as nat, self.e as int)
        }
    }

    pub open spec fn times(self, o: Double) -> Double {
        norm((self.m * o.m) as nat, self.e + o.e)
    }

    pub open spec fn over_by(self, o: Double) -> Double {
        if self.m == 0 {
            self
        } else {
            let t = lift(self.m as nat, o.m as nat);
            Double {
                m: nearest((self.m * two(t)) as nat, o.m as nat) as u64,
                e: (self.e - o.e - t) as i32,
            }
        }
    }

    pub open spec fn below(self, o: Double) -> bool {
        if self.m == 0 || o.m == 0 {
            self.m == 0 && o.m > 0
        } else if self.e >= o.e {
            self.e - o.e <= 70 && self.m * two((self.e - o.e) as nat) < o.m
        } else {
            o.e - self.e > 70 || self.m < o.m * two((o.e - self.e) as nat)
        }
    }

    /// The nearest whole number of hundredths; of two, the even one.
    pub open spec fn hundredths(self) -> nat {
        if self.e >= 0 {
            (100 * self.m * two(self.e as nat)) as nat
        } else {
            nearest((100 * self.m) as nat, two((-self.e) as nat))
        }
    }

    /// The nearest whole number; of two, the greater one.
    pub open spec fn rounded(self) -> nat {
        if self.e >= 0 {
            (self.m * two(self.e as nat)) as nat
        } else {
            let d = two((-self.e) as nat);
            ((2 * self.m + d) / (2 * d as int)) as nat
        }
    }
}

impl Double {
    /// The nearest whole number; of two, the even one.
    pub open spec fn ones(self) -> nat {
        if self.e >= 0 {
            (self.m * two(self.e as nat)) as nat
        } else {
            nearest(self.m as nat, two((-self.e) as nat))
        }
    }

    /// The nearest whole number; of two, the greater one. A number without a
    /// part behind the point is left as it is.
    pub open spec fn evened(self) -> Double {
        if self.e >= 0 {
            self
        } else {
            whole(self.rounded())
        }
    }
}

/// The number nearest to `n`.
pub open spec fn whole(n: nat) -> Double {
    norm(n, 0)
}

/// The number nearest to `a / b`, for whole numbers of at most 53 bits.
pub open spec fn ratio(a: nat, b: nat) -> Double {
    whole(a).over_by(whole(b))
}

pub proof fn lemma_two_pos(n: nat)
    ensures
        two(n) >= 1,
    decreases n,
{
    if n > 0 {
        lemma_two_pos((n - 1) as nat);
    }
}

pub proof fn lemma_two_add(a: nat, b: nat)
    ensures
        two(a + b) == two(a) * two(b),
    decreases a,
{
    if a > 0 {
        lemma_two_add((a - 1) as nat, b);
        let x = two((a - 1) as nat) as int;
        let y = two(b) as int;
        assert(two((a - 1 + b) as nat) == x * y);
        assert(two(a + b) == 2 * two((a + b - 1) as nat));
        assert((a + b - 1) as nat == (a - 1 + b) as nat);
        assert(2 * (x * y) == (2 * x) * y) by (nonlinear_arith);
    } else {
        assert(two(0) == 1);
        assert(1 * two(b) == two(b)) by (nonlinear_arith);
    }
}

proof fn lemma_two_small()
    ensures
        two(52) == LEAST,
        two(53) == MOST,
        two(14) == 16384,
        two(15) == 32768,
        two(40) == 1099511627776,
        two(41) == 2199023255552,
        two(50) == 1125899906842624,
        two(55) == 36028797018963968,
        two(70) == 1180591620717411303424nat,
        two(74) == 18889465931478580854784nat,
{
    reveal_with_fuel(two, 75);
}

pub proof fn lemma_two_mono(a: nat, b: nat)
    requires
        a <= b,
    ensures
        two(a) <= two(b),
{
    lemma_two_add(a, (b - a) as nat);
    lemma_two_pos((b - a) as nat);
    lemma_two_pos(a);
    let x = two(a) as int;
    let y = two((b - a) as nat) as int;
    assert(x <= x * y) by (nonlinear_arith)
        requires
            x >= 1,
            y >= 1,
    ;
}

fn nearest_to(n: u128, d: u128) -> (r: u128)
    requires
        d > 0,
        d <= u128::MAX / 2,
    ensures
        r == nearest(n as nat, d as nat),
{
    let q: u128 = n / d;
    let r: u128 = n % d;
    if 2 * r < d || (2 * r == d && q % 2 == 0) {
        q
    } else {
        proof {
            lemma_fundamental_div_mod(n as int, d as int);
            let qq = q as int;
            let dd = d as int;
            assert(dd >= 2) by {
                assert(r < d);
            }
            assert(qq * 2 <= dd * qq) by (nonlinear_arith)
                requires
                    dd >= 2,
                    qq >= 0,
            ;
        }
        q + 1
    }
}

pub proof fn lemma_nearest_bound(n: nat, d: nat, lo: nat, hi: nat)
    requires
        d > 0,
        lo * d <= n,
        n < hi * d,
    ensures
        lo <= nearest(n, d) <= hi,
{
    lemma_fundamental_div_mod(n as int, d as int);
    let q = (n / d) as int;
    let dd = d as int;
    let r = (n % d) as int;
    let l = lo as int;
    let h = hi as int;
    assert(n == dd * q + r);
    assert(q < h) by (nonlinear_arith)
        requires
            dd * q + r < h * dd,
            r >= 0,
            dd > 0,
    ;
    assert(l <= q) by (nonlinear_arith)
        requires
            l * dd <= dd * q + r,
            r < dd,
            dd > 0,
    ;
}

/// The number of 53 bits that is nearest to `n * 2^e`.
fn to_norm(n: u128, e: i32) -> (r: Double)
    requires
        n <= u128::MAX / 2,
        -100_000 <= e <= 100_000,
    ensures
        r == norm(n as nat, e as int),
        n > 0 ==> e - 52 <= r.e <= e + 74,
        0 < n < MOST ==> r.e <= e,
        n >= MOST ==> r.e == e + over(n as nat),
        0 < n <= WIDEST ==> r.e <= e + 14,
        0 < n <= MOST * MOST ==> r.e <= e + 54,
        0 < n < 1024 ==> r.e <= e - 42,
        n == 0 ==> r.e == 0,
        r.m == 0 ==> n == 0,
        r.m > 0 ==> LEAST <= r.m <= MOST,
{
    if n == 0 {
        return Double { m: 0, e: 0 };
    }
    if n < MOST as u128 {
        let mut h: u64 = n as u64;
        let mut t: i32 = 0;
        let ghost mut p: nat = 1;
        proof {
            assert(two(0) == 1);
            assert(n as nat * two(0) == n);
        }
        while h < LEAST
            invariant
                0 < n < MOST,
                0 < h < MOST,
                0 <= t,
                h == n * two(t as nat),
                t > 0 ==> two(t as nat) <= h,
                lift(n as nat, 1) == t + lift(h as nat, 1),
                t <= 52,
            decreases 2 * LEAST - h,
        {
            proof {
                let x = two(t as nat) as int;
                let nn = n as int;
                assert(two((t + 1) as nat) == 2 * two(t as nat));
                assert(nn * (2 * x) == 2 * (nn * x)) by (nonlinear_arith);
                assert(2 * x <= nn * (2 * x)) by (nonlinear_arith)
                    requires
                        nn >= 1,
                        x >= 0,
                ;
                if t >= 52 {
                    lemma_two_mono(52, t as nat);
                    lemma_two_small();
                    assert(x <= nn * x) by (nonlinear_arith)
                        requires
                            nn >= 1,
                            x >= 0,
                    ;
                }
            }
            h = 2 * h;
            t += 1;
        }
        proof {
            if n < 1024 && t < 42 {
                lemma_two_mono(t as nat, 41);
                lemma_two_small();
                let x = two(t as nat) as int;
                let nn = n as int;
                assert(nn * x < LEAST) by (nonlinear_arith)
                    requires
                        0 <= nn < 1024,
                        0 <= x <= 2199023255552,
                ;
            }
        }
        return Double { m: h, e: e - t };
    }
    let mut h: u128 = n;
    let mut p: u128 = 1;
    let mut k: i32 = 0;
    proof {
        assert(two(0) == 1);
    }
    while h >= MOST as u128
        invariant
            MOST <= n <= u128::MAX / 2,
            0 <= k,
            p == two(k as nat),
            0 < p <= u128::MAX / 2,
            h == n / p,
            over(n as nat) == k + over(h as nat),
            k > 0 ==> h >= LEAST,
            h >= LEAST,
            k <= 74,
        decreases h,
    {
        proof {
            lemma_div_denominator(n as int, p as int, 2);
            lemma_fundamental_div_mod(n as int, p as int);
            let hh = h as int;
            let pp = p as int;
            assert(pp * hh <= n);
            assert(pp * MOST <= pp * hh) by (nonlinear_arith)
                requires
                    hh >= MOST,
                    pp > 0,
            ;
            assert(two((k + 1) as nat) == 2 * two(k as nat));
            assert(p * 2 <= u128::MAX / 2);
            if k >= 74 {
                lemma_two_mono(74, k as nat);
                lemma_two_small();
                assert(pp >= 18889465931478580854784);
                assert(18889465931478580854784 * MOST > u128::MAX / 2);
                assert(false);
            }
        }
        h = h / 2;
        p = p * 2;
        k += 1;
    }
    let m: u128 = nearest_to(n, p);
    proof {
        lemma_fundamental_div_mod(n as int, p as int);
        let hh = h as int;
        let pp = p as int;
        let rr = n as int % pp;
        assert(n == pp * hh + rr);
        assert(LEAST * pp <= n) by (nonlinear_arith)
            requires
                n as int == pp * hh + rr,
                rr >= 0,
                hh >= LEAST,
                pp > 0,
        ;
        assert(n < MOST * pp) by (nonlinear_arith)
            requires
                n as int == pp * hh + rr,
                rr < pp,
                hh + 1 <= MOST,
                pp > 0,
        ;
        lemma_nearest_bound(n as nat, p as nat, LEAST as nat, MOST as nat);
        lemma_two_small();
        if k >= 15 {
            lemma_two_mono(15, k as nat);
            assert(LEAST * pp >= LEAST * 32768) by (nonlinear_arith)
                requires
                    pp >= 32768,
            ;
        }
        if k >= 55 {
            lemma_two_mono(55, k as nat);
            assert(LEAST * pp >= LEAST * 36028797018963968) by (nonlinear_arith)
                requires
                    pp >= 36028797018963968,
            ;
        }
    }
    Double { m: m as u64, e: e + k }
}

/// `m * 2^k`.
fn shifted(m: u64, k: u32) -> (r: u128)
    requires
        m <= MOST,
        k <= 70,
    ensures
        r == m * two(k as nat),
        r <= MOST * 1180591620717411303424,
{
    let mut r: u128 = m as u128;
    let mut i: u32 = 0;
    proof {
        assert(two(0) == 1);
    }
    while i < k
        invariant
            i <= k <= 70,
            m <= MOST,
            r == m * two(i as nat),
        decreases k - i,
    {
        proof {
            lemma_two_mono((i + 1) as nat, 70);
            lemma_two_small();
            let x = two(i as nat) as int;
            let mm = m as int;
            assert(two((i + 1) as nat) == 2 * two(i as nat));
            assert(mm * (2 * x) == 2 * (mm * x)) by (nonlinear_arith);
            assert(mm * (2 * x) <= MOST * 1180591620717411303424) by (nonlinear_arith)
                requires
                    0 <= mm <= MOST,
                    0 <= 2 * x <= 1180591620717411303424,
            ;
        }
        r = 2 * r;
        i += 1;
    }
    proof {
        lemma_two_mono(k as nat, 70);
        lemma_two_small();
        let x = two(k as nat) as int;
        let mm = m as int;
        assert(mm * x <= MOST * 1180591620717411303424) by (nonlinear_arith)
            requires
                0 <= mm <= MOST,
                0 <= x <= 1180591620717411303424,
        ;
    }
    r
}

/// The number nearest to `n`.
pub fn from_whole(n: u128) -> (r: Double)
    requires
        n <= WIDEST,
    ensures
        r == whole(n as nat),
        r.within(74),
        n > 0 ==> r.m > 0,
        -52 <= r.e <= 14,
        0 < n < 1024 ==> r.e <= -42,
{
    to_norm(n, 0)
}

/// The number nearest to `a / b`.
pub fn quotient(a: u128, b: u128) -> (r: Double)
    requires
        a <= WIDEST,
        0 < b <= WIDEST,
    ensures
        r == ratio(a as nat, b as nat),
        r.within(210),
        r.e <= 15,
        a <= b && a > 0 ==> r.e <= -51,
        a > 0 && b < 1024 ==> r.e >= -63,
        a > 0 ==> r.m > 0,
{
    let x = from_whole(a);
    let y = from_whole(b);
    proof {
        if 0 < a <= b {
            lemma_norm_mono(a as nat, b as nat);
        }
    }
    x.divided(y)
}

pub proof fn lemma_over_mono(a: nat, b: nat)
    requires
        a <= b,
    ensures
        over(a) <= over(b),
    decreases b,
{
    if a >= MOST {
        lemma_over_mono(a / 2, b / 2);
    }
}

pub proof fn lemma_lift_mono(a: nat, b: nat)
    requires
        0 < a <= b,
    ensures
        lift(b, 1) <= lift(a, 1),
    decreases 2 * LEAST - a,
{
    if b < LEAST {
        lemma_lift_mono(2 * a, 2 * b);
    }
}

/// A greater whole number has no smaller exponent.
proof fn lemma_norm_mono(a: nat, b: nat)
    requires
        0 < a <= b,
        b <= WIDEST,
    ensures
        norm(a, 0).e <= norm(b, 0).e,
{
    lemma_over_mono(a, b);
    lemma_lift_mono(a, b);
    lemma_two_small();
    assert(WIDEST < MOST * 16384);
    lemma_over_bound(a, 14);
    lemma_over_bound(b, 14);
    lemma_lift_bound(a);
    lemma_lift_bound(b);
}

proof fn lemma_lift_bound(n: nat)
    requires
        n > 0,
    ensures
        lift(n, 1) <= 52,
{
    lemma_lift_from(n, 0);
}

proof fn lemma_lift_from(n: nat, k: nat)
    requires
        n >= two(k),
        k <= 52,
    ensures
        lift(n, 1) <= 52 - k,
    decreases 52 - k,
{
    lemma_two_pos(k);
    if n < LEAST {
        if k == 52 {
            lemma_two_small();
        } else {
            assert(two(k + 1) == 2 * two(k));
            lemma_lift_from(2 * n, k + 1);
        }
    }
}

/// A number of at most `53 + k` bits must be halved at most `k` times.
pub proof fn lemma_over_bound(n: nat, k: nat)
    requires
        n < MOST * two(k),
    ensures
        over(n) <= k,
    decreases k,
{
    if n >= MOST {
        if k == 0 {
            assert(two(0) == 1);
        } else {
            let x = two((k - 1) as nat) as int;
            assert(two(k) == 2 * two((k - 1) as nat));
            assert(n < 2 * (MOST * x)) by {
                assert(MOST * (2 * x) == 2 * (MOST * x)) by (nonlinear_arith);
            }
            lemma_over_bound(n / 2, (k - 1) as nat);
        }
    }
}

proof fn lemma_sum_bound(a: nat, b: nat, d: nat)
    requires
        a <= MOST,
        b <= MOST,
    ensures
        over(a * two(d) + b) <= d + 2,
{
    lemma_two_pos(d);
    let x = two(d) as int;
    let aa = a as int;
    assert(two(d + 2) == 2 * two(d + 1));
    assert(two(d + 1) == 2 * two(d));
    assert(aa * x <= MOST * x) by (nonlinear_arith)
        requires
            0 <= aa <= MOST,
            x >= 0,
    ;
    assert(MOST <= MOST * x) by (nonlinear_arith)
        requires
            x >= 1,
    ;
    assert(MOST * (4 * x) == 4 * (MOST * x)) by (nonlinear_arith);
    assert(0 <= aa * x) by (nonlinear_arith)
        requires
            0 <= aa,
            x >= 0,
    ;
    lemma_over_bound(a * two(d) + b, d + 2);
}

impl Double {
    pub fn added(self, o: Double) -> (r: Double)
        requires
            self.within(90_000),
            o.within(90_000),
        ensures
            r == self.plus(o),
            forall|k: int|
                0 <= k <= 90_000 && #[trigger] self.within(k) && o.within(k) ==> r.within(k + 74),
            self.e <= o.e ==> r.e <= o.e + 2 || r.m == 0 || o.m == 0,
            o.e <= self.e ==> r.e <= self.e + 2 || r.m == 0 || self.m == 0,
    {
        if self.m == 0 {
            return o;
        }
        if o.m == 0 {
            return self;
        }
        if self.e >= o.e {
            if self.e - o.e > 70 {
                self
            } else {
                proof {
                    lemma_sum_bound(self.m as nat, o.m as nat, (self.e - o.e) as nat);
                }
                to_norm(shifted(self.m, (self.e - o.e) as u32) + o.m as u128, o.e)
            }
        } else {
            if o.e - self.e > 70 {
                o
            } else {
                proof {
                    lemma_sum_bound(o.m as nat, self.m as nat, (o.e - self.e) as nat);
                }
                to_norm(shifted(o.m, (o.e - self.e) as u32) + self.m as u128, self.e)
            }
        }
    }

    /// The difference, where `o` is no more than `self`.
    pub fn lessened(self, o: Double) -> (r: Double)
        requires
            self.within(90_000),
            o.within(90_000),
            !self.below(o),
        ensures
            r == self.minus(o),
            forall|k: int|
                0 <= k <= 90_000 && #[trigger] self.within(k) && o.within(k) ==> r.within(k + 74),
            r.m > 0 ==> r.e <= self.e + 2,
    {
        if o.m == 0 || self.e - o.e > 70 {
            return self;
        }
        if self.e >= o.e {
            proof {
                lemma_sum_bound(self.m as nat, 0, (self.e - o.e) as nat);
                lemma_over_mono(
                    (self.m * two((self.e - o.e) as nat) - o.m) as nat,
                    (self.m * two((self.e - o.e) as nat)) as nat,
                );
            }
            to_norm(shifted(self.m, (self.e - o.e) as u32) - o.m as u128, o.e)
        } else {
            proof {
                lemma_over_mono(
                    (self.m - o.m * two((o.e - self.e) as nat)) as nat,
                    self.m as nat,
                );
                lemma_sum_bound(self.m as nat, 0, 0);
                assert(two(0) == 1);
                assert(self.m as nat * two(0) + 0 == self.m);
            }
            let x: u128 = shifted(o.m, (o.e - self.e) as u32);
            to_norm(self.m as u128 - x, self.e)
        }
    }

    pub fn multiplied(self, o: Double) -> (r: Double)
        requires
            self.within(40_000),
            o.within(40_000),
        ensures
            r == self.times(o),
            forall|j: int, k: int|
                #[trigger] self.within(j) && #[trigger] o.within(k) ==> r.within(j + k + 74),
            r.m > 0 ==> r.e <= self.e + o.e + 54,
    {
        proof {
            let x = self.m as int;
            let y = o.m as int;
            assert(0 <= x * y <= MOST * MOST) by (nonlinear_arith)
                requires
                    0 <= x <= MOST,
                    0 <= y <= MOST,
            ;
            assert(MOST * MOST < u128::MAX / 2);
        }
        to_norm(self.m as u128 * o.m as u128, self.e + o.e)
    }

    pub fn divided(self, o: Double) -> (r: Double)
        requires
            self.within(40_000),
            o.within(40_000),
            o.m > 0,
        ensures
            r == self.over_by(o),
            forall|j: int, k: int|
                #[trigger] self.within(j) && #[trigger] o.within(k) ==> r.within(j + k + 54),
            self.m > 0 ==> r.m > 0 && self.e - o.e - 53 <= r.e <= self.e - o.e - 51,
    {
        if self.m == 0 {
            return self;
        }
        let goal: u128 = LEAST as u128 * o.m as u128;
        let mut h: u128 = self.m as u128;
        let mut t: i32 = 0;
        proof {
            assert(two(0) == 1);
            assert(self.m as nat * two(0) == self.m);
            let y = o.m as int;
            assert(LEAST * y <= LEAST * MOST) by (nonlinear_arith)
                requires
                    0 <= y <= MOST,
            ;
            assert(LEAST * y >= LEAST * LEAST) by (nonlinear_arith)
                requires
                    y >= LEAST,
            ;
            assert(LEAST * MOST < u128::MAX / 4);
            assert(MOST < LEAST * LEAST);
        }
        while h < goal
            invariant
                LEAST <= self.m <= MOST,
                LEAST <= o.m <= MOST,
                0 < h < 2 * goal,
                0 <= t <= 53,
                t == 0 ==> h == self.m,
                goal == LEAST * o.m,
                LEAST * LEAST <= goal <= LEAST * MOST,
                LEAST * MOST < u128::MAX / 4,
                h == self.m * two(t as nat),
                lift(self.m as nat, o.m as nat) == t + lift(h as nat, o.m as nat),
            decreases 2 * goal - h,
        {
            proof {
                let x = two(t as nat) as int;
                let mm = self.m as int;
                assert(two((t + 1) as nat) == 2 * two(t as nat));
                assert(mm * (2 * x) == 2 * (mm * x)) by (nonlinear_arith);
                if t >= 53 {
                    lemma_two_small();
                    lemma_two_mono(53, t as nat);
                    let y = o.m as int;
                    assert(mm * x >= LEAST * y) by (nonlinear_arith)
                        requires
                            mm >= LEAST,
                            x >= MOST,
                            0 <= y <= MOST,
                    ;
                }
            }
            h = 2 * h;
            t += 1;
        }
        let m: u128 = nearest_to(h, o.m as u128);
        proof {
            let y = o.m as int;
            assert(h < MOST * y) by (nonlinear_arith)
                requires
                    h < 2 * goal,
                    goal == LEAST * y,
            ;
            lemma_nearest_bound(h as nat, o.m as nat, LEAST as nat, MOST as nat);
            if t < 51 {
                lemma_two_small();
                lemma_two_mono(t as nat, 50);
                let x = two(t as nat) as int;
                let mm = self.m as int;
                assert(mm * x <= MOST * 1125899906842624) by (nonlinear_arith)
                    requires
                        0 <= mm <= MOST,
                        0 <= x <= 1125899906842624,
                ;
                assert(LEAST * LEAST > MOST * 1125899906842624);
            }
        }
        Double { m: m as u64, e: self.e - o.e - t }
    }

    pub fn is_below(self, o: Double) -> (r: bool)
        requires
            self.within(90_000),
            o.within(90_000),
        ensures
            r == self.below(o),
    {
        if self.m == 0 || o.m == 0 {
            return self.m == 0 && o.m > 0;
        }
        if self.e >= o.e {
            if self.e - o.e > 70 {
                false
            } else {
                shifted(self.m, (self.e - o.e) as u32) < o.m as u128
            }
        } else {
            if o.e - self.e > 70 {
                true
            } else {
                (self.m as u128) < shifted(o.m, (o.e - self.e) as u32)
            }
        }
    }

    pub fn to_hundredths(self) -> (r: u128)
        requires
            self.within(90_000),
            self.e <= 40,
        ensures
            r == self.hundredths(),
    {
        if self.e >= 0 {
            let x: u128 = shifted(self.m, self.e as u32);
            proof {
                let mm = self.m as int;
                let t = two(self.e as nat) as int;
                lemma_two_mono(self.e as nat, 40);
                lemma_two_small();
                assert(100 * (mm * t) == 100 * mm * t) by (nonlinear_arith);
                assert(mm * t <= MOST * 1099511627776) by (nonlinear_arith)
                    requires
                        0 <= mm <= MOST,
                        0 <= t <= 1099511627776,
                ;
            }
            return 100 * x;
        }
        let k: u32 = (-self.e) as u32;
        if k > 70 {
            proof {
                lemma_two_mono(70, k as nat);
                lemma_two_small();
                let n = (100 * self.m) as nat;
                let d = two(k as nat);
                assert(2 * n < d);
                vstd::arithmetic::div_mod::lemma_basic_div(n as int, d as int);
                vstd::arithmetic::div_mod::lemma_small_mod(n, d);
            }
            return 0;
        }
        let d: u128 = shifted(1, k);
        proof {
            lemma_two_pos(k as nat);
        }
        nearest_to(100 * self.m as u128, d)
    }

    pub fn to_rounded(self) -> (r: u128)
        requires
            self.within(90_000),
            self.e <= 40,
        ensures
            r == self.rounded(),
    {
        if self.e >= 0 {
            return shifted(self.m, self.e as u32);
        }
        let k: u32 = (-self.e) as u32;
        if k > 70 {
            proof {
                lemma_two_mono(70, k as nat);
                lemma_two_small();
                let d = two(k as nat);
                assert(2 * self.m + d < 2 * d);
                vstd::arithmetic::div_mod::lemma_basic_div(2 * self.m + d, 2 * d as int);
            }
            return 0;
        }
        let d: u128 = shifted(1, k);
        proof {
            lemma_two_pos(k as nat);
        }
        (2 * self.m as u128 + d) / (2 * d)
    }
}

impl Double {
    /// The nearest whole number; of two, the even one.
    pub fn to_ones(self) -> (r: u128)
        requires
            self.within(90_000),
            self.e < 0,
        ensures
            r == self.ones(),
    {
        let k: u32 = (-self.e) as u32;
        if k > 70 {
            proof {
                lemma_two_mono(70, k as nat);
                lemma_two_small();
                let n = self.m as nat;
                let d = two(k as nat);
                assert(2 * n < d);
                vstd::arithmetic::div_mod::lemma_basic_div(n as int, d as int);
                vstd::arithmetic::div_mod::lemma_small_mod(n, d);
            }
            return 0;
        }
        let d: u128 = shifted(1, k);
        proof {
            lemma_two_pos(k as nat);
        }
        nearest_to(self.m as u128, d)
    }

    /// The nearest whole number; of two, the greater one.
    pub fn to_evened(self) -> (r: Double)
        requires
            self.within(90_000),
        ensures
            r == self.evened(),
            forall|k: int| 74 <= k && #[trigger] self.within(k) ==> r.within(k),
    {
        if self.e >= 0 {
            return self;
        }
        let n: u128 = self.to_rounded();
        proof {
            lemma_rounded_bound(self);
        }
        from_whole(n)
    }
}

/// Two to the power of 40.
pub proof fn lemma_two_40()
    ensures
        two(40) == 1099511627776,
{
    lemma_two_small();
}

/// Two to the power of 53.
pub proof fn lemma_two_53()
    ensures
        two(53) == MOST,
{
    lemma_two_small();
}

/// Halved as often as it must be, a number has 53 bits.
pub proof fn lemma_over_span(n: nat)
    requires
        n >= MOST,
    ensures
        LEAST * two(over(n)) <= n < MOST * two(over(n)),
        over(n) >= 1,
    decreases n,
{
    let h = n / 2;
    let k = over(h);
    assert(over(n) == 1 + k);
    let x = two(k) as int;
    assert(two(1 + k) == 2 * two(k));
    if h >= MOST {
        lemma_over_span(h);
    } else {
        assert(k == 0);
        assert(two(0) == 1);
    }
    assert(LEAST * (2 * x) == 2 * (LEAST * x)) by (nonlinear_arith);
    assert(MOST * (2 * x) == 2 * (MOST * x)) by (nonlinear_arith);
    assert(LEAST * x <= h < MOST * x);
}

/// Doubled as often as it must be, a number has 53 bits.
pub proof fn lemma_lifted(n: nat)
    requires
        0 < n < MOST,
    ensures
        LEAST <= n * two(lift(n, 1)) < MOST,
        lift(n, 1) <= 52,
    decreases MOST - n,
{
    lemma_lift_bound(n);
    if n < LEAST {
        lemma_lifted(2 * n);
        let t = lift(2 * n, 1);
        let x = two(t) as int;
        assert(two(1 + t) == 2 * two(t));
        assert(n * (2 * x) == (2 * n) * x) by (nonlinear_arith);
    } else {
        assert(two(0) == 1);
        assert(n * 1 == n);
    }
}

/// Of two numbers, the greater is rounded to no less.
pub proof fn lemma_nearest_mono(a: nat, b: nat, d: nat)
    requires
        a <= b,
        d > 0,
    ensures
        nearest(a, d) <= nearest(b, d),
{
    lemma_fundamental_div_mod(a as int, d as int);
    lemma_fundamental_div_mod(b as int, d as int);
    vstd::arithmetic::div_mod::lemma_div_is_ordered(a as int, b as int, d as int);
}

/// A number that has 53 bits, and zeros after them, is left as it is.
pub proof fn lemma_norm_exact(m: u64, d: nat, e: int)
    requires
        LEAST <= m < MOST,
        d <= 80,
        -50_000 <= e <= 50_000,
    ensures
        norm((m * two(d)) as nat, e) == (Double { m, e: (e + d) as i32 }),
{
    let n = (m * two(d)) as nat;
    lemma_two_pos(d);
    let t = two(d) as int;
    let mm = m as int;
    if d == 0 {
        assert(two(0) == 1);
        assert(mm * 1 == mm);
        assert(lift(n, 1) == 0);
        assert(n * two(0) == n);
    } else {
        lemma_over_exact(m, d);
        lemma_two_mono(1, d);
        assert(two(0) == 1);
        assert(two(1) == 2 * two(0));
        assert(mm * t >= MOST) by (nonlinear_arith)
            requires
                mm >= LEAST,
                t >= 2,
        ;
        vstd::arithmetic::div_mod::lemma_fundamental_div_mod_converse(mm * t, t, mm, 0);
    }
}

proof fn lemma_over_exact(m: u64, d: nat)
    requires
        LEAST <= m < MOST,
    ensures
        over((m * two(d)) as nat) == d,
    decreases d,
{
    let mm = m as int;
    if d == 0 {
        assert(two(0) == 1);
        assert(mm * 1 == mm);
    } else {
        lemma_over_exact(m, (d - 1) as nat);
        let x = two((d - 1) as nat) as int;
        lemma_two_pos((d - 1) as nat);
        assert(two(d) == 2 * two((d - 1) as nat));
        assert(mm * (2 * x) == 2 * (mm * x)) by (nonlinear_arith);
        assert(mm * x >= LEAST) by (nonlinear_arith)
            requires
                mm >= LEAST,
                x >= 1,
        ;
    }
}

pub proof fn lemma_below_asymmetric(a: Double, b: Double)
    requires
        a.below(b),
        a.within(90_000),
        b.within(90_000),
    ensures
        !b.below(a),
{
    assert(two(0) == 1);
    assert(a.m as nat * two(0) == a.m && b.m as nat * two(0) == b.m);
}

/// One.
pub proof fn lemma_one()
    ensures
        whole(1) == (Double { m: LEAST, e: -52i32 }),
{
    lemma_two_small();
    lemma_lift_one(0);
    assert(two(0) == 1);
}

proof fn lemma_lift_one(k: nat)
    requires
        k <= 52,
    ensures
        lift(two(k), 1) == 52 - k,
    decreases 52 - k,
{
    lemma_two_small();
    lemma_two_pos(k);
    if k < 52 {
        lemma_two_mono(k + 1, 52);
        assert(two(k + 1) == 2 * two(k));
        lemma_lift_one(k + 1);
    }
}

/// A number that is not above one.
pub proof fn lemma_up_to_one(x: Double)
    requires
        x.within(90_000),
        !whole(1).below(x),
    ensures
        x.m > 0 ==> x.e <= -52,
{
    lemma_one();
    if x.m > 0 && x.e > -52 {
        let d = (x.e + 52) as nat;
        lemma_two_mono(1, d);
        assert(two(0) == 1);
        assert(two(1) == 2 * two(0));
        let t = two(d) as int;
        let m = x.m as int;
        assert(m * t >= 2 * LEAST) by (nonlinear_arith)
            requires
                m >= LEAST,
                t >= 2,
        ;
    }
}

/// Shifted as far as it must be, a number is no less than the divisor with 52
/// bits more, and not twice as much.
pub proof fn lemma_lift_span(n: nat, d: nat)
    requires
        0 < d,
        0 < n < 2 * (LEAST * d),
    ensures
        LEAST * d <= n * two(lift(n, d)) < 2 * (LEAST * d),
    decreases 2 * (LEAST * d) - n,
{
    if n < LEAST * d {
        lemma_lift_span(2 * n, d);
        let k = lift(2 * n, d);
        let x = two(k) as int;
        let y = n as int;
        assert(two(1 + k) == 2 * two(k));
        assert(y * (2 * x) == (2 * y) * x) by (nonlinear_arith);
    } else {
        assert(two(0) == 1);
        assert(n * two(0) == n);
    }
}

/// The number nearest to a fraction that is not zero is not zero.
pub proof fn lemma_ratio_positive(a: nat, b: nat)
    requires
        0 < a < MOST,
        0 < b < MOST,
    ensures
        ratio(a, b).m > 0,
{
    let x = whole(a);
    let y = whole(b);
    lemma_lifted(a);
    lemma_lifted(b);
    assert(LEAST <= x.m <= MOST);
    assert(LEAST <= y.m <= MOST);
    let n = x.m as nat;
    let d = y.m as nat;
    assert(n < 2 * (LEAST * d)) by (nonlinear_arith)
        requires
            n <= MOST,
            d >= LEAST,
    ;
    lemma_lift_span(n, d);
    let h = n * two(lift(n, d));
    assert(LEAST * d == d * LEAST && 2 * (LEAST * d) == d * MOST) by (nonlinear_arith);
    lemma_nearest_bound(h, d, LEAST as nat, MOST as nat);
    assert((x.m * two(lift(n, d))) as nat == h);
}

/// How near the number nearest to a fraction is to it: by half of its last bit.
proof fn lemma_ratio_error(a: nat, b: nat) -> (e: nat)
    requires
        0 < a < 0x100_0000_0000,
        0 < b < 0x100_0000_0000,
    ensures
        ratio(a, b).e == -e,
        LEAST <= ratio(a, b).m <= MOST,
        2 * (ratio(a, b).m * b) <= 2 * (a * two(e)) + b,
        2 * (a * two(e)) <= 2 * (ratio(a, b).m * b) + b,
        e <= 110,
{
    let x = whole(a);
    let y = whole(b);
    lemma_lifted(a);
    lemma_lifted(b);
    let la = lift(a, 1);
    let lb = lift(b, 1);
    let n = x.m as nat;
    let d = y.m as nat;
    assert(n == a * two(la) && d == b * two(lb));
    assert(n < 2 * (LEAST * d)) by (nonlinear_arith)
        requires
            n <= MOST,
            d >= LEAST,
    ;
    lemma_lift_span(n, d);
    let t = lift(n, d);
    let h = n * two(t);
    assert(LEAST * d == d * LEAST && 2 * (LEAST * d) == d * MOST) by (nonlinear_arith);
    lemma_nearest_bound(h, d, LEAST as nat, MOST as nat);
    let m = nearest(h, d);
    assert(ratio(a, b).m == m);
    lemma_fundamental_div_mod(h as int, d as int);
    assert(2 * (m * d) <= 2 * h + d && 2 * h <= 2 * (m * d) + d) by {
        let q = (h / d) as int;
        let r = (h % d) as int;
        let dd = d as int;
        assert(h == dd * q + r);
        if m == q {
            assert(m * d == dd * q) by (nonlinear_arith)
                requires
                    m == q,
                    d == dd,
            ;
        } else {
            assert(m == q + 1);
            assert(m * d == dd * q + dd) by (nonlinear_arith)
                requires
                    m == q + 1,
                    d == dd,
            ;
        }
    }
    // The shifts cancel: what is left is two to a power that is not negative.
    assert(t <= 53) by {
        lemma_lift_steps(n, d);
    }
    assert(la + t >= lb) by {
        if la + t < lb {
            lemma_two_add(la, t);
            lemma_two_mono(la + t, lb);
            lemma_two_pos(la + t);
            let p = two(la) as int;
            let q = two(t) as int;
            let aa = a as int;
            assert(h == aa * (p * q)) by (nonlinear_arith)
                requires
                    n == aa * p,
                    h == n * q,
            ;
            let u = two(la + t) as int;
            let v = two(lb) as int;
            let bb = b as int;
            assert(aa * u < LEAST * (bb * v)) by (nonlinear_arith)
                requires
                    0 < aa < 0x100_0000_0000,
                    0 < u <= v,
                    bb >= 1,
            ;
        }
    }
    let e = (la + t - lb) as nat;
    lemma_two_add(la, t);
    lemma_two_add(lb, e);
    lemma_two_pos(lb);
    let p = two(la) as int;
    let q = two(t) as int;
    let v = two(lb) as int;
    let w = two(e) as int;
    let aa = a as int;
    let bb = b as int;
    let mm = m as int;
    assert(h == (aa * w) * v) by (nonlinear_arith)
        requires
            n == aa * p,
            h == n * q,
            p * q == v * w,
    ;
    assert(m * d == (mm * bb) * v) by (nonlinear_arith)
        requires
            d == bb * v,
            m == mm,
    ;
    let s = mm * bb;
    let z = aa * w;
    assert(2 * s <= 2 * z + bb) by (nonlinear_arith)
        requires
            2 * (s * v) <= 2 * (z * v) + bb * v,
            v >= 1,
    ;
    assert(2 * z <= 2 * s + bb) by (nonlinear_arith)
        requires
            2 * (z * v) <= 2 * (s * v) + bb * v,
            v >= 1,
    ;
    e
}

proof fn lemma_lift_steps(n: nat, d: nat)
    requires
        LEAST <= n <= MOST,
        LEAST <= d <= MOST,
    ensures
        lift(n, d) <= 53,
{
    lemma_lift_span_from(n, d, 53);
    lemma_two_small();
    assert(n * two(53) >= LEAST * d) by (nonlinear_arith)
        requires
            n >= LEAST,
            d <= MOST,
            two(53) == MOST,
    ;
}

/// A number that is large enough after `k` doublings takes no more of them.
proof fn lemma_lift_span_from(n: nat, d: nat, k: nat)
    requires
        0 < n,
    ensures
        n * two(k) >= LEAST * d ==> lift(n, d) <= k,
    decreases k,
{
    if n < LEAST * d {
        if k > 0 {
            lemma_lift_span_from(2 * n, d, (k - 1) as nat);
            let x = two((k - 1) as nat) as int;
            let y = n as int;
            assert(two(k) == 2 * two((k - 1) as nat));
            assert(y * (2 * x) == (2 * y) * x) by (nonlinear_arith);
        } else {
            assert(two(0) == 1);
            assert(n * two(0) == n);
        }
    }
}

/// Fractions that differ are rounded to numbers in the same order.
pub proof fn law_fractions_keep_their_order(a: nat, b: nat, c: nat, d: nat)
    requires
        a < 0x100_0000_0000,
        0 < b < 0x100_0000_0000,
        c < 1024,
        0 < d < 1024,
    ensures
        a * d < c * b ==> ratio(a, b).below(ratio(c, d)) && !ratio(c, d).below(ratio(a, b)),
        a * d > c * b ==> ratio(c, d).below(ratio(a, b)) && !ratio(a, b).below(ratio(c, d)),
{
    if a > 0 && c > 0 {
        lemma_order_strict(a, b, c, d);
        lemma_order_strict(c, d, a, b);
        assert(d * a == a * d && b * c == c * b) by (nonlinear_arith);
        let e = lemma_ratio_error(a, b);
        let f = lemma_ratio_error(c, d);
        assert(ratio(a, b).within(210) && ratio(c, d).within(210));
        if ratio(a, b).below(ratio(c, d)) {
            lemma_below_asymmetric(ratio(a, b), ratio(c, d));
        }
        if ratio(c, d).below(ratio(a, b)) {
            lemma_below_asymmetric(ratio(c, d), ratio(a, b));
        }
    } else {
        assert(0 * d == 0 && 0 * b == 0);
        if a > 0 {
            lemma_ratio_positive(a, b);
        }
        if c > 0 {
            lemma_ratio_positive(c, d);
        }
        assert(a == 0 ==> ratio(a, b).m == 0);
        assert(c == 0 ==> ratio(c, d).m == 0);
        assert(a * d > 0 ==> a > 0) by (nonlinear_arith);
        assert(c * b > 0 ==> c > 0) by (nonlinear_arith);
    }
}

proof fn lemma_order_strict(a: nat, b: nat, c: nat, d: nat)
    requires
        0 < a < 0x100_0000_0000,
        0 < b < 0x100_0000_0000,
        0 < c < 0x100_0000_0000,
        0 < d < 0x100_0000_0000,
        a < 1024 && b < 1024 || c < 1024 && d < 1024,
    ensures
        a * d < c * b ==> ratio(a, b).below(ratio(c, d)),
{
    if a * d < c * b {
        let e = lemma_ratio_error(a, b);
        let f = lemma_ratio_error(c, d);
        let aa = a as int;
        let bb = b as int;
        let cc = c as int;
        let dd = d as int;
        let m = ratio(a, b).m as int;
        let n = ratio(c, d).m as int;
        let u = two(e) as int;
        let v = two(f) as int;
        lemma_two_pos(e);
        lemma_two_pos(f);
        assert(aa * dd <= 0x4_0000_0000_0000 && bb * cc <= 0x4_0000_0000_0000)
            by (nonlinear_arith)
            requires
                0 < aa < 0x100_0000_0000,
                0 < bb < 0x100_0000_0000,
                0 < cc < 0x100_0000_0000,
                0 < dd < 0x100_0000_0000,
                aa < 1024 && bb < 1024 || cc < 1024 && dd < 1024,
        ;
        lemma_scale_wide(aa, bb, dd, m, u);
        lemma_scale_wide(cc, dd, bb, n, v);
        assert(cc * bb == bb * cc && dd * bb == bb * dd) by (nonlinear_arith);
        if e <= f {
            let k = (f - e) as nat;
            lemma_two_add(e, k);
            let w = two(k) as int;
            lemma_two_pos(k);
            lemma_separate_up(aa, bb, cc, dd, m, n, u, v, w);
            if k > 70 {
                lemma_two_mono(1, k);
                assert(two(1) == 2 * two(0) && two(0) == 1);
                assert(m * w >= MOST) by (nonlinear_arith)
                    requires
                        m >= LEAST,
                        w >= 2,
                ;
            }
        } else {
            let k = (e - f) as nat;
            lemma_two_add(f, k);
            let w = two(k) as int;
            lemma_two_pos(k);
            lemma_separate_down(aa, bb, cc, dd, m, n, u, v, w);
        }
    }
}

/// The power of two that a fraction was scaled by outweighs its terms.
proof fn lemma_scale_wide(a: int, b: int, d: int, m: int, u: int)
    requires
        a > 0,
        b > 0,
        d > 0,
        u >= 1,
        m >= LEAST,
        a * d <= 0x4_0000_0000_0000,
        2 * (m * b) <= 2 * (a * u) + b,
    ensures
        u > b * d,
{
    let x = a * u;
    assert(x > b * 0x4_0000_0000_0000) by (nonlinear_arith)
        requires
            2 * (m * b) <= 2 * x + b,
            m >= LEAST,
            b > 0,
    ;
    if u <= b * d {
        assert(a * u <= b * (a * d)) by (nonlinear_arith)
            requires
                u <= b * d,
                a > 0,
        ;
        let y = a * d;
        assert(b * y <= b * 0x4_0000_0000_0000) by (nonlinear_arith)
            requires
                b > 0,
                y <= 0x4_0000_0000_0000,
        ;
    }
}

proof fn lemma_separate_up(
    a: int,
    b: int,
    c: int,
    d: int,
    m: int,
    n: int,
    u: int,
    v: int,
    w: int,
)
    requires
        b > 0,
        d > 0,
        a * d + 1 <= c * b,
        2 * (m * b) <= 2 * (a * u) + b,
        2 * (c * v) <= 2 * (n * d) + d,
        v == u * w,
        u > b * d,
        u >= 1,
        w >= 1,
    ensures
        m * w < n,
{
    let bd = b * d;
    // 2 b d m w <= 2 a d v + b d w, and 2 b c v <= 2 b d n + b d.
    assert(2 * (bd * (m * w)) <= 2 * ((a * d) * v) + bd * w) by (nonlinear_arith)
        requires
            2 * (m * b) <= 2 * (a * u) + b,
            v == u * w,
            bd == b * d,
            d > 0,
            w >= 1,
    ;
    assert(2 * ((c * b) * v) <= 2 * (bd * n) + bd) by (nonlinear_arith)
        requires
            2 * (c * v) <= 2 * (n * d) + d,
            bd == b * d,
            b > 0,
    ;
    let p = a * d;
    let q = c * b;
    assert(v >= 1 && q * v >= p * v + v) by (nonlinear_arith)
        requires
            p + 1 <= q,
            v == u * w,
            u >= 1,
            w >= 1,
    ;
    assert(v > bd * w) by (nonlinear_arith)
        requires
            v == u * w,
            u > bd,
            w >= 1,
    ;
    assert(bd >= 1) by (nonlinear_arith)
        requires
            bd == b * d,
            b > 0,
            d > 0,
    ;
    let x = m * w;
    let bw = bd * w;
    assert(bw >= bd) by (nonlinear_arith)
        requires
            bw == bd * w,
            bd >= 1,
            w >= 1,
    ;
    assert(bd * x < bd * n);
    assert(x < n) by (nonlinear_arith)
        requires
            bd * x < bd * n,
            bd >= 1,
    ;
}

proof fn lemma_separate_down(
    a: int,
    b: int,
    c: int,
    d: int,
    m: int,
    n: int,
    u: int,
    v: int,
    w: int,
)
    requires
        b > 0,
        d > 0,
        a * d + 1 <= c * b,
        2 * (m * b) <= 2 * (a * u) + b,
        2 * (c * v) <= 2 * (n * d) + d,
        u == v * w,
        v > d * b,
        v >= 1,
        w >= 1,
    ensures
        m < n * w,
{
    let bd = b * d;
    // 2 b d m <= 2 a d u + b d, and 2 b c u <= 2 b d n w + b d w.
    assert(2 * (bd * m) <= 2 * ((a * d) * u) + bd) by (nonlinear_arith)
        requires
            2 * (m * b) <= 2 * (a * u) + b,
            bd == b * d,
            d > 0,
    ;
    assert(2 * ((c * b) * u) <= 2 * (bd * (n * w)) + bd * w) by (nonlinear_arith)
        requires
            2 * (c * v) <= 2 * (n * d) + d,
            u == v * w,
            bd == b * d,
            b > 0,
            w >= 1,
    ;
    let p = a * d;
    let q = c * b;
    assert(u >= 1 && q * u >= p * u + u) by (nonlinear_arith)
        requires
            p + 1 <= q,
            u == v * w,
            v >= 1,
            w >= 1,
    ;
    assert(d * b == bd) by (nonlinear_arith)
        requires
            bd == b * d,
    ;
    assert(u > bd * w) by (nonlinear_arith)
        requires
            u == v * w,
            v > bd,
            w >= 1,
    ;
    assert(bd >= 1) by (nonlinear_arith)
        requires
            bd == b * d,
            b > 0,
            d > 0,
    ;
    let y = n * w;
    let bw = bd * w;
    assert(bw >= bd) by (nonlinear_arith)
        requires
            bw == bd * w,
            bd >= 1,
            w >= 1,
    ;
    assert(bd * m < bd * y);
    assert(m < y) by (nonlinear_arith)
        requires
            bd * m < bd * y,
            bd >= 1,
    ;
}

/// Rounding stays within the machine's numbers.
pub proof fn lemma_rounded_bound(x: Double)
    requires
        x.within(90_000),
        x.e <= 40,
    ensures
        x.rounded() <= MOST * 1099511627776,
        x.e < 0 ==> x.rounded() <= 2 * MOST + 1,
{
    if x.e >= 0 {
        lemma_two_mono(x.e as nat, 40);
        lemma_two_small();
        let m = x.m as int;
        let t = two(x.e as nat) as int;
        assert(m * t <= MOST * 1099511627776) by (nonlinear_arith)
            requires
                0 <= m <= MOST,
                0 <= t <= 1099511627776,
        ;
    } else {
        let d = two((-x.e) as nat) as int;
        lemma_two_pos((-x.e) as nat);
        let n = 2 * x.m + d;
        vstd::arithmetic::div_mod::lemma_fundamental_div_mod(n, 2 * d);
        let q = n / (2 * d);
        let r = n % (2 * d);
        assert(q <= n) by (nonlinear_arith)
            requires
                n == 2 * d * q + r,
                r >= 0,
                d >= 1,
                q >= 0,
        ;
        assert(q <= 2 * x.m + 1) by (nonlinear_arith)
            requires
                2 * x.m + d == 2 * d * q + r,
                r >= 0,
                d >= 1,
                q >= 0,
        ;
    }
}

} // verus!
