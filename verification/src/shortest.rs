//! The shortest decimal form of a binary fraction.
//!
//! A number is written with as few digits as tell it from every other number of
//! 53 bits: what is written lies nearer to it than to any of them, or as near
//! where its last bit is zero.

use crate::double::{lemma_two_add, lemma_two_mono, lemma_two_pos, two, Double, LEAST, MOST};
use crate::natural::Natural;
use crate::text::{dec, dec_padded, decimal, decimal_padded};
use vstd::prelude::*;

verus! {

/// Ten to the power of `p`.
pub open spec fn ten(p: nat) -> nat
    decreases p,
{
    if p == 0 {
        1
    } else {
        10 * ten((p - 1) as nat)
    }
}

/// A number of digits that no number has before the point.
pub open spec fn lead(v: Double) -> nat {
    if v.e <= 0 {
        17
    } else {
        400
    }
}

/// `lead`, as it is counted.
fn lead_of(v: Double) -> (r: u32)
    ensures
        r == lead(v),
{
    if v.e <= 0 {
        17
    } else {
        400
    }
}

/// With `q` digits, of which `lead` stand before the point, a number is `m` of
/// these over `scale`.
pub open spec fn grain(v: Double, q: nat) -> nat {
    two(if v.e > 0 {
        v.e as nat
    } else {
        0
    }) * ten(q)
}

pub open spec fn scale(v: Double) -> nat {
    two(if v.e < 0 {
        (-v.e) as nat
    } else {
        0
    }) * ten(lead(v))
}

/// How many quarters of the last bit lie between a number and what is rounded to
/// the number below: two, and one where that has a smaller exponent.
pub open spec fn gap(v: Double) -> nat {
    if v.m == LEAST {
        1
    } else {
        2
    }
}

/// Whether `c`, with `q` digits, tells the number from all others.
pub open spec fn told(v: Double, c: nat, q: nat) -> bool {
    let x = 4 * (c * scale(v));
    let lo = 4 * (v.m * grain(v, q)) - gap(v) * grain(v, q);
    let hi = 4 * (v.m * grain(v, q)) + 2 * grain(v, q);
    if v.m % 2 == 0 {
        lo <= x <= hi
    } else {
        lo < x < hi
    }
}

/// The digits of the number, cut after `q`, and what is cut off, in parts of
/// `scale`.
pub open spec fn cut(v: Double, q: nat) -> nat {
    (v.m * grain(v, q)) as nat / scale(v)
}

pub open spec fn rest(v: Double, q: nat) -> nat {
    (v.m * grain(v, q)) as nat % scale(v)
}

/// Whether `q` digits are enough. They are, once they are finer than the last
/// bit.
pub open spec fn enough(v: Double, q: nat) -> bool {
    told(v, cut(v, q), q) || told(v, cut(v, q) + 1, q) || grain(v, q) >= 4 * scale(v)
}

/// The nearest of what is told with `q` digits; of two, the greater.
pub open spec fn chosen(v: Double, q: nat) -> nat {
    if told(v, cut(v, q), q) && (!told(v, cut(v, q) + 1, q) || 2 * rest(v, q) < scale(v)) {
        cut(v, q)
    } else {
        cut(v, q) + 1
    }
}

/// The least number of digits, from `q` on, that are enough.
pub open spec fn count_from(v: Double, q: nat) -> nat
    decreases
            (if grain(v, q) < 4 * scale(v) {
                4 * scale(v) - grain(v, q)
            } else {
                0
            }),
    via lemma_count_from
{
    if enough(v, q) {
        q
    } else {
        count_from(v, q + 1)
    }
}

#[via_fn]
proof fn lemma_count_from(v: Double, q: nat) {
    lemma_grain(v, q);
}

proof fn lemma_grain(v: Double, q: nat)
    ensures
        grain(v, q + 1) == 10 * grain(v, q),
        grain(v, q) >= 1,
        scale(v) >= 1,
{
    let t = two(if v.e > 0 {
        v.e as nat
    } else {
        0
    });
    let d = two(if v.e < 0 {
        (-v.e) as nat
    } else {
        0
    });
    lemma_two_pos(if v.e > 0 {
        v.e as nat
    } else {
        0
    });
    lemma_two_pos(if v.e < 0 {
        (-v.e) as nat
    } else {
        0
    });
    lemma_ten_pos(q);
    lemma_ten_pos(lead(v));
    assert(ten(q + 1) == 10 * ten(q));
    let p = ten(q);
    let l = ten(lead(v));
    assert(t * (10 * p) == 10 * (t * p)) by (nonlinear_arith);
    assert(t * p >= 1) by (nonlinear_arith)
        requires
            t >= 1,
            p >= 1,
    ;
    assert(d * l >= 1) by (nonlinear_arith)
        requires
            d >= 1,
            l >= 1,
    ;
}

proof fn lemma_ten_pos(p: nat)
    ensures
        ten(p) >= 1,
    decreases p,
{
    if p > 0 {
        lemma_ten_pos((p - 1) as nat);
    }
}

/// Ten is more than eight, and less than sixteen.
proof fn lemma_ten_two(p: nat)
    ensures
        two(3 * p) <= ten(p) <= two(4 * p),
    decreases p,
{
    if p > 0 {
        let k = (p - 1) as nat;
        lemma_ten_two(k);
        lemma_two_add(3, 3 * k);
        lemma_two_add(4, 4 * k);
        reveal_with_fuel(two, 5);
        assert(two(3) == 8 && two(4) == 16);
        assert(3 + 3 * k == 3 * p && 4 + 4 * k == 4 * p);
    }
}

/// Zeros.
pub open spec fn zeros(n: nat) -> Seq<char> {
    Seq::new(n, |i: int| '0')
}

/// A number with `p` digits behind the point.
pub open spec fn pointed(c: nat, p: nat) -> Seq<char> {
    dec(c / ten(p)) + "."@ + dec_padded(c % ten(p), p)
}

/// The shortest decimal form of a number that is not zero.
pub open spec fn digits_text(v: Double) -> Seq<char> {
    let q = count_from(v, 0);
    let c = chosen(v, q);
    if q <= lead(v) {
        dec(c) + zeros((lead(v) - q) as nat)
    } else {
        pointed(c, (q - lead(v)) as nat)
    }
}

impl Double {
    /// The number with its highest bit in its place.
    pub open spec fn settled(self) -> Double {
        if self.m == MOST {
            Double { m: LEAST, e: (self.e + 1) as i32 }
        } else {
            self
        }
    }

    /// The shortest decimal form that tells the number from all others. From
    /// 2^1024 on a number is too large to be told.
    pub open spec fn short_text(self) -> Seq<char> {
        if self.m == 0 {
            "0"@
        } else if self.settled().e > 971 {
            "inf"@
        } else {
            digits_text(self.settled())
        }
    }

    pub fn to_settled(self) -> (r: Double)
        requires
            self.e < i32::MAX,
        ensures
            r == self.settled(),
    {
        if self.m == MOST {
            Double { m: LEAST, e: self.e + 1 }
        } else {
            self
        }
    }

    /// The shortest decimal form that tells the number from all others.
    pub fn to_text(self) -> (r: String)
        requires
            self.within(40_000),
        ensures
            r@ == self.short_text(),
    {
        if self.m == 0 {
            return "0".to_owned();
        }
        let v = self.to_settled();
        if v.e > 971 {
            return "inf".to_owned();
        }
        write_digits(v)
    }
}

/// `n * 2^k`.
pub fn doubled(n: Natural, k: u32) -> (r: Natural)
    ensures
        r@ == n@ * two(k as nat),
{
    let ghost start = n@;
    let mut out = n;
    let mut i: u32 = 0;
    proof {
        assert(two(0) == 1);
        assert(start * 1 == start);
    }
    while i < k
        invariant
            i <= k,
            out@ == start * two(i as nat),
        decreases k - i,
    {
        proof {
            let x = two(i as nat);
            assert(two((i + 1) as nat) == 2 * two(i as nat));
            assert(start * (2 * x) == (start * x) * 2) by (nonlinear_arith);
        }
        out = out.times(2);
        i += 1;
    }
    out
}

/// `n * 10^k`.
fn tenfold(n: Natural, k: u32) -> (r: Natural)
    ensures
        r@ == n@ * ten(k as nat),
{
    let ghost start = n@;
    let mut out = n;
    let mut i: u32 = 0;
    proof {
        assert(ten(0) == 1);
        assert(start * 1 == start);
    }
    while i < k
        invariant
            i <= k,
            out@ == start * ten(i as nat),
        decreases k - i,
    {
        proof {
            let x = ten(i as nat);
            assert(ten((i + 1) as nat) == 10 * ten(i as nat));
            assert(start * (10 * x) == (start * x) * 10) by (nonlinear_arith);
        }
        out = out.times(10);
        i += 1;
    }
    out
}

fn at_most(a: &Natural, b: &Natural) -> (r: bool)
    ensures
        r == (a@ <= b@),
{
    b.minus(a).is_some()
}

/// What `told` says of the digits as they are cut, and of one more.
proof fn lemma_told(v: Double, q: nat, c: nat, r: nat)
    requires
        v.m > 0,
        v.m * grain(v, q) == c * scale(v) + r,
        r < scale(v),
    ensures
        cut(v, q) == c,
        rest(v, q) == r,
        told(v, c, q) == if v.m % 2 == 0 {
            4 * r <= gap(v) * grain(v, q)
        } else {
            4 * r < gap(v) * grain(v, q)
        },
        told(v, c + 1, q) == if v.m % 2 == 0 {
            4 * scale(v) <= 4 * r + 2 * grain(v, q)
        } else {
            4 * scale(v) < 4 * r + 2 * grain(v, q)
        },
{
    lemma_grain(v, q);
    let s = scale(v) as int;
    let u = grain(v, q) as int;
    let n = (v.m * grain(v, q)) as int;
    vstd::arithmetic::div_mod::lemma_fundamental_div_mod_converse(n, s, c as int, r as int);
    assert((c + 1) * s == c * s + s) by (nonlinear_arith);
    assert(gap(v) * u >= u) by (nonlinear_arith)
        requires
            gap(v) >= 1,
            u >= 1,
    ;
}

/// Where `q` digits are not enough, they are few.
proof fn lemma_not_enough(v: Double, q: nat, c: nat, r: nat)
    requires
        0 < v.m <= MOST,
        v.m * grain(v, q) == c * scale(v) + r,
        r < scale(v),
        !told(v, c, q),
        !told(v, c + 1, q),
    ensures
        grain(v, q) < 4 * scale(v),
        c <= 2 * MOST,
{
    lemma_told(v, q, c, r);
    lemma_grain(v, q);
    let s = scale(v) as int;
    let u = grain(v, q) as int;
    let m = v.m as int;
    assert(gap(v) * u >= u) by (nonlinear_arith)
        requires
            gap(v) >= 1,
            u >= 1,
    ;
    assert(3 * u <= 4 * s);
    assert(3 * (m * u) <= m * (4 * s)) by (nonlinear_arith)
        requires
            3 * u <= 4 * s,
            m > 0,
    ;
    assert(3 * (c * s) <= 4 * m * s) by (nonlinear_arith)
        requires
            3 * (m * u) <= m * (4 * s),
            m * u == c * s + r,
            r >= 0,
    ;
    assert(3 * c <= 4 * m) by (nonlinear_arith)
        requires
            3 * (c * s) <= 4 * m * s,
            s >= 1,
    ;
}

/// There are not many digits.
proof fn lemma_few(v: Double, q: nat)
    requires
        -50_000 <= v.e <= 1000,
        grain(v, q) < 4 * scale(v),
    ensures
        q < 20_000,
{
    let t = two(if v.e > 0 {
        v.e as nat
    } else {
        0
    });
    let k = if v.e < 0 {
        (-v.e) as nat
    } else {
        0
    };
    lemma_two_pos(if v.e > 0 {
        v.e as nat
    } else {
        0
    });
    lemma_ten_two(q);
    lemma_ten_two(lead(v));
    let p = ten(q);
    assert(p <= t * p) by (nonlinear_arith)
        requires
            t >= 1,
            p >= 0,
    ;
    let d = two(k);
    let l = ten(lead(v));
    let b = two(4 * lead(v));
    lemma_two_add(k, 4 * lead(v));
    assert(d * l <= d * b) by (nonlinear_arith)
        requires
            l <= b,
            d >= 0,
    ;
    lemma_two_add(2, k + 4 * lead(v));
    reveal_with_fuel(two, 3);
    assert(two(2) == 4);
    assert(two(3 * q) < two(2 + (k + 4 * lead(v))));
    if q >= 20_000 {
        lemma_two_mono(2 + (k + 4 * lead(v)), 3 * q);
    }
}

proof fn lemma_starts_below(v: Double)
    requires
        v.m <= MOST,
        -50_000 <= v.e <= 1000,
    ensures
        v.m * grain(v, 0) < scale(v),
{
    assert(ten(0) == 1);
    let m = v.m as int;
    if v.e <= 0 {
        reveal_with_fuel(ten, 18);
        assert(ten(17) == 100_000_000_000_000_000);
        assert(two(0) == 1);
        let k = (-v.e) as nat;
        lemma_two_pos(k);
        let d = two(k) as int;
        assert(grain(v, 0) == 1);
        if v.e == 0 {
            assert(scale(v) == ten(17));
        } else {
            assert(scale(v) == two(k) * ten(17));
        }
        assert(d * 100_000_000_000_000_000 >= 100_000_000_000_000_000) by (nonlinear_arith)
            requires
                d >= 1,
        ;
        assert(v.m * 1 == v.m);
    } else {
        let k = v.e as nat;
        crate::double::lemma_two_53();
        lemma_two_add(53, k);
        lemma_two_mono(53 + k, 1199);
        lemma_ten_two(400);
        assert(two(1200) == 2 * two(1199));
        lemma_two_pos(1199);
        let t = two(k) as int;
        assert(m * t <= MOST * t) by (nonlinear_arith)
            requires
                0 <= m <= MOST,
                t >= 0,
        ;
        assert(two(0) == 1);
        assert(grain(v, 0) == two(k) * 1);
        assert(scale(v) == 1 * ten(400));
    }
}

fn write_digits(v: Double) -> (r: String)
    requires
        0 < v.m <= MOST,
        -50_000 <= v.e <= 1000,
    ensures
        r@ == digits_text(v),
{
    let k = lead_of(v);
    let even = v.m % 2 == 0;
    let near: u32 = if v.m == LEAST {
        1
    } else {
        2
    };
    let high: u32 = if v.e > 0 {
        v.e as u32
    } else {
        0
    };
    let deep: u32 = if v.e < 0 {
        (-v.e) as u32
    } else {
        0
    };
    let s = tenfold(doubled(Natural::of(1), deep), k);
    let s4 = s.times(4);
    let mut u = doubled(Natural::of(1), high);
    let mut left = doubled(Natural::of(v.m), high);
    let mut c: u64 = 0;
    let mut q: u32 = 0;
    proof {
        let a = two(deep as nat);
        assert(1 * a == a) by (nonlinear_arith);
        let b = two(high as nat);
        assert(1 * b == b) by (nonlinear_arith);
        assert(ten(0) == 1);
        assert(b * 1 == b) by (nonlinear_arith);
        assert(0 * scale(v) == 0) by (nonlinear_arith);
        lemma_starts_below(v);
        lemma_grain(v, 0);
    }
    loop
        invariant_except_break
            count_from(v, 0) == count_from(v, q as nat),
        invariant
            0 < v.m <= MOST,
            -50_000 <= v.e <= 1000,
            even == (v.m % 2 == 0),
            near == gap(v),
            k == lead(v),
            s@ == scale(v),
            s4@ == 4 * scale(v),
            u@ == grain(v, q as nat),
            v.m * grain(v, q as nat) == c * scale(v) + left@,
            left@ < scale(v),
            c <= 20 * MOST + 10,
            q <= 20_000,
        ensures
            count_from(v, 0) == q,
            told(v, c as nat, q as nat) || told(v, (c + 1) as nat, q as nat),
        decreases
                (if grain(v, q as nat) < 4 * scale(v) {
                    4 * scale(v) - grain(v, q as nat)
                } else {
                    0
                }),
    {
        let left4 = left.times(4);
        let below = u.times(near);
        let above = left4.plus(&u.times(2));
        let told_cut = if even {
            at_most(&left4, &below)
        } else {
            !at_most(&below, &left4)
        };
        let told_next = if even {
            at_most(&s4, &above)
        } else {
            !at_most(&above, &s4)
        };
        proof {
            lemma_told(v, q as nat, c as nat, left@);
            assert(u@ * near == gap(v) * grain(v, q as nat)) by (nonlinear_arith)
                requires
                    u@ == grain(v, q as nat),
                    near == gap(v),
            ;
            lemma_grain(v, q as nat);
        }
        if told_cut || told_next {
            break ;
        }
        proof {
            lemma_not_enough(v, q as nat, c as nat, left@);
            lemma_few(v, q as nat);
            assert(!enough(v, q as nat));
        }
        let ghost was = c;
        let ghost had = left@;
        left = left.times(10);
        c = 10 * c;
        u = u.times(10);
        proof {
            let cc = was as int;
            let sc = scale(v) as int;
            let g = grain(v, q as nat) as int;
            let m = v.m as int;
            assert(m * (10 * g) == 10 * (m * g)) by (nonlinear_arith);
            assert((10 * cc) * sc == 10 * (cc * sc)) by (nonlinear_arith);
        }
        let mut steps: u32 = 0;
        loop
            invariant
                s@ == scale(v),
                scale(v) >= 1,
                had < scale(v),
                steps <= 9,
                was <= 2 * MOST,
                c == 10 * was + steps,
                left@ + steps * scale(v) == 10 * had,
                v.m * grain(v, (q + 1) as nat) == c * scale(v) + left@,
            ensures
                left@ < scale(v),
                c <= 20 * MOST + 9,
                v.m * grain(v, (q + 1) as nat) == c * scale(v) + left@,
            decreases 10 - steps,
        {
            match left.minus(&s) {
                None => {
                    break ;
                },
                Some(less) => {
                    proof {
                        let sc = scale(v) as int;
                        let st = steps as int;
                        let cc = c as int;
                        assert((st + 1) * sc == st * sc + sc) by (nonlinear_arith);
                        assert((cc + 1) * sc == cc * sc + sc) by (nonlinear_arith);
                        if steps >= 9 {
                            assert((st + 1) * sc >= 10 * sc) by (nonlinear_arith)
                                requires
                                    st >= 9,
                                    sc >= 1,
                            ;
                        }
                    }
                    left = less;
                    c += 1;
                    steps += 1;
                },
            }
        }
        q += 1;
    }
    let left4 = left.times(4);
    let below = u.times(near);
    let above = left4.plus(&u.times(2));
    let told_cut = if even {
        at_most(&left4, &below)
    } else {
        !at_most(&below, &left4)
    };
    let told_next = if even {
        at_most(&s4, &above)
    } else {
        !at_most(&above, &s4)
    };
    let far = at_most(&s, &left.times(2));
    proof {
        lemma_told(v, q as nat, c as nat, left@);
        assert(u@ * near == gap(v) * grain(v, q as nat)) by (nonlinear_arith)
            requires
                u@ == grain(v, q as nat),
                near == gap(v),
        ;
    }
    if !(told_cut && (!told_next || !far)) {
        c += 1;
    }
    if q <= k {
        let mut out = decimal(c);
        let mut i: u32 = q;
        proof {
            assert(out@ =~= dec(c as nat) + zeros(0));
        }
        while i < k
            invariant
                q <= i <= k,
                out@ == dec(c as nat) + zeros((i - q) as nat),
            decreases k - i,
        {
            out.push('0');
            proof {
                assert(out@ =~= dec(c as nat) + zeros((i + 1 - q) as nat));
            }
            i += 1;
        }
        out
    } else {
        write_pointed(c, q - k)
    }
}

fn write_pointed(c: u64, p: u32) -> (r: String)
    requires
        c <= 20 * MOST + 11,
    ensures
        r@ == pointed(c as nat, p as nat),
{
    if p <= 18 {
        let mut pow: u64 = 1;
        let mut i: u32 = 0;
        proof {
            assert(ten(0) == 1);
        }
        while i < p
            invariant
                i <= p <= 18,
                pow == ten(i as nat),
            decreases p - i,
        {
            proof {
                lemma_ten_mono((i + 1) as nat, 18);
                reveal_with_fuel(ten, 19);
                assert(ten(18) == 1_000_000_000_000_000_000);
                assert(ten((i + 1) as nat) == 10 * ten(i as nat));
            }
            pow = 10 * pow;
            i += 1;
        }
        proof {
            lemma_ten_pos(p as nat);
        }
        let mut out = decimal(c / pow);
        out.append(".");
        out.append(decimal_padded(c % pow, p as u64).as_str());
        out
    } else {
        proof {
            lemma_ten_mono(18, p as nat);
            reveal_with_fuel(ten, 19);
            assert(ten(18) == 1_000_000_000_000_000_000);
            vstd::arithmetic::div_mod::lemma_basic_div(c as int, ten(p as nat) as int);
            vstd::arithmetic::div_mod::lemma_small_mod(c as nat, ten(p as nat));
        }
        let mut out = decimal(0);
        out.append(".");
        out.append(decimal_padded(c, p as u64).as_str());
        out
    }
}

proof fn lemma_ten_mono(a: nat, b: nat)
    requires
        a <= b,
    ensures
        ten(a) <= ten(b),
    decreases b,
{
    if a < b {
        lemma_ten_mono(a, (b - 1) as nat);
        lemma_ten_pos((b - 1) as nat);
    }
}

} // verus!
