//! Whole numbers of any size.

use crate::text::{dec, digit_char};
use vstd::prelude::*;

verus! {

/// How many numbers one place holds: 2^32.
pub const BASE: u64 = 4294967296;

/// What one counts at place `i`.
pub open spec fn worth(i: nat) -> nat
    decreases i,
{
    if i == 0 {
        1
    } else {
        BASE as nat * worth((i - 1) as nat)
    }
}

/// What stands at place `i`.
pub open spec fn place_of(s: Seq<u32>, i: int) -> nat {
    if 0 <= i < s.len() {
        s[i] as nat
    } else {
        0
    }
}

/// The number in the first `n` places, the lowest first.
pub open spec fn low(s: Seq<u32>, n: nat) -> nat
    decreases n,
{
    if n == 0 {
        0
    } else {
        low(s, (n - 1) as nat) + place_of(s, n - 1) * worth((n - 1) as nat)
    }
}

/// A whole number.
#[derive(Debug)]
pub struct Natural {
    pub places: Vec<u32>,
}

impl View for Natural {
    type V = nat;

    open spec fn view(&self) -> nat {
        low(self.places@, self.places@.len())
    }
}

proof fn lemma_worth(i: nat)
    ensures
        worth(i) >= 1,
        worth(i + 1) == BASE * worth(i),
    decreases i,
{
    if i > 0 {
        lemma_worth((i - 1) as nat);
        let w = worth((i - 1) as nat) as int;
        assert(BASE * w >= 1) by (nonlinear_arith)
            requires
                w >= 1,
        ;
    }
}

/// Places beyond the last hold nothing.
proof fn lemma_low_beyond(s: Seq<u32>, n: nat)
    requires
        n >= s.len(),
    ensures
        low(s, n) == low(s, s.len()),
    decreases n,
{
    if n > s.len() {
        lemma_low_beyond(s, (n - 1) as nat);
        assert(0 * worth((n - 1) as nat) == 0) by (nonlinear_arith);
    }
}

/// The lower places do not depend on the higher.
proof fn lemma_low_same(s: Seq<u32>, t: Seq<u32>, n: nat)
    requires
        forall|i: int| 0 <= i < n ==> place_of(s, i) == place_of(t, i),
    ensures
        low(s, n) == low(t, n),
    decreases n,
{
    if n > 0 {
        lemma_low_same(s, t, (n - 1) as nat);
        assert(place_of(s, n - 1) == place_of(t, n - 1));
    }
}

proof fn lemma_low_bound(s: Seq<u32>, n: nat)
    ensures
        low(s, n) < worth(n),
    decreases n,
{
    if n > 0 {
        lemma_low_bound(s, (n - 1) as nat);
        lemma_worth((n - 1) as nat);
        let w = worth((n - 1) as nat) as int;
        let x = place_of(s, n - 1) as int;
        assert(x * w <= (BASE - 1) * w) by (nonlinear_arith)
            requires
                0 <= x <= BASE - 1,
                w >= 0,
        ;
        assert((BASE - 1) * w + w == BASE * w) by (nonlinear_arith);
    }
}

proof fn lemma_low_push(s: Seq<u32>, x: u32)
    ensures
        low(s.push(x), s.len() + 1) == low(s, s.len()) + x * worth(s.len()),
{
    lemma_low_same(s.push(x), s, s.len());
}

proof fn lemma_low_update(s: Seq<u32>, i: int, x: u32, n: nat)
    requires
        0 <= i < s.len(),
    ensures
        low(s.update(i, x), n) == if n <= i {
            low(s, n) as int
        } else {
            low(s, n) - s[i] * worth(i as nat) + x * worth(i as nat)
        },
    decreases n,
{
    if n > 0 {
        lemma_low_update(s, i, x, (n - 1) as nat);
    }
}

impl Natural {
    /// What stands at place `i`.
    fn at(&self, i: usize) -> (r: u64)
        ensures
            r == place_of(self.places@, i as int),
            r < BASE,
    {
        if i < self.places.len() {
            self.places[i] as u64
        } else {
            0
        }
    }

    pub fn of(n: u64) -> (r: Natural)
        ensures
            r@ == n,
    {
        let mut places: Vec<u32> = Vec::new();
        places.push((n % BASE) as u32);
        places.push((n / BASE) as u32);
        proof {
            let a = (n % BASE) as int;
            let b = (n / BASE) as int;
            lemma_worth(0);
            assert(worth(0) == 1 && worth(1) == BASE);
            assert(low(places@, 0) == 0);
            assert(low(places@, 1) == a * 1);
            assert(low(places@, 2) == low(places@, 1) + b * BASE);
        }
        Natural { places }
    }

    pub fn copy(&self) -> (r: Natural)
        ensures
            r@ == self@,
    {
        let places = self.places.clone();
        proof {
            assert(places@ =~= self.places@);
        }
        Natural { places }
    }

    /// The number taken `k` times.
    pub fn times(&self, k: u32) -> (r: Natural)
        ensures
            r@ == self@ * k,
    {
        let mut out: Vec<u32> = Vec::new();
        let mut carry: u64 = 0;
        let mut i: usize = 0;
        let ghost s = self.places@;
        proof {
            let kk = k as int;
            assert(0 * kk == 0) by (nonlinear_arith);
            assert(low(out@, 0) == 0 && low(s, 0) == 0);
        }
        while i < self.places.len()
            invariant
                i <= s.len(),
                s == self.places@,
                out@.len() == i,
                carry < BASE,
                low(out@, i as nat) + carry * worth(i as nat) == low(s, i as nat) * k,
            decreases s.len() - i,
        {
            let x: u64 = self.places[i] as u64;
            proof {
                let a = x as int;
                let b = k as int;
                assert(a * b <= (BASE - 1) * (BASE - 1)) by (nonlinear_arith)
                    requires
                        0 <= a <= BASE - 1,
                        0 <= b <= BASE - 1,
                ;
            }
            let t: u64 = x * k as u64 + carry;
            let ghost before = out@;
            out.push((t % BASE) as u32);
            proof {
                lemma_low_push(before, (t % BASE) as u32);
                lemma_worth(i as nat);
                let w = worth(i as nat) as int;
                let lo = (t % BASE) as int;
                let hi = (t / BASE) as int;
                let c = carry as int;
                let a = x as int;
                let b = k as int;
                let l = low(s, i as nat) as int;
                assert(lo * w + hi * (BASE * w) == (lo + BASE * hi) * w) by (nonlinear_arith);
                assert((a * b + c) * w == a * b * w + c * w) by (nonlinear_arith);
                assert((l + a * w) * b == l * b + a * b * w) by (nonlinear_arith);
            }
            carry = t / BASE;
            i += 1;
        }
        let ghost before = out@;
        out.push(carry as u32);
        proof {
            lemma_low_push(before, carry as u32);
        }
        Natural { places: out }
    }

    pub fn plus(&self, o: &Natural) -> (r: Natural)
        ensures
            r@ == self@ + o@,
    {
        let n: usize = if self.places.len() < o.places.len() {
            o.places.len()
        } else {
            self.places.len()
        };
        let mut out: Vec<u32> = Vec::new();
        let mut carry: u64 = 0;
        let mut i: usize = 0;
        let ghost s = self.places@;
        let ghost t = o.places@;
        while i < n
            invariant
                i <= n,
                s == self.places@,
                t == o.places@,
                out@.len() == i,
                carry <= 1,
                low(out@, i as nat) + carry * worth(i as nat) == low(s, i as nat) + low(
                    t,
                    i as nat,
                ),
            decreases n - i,
        {
            let x: u64 = self.at(i);
            let y: u64 = o.at(i);
            let sum: u64 = x + y + carry;
            let ghost before = out@;
            out.push((sum % BASE) as u32);
            proof {
                lemma_low_push(before, (sum % BASE) as u32);
                lemma_worth(i as nat);
                let w = worth(i as nat) as int;
                let lo = (sum % BASE) as int;
                let hi = (sum / BASE) as int;
                let c = carry as int;
                let a = x as int;
                let b = y as int;
                assert(lo * w + hi * (BASE * w) == (lo + BASE * hi) * w) by (nonlinear_arith);
                assert((a + b + c) * w == a * w + b * w + c * w) by (nonlinear_arith);
            }
            carry = sum / BASE;
            i += 1;
        }
        let ghost before = out@;
        out.push(carry as u32);
        proof {
            lemma_low_push(before, carry as u32);
            lemma_low_beyond(s, n as nat);
            lemma_low_beyond(t, n as nat);
        }
        Natural { places: out }
    }

    /// The number less `o`, or nothing where that is more.
    pub fn minus(&self, o: &Natural) -> (r: Option<Natural>)
        ensures
            match r {
                Some(d) => self@ >= o@ && d@ == self@ - o@,
                None => self@ < o@,
            },
    {
        let n: usize = if self.places.len() < o.places.len() {
            o.places.len()
        } else {
            self.places.len()
        };
        let mut out: Vec<u32> = Vec::new();
        let mut borrow: u64 = 0;
        let mut i: usize = 0;
        let ghost s = self.places@;
        let ghost t = o.places@;
        while i < n
            invariant
                i <= n,
                s == self.places@,
                t == o.places@,
                out@.len() == i,
                borrow <= 1,
                low(out@, i as nat) - borrow * worth(i as nat) == low(s, i as nat) - low(
                    t,
                    i as nat,
                ),
            decreases n - i,
        {
            let x: u64 = self.at(i);
            let y: u64 = o.at(i) + borrow;
            let ghost before = out@;
            let ghost had = borrow;
            let d: u64 = if x < y {
                borrow = 1;
                x + BASE - y
            } else {
                borrow = 0;
                x - y
            };
            out.push(d as u32);
            proof {
                lemma_low_push(before, d as u32);
                lemma_worth(i as nat);
                let w = worth(i as nat) as int;
                let dd = d as int;
                let c = borrow as int;
                let a = x as int;
                let h = had as int;
                let b = y as int - h;
                assert(dd == a - b - h + c * BASE);
                assert(dd * w - c * (BASE * w) == a * w - b * w - h * w) by (nonlinear_arith)
                    requires
                        dd == a - b - h + c * BASE,
                ;
            }
            i += 1;
        }
        proof {
            lemma_low_beyond(s, n as nat);
            lemma_low_beyond(t, n as nat);
            lemma_low_bound(out@, n as nat);
            lemma_worth(n as nat);
        }
        if borrow == 1 {
            None
        } else {
            Some(Natural { places: out })
        }
    }

    /// A tenth of the number, and what is left over.
    pub fn tenth(&self) -> (r: (Natural, u32))
        ensures
            r.0@ == self@ / 10,
            r.1 == self@ % 10,
    {
        let mut out = self.places.clone();
        let ghost s = self.places@;
        proof {
            assert(out@ =~= s);
        }
        let mut rest: u64 = 0;
        let mut i: usize = self.places.len();
        let ghost mut q: int = 0;
        proof {
            assert(0 * worth(i as nat) == 0) by (nonlinear_arith);
        }
        while i > 0
            invariant
                i <= s.len(),
                s == self.places@,
                out@.len() == s.len(),
                rest < 10,
                q >= 0,
                low(s, s.len()) == 10 * q + rest * worth(i as nat) + low(s, i as nat),
                low(out@, s.len()) == q + low(s, i as nat),
                forall|j: int| 0 <= j < i ==> out@[j] == s[j],
            decreases i,
        {
            i -= 1;
            let x: u64 = self.places[i] as u64;
            let cur: u64 = rest * BASE + x;
            let d: u64 = cur / 10;
            let ghost before = out@;
            let ghost was = rest as int;
            proof {
                assert(d < BASE);
                lemma_low_update(before, i as int, d as u32, s.len());
                lemma_worth(i as nat);
                let w = worth(i as nat) as int;
                let dd = d as int;
                let r = (cur % 10) as int;
                let a = x as int;
                assert(10 * dd + r == was * BASE + a);
                assert(was * (BASE * w) + a * w == 10 * (dd * w) + r * w) by (nonlinear_arith)
                    requires
                        10 * dd + r == was * BASE + a,
                ;
                assert(dd * w >= 0) by (nonlinear_arith)
                    requires
                        dd >= 0,
                        w >= 1,
                ;
                q = q + dd * w;
            }
            out.set(i, d as u32);
            rest = cur % 10;
        }
        proof {
            assert(worth(0) == 1);
            assert(rest * worth(0) == rest) by (nonlinear_arith)
                requires
                    worth(0) == 1,
            ;
            assert(low(s, 0) == 0);
            assert(low(s, s.len()) == q * 10 + rest);
            vstd::arithmetic::div_mod::lemma_fundamental_div_mod_converse(
                low(s, s.len()) as int,
                10,
                q,
                rest as int,
            );
        }
        (Natural { places: out }, rest as u32)
    }

    pub fn is_zero(&self) -> (r: bool)
        ensures
            r == (self@ == 0),
    {
        let mut i: usize = 0;
        let ghost s = self.places@;
        proof {
            assert(low(s, 0) == 0);
        }
        while i < self.places.len()
            invariant
                i <= s.len(),
                s == self.places@,
                low(s, i as nat) == 0,
            decreases s.len() - i,
        {
            if self.places[i] != 0 {
                proof {
                    lemma_worth(i as nat);
                    let x = s[i as int] as int;
                    let w = worth(i as nat) as int;
                    assert(x * w >= 1) by (nonlinear_arith)
                        requires
                            x >= 1,
                            w >= 1,
                    ;
                    lemma_low_grows(s, (i + 1) as nat, s.len());
                }
                return false;
            }
            proof {
                assert(0 * worth(i as nat) == 0) by (nonlinear_arith);
            }
            i += 1;
        }
        true
    }

    /// The digits of the number.
    pub fn to_decimal(&self) -> (r: String)
        ensures
            r@ == dec(self@),
        decreases self@,
    {
        let (q, d) = self.tenth();
        if q.is_zero() {
            let mut out = String::new();
            out.push(digit_char(d as u64));
            proof {
                assert(out@ =~= dec(self@));
            }
            out
        } else {
            let mut out = q.to_decimal();
            out.push(digit_char(d as u64));
            out
        }
    }
}

proof fn lemma_low_grows(s: Seq<u32>, a: nat, b: nat)
    requires
        a <= b,
    ensures
        low(s, a) <= low(s, b),
    decreases b,
{
    if a < b {
        lemma_low_grows(s, a, (b - 1) as nat);
        let x = place_of(s, b - 1) as int;
        let w = worth((b - 1) as nat) as int;
        assert(x * w >= 0) by (nonlinear_arith)
            requires
                x >= 0,
                w >= 0,
        ;
    }
}

} // verus!
