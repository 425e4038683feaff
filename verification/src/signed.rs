//! Numbers with a sign, and the average of scores.

use crate::domain::score::Score;
use crate::double::{from_whole, lemma_below_asymmetric, lemma_one, lemma_up_to_one, whole, Double};
use vstd::prelude::*;

verus! {

/// A number with a sign.
#[derive(Debug, Clone, Copy, PartialEq, Eq, Structural)]
pub struct Signed {
    pub negative: bool,
    pub size: Double,
}

impl Signed {
    /// The number on the other side of zero.
    pub open spec fn negated(self) -> Signed {
        Signed { negative: !self.negative, size: self.size }
    }

    pub open spec fn plus(self, o: Signed) -> Signed {
        if self.negative == o.negative {
            Signed { negative: self.negative, size: self.size.plus(o.size) }
        } else if self.size.below(o.size) {
            Signed { negative: o.negative, size: o.size.minus(self.size) }
        } else {
            Signed { negative: self.negative, size: self.size.minus(o.size) }
        }
    }

    /// The sum of two numbers whose exponents are at most `k`.
    pub fn added(self, o: Signed, Ghost(k): Ghost<int>) -> (r: Signed)
        requires
            0 <= k <= 80_000,
            self.size.within(k),
            o.size.within(k),
        ensures
            r == self.plus(o),
            r.size.within(k + 74),
    {
        if self.negative == o.negative {
            Signed { negative: self.negative, size: self.size.added(o.size) }
        } else if self.size.is_below(o.size) {
            proof {
                lemma_below_asymmetric(self.size, o.size);
            }
            Signed { negative: o.negative, size: o.size.lessened(self.size) }
        } else {
            Signed { negative: self.negative, size: self.size.lessened(o.size) }
        }
    }
}

/// A number, or one if it is more.
pub open spec fn at_most_one(x: Double) -> Double {
    if whole(1).below(x) {
        whole(1)
    } else {
        x
    }
}

pub fn cap(x: Double) -> (r: Double)
    requires
        x.within(80_000),
    ensures
        r == at_most_one(x),
        forall|k: int| 74 <= k && #[trigger] x.within(k) ==> r.within(k),
        r.m > 0 ==> r.e <= -52,
{
    let one = from_whole(1);
    if one.is_below(x) {
        proof {
            lemma_one();
        }
        one
    } else {
        proof {
            lemma_up_to_one(x);
        }
        x
    }
}

/// Whether a size is below 2^1024. What is not counts as infinite.
pub open spec fn finite(x: Double) -> bool {
    x.settled().e <= 971
}

/// The exponent down to which sums are added to. No sum of scores comes near it.
pub const DEEP: i32 = 20_000;

/// The sum of the first `n` scores, one after the other. One that has become
/// infinite stays it.
pub open spec fn sum_first(cs: Seq<Score>, n: int) -> Signed
    decreases n,
{
    if n <= 0 {
        Signed { negative: false, size: whole(0) }
    } else {
        let prior = sum_first(cs, n - 1);
        if finite(prior.size) && prior.size.e >= -DEEP {
            prior.plus(cs[n - 1].number())
        } else {
            prior
        }
    }
}

/// The average of scores.
pub open spec fn mean(cs: Seq<Score>) -> Signed {
    let sum = sum_first(cs, cs.len() as int);
    if finite(sum.size) {
        Signed { negative: sum.negative, size: sum.size.over_by(whole(cs.len())) }
    } else {
        sum
    }
}

/// The average of scores, of which there is at least one.
pub fn mean_of(cs: &Vec<Score>) -> (r: Signed)
    requires
        cs@.len() > 0,
    ensures
        r == mean(cs@),
        r.size.within(30_000),
{
    let mut sum = Signed { negative: false, size: from_whole(0) };
    let mut i: usize = 0;
    proof {
        assert(sum.size.within(74));
    }
    while i < cs.len()
        invariant
            i <= cs@.len(),
            sum == sum_first(cs@, i as int),
            sum.size.within(DEEP + 74),
        decreases cs@.len() - i,
    {
        if sum.size.to_settled().e <= 971 && sum.size.e >= -DEEP {
            let next = cs[i].to_number();
            proof {
                assert(next.size.within(DEEP as int));
                assert(sum.size.within(DEEP as int));
            }
            sum = sum.added(next, Ghost(DEEP as int));
        }
        i += 1;
    }
    if sum.size.to_settled().e > 971 {
        return sum;
    }
    let n = from_whole(cs.len() as u128);
    proof {
        assert(sum.size.within(20_074) && n.within(74));
    }
    Signed { negative: sum.negative, size: sum.size.divided(n) }
}

} // verus!
