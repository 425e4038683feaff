//! Reference scores: how good a memory is by its counters, and how readily it
//! comes to mind.

use crate::dates::DAY;
use crate::domain::score::Score;
use crate::double::{from_whole, lemma_below_asymmetric, quotient, ratio, whole, Double};
use crate::figures::{as_double, double_of};
use crate::signed::{at_most_one, cap, Signed};
use vstd::prelude::*;

verus! {

/// The counters of a memory that its quality depends on.
#[derive(Debug, Clone, Copy, PartialEq, Eq, Structural)]
pub struct QualityCounters {
    pub confidence: Score,
    pub positive_feedback: u64,
    pub negative_feedback: u64,
    pub accessed: u64,
    pub refinement_count: u64,
    pub last_accessed_millis: Option<u64>,
    pub negative_hits: u64,
}

/// The part `n / of`, one at most.
pub open spec fn portion(n: nat, of: nat) -> Double {
    at_most_one(ratio(n, of))
}

fn portion_of(n: u64, of: u64) -> (r: Double)
    requires
        of > 0,
    ensures
        r == portion(n as nat, of as nat),
        r.within(210),
{
    let q = quotient(n as u128, of as u128);
    proof {
        assert(q.within(210));
    }
    cap(q)
}

/// The part of the judgements that were good; one half where there are none.
pub open spec fn approval(good: u64, bad: u64) -> Double {
    let all = whole(good as nat).plus(whole(bad as nat));
    if all.m == 0 {
        ratio(1, 2)
    } else {
        whole(good as nat).over_by(all)
    }
}

fn approval_of(good: u64, bad: u64) -> (r: Double)
    ensures
        r == approval(good, bad),
        r.within(300),
{
    let g = from_whole(good as u128);
    let b = from_whole(bad as u128);
    let all = g.added(b);
    proof {
        assert(g.within(74) && b.within(74));
    }
    if all.m == 0 {
        quotient(1, 2)
    } else {
        g.divided(all)
    }
}

fn scaled(a: u128, b: u128, x: Double) -> (r: Double)
    requires
        0 < a <= b <= 1000,
        x.within(1075),
    ensures
        r == ratio(a as nat, b as nat).times(x),
        r.within(1400),
{
    let q = quotient(a, b);
    proof {
        assert(q.within(210) && x.within(1075));
    }
    let r = q.multiplied(x);
    proof {
        assert(r.within(1400));
    }
    r
}

/// The quality before it is rounded: from the confidence, how the memory was
/// judged, how often it was read and refined, how stale it is, and how often it
/// was a bad hit.
pub open spec fn composite(c: QualityCounters, stale: Double) -> Signed {
    let confidence = Signed {
        negative: c.confidence.0 < 0,
        size: ratio(2, 5).times(as_double(c.confidence)),
    };
    let judged = Signed {
        negative: false,
        size: ratio(1, 5).times(approval(c.positive_feedback, c.negative_feedback)),
    };
    let read = Signed {
        negative: false,
        size: ratio(3, 20).times(portion(c.accessed as nat, 10)),
    };
    let refined = Signed {
        negative: false,
        size: ratio(1, 10).times(portion(c.refinement_count as nat, 3)),
    };
    let fresh = Signed {
        negative: false,
        size: ratio(3, 20).times(whole(1).minus(at_most_one(stale))),
    };
    let hits = Signed {
        negative: true,
        size: ratio(7, 20).times(portion(c.negative_hits as nat, 4)),
    };
    confidence.plus(judged).plus(read).plus(refined).plus(fresh).plus(hits)
}

/// A number in thousandths, between zero and one.
pub open spec fn thousandths(x: Signed) -> nat {
    if x.negative {
        0
    } else {
        at_most_one(x.size).times(whole(1000)).rounded()
    }
}

/// The quality in thousandths of a memory that has not been read for `stale`
/// half years.
pub fn composite_score(c: &QualityCounters, stale: Double) -> (r: u128)
    requires
        stale.within(404),
    ensures
        r == thousandths(composite(*c, stale)),
{
    let confidence = Signed {
        negative: c.confidence.0 < 0,
        size: scaled(2, 5, double_of(c.confidence)),
    };
    let judged = Signed {
        negative: false,
        size: scaled(1, 5, approval_of(c.positive_feedback, c.negative_feedback)),
    };
    let read = Signed { negative: false, size: scaled(3, 20, portion_of(c.accessed, 10)) };
    let refined = Signed {
        negative: false,
        size: scaled(1, 10, portion_of(c.refinement_count, 3)),
    };
    let part = cap(stale);
    let one = from_whole(1);
    proof {
        assert(part.within(404));
        if one.below(part) {
            lemma_below_asymmetric(one, part);
        }
    }
    let left = one.lessened(part);
    proof {
        assert(one.within(404));
        assert(left.within(478));
    }
    let fresh = Signed { negative: false, size: scaled(3, 20, left) };
    let hits = Signed { negative: true, size: scaled(7, 20, portion_of(c.negative_hits, 4)) };
    let raw = confidence.added(judged, Ghost(1400)).added(read, Ghost(1474)).added(
        refined,
        Ghost(1548),
    ).added(fresh, Ghost(1622)).added(hits, Ghost(1696));
    if raw.negative {
        return 0;
    }
    let top = cap(raw.size);
    let thousand = from_whole(1000);
    proof {
        assert(raw.size.within(1770));
        assert(top.within(1770) && thousand.within(74));
    }
    top.multiplied(thousand).to_rounded()
}

/// The days from one moment to another; less than none where it is the earlier.
pub open spec fn days_between(from: u64, to: u64) -> Signed {
    let span = Signed { negative: false, size: whole(to as nat) }.plus(
        Signed { negative: true, size: whole(from as nat) },
    );
    Signed { negative: span.negative, size: span.size.over_by(whole(DAY as nat)) }
}

fn days_from(from: u64, to: u64) -> (r: Signed)
    ensures
        r == days_between(from, to),
        r.size.within(276),
{
    let a = from_whole(to as u128);
    let b = from_whole(from as u128);
    let day = from_whole(DAY as u128);
    proof {
        assert(a.within(74) && b.within(74) && day.within(74));
    }
    let span = Signed { negative: false, size: a }.added(
        Signed { negative: true, size: b },
        Ghost(74),
    );
    proof {
        assert(span.size.within(148));
    }
    Signed { negative: span.negative, size: span.size.divided(day) }
}

/// The half years from one moment to another.
pub open spec fn half_years(from: u64, to: u64) -> Signed {
    let days = days_between(from, to);
    Signed { negative: days.negative, size: days.size.over_by(whole(180)) }
}

fn half_years_from(from: u64, to: u64) -> (r: Signed)
    ensures
        r == half_years(from, to),
        r.size.within(404),
{
    let days = days_from(from, to);
    let n = from_whole(180);
    proof {
        assert(days.size.within(276) && n.within(74));
    }
    Signed { negative: days.negative, size: days.size.divided(n) }
}

/// How stale a memory is: the half years since it was read, none if it never
/// was or is to be read yet.
pub open spec fn staleness(c: QualityCounters, now: u64) -> Double {
    match c.last_accessed_millis {
        None => whole(0),
        Some(last) => if half_years(last, now).negative {
            whole(0)
        } else {
            half_years(last, now).size
        },
    }
}

/// The quality of a memory by its counters, in thousandths.
pub fn calculate_quality_score(c: &QualityCounters, now_millis: u64) -> (r: u128)
    ensures
        r == thousandths(composite(*c, staleness(*c, now_millis))),
{
    let none = from_whole(0);
    proof {
        assert(none.within(74));
    }
    let stale = match c.last_accessed_millis {
        None => none,
        Some(last) => {
            let h = half_years_from(last, now_millis);
            if h.negative {
                none
            } else {
                h.size
            }
        },
    };
    composite_score(c, stale)
}

/// How fresh a memory is: one when it was made, less by one for each half year
/// since, and never less than zero.
pub open spec fn recency(created: u64, now: u64) -> Double {
    let age = half_years(created, now);
    let left = Signed { negative: false, size: whole(1) }.plus(
        Signed { negative: !age.negative, size: age.size },
    );
    if left.negative {
        whole(0)
    } else {
        left.size
    }
}

/// How readily a memory comes to mind: by how much it is trusted, and how fresh
/// it is.
pub open spec fn injection(confidence: Score, created: u64, now: u64) -> Signed {
    Signed {
        negative: confidence.0 < 0,
        size: as_double(confidence).times(ratio(7, 10)),
    }.plus(Signed { negative: false, size: recency(created, now).times(ratio(3, 10)) })
}

pub fn injection_score(confidence: Score, created_millis: u64, now_millis: u64) -> (r: Signed)
    ensures
        r == injection(confidence, created_millis, now_millis),
{
    let age = half_years_from(created_millis, now_millis);
    let one = from_whole(1);
    let none = from_whole(0);
    proof {
        assert(one.within(74) && none.within(74));
        assert(one.within(404));
    }
    let left = Signed { negative: false, size: one }.added(
        Signed { negative: !age.negative, size: age.size },
        Ghost(404),
    );
    let fresh = if left.negative {
        none
    } else {
        left.size
    };
    let seven = quotient(7, 10);
    let three = quotient(3, 10);
    let trust = double_of(confidence);
    proof {
        assert(fresh.within(478));
        assert(seven.within(210) && three.within(210) && trust.within(1075));
    }
    let trusted = trust.multiplied(seven);
    let freshened = fresh.multiplied(three);
    proof {
        assert(trusted.within(1400) && freshened.within(762));
        assert(freshened.within(1400));
    }
    Signed { negative: confidence.0 < 0, size: trusted }.added(
        Signed { negative: false, size: freshened },
        Ghost(1400),
    )
}

} // verus!
