//! Looking the memory over for what may be worth doing.

use crate::canonical::repository::{legacy_id, legacy_name};
use crate::compatibility::lemma::intelligence::{ProactiveSuggestion, ProactiveSuggestionView};
use crate::compatibility::lemma::reference::{
    composite, composite_score, thousandths, QualityCounters,
};
use crate::dates::DAY;
use crate::domain::guide::{Guide, GuideView};
use crate::domain::memory::{FragmentType, Memory, MemoryView};
use crate::double::{from_whole, quotient, ratio, whole, Double};
use crate::figures::{score_string, score_text};
use crate::lists::{count, find, first, select, take_first, texts, append_each, written};
use crate::text::{dec, decimal, decimal_wide, join, joined, opt_view, same, views};
use vstd::prelude::*;

verus! {

/// The days since a memory was last read; none if it never was.
pub open spec fn idle_days(m: MemoryView, now: u64) -> Double {
    let last = match m.last_accessed_at {
        Some(t) => t.0,
        None => now,
    };
    let idle = if now >= last {
        (now - last) as nat
    } else {
        0
    };
    ratio(idle, DAY as nat)
}

fn idle_days_of(m: &Memory, now: u64) -> (r: Double)
    ensures
        r == idle_days(m@, now),
        r.within(210),
        r.e <= 15,
{
    let last: u64 = match m.last_accessed_at {
        Some(t) => t.0,
        None => now,
    };
    let idle: u64 = if now >= last {
        now - last
    } else {
        0
    };
    quotient(idle as u128, DAY as u128)
}

/// The counters of a memory.
pub open spec fn counters(m: MemoryView) -> QualityCounters {
    QualityCounters {
        confidence: m.confidence,
        positive_feedback: m.positive_feedback,
        negative_feedback: m.negative_feedback,
        accessed: m.access_count,
        refinement_count: m.refinement_count,
        last_accessed_millis: match m.last_accessed_at {
            Some(t) => Some(t.0),
            None => None,
        },
        negative_hits: m.negative_hits,
    }
}

/// The quality of a memory in thousandths, between zero and one.
pub open spec fn quality(m: MemoryView, now: u64) -> nat {
    thousandths(composite(counters(m), idle_days(m, now).over_by(whole(180))))
}

/// The quality of a memory in thousandths.
pub fn calculate_quality_score(m: &Memory, now_millis: u64) -> (r: u128)
    ensures
        r == quality(m@, now_millis),
{
    let c = QualityCounters {
        confidence: m.confidence,
        positive_feedback: m.positive_feedback,
        negative_feedback: m.negative_feedback,
        accessed: m.access_count,
        refinement_count: m.refinement_count,
        last_accessed_millis: match m.last_accessed_at {
            Some(t) => Some(t.0),
            None => None,
        },
        negative_hits: m.negative_hits,
    };
    let idle = idle_days_of(m, now_millis);
    let half_year = from_whole(180);
    let stale = idle.divided(half_year);
    proof {
        assert(idle.within(210) && half_year.within(74));
        assert(stale.within(338));
    }
    composite_score(&c, stale)
}

/// More bad judgements than good ones.
pub open spec fn bad_feedback_text(neg: nat, pos: nat) -> Seq<char> {
    dec(neg) + " negative vs "@ + dec(pos) + " positive feedback"@
}

pub fn bad_feedback(neg: u64, pos: u64) -> (r: String)
    ensures
        r@ == bad_feedback_text(neg as nat, pos as nat),
{
    let mut out = decimal(neg);
    out.append(" negative vs ");
    out.append(decimal(pos).as_str());
    out.append(" positive feedback");
    out
}

/// Recalled to no use.
pub open spec fn bad_hits_text(n: nat) -> Seq<char> {
    dec(n) + " negative recall hits"@
}

pub fn bad_hits(n: u64) -> (r: String)
    ensures
        r@ == bad_hits_text(n as nat),
{
    let mut out = decimal(n);
    out.append(" negative recall hits");
    out
}

/// Read often, and still not trusted.
pub open spec fn weak_reads_text(n: nat, c: Seq<char>) -> Seq<char> {
    "accessed "@ + dec(n) + "x but confidence still "@ + c
}

pub fn weak_reads(n: u64, c: &str) -> (r: String)
    ensures
        r@ == weak_reads_text(n as nat, c@),
{
    let mut out = "accessed ".to_owned();
    out.append(decimal(n).as_str());
    out.append("x but confidence still ");
    out.append(c);
    out
}

/// Not read for long.
pub open spec fn untouched_text(n: nat) -> Seq<char> {
    "untouched for "@ + dec(n) + " days"@
}

pub fn untouched(n: u128) -> (r: String)
    ensures
        r@ == untouched_text(n as nat),
{
    let mut out = "untouched for ".to_owned();
    out.append(decimal_wide(n).as_str());
    out.append(" days");
    out
}

/// Adds a text to a list if there is one.
pub open spec fn with_reason(list: Seq<Seq<char>>, r: Option<Seq<char>>) -> Seq<Seq<char>> {
    match r {
        Some(x) => list.push(x),
        None => list,
    }
}

/// What speaks against a memory.
pub open spec fn reasons(m: MemoryView, now: u64) -> Seq<Seq<char>> {
    let judged = if m.negative_feedback > m.positive_feedback {
        Some(bad_feedback_text(m.negative_feedback as nat, m.positive_feedback as nat))
    } else {
        None
    };
    let hits = if m.negative_hits >= 2 {
        Some(bad_hits_text(m.negative_hits as nat))
    } else {
        None
    };
    let weak = if m.access_count >= 3 && m.confidence.0 < DOUBTED {
        Some(weak_reads_text(m.access_count as nat, score_text(m.confidence)))
    } else {
        None
    };
    let old_one = if whole(120).below(idle_days(m, now)) && m.access_count >= 1 {
        Some(untouched_text(idle_days(m, now).rounded()))
    } else {
        None
    };
    with_reason(
        with_reason(with_reason(with_reason(Seq::empty(), judged), hits), weak),
        old_one,
    )
}

/// What speaks against a memory.
pub fn quality_score_reasons(m: &Memory, now_millis: u64) -> (r: Vec<String>)
    ensures
        views(r@) == reasons(m@, now_millis),
{
    broadcast use crate::text::lemma_views_push;

    let mut out: Vec<String> = Vec::new();
    proof {
        assert(views(out@) =~= Seq::empty());
    }
    if m.negative_feedback > m.positive_feedback {
        out.push(bad_feedback(m.negative_feedback, m.positive_feedback));
    }
    if m.negative_hits >= 2 {
        out.push(bad_hits(m.negative_hits));
    }
    if m.access_count >= 3 && m.confidence.0 < DOUBTED {
        out.push(weak_reads(m.access_count, score_string(m.confidence).as_str()));
    }
    let idle = idle_days_of(m, now_millis);
    if from_whole(120).is_below(idle) && m.access_count >= 1 {
        out.push(untouched(idle.to_rounded()));
    }
    out
}

/// Whether a memory is of low quality, and something tells why.
pub open spec fn low_quality(m: MemoryView, now: u64) -> bool {
    reasons(m, now).len() > 0 && quality(m, now) < 350
}

pub fn is_low_quality(m: &Memory, now_millis: u64) -> (r: bool)
    ensures
        r == low_quality(m@, now_millis),
{
    let why = quality_score_reasons(m, now_millis);
    proof {
        assert(views(why@).len() == why@.len());
    }
    why.len() > 0 && calculate_quality_score(m, now_millis) < 350
}

/// A suggestion without an action.
pub open spec fn advice(kind: Seq<char>, priority: Seq<char>, message: Seq<char>) ->
    ProactiveSuggestionView {
    ProactiveSuggestionView { kind, priority, message, suggested_action: None }
}

fn advise(kind: &str, priority: &str, message: String) -> (r: ProactiveSuggestion)
    ensures
        r@ == advice(kind@, priority@, message@),
{
    ProactiveSuggestion {
        kind: kind.to_owned(),
        priority: priority.to_owned(),
        message,
        suggested_action: None,
    }
}

/// High where a condition holds, medium where it does not.
pub open spec fn high_if(b: bool) -> Seq<char> {
    if b {
        "high"@
    } else {
        "medium"@
    }
}

fn high_when(b: bool) -> (r: &'static str)
    ensures
        r@ == high_if(b),
{
    if b {
        "high"
    } else {
        "medium"
    }
}

/// Memories that are hardly trusted.
pub open spec fn weak_message_text(n: nat) -> Seq<char> {
    dec(n) + " memories have very low confidence (<0.2). Consider cleanup with memory_forget or memory_feedback."@
}

pub fn weak_message(n: usize) -> (r: String)
    ensures
        r@ == weak_message_text(n as nat),
{
    let mut out = decimal(n as u64);
    out.append(" memories have very low confidence (<0.2). Consider cleanup with memory_forget or memory_feedback.");
    out
}

/// Memories that nothing leads to.
pub open spec fn orphan_message_text(n: nat, all: nat) -> Seq<char> {
    dec(n) + " of "@ + dec(all) + " memories are isolated (no relations, rarely accessed). Consider reading and linking them."@
}

pub fn orphan_message(n: usize, all: usize) -> (r: String)
    ensures
        r@ == orphan_message_text(n as nat, all as nat),
{
    let mut out = decimal(n as u64);
    out.append(" of ");
    out.append(decimal(all as u64).as_str());
    out.append(" memories are isolated (no relations, rarely accessed). Consider reading and linking them.");
    out
}

/// Guides that are out of date.
pub open spec fn deprecated_message_text(n: nat, names: Seq<char>) -> Seq<char> {
    dec(n) + " deprecated guide(s): "@ + names + ". Consider guide_forget to clean up."@
}

pub fn deprecated_message(n: usize, names: &str) -> (r: String)
    ensures
        r@ == deprecated_message_text(n as nat, names@),
{
    let mut out = decimal(n as u64);
    out.append(" deprecated guide(s): ");
    out.append(names);
    out.append(". Consider guide_forget to clean up.");
    out
}

/// Guides that taught nothing.
pub open spec fn unlearned_message_text(n: nat, names: Seq<char>) -> Seq<char> {
    dec(n) + " guide(s) used 3+ times without learnings: "@ + names + ". Add learnings via guide_practice."@
}

pub fn unlearned_message(n: usize, names: &str) -> (r: String)
    ensures
        r@ == unlearned_message_text(n as nat, names@),
{
    let mut out = decimal(n as u64);
    out.append(" guide(s) used 3+ times without learnings: ");
    out.append(names);
    out.append(". Add learnings via guide_practice.");
    out
}

/// A memory that is read often.
pub open spec fn hot_example_text(title: Seq<char>, n: nat) -> Seq<char> {
    "\""@ + title + "\" ("@ + dec(n) + "x)"@
}

pub fn hot_example(title: &str, n: u64) -> (r: String)
    ensures
        r@ == hot_example_text(title@, n as nat),
{
    let mut out = "\"".to_owned();
    out.append(title);
    out.append("\" (");
    out.append(decimal(n).as_str());
    out.append("x)");
    out
}

/// Memories that could become guides.
pub open spec fn hot_message_text(n: nat, examples: Seq<char>) -> Seq<char> {
    dec(n) + " frequently accessed pattern(s)/lesson(s) without guides: "@ + examples + ". These are reused knowledge — distill into guides."@
}

pub fn hot_message(n: usize, examples: &str) -> (r: String)
    ensures
        r@ == hot_message_text(n as nat, examples@),
{
    let mut out = decimal(n as u64);
    out.append(" frequently accessed pattern(s)/lesson(s) without guides: ");
    out.append(examples);
    out.append(". These are reused knowledge — distill into guides.");
    out
}

/// A memory of low quality.
pub open spec fn weak_example_text(id: Seq<char>, title: Seq<char>, why: Seq<char>) -> Seq<char> {
    "["@ + id + "] \""@ + title + "\" ("@ + why + ")"@
}

pub fn weak_example(id: &str, title: &str, why: &str) -> (r: String)
    ensures
        r@ == weak_example_text(id@, title@, why@),
{
    let mut out = "[".to_owned();
    out.append(id);
    out.append("] \"");
    out.append(title);
    out.append("\" (");
    out.append(why);
    out.append(")");
    out
}

/// Memories of low quality.
pub open spec fn quality_message_text(n: nat, examples: Seq<char>) -> Seq<char> {
    dec(n) + " memory(ies) score below the quality threshold: "@ + examples + ". Refine or prune them."@
}

pub fn quality_message(n: usize, examples: &str) -> (r: String)
    ensures
        r@ == quality_message_text(n as nat, examples@),
{
    let mut out = decimal(n as u64);
    out.append(" memory(ies) score below the quality threshold: ");
    out.append(examples);
    out.append(". Refine or prune them.");
    out
}

/// Below this confidence a memory is hardly trusted: two tenths.
pub const FADED: i64 = 4_596_373_779_694_328_218;

/// Below this confidence a memory is doubted: four tenths.
pub const DOUBTED: i64 = 4_600_877_379_321_698_714;

/// Whether a memory is hardly trusted.
pub open spec fn is_weak(m: MemoryView) -> bool {
    m.confidence.0 < FADED
}

/// Whether nothing leads to a memory.
pub open spec fn is_orphan(m: MemoryView) -> bool {
    m.relations.len() == 0 && m.access_count < 2
}

/// Whether a guide was used without teaching anything.
pub open spec fn is_unlearned(g: GuideView) -> bool {
    g.usage_count >= 3 && g.learnings.len() == 0
}

/// Whether a memory is a pattern or a lesson.
pub open spec fn is_teachable(t: FragmentType) -> bool {
    t is Pattern || t is Lesson
}

pub fn teachable(t: FragmentType) -> (r: bool)
    ensures
        r == is_teachable(t),
{
    match t {
        FragmentType::Pattern => true,
        FragmentType::Lesson => true,
        _ => false,
    }
}

/// Whether a memory could become a guide.
pub open spec fn is_hot(m: MemoryView) -> bool {
    is_teachable(m.fragment_type) && m.access_count >= 5 && m.related_guides.len() == 0
}

pub open spec fn weak_advice(ms: Seq<MemoryView>) -> Option<ProactiveSuggestionView> {
    let n = ms.filter(|m: MemoryView| is_weak(m)).len();
    if n > 0 {
        Some(advice("archive"@, high_if(n > 10), weak_message_text(n)))
    } else {
        None
    }
}

pub open spec fn orphan_advice(ms: Seq<MemoryView>) -> Option<ProactiveSuggestionView> {
    let n = ms.filter(|m: MemoryView| is_orphan(m)).len();
    if 2 * n > ms.len() {
        Some(advice("relate"@, "medium"@, orphan_message_text(n, ms.len())))
    } else {
        None
    }
}

/// The names of guides.
pub open spec fn guide_names(gs: Seq<GuideView>) -> Seq<Seq<char>> {
    gs.map_values(|g: GuideView| g.name)
}

pub open spec fn deprecated_advice(gs: Seq<GuideView>) -> Option<ProactiveSuggestionView> {
    let old_ones = gs.filter(|g: GuideView| g.deprecated);
    if old_ones.len() > 0 {
        Some(
            advice(
                "archive"@,
                "low"@,
                deprecated_message_text(old_ones.len(), joined(guide_names(old_ones), ", "@)),
            ),
        )
    } else {
        None
    }
}

pub open spec fn unlearned_advice(gs: Seq<GuideView>) -> Option<ProactiveSuggestionView> {
    let some = gs.filter(|g: GuideView| is_unlearned(g));
    if some.len() > 0 {
        Some(
            advice(
                "refine"@,
                "medium"@,
                unlearned_message_text(some.len(), joined(guide_names(first(some, 3)), ", "@)),
            ),
        )
    } else {
        None
    }
}

/// Memories that are read often, as examples.
pub open spec fn hot_examples(ms: Seq<MemoryView>) -> Seq<Seq<char>> {
    ms.map_values(|m: MemoryView| hot_example_text(m.title, m.access_count as nat))
}

pub open spec fn hot_advice(ms: Seq<MemoryView>) -> Option<ProactiveSuggestionView> {
    let hot = ms.filter(|m: MemoryView| is_hot(m));
    if hot.len() > 0 {
        Some(
            ProactiveSuggestionView {
                kind: "distill"@,
                priority: high_if(
                    exists|j: int| 0 <= j < hot.len() && (#[trigger] hot[j]).access_count >= 10,
                ),
                message: hot_message_text(hot.len(), joined(hot_examples(first(hot, 3)), ", "@)),
                suggested_action: Some("guide_distill for each hot fragment"@),
            },
        )
    } else {
        None
    }
}

/// Memories of low quality, as examples.
pub open spec fn weak_examples(ms: Seq<MemoryView>, now: u64) -> Seq<Seq<char>> {
    ms.map_values(
        |m: MemoryView|
            weak_example_text(legacy_name(m), m.title, joined(reasons(m, now), ", "@)),
    )
}

pub open spec fn quality_advice(ms: Seq<MemoryView>, now: u64) -> Option<ProactiveSuggestionView> {
    let low = ms.filter(|m: MemoryView| low_quality(m, now));
    if low.len() > 0 {
        Some(
            ProactiveSuggestionView {
                kind: "refine"@,
                priority: high_if(low.len() > 5),
                message: quality_message_text(
                    low.len(),
                    joined(weak_examples(first(low, 3), now), "; "@),
                ),
                suggested_action: Some(
                    "memory_update / memory_feedback / memory_forget on the weakest fragments"@,
                ),
            },
        )
    } else {
        None
    }
}

/// Adds a suggestion to a list if there is one.
pub open spec fn with_advice(
    list: Seq<ProactiveSuggestionView>,
    a: Option<ProactiveSuggestionView>,
) -> Seq<ProactiveSuggestionView> {
    match a {
        Some(x) => list.push(x),
        None => list,
    }
}

/// What may be worth doing.
pub open spec fn analysis(ms: Seq<MemoryView>, gs: Seq<GuideView>, now: u64) -> Seq<
    ProactiveSuggestionView,
> {
    with_advice(
        with_advice(
            with_advice(
                with_advice(
                    with_advice(
                        with_advice(Seq::empty(), weak_advice(ms)),
                        orphan_advice(ms),
                    ),
                    deprecated_advice(gs),
                ),
                unlearned_advice(gs),
            ),
            hot_advice(ms),
        ),
        quality_advice(ms, now),
    )
}

fn advise_weak(memories: &Vec<Memory>) -> (r: Option<ProactiveSuggestion>)
    ensures
        opt_view(r) == weak_advice(views(memories@)),
{
    let n: usize = count(
        memories,
        |m: &Memory| -> (b: bool)
            ensures
                b == is_weak(m@)
            { m.confidence.0 < FADED },
        Ghost(|m: MemoryView| is_weak(m)),
    );
    if n > 0 {
        Some(advise("archive", high_when(n > 10), weak_message(n)))
    } else {
        None
    }
}

fn advise_orphans(memories: &Vec<Memory>) -> (r: Option<ProactiveSuggestion>)
    ensures
        opt_view(r) == orphan_advice(views(memories@)),
{
    let n: usize = count(
        memories,
        |m: &Memory| -> (b: bool)
            ensures
                b == is_orphan(m@)
            {
                proof {
                    assert(views(m.relations@).len() == m.relations@.len());
                }
                m.relations.len() == 0 && m.access_count < 2
            },
        Ghost(|m: MemoryView| is_orphan(m)),
    );
    if n > memories.len() - n {
        Some(advise("relate", "medium", orphan_message(n, memories.len())))
    } else {
        None
    }
}

fn advise_deprecated(guides: &Vec<Guide>) -> (r: Option<ProactiveSuggestion>)
    ensures
        opt_view(r) == deprecated_advice(views(guides@)),
{
    let old_ones = select(
        guides,
        |g: &Guide| -> (b: bool)
            ensures
                b == g@.deprecated
            { g.deprecated },
        Ghost(|g: GuideView| g.deprecated),
    );
    proof {
        assert(views(old_ones@).len() == old_ones@.len());
    }
    if old_ones.len() > 0 {
        let names = names_of(&old_ones);
        Some(
            advise(
                "archive",
                "low",
                deprecated_message(old_ones.len(), join(&names, ", ").as_str()),
            ),
        )
    } else {
        None
    }
}

/// The names of guides.
pub fn names_of(guides: &Vec<Guide>) -> (r: Vec<String>)
    ensures
        views(r@) == guide_names(views(guides@)),
{
    texts(
        guides,
        |g: &Guide| -> (t: String)
            ensures
                t@ == g@.name
            { g.name.clone() },
        Ghost(|g: GuideView| g.name),
    )
}

fn advise_unlearned(guides: &Vec<Guide>) -> (r: Option<ProactiveSuggestion>)
    ensures
        opt_view(r) == unlearned_advice(views(guides@)),
{
    let some = select(
        guides,
        |g: &Guide| -> (b: bool)
            ensures
                b == is_unlearned(g@)
            {
                proof {
                    assert(views(g.learnings@).len() == g.learnings@.len());
                }
                g.usage_count >= 3 && g.learnings.len() == 0
            },
        Ghost(|g: GuideView| is_unlearned(g)),
    );
    proof {
        assert(views(some@).len() == some@.len());
    }
    if some.len() > 0 {
        let names = names_of(&take_first(&some, 3));
        Some(
            advise(
                "refine",
                "medium",
                unlearned_message(some.len(), join(&names, ", ").as_str()),
            ),
        )
    } else {
        None
    }
}

fn advise_hot(memories: &Vec<Memory>) -> (r: Option<ProactiveSuggestion>)
    ensures
        opt_view(r) == hot_advice(views(memories@)),
{
    let hot = select(
        memories,
        |m: &Memory| -> (b: bool)
            ensures
                b == is_hot(m@)
            {
                proof {
                    assert(views(m.related_guides@).len() == m.related_guides@.len());
                }
                teachable(m.fragment_type) && m.access_count >= 5 && m.related_guides.len() == 0
            },
        Ghost(|m: MemoryView| is_hot(m)),
    );
    proof {
        assert(views(hot@).len() == hot@.len());
    }
    if hot.len() > 0 {
        let very = find(
            &hot,
            |m: &Memory| -> (b: bool)
                ensures
                    b == (m@.access_count >= 10)
                { m.access_count >= 10 },
            Ghost(|m: MemoryView| m.access_count >= 10),
        ).is_some();
        let examples = texts(
            &take_first(&hot, 3),
            |m: &Memory| -> (t: String)
                ensures
                    t@ == hot_example_text(m@.title, m@.access_count as nat)
                { hot_example(m.title.as_str(), m.access_count) },
            Ghost(|m: MemoryView| hot_example_text(m.title, m.access_count as nat)),
        );
        Some(
            ProactiveSuggestion {
                kind: "distill".to_owned(),
                priority: high_when(very).to_owned(),
                message: hot_message(hot.len(), join(&examples, ", ").as_str()),
                suggested_action: Some("guide_distill for each hot fragment".to_owned()),
            },
        )
    } else {
        None
    }
}

fn advise_quality(memories: &Vec<Memory>, now_millis: u64) -> (r: Option<ProactiveSuggestion>)
    ensures
        opt_view(r) == quality_advice(views(memories@), now_millis),
{
    let low = select(
        memories,
        |m: &Memory| -> (b: bool)
            ensures
                b == low_quality(m@, now_millis)
            { is_low_quality(m, now_millis) },
        Ghost(|m: MemoryView| low_quality(m, now_millis)),
    );
    proof {
        assert(views(low@).len() == low@.len());
    }
    if low.len() > 0 {
        let examples = texts(
            &take_first(&low, 3),
            |m: &Memory| -> (t: String)
                ensures
                    t@ == weak_example_text(
                        legacy_name(m@),
                        m@.title,
                        joined(reasons(m@, now_millis), ", "@),
                    )
                {
                    let why = quality_score_reasons(m, now_millis);
                    weak_example(
                        legacy_id(m).as_str(),
                        m.title.as_str(),
                        join(&why, ", ").as_str(),
                    )
                },
            Ghost(
                |m: MemoryView|
                    weak_example_text(
                        legacy_name(m),
                        m.title,
                        joined(reasons(m, now_millis), ", "@),
                    ),
            ),
        );
        Some(
            ProactiveSuggestion {
                kind: "refine".to_owned(),
                priority: high_when(low.len() > 5).to_owned(),
                message: quality_message(low.len(), join(&examples, "; ").as_str()),
                suggested_action: Some(
                    "memory_update / memory_feedback / memory_forget on the weakest fragments".to_owned(),
                ),
            },
        )
    } else {
        None
    }
}

fn push_advice(list: &mut Vec<ProactiveSuggestion>, a: Option<ProactiveSuggestion>)
    ensures
        views(final(list)@) == with_advice(views(old(list)@), opt_view(a)),
{
    broadcast use crate::text::lemma_views_push;

    if let Some(x) = a {
        list.push(x);
    }
}

/// What may be worth doing.
pub fn run_full_analysis(memories: &Vec<Memory>, guides: &Vec<Guide>, now_millis: u64) -> (r: Vec<
    ProactiveSuggestion,
>)
    ensures
        views(r@) == analysis(views(memories@), views(guides@), now_millis),
{
    let mut out: Vec<ProactiveSuggestion> = Vec::new();
    proof {
        assert(views(out@) =~= Seq::empty());
    }
    push_advice(&mut out, advise_weak(memories));
    push_advice(&mut out, advise_orphans(memories));
    push_advice(&mut out, advise_deprecated(guides));
    push_advice(&mut out, advise_unlearned(guides));
    push_advice(&mut out, advise_hot(memories));
    push_advice(&mut out, advise_quality(memories, now_millis));
    out
}

/// A suggestion that matters.
pub open spec fn high_line_text(message: Seq<char>) -> Seq<char> {
    "  [!] "@ + message + "\n"@
}

pub fn high_line(message: &str) -> (r: String)
    ensures
        r@ == high_line_text(message@),
{
    let mut out = "  [!] ".to_owned();
    out.append(message);
    out.append("\n");
    out
}

/// A suggestion.
pub open spec fn medium_line_text(message: Seq<char>) -> Seq<char> {
    "  [*] "@ + message + "\n"@
}

pub fn medium_line(message: &str) -> (r: String)
    ensures
        r@ == medium_line_text(message@),
{
    let mut out = "  [*] ".to_owned();
    out.append(message);
    out.append("\n");
    out
}

/// A suggestion that can wait.
pub open spec fn low_line_text(message: Seq<char>) -> Seq<char> {
    "  [ ] "@ + message + "\n"@
}

pub fn low_line(message: &str) -> (r: String)
    ensures
        r@ == low_line_text(message@),
{
    let mut out = "  [ ] ".to_owned();
    out.append(message);
    out.append("\n");
    out
}

/// What to do.
pub open spec fn action_line_text(action: Seq<char>) -> Seq<char> {
    "      → "@ + action + "\n"@
}

pub fn action_line(action: &str) -> (r: String)
    ensures
        r@ == action_line_text(action@),
{
    let mut out = "      → ".to_owned();
    out.append(action);
    out.append("\n");
    out
}

/// What to do, if it is said.
pub open spec fn action_part(a: Option<Seq<char>>) -> Seq<char> {
    match a {
        Some(x) => action_line_text(x),
        None => Seq::empty(),
    }
}

fn action_of(a: &Option<String>) -> (r: String)
    ensures
        r@ == action_part(opt_view(*a)),
{
    match a {
        Some(x) => action_line(x.as_str()),
        None => {
            let r = String::new();
            proof {
                assert(r@ =~= Seq::empty());
            }
            r
        },
    }
}

/// Suggestions as text: those that matter first.
pub open spec fn suggestions_text(list: Seq<ProactiveSuggestionView>) -> Seq<char> {
    if list.len() == 0 {
        Seq::empty()
    } else {
        "\n--- SUGGESTIONS ---\n"@ + written(
            list.filter(|s: ProactiveSuggestionView| s.priority == "high"@),
            |s: ProactiveSuggestionView|
                high_line_text(s.message) + action_part(s.suggested_action),
        ) + written(
            list.filter(|s: ProactiveSuggestionView| s.priority == "medium"@),
            |s: ProactiveSuggestionView|
                medium_line_text(s.message) + action_part(s.suggested_action),
        ) + written(
            list.filter(|s: ProactiveSuggestionView| s.priority == "low"@),
            |s: ProactiveSuggestionView| low_line_text(s.message),
        ) + "---\n"@
    }
}

fn with_priority(list: &Vec<ProactiveSuggestion>, priority: &str) -> (r: Vec<ProactiveSuggestion>)
    ensures
        views(r@) == views(list@).filter(
            |s: ProactiveSuggestionView| s.priority == priority@,
        ),
{
    select(
        list,
        |s: &ProactiveSuggestion| -> (b: bool)
            ensures
                b == (s@.priority == priority@)
            { same(s.priority.as_str(), priority) },
        Ghost(|s: ProactiveSuggestionView| s.priority == priority@),
    )
}

/// Suggestions as text.
pub fn format_suggestions(suggestions: &Vec<ProactiveSuggestion>) -> (r: String)
    ensures
        r@ == suggestions_text(views(suggestions@)),
{
    proof {
        assert(views(suggestions@).len() == suggestions@.len());
    }
    if suggestions.len() == 0 {
        let r = String::new();
        proof {
            assert(r@ =~= Seq::empty());
        }
        return r;
    }
    let mut out = "\n--- SUGGESTIONS ---\n".to_owned();
    append_each(
        &mut out,
        &with_priority(suggestions, "high"),
        |s: &ProactiveSuggestion| -> (t: String)
            ensures
                t@ == high_line_text(s@.message) + action_part(s@.suggested_action)
            {
                let mut line = high_line(s.message.as_str());
                line.append(action_of(&s.suggested_action).as_str());
                line
            },
        Ghost(
            |s: ProactiveSuggestionView|
                high_line_text(s.message) + action_part(s.suggested_action),
        ),
    );
    append_each(
        &mut out,
        &with_priority(suggestions, "medium"),
        |s: &ProactiveSuggestion| -> (t: String)
            ensures
                t@ == medium_line_text(s@.message) + action_part(s@.suggested_action)
            {
                let mut line = medium_line(s.message.as_str());
                line.append(action_of(&s.suggested_action).as_str());
                line
            },
        Ghost(
            |s: ProactiveSuggestionView|
                medium_line_text(s.message) + action_part(s.suggested_action),
        ),
    );
    append_each(
        &mut out,
        &with_priority(suggestions, "low"),
        |s: &ProactiveSuggestion| -> (t: String)
            ensures
                t@ == low_line_text(s@.message)
            { low_line(s.message.as_str()) },
        Ghost(|s: ProactiveSuggestionView| low_line_text(s.message)),
    );
    out.append("---\n");
    out
}

} // verus!
