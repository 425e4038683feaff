//! What holds of every analysis of the memory and of the projects.

use crate::canonical::repository::by_id;
use crate::compatibility::lemma::analytics::{
    age, belongs, categories, category_of, completed_text, completions, coverage, coverage_of,
    covers, dominant, growth, insights, is_success, latest_text, memories_in, named_memories,
    named_sessions, of_type, progress_of, projects_in, recent_uses, sessions_in, strengths,
    total_usage, trains, trend, usage_in, WEEK,
};
use crate::compatibility::lemma::conflicts::conflicts_among;
use crate::compatibility::lemma::intelligence::{ProactiveSuggestionView, SkillCoverageView};
use crate::compatibility::lemma::proactive::{
    analysis, deprecated_advice, hot_advice, is_hot, is_orphan, is_unlearned, is_weak, low_quality,
    orphan_advice, quality, quality_advice, reasons, unlearned_advice, weak_advice, with_advice,
};
use crate::compatibility::lemma::tool_args::{ProactiveAnalysisArgs, ProjectAnalyticsArgs};
use crate::daemon::dispatcher::DispatcherView;
use crate::daemon::tools::analysis::{
    all_advice, live_in, most_used, proactive_analysis, project_analytics,
};
use crate::daemon::tools::data::ToolDataView;
use crate::daemon::tools::guide_laws::lemma_first_place;
use crate::daemon::tools::recall_laws::lemma_by_id;
use crate::dates::date_of;
use crate::domain::guide::GuideView;
use crate::domain::memory::{FragmentType, MemoryView};
use crate::domain::score::UNIT;
use crate::domain::session::{SessionView, TaskOutcome};
use crate::domain::state::StateView;
use crate::double::law_fractions_keep_their_order;
use crate::lists::{first, first_place};
use crate::overlap::distinct;
use crate::rank::{lemma_filter_keeps, lemma_ranked, lemma_ranked_order, ranked};
use crate::text::{law_with_texts, lowercase, opt_view, with_text};
use vstd::prelude::*;

verus! {

proof fn lemma_same_filter<V>(s: Seq<V>, p: spec_fn(V) -> bool, q: spec_fn(V) -> bool)
    requires
        forall|v: V| #[trigger] p(v) == q(v),
    ensures
        s.filter(p) == s.filter(q),
{
    assert(p =~= q);
}

// ---------------------------------------------------------------------------
// Advice
// ---------------------------------------------------------------------------

/// Archiving is advised if and only if a memory is trusted by less than two
/// tenths, and urgently if more than ten are.
pub proof fn law_faded_memories_are_told(ms: Seq<MemoryView>, faded: spec_fn(MemoryView) -> bool)
    requires
        forall|m: MemoryView| #[trigger] faded(m) <==> m.confidence.0 < 4_596_373_779_694_328_218,
    ensures
        weak_advice(ms) is Some <==> ms.filter(faded).len() > 0,
        weak_advice(ms) matches Some(a) ==> a.kind == "archive"@ && a.priority == (if ms.filter(
            faded,
        ).len() > 10 {
            "high"@
        } else {
            "medium"@
        }),
{
    lemma_same_filter(ms, faded, |m: MemoryView| is_weak(m));
}

/// Relating is advised if and only if more than half of the memories have no
/// relation and were used less than twice.
pub proof fn law_lone_memories_are_told(ms: Seq<MemoryView>, lone: spec_fn(MemoryView) -> bool)
    requires
        forall|m: MemoryView| #[trigger]
            lone(m) <==> m.relations.len() == 0 && m.access_count < 2,
    ensures
        orphan_advice(ms) is Some <==> 2 * ms.filter(lone).len() > ms.len(),
        orphan_advice(ms) matches Some(a) ==> a.kind == "relate"@ && a.priority == "medium"@,
{
    lemma_same_filter(ms, lone, |m: MemoryView| is_orphan(m));
}

/// It is told of guides that are deprecated, and of guides that were used three
/// times or more and have taught nothing, if and only if there are any.
pub proof fn law_guides_are_told(
    gs: Seq<GuideView>,
    old_one: spec_fn(GuideView) -> bool,
    mute: spec_fn(GuideView) -> bool,
)
    requires
        forall|g: GuideView| #[trigger] old_one(g) <==> g.deprecated,
        forall|g: GuideView| #[trigger]
            mute(g) <==> g.usage_count >= 3 && g.learnings.len() == 0,
    ensures
        deprecated_advice(gs) is Some <==> gs.filter(old_one).len() > 0,
        deprecated_advice(gs) matches Some(a) ==> a.kind == "archive"@ && a.priority == "low"@,
        unlearned_advice(gs) is Some <==> gs.filter(mute).len() > 0,
        unlearned_advice(gs) matches Some(a) ==> a.kind == "refine"@ && a.priority == "medium"@,
{
    lemma_same_filter(gs, old_one, |g: GuideView| g.deprecated);
    lemma_same_filter(gs, mute, |g: GuideView| is_unlearned(g));
}

/// Distilling is advised if and only if a pattern or a lesson was used five
/// times or more and went into no guide, and urgently if one was ten times.
pub proof fn law_hot_memories_are_told(ms: Seq<MemoryView>, hot: spec_fn(MemoryView) -> bool)
    requires
        forall|m: MemoryView| #[trigger]
            hot(m) <==> {
                &&& m.fragment_type is Pattern || m.fragment_type is Lesson
                &&& m.access_count >= 5
                &&& m.related_guides.len() == 0
            },
    ensures
        hot_advice(ms) is Some <==> ms.filter(hot).len() > 0,
        hot_advice(ms) matches Some(a) ==> a.kind == "distill"@ && a.priority == (if exists|j: int|
            0 <= j < ms.filter(hot).len() && (#[trigger] ms.filter(hot)[j]).access_count >= 10 {
            "high"@
        } else {
            "medium"@
        }),
{
    lemma_same_filter(ms, hot, |m: MemoryView| is_hot(m));
}

/// A memory that was blamed no more than it was praised, was hit less than twice
/// and never used gives no reason to doubt it; one that was blamed more, or was
/// hit twice or more, or was used three times and is trusted by less than four
/// tenths, does.
pub proof fn law_doubts_have_reasons(m: MemoryView, now: u64)
    ensures
        m.negative_feedback > m.positive_feedback ==> reasons(m, now).len() > 0,
        m.negative_hits >= 2 ==> reasons(m, now).len() > 0,
        m.access_count >= 3 && m.confidence.0 < 4_600_877_379_321_698_714 ==> reasons(
            m,
            now,
        ).len() > 0,
        m.negative_feedback <= m.positive_feedback && m.negative_hits < 2 && m.access_count == 0
            ==> reasons(m, now).len() == 0,
        reasons(m, now).len() == 0 ==> !low_quality(m, now),
{
}

/// An analysis gives each piece of advice that there is, and no other, and tells
/// urgently of memories that contradict each other.
pub proof fn law_analysis_gives_all_advice(ms: Seq<MemoryView>, gs: Seq<GuideView>, now: u64)
    ensures
        forall|a: ProactiveSuggestionView| #[trigger]
            analysis(ms, gs, now).contains(a) <==> {
                ||| weak_advice(ms) == Some(a)
                ||| orphan_advice(ms) == Some(a)
                ||| deprecated_advice(gs) == Some(a)
                ||| unlearned_advice(gs) == Some(a)
                ||| hot_advice(ms) == Some(a)
                ||| quality_advice(ms, now) == Some(a)
            },
        ({
            let pairs = conflicts_among(ms).len();
            let all = all_advice(ms, gs, now);
            &&& analysis(ms, gs, now).is_prefix_of(all)
            &&& all.len() == analysis(ms, gs, now).len() + if pairs > 0 {
                1int
            } else {
                0
            }
            &&& pairs > 0 ==> all.last().kind == "conflict"@ && all.last().priority == "high"@
        }),
{
    let l0 = Seq::<ProactiveSuggestionView>::empty();
    let l1 = with_advice(l0, weak_advice(ms));
    let l2 = with_advice(l1, orphan_advice(ms));
    let l3 = with_advice(l2, deprecated_advice(gs));
    let l4 = with_advice(l3, unlearned_advice(gs));
    let l5 = with_advice(l4, hot_advice(ms));
    let l6 = with_advice(l5, quality_advice(ms, now));
    assert(analysis(ms, gs, now) == l6);
    assert forall|a: ProactiveSuggestionView| #[trigger] l6.contains(a) <==> {
        ||| weak_advice(ms) == Some(a)
        ||| orphan_advice(ms) == Some(a)
        ||| deprecated_advice(gs) == Some(a)
        ||| unlearned_advice(gs) == Some(a)
        ||| hot_advice(ms) == Some(a)
        ||| quality_advice(ms, now) == Some(a)
    } by {
        lemma_with_advice(l0, weak_advice(ms), a);
        lemma_with_advice(l1, orphan_advice(ms), a);
        lemma_with_advice(l2, deprecated_advice(gs), a);
        lemma_with_advice(l3, unlearned_advice(gs), a);
        lemma_with_advice(l4, hot_advice(ms), a);
        lemma_with_advice(l5, quality_advice(ms, now), a);
    }
}

proof fn lemma_with_advice(
    list: Seq<ProactiveSuggestionView>,
    more: Option<ProactiveSuggestionView>,
    a: ProactiveSuggestionView,
)
    ensures
        with_advice(list, more).contains(a) <==> list.contains(a) || more == Some(a),
{
    if let Some(x) = more {
        let all = list.push(x);
        assert(all[list.len() as int] == x);
        if list.contains(a) {
            assert(all[list.index_of(a)] == a);
        }
        if all.contains(a) {
            let k = all.index_of(a);
            if k < list.len() {
                assert(list[k] == a);
            }
        }
    }
}

/// An analysis is of the live memories of the project that is named and of none,
/// or of all live memories, and of all guides; it says how many there are.
pub proof fn law_analysis_is_of_live_memories(s: StateView, args: ProactiveAnalysisArgs)
    ensures
        exists|ms: Seq<MemoryView>|
            {
                &&& forall|m: MemoryView| #[trigger]
                    ms.contains(m) <==> s.memories.contains(m) && m.lifecycle is Live && (
                    args.project is None || m.project is None || m.project == Some(
                        args.project->0@,
                    ))
                &&& proactive_analysis(s, args).structured == Some(
                    ToolDataView::Analysis {
                        analyzed_memories: ms.len() as usize,
                        analyzed_guides: s.guides.len() as usize,
                        suggestions: #[trigger] all_advice(ms, s.guides, s.now),
                    },
                )
            },
{
    reveal(proactive_analysis);
    let project = opt_view(args.project);
    let keep = |m: MemoryView|
        m.lifecycle is Live && (project is None || m.project is None || m.project == project);
    lemma_by_id(s.memories);
    lemma_filter_keeps(by_id(s.memories), keep);
    let ms = live_in(s, project);
    assert(ms == by_id(s.memories).filter(keep));
    assert(proactive_analysis(s, args).structured == Some(
        ToolDataView::Analysis {
            analyzed_memories: ms.len() as usize,
            analyzed_guides: s.guides.len() as usize,
            suggestions: all_advice(ms, s.guides, s.now),
        },
    ));
}

// ---------------------------------------------------------------------------
// Projects
// ---------------------------------------------------------------------------

/// The sessions and memories of a project are those that name it, whatever the
/// case of the name; the latest come first.
pub proof fn law_project_has_its_own(
    ss: Seq<SessionView>,
    ms: Seq<MemoryView>,
    project: Seq<char>,
)
    ensures
        forall|s: SessionView| #[trigger]
            sessions_in(ss, project).contains(s) <==> ss.contains(s) && s.project is Some
                && lowercase(s.project->0) == lowercase(project),
        forall|m: MemoryView| #[trigger]
            memories_in(ms, project).contains(m) <==> ms.contains(m) && m.project is Some
                && lowercase(m.project->0) == lowercase(project),
        forall|i: int, j: int|
            0 <= i < j < sessions_in(ss, project).len() ==> (#[trigger] sessions_in(
                ss,
                project,
            )[i]).started_at.0 >= (#[trigger] sessions_in(ss, project)[j]).started_at.0,
        forall|i: int, j: int|
            0 <= i < j < memories_in(ms, project).len() ==> (#[trigger] memories_in(
                ms,
                project,
            )[i]).created_at.0 >= (#[trigger] memories_in(ms, project)[j]).created_at.0,
{
    let of_s = |s: SessionView| belongs(s.project, project);
    let of_m = |m: MemoryView| belongs(m.project, project);
    let key_s = |s: SessionView| (-(s.started_at.0 as int), 0int);
    let key_m = |m: MemoryView| (-(m.created_at.0 as int), 0int);
    lemma_filter_keeps(ss, of_s);
    lemma_filter_keeps(ms, of_m);
    lemma_ranked(ss.filter(of_s), key_s);
    lemma_ranked(ms.filter(of_m), key_m);
    lemma_ranked_order(ss.filter(of_s), key_s);
    lemma_ranked_order(ms.filter(of_m), key_m);
    assert(sessions_in(ss, project) == ranked(ss.filter(of_s), key_s));
    assert(memories_in(ms, project) == ranked(ms.filter(of_m), key_m));
    assert forall|s: SessionView| #[trigger] sessions_in(ss, project).contains(s) <==> ss.contains(
        s,
    ) && s.project is Some && lowercase(s.project->0) == lowercase(project) by {
        assert(ranked(ss.filter(of_s), key_s).contains(s) <==> ss.filter(of_s).contains(s));
    }
    assert forall|m: MemoryView| #[trigger] memories_in(ms, project).contains(m) <==> ms.contains(
        m,
    ) && m.project is Some && lowercase(m.project->0) == lowercase(project) by {
        assert(ranked(ms.filter(of_m), key_m).contains(m) <==> ms.filter(of_m).contains(m));
    }
}

/// A report on a project counts its sessions, its memories and all guides, and
/// its health is one at most.
pub proof fn law_report_counts(
    project: Seq<char>,
    ss: Seq<SessionView>,
    ms: Seq<MemoryView>,
    gs: Seq<GuideView>,
    now: u64,
)
    ensures
        ({
            let p = progress_of(project, ss, ms, gs, now);
            &&& p.project == project
            &&& p.total_sessions == sessions_in(ss, project).len() as usize
            &&& p.total_memories == memories_in(ms, project).len() as usize
            &&& p.total_guides == gs.len() as usize
            &&& p.health_score.0 <= UNIT
            &&& p.recent_insights.len() <= 8
        }),
{
}

/// Knowledge grows by nothing where there are fewer than two memories; where
/// there are, and none is from the week before the last, it grows by one if any
/// is from the last week, and else by nothing.
pub proof fn law_growth_of_the_first_weeks(
    ms: Seq<MemoryView>,
    now: u64,
    new_one: spec_fn(MemoryView) -> bool,
    older: spec_fn(MemoryView) -> bool,
)
    requires
        forall|m: MemoryView| #[trigger] new_one(m) <==> now - m.created_at.0 < 604_800_000,
        forall|m: MemoryView| #[trigger]
            older(m) <==> 604_800_000 <= now - m.created_at.0 < 1_209_600_000,
    ensures
        ms.len() < 2 ==> growth(ms, now) == 0,
        ms.len() >= 2 && ms.filter(older).len() == 0 ==> growth(ms, now) == (if ms.filter(
            new_one,
        ).len() > 0 {
            100nat
        } else {
            0
        }),
{
    lemma_same_filter(ms, new_one, |m: MemoryView| age(m.created_at.0, now) < WEEK);
    lemma_same_filter(
        ms,
        older,
        |m: MemoryView| WEEK <= age(m.created_at.0, now) < 2 * WEEK,
    );
}

/// A skill grows where more than three tenths of its uses are recent, declines
/// where it was used more than five times and fewer than a twentieth are, and is
/// stable otherwise.
pub proof fn law_trend_follows_the_share(total: int, recent: int)
    requires
        0 <= recent < 0x100_0000_0000,
        0 <= total < 0x100_0000_0000,
    ensures
        total == 0 ==> trend(total, recent) == "stable"@,
        total > 0 && 10 * recent > 3 * total ==> trend(total, recent) == "growing"@,
        total > 5 && 20 * recent < total ==> trend(total, recent) == "declining"@,
        total > 0 && 10 * recent < 3 * total && (total <= 5 || 20 * recent > total) ==> trend(
            total,
            recent,
        ) == "stable"@,
{
    if total > 0 {
        law_fractions_keep_their_order(recent as nat, total as nat, 3, 10);
        law_fractions_keep_their_order(recent as nat, total as nat, 1, 20);
    }
}

/// Uses add up over guides, and by category.
pub proof fn law_usage_adds_up(gs: Seq<GuideView>, g: GuideView, category: Seq<char>)
    ensures
        total_usage(Seq::empty()) == 0,
        total_usage(gs.push(g)) == total_usage(gs) + g.usage_count,
        usage_in(Seq::empty(), category) == 0,
        usage_in(gs.push(g), category) == usage_in(gs, category) + if category_of(g) == category {
            g.usage_count as int
        } else {
            0
        },
        g.category.len() > 0 ==> category_of(g) == g.category,
{
    assert(gs.push(g).drop_last() =~= gs);
}

/// The skills of a project are the categories of its guides, each once with its
/// uses; none is followed by one that was used more.
pub proof fn law_skills_are_by_use(ss: Seq<SessionView>, gs: Seq<GuideView>, now: u64)
    ensures
        ({
            let list = coverage(ss, gs, now);
            &&& forall|i: int, j: int|
                0 <= i < j < list.len() ==> (#[trigger] list[i]).count >= (#[trigger] list[j]).count
            &&& forall|i: int|
                0 <= i < list.len() ==> (#[trigger] list[i]).count == usage_in(
                    gs,
                    list[i].category,
                ) as u32
            &&& forall|k: int|
                0 <= k < gs.len() ==> exists|i: int|
                    0 <= i < list.len() && (#[trigger] list[i]).category == category_of(
                        #[trigger] gs[k],
                    )
        }),
{
    let names = gs.map_values(|g: GuideView| category_of(g));
    let one = |c: Seq<char>| coverage_of(c, ss, gs, now);
    let key = |s: SkillCoverageView| (-(s.count as int), 0int);
    law_with_texts(Seq::empty(), names);
    let cats = categories(gs);
    assert(cats == distinct(names));
    let all = cats.map_values(one);
    lemma_ranked(all, key);
    lemma_ranked_order(all, key);
    let list = coverage(ss, gs, now);
    assert(list == ranked(all, key));
    assert forall|i: int| 0 <= i < list.len() implies (#[trigger] list[i]).count == usage_in(
        gs,
        list[i].category,
    ) as u32 by {
        assert(list.contains(list[i]));
        assert(all.contains(list[i]));
        let k = all.index_of(list[i]);
        assert(all[k] == one(cats[k]));
    }
    assert forall|k: int| 0 <= k < gs.len() implies exists|i: int|
        0 <= i < list.len() && (#[trigger] list[i]).category == category_of(#[trigger] gs[k]) by {
        assert(names[k] == category_of(gs[k]));
        assert(names.contains(names[k]));
        assert(cats.contains(names[k]));
        let c = cats.index_of(names[k]);
        assert(all[c] == one(cats[c]));
        assert(all.contains(all[c]));
        assert(list.contains(all[c]));
        let i = list.index_of(all[c]);
        assert(list[i].category == category_of(gs[k]));
    }
}

/// The type that is told of strong memories is one that no other outnumbers.
pub proof fn law_dominant_type_is_most_frequent(ms: Seq<MemoryView>, t: FragmentType)
    ensures
        of_type(ms, dominant(ms)) >= of_type(ms, t),
{
}

proof fn lemma_named_sessions(list: Seq<Seq<char>>, ss: Seq<SessionView>)
    ensures
        list.no_duplicates() ==> named_sessions(list, ss).no_duplicates(),
        forall|p: Seq<char>| #[trigger]
            named_sessions(list, ss).contains(p) <==> list.contains(p) || exists|i: int|
                0 <= i < ss.len() && (#[trigger] ss[i]).project == Some(p),
    decreases ss.len(),
{
    if ss.len() > 0 {
        let front = ss.drop_last();
        lemma_named_sessions(list, front);
        let rest = named_sessions(list, front);
        let all = named_sessions(list, ss);
        if let Some(q) = ss.last().project {
            law_with_texts(rest, seq![q]);
            lemma_one_more(rest, q);
        }
        assert forall|p: Seq<char>| #[trigger] all.contains(p) <==> list.contains(p) || exists|i: int|
            0 <= i < ss.len() && (#[trigger] ss[i]).project == Some(p) by {
            if exists|i: int| 0 <= i < ss.len() && (#[trigger] ss[i]).project == Some(p) {
                let i = choose|i: int| 0 <= i < ss.len() && (#[trigger] ss[i]).project == Some(p);
                if i < front.len() {
                    assert(front[i].project == Some(p));
                    assert(rest.contains(p));
                }
            }
            if rest.contains(p) && !list.contains(p) {
                let i = choose|i: int|
                    0 <= i < front.len() && (#[trigger] front[i]).project == Some(p);
                assert(ss[i].project == Some(p));
            }
            assert(ss[ss.len() - 1] == ss.last());
        }
    }
}

proof fn lemma_named_memories(list: Seq<Seq<char>>, ms: Seq<MemoryView>)
    ensures
        list.no_duplicates() ==> named_memories(list, ms).no_duplicates(),
        forall|p: Seq<char>| #[trigger]
            named_memories(list, ms).contains(p) <==> list.contains(p) || exists|i: int|
                0 <= i < ms.len() && (#[trigger] ms[i]).project == Some(p),
    decreases ms.len(),
{
    if ms.len() > 0 {
        let front = ms.drop_last();
        lemma_named_memories(list, front);
        let rest = named_memories(list, front);
        let all = named_memories(list, ms);
        if let Some(q) = ms.last().project {
            lemma_one_more(rest, q);
        }
        assert forall|p: Seq<char>| #[trigger] all.contains(p) <==> list.contains(p) || exists|i: int|
            0 <= i < ms.len() && (#[trigger] ms[i]).project == Some(p) by {
            if exists|i: int| 0 <= i < ms.len() && (#[trigger] ms[i]).project == Some(p) {
                let i = choose|i: int| 0 <= i < ms.len() && (#[trigger] ms[i]).project == Some(p);
                if i < front.len() {
                    assert(front[i].project == Some(p));
                    assert(rest.contains(p));
                }
            }
            if rest.contains(p) && !list.contains(p) {
                let i = choose|i: int|
                    0 <= i < front.len() && (#[trigger] front[i]).project == Some(p);
                assert(ms[i].project == Some(p));
            }
            assert(ms[ms.len() - 1] == ms.last());
        }
    }
}

proof fn lemma_one_more(list: Seq<Seq<char>>, t: Seq<char>)
    ensures
        list.no_duplicates() ==> with_text(list, t).no_duplicates(),
        forall|x: Seq<char>| #[trigger]
            with_text(list, t).contains(x) <==> list.contains(x) || x == t,
{
    let all = with_text(list, t);
    if !list.contains(t) {
        assert(all == list.push(t));
        assert(all[list.len() as int] == t);
        assert forall|x: Seq<char>| #[trigger] all.contains(x) <==> list.contains(x) || x == t by {
            if list.contains(x) {
                assert(all[list.index_of(x)] == x);
            }
            if all.contains(x) {
                let i = all.index_of(x);
                if i < list.len() {
                    assert(list[i] == x);
                }
            }
        }
    }
}

/// The projects are those that a session or a live memory names, each once.
pub proof fn law_projects_are_those_named(ss: Seq<SessionView>, ms: Seq<MemoryView>)
    ensures
        projects_in(ss, ms).no_duplicates(),
        forall|p: Seq<char>| #[trigger]
            projects_in(ss, ms).contains(p) <==> {
                ||| exists|i: int| 0 <= i < ss.len() && (#[trigger] ss[i]).project == Some(p)
                ||| exists|i: int| 0 <= i < ms.len() && (#[trigger] ms[i]).project == Some(p)
            },
{
    lemma_named_sessions(Seq::empty(), ss);
    lemma_named_memories(named_sessions(Seq::empty(), ss), ms);
}

/// Asked for a project, the report is on it; asked for none, there is one on
/// each.
pub proof fn law_report_is_on_the_project(d: DispatcherView, args: ProjectAnalyticsArgs)
    ensures
        ({
            let ss = d.registry.sessions;
            let ms = live_in(d.store, None);
            let gs = most_used(d.store.guides);
            let r = project_analytics(d, args);
            &&& !r.is_error
            &&& args.project is Some ==> r.structured == Some(
                ToolDataView::Project(
                    progress_of(args.project->0@, ss, ms, gs, d.store.now),
                ),
            )
            &&& args.project is None ==> {
                &&& r.structured matches Some(ToolDataView::Projects { projects })
                &&& projects.len() == projects_in(ss, ms).len()
                &&& forall|i: int|
                    0 <= i < projects.len() ==> (#[trigger] projects[i]).project == projects_in(
                        ss,
                        ms,
                    )[i]
            }
        }),
{
    reveal(project_analytics);
}

/// Refining is advised if and only if there is a reason to doubt a memory that
/// is worth less than thirty-five hundredths, and urgently if there are more
/// than five.
pub proof fn law_poor_memories_are_told(
    ms: Seq<MemoryView>,
    now: u64,
    poor: spec_fn(MemoryView) -> bool,
)
    requires
        forall|m: MemoryView| #[trigger]
            poor(m) <==> reasons(m, now).len() > 0 && quality(m, now) < 350,
    ensures
        quality_advice(ms, now) is Some <==> ms.filter(poor).len() > 0,
        quality_advice(ms, now) matches Some(a) ==> a.kind == "refine"@ && a.priority == (
        if ms.filter(poor).len() > 5 {
            "high"@
        } else {
            "medium"@
        }),
{
    lemma_same_filter(ms, poor, |m: MemoryView| low_quality(m, now));
}

/// The uses of late are those in sessions of the last week: of each, the
/// technologies whose first guide is of the category.
pub proof fn law_uses_of_late_add_up(
    ss: Seq<SessionView>,
    s: SessionView,
    gs: Seq<GuideView>,
    category: Seq<char>,
    now: u64,
    of_it: spec_fn(Seq<char>) -> bool,
)
    requires
        forall|t: Seq<char>| #[trigger]
            of_it(t) <==> exists|i: int|
                {
                    &&& 0 <= i < gs.len()
                    &&& (#[trigger] gs[i]).name == t || gs[i].contexts.contains(t)
                    &&& category_of(gs[i]) == category
                    &&& forall|k: int|
                        0 <= k < i ==> (#[trigger] gs[k]).name != t && !gs[k].contexts.contains(t)
                },
    ensures
        recent_uses(Seq::empty(), gs, category, now) == 0,
        recent_uses(ss.push(s), gs, category, now) == recent_uses(ss, gs, category, now)
            + if now - s.started_at.0 < 604_800_000 {
            s.technologies.filter(of_it).len() as int
        } else {
            0
        },
{
    assert(ss.push(s).drop_last() =~= ss);
    assert forall|t: Seq<char>| #[trigger] of_it(t) == trains(gs, t, category) by {
        let cond = |g: GuideView| covers(g, t);
        lemma_first_place(gs, cond, 0);
        let p = first_place(gs, cond, 0);
        if trains(gs, t, category) {
            assert(covers(gs[p], t));
            assert forall|k: int| 0 <= k < p implies (#[trigger] gs[k]).name != t
                && !gs[k].contexts.contains(t) by {
                assert(!cond(gs[k]));
            }
        }
        if of_it(t) {
            let i = choose|i: int|
                {
                    &&& 0 <= i < gs.len()
                    &&& (#[trigger] gs[i]).name == t || gs[i].contexts.contains(t)
                    &&& category_of(gs[i]) == category
                    &&& forall|k: int|
                        0 <= k < i ==> (#[trigger] gs[k]).name != t && !gs[k].contexts.contains(t)
                };
            if p < i {
                assert(cond(gs[p]));
            }
            if i < p {
                assert(!cond(gs[i]));
            }
        }
    }
    lemma_same_filter(s.technologies, of_it, |t: Seq<char>| trains(gs, t, category));
}

proof fn lemma_completions(ss: Seq<SessionView>, i: int)
    requires
        0 <= i < ss.len(),
        ss[i].task_type is Some,
    ensures
        completions(ss).contains(
            completed_text(ss[i].task_type->0, date_of(ss[i].started_at.0)),
        ),
        completions(ss).len() <= ss.len(),
    decreases ss.len(),
{
    let front = ss.drop_last();
    let rest = completions(front);
    let all = completions(ss);
    lemma_completions_few(front);
    let line = completed_text(ss[i].task_type->0, date_of(ss[i].started_at.0));
    if i < front.len() {
        lemma_completions(front, i);
        assert(all[rest.index_of(line)] == line);
    } else {
        assert(all[rest.len() as int] == line);
    }
}

proof fn lemma_completions_few(ss: Seq<SessionView>)
    ensures
        completions(ss).len() <= ss.len(),
    decreases ss.len(),
{
    if ss.len() > 0 {
        lemma_completions_few(ss.drop_last());
    }
}

/// What happened of late tells of each of the first three sessions that were a
/// success and had a task, and of the first three memories.
pub proof fn law_insights_tell_what_went_well(
    ss: Seq<SessionView>,
    ms: Seq<MemoryView>,
    won: spec_fn(SessionView) -> bool,
    i: int,
)
    requires
        forall|s: SessionView| #[trigger] won(s) <==> s.outcome == Some(TaskOutcome::Success),
        0 <= i < 3,
    ensures
        i < ss.filter(won).len() && ss.filter(won)[i].task_type is Some ==> insights(
            ss,
            ms,
        ).contains(
            "Completed "@ + ss.filter(won)[i].task_type->0 + " task successfully ("@ + date_of(
                ss.filter(won)[i].started_at.0,
            ) + ")"@,
        ),
        i < ms.len() ==> insights(ss, ms).contains(
            "Recent: \""@ + ms[i].title + "\" ("@ + ms[i].fragment_type.name() + ")"@,
        ),
{
    lemma_same_filter(ss, won, |s: SessionView| is_success(s));
    let good = first(ss.filter(won), 3);
    let a = completions(good);
    let b = strengths(ms);
    let c = first(ms, 3).map_values(
        |m: MemoryView| latest_text(m.title, m.fragment_type.name()),
    );
    lemma_completions_few(good);
    assert(a.len() <= 3 && b.len() <= 1 && c.len() <= 3);
    let all = insights(ss, ms);
    assert(all =~= a + b + c);
    if i < ss.filter(won).len() && ss.filter(won)[i].task_type is Some {
        lemma_completions(good, i);
        let line = completed_text(good[i].task_type->0, date_of(good[i].started_at.0));
        assert(all[a.index_of(line)] == line);
    }
    if i < ms.len() {
        assert(all[a.len() + b.len() + i] == c[i]);
    }
}

} // verus!
