//! What holds of every look at the whole of the memory.

use crate::canonical::repository::{by_id, edges_by_id, looked_up};
use crate::compatibility::lemma::tool_args::{MemoryAuditArgs, MemoryLibraryArgs, MemoryStatsArgs};
use crate::daemon::tools::data::ToolDataView;
use crate::daemon::tools::library::{
    age_of, degree, edge_figures, fifth, is_of, is_stale, library_limit, library_of, library_offset,
    memory_library, out_degree, shelf, shelf_entry, signals_of, span,
};
use crate::daemon::tools::recall_laws::{lemma_by_id, lemma_page};
use crate::daemon::tools::stats::{
    asked_project, audit_of, counts, edge_issues, edges_issues, figures_of, lost_links,
    memories_issues, memory_audit, memory_issues, memory_stats, repeated, scope_name, stats_of,
    HIGH, LOW,
};
use crate::daemon::tools::tally::tally;
use crate::domain::id::EntityId;
use crate::domain::memory::MemoryView;
use crate::domain::relation::RelationView;
use crate::domain::state::{has_memory, unique_memories, StateView};
use crate::lists::page;
use crate::rank::{
    law_ranking_is_stable, lemma_filter_keeps, lemma_order_holds, lemma_ranked, lemma_ranked_order,
    order_of, ranked,
};
use crate::signed::mean;
use crate::text::{lowercase, opt_view, trimmed};
use vstd::prelude::*;

verus! {

/// The library holds the memories of the project that is named, or all, live or
/// not, and puts none before one that is trusted more.
pub proof fn law_library_is_by_trust(s: StateView, project: Option<Seq<char>>)
    ensures
        forall|m: MemoryView| #[trigger]
            shelf(s, project).contains(m) <==> s.memories.contains(m) && (project is None
                || m.project == Some(lowercase(trimmed(project->0)))),
        forall|i: int, j: int|
            0 <= i < j < shelf(s, project).len() ==> (#[trigger] shelf(s, project)[i]).confidence.0
                >= (#[trigger] shelf(s, project)[j]).confidence.0,
{
    let keep = |m: MemoryView| is_of(m, project);
    let key = |m: MemoryView| (-(m.confidence.0 as int), 0int);
    lemma_by_id(s.memories);
    lemma_filter_keeps(by_id(s.memories), keep);
    let all = by_id(s.memories).filter(keep);
    lemma_ranked(all, key);
    lemma_ranked_order(all, key);
    assert(shelf(s, project) == ranked(all, key));
    assert forall|m: MemoryView| #[trigger] shelf(s, project).contains(m) <==> s.memories.contains(
        m,
    ) && (project is None || m.project == Some(lowercase(trimmed(project->0)))) by {
        assert(ranked(all, key).contains(m) <==> all.contains(m));
    }
}

/// The library shows a page of its memories: as many as were asked for, from one
/// to two hundred, or fifty; each with its own figures.
pub proof fn law_library_shows_a_page(s: StateView, args: MemoryLibraryArgs)
    ensures
        ({
            let all = shelf(s, opt_view(args.project));
            let from = if args.offset is Some {
                args.offset->0 as int
            } else {
                0
            };
            let limit = if args.limit is None {
                50int
            } else if args.limit->0 < 1 {
                1
            } else if args.limit->0 > 200 {
                200
            } else {
                args.limit->0 as int
            };
            let r = memory_library(s, args);
            &&& !r.is_error
            &&& r.structured matches Some(ToolDataView::Library(x))
            &&& x.fragments_total == all.len() as usize
            &&& x.fragments.len() == if from >= all.len() {
                0
            } else if from + limit < all.len() {
                limit
            } else {
                all.len() - from
            }
            &&& forall|i: int|
                0 <= i < x.fragments.len() ==> {
                    let shown = #[trigger] x.fragments[i];
                    let m = all[from + i];
                    &&& shown.title == m.title
                    &&& shown.confidence == m.confidence
                    &&& shown.project == m.project
                    &&& shown.access_count == m.access_count
                    &&& shown.positive_feedback == m.positive_feedback
                    &&& shown.negative_feedback == m.negative_feedback
                    &&& shown.distill_candidate == m.distill_candidate
                    &&& shown.age_days == if s.now > m.created_at.0 {
                        (s.now - m.created_at.0) / 86_400_000
                    } else {
                        0
                    }
                    &&& m.external_alias is Some ==> shown.id == m.external_alias->0
                }
            &&& x.has_more == (from + limit < all.len())
            &&& x.next_offset == if from + limit < all.len() {
                (from + limit) as usize
            } else {
                0
            }
        }),
{
    reveal(memory_library);
    let all = shelf(s, opt_view(args.project));
    lemma_page(all, library_offset(args), library_limit(args));
    let ms = page(all, library_offset(args), library_limit(args));
    let x = library_of(s, args);
    assert(x.fragments == ms.map_values(|m: MemoryView| shelf_entry(m, s.now)));
    assert(x.fragments.len() == ms.len());
    assert forall|i: int| 0 <= i < ms.len() implies #[trigger] x.fragments[i] == shelf_entry(
        all[library_offset(args) + i],
        s.now,
    ) by {
        assert(ms[i] == all[library_offset(args) + i]);
    }
}

/// Conditions that agree keep the same records.
proof fn lemma_same_filter<V>(s: Seq<V>, p: spec_fn(V) -> bool, q: spec_fn(V) -> bool)
    requires
        forall|v: V| #[trigger] p(v) == q(v),
    ensures
        s.filter(p) == s.filter(q),
{
    assert(p =~= q);
}

/// The library counts a memory in the fifth that it is trusted by, and in the
/// span that its age falls into.
pub proof fn law_library_counts_by_trust(
    ms: Seq<MemoryView>,
    now: u64,
    k: int,
    within: spec_fn(MemoryView) -> bool,
)
    requires
        0 <= k < 5,
        forall|m: MemoryView| #[trigger]
            within(m) <==> {
                let c = m.confidence.0;
                &&& k == 0 ==> c < 4_596_373_779_694_328_218
                &&& k == 1 ==> 4_596_373_779_694_328_218 <= c < 4_600_877_379_321_698_714
                &&& k == 2 ==> 4_600_877_379_321_698_714 <= c < 4_603_579_539_098_121_011
                &&& k == 3 ==> 4_603_579_539_098_121_011 <= c < 4_605_380_978_949_069_210
                &&& k == 4 ==> 4_605_380_978_949_069_210 <= c
            },
    ensures
        signals_of(ms, now).confidence_distribution.len() == 5,
        signals_of(ms, now).confidence_distribution[k].count == ms.filter(within).len() as u64,
        signals_of(ms, now).confidence_distribution[k].name == (if k == 0 {
            "0.0-0.2"@
        } else if k == 1 {
            "0.2-0.4"@
        } else if k == 2 {
            "0.4-0.6"@
        } else if k == 3 {
            "0.6-0.8"@
        } else {
            "0.8-1.0"@
        }),
{
    lemma_same_filter(ms, within, |m: MemoryView| fifth(m.confidence) == k);
    assert(k == 0 || k == 1 || k == 2 || k == 3 || k == 4);
}

/// The library counts a memory in the span that its age falls into.
pub proof fn law_library_counts_by_age(
    ms: Seq<MemoryView>,
    now: u64,
    k: int,
    within: spec_fn(MemoryView) -> bool,
)
    requires
        0 <= k < 4,
        forall|m: MemoryView| #[trigger]
            within(m) <==> {
                let age = now - m.created_at.0;
                &&& k == 0 ==> 30 * 86_400_000 <= age < 90 * 86_400_000
                &&& k == 1 ==> 7 * 86_400_000 <= age < 30 * 86_400_000
                &&& k == 2 ==> age < 7 * 86_400_000
                &&& k == 3 ==> 90 * 86_400_000 <= age
            },
    ensures
        signals_of(ms, now).age_distribution.len() == 4,
        signals_of(ms, now).age_distribution[k].count == ms.filter(within).len() as u64,
        signals_of(ms, now).age_distribution[k].name == (if k == 0 {
            "30-90"@
        } else if k == 1 {
            "7-30"@
        } else if k == 2 {
            "< 7"@
        } else {
            "> 90"@
        }),
{
    let n: int = if k == 0 {
        2
    } else if k == 1 {
        1
    } else if k == 2 {
        0
    } else {
        3
    };
    lemma_same_filter(ms, within, |m: MemoryView| span(age_of(m, now)) == n);
    assert(k == 0 || k == 1 || k == 2 || k == 3);
}

/// The library calls a memory stale if and only if it was never used, is older
/// than thirty days and is trusted by less than a half.
pub proof fn law_library_names_the_stale(
    ms: Seq<MemoryView>,
    now: u64,
    stale: spec_fn(MemoryView) -> bool,
)
    requires
        forall|m: MemoryView| #[trigger]
            stale(m) <==> {
                &&& m.access_count == 0
                &&& now - m.created_at.0 >= 31 * 86_400_000
                &&& m.confidence.0 < 4_602_678_819_172_646_912
            },
    ensures
        signals_of(ms, now).stale_fragments.len() == ms.filter(stale).len(),
        forall|i: int|
            0 <= i < ms.filter(stale).len() ==> (#[trigger] signals_of(
                ms,
                now,
            ).stale_fragments[i]).title == ms.filter(stale)[i].title && signals_of(
                ms,
                now,
            ).stale_fragments[i].confidence == ms.filter(stale)[i].confidence,
{
    lemma_same_filter(ms, stale, |m: MemoryView| is_stale(m, now));
}

/// The library lists what waits to be distilled, and counts what was never used.
pub proof fn law_library_lists_the_candidates(ms: Seq<MemoryView>, now: u64)
    ensures
        ({
            let waiting = ms.filter(|m: MemoryView| m.distill_candidate);
            let x = signals_of(ms, now);
            &&& x.distill_candidates.len() == waiting.len()
            &&& forall|i: int|
                0 <= i < waiting.len() ==> (#[trigger] x.distill_candidates[i]).title
                    == waiting[i].title
            &&& x.never_accessed_count == ms.filter(
                |m: MemoryView| m.access_count == 0,
            ).len() as u64
        }),
{
}

/// The library calls a memory isolated if and only if no edge touches it, and a
/// hub if and only if five edges or more go out from it.
pub proof fn law_library_reads_the_graph(
    ms: Seq<MemoryView>,
    es: Seq<RelationView>,
    isolated: spec_fn(MemoryView) -> bool,
    busy: spec_fn(MemoryView) -> bool,
)
    requires
        forall|m: MemoryView| #[trigger]
            isolated(m) <==> forall|i: int|
                0 <= i < es.len() ==> (#[trigger] es[i]).source != m.id && es[i].target != m.id,
        forall|m: MemoryView| #[trigger]
            busy(m) <==> es.filter(|e: RelationView| e.source == m.id).len() >= 5,
    ensures
        edge_figures(ms, es).total == es.len() as usize,
        edge_figures(ms, es).isolated_fragment_ids.len() == ms.filter(isolated).len(),
        edge_figures(ms, es).hub_fragments.len() == ms.filter(busy).len(),
        forall|i: int|
            0 <= i < ms.filter(busy).len() ==> (#[trigger] edge_figures(
                ms,
                es,
            ).hub_fragments[i]).title == ms.filter(busy)[i].title,
        forall|i: int|
            0 <= i < ms.filter(isolated).len() && ms.filter(isolated)[i].external_alias is Some
                ==> #[trigger] edge_figures(ms, es).isolated_fragment_ids[i] == ms.filter(
                isolated,
            )[i].external_alias->0,
{
    assert forall|m: MemoryView| #[trigger] isolated(m) == (degree(es, m.id) == 0) by {
        lemma_degree(es, m.id);
    }
    assert forall|m: MemoryView| #[trigger] busy(m) == (out_degree(es, m.id) >= 5) by {
        lemma_out_degree(es, m);
    }
    lemma_same_filter(ms, isolated, |m: MemoryView| degree(es, m.id) == 0);
    lemma_same_filter(ms, busy, |m: MemoryView| out_degree(es, m.id) >= 5);
}

proof fn lemma_out_degree(es: Seq<RelationView>, m: MemoryView)
    ensures
        out_degree(es, m.id) == es.filter(|e: RelationView| e.source == m.id).len(),
{
    let id = m.id;
    lemma_same_filter(
        es,
        |e: RelationView| e.source == id,
        |e: RelationView| e.source == m.id,
    );
}

proof fn lemma_degree(es: Seq<RelationView>, id: EntityId)
    ensures
        degree(es, id) == 0 <==> forall|i: int|
            0 <= i < es.len() ==> (#[trigger] es[i]).source != id && es[i].target != id,
{
    let touches = |e: RelationView| e.source == id || e.target == id;
    lemma_filter_keeps(es, touches);
    let f = es.filter(touches);
    assert(degree(es, id) == f.len());
    if f.len() > 0 {
        assert(f.contains(f[0]));
        assert(es.contains(f[0]));
        let i = es.index_of(f[0]);
        assert(es[i].source == id || es[i].target == id);
    } else {
        assert forall|i: int| 0 <= i < es.len() implies (#[trigger] es[i]).source != id
            && es[i].target != id by {
            if touches(es[i]) {
                assert(es.contains(es[i]));
                assert(f.contains(es[i]));
            }
        }
    }
}

/// The figures are of the memories of the project that is named, or of all: how
/// many there are, how many are trusted by less than three tenths, and how many
/// by more than eight.
pub proof fn law_stats_count_the_memories(
    s: StateView,
    args: MemoryStatsArgs,
    of: spec_fn(MemoryView) -> bool,
    low: spec_fn(MemoryView) -> bool,
    high: spec_fn(MemoryView) -> bool,
)
    requires
        forall|m: MemoryView| #[trigger]
            of(m) <==> {
                let key = lowercase(trimmed(args.project->0@));
                ||| args.project is None
                ||| key.len() == 0
                ||| m.project is Some && lowercase(m.project->0) == key
            },
        forall|m: MemoryView| #[trigger] low(m) <==> m.confidence.0 < 4_599_075_939_470_750_515,
        forall|m: MemoryView| #[trigger] high(m) <==> m.confidence.0 > 4_605_380_978_949_069_210,
    ensures
        ({
            let all = by_id(s.memories).filter(of);
            let r = memory_stats(s, args);
            &&& !r.is_error
            &&& r.structured matches Some(ToolDataView::Stats(x))
            &&& x.total == all.len() as usize
            &&& all.len() > 0 ==> x.low_confidence == Some(all.filter(low).len() as u64)
            &&& all.len() > 0 ==> x.high_confidence == Some(all.filter(high).len() as u64)
            &&& all.len() == 0 ==> x.low_confidence is None && x.high_confidence is None
        }),
{
    reveal(memory_stats);
    let p = asked_project(opt_view(args.project));
    lemma_same_filter(by_id(s.memories), of, |m: MemoryView| counts(m, p));
    let all = by_id(s.memories).filter(of);
    let x = stats_of(by_id(s.memories), opt_view(args.project));
    assert(x == figures_of(all));
    lemma_same_filter(all, low, |m: MemoryView| m.confidence.0 < LOW);
    lemma_same_filter(
        all,
        high,
        |m: MemoryView| m.confidence.0 > HIGH,
    );
}

proof fn lemma_memory_issues(s: StateView, m: MemoryView)
    ensures
        memory_issues(s, m).len() == 0 <==> {
            &&& m.confidence.valid()
            &&& m.fragment.len() > 0
            &&& forall|i: int|
                0 <= i < m.associated_with.len() ==> looked_up(
                    s,
                    #[trigger] m.associated_with[i],
                ) is Some
        },
{
    let lost = |a: Seq<char>| looked_up(s, a) is None;
    lemma_filter_keeps(m.associated_with, lost);
    let f = m.associated_with.filter(lost);
    assert(lost_links(s, m).len() == f.len());
    if f.len() > 0 {
        assert(f.contains(f[0]));
        assert(m.associated_with.contains(f[0]));
        let i = m.associated_with.index_of(f[0]);
        assert(looked_up(s, m.associated_with[i]) is None);
    } else {
        assert forall|i: int| 0 <= i < m.associated_with.len() implies looked_up(
            s,
            #[trigger] m.associated_with[i],
        ) is Some by {
            if lost(m.associated_with[i]) {
                assert(m.associated_with.contains(m.associated_with[i]));
                assert(f.contains(m.associated_with[i]));
            }
        }
    }
}

proof fn lemma_memories_issues(s: StateView, ms: Seq<MemoryView>, n: int)
    requires
        0 <= n <= ms.len(),
    ensures
        memories_issues(s, ms, n).len() == 0 <==> forall|i: int|
            0 <= i < n ==> memory_issues(s, #[trigger] ms[i]).len() == 0,
    decreases n,
{
    if n > 0 {
        lemma_memories_issues(s, ms, n - 1);
        assert(memories_issues(s, ms, n).len() == memories_issues(s, ms, n - 1).len()
            + memory_issues(s, ms[n - 1]).len());
    }
}

proof fn lemma_edges_issues(s: StateView, ms: Seq<MemoryView>, es: Seq<RelationView>, n: int)
    requires
        0 <= n <= es.len(),
    ensures
        edges_issues(s, ms, es, n).len() == 0 <==> forall|i: int|
            0 <= i < n ==> has_memory(ms, (#[trigger] es[i]).source) && has_memory(
                ms,
                es[i].target,
            ),
    decreases n,
{
    if n > 0 {
        lemma_edges_issues(s, ms, es, n - 1);
        assert(edges_issues(s, ms, es, n).len() == edges_issues(s, ms, es, n - 1).len()
            + edge_issues(s, ms, es[n - 1]).len());
        assert(edge_issues(s, ms, es[n - 1]).len() == 0 <==> has_memory(ms, es[n - 1].source)
            && has_memory(ms, es[n - 1].target));
    }
}

proof fn lemma_repeated(ms: Seq<MemoryView>, n: int)
    requires
        0 <= n <= ms.len(),
    ensures
        repeated(ms, n).len() == 0 <==> forall|i: int, j: int|
            0 <= i < j < n ==> (#[trigger] ms[i]).id != (#[trigger] ms[j]).id,
    decreases n,
{
    if n > 0 {
        lemma_repeated(ms, n - 1);
        let front = ms.take(n - 1);
        if has_memory(front, ms[n - 1].id) {
            let i = choose|i: int|
                0 <= i < front.len() && (#[trigger] front[i]).id == ms[n - 1].id;
            assert(ms[i].id == ms[n - 1].id);
        } else {
            assert forall|i: int| 0 <= i < n - 1 implies (#[trigger] ms[i]).id != ms[n - 1].id by {
                assert(front[i] == ms[i]);
            }
        }
    }
}

/// An audit finds nothing if and only if there is nothing to find: every memory
/// is trusted between zero and one and says something, what it is associated
/// with is there, both ends of every edge are, and no two memories have one
/// identifier.
pub proof fn law_audit_finds_what_is_wrong(s: StateView, args: MemoryAuditArgs)
    ensures
        ({
            let ms = s.memories;
            let r = memory_audit(s, args);
            &&& !r.is_error
            &&& r.structured matches Some(ToolDataView::Audit(x))
            &&& x.total_fragments == ms.len() as usize
            &&& x.issues.len() == 0 <==> {
                &&& forall|i: int|
                    0 <= i < ms.len() ==> {
                        let m = #[trigger] ms[i];
                        &&& m.confidence.valid()
                        &&& m.fragment.len() > 0
                        &&& forall|k: int|
                            0 <= k < m.associated_with.len() ==> looked_up(
                                s,
                                #[trigger] m.associated_with[k],
                            ) is Some
                    }
                &&& forall|i: int|
                    0 <= i < s.relations.len() ==> has_memory(
                        ms,
                        (#[trigger] s.relations[i]).source,
                    ) && has_memory(ms, s.relations[i].target)
                &&& unique_memories(ms)
            }
        }),
{
    reveal(memory_audit);
    let ms = by_id(s.memories);
    let es = edges_by_id(s.relations);
    lemma_by_id(s.memories);
    let by_edge = |r: RelationView| (0int, r.id.0 as int);
    lemma_ranked(s.relations, by_edge);
    lemma_memories_issues(s, ms, ms.len() as int);
    lemma_edges_issues(s, ms, es, es.len() as int);
    lemma_repeated(ms, ms.len() as int);
    let x = audit_of(s, ms, es);
    let clean = memories_issues(s, ms, ms.len() as int).len() == 0 && edges_issues(
        s,
        ms,
        es,
        es.len() as int,
    ).len() == 0 && repeated(ms, ms.len() as int).len() == 0;
    assert(x.issues.len() == 0 <==> clean);
    // The records are the same by identifier.
    assert(forall|id: EntityId| #[trigger] has_memory(ms, id) <==> has_memory(s.memories, id)) by {
        assert forall|id: EntityId| #[trigger] has_memory(ms, id) <==> has_memory(
            s.memories,
            id,
        ) by {
            lemma_same_ids(s.memories, id);
        }
    }
    assert((forall|i: int| 0 <= i < ms.len() ==> memory_issues(s, #[trigger] ms[i]).len() == 0) <==> (
    forall|i: int|
        0 <= i < s.memories.len() ==> memory_issues(s, #[trigger] s.memories[i]).len() == 0)) by {
        if forall|i: int| 0 <= i < ms.len() ==> memory_issues(s, #[trigger] ms[i]).len() == 0 {
            assert forall|i: int| 0 <= i < s.memories.len() implies memory_issues(
                s,
                #[trigger] s.memories[i],
            ).len() == 0 by {
                assert(s.memories.contains(s.memories[i]));
                assert(ms.contains(s.memories[i]));
                let k = ms.index_of(s.memories[i]);
                assert(memory_issues(s, ms[k]).len() == 0);
            }
        }
        if forall|i: int|
            0 <= i < s.memories.len() ==> memory_issues(s, #[trigger] s.memories[i]).len() == 0 {
            assert forall|i: int| 0 <= i < ms.len() implies memory_issues(
                s,
                #[trigger] ms[i],
            ).len() == 0 by {
                assert(ms.contains(ms[i]));
                let k = s.memories.index_of(ms[i]);
                assert(memory_issues(s, s.memories[k]).len() == 0);
            }
        }
    }
    assert forall|i: int| 0 <= i < s.memories.len() implies (memory_issues(
        s,
        #[trigger] s.memories[i],
    ).len() == 0 <==> {
        let m = s.memories[i];
        &&& m.confidence.valid()
        &&& m.fragment.len() > 0
        &&& forall|k: int|
            0 <= k < m.associated_with.len() ==> looked_up(s, #[trigger] m.associated_with[k]) is Some
    }) by {
        lemma_memory_issues(s, s.memories[i]);
    }
    assert((forall|i: int|
        0 <= i < es.len() ==> has_memory(ms, (#[trigger] es[i]).source) && has_memory(
            ms,
            es[i].target,
        )) <==> (forall|i: int|
        0 <= i < s.relations.len() ==> has_memory(
            s.memories,
            (#[trigger] s.relations[i]).source,
        ) && has_memory(s.memories, s.relations[i].target))) by {
        if forall|i: int|
            0 <= i < es.len() ==> has_memory(ms, (#[trigger] es[i]).source) && has_memory(
                ms,
                es[i].target,
            ) {
            assert forall|i: int| 0 <= i < s.relations.len() implies has_memory(
                s.memories,
                (#[trigger] s.relations[i]).source,
            ) && has_memory(s.memories, s.relations[i].target) by {
                assert(s.relations.contains(s.relations[i]));
                assert(es.contains(s.relations[i]));
                let k = es.index_of(s.relations[i]);
                assert(has_memory(ms, es[k].source));
                assert(has_memory(ms, es[k].target));
            }
        }
        if forall|i: int|
            0 <= i < s.relations.len() ==> has_memory(
                s.memories,
                (#[trigger] s.relations[i]).source,
            ) && has_memory(s.memories, s.relations[i].target) {
            assert forall|i: int| 0 <= i < es.len() implies has_memory(
                ms,
                (#[trigger] es[i]).source,
            ) && has_memory(ms, es[i].target) by {
                assert(es.contains(es[i]));
                let k = s.relations.index_of(es[i]);
                assert(has_memory(s.memories, s.relations[k].source));
                assert(has_memory(s.memories, s.relations[k].target));
                assert(has_memory(ms, es[i].source) && has_memory(ms, es[i].target));
            }
        }
    }
    lemma_unique_by_id(s.memories);
}

proof fn lemma_same_ids(ms: Seq<MemoryView>, id: EntityId)
    ensures
        has_memory(by_id(ms), id) <==> has_memory(ms, id),
{
    lemma_by_id(ms);
    let r = by_id(ms);
    if has_memory(r, id) {
        let i = choose|i: int| 0 <= i < r.len() && (#[trigger] r[i]).id == id;
        assert(r.contains(r[i]));
        let k = ms.index_of(r[i]);
        assert(ms[k].id == id);
    }
    if has_memory(ms, id) {
        let i = choose|i: int| 0 <= i < ms.len() && (#[trigger] ms[i]).id == id;
        assert(ms.contains(ms[i]));
        assert(r.contains(ms[i]));
        let k = r.index_of(ms[i]);
        assert(r[k].id == id);
    }
}

/// Identifiers differ in a list by identifier where they differ in the list.
proof fn lemma_unique_by_id(ms: Seq<MemoryView>)
    ensures
        unique_memories(by_id(ms)) <==> unique_memories(ms),
{
    let key = |m: MemoryView| (0int, m.id.0 as int);
    let r = by_id(ms);
    let keys = ms.map_values(key);
    let o = order_of(keys);
    law_ranking_is_stable(keys);
    lemma_order_holds(keys, keys.len() as int);
    assert(r.len() == ms.len());
    assert forall|a: int| 0 <= a < r.len() implies #[trigger] r[a] == ms[o[a]] by {}
    if unique_memories(ms) {
        assert forall|a: int, b: int| 0 <= a < b < r.len() implies (#[trigger] r[a]).id != (
        #[trigger] r[b]).id by {
            assert(o[a] != o[b]);
            assert(r[a] == ms[o[a]] && r[b] == ms[o[b]]);
            if o[a] < o[b] {
                assert(ms[o[a]].id != ms[o[b]].id);
            } else {
                assert(ms[o[b]].id != ms[o[a]].id);
            }
        }
    }
    if unique_memories(r) {
        assert forall|i: int, j: int| 0 <= i < j < ms.len() implies (#[trigger] ms[i]).id != (
        #[trigger] ms[j]).id by {
            assert(o.contains(i) && o.contains(j));
            let a = o.index_of(i);
            let b = o.index_of(j);
            assert(r[a] == ms[i] && r[b] == ms[j]);
            if a < b {
                assert(r[a].id != r[b].id);
            } else if b < a {
                assert(r[b].id != r[a].id);
            }
        }
    }
}

/// Guides are in the library that is asked for in full or for its guides; edges
/// in full or for what stands alone; figures in full or for what is stale,
/// doubled, to be distilled, or for its guides.
pub proof fn law_library_is_of_the_focus(s: StateView, args: MemoryLibraryArgs)
    ensures
        ({
            let x = library_of(s, args);
            let focus = if args.focus is Some {
                args.focus->0@
            } else {
                "full"@
            };
            &&& x.guides.len() == if focus == "full"@ || focus == "guides"@ {
                s.guides.len()
            } else {
                0
            }
            &&& forall|i: int|
                0 <= i < x.guides.len() ==> {
                    &&& (#[trigger] x.guides[i]).name == s.guides[i].name
                    &&& x.guides[i].usage_count == s.guides[i].usage_count
                    &&& x.guides[i].success_count == s.guides[i].success_count
                    &&& x.guides[i].failure_count == s.guides[i].failure_count
                }
            &&& x.relations.total == if focus == "full"@ || focus == "orphans"@ {
                edges_by_id(s.relations).len() as usize
            } else {
                0
            }
            &&& x.signals is Some <==> focus == "full"@ || focus == "stale"@ || focus
                == "duplicates"@ || focus == "distill"@ || focus == "guides"@
        }),
{
}

/// The average is that of the memories that are counted, and of each source and
/// project it is told how many of them are of it.
pub proof fn law_stats_are_of_the_counted(
    s: StateView,
    args: MemoryStatsArgs,
    of: spec_fn(MemoryView) -> bool,
)
    requires
        forall|m: MemoryView| #[trigger]
            of(m) <==> {
                let key = lowercase(trimmed(args.project->0@));
                ||| args.project is None
                ||| key.len() == 0
                ||| m.project is Some && lowercase(m.project->0) == key
            },
    ensures
        ({
            let all = by_id(s.memories).filter(of);
            let sources = all.map_values(|m: MemoryView| m.source.name());
            let projects = all.map_values(
                |m: MemoryView|
                    if m.project is Some {
                        m.project->0
                    } else {
                        "(global)"@
                    },
            );
            &&& memory_stats(s, args).structured matches Some(ToolDataView::Stats(x))
            &&& all.len() > 0 ==> x.average == mean(all.map_values(|m: MemoryView| m.confidence))
            &&& x.by_source == tally(sources)
            &&& x.by_project == tally(projects)
        }),
{
    reveal(memory_stats);
    let p = asked_project(opt_view(args.project));
    lemma_same_filter(by_id(s.memories), of, |m: MemoryView| counts(m, p));
    let all = by_id(s.memories).filter(of);
    let projects = all.map_values(
        |m: MemoryView|
            if m.project is Some {
                m.project->0
            } else {
                "(global)"@
            },
    );
    assert(projects =~= all.map_values(|m: MemoryView| scope_name(m)));
    assert(stats_of(by_id(s.memories), opt_view(args.project)) == figures_of(all));
}

} // verus!
