//! What holds of every read by name, of every explanation and of every search
//! that is asked for.

use crate::canonical::repository::looked_up;
use crate::compatibility::lemma::tool_args::{MemoryReadArgs, ToolArgs};
use crate::daemon::dispatcher::DispatcherView;
use crate::daemon::envelope::{DomainRequest, IpcEnvelope};
use crate::daemon::tools::add::{akin, kin};
use crate::daemon::tools::common::HitView;
use crate::daemon::tools::data::ToolDataView;
use crate::daemon::tools::explain::{explained, explanation, SelectionView};
use crate::daemon::tools::read::{memory_read, named, page_selections};
use crate::daemon::tools::retrieval::{asked_by, shown_score};
use crate::domain::id::EntityId;
use crate::domain::memory::MemoryView;
use crate::domain::score::Score;
use crate::domain::state::{memory_of, StateView};
use crate::rank::lemma_filter_keeps;
use crate::text::views;
use vstd::prelude::*;

verus! {

/// Read by a name that stands for no memory, an error is the answer and nothing
/// changes. Read by one that does, the memory is shown, with its text, as it is
/// kept.
pub proof fn law_named_memory_is_shown(
    d: DispatcherView,
    env: IpcEnvelope,
    args: MemoryReadArgs,
    hits: Seq<HitView>,
)
    requires
        args.id is Some,
    ensures
        ({
            let (after, answer) = memory_read(d, env, args, hits);
            match looked_up(d.store, args.id->0@) {
                None => after == d && answer is Ok && answer->Ok_0.is_error,
                Some(pre) => answer matches Ok(r) ==> {
                    let m = memory_of(after.store.memories, pre.id);
                    &&& !r.is_error
                    &&& r.structured matches Some(ToolDataView::Read(x))
                    &&& x.count == 1
                    &&& x.fragments.len() == 1
                    &&& x.fragments[0].fragment == Some(m.fragment)
                    &&& x.fragments[0].title == m.title
                    &&& x.fragments[0].confidence == m.confidence
                    &&& x.fragments[0].project == m.project
                    &&& x.fragments[0].created == Some(m.created_at.0)
                    &&& x.recall_explanation is Some <==> args.explain
                    &&& !args.expand_graph ==> x.related_graph.len() == 0
                },
            }
        }),
{
    reveal(memory_read);
}

proof fn lemma_named(s: StateView, names: Seq<Seq<char>>)
    ensures
        forall|m: MemoryView| #[trigger]
            named(s, names).contains(m) <==> exists|i: int|
                0 <= i < names.len() && looked_up(s, #[trigger] names[i]) == Some(m),
        (forall|i: int| 0 <= i < names.len() ==> looked_up(s, #[trigger] names[i]) is Some) ==> {
            &&& named(s, names).len() == names.len()
            &&& forall|i: int|
                0 <= i < names.len() ==> looked_up(s, #[trigger] names[i]) == Some(
                    named(s, names)[i],
                )
        },
    decreases names.len(),
{
    if names.len() > 0 {
        let front = names.drop_last();
        lemma_named(s, front);
        let rest = named(s, front);
        let all = named(s, names);
        assert forall|m: MemoryView| #[trigger] all.contains(m) <==> exists|i: int|
            0 <= i < names.len() && looked_up(s, #[trigger] names[i]) == Some(m) by {
            if all.contains(m) {
                let k = all.index_of(m);
                if k < rest.len() {
                    assert(rest[k] == m);
                    assert(rest.contains(m));
                    let i = choose|i: int|
                        0 <= i < front.len() && looked_up(s, #[trigger] front[i]) == Some(m);
                    assert(names[i] == front[i]);
                } else {
                    assert(names[names.len() - 1] == names.last());
                }
            }
            if exists|i: int| 0 <= i < names.len() && looked_up(s, #[trigger] names[i]) == Some(m) {
                let i = choose|i: int|
                    0 <= i < names.len() && looked_up(s, #[trigger] names[i]) == Some(m);
                if i < front.len() {
                    assert(front[i] == names[i]);
                    assert(rest.contains(m));
                    assert(all[rest.index_of(m)] == m);
                } else {
                    assert(all.last() == m);
                    assert(all[all.len() - 1] == m);
                }
            }
        }
        if forall|i: int| 0 <= i < names.len() ==> looked_up(s, #[trigger] names[i]) is Some {
            assert forall|i: int| 0 <= i < front.len() implies looked_up(
                s,
                #[trigger] front[i],
            ) is Some by {
                assert(front[i] == names[i]);
            }
            assert(looked_up(s, names[names.len() - 1]) is Some);
            assert forall|i: int| 0 <= i < names.len() implies looked_up(s, #[trigger] names[i])
                == Some(all[i]) by {
                if i < front.len() {
                    assert(front[i] == names[i]);
                }
            }
        }
    } else {
        assert(named(s, names) == Seq::<MemoryView>::empty());
    }
}

/// Read by several names, the memories that they stand for are shown, with their
/// texts, and no others; where each stands for one, in the order of the names.
pub proof fn law_named_memories_are_shown(
    d: DispatcherView,
    env: IpcEnvelope,
    args: MemoryReadArgs,
    hits: Seq<HitView>,
)
    requires
        args.id is None,
        args.ids is Some,
        args.ids->0@.len() > 0,
    ensures
        memory_read(d, env, args, hits).1 matches Ok(r) ==> {
            let names = views(args.ids->0@);
            &&& !r.is_error
            &&& r.structured matches Some(ToolDataView::Read(x))
            &&& x.count == x.fragments.len() as usize
            &&& !x.has_more
            &&& forall|i: int|
                #![trigger names[i]]
                0 <= i < names.len() && looked_up(d.store, names[i]) is Some ==> exists|k: int|
                    {
                        &&& 0 <= k < x.fragments.len()
                        &&& (#[trigger] x.fragments[k]).fragment == Some(
                            looked_up(d.store, names[i])->0.fragment,
                        )
                        &&& x.fragments[k].title == looked_up(d.store, names[i])->0.title
                    }
            &&& forall|k: int|
                #![trigger x.fragments[k]]
                0 <= k < x.fragments.len() ==> exists|i: int|
                    {
                        &&& 0 <= i < names.len()
                        &&& looked_up(d.store, #[trigger] names[i]) is Some
                        &&& x.fragments[k].fragment == Some(
                            looked_up(d.store, names[i])->0.fragment,
                        )
                        &&& x.fragments[k].title == looked_up(d.store, names[i])->0.title
                    }
            &&& (forall|i: int|
                0 <= i < names.len() ==> looked_up(d.store, #[trigger] names[i]) is Some) ==> {
                &&& x.fragments.len() == names.len()
                &&& forall|i: int|
                    0 <= i < names.len() ==> (#[trigger] x.fragments[i]).fragment == Some(
                        looked_up(d.store, names[i])->0.fragment,
                    )
            }
        },
{
    reveal(memory_read);
    if let Ok(r) = memory_read(d, env, args, hits).1 {
        let names = views(args.ids->0@);
        let ms = named(d.store, names);
        lemma_named(d.store, names);
        let x = r.structured->0->Read_0;
        assert(x.fragments.len() == ms.len());
        assert forall|i: int|
            #![trigger names[i]]
            0 <= i < names.len() && looked_up(d.store, names[i]) is Some implies exists|k: int|
            {
                &&& 0 <= k < x.fragments.len()
                &&& (#[trigger] x.fragments[k]).fragment == Some(
                    looked_up(d.store, names[i])->0.fragment,
                )
                &&& x.fragments[k].title == looked_up(d.store, names[i])->0.title
            } by {
            let m = looked_up(d.store, names[i])->0;
            assert(looked_up(d.store, names[i]) == Some(m));
            assert(ms.contains(m));
            let k = ms.index_of(m);
            assert(x.fragments[k].fragment == Some(m.fragment));
        }
        assert forall|k: int|
            #![trigger x.fragments[k]]
            0 <= k < x.fragments.len() implies exists|i: int|
            {
                &&& 0 <= i < names.len()
                &&& looked_up(d.store, #[trigger] names[i]) is Some
                &&& x.fragments[k].fragment == Some(looked_up(d.store, names[i])->0.fragment)
                &&& x.fragments[k].title == looked_up(d.store, names[i])->0.title
            } by {
            assert(ms.contains(ms[k]));
            let i = choose|i: int|
                0 <= i < names.len() && looked_up(d.store, #[trigger] names[i]) == Some(ms[k]);
            assert(looked_up(d.store, names[i]) is Some);
        }
        if forall|i: int| 0 <= i < names.len() ==> looked_up(d.store, #[trigger] names[i]) is Some {
            assert forall|i: int| 0 <= i < names.len() implies (
            #[trigger] x.fragments[i]).fragment == Some(
                looked_up(d.store, names[i])->0.fragment,
            ) by {
                assert(looked_up(d.store, names[i]) == Some(ms[i]));
            }
        }
    }
}

/// An explanation has an entry for each memory that was selected, in their
/// order, with how it was come by, whence and when it was recorded, and at most
/// five of its citations.
pub proof fn law_explanation_is_of_the_selected(
    sels: Seq<SelectionView>,
    mode: Seq<char>,
    project: Option<Seq<char>>,
    i: int,
)
    requires
        0 <= i < sels.len(),
    ensures
        ({
            let e = explanation(sels, mode, project);
            let x = e.items[i];
            let m = sels[i].memory;
            &&& e.mode == mode && e.project == project
            &&& e.items.len() == sels.len()
            &&& x.method == sels[i].method
            &&& x.rank == sels[i].rank && x.depth == sels[i].depth && x.graph_root == sels[i].root
            &&& x.recorded_source == m.source.name()
            &&& x.project == m.project && x.session_id == m.session_id
            &&& x.confidence == m.confidence
            &&& m.external_alias is Some ==> x.id == m.external_alias->0
            &&& x.last_accessed is Some <==> m.last_accessed_at is Some
            &&& x.citations.len() == if m.evidence.len() > 5 {
                5
            } else {
                m.evidence.len()
            }
            &&& forall|k: int|
                0 <= k < x.citations.len() ==> {
                    &&& (#[trigger] x.citations[k]).file == m.evidence[k].file
                    &&& x.citations[k].symbol == m.evidence[k].symbol
                }
            &&& x.citations_truncated <==> m.evidence.len() > 5
            &&& x.status == if m.evidence.len() > 0 {
                "not_checked"@
            } else {
                "no_evidence"@
            }
        }),
{
}

/// The memories of a page are ranked from the place after its offset on.
pub proof fn law_page_is_ranked(ms: Seq<MemoryView>, method: Seq<char>, offset: int, i: int)
    requires
        0 <= i < ms.len(),
        0 <= offset,
        offset + ms.len() <= u64::MAX,
    ensures
        page_selections(ms, method, offset).len() == ms.len(),
        page_selections(ms, method, offset)[i].memory == ms[i],
        page_selections(ms, method, offset)[i].method == method,
        page_selections(ms, method, offset)[i].rank == Some((offset + i + 1) as u64),
        page_selections(ms, method, offset)[i].depth is None,
{
}

/// The search is asked for a read without names and for a search, with the query
/// and the project of the call, and for nothing else.
pub proof fn law_search_is_asked_for_what_is_sought(body: DomainRequest)
    ensures
        match body {
            DomainRequest::ToolCall { tool: ToolArgs::MemoryRead(a) } => {
                &&& asked_by(body) is Some <==> a.id is None && (a.ids is None || a.ids->0@.len()
                    == 0)
                &&& asked_by(body) matches Some(q) ==> {
                    &&& a.query is Some ==> q.query == a.query->0@
                    &&& a.query is None ==> q.query.len() == 0
                    &&& a.project is Some ==> q.scope.project == Some(a.project->0@)
                    &&& a.project is None ==> q.scope.project is None
                    &&& q.scope.all_projects == a.all
                    &&& q.scope.min_confidence == a.min_confidence
                    &&& q.limit == 100
                }
            },
            DomainRequest::ToolCall { tool: ToolArgs::SemanticSearch(a) } => {
                &&& asked_by(body) is Some
                &&& asked_by(body)->0.query == a.query@
                &&& a.project is Some ==> asked_by(body)->0.scope.project == Some(a.project->0@)
                &&& a.project is None ==> asked_by(body)->0.scope.project is None
                &&& !asked_by(body)->0.scope.all_projects
                &&& asked_by(body)->0.scope.min_confidence is None
            },
            _ => asked_by(body) is None,
        },
{
    reveal_strlit("");
}

/// The score that is shown is the higher of the two that a memory was given.
pub proof fn law_higher_score_is_shown(native: Score, reference: Score)
    ensures
        ({
            let shown = shown_score(Some((native, reference)));
            &&& shown == native || shown == reference
            &&& shown.0 >= native.0 && shown.0 >= reference.0
        }),
{
}

/// The memories that are told of when one is added are live, are others, and are
/// akin to it in their words; there are at most five, and one at least where
/// there is any.
pub proof fn law_kin_are_other_live_memories(
    ms: Seq<MemoryView>,
    id: EntityId,
    fragment: Seq<char>,
)
    ensures
        kin(ms, id, fragment).len() <= 5,
        forall|i: int|
            0 <= i < kin(ms, id, fragment).len() ==> {
                let m = #[trigger] kin(ms, id, fragment)[i];
                &&& ms.contains(m)
                &&& m.lifecycle is Live
                &&& m.id != id
                &&& akin(fragment, m.fragment)
            },
        forall|m: MemoryView| #[trigger]
            ms.contains(m) && m.lifecycle is Live && m.id != id && akin(fragment, m.fragment) ==> {
                ||| kin(ms, id, fragment).contains(m)
                ||| kin(ms, id, fragment).len() == 5
            },
{
    let cond = |m: MemoryView| m.lifecycle is Live && m.id != id && akin(fragment, m.fragment);
    lemma_filter_keeps(ms, cond);
    let all = ms.filter(cond);
    let list = kin(ms, id, fragment);
    assert forall|i: int| 0 <= i < list.len() implies {
        let m = #[trigger] list[i];
        &&& ms.contains(m)
        &&& m.lifecycle is Live
        &&& m.id != id
        &&& akin(fragment, m.fragment)
    } by {
        assert(list[i] == all[i]);
        assert(all.contains(all[i]));
    }
    assert forall|m: MemoryView| #[trigger]
        ms.contains(m) && m.lifecycle is Live && m.id != id && akin(fragment, m.fragment) implies {
        ||| list.contains(m)
        ||| list.len() == 5
    } by {
        assert(all.contains(m));
        if list.len() < 5 {
            assert(list =~= all);
        }
    }
}

/// What was read by name has no rank and no score. What was reached by an edge,
/// found by words or browsed by trust is explained by that, each by what its
/// score says.
pub proof fn law_reason_is_of_the_method(sel: SelectionView)
    ensures
        ({
            let x = explained(sel);
            &&& sel.method == "explicit_id"@ ==> x.score_kind is None && x.reason
                == "Requested by ID; no relevance ranking or project filter was applied."@
            &&& sel.method == "graph_expansion"@ ==> x.score_kind == Some(
                "graph_score_with_depth_penalty"@,
            )
            &&& sel.method == "fts5_bm25"@ ==> x.score_kind == Some("bm25_lower_is_better"@)
            &&& sel.method == "confidence_browse"@ ==> x.score_kind == Some("stored_confidence"@)
            &&& sel.method == "substring_fallback"@ ==> x.score_kind == Some("stored_confidence"@)
            &&& sel.method == "tfidf_cosine"@ ==> x.score_kind == Some("tfidf_cosine_similarity"@)
            &&& sel.method == "hybrid_rrf_mmr"@ ==> x.score_kind == Some(
                "hybrid_relevance_before_diversity"@,
            )
        }),
{
    reveal_strlit("explicit_id");
    reveal_strlit("graph_expansion");
    reveal_strlit("fts5_bm25");
    reveal_strlit("confidence_browse");
    reveal_strlit("substring_fallback");
    reveal_strlit("tfidf_cosine");
    reveal_strlit("hybrid_rrf_mmr");
    assert("explicit_id"@.len() == 11 && "graph_expansion"@.len() == 15 && "fts5_bm25"@.len() == 9);
    assert("confidence_browse"@.len() == 17 && "substring_fallback"@.len() == 18);
    assert("tfidf_cosine"@.len() == 12 && "hybrid_rrf_mmr"@.len() == 14);
}

} // verus!
