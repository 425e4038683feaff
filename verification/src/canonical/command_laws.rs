//! What each command does to the store, record by record.

use crate::canonical::guarantees::takes_effect;
use crate::canonical::repository::stored;
use crate::domain::command::{
    CommandContextView, DomainCommandView, ForgetMode, MemoryPatchView, ReceiptOutcomeView,
};
use crate::domain::graph::reaches;
use crate::domain::guide::GuideView;
use crate::domain::id::{EntityId, EntityRevision, SessionHandle};
use crate::domain::memory::{Instant, MemoryLifecycle, MemoryView};
use crate::domain::relation::RelationView;
use crate::domain::score::{law_score_stays_valid, Score, ACCESS_STEP, BOOST_STEP};
use crate::domain::session::TaskOutcome;
use crate::domain::state::{
    accessed_all, archived_all, boosted_all, context_tag, has_memory, has_receipt, is_live, known,
    memory_of, StateView,
};
use crate::rank::lemma_filter_keeps;
use crate::text::{law_with_texts, lowercase, trimmed, with_text};
use vstd::prelude::*;

verus! {

/// Feedback on a memory touches that memory alone. Praise counts as praise and
/// as a use, and does not lower its confidence; blame counts as blame and as a
/// hit against it, and does not raise its confidence. The feedback is kept.
pub proof fn law_feedback_is_counted(
    s: StateView,
    ctx: CommandContextView,
    id: EntityId,
    useful: bool,
    i: int,
)
    requires
        takes_effect(s, ctx, DomainCommandView::Feedback { memory_id: id, useful }),
        0 <= i < s.memories.len(),
        s.memories[i].room(1),
    ensures
        ({
            let after = stored(s, ctx, DomainCommandView::Feedback { memory_id: id, useful }).0;
            let b = s.memories[i];
            let a = after.memories[i];
            &&& after.memories.len() == s.memories.len()
            &&& b.id != id ==> a == b
            &&& b.id == id ==> {
                &&& a.id == b.id && a.title == b.title && a.fragment == b.fragment && a.lifecycle
                    == b.lifecycle
                &&& useful ==> {
                    &&& a.positive_feedback == b.positive_feedback + 1
                    &&& a.negative_feedback == b.negative_feedback
                    &&& a.negative_hits == b.negative_hits
                    &&& a.access_count == b.access_count + 1
                    &&& a.last_accessed_at == Some(Instant(s.now))
                    &&& a.confidence == b.confidence.up(Score(4_579_800_533_065_604_792))
                    &&& b.confidence.valid() ==> a.confidence.valid() && a.confidence.0
                        >= b.confidence.0
                }
                &&& !useful ==> {
                    &&& a.positive_feedback == b.positive_feedback
                    &&& a.negative_feedback == b.negative_feedback + 1
                    &&& a.negative_hits == b.negative_hits + 1
                    &&& a.access_count == b.access_count
                    &&& a.last_accessed_at == b.last_accessed_at
                    &&& a.confidence == b.confidence.down(Score(4_581_421_828_931_458_171))
                    &&& b.confidence.valid() ==> a.confidence.valid() && a.confidence.0
                        <= b.confidence.0
                }
            }
            &&& after.feedback.len() == s.feedback.len() + 1
            &&& s.feedback.is_prefix_of(after.feedback)
            &&& after.feedback.last().memory_id == id
            &&& after.feedback.last().useful == useful
            &&& after.feedback.last().timestamp == Instant(s.now)
            &&& after.relations == s.relations && after.guides == s.guides
        }),
{
    let b = s.memories[i];
    if b.confidence.valid() {
        law_score_stays_valid(b.confidence, Score(ACCESS_STEP));
        law_score_stays_valid(b.confidence, Score(BOOST_STEP));
    }
}

/// An update sets the fields that it names, leaves all others, and touches no
/// other memory. Where it changes what the memory says, its revisions advance.
pub proof fn law_update_sets_what_it_names(
    s: StateView,
    ctx: CommandContextView,
    id: EntityId,
    expected: Option<EntityRevision>,
    patch: MemoryPatchView,
    i: int,
)
    requires
        takes_effect(
            s,
            ctx,
            DomainCommandView::UpdateMemory { id, expected_revision: expected, patch },
        ),
        0 <= i < s.memories.len(),
        s.memories[i].room(1),
    ensures
        ({
            let after = stored(
                s,
                ctx,
                DomainCommandView::UpdateMemory { id, expected_revision: expected, patch },
            ).0;
            let b = s.memories[i];
            let a = after.memories[i];
            &&& after.memories.len() == s.memories.len()
            &&& b.id != id ==> a == b
            &&& b.id == id ==> {
                &&& patch.title is Some ==> a.title == patch.title->0
                &&& patch.title is None ==> a.title == b.title
                &&& patch.fragment is Some ==> a.fragment == patch.fragment->0
                &&& patch.fragment is None ==> a.fragment == b.fragment
                &&& patch.description is Some ==> a.description == patch.description->0
                &&& patch.description is None ==> a.description == b.description
                &&& patch.fragment_type is Some ==> a.fragment_type == patch.fragment_type->0
                &&& patch.fragment_type is None ==> a.fragment_type == b.fragment_type
                &&& patch.project is Some ==> a.project == patch.project->0
                &&& patch.project is None ==> a.project == b.project
                &&& patch.confidence is Some ==> a.confidence == patch.confidence->0
                &&& patch.confidence is None ==> a.confidence == b.confidence
                &&& patch.tags is Some ==> a.tags == patch.tags->0
                &&& patch.tags is None ==> a.tags == b.tags
                &&& a.id == b.id && a.lifecycle == b.lifecycle && a.access_count == b.access_count
                    && a.external_alias == b.external_alias && a.created_at == b.created_at
                &&& patch.title is Some || patch.fragment is Some ==> a.entity_revision.0
                    == b.entity_revision.0 + 1 && a.document_revision.0 == b.document_revision.0
                    + 1
            }
            &&& after.relations == s.relations && after.guides == s.guides
        }),
{
}

/// A memory that is forgotten is deleted, invalidated or archived, as was asked
/// for, at the time of the store; it keeps what it says, and all other memories
/// stay as they were.
pub proof fn law_forgetting_marks_the_memory(
    s: StateView,
    ctx: CommandContextView,
    id: EntityId,
    mode: ForgetMode,
    i: int,
)
    requires
        takes_effect(s, ctx, DomainCommandView::Forget { id, mode }),
        0 <= i < s.memories.len(),
        s.memories[i].room(1),
    ensures
        ({
            let after = stored(s, ctx, DomainCommandView::Forget { id, mode }).0;
            let b = s.memories[i];
            let a = after.memories[i];
            &&& after.memories.len() == s.memories.len()
            &&& b.id != id ==> a == b
            &&& b.id == id ==> {
                &&& mode is Delete ==> a.lifecycle == (MemoryLifecycle::Deleted {
                    at: Instant(s.now),
                })
                &&& mode is Invalidate ==> a.lifecycle == (MemoryLifecycle::Invalidated {
                    at: Instant(s.now),
                })
                &&& mode is Archive ==> a.lifecycle == (MemoryLifecycle::Archived {
                    at: Instant(s.now),
                })
                &&& a.eligibility_revision.0 == b.eligibility_revision.0 + 1
                &&& a.id == b.id && a.title == b.title && a.fragment == b.fragment && a.confidence
                    == b.confidence
            }
            &&& !(mode is Delete) ==> after.relations == s.relations
        }),
{
}

proof fn lemma_archived(ms: Seq<MemoryView>, ids: Seq<EntityId>, now: u64, i: int)
    requires
        0 <= i < ms.len(),
    ensures
        archived_all(ms, ids, now).len() == ms.len(),
        archived_all(ms, ids, now)[i].id == ms[i].id,
        archived_all(ms, ids, now)[i].title == ms[i].title,
        archived_all(ms, ids, now)[i].fragment == ms[i].fragment,
        !ids.contains(ms[i].id) ==> archived_all(ms, ids, now)[i] == ms[i],
        ids.contains(ms[i].id) ==> archived_all(ms, ids, now)[i].lifecycle == (
        MemoryLifecycle::Archived { at: Instant(now) }),
    decreases ids.len(),
{
    if ids.len() > 0 {
        let rest = ids.drop_last();
        lemma_archived(ms, rest, now, i);
        let id = ms[i].id;
        if ids.contains(id) {
            let k = ids.index_of(id);
            if k < rest.len() {
                assert(rest[k] == id);
                assert(rest.contains(id));
            }
        } else {
            assert(ids[ids.len() - 1] != id);
            assert forall|k: int| 0 <= k < rest.len() implies rest[k] != id by {
                assert(ids[k] == rest[k]);
            }
        }
    }
}

/// Memories that are merged are archived, each of them and no others, and the
/// memory that they were merged into is live behind them.
pub proof fn law_merging_archives_the_sources(
    s: StateView,
    ctx: CommandContextView,
    ids: Seq<EntityId>,
    result: MemoryView,
)
    requires
        takes_effect(s, ctx, DomainCommandView::Merge { source_ids: ids, result }),
    ensures
        ({
            let after = stored(s, ctx, DomainCommandView::Merge { source_ids: ids, result }).0;
            &&& after.memories.len() == s.memories.len() + 1
            &&& forall|k: int| 0 <= k < ids.len() ==> has_memory(s.memories, #[trigger] ids[k])
            &&& !has_memory(s.memories, result.id)
            &&& forall|i: int|
                0 <= i < s.memories.len() ==> {
                    let b = s.memories[i];
                    let a = #[trigger] after.memories[i];
                    &&& a.id == b.id && a.title == b.title && a.fragment == b.fragment
                    &&& ids.contains(b.id) ==> a.lifecycle == (MemoryLifecycle::Archived {
                        at: Instant(s.now),
                    })
                    &&& !ids.contains(b.id) ==> a == b
                }
            &&& after.memories.last().id == result.id
            &&& after.memories.last().title == result.title
            &&& after.memories.last().fragment == result.fragment
            &&& after.memories.last().lifecycle == result.lifecycle
            &&& after.memories.last().project == result.project
            &&& after.memories.last().confidence == result.confidence
            &&& after.relations == s.relations
        }),
{
    let after = stored(s, ctx, DomainCommandView::Merge { source_ids: ids, result }).0;
    if s.memories.len() > 0 {
        lemma_archived(s.memories, ids, s.now, 0);
    } else {
        lemma_archived_none(s.memories, ids, s.now);
    }
    assert forall|i: int| 0 <= i < s.memories.len() implies ({
        let b = s.memories[i];
        let a = #[trigger] after.memories[i];
        &&& a.id == b.id && a.title == b.title && a.fragment == b.fragment
        &&& ids.contains(b.id) ==> a.lifecycle == (MemoryLifecycle::Archived {
            at: Instant(s.now),
        })
        &&& !ids.contains(b.id) ==> a == b
    }) by {
        lemma_archived(s.memories, ids, s.now, i);
        assert(after.memories[i] == archived_all(s.memories, ids, s.now)[i]);
    }
}

proof fn lemma_archived_none(ms: Seq<MemoryView>, ids: Seq<EntityId>, now: u64)
    ensures
        archived_all(ms, ids, now).len() == ms.len(),
    decreases ids.len(),
{
    if ids.len() > 0 {
        lemma_archived_none(ms, ids.drop_last(), now);
    }
}

proof fn lemma_times(ids: Seq<EntityId>, is: spec_fn(EntityId) -> bool)
    requires
        ids.len() > 0,
    ensures
        ids.filter(is).len() == ids.drop_last().filter(is).len() + if is(ids.last()) {
            1nat
        } else {
            0
        },
{
    reveal(Seq::filter);
}

proof fn lemma_accessed(
    ms: Seq<MemoryView>,
    ids: Seq<EntityId>,
    tag: Option<Seq<char>>,
    now: u64,
    i: int,
    is: spec_fn(EntityId) -> bool,
)
    requires
        0 <= i < ms.len(),
        ms[i].room(ids.len() as int),
        forall|x: EntityId| #[trigger] is(x) <==> x == ms[i].id,
    ensures
        ({
            let b = ms[i];
            let a = accessed_all(ms, ids, tag, now)[i];
            let n = ids.filter(is).len();
            &&& accessed_all(ms, ids, tag, now).len() == ms.len()
            &&& n <= ids.len()
            &&& a.id == b.id && a.title == b.title && a.fragment == b.fragment && a.lifecycle
                == b.lifecycle
            &&& a.access_count == b.access_count + n
            &&& a.positive_feedback == b.positive_feedback && a.negative_feedback
                == b.negative_feedback
            &&& n == 0 ==> a == b
            &&& n > 0 ==> a.last_accessed_at == Some(Instant(now))
            &&& n > 0 && tag is Some ==> a.tags == with_text(b.tags, tag->0)
            &&& tag is None ==> a.tags == b.tags
            &&& n == 1 ==> a.confidence == b.confidence.up(Score(ACCESS_STEP))
        }),
    decreases ids.len(),
{
    if ids.len() > 0 {
        let rest = ids.drop_last();
        lemma_accessed(ms, rest, tag, now, i, is);
        lemma_times(ids, is);
        if tag is Some {
            let t = tag->0;
            let once = with_text(ms[i].tags, t);
            if ms[i].tags.contains(t) {
                assert(once == ms[i].tags);
            } else {
                assert(once[ms[i].tags.len() as int] == t);
            }
            assert(with_text(once, t) == once);
        }
    } else {
        reveal(Seq::filter);
        assert(ids.filter(is).len() == 0);
    }
}

/// A memory that is read counts one use more for each time that it is named,
/// was last used now, and bears the context of the read as a tag. What it says
/// stays, and so does every memory that is not named.
pub proof fn law_reading_is_counted(
    s: StateView,
    ctx: CommandContextView,
    ids: Seq<EntityId>,
    context: Option<Seq<char>>,
    i: int,
)
    requires
        takes_effect(s, ctx, DomainCommandView::Access { memory_ids: ids, context }),
        0 <= i < s.memories.len(),
        s.memories[i].room(ids.len() as int),
    ensures
        ({
            let after = stored(s, ctx, DomainCommandView::Access { memory_ids: ids, context }).0;
            let b = s.memories[i];
            let a = after.memories[i];
            let n = ids.filter(|x: EntityId| x == b.id).len();
            let tag = lowercase(trimmed(context->0));
            &&& after.memories.len() == s.memories.len()
            &&& a.id == b.id && a.title == b.title && a.fragment == b.fragment && a.lifecycle
                == b.lifecycle
            &&& a.access_count == b.access_count + n
            &&& n == 0 ==> a == b
            &&& n > 0 ==> a.last_accessed_at == Some(Instant(s.now))
            &&& n > 0 && context is Some && tag.len() > 0 ==> a.tags.contains(tag)
            &&& b.tags.is_prefix_of(a.tags)
            &&& context is None || tag.len() == 0 ==> a.tags == b.tags
            &&& n == 1 ==> a.confidence == b.confidence.up(Score(4_579_800_533_065_604_792))
            &&& after.relations == s.relations && after.guides == s.guides
        }),
{
    let tag = context_tag(context);
    let b = s.memories[i];
    lemma_accessed(s.memories, ids, tag, s.now, i, |x: EntityId| x == b.id);
    if tag is Some {
        let once = with_text(b.tags, tag->0);
        if !b.tags.contains(tag->0) {
            assert(once[b.tags.len() as int] == tag->0);
        }
        assert(once.contains(tag->0));
        assert(b.tags.is_prefix_of(once));
    }
}

proof fn lemma_boosted(
    ms: Seq<MemoryView>,
    ids: Seq<EntityId>,
    now: u64,
    i: int,
    is: spec_fn(EntityId) -> bool,
)
    requires
        0 <= i < ms.len(),
        ms[i].room(ids.len() as int),
        forall|x: EntityId| #[trigger] is(x) <==> x == ms[i].id,
    ensures
        ({
            let b = ms[i];
            let a = boosted_all(ms, ids, now)[i];
            let n = ids.filter(is).len();
            &&& boosted_all(ms, ids, now).len() == ms.len()
            &&& n <= ids.len()
            &&& a.id == b.id && a.title == b.title && a.fragment == b.fragment && a.lifecycle
                == b.lifecycle && a.tags == b.tags
            &&& a.access_count == b.access_count + n
            &&& n == 0 ==> a == b
            &&& n > 0 ==> a.last_accessed_at == Some(Instant(now))
            &&& n == 1 ==> a.confidence == b.confidence.up(Score(BOOST_STEP))
        }),
    decreases ids.len(),
{
    if ids.len() > 0 {
        lemma_boosted(ms, ids.drop_last(), now, i, is);
        lemma_times(ids, is);
    } else {
        reveal(Seq::filter);
        assert(ids.filter(is).len() == 0);
    }
}

/// A memory that is boosted is trusted more and counts a use; every memory that
/// is not named stays as it was.
pub proof fn law_boost_is_for_the_named(
    s: StateView,
    ctx: CommandContextView,
    ids: Seq<EntityId>,
    i: int,
)
    requires
        takes_effect(s, ctx, DomainCommandView::BoostConfidence { memory_ids: ids }),
        0 <= i < s.memories.len(),
        s.memories[i].room(ids.len() as int),
    ensures
        ({
            let after = stored(s, ctx, DomainCommandView::BoostConfidence { memory_ids: ids }).0;
            let b = s.memories[i];
            let a = after.memories[i];
            let n = ids.filter(|x: EntityId| x == b.id).len();
            &&& after.memories.len() == s.memories.len()
            &&& a.id == b.id && a.title == b.title && a.fragment == b.fragment && a.lifecycle
                == b.lifecycle
            &&& a.access_count == b.access_count + n
            &&& n == 0 ==> a == b
            &&& n > 0 ==> a.last_accessed_at == Some(Instant(s.now))
            &&& n == 1 ==> a.confidence == b.confidence.up(Score(4_581_421_828_931_458_171))
            &&& n == 1 && b.confidence.valid() ==> a.confidence.valid() && a.confidence.0
                >= b.confidence.0
        }),
{
    let b = s.memories[i];
    lemma_boosted(s.memories, ids, s.now, i, |x: EntityId| x == b.id);
    if b.confidence.valid() {
        law_score_stays_valid(b.confidence, Score(BOOST_STEP));
    }
}

/// An edge is taken in if and only if both of its ends are live, there is none
/// like it, and, where it says that one memory takes the place of another, they
/// are two and the other does not already stand in the place of the one. It then
/// comes behind the edges that were there, and no memory changes.
pub proof fn law_relating_adds_one_edge(
    s: StateView,
    ctx: CommandContextView,
    relation: RelationView,
)
    requires
        s.wf(),
        !has_receipt(s.receipts, ctx.store_generation, ctx.operation_id),
    ensures
        ({
            let r = stored(s, ctx, DomainCommandView::Relate { relation });
            let live = |id: EntityId|
                exists|i: int|
                    0 <= i < s.memories.len() && (#[trigger] s.memories[i]).id == id
                        && s.memories[i].lifecycle is Live;
            let replaces = relation.relation_type.supersession();
            &&& r.1 is Ok <==> {
                &&& live(relation.source)
                &&& live(relation.target)
                &&& forall|i: int|
                    0 <= i < s.relations.len() ==> !((#[trigger] s.relations[i]).source
                        == relation.source && s.relations[i].target == relation.target
                        && s.relations[i].relation_type == relation.relation_type)
                &&& replaces ==> relation.source != relation.target && !reaches(
                    s.relations,
                    relation.target,
                    relation.source,
                )
            }
            &&& r.1 is Ok ==> r.0.relations == s.relations.push(relation) && r.0.memories
                == s.memories
            &&& r.1 is Err ==> r.0 == s
        }),
{
    lemma_live(s, relation.source);
    lemma_live(s, relation.target);
}

proof fn lemma_live(s: StateView, id: EntityId)
    requires
        s.wf(),
    ensures
        is_live(s.memories, id) <==> exists|i: int|
            0 <= i < s.memories.len() && (#[trigger] s.memories[i]).id == id
                && s.memories[i].lifecycle is Live,
{
    if has_memory(s.memories, id) {
        let k = choose|i: int| 0 <= i < s.memories.len() && (#[trigger] s.memories[i]).id == id;
        assert(memory_of(s.memories, id) == s.memories[k]);
        assert forall|i: int|
            0 <= i < s.memories.len() && (#[trigger] s.memories[i]).id == id implies i == k by {
            if i < k {
                assert(s.memories[i].id != s.memories[k].id);
            } else if k < i {
                assert(s.memories[k].id != s.memories[i].id);
            }
        }
    }
}

/// A session that is ended has the outcome, the approach and the lessons that
/// were given, and ended now; no other session changes, and none that is over
/// is ended again.
pub proof fn law_ending_a_session(
    s: StateView,
    ctx: CommandContextView,
    session: SessionHandle,
    outcome: TaskOutcome,
    final_approach: Option<Seq<char>>,
    lessons: Seq<Seq<char>>,
    i: int,
)
    requires
        takes_effect(
            s,
            ctx,
            DomainCommandView::EndSession { session, outcome, final_approach, lessons },
        ),
        s.wf(),
        0 <= i < s.sessions.len(),
    ensures
        ({
            let after = stored(
                s,
                ctx,
                DomainCommandView::EndSession { session, outcome, final_approach, lessons },
            ).0;
            let b = s.sessions[i];
            let a = after.sessions[i];
            &&& after.sessions.len() == s.sessions.len()
            &&& b.handle != session ==> a == b
            &&& b.handle == session ==> {
                &&& b.status is Active
                &&& a.status is Ended
                &&& a.outcome == Some(outcome)
                &&& a.final_approach == final_approach
                &&& a.lessons == lessons
                &&& a.ended_at == Some(Instant(s.now))
                &&& a.attempts == b.attempts && a.task_type == b.task_type && a.started_at
                    == b.started_at
            }
            &&& after.memories == s.memories
        }),
{
    let b = s.sessions[i];
    if b.handle == session {
        let k = choose|k: int| 0 <= k < s.sessions.len() && (#[trigger] s.sessions[k]).handle
            == session;
        if i < k {
            assert(s.sessions[i].handle != s.sessions[k].handle);
        } else if k < i {
            assert(s.sessions[k].handle != s.sessions[i].handle);
        }
    }
}

/// A guide that is practised is used once more; a success adds a success and no
/// failure, a failure a failure and no success. No other guide changes, and one
/// that is not there is made.
pub proof fn law_practising_a_guide(
    s: StateView,
    ctx: CommandContextView,
    guide: Seq<char>,
    category: Seq<char>,
    contexts: Seq<Seq<char>>,
    learnings: Seq<Seq<char>>,
    outcome: Option<bool>,
    i: int,
)
    requires
        takes_effect(
            s,
            ctx,
            DomainCommandView::GuidePractice { guide, category, contexts, learnings, outcome },
        ),
        0 <= i < s.guides.len(),
        s.guides[i].usage_count < u32::MAX,
        s.guides[i].success_count < u32::MAX,
        s.guides[i].failure_count < u32::MAX,
    ensures
        ({
            let after = stored(
                s,
                ctx,
                DomainCommandView::GuidePractice { guide, category, contexts, learnings, outcome },
            ).0;
            let b = s.guides[i];
            let a = after.guides[i];
            &&& b.name != guide ==> a == b
            &&& b.name == guide ==> {
                &&& a.name == b.name && a.category == b.category
                &&& a.usage_count == b.usage_count + 1
                &&& a.success_count == b.success_count + if outcome == Some(true) {
                    1int
                } else {
                    0
                }
                &&& a.failure_count == b.failure_count + if outcome == Some(false) {
                    1int
                } else {
                    0
                }
                &&& a.last_used == Some(Instant(s.now))
                &&& forall|l: Seq<char>| #[trigger]
                    a.learnings.contains(l) <==> b.learnings.contains(l) || learnings.contains(l)
                &&& forall|c: Seq<char>| #[trigger]
                    a.contexts.contains(c) <==> b.contexts.contains(c) || contexts.contains(c)
            }
            &&& after.memories == s.memories
        }),
{
    let b = s.guides[i];
    law_with_texts(b.learnings, learnings);
    law_with_texts(b.contexts, contexts);
}

/// A guide that is practised and was not there is there, used once.
pub proof fn law_practising_makes_a_guide(
    s: StateView,
    ctx: CommandContextView,
    guide: Seq<char>,
    category: Seq<char>,
    contexts: Seq<Seq<char>>,
    learnings: Seq<Seq<char>>,
    outcome: Option<bool>,
)
    requires
        takes_effect(
            s,
            ctx,
            DomainCommandView::GuidePractice { guide, category, contexts, learnings, outcome },
        ),
        forall|i: int| 0 <= i < s.guides.len() ==> (#[trigger] s.guides[i]).name != guide,
    ensures
        ({
            let after = stored(
                s,
                ctx,
                DomainCommandView::GuidePractice { guide, category, contexts, learnings, outcome },
            ).0;
            let g = after.guides.last();
            &&& after.guides.len() == s.guides.len() + 1
            &&& g.name == guide && g.category == category && g.usage_count == 1
            &&& g.success_count == if outcome == Some(true) {
                1int
            } else {
                0
            }
            &&& g.failure_count == if outcome == Some(false) {
                1int
            } else {
                0
            }
            &&& forall|l: Seq<char>| #[trigger]
                g.learnings.contains(l) <==> learnings.contains(l)
        }),
{
    law_with_texts(Seq::empty(), learnings);
}

/// A guide that is forgotten is gone, and no other; guides that are merged are
/// gone, and the one that they were merged into is there.
pub proof fn law_forgetting_and_merging_guides(
    s: StateView,
    ctx: CommandContextView,
    name: Seq<char>,
    names: Seq<Seq<char>>,
    result: GuideView,
)
    ensures
        takes_effect(s, ctx, DomainCommandView::GuideForget { name }) ==> forall|g: GuideView|
            #[trigger] stored(s, ctx, DomainCommandView::GuideForget { name }).0.guides.contains(g)
                <==> s.guides.contains(g) && g.name != name,
        takes_effect(s, ctx, DomainCommandView::GuideMerge { source_names: names, result })
            ==> forall|g: GuideView| #[trigger]
            stored(
                s,
                ctx,
                DomainCommandView::GuideMerge { source_names: names, result },
            ).0.guides.contains(g) <==> g == result || (s.guides.contains(g) && !names.contains(
                g.name,
            )),
{
    let one = seq![name];
    let keep_one = |g: GuideView| !one.contains(g.name);
    let keep = |g: GuideView| !names.contains(g.name);
    lemma_filter_keeps(s.guides, keep_one);
    lemma_filter_keeps(s.guides, keep);
    assert forall|t: Seq<char>| #[trigger] one.contains(t) <==> t == name by {
        assert(one[0] == name);
    }
    let left = s.guides.filter(keep);
    assert forall|g: GuideView| #[trigger] left.push(result).contains(g) <==> g == result
        || left.contains(g) by {
        let all = left.push(result);
        assert(all[left.len() as int] == result);
        if left.contains(g) {
            assert(all[left.index_of(g)] == g);
        }
        if all.contains(g) {
            let k = all.index_of(g);
            if k < left.len() {
                assert(left[k] == g);
            }
        }
    }
}

proof fn lemma_known(ms: Seq<MemoryView>, ids: Seq<EntityId>)
    ensures
        forall|id: EntityId| #[trigger]
            known(ms, ids).contains(id) <==> ids.contains(id) && has_memory(ms, id),
    decreases ids.len(),
{
    if ids.len() > 0 {
        let front = ids.drop_last();
        lemma_known(ms, front);
        let rest = known(ms, front);
        let all = known(ms, ids);
        assert forall|id: EntityId| #[trigger] all.contains(id) <==> ids.contains(id) && has_memory(
            ms,
            id,
        ) by {
            if all.contains(id) {
                let k = all.index_of(id);
                if k < rest.len() {
                    assert(rest[k] == id);
                    assert(rest.contains(id));
                    assert(ids[front.index_of(id)] == id);
                } else {
                    assert(ids[ids.len() - 1] == id);
                }
            }
            if ids.contains(id) && has_memory(ms, id) {
                let i = ids.index_of(id);
                if i < front.len() {
                    assert(front[i] == id);
                    assert(rest.contains(id));
                    assert(all[rest.index_of(id)] == id);
                } else {
                    assert(all[all.len() - 1] == id);
                }
            }
        }
    } else {
        assert(known(ms, ids) == Seq::<EntityId>::empty());
    }
}

/// The receipt of a read, or of a rise in trust, names the memories that were
/// named and that there are.
pub proof fn law_receipt_names_what_was_read(
    s: StateView,
    ctx: CommandContextView,
    cmd: DomainCommandView,
    ids: Seq<EntityId>,
)
    requires
        takes_effect(s, ctx, cmd),
        match cmd {
            DomainCommandView::Access { memory_ids, .. } => memory_ids == ids,
            DomainCommandView::BoostConfidence { memory_ids } => memory_ids == ids,
            _ => false,
        },
    ensures
        stored(s, ctx, cmd).1 matches Ok(receipt) && {
            &&& receipt.operation_id == ctx.operation_id
            &&& receipt.outcome matches ReceiptOutcomeView::Success { affected }
            &&& forall|id: EntityId| #[trigger]
                affected.contains(id) <==> ids.contains(id) && exists|i: int|
                    0 <= i < s.memories.len() && (#[trigger] s.memories[i]).id == id
        },
{
    lemma_known(s.memories, ids);
}

} // verus!
