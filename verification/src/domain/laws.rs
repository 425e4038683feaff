//! What holds of every store, whatever commands it is given.

use crate::domain::command::{
    refusal, CommandContextView, DomainCommandView, DomainErrorCode, DomainErrorView, ForgetMode,
    MemoryPatchView, ReceiptOutcomeView,
};
use crate::domain::graph::{
    acyclic, law_accepted_edges_keep_acyclic, law_fewer_edges_keep_acyclic, verdict,
    GraphValidation,
};
use crate::domain::id::{EntityId, EntityRevision, OperationId, StoreGeneration};
use crate::domain::interpreter::{lemma_edited_at, lemma_edited_keeps_ids};
use crate::domain::memory::MemoryView;
use crate::domain::relation::RelationView;
use crate::domain::score::{law_score_stays_valid, Score, ACCESS_STEP, BOOST_STEP};
use crate::domain::state::{
    accessed, accessed_all, applied, archived, archived_all, boosted_all, context_tag, edited,
    forgotten, has_alias, has_guide, has_memory, has_receipt, has_session, is_edge, is_live,
    judged, memory_of, raised, receipt_for, receipt_of, session_of, step, step_update, StateView,
};
use vstd::prelude::*;

verus! {

proof fn lemma_new_receipt(s: StateView, ctx: CommandContextView, cmd: DomainCommandView)
    requires
        s.wf(),
        !has_receipt(s.receipts, ctx.store_generation, ctx.operation_id),
        step(s, cmd) is Ok,
    ensures
        applied(s, ctx, cmd).0.receipts == s.receipts.push(
            receipt_for(ctx, step(s, cmd)->Ok_0.1),
        ),
        has_receipt(
            applied(s, ctx, cmd).0.receipts,
            ctx.store_generation,
            ctx.operation_id,
        ),
        receipt_of(applied(s, ctx, cmd).0.receipts, ctx.store_generation, ctx.operation_id)
            == receipt_for(ctx, step(s, cmd)->Ok_0.1),
{
    let rs = applied(s, ctx, cmd).0.receipts;
    let receipt = receipt_for(ctx, step(s, cmd)->Ok_0.1);
    assert(rs == s.receipts.push(receipt));
    assert(rs[s.receipts.len() as int] == receipt);
    let k = choose|k: int|
        0 <= k < rs.len() && (#[trigger] rs[k]).store_generation == ctx.store_generation
            && rs[k].operation_id == ctx.operation_id;
    if k < s.receipts.len() {
        assert(s.receipts[k] == rs[k]);
    }
}

/// A command that was applied can be sent again under its key, as often as one
/// likes: the answer is the same receipt, and nothing more happens. That holds
/// of the key and the digest, whatever command comes with them.
pub proof fn law_replay_is_idempotent(
    s: StateView,
    ctx: CommandContextView,
    cmd: DomainCommandView,
    again: DomainCommandView,
)
    requires
        s.wf(),
        applied(s, ctx, cmd).1 is Ok,
    ensures
        applied(applied(s, ctx, cmd).0, ctx, again) == applied(s, ctx, cmd),
{
    if !has_receipt(s.receipts, ctx.store_generation, ctx.operation_id) {
        lemma_new_receipt(s, ctx, cmd);
    }
}

/// A key that was used is refused with other input, and nothing happens.
pub proof fn law_key_reuse_is_refused(
    s: StateView,
    ctx: CommandContextView,
    cmd: DomainCommandView,
    other: CommandContextView,
    again: DomainCommandView,
)
    requires
        s.wf(),
        applied(s, ctx, cmd).1 is Ok,
        other.store_generation == ctx.store_generation,
        other.operation_id == ctx.operation_id,
        other.request_digest != ctx.request_digest,
    ensures
        applied(applied(s, ctx, cmd).0, other, again).0 == applied(s, ctx, cmd).0,
        applied(applied(s, ctx, cmd).0, other, again).1 == Err::<
            crate::domain::command::CommandReceiptView,
            crate::domain::command::DomainErrorView,
        >(
            refusal(
                DomainErrorCode::KeyReuseDifferentInput,
                "operation key reused with different input"@,
            ),
        ),
{
    if !has_receipt(s.receipts, ctx.store_generation, ctx.operation_id) {
        lemma_new_receipt(s, ctx, cmd);
    }
}

/// A command that is refused changes nothing.
pub proof fn law_refused_changes_nothing(
    s: StateView,
    ctx: CommandContextView,
    cmd: DomainCommandView,
)
    ensures
        applied(s, ctx, cmd).1 is Err ==> applied(s, ctx, cmd).0 == s,
{
}

/// A receipt that is kept stays as it is, whatever comes after it.
pub proof fn law_receipts_are_kept(
    s: StateView,
    ctx: CommandContextView,
    cmd: DomainCommandView,
    generation: StoreGeneration,
    op: OperationId,
)
    requires
        s.wf(),
        has_receipt(s.receipts, generation, op),
    ensures
        has_receipt(applied(s, ctx, cmd).0.receipts, generation, op),
        receipt_of(applied(s, ctx, cmd).0.receipts, generation, op) == receipt_of(
            s.receipts,
            generation,
            op,
        ),
{
    if !has_receipt(s.receipts, ctx.store_generation, ctx.operation_id) && step(s, cmd) is Ok {
        let rs = s.receipts;
        let ns = applied(s, ctx, cmd).0.receipts;
        let receipt = receipt_for(ctx, step(s, cmd)->Ok_0.1);
        assert(ns == rs.push(receipt));
        let i = choose|i: int|
            0 <= i < rs.len() && (#[trigger] rs[i]).store_generation == generation
                && rs[i].operation_id == op;
        assert(ns[i] == rs[i]);
        let k = choose|k: int|
            0 <= k < ns.len() && (#[trigger] ns[k]).store_generation == generation
                && ns[k].operation_id == op;
        if k == rs.len() {
            assert(ns[k] == receipt);
            assert(rs[i].store_generation == ctx.store_generation);
        } else {
            assert(ns[k] == rs[k]);
            if i < k {
                assert(rs[i].store_generation == rs[k].store_generation);
            } else if k < i {
                assert(rs[k].store_generation == rs[i].store_generation);
            }
        }
    }
}

/// No command closes a cycle of supersession.
pub proof fn law_supersession_stays_acyclic(
    s: StateView,
    ctx: CommandContextView,
    cmd: DomainCommandView,
)
    requires
        acyclic(s.relations),
    ensures
        acyclic(applied(s, ctx, cmd).0.relations),
{
    match cmd {
        DomainCommandView::Relate { relation } => {
            let sl = is_live(s.memories, relation.source);
            let tl = is_live(s.memories, relation.target);
            if verdict(relation, s.relations, sl, tl) == GraphValidation::Accept {
                law_accepted_edges_keep_acyclic(relation, s.relations, sl, tl);
            }
        },
        DomainCommandView::Unrelate { source, target, relation_type } => {
            let keep = |r: RelationView| !is_edge(r, source, target, relation_type);
            let fewer = s.relations.filter(keep);
            lemma_filtered(s.relations, keep);
            law_fewer_edges_keep_acyclic(s.relations, fewer);
        },
        _ => {},
    }
}

proof fn lemma_filtered(rels: Seq<RelationView>, keep: spec_fn(RelationView) -> bool)
    ensures
        forall|i: int| 0 <= i < rels.filter(keep).len() ==> rels.contains(
            #[trigger] rels.filter(keep)[i],
        ),
    decreases rels.len(),
{
    reveal(Seq::filter);
    if rels.len() > 0 {
        let d = rels.drop_last();
        lemma_filtered(d, keep);
        let out = rels.filter(keep);
        assert forall|i: int| 0 <= i < out.len() implies rels.contains(#[trigger] out[i]) by {
            if i < d.filter(keep).len() {
                assert(out[i] == d.filter(keep)[i]);
                let k = choose|k: int| 0 <= k < d.len() && d[k] == out[i];
                assert(rels[k] == out[i]);
            } else {
                assert(rels[rels.len() - 1] == out[i]);
            }
        }
    }
}

/// An update that expects a revision and changes the content is the last to be
/// let through for that revision: whatever the next would change, it is refused
/// as stale. The memory holds what the first brought, one revision on.
pub proof fn law_update_takes_the_revision(
    s: StateView,
    id: EntityId,
    rev: EntityRevision,
    p: MemoryPatchView,
    q: MemoryPatchView,
)
    requires
        s.wf(),
        s.room(1),
        p.changes_content(),
        step_update(s, id, Some(rev), p) is Ok,
    ensures
        ({
            let after = step_update(s, id, Some(rev), p)->Ok_0.0;
            let m = memory_of(after.memories, id);
            &&& step_update(after, id, Some(rev), q) == Err::<
                (StateView, ReceiptOutcomeView),
                DomainErrorView,
            >(refusal(DomainErrorCode::RevisionConflict, "stale revision"@))
            &&& m == p.over(memory_of(s.memories, id))
            &&& p.title is Some ==> m.title == p.title->0
            &&& p.fragment is Some ==> m.fragment == p.fragment->0
            &&& m.entity_revision == rev.succ()
        }),
{
    let change = |m: MemoryView| p.over(m);
    let after = step_update(s, id, Some(rev), p)->Ok_0.0;
    let i = choose|i: int| 0 <= i < s.memories.len() && (#[trigger] s.memories[i]).id == id;
    lemma_edited_at(s.memories, i, change);
    lemma_edited_keeps_ids(s.memories, id, change);
    assert(s.memories[i].room(1));
    lemma_edited_at(after.memories, i, change);
    assert(after.memories[i].entity_revision == rev.succ());
}

/// Of two writers that expect the same revision and change the content, the
/// second is refused as stale, and the memory stays as the first left it.
pub proof fn law_one_writer_per_revision(
    s: StateView,
    first: CommandContextView,
    second: CommandContextView,
    id: EntityId,
    rev: EntityRevision,
    p: MemoryPatchView,
    q: MemoryPatchView,
)
    requires
        s.wf(),
        s.room(1),
        p.changes_content(),
        !has_receipt(s.receipts, first.store_generation, first.operation_id),
        !(second.store_generation == first.store_generation && second.operation_id
            == first.operation_id),
        !has_receipt(s.receipts, second.store_generation, second.operation_id),
        applied(
            s,
            first,
            DomainCommandView::UpdateMemory { id, expected_revision: Some(rev), patch: p },
        ).1 is Ok,
    ensures
        ({
            let after = applied(
                s,
                first,
                DomainCommandView::UpdateMemory { id, expected_revision: Some(rev), patch: p },
            ).0;
            let late = applied(
                after,
                second,
                DomainCommandView::UpdateMemory { id, expected_revision: Some(rev), patch: q },
            );
            &&& late.0 == after
            &&& late.1 is Err
            &&& late.1->Err_0.code == DomainErrorCode::RevisionConflict
            &&& memory_of(late.0.memories, id) == p.over(memory_of(s.memories, id))
            &&& memory_of(late.0.memories, id).entity_revision == rev.succ()
        }),
{
    let cmd = DomainCommandView::UpdateMemory { id, expected_revision: Some(rev), patch: p };
    let change = |m: MemoryView| p.over(m);
    let after = applied(s, first, cmd).0;
    let i = choose|i: int| 0 <= i < s.memories.len() && (#[trigger] s.memories[i]).id == id;
    lemma_edited_at(s.memories, i, change);
    lemma_edited_keeps_ids(s.memories, id, change);
    assert(after.memories == s.memories.update(i, change(s.memories[i])));
    assert(s.memories[i].room(1));
    lemma_edited_at(after.memories, i, change);
    assert(after.memories[i].entity_revision == rev.succ());
    lemma_new_receipt(s, first, cmd);
    assert(!has_receipt(after.receipts, second.store_generation, second.operation_id)) by {
        if has_receipt(after.receipts, second.store_generation, second.operation_id) {
            let k = choose|k: int|
                0 <= k < after.receipts.len() && (#[trigger] after.receipts[k]).store_generation
                    == second.store_generation && after.receipts[k].operation_id
                    == second.operation_id;
            if k < s.receipts.len() {
                assert(s.receipts[k] == after.receipts[k]);
            }
        }
    }
}

/// An alias is given to one memory only: whoever comes second is refused.
pub proof fn law_contested_alias_has_one_winner(
    s: StateView,
    first: CommandContextView,
    second: CommandContextView,
    winner: MemoryView,
    loser: MemoryView,
)
    requires
        s.wf(),
        winner.external_alias is Some,
        loser.external_alias == winner.external_alias,
        loser.id != winner.id,
        !has_memory(s.memories, loser.id),
        !has_receipt(s.receipts, first.store_generation, first.operation_id),
        !has_receipt(s.receipts, second.store_generation, second.operation_id),
        !(second.store_generation == first.store_generation && second.operation_id
            == first.operation_id),
        applied(s, first, DomainCommandView::AddMemory { memory: winner, session: None }).1 is Ok,
    ensures
        ({
            let after = applied(
                s,
                first,
                DomainCommandView::AddMemory { memory: winner, session: None },
            ).0;
            let late = applied(
                after,
                second,
                DomainCommandView::AddMemory { memory: loser, session: None },
            );
            &&& late.0 == after
            &&& late.1 is Err
            &&& late.1->Err_0.code == DomainErrorCode::DuplicateAlias
        }),
{
    let cmd = DomainCommandView::AddMemory { memory: winner, session: None };
    let after = applied(s, first, cmd).0;
    lemma_new_receipt(s, first, cmd);
    assert(after.aliases[s.aliases.len() as int].0 == winner.external_alias->0);
    assert(has_alias(after.aliases, winner.external_alias->0));
    assert(!has_memory(after.memories, loser.id)) by {
        if has_memory(after.memories, loser.id) {
            let k = choose|k: int|
                0 <= k < after.memories.len() && (#[trigger] after.memories[k]).id == loser.id;
            if k < s.memories.len() {
                assert(s.memories[k] == after.memories[k]);
            }
        }
    }
    assert(!has_receipt(after.receipts, second.store_generation, second.operation_id)) by {
        if has_receipt(after.receipts, second.store_generation, second.operation_id) {
            let k = choose|k: int|
                0 <= k < after.receipts.len() && (#[trigger] after.receipts[k]).store_generation
                    == second.store_generation && after.receipts[k].operation_id
                    == second.operation_id;
            if k < s.receipts.len() {
                assert(s.receipts[k] == after.receipts[k]);
            }
        }
    }
}

/// A memory that was forgotten, in whatever way, is not live afterwards, and
/// only it has changed.
pub proof fn law_forgotten_is_not_live(
    s: StateView,
    ctx: CommandContextView,
    id: EntityId,
    mode: ForgetMode,
)
    requires
        s.wf(),
        !has_receipt(s.receipts, ctx.store_generation, ctx.operation_id),
        has_memory(s.memories, id),
    ensures
        ({
            let after = applied(s, ctx, DomainCommandView::Forget { id, mode }).0;
            &&& !is_live(after.memories, id)
            &&& forall|i: int|
                0 <= i < s.memories.len() && (#[trigger] s.memories[i]).id != id
                    ==> after.memories[i] == s.memories[i]
        }),
{
    let change = |m: MemoryView| forgotten(m, mode, s.now);
    let i = choose|i: int| 0 <= i < s.memories.len() && (#[trigger] s.memories[i]).id == id;
    lemma_edited_at(s.memories, i, change);
    lemma_edited_keeps_ids(s.memories, id, change);
    let after = applied(s, ctx, DomainCommandView::Forget { id, mode }).0;
    assert(after.memories == s.memories.update(i, change(s.memories[i])));
    lemma_edited_at(after.memories, i, change);
}

// ---------------------------------------------------------------------------
// Confidence
// ---------------------------------------------------------------------------

/// Whether every memory's confidence lies between zero and one.
pub open spec fn confident(ms: Seq<MemoryView>) -> bool {
    forall|i: int| 0 <= i < ms.len() ==> (#[trigger] ms[i]).confidence.valid()
}

/// Whether the confidence that a command brings along lies between zero and
/// one.
pub open spec fn brings_valid_confidence(cmd: DomainCommandView) -> bool {
    match cmd {
        DomainCommandView::AddMemory { memory, .. } => memory.confidence.valid(),
        DomainCommandView::UpdateMemory { patch, .. } => patch.confidence is Some ==> (
        patch.confidence->0).valid(),
        DomainCommandView::Merge { result, .. } => result.confidence.valid(),
        _ => true,
    }
}

proof fn lemma_edited_confident(
    ms: Seq<MemoryView>,
    id: EntityId,
    change: spec_fn(MemoryView) -> MemoryView,
)
    requires
        confident(ms),
        forall|m: MemoryView| m.confidence.valid() ==> (#[trigger] change(m)).confidence.valid(),
    ensures
        confident(edited(ms, id, change)),
{
    assert forall|i: int| 0 <= i < ms.len() implies (#[trigger] edited(
        ms,
        id,
        change,
    )[i]).confidence.valid() by {
        assert(ms[i].confidence.valid());
        assert(change(ms[i]).confidence.valid());
    }
}

proof fn lemma_archived_confident(ms: Seq<MemoryView>, ids: Seq<EntityId>, now: u64)
    requires
        confident(ms),
    ensures
        confident(archived_all(ms, ids, now)),
    decreases ids.len(),
{
    if ids.len() > 0 {
        lemma_archived_confident(ms, ids.drop_last(), now);
        lemma_edited_confident(
            archived_all(ms, ids.drop_last(), now),
            ids.last(),
            |m: MemoryView| archived(m, now),
        );
    }
}

proof fn lemma_accessed_confident(
    ms: Seq<MemoryView>,
    ids: Seq<EntityId>,
    tag: Option<Seq<char>>,
    now: u64,
)
    requires
        confident(ms),
    ensures
        confident(accessed_all(ms, ids, tag, now)),
    decreases ids.len(),
{
    if ids.len() > 0 {
        lemma_accessed_confident(ms, ids.drop_last(), tag, now);
        assert forall|m: MemoryView| m.confidence.valid() implies (#[trigger] accessed(m, tag, now)).confidence.valid() by {
            law_score_stays_valid(m.confidence, Score(ACCESS_STEP));
        }
        lemma_edited_confident(
            accessed_all(ms, ids.drop_last(), tag, now),
            ids.last(),
            |m: MemoryView| accessed(m, tag, now),
        );
    }
}

proof fn lemma_boosted_confident(ms: Seq<MemoryView>, ids: Seq<EntityId>, now: u64)
    requires
        confident(ms),
    ensures
        confident(boosted_all(ms, ids, now)),
    decreases ids.len(),
{
    if ids.len() > 0 {
        lemma_boosted_confident(ms, ids.drop_last(), now);
        assert forall|m: MemoryView| m.confidence.valid() implies (#[trigger] raised(m, Score(BOOST_STEP), now)).confidence.valid() by {
            law_score_stays_valid(m.confidence, Score(BOOST_STEP));
        }
        lemma_edited_confident(
            boosted_all(ms, ids.drop_last(), now),
            ids.last(),
            |m: MemoryView| raised(m, Score(BOOST_STEP), now),
        );
    }
}

/// Confidence stays between zero and one, unless a command itself brings
/// another.
pub proof fn law_confidence_stays_valid(
    s: StateView,
    ctx: CommandContextView,
    cmd: DomainCommandView,
)
    requires
        confident(s.memories),
        brings_valid_confidence(cmd),
    ensures
        confident(applied(s, ctx, cmd).0.memories),
{
    match cmd {
        DomainCommandView::UpdateMemory { id, expected_revision, patch } => {
            lemma_edited_confident(s.memories, id, |m: MemoryView| patch.over(m));
        },
        DomainCommandView::Feedback { memory_id, useful } => {
            assert forall|m: MemoryView| m.confidence.valid() implies (#[trigger] judged(
                m,
                useful,
                s.now,
            )).confidence.valid() by {
                law_score_stays_valid(m.confidence, Score(ACCESS_STEP));
                law_score_stays_valid(m.confidence, Score(BOOST_STEP));
            }
            lemma_edited_confident(
                s.memories,
                memory_id,
                |m: MemoryView| judged(m, useful, s.now),
            );
        },
        DomainCommandView::Merge { source_ids, result } => {
            lemma_archived_confident(s.memories, source_ids, s.now);
        },
        DomainCommandView::Forget { id, mode } => {
            lemma_edited_confident(s.memories, id, |m: MemoryView| forgotten(m, mode, s.now));
        },
        DomainCommandView::Access { memory_ids, context } => {
            lemma_accessed_confident(s.memories, memory_ids, context_tag(context), s.now);
        },
        DomainCommandView::BoostConfidence { memory_ids } => {
            lemma_boosted_confident(s.memories, memory_ids, s.now);
        },
        _ => {},
    }
}

/// A command is refused for a cause, and only then: what it speaks of is not
/// there, is there already, has another revision than it expects, or has ended.
pub proof fn law_refusals_have_a_cause(s: StateView, cmd: DomainCommandView)
    requires
        s.wf(),
    ensures
        ({
            let there = |id: EntityId|
                exists|i: int| 0 <= i < s.memories.len() && (#[trigger] s.memories[i]).id == id;
            let r = step(s, cmd);
            match cmd {
                DomainCommandView::AddMemory { memory, .. } => {
                    &&& r is Ok <==> !there(memory.id) && (memory.external_alias is Some
                        ==> forall|i: int|
                        0 <= i < s.aliases.len() ==> (#[trigger] s.aliases[i]).0
                            != memory.external_alias->0)
                    &&& there(memory.id) ==> r->Err_0.code is Validation
                    &&& !there(memory.id) && r is Err ==> r->Err_0.code is DuplicateAlias
                },
                DomainCommandView::UpdateMemory { id, expected_revision, .. } => {
                    &&& r is Ok <==> exists|i: int|
                        0 <= i < s.memories.len() && (#[trigger] s.memories[i]).id == id && (
                        expected_revision is None || s.memories[i].entity_revision
                            == expected_revision->0)
                    &&& !there(id) ==> r->Err_0.code is NotFound
                    &&& there(id) && r is Err ==> r->Err_0.code is RevisionConflict
                },
                DomainCommandView::Feedback { memory_id, .. } => {
                    &&& r is Ok <==> there(memory_id)
                    &&& r is Err ==> r->Err_0.code is NotFound
                },
                DomainCommandView::Forget { id, .. } => {
                    &&& r is Ok <==> there(id)
                    &&& r is Err ==> r->Err_0.code is NotFound
                },
                DomainCommandView::Unrelate { source, target, relation_type } => {
                    &&& r is Ok <==> exists|i: int|
                        0 <= i < s.relations.len() && (#[trigger] s.relations[i]).source == source
                            && s.relations[i].target == target && s.relations[i].relation_type
                            == relation_type
                    &&& r is Err ==> r->Err_0.code is NotFound
                },
                DomainCommandView::Merge { source_ids, result } => {
                    &&& r is Ok <==> !there(result.id) && forall|k: int|
                        0 <= k < source_ids.len() ==> there(#[trigger] source_ids[k])
                },
                DomainCommandView::EndSession { session, .. } => {
                    &&& r is Ok <==> exists|i: int|
                        0 <= i < s.sessions.len() && (#[trigger] s.sessions[i]).handle == session
                            && !s.sessions[i].status.terminal()
                },
                DomainCommandView::GuideForget { name } => {
                    &&& r is Ok <==> exists|i: int|
                        0 <= i < s.guides.len() && (#[trigger] s.guides[i]).name == name
                    &&& r is Err ==> r->Err_0.code is NotFound
                },
                DomainCommandView::GuideMerge { source_names, result } => {
                    &&& r is Ok <==> (forall|i: int|
                        0 <= i < s.guides.len() ==> (#[trigger] s.guides[i]).name != result.name)
                        && forall|k: int|
                        #![trigger source_names[k]]
                        0 <= k < source_names.len() ==> exists|i: int|
                            0 <= i < s.guides.len() && (#[trigger] s.guides[i]).name
                                == source_names[k]
                },
                DomainCommandView::Relate { .. } => true,
                DomainCommandView::GuidePractice { .. } => r is Ok,
                DomainCommandView::Access { .. } => r is Ok,
                DomainCommandView::BoostConfidence { .. } => r is Ok,
            }
        }),
{
    match cmd {
        DomainCommandView::UpdateMemory { id, expected_revision, .. } => {
            if has_memory(s.memories, id) {
                let m = memory_of(s.memories, id);
                assert forall|i: int|
                    0 <= i < s.memories.len() && (#[trigger] s.memories[i]).id == id implies m
                    == s.memories[i] by {
                    let k = choose|k: int|
                        0 <= k < s.memories.len() && (#[trigger] s.memories[k]).id == id;
                    if i < k {
                        assert(s.memories[i].id != s.memories[k].id);
                    } else if k < i {
                        assert(s.memories[k].id != s.memories[i].id);
                    }
                }
            }
        },
        DomainCommandView::EndSession { session, .. } => {
            if has_session(s.sessions, session) {
                let x = session_of(s.sessions, session);
                assert forall|i: int|
                    0 <= i < s.sessions.len() && (#[trigger] s.sessions[i]).handle
                        == session implies x == s.sessions[i] by {
                    let k = choose|k: int|
                        0 <= k < s.sessions.len() && (#[trigger] s.sessions[k]).handle == session;
                    if i < k {
                        assert(s.sessions[i].handle != s.sessions[k].handle);
                    } else if k < i {
                        assert(s.sessions[k].handle != s.sessions[i].handle);
                    }
                }
            }
        },
        DomainCommandView::Unrelate { source, target, relation_type } => {
            if exists|i: int|
                0 <= i < s.relations.len() && (#[trigger] s.relations[i]).source == source
                    && s.relations[i].target == target && s.relations[i].relation_type
                    == relation_type {
                let i = choose|i: int|
                    0 <= i < s.relations.len() && (#[trigger] s.relations[i]).source == source
                        && s.relations[i].target == target && s.relations[i].relation_type
                        == relation_type;
                assert(is_edge(s.relations[i], source, target, relation_type));
            }
        },
        DomainCommandView::GuideMerge { source_names, result } => {
            assert forall|k: int| 0 <= k < source_names.len() implies has_guide(
                s.guides,
                #[trigger] source_names[k],
            ) == exists|i: int|
                0 <= i < s.guides.len() && (#[trigger] s.guides[i]).name == source_names[k] by {}
        },
        _ => {},
    }
}

} // verus!
