//! What the store promises, whatever commands it is given.

use crate::canonical::repository::{aliased, found, resolved, stored, touches};
use crate::domain::command::{
    refusal, CommandContextView, CommandReceiptView, DomainCommandView, DomainErrorCode,
    DomainErrorView, ForgetMode, MemoryPatchView,
};
use crate::domain::graph::{acyclic, law_fewer_edges_keep_acyclic};
use crate::domain::id::{EntityId, EntityRevision, OperationId, StoreGeneration};
use crate::domain::interpreter::{lemma_edited_at, lemma_edited_keeps_ids};
use crate::domain::laws::{
    law_key_reuse_is_refused, law_receipts_are_kept, law_replay_is_idempotent,
    law_supersession_stays_acyclic,
};
use crate::domain::memory::MemoryView;
use crate::domain::relation::RelationView;
use crate::domain::score::{BOOST_STEP, Score};
use crate::domain::state::{
    accessed, accessed_all, applied, archived, archived_all, boosted_all, context_tag, edited,
    forgotten, has_alias, has_memory, has_receipt, is_edge, judged, memory_of, raised, receipt_of,
    step, unique_memories, StateView,
};
use crate::rank::lemma_filter_members;
use vstd::prelude::*;

verus! {

/// Whether a command is new to the store, and not refused.
pub open spec fn takes_effect(
    s: StateView,
    ctx: CommandContextView,
    cmd: DomainCommandView,
) -> bool {
    !has_receipt(s.receipts, ctx.store_generation, ctx.operation_id) && stored(s, ctx, cmd).1 is Ok
}

// ---------------------------------------------------------------------------
// Receipts
// ---------------------------------------------------------------------------

/// A command that was stored can be sent again under its key, as often as one
/// likes: the answer is the same receipt, and nothing more happens. That holds
/// of the key and the digest, whatever command comes with them.
pub proof fn law_store_replay_is_idempotent(
    s: StateView,
    ctx: CommandContextView,
    cmd: DomainCommandView,
    again: DomainCommandView,
)
    requires
        s.wf(),
        stored(s, ctx, cmd).1 is Ok,
    ensures
        stored(stored(s, ctx, cmd).0, ctx, again) == stored(s, ctx, cmd),
{
    law_replay_is_idempotent(s, ctx, cmd, again);
    let before = applied(s, ctx, cmd).0;
    let after = stored(s, ctx, cmd).0;
    assert(after.receipts == before.receipts);
    assert(applied(after, ctx, again).0 == after);
    assert(applied(after, ctx, again).1 == applied(before, ctx, again).1);
    assert(has_receipt(after.receipts, ctx.store_generation, ctx.operation_id)) by {
        lemma_ok_has_receipt(s, ctx, cmd);
    }
}

proof fn lemma_ok_has_receipt(s: StateView, ctx: CommandContextView, cmd: DomainCommandView)
    requires
        applied(s, ctx, cmd).1 is Ok,
    ensures
        has_receipt(
            applied(s, ctx, cmd).0.receipts,
            ctx.store_generation,
            ctx.operation_id,
        ),
{
    if !has_receipt(s.receipts, ctx.store_generation, ctx.operation_id) {
        let rs = applied(s, ctx, cmd).0.receipts;
        assert(rs[rs.len() - 1].operation_id == ctx.operation_id);
    }
}

/// A key that was used is refused with other input, and nothing happens.
pub proof fn law_store_key_reuse_is_refused(
    s: StateView,
    ctx: CommandContextView,
    cmd: DomainCommandView,
    other: CommandContextView,
    again: DomainCommandView,
)
    requires
        s.wf(),
        stored(s, ctx, cmd).1 is Ok,
        other.store_generation == ctx.store_generation,
        other.operation_id == ctx.operation_id,
        other.request_digest != ctx.request_digest,
    ensures
        stored(stored(s, ctx, cmd).0, other, again) == (
            stored(s, ctx, cmd).0,
            Err::<CommandReceiptView, DomainErrorView>(
                refusal(
                    DomainErrorCode::KeyReuseDifferentInput,
                    "operation key reused with different input"@,
                ),
            ),
        ),
{
    law_key_reuse_is_refused(s, ctx, cmd, other, again);
    lemma_ok_has_receipt(s, ctx, cmd);
    let before = applied(s, ctx, cmd).0;
    let after = stored(s, ctx, cmd).0;
    assert(after.receipts == before.receipts);
    assert(applied(after, other, again).1 == applied(before, other, again).1);
}

/// A command that is refused changes nothing.
pub proof fn law_store_refused_changes_nothing(
    s: StateView,
    ctx: CommandContextView,
    cmd: DomainCommandView,
)
    ensures
        stored(s, ctx, cmd).1 is Err ==> stored(s, ctx, cmd).0 == s,
{
}

/// A receipt that is kept stays as it is, whatever comes after it.
pub proof fn law_store_receipts_are_kept(
    s: StateView,
    ctx: CommandContextView,
    cmd: DomainCommandView,
    generation: StoreGeneration,
    op: OperationId,
)
    requires
        s.wf(),
        has_receipt(s.receipts, generation, op),
    ensures
        has_receipt(stored(s, ctx, cmd).0.receipts, generation, op),
        receipt_of(stored(s, ctx, cmd).0.receipts, generation, op) == receipt_of(
            s.receipts,
            generation,
            op,
        ),
{
    law_receipts_are_kept(s, ctx, cmd, generation, op);
    assert(stored(s, ctx, cmd).0.receipts == applied(s, ctx, cmd).0.receipts);
}

// ---------------------------------------------------------------------------
// Edges
// ---------------------------------------------------------------------------

proof fn lemma_members_kept(s: Seq<RelationView>, keep: spec_fn(RelationView) -> bool)
    ensures
        forall|e: RelationView|
            #[trigger] s.filter(keep).contains(e) <==> s.contains(e) && keep(e),
{
    lemma_filter_members(s, keep);
    let f = s.filter(keep);
    assert forall|e: RelationView| #[trigger] f.contains(e) <==> s.contains(e) && keep(e) by {
        if f.contains(e) {
            let k = f.index_of(e);
            assert(keep(f[k]) && s.contains(f[k]));
        }
        if s.contains(e) && keep(e) {
            s.lemma_filter_contains(keep, s.index_of(e));
        }
    }
}

/// No command closes a cycle of supersession.
pub proof fn law_store_supersession_stays_acyclic(
    s: StateView,
    ctx: CommandContextView,
    cmd: DomainCommandView,
)
    requires
        acyclic(s.relations),
    ensures
        acyclic(stored(s, ctx, cmd).0.relations),
{
    law_supersession_stays_acyclic(s, ctx, cmd);
    let before = applied(s, ctx, cmd).0;
    if let DomainCommandView::Forget { id, mode: ForgetMode::Delete } = cmd {
        let keep = |e: RelationView| !touches(e, id);
        let fewer = before.relations.filter(keep);
        lemma_filter_members(before.relations, keep);
        assert forall|i: int| 0 <= i < fewer.len() implies before.relations.contains(
            #[trigger] fewer[i],
        ) by {
            assert(fewer.contains(fewer[i]));
        }
        law_fewer_edges_keep_acyclic(before.relations, fewer);
    }
}

/// A memory that is deleted leaves no edge behind, and no other edge goes with
/// it.
pub proof fn law_deleted_memory_has_no_edges(s: StateView, ctx: CommandContextView, id: EntityId)
    requires
        takes_effect(s, ctx, DomainCommandView::Forget { id, mode: ForgetMode::Delete }),
    ensures
        ({
            let after = stored(
                s,
                ctx,
                DomainCommandView::Forget { id, mode: ForgetMode::Delete },
            ).0;
            forall|e: RelationView|
                #[trigger] after.relations.contains(e) <==> s.relations.contains(e) && !touches(
                    e,
                    id,
                )
        }),
{
    lemma_members_kept(s.relations, |e: RelationView| !touches(e, id));
}

/// An edge that is taken back is gone, and it alone.
pub proof fn law_unrelate_takes_back(
    s: StateView,
    first: CommandContextView,
    second: CommandContextView,
    relation: RelationView,
)
    requires
        takes_effect(s, first, DomainCommandView::Relate { relation }),
        second.store_generation != first.store_generation || second.operation_id
            != first.operation_id,
        !has_receipt(s.receipts, second.store_generation, second.operation_id),
    ensures
        ({
            let related = stored(s, first, DomainCommandView::Relate { relation }).0;
            let undo = DomainCommandView::Unrelate {
                source: relation.source,
                target: relation.target,
                relation_type: relation.relation_type,
            };
            &&& related.relations == s.relations.push(relation)
            &&& takes_effect(related, second, undo)
            &&& forall|e: RelationView| #[trigger]
                stored(related, second, undo).0.relations.contains(e) <==> s.relations.contains(e)
                    && !is_edge(e, relation.source, relation.target, relation.relation_type)
        }),
{
    let related = stored(s, first, DomainCommandView::Relate { relation }).0;
    let (a, b, t) = (relation.source, relation.target, relation.relation_type);
    let undo = DomainCommandView::Unrelate { source: a, target: b, relation_type: t };
    let n = s.relations.len() as int;
    assert(related.relations == s.relations.push(relation));
    assert(is_edge(related.relations[n], a, b, t));
    if has_receipt(related.receipts, second.store_generation, second.operation_id) {
        let k = choose|k: int|
            0 <= k < related.receipts.len() && (#[trigger] related.receipts[k]).store_generation
                == second.store_generation && related.receipts[k].operation_id
                == second.operation_id;
        assert(k < s.receipts.len() ==> s.receipts[k] == related.receipts[k]);
    }
    let keep = |e: RelationView| !is_edge(e, a, b, t);
    lemma_members_kept(related.relations, keep);
    assert forall|e: RelationView| keep(e) implies (related.relations.contains(e)
        <==> s.relations.contains(e)) by {
        if related.relations.contains(e) {
            let k = related.relations.index_of(e);
            assert(k < n);
            assert(s.relations[k] == e);
        }
        if s.relations.contains(e) {
            let k = s.relations.index_of(e);
            assert(related.relations[k] == e);
        }
    }
}

// ---------------------------------------------------------------------------
// Memories
// ---------------------------------------------------------------------------

proof fn lemma_edited_others(
    ms: Seq<MemoryView>,
    id: EntityId,
    change: spec_fn(MemoryView) -> MemoryView,
    x: EntityId,
)
    requires
        unique_memories(ms),
        forall|m: MemoryView| (#[trigger] change(m)).id == m.id,
    ensures
        unique_memories(edited(ms, id, change)),
        has_memory(edited(ms, id, change), x) == has_memory(ms, x),
        has_memory(ms, x) ==> memory_of(edited(ms, id, change), x) == (if x == id {
            change(memory_of(ms, x))
        } else {
            memory_of(ms, x)
        }),
{
    lemma_edited_keeps_ids(ms, id, change);
    let after = edited(ms, id, change);
    if has_memory(ms, x) {
        let i = choose|i: int| 0 <= i < ms.len() && (#[trigger] ms[i]).id == x;
        let k = choose|k: int| 0 <= k < after.len() && (#[trigger] after[k]).id == x;
        assert(after[i].id == x);
        assert(ms[k].id == x);
        if i < k {
            assert(ms[i].id != ms[k].id);
        } else if k < i {
            assert(ms[k].id != ms[i].id);
        }
    }
}

pub proof fn lemma_pushed_others(ms: Seq<MemoryView>, m: MemoryView, x: EntityId)
    requires
        unique_memories(ms),
        !has_memory(ms, m.id),
    ensures
        unique_memories(ms.push(m)),
        has_memory(ms.push(m), x) == (has_memory(ms, x) || x == m.id),
        has_memory(ms, x) ==> memory_of(ms.push(m), x) == memory_of(ms, x),
        memory_of(ms.push(m), m.id) == m,
{
    let after = ms.push(m);
    let n = ms.len() as int;
    assert(after[n] == m);
    assert forall|i: int, j: int| 0 <= i < j < after.len() implies (#[trigger] after[i]).id != (
    #[trigger] after[j]).id by {
        if j == n {
            assert(ms[i].id != m.id);
        }
    }
    lemma_edited_at(after, n, |y: MemoryView| y);
    if has_memory(ms, x) {
        let i = choose|i: int| 0 <= i < ms.len() && (#[trigger] ms[i]).id == x;
        assert(after[i] == ms[i]);
        lemma_edited_at(ms, i, |y: MemoryView| y);
        lemma_edited_at(after, i, |y: MemoryView| y);
    }
    if has_memory(after, x) && x != m.id {
        let k = choose|k: int| 0 <= k < after.len() && (#[trigger] after[k]).id == x;
        assert(ms[k].id == x);
    }
}

/// A memory that is added is read back as it was given, under the next
/// revision, by its identifier and by its alias; and every other memory is as
/// it was.
pub proof fn law_added_memory_reads_back(
    s: StateView,
    ctx: CommandContextView,
    memory: MemoryView,
    cmd: DomainCommandView,
    other: EntityId,
)
    requires
        s.wf(),
        cmd is AddMemory,
        cmd->AddMemory_memory == memory,
        takes_effect(s, ctx, cmd),
    ensures
        ({
            let after = stored(s, ctx, cmd).0;
            let kept = MemoryView {
                entity_revision: EntityRevision((s.revision + 1) as u64),
                ..memory
            };
            &&& found(after.memories, seq![memory.id]) == seq![kept]
            &&& memory.external_alias is Some ==> resolved(after, memory.external_alias->0)
                == Some(memory.id)
            &&& has_memory(s.memories, other) ==> has_memory(after.memories, other) && memory_of(
                after.memories,
                other,
            ) == memory_of(s.memories, other)
        }),
{
    let after = stored(s, ctx, cmd).0;
    let kept = MemoryView { entity_revision: EntityRevision((s.revision + 1) as u64), ..memory };
    assert(after.memories == s.memories.push(kept));
    lemma_pushed_others(s.memories, kept, other);
    lemma_pushed_others(s.memories, kept, memory.id);
    let ids = seq![memory.id];
    assert(ids.drop_last() =~= Seq::<EntityId>::empty());
    reveal_with_fuel(found, 3);
    assert(found(after.memories, ids) =~= seq![kept]);
    if memory.external_alias is Some {
        let a = memory.external_alias->0;
        assert(after.aliases == s.aliases.push((a, memory.id)));
        lemma_last_alias(s.aliases, a, memory.id, 0);
    }
}

proof fn lemma_last_alias(xs: Seq<(Seq<char>, EntityId)>, alias: Seq<char>, id: EntityId, from: int)
    requires
        !has_alias(xs, alias),
        0 <= from <= xs.len(),
    ensures
        aliased(xs.push((alias, id)), alias, from) == Some(id),
    decreases xs.len() - from,
{
    let all = xs.push((alias, id));
    if from < xs.len() {
        assert(all[from] == xs[from]);
        lemma_last_alias(xs, alias, id, from + 1);
    } else {
        assert(all[from] == (alias, id));
    }
}

/// A patch is read back: each field that it sets holds what it sets, and every
/// other memory is as it was.
pub proof fn law_update_reads_back(
    s: StateView,
    ctx: CommandContextView,
    id: EntityId,
    expected_revision: Option<EntityRevision>,
    patch: MemoryPatchView,
    other: EntityId,
)
    requires
        s.wf(),
        takes_effect(s, ctx, DomainCommandView::UpdateMemory { id, expected_revision, patch }),
        has_memory(s.memories, other),
    ensures
        ({
            let after = stored(
                s,
                ctx,
                DomainCommandView::UpdateMemory { id, expected_revision, patch },
            ).0;
            &&& has_memory(after.memories, other)
            &&& memory_of(after.memories, other) == (if other == id {
                patch.over(memory_of(s.memories, id))
            } else {
                memory_of(s.memories, other)
            })
        }),
{
    lemma_edited_others(s.memories, id, |m: MemoryView| patch.over(m), other);
}

/// Feedback on a memory, and forgetting it, leave every other memory as it is.
pub proof fn law_only_the_named_memory_changes(
    s: StateView,
    ctx: CommandContextView,
    cmd: DomainCommandView,
    other: EntityId,
)
    requires
        s.wf(),
        has_memory(s.memories, other),
        match cmd {
            DomainCommandView::Feedback { memory_id, .. } => memory_id != other,
            DomainCommandView::Forget { id, .. } => id != other,
            _ => false,
        },
    ensures
        has_memory(stored(s, ctx, cmd).0.memories, other),
        memory_of(stored(s, ctx, cmd).0.memories, other) == memory_of(s.memories, other),
{
    match cmd {
        DomainCommandView::Feedback { memory_id, useful } => {
            lemma_edited_others(
                s.memories,
                memory_id,
                |m: MemoryView| judged(m, useful, s.now),
                other,
            );
        },
        DomainCommandView::Forget { id, mode } => {
            lemma_edited_others(
                s.memories,
                id,
                |m: MemoryView| forgotten(m, mode, s.now),
                other,
            );
        },
        _ => {},
    }
}

proof fn lemma_archived_ids(ms: Seq<MemoryView>, ids: Seq<EntityId>, now: u64)
    ensures
        forall|x: EntityId| #[trigger]
            has_memory(archived_all(ms, ids, now), x) == has_memory(ms, x),
    decreases ids.len(),
{
    if ids.len() > 0 {
        lemma_archived_ids(ms, ids.drop_last(), now);
        lemma_edited_keeps_ids(
            archived_all(ms, ids.drop_last(), now),
            ids.last(),
            |m: MemoryView| archived(m, now),
        );
    }
}

proof fn lemma_accessed_ids(
    ms: Seq<MemoryView>,
    ids: Seq<EntityId>,
    tag: Option<Seq<char>>,
    now: u64,
)
    ensures
        forall|x: EntityId| #[trigger]
            has_memory(accessed_all(ms, ids, tag, now), x) == has_memory(ms, x),
    decreases ids.len(),
{
    if ids.len() > 0 {
        lemma_accessed_ids(ms, ids.drop_last(), tag, now);
        lemma_edited_keeps_ids(
            accessed_all(ms, ids.drop_last(), tag, now),
            ids.last(),
            |m: MemoryView| accessed(m, tag, now),
        );
    }
}

proof fn lemma_boosted_ids(ms: Seq<MemoryView>, ids: Seq<EntityId>, now: u64)
    ensures
        forall|x: EntityId| #[trigger]
            has_memory(boosted_all(ms, ids, now), x) == has_memory(ms, x),
    decreases ids.len(),
{
    if ids.len() > 0 {
        lemma_boosted_ids(ms, ids.drop_last(), now);
        lemma_edited_keeps_ids(
            boosted_all(ms, ids.drop_last(), now),
            ids.last(),
            |m: MemoryView| raised(m, Score(BOOST_STEP), now),
        );
    }
}

proof fn lemma_still_has(ms: Seq<MemoryView>, m: MemoryView, x: EntityId)
    requires
        has_memory(ms, x),
    ensures
        has_memory(ms.push(m), x),
{
    let k = choose|k: int| 0 <= k < ms.len() && (#[trigger] ms[k]).id == x;
    assert(ms.push(m)[k].id == x);
}

/// No command takes a memory out of the store: one that is forgotten, merged or
/// deleted is marked as such and stays.
pub proof fn law_memories_are_kept(
    s: StateView,
    ctx: CommandContextView,
    cmd: DomainCommandView,
    id: EntityId,
)
    requires
        has_memory(s.memories, id),
    ensures
        has_memory(stored(s, ctx, cmd).0.memories, id),
{
    if takes_effect(s, ctx, cmd) {
        let after = stored(s, ctx, cmd).0.memories;
        assert(after == step(s, cmd)->Ok_0.0.memories);
        let ms = s.memories;
        match cmd {
            DomainCommandView::AddMemory { memory, .. } => {
                lemma_still_has(ms, after.last(), id);
            },
            DomainCommandView::UpdateMemory { id: x, patch, .. } => {
                lemma_edited_keeps_ids(ms, x, |m: MemoryView| patch.over(m));
            },
            DomainCommandView::Feedback { memory_id, useful } => {
                lemma_edited_keeps_ids(ms, memory_id, |m: MemoryView| judged(m, useful, s.now));
            },
            DomainCommandView::Merge { source_ids, .. } => {
                lemma_archived_ids(ms, source_ids, s.now);
                lemma_still_has(archived_all(ms, source_ids, s.now), after.last(), id);
            },
            DomainCommandView::Forget { id: x, mode } => {
                lemma_edited_keeps_ids(ms, x, |m: MemoryView| forgotten(m, mode, s.now));
            },
            DomainCommandView::Access { memory_ids, context } => {
                lemma_accessed_ids(ms, memory_ids, context_tag(context), s.now);
            },
            DomainCommandView::BoostConfidence { memory_ids } => {
                lemma_boosted_ids(ms, memory_ids, s.now);
            },
            _ => {},
        }
    }
}

} // verus!
