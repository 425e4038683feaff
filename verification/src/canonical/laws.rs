//! What holds of the store across commands.

use crate::canonical::repository::{stored, with_memory};
use crate::domain::command::{CommandContextView, DomainCommandView};
use crate::domain::guide::GuideView;
use crate::domain::id::{EntityId, EntityRevision};
use crate::domain::interpreter::lemma_edited_keeps_ids;
use crate::domain::memory::MemoryView;
use crate::domain::relation::RelationView;
use crate::domain::score::{BOOST_STEP, Score};
use crate::domain::state::{
    accessed, accessed_all, archived, archived_all, blank_guide, boosted_all, context_tag, edited,
    forgotten, has_guide, has_memory, has_receipt, judged, raised, step, StateView,
};
use crate::rank::lemma_filter_members;
use vstd::prelude::*;

verus! {

/// Whether what a command brings can still be stepped `n` times.
pub open spec fn brings_room(cmd: DomainCommandView, n: int) -> bool {
    match cmd {
        DomainCommandView::AddMemory { memory, .. } => (MemoryView {
            entity_revision: EntityRevision(0),
            ..memory
        }).room(n),
        DomainCommandView::Merge { result, .. } => (MemoryView {
            entity_revision: EntityRevision(0),
            ..result
        }).room(n),
        DomainCommandView::GuideMerge { result, .. } => result.room(n),
        DomainCommandView::GuidePractice { .. } => n < u32::MAX,
        _ => true,
    }
}

pub open spec fn memories_room(ms: Seq<MemoryView>, n: int) -> bool {
    forall|i: int| 0 <= i < ms.len() ==> (#[trigger] ms[i]).room(n)
}

pub open spec fn guides_room(gs: Seq<GuideView>, n: int) -> bool {
    forall|i: int| 0 <= i < gs.len() ==> (#[trigger] gs[i]).room(n)
}

/// What can be stepped often can be stepped less often.
pub proof fn lemma_room_mono(s: StateView, a: int, b: int)
    requires
        a <= b,
        s.room(b),
    ensures
        s.room(a),
{
    assert forall|i: int| 0 <= i < s.memories.len() implies (#[trigger] s.memories[i]).room(a) by {
        assert(s.memories[i].room(b));
    }
    assert forall|i: int| 0 <= i < s.guides.len() implies (#[trigger] s.guides[i]).room(a) by {
        assert(s.guides[i].room(b));
    }
}

proof fn lemma_edited_room(
    ms: Seq<MemoryView>,
    id: EntityId,
    change: spec_fn(MemoryView) -> MemoryView,
    n: int,
)
    requires
        memories_room(ms, n + 1),
        forall|m: MemoryView| m.room(n + 1) ==> (#[trigger] change(m)).room(n),
        forall|m: MemoryView| (#[trigger] change(m)).id == m.id,
    ensures
        memories_room(edited(ms, id, change), n),
        forall|x: EntityId| #[trigger] has_memory(edited(ms, id, change), x) == has_memory(ms, x),
{
    lemma_edited_keeps_ids(ms, id, change);
    assert forall|i: int| 0 <= i < ms.len() implies (#[trigger] edited(ms, id, change)[i]).room(
        n,
    ) by {
        assert(ms[i].room(n + 1));
        assert(change(ms[i]).room(n));
    }
}

proof fn lemma_archived_room(ms: Seq<MemoryView>, ids: Seq<EntityId>, now: u64, n: int)
    requires
        memories_room(ms, n + ids.len()),
    ensures
        memories_room(archived_all(ms, ids, now), n),
        forall|x: EntityId| #[trigger]
            has_memory(archived_all(ms, ids, now), x) == has_memory(ms, x),
    decreases ids.len(),
{
    if ids.len() > 0 {
        lemma_archived_room(ms, ids.drop_last(), now, n + 1);
        lemma_edited_room(
            archived_all(ms, ids.drop_last(), now),
            ids.last(),
            |m: MemoryView| archived(m, now),
            n,
        );
    }
}

proof fn lemma_accessed_room(
    ms: Seq<MemoryView>,
    ids: Seq<EntityId>,
    tag: Option<Seq<char>>,
    now: u64,
    n: int,
)
    requires
        memories_room(ms, n + ids.len()),
    ensures
        memories_room(accessed_all(ms, ids, tag, now), n),
        forall|x: EntityId| #[trigger]
            has_memory(accessed_all(ms, ids, tag, now), x) == has_memory(ms, x),
    decreases ids.len(),
{
    if ids.len() > 0 {
        lemma_accessed_room(ms, ids.drop_last(), tag, now, n + 1);
        lemma_edited_room(
            accessed_all(ms, ids.drop_last(), tag, now),
            ids.last(),
            |m: MemoryView| accessed(m, tag, now),
            n,
        );
    }
}

proof fn lemma_boosted_room(ms: Seq<MemoryView>, ids: Seq<EntityId>, now: u64, n: int)
    requires
        memories_room(ms, n + ids.len()),
    ensures
        memories_room(boosted_all(ms, ids, now), n),
        forall|x: EntityId| #[trigger]
            has_memory(boosted_all(ms, ids, now), x) == has_memory(ms, x),
    decreases ids.len(),
{
    if ids.len() > 0 {
        lemma_boosted_room(ms, ids.drop_last(), now, n + 1);
        lemma_edited_room(
            boosted_all(ms, ids.drop_last(), now),
            ids.last(),
            |m: MemoryView| raised(m, Score(BOOST_STEP), now),
            n,
        );
    }
}

proof fn lemma_pushed(ms: Seq<MemoryView>, m: MemoryView, n: int)
    requires
        memories_room(ms, n),
        m.room(n),
    ensures
        memories_room(ms.push(m), n),
        forall|x: EntityId| has_memory(ms, x) ==> #[trigger] has_memory(ms.push(m), x),
{
    assert forall|x: EntityId| has_memory(ms, x) implies #[trigger] has_memory(ms.push(m), x) by {
        let k = choose|k: int| 0 <= k < ms.len() && (#[trigger] ms[k]).id == x;
        assert(ms.push(m)[k].id == x);
    }
}

/// A memory that is put in leaves room where it has room itself.
pub proof fn lemma_put_room(s: StateView, m: MemoryView, n: int)
    requires
        s.room(n),
        m.room(n),
    ensures
        (StateView { memories: with_memory(s.memories, m), ..s }).room(n),
{
    let after = with_memory(s.memories, m);
    assert forall|i: int| 0 <= i < after.len() implies (#[trigger] after[i]).room(n) by {
        if i < s.memories.len() {
            assert(s.memories[i].room(n));
        }
    }
}

proof fn lemma_step_room(s: StateView, cmd: DomainCommandView, n: int)
    requires
        s.room(cmd.weight() + n),
        0 <= n,
        brings_room(cmd, n),
        step(s, cmd) is Ok,
    ensures
        step(s, cmd)->Ok_0.0.room(n),
        forall|x: EntityId|
            has_memory(s.memories, x) ==> #[trigger] has_memory(
                step(s, cmd)->Ok_0.0.memories,
                x,
            ),
{
    let after = step(s, cmd)->Ok_0.0;
    lemma_room_mono(s, n, cmd.weight() + n);
    assert(memories_room(s.memories, cmd.weight() + n));
    assert(guides_room(s.guides, cmd.weight() + n));
    assert(memories_room(s.memories, n));
    assert(guides_room(s.guides, n));
    match cmd {
        DomainCommandView::AddMemory { memory, .. } => {
            let rev = (s.revision + 1) as u64;
            lemma_pushed(
                s.memories,
                MemoryView { entity_revision: EntityRevision(rev), ..memory },
                n,
            );
            assert(memories_room(after.memories, n));
        },
        DomainCommandView::UpdateMemory { id, expected_revision, patch } => {
            lemma_edited_room(s.memories, id, |m: MemoryView| patch.over(m), n);
            assert(memories_room(after.memories, n));
        },
        DomainCommandView::Feedback { memory_id, useful } => {
            lemma_edited_room(s.memories, memory_id, |m: MemoryView| judged(m, useful, s.now), n);
            assert(memories_room(after.memories, n));
        },
        DomainCommandView::Merge { source_ids, result } => {
            let rev = (s.revision + 1) as u64;
            lemma_archived_room(s.memories, source_ids, s.now, n + 1);
            lemma_pushed(
                archived_all(s.memories, source_ids, s.now),
                MemoryView { entity_revision: EntityRevision(rev), ..result },
                n,
            );
            assert(memories_room(after.memories, n));
        },
        DomainCommandView::Forget { id, mode } => {
            lemma_edited_room(s.memories, id, |m: MemoryView| forgotten(m, mode, s.now), n);
            assert(memories_room(after.memories, n));
        },
        DomainCommandView::GuidePractice { guide, category, contexts, learnings, outcome } => {
            let known_guides = if has_guide(s.guides, guide) {
                s.guides
            } else {
                s.guides.push(blank_guide(guide, category, s.now))
            };
            assert forall|i: int| 0 <= i < after.guides.len() implies (
            #[trigger] after.guides[i]).room(n) by {
                if i < s.guides.len() {
                    assert(s.guides[i].room(n + 1));
                }
                assert(known_guides[i].room(n + 1) || known_guides[i] == blank_guide(
                    guide,
                    category,
                    s.now,
                ));
            }
        },
        DomainCommandView::GuideMerge { source_names, result } => {
            let keep = |g: GuideView| !source_names.contains(g.name);
            lemma_filter_members(s.guides, keep);
            assert forall|i: int| 0 <= i < after.guides.len() implies (
            #[trigger] after.guides[i]).room(n) by {
                let kept = s.guides.filter(keep);
                if i < kept.len() {
                    assert(kept.contains(kept[i]));
                    assert(s.guides.contains(kept[i]));
                }
            }
        },
        DomainCommandView::GuideForget { name } => {
            let keep = |g: GuideView| !seq![name].contains(g.name);
            lemma_filter_members(s.guides, keep);
            assert forall|i: int| 0 <= i < after.guides.len() implies (
            #[trigger] after.guides[i]).room(n) by {
                let kept = s.guides.filter(keep);
                assert(kept.contains(kept[i]));
                assert(s.guides.contains(kept[i]));
            }
        },
        DomainCommandView::Access { memory_ids, context } => {
            lemma_accessed_room(s.memories, memory_ids, context_tag(context), s.now, n);
            assert(memories_room(after.memories, n));
        },
        DomainCommandView::BoostConfidence { memory_ids } => {
            lemma_boosted_room(s.memories, memory_ids, s.now, n);
            assert(memories_room(after.memories, n));
        },
        _ => {},
    }
}

/// A new edge steps no counter and changes no memory.
pub proof fn lemma_relate_room(
    s: StateView,
    ctx: CommandContextView,
    relation: RelationView,
    n: int,
)
    requires
        s.room(n),
    ensures
        stored(s, ctx, DomainCommandView::Relate { relation }).0.room(n),
        stored(s, ctx, DomainCommandView::Relate { relation }).0.memories == s.memories,
{
    let after = stored(s, ctx, DomainCommandView::Relate { relation }).0;
    assert(after.memories == s.memories && after.guides == s.guides);
}

/// A command steps each counter no more often than its weight says.
pub proof fn lemma_stored_room(
    s: StateView,
    ctx: CommandContextView,
    cmd: DomainCommandView,
    n: int,
)
    requires
        s.room(cmd.weight() + n),
        0 <= n,
        brings_room(cmd, n),
    ensures
        stored(s, ctx, cmd).0.room(n),
        forall|x: EntityId|
            has_memory(s.memories, x) ==> #[trigger] has_memory(
                stored(s, ctx, cmd).0.memories,
                x,
            ),
{
    lemma_room_mono(s, n, cmd.weight() + n);
    if !has_receipt(s.receipts, ctx.store_generation, ctx.operation_id) && step(s, cmd) is Ok {
        lemma_step_room(s, cmd, n);
        let done = step(s, cmd)->Ok_0.0;
        let after = stored(s, ctx, cmd).0;
        assert(after.memories == done.memories && after.guides == done.guides);
        assert(after.room(n));
    }
}

} // verus!
