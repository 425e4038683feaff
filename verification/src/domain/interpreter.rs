//! The sequential interpreter of commands: the meaning of every command, one
//! after the other.

use crate::domain::clock::{DeterministicIdGen, FrozenClock};
use crate::domain::command::{
    CommandContext, CommandReceipt, CommandReceiptView, DomainCommand, DomainError, DomainErrorCode,
    DomainErrorView, DomainResult, ForgetMode, MemoryPatch, ReceiptOutcome, ReceiptOutcomeView,
};
use crate::domain::export::CanonicalExport;
use crate::domain::graph::{validate_between, GraphValidation};
use crate::domain::guide::{Guide, GuideView};
use crate::domain::id::{
    ChannelId, EntityId, EntityRevision, ExternalAlias, OperationId, SessionHandle,
    StoreGeneration,
};
use crate::domain::memory::{Instant, Memory, MemoryLifecycle, MemoryView};
use crate::domain::relation::{Relation, RelationType, RelationView};
use crate::domain::score::{ACCESS_STEP, BOOST_STEP, Score};
use crate::domain::session::{
    FeedbackEvent, Session, SessionStatus, SessionView, Suggestion, SuggestionView, TaskOutcome,
};
use crate::domain::state::{
    accessed, accessed_all, applied, archived, archived_all, blank_guide, boosted_all, edited,
    edited_guide, edited_session, ended, forgotten, fresh_session, has_alias, has_guide, has_memory,
    has_receipt, has_session, is_edge, is_live, judged, known, memory_of, practised, raised,
    receipt_of, session_of, step, step_access, step_add, step_boost, step_end_session,
    step_feedback, step_forget, step_guide_forget, step_guide_merge, step_guide_practice,
    step_merge, step_relate, step_unrelate, step_update, unique_guides, unique_memories,
    unique_receipts, unique_sessions, without_guides, StateView, Step,
};
use crate::order::{
    arranged, law_sorted_same_items, lemma_sorted_views, sorted_from, text_lt,
};
use crate::text::{
    add_text, add_texts, clone_all, clone_texts, dec, decimal_wide, digit, holds, lower, opt_str,
    opt_view, same, trim, views,
};
use vstd::prelude::*;

verus! {

/// A store in memory.
#[derive(Debug)]
pub struct ReferenceInterpreter {
    pub store_generation: StoreGeneration,
    pub memories: Vec<Memory>,
    pub aliases: Vec<(ExternalAlias, EntityId)>,
    pub guides: Vec<Guide>,
    pub sessions: Vec<Session>,
    pub relations: Vec<Relation>,
    pub feedback: Vec<FeedbackEvent>,
    pub suggestions: Vec<Suggestion>,
    pub receipts: Vec<CommandReceipt>,
    pub id_gen: DeterministicIdGen,
    pub clock: FrozenClock,
    pub revision_counter: u64,
}

/// The views of a list of aliases.
pub open spec fn alias_views(xs: Seq<(ExternalAlias, EntityId)>) -> Seq<(Seq<char>, EntityId)> {
    xs.map_values(|a: (ExternalAlias, EntityId)| (a.0@, a.1))
}

impl View for ReferenceInterpreter {
    type V = StateView;

    open spec fn view(&self) -> StateView {
        StateView {
            store_generation: self.store_generation,
            memories: views(self.memories@),
            aliases: alias_views(self.aliases@),
            guides: views(self.guides@),
            sessions: views(self.sessions@),
            relations: views(self.relations@),
            feedback: self.feedback@,
            suggestions: views(self.suggestions@),
            receipts: views(self.receipts@),
            last_id: self.id_gen.last_entity(),
            now: self.clock@,
            revision: self.revision_counter,
        }
    }
}

/// Whether an operation did what a step says.
pub open spec fn did(
    before: StateView,
    after: StateView,
    r: DomainResult<ReceiptOutcome>,
    s: Step,
) -> bool {
    match s {
        Err(e) => after == before && r is Err && r->Err_0@ == e,
        Ok(done) => after == done.0 && r is Ok && r->Ok_0@ == done.1,
    }
}

/// The view of what `apply` returns.
pub open spec fn receipt_result(r: DomainResult<CommandReceipt>) -> Result<
    CommandReceiptView,
    DomainErrorView,
> {
    match r {
        Ok(x) => Ok(x@),
        Err(e) => Err(e@),
    }
}

// ---------------------------------------------------------------------------
// Editing one record of many
// ---------------------------------------------------------------------------

/// Where identifiers are unique, editing by identifier is editing in place.
pub proof fn lemma_edited_at(
    ms: Seq<MemoryView>,
    i: int,
    change: spec_fn(MemoryView) -> MemoryView,
)
    requires
        unique_memories(ms),
        0 <= i < ms.len(),
    ensures
        edited(ms, ms[i].id, change) == ms.update(i, change(ms[i])),
        has_memory(ms, ms[i].id),
        memory_of(ms, ms[i].id) == ms[i],
{
    let id = ms[i].id;
    assert(edited(ms, id, change) =~= ms.update(i, change(ms[i]))) by {
        assert forall|j: int| 0 <= j < ms.len() implies edited(ms, id, change)[j] == ms.update(
            i,
            change(ms[i]),
        )[j] by {
            if j < i {
                assert(ms[j].id != ms[i].id);
            } else if j > i {
                assert(ms[i].id != ms[j].id);
            }
        }
    }
    let k = choose|k: int| 0 <= k < ms.len() && (#[trigger] ms[k]).id == id;
    assert(ms[k].id == id);
    if k < i {
        assert(ms[k].id != ms[i].id);
    } else if k > i {
        assert(ms[i].id != ms[k].id);
    }
}

/// Editing an identifier that no memory has changes nothing.
pub proof fn lemma_edited_absent(
    ms: Seq<MemoryView>,
    id: EntityId,
    change: spec_fn(MemoryView) -> MemoryView,
)
    requires
        !has_memory(ms, id),
    ensures
        edited(ms, id, change) == ms,
{
    assert forall|j: int| 0 <= j < ms.len() implies edited(ms, id, change)[j] == ms[j] by {
        assert(ms[j].id != id);
    }
    assert(edited(ms, id, change) =~= ms);
}

/// Changes that keep identifiers keep them unique and known.
pub proof fn lemma_edited_keeps_ids(
    ms: Seq<MemoryView>,
    id: EntityId,
    change: spec_fn(MemoryView) -> MemoryView,
)
    requires
        forall|m: MemoryView| (#[trigger] change(m)).id == m.id,
    ensures
        edited(ms, id, change).len() == ms.len(),
        forall|j: int| 0 <= j < ms.len() ==> (#[trigger] edited(ms, id, change)[j]).id == ms[j].id,
        unique_memories(ms) ==> unique_memories(edited(ms, id, change)),
        forall|x: EntityId| #[trigger] has_memory(edited(ms, id, change), x) == has_memory(ms, x),
{
    let es = edited(ms, id, change);
    assert forall|j: int| 0 <= j < ms.len() implies (#[trigger] es[j]).id == ms[j].id by {}
    assert forall|x: EntityId| #[trigger] has_memory(es, x) == has_memory(ms, x) by {
        if has_memory(ms, x) {
            let k = choose|k: int| 0 <= k < ms.len() && (#[trigger] ms[k]).id == x;
            assert(es[k].id == x);
        }
        if has_memory(es, x) {
            let k = choose|k: int| 0 <= k < es.len() && (#[trigger] es[k]).id == x;
            assert(ms[k].id == x);
        }
    }
}

impl ReferenceInterpreter {
    /// Nothing is stored yet; the clock stands at `start_millis`.
    pub fn new(seed: u128, start_millis: u64) -> (r: Self)
        requires
            seed + 1000 <= u128::MAX,
        ensures
            r@ == (StateView {
                store_generation: StoreGeneration(1),
                memories: Seq::empty(),
                aliases: Seq::empty(),
                guides: Seq::empty(),
                sessions: Seq::empty(),
                relations: Seq::empty(),
                feedback: Seq::empty(),
                suggestions: Seq::empty(),
                receipts: Seq::empty(),
                last_id: seed,
                now: start_millis,
                revision: 0,
            }),
            r@.wf(),
    {
        let r = ReferenceInterpreter {
            store_generation: StoreGeneration::first(),
            memories: Vec::new(),
            aliases: Vec::new(),
            guides: Vec::new(),
            sessions: Vec::new(),
            relations: Vec::new(),
            feedback: Vec::new(),
            suggestions: Vec::new(),
            receipts: Vec::new(),
            id_gen: DeterministicIdGen::new(seed),
            clock: FrozenClock::new(start_millis),
            revision_counter: 0,
        };
        proof {
            assert(views(r.memories@) =~= Seq::empty());
            assert(alias_views(r.aliases@) =~= Seq::empty());
            assert(views(r.guides@) =~= Seq::empty());
            assert(views(r.sessions@) =~= Seq::empty());
            assert(views(r.relations@) =~= Seq::empty());
            assert(r.feedback@ =~= Seq::empty());
            assert(views(r.suggestions@) =~= Seq::empty());
            assert(views(r.receipts@) =~= Seq::empty());
        }
        r
    }

    /// Where the memory with an identifier is.
    pub fn memory_position(&self, id: EntityId) -> (r: Option<usize>)
        ensures
            match r {
                Some(i) => i < self@.memories.len() && self.memories@[i as int]@ == self@.memories[i as int]
                    && self@.memories[i as int].id == id,
                None => !has_memory(self@.memories, id),
            },
    {
        let mut i: usize = 0;
        while i < self.memories.len()
            invariant
                i <= self.memories.len(),
                forall|j: int| 0 <= j < i ==> (#[trigger] self@.memories[j]).id != id,
            decreases self.memories.len() - i,
        {
            proof {
                assert(self@.memories[i as int] == self.memories@[i as int]@);
            }
            if self.memories[i].id == id {
                return Some(i);
            }
            i += 1;
        }
        None
    }

    /// The memory with an identifier.
    pub fn memory(&self, id: EntityId) -> (r: Option<&Memory>)
        requires
            self@.wf(),
        ensures
            match r {
                Some(m) => has_memory(self@.memories, id) && m@ == memory_of(self@.memories, id),
                None => !has_memory(self@.memories, id),
            },
    {
        match self.memory_position(id) {
            Some(i) => {
                proof {
                    lemma_edited_at(self@.memories, i as int, |m: MemoryView| m);
                }
                Some(&self.memories[i])
            },
            None => None,
        }
    }

    fn alias_used(&self, alias: &str) -> (r: bool)
        ensures
            r == has_alias(self@.aliases, alias@),
    {
        let mut i: usize = 0;
        while i < self.aliases.len()
            invariant
                i <= self.aliases.len(),
                forall|j: int| 0 <= j < i ==> (#[trigger] self@.aliases[j]).0 != alias@,
            decreases self.aliases.len() - i,
        {
            proof {
                assert(self@.aliases[i as int].0 == self.aliases@[i as int].0@);
            }
            if same(self.aliases[i].0.as_str(), alias) {
                return true;
            }
            i += 1;
        }
        false
    }

    fn receipt_position(&self, generation: StoreGeneration, op: OperationId) -> (r: Option<usize>)
        ensures
            match r {
                Some(i) => i < self@.receipts.len() && self.receipts@[i as int]@
                    == self@.receipts[i as int] && self@.receipts[i as int].store_generation
                    == generation && self@.receipts[i as int].operation_id == op,
                None => !has_receipt(self@.receipts, generation, op),
            },
    {
        let mut i: usize = 0;
        while i < self.receipts.len()
            invariant
                i <= self.receipts.len(),
                forall|j: int|
                    0 <= j < i ==> !((#[trigger] self@.receipts[j]).store_generation == generation
                        && self@.receipts[j].operation_id == op),
            decreases self.receipts.len() - i,
        {
            proof {
                assert(self@.receipts[i as int] == self.receipts@[i as int]@);
            }
            if self.receipts[i].store_generation == generation && self.receipts[i].operation_id
                == op {
                return Some(i);
            }
            i += 1;
        }
        None
    }

    /// The receipt that is kept under a key.
    pub fn lookup_receipt(&self, generation: StoreGeneration, op: OperationId) -> (r: Option<
        &CommandReceipt,
    >)
        requires
            self@.wf(),
        ensures
            match r {
                Some(x) => has_receipt(self@.receipts, generation, op) && x@ == receipt_of(
                    self@.receipts,
                    generation,
                    op,
                ),
                None => !has_receipt(self@.receipts, generation, op),
            },
    {
        match self.receipt_position(generation, op) {
            Some(i) => {
                proof {
                    lemma_receipt_at(self@.receipts, i as int);
                }
                Some(&self.receipts[i])
            },
            None => None,
        }
    }

    fn next_revision(&mut self) -> (r: EntityRevision)
        requires
            old(self)@.revision < u64::MAX,
        ensures
            final(self)@ == (StateView {
                revision: (old(self)@.revision + 1) as u64,
                ..old(self)@
            }),
            r == EntityRevision((old(self)@.revision + 1) as u64),
    {
        self.revision_counter = self.revision_counter + 1;
        EntityRevision::new(self.revision_counter)
    }

    fn apply_add_memory(&mut self, memory: &Memory) -> (r: DomainResult<ReceiptOutcome>)
        requires
            old(self)@.wf(),
            old(self)@.room(1),
        ensures
            final(self)@.wf(),
            did(old(self)@, final(self)@, r, step_add(old(self)@, memory@)),
    {
        if self.memory_position(memory.id).is_some() {
            return Err(DomainError::new(DomainErrorCode::Validation, "memory already exists"));
        }
        if let Some(alias) = &memory.external_alias {
            if self.alias_used(alias.as_str()) {
                return Err(
                    DomainError::new(DomainErrorCode::DuplicateAlias, "alias already in use"),
                );
            }
        }
        let ghost before = self@;
        let mut memory = memory.clone();
        let id = memory.id;
        memory.entity_revision = self.next_revision();
        if let Some(alias) = &memory.external_alias {
            let ghost old_aliases = self.aliases@;
            self.aliases.push((alias.clone(), id));
            proof {
                assert(alias_views(self.aliases@) =~= alias_views(old_aliases).push((alias@, id)));
            }
        }
        let ghost old_memories = self.memories@;
        let ghost pushed = memory@;
        self.memories.push(memory);
        proof {
            assert(views(self.memories@) =~= views(old_memories).push(pushed));
            assert forall|j: int| 0 <= j < before.memories.len() implies (
            #[trigger] before.memories[j]).id != id by {}
        }
        let mut affected: Vec<EntityId> = Vec::new();
        affected.push(id);
        proof {
            assert(affected@ =~= seq![id]);
        }
        Ok(ReceiptOutcome::Success { affected })
    }

    /// Changes the fields of a memory that a patch names, and no other memory. A
    /// revision that was expected must be the memory's own.
    pub fn apply_update_memory(
        &mut self,
        id: EntityId,
        expected_revision: Option<EntityRevision>,
        patch: &MemoryPatch,
    ) -> (r: DomainResult<ReceiptOutcome>)
        requires
            old(self)@.wf(),
            old(self)@.room(1),
        ensures
            final(self)@.wf(),
            did(old(self)@, final(self)@, r, step_update(old(self)@, id, expected_revision, patch@)),
    {
        let ghost change = |m: MemoryView| patch@.over(m);
        match self.memory_position(id) {
            None => Err(DomainError::new(DomainErrorCode::NotFound, "memory not found")),
            Some(i) => {
                let ghost before = self.memories@;
                proof {
                    lemma_edited_at(self@.memories, i as int, change);
                    lemma_edited_keeps_ids(self@.memories, id, change);
                    assert(self@.memories[i as int].room(1));
                }
                if let Some(expected) = expected_revision {
                    if self.memories[i].entity_revision != expected {
                        return Err(
                            DomainError::new(DomainErrorCode::RevisionConflict, "stale revision"),
                        );
                    }
                }
                patch_memory(&mut self.memories[i], patch);
                proof {
                    assert(views(self.memories@) =~= views(before).update(
                        i as int,
                        change(views(before)[i as int]),
                    ));
                }
                Ok(one_affected(id))
            },
        }
    }

    fn apply_feedback(&mut self, memory_id: EntityId, useful: bool) -> (r: DomainResult<
        ReceiptOutcome,
    >)
        requires
            old(self)@.wf(),
            old(self)@.room(1),
        ensures
            final(self)@.wf(),
            did(old(self)@, final(self)@, r, step_feedback(old(self)@, memory_id, useful)),
    {
        let now = self.clock.now_millis();
        let ghost change = |m: MemoryView| judged(m, useful, now);
        match self.memory_position(memory_id) {
            None => Err(DomainError::new(DomainErrorCode::NotFound, "memory not found")),
            Some(i) => {
                let ghost before = self.memories@;
                proof {
                    lemma_edited_at(self@.memories, i as int, change);
                    lemma_edited_keeps_ids(self@.memories, memory_id, change);
                    assert(self@.memories[i as int].room(1));
                }
                judge_memory(&mut self.memories[i], useful, now);
                proof {
                    assert(views(self.memories@) =~= views(before).update(
                        i as int,
                        change(views(before)[i as int]),
                    ));
                }
                let event = self.id_gen.next_entity_id();
                self.feedback.push(
                    FeedbackEvent { id: event, memory_id, useful, timestamp: Instant::new(now) },
                );
                Ok(one_affected(memory_id))
            },
        }
    }

    /// Whether a memory with an identifier is live.
    pub fn memory_is_live(&self, id: EntityId) -> (r: bool)
        requires
            self@.wf(),
        ensures
            r == is_live(self@.memories, id),
    {
        match self.memory(id) {
            Some(m) => m.lifecycle.is_recallable(),
            None => false,
        }
    }

    fn apply_relate(&mut self, relation: &Relation) -> (r: DomainResult<ReceiptOutcome>)
        requires
            old(self)@.wf(),
        ensures
            final(self)@.wf(),
            did(old(self)@, final(self)@, r, step_relate(old(self)@, relation@)),
    {
        let source_live = self.memory_is_live(relation.source);
        let target_live = self.memory_is_live(relation.target);
        match validate_between(relation, &self.relations, source_live, target_live) {
            GraphValidation::Reject(code) => {
                return Err(DomainError::new(code, "graph validation failed"));
            },
            GraphValidation::Accept => {},
        }
        let ghost before = self.relations@;
        let copy = relation.clone();
        self.relations.push(copy);
        proof {
            assert(views(self.relations@) =~= views(before).push(relation@));
        }
        let mut affected: Vec<EntityId> = Vec::new();
        affected.push(relation.source);
        affected.push(relation.target);
        proof {
            assert(affected@ =~= seq![relation.source, relation.target]);
        }
        Ok(ReceiptOutcome::Success { affected })
    }

    fn apply_unrelate(
        &mut self,
        source: EntityId,
        target: EntityId,
        relation_type: RelationType,
    ) -> (r: DomainResult<ReceiptOutcome>)
        requires
            old(self)@.wf(),
        ensures
            final(self)@.wf(),
            did(
                old(self)@,
                final(self)@,
                r,
                step_unrelate(old(self)@, source, target, relation_type),
            ),
    {
        let removed = remove_edges(&mut self.relations, source, target, relation_type);
        if !removed {
            return Err(DomainError::new(DomainErrorCode::NotFound, "relation not found"));
        }
        let mut affected: Vec<EntityId> = Vec::new();
        affected.push(source);
        affected.push(target);
        proof {
            assert(affected@ =~= seq![source, target]);
        }
        Ok(ReceiptOutcome::Success { affected })
    }

    fn apply_merge(&mut self, source_ids: &Vec<EntityId>, result: &Memory) -> (r: DomainResult<
        ReceiptOutcome,
    >)
        requires
            old(self)@.wf(),
            old(self)@.room(source_ids@.len() as int + 1),
        ensures
            final(self)@.wf(),
            did(old(self)@, final(self)@, r, step_merge(old(self)@, source_ids@, result@)),
    {
        let mut i: usize = 0;
        while i < source_ids.len()
            invariant
                i <= source_ids.len(),
                *self == *old(self),
                old(self)@.wf(),
                forall|j: int| 0 <= j < i ==> has_memory(self@.memories, #[trigger] source_ids@[j]),
            decreases source_ids.len() - i,
        {
            if self.memory_position(source_ids[i]).is_none() {
                proof {
                    assert(!has_memory(self@.memories, source_ids@[i as int]));
                }
                return Err(DomainError::new(DomainErrorCode::NotFound, "source memory not found"));
            }
            i += 1;
        }
        if self.memory_position(result.id).is_some() {
            return Err(
                DomainError::new(DomainErrorCode::Validation, "result memory already exists"),
            );
        }
        let now = self.clock.now_millis();
        let ghost start = self@;
        let ghost change = |m: MemoryView| archived(m, now);
        let mut affected: Vec<EntityId> = Vec::new();
        let mut k: usize = 0;
        proof {
            assert(source_ids@.take(0) =~= Seq::empty());
            assert(start.memories =~= archived_all(start.memories, source_ids@.take(0), now));
        }
        while k < source_ids.len()
            invariant
                k <= source_ids.len(),
                now == start.now,
                change == (|m: MemoryView| archived(m, now)),
                start.wf(),
                start.room(source_ids@.len() as int + 1),
                self@ == (StateView {
                    memories: archived_all(start.memories, source_ids@.take(k as int), now),
                    ..start
                }),
                unique_memories(self@.memories),
                affected@ == source_ids@.take(k as int),
                forall|j: int| 0 <= j < source_ids@.len() ==> has_memory(
                    start.memories,
                    #[trigger] source_ids@[j],
                ),
                forall|x: EntityId| #[trigger]
                    has_memory(self@.memories, x) == has_memory(start.memories, x),
                forall|j: int|
                    0 <= j < self@.memories.len() ==> (#[trigger] self@.memories[j]).room(
                        source_ids@.len() + 1 - k,
                    ),
            decreases source_ids.len() - k,
        {
            let id = source_ids[k];
            let ghost prior = self@;
            proof {
                let t = source_ids@.take(k + 1);
                assert(t.drop_last() =~= source_ids@.take(k as int));
                assert(t.last() == id);
                assert(has_memory(start.memories, source_ids@[k as int]));
                lemma_edited_keeps_ids(prior.memories, id, change);
            }
            if let Some(at) = self.memory_position(id) {
                let ghost before = self.memories@;
                proof {
                    lemma_edited_at(self@.memories, at as int, change);
                    assert(self@.memories[at as int].room(source_ids@.len() + 1 - k));
                }
                archive_memory(&mut self.memories[at], now);
                proof {
                    assert(views(self.memories@) =~= views(before).update(
                        at as int,
                        change(views(before)[at as int]),
                    ));
                    assert(self@.memories == edited(prior.memories, id, change));
                    assert forall|j: int| 0 <= j < self@.memories.len() implies (
                    #[trigger] self@.memories[j]).room(source_ids@.len() + 1 - (k + 1)) by {
                        assert(prior.memories[j].room(source_ids@.len() + 1 - k));
                    }
                }
                affected.push(id);
                proof {
                    assert(affected@ =~= source_ids@.take(k + 1));
                }
            }
            k += 1;
        }
        proof {
            assert(source_ids@.take(source_ids@.len() as int) =~= source_ids@);
        }
        let mut result = result.clone();
        let id = result.id;
        result.entity_revision = self.next_revision();
        let ghost before = self.memories@;
        let ghost pushed = result@;
        self.memories.push(result);
        affected.push(id);
        proof {
            assert(views(self.memories@) =~= views(before).push(pushed));
            assert(!has_memory(views(before), id));
            assert forall|j: int| 0 <= j < views(before).len() implies (#[trigger] views(
                before,
            )[j]).id != id by {}
        }
        Ok(ReceiptOutcome::Success { affected })
    }

    fn apply_forget(&mut self, id: EntityId, mode: ForgetMode) -> (r: DomainResult<ReceiptOutcome>)
        requires
            old(self)@.wf(),
            old(self)@.room(1),
        ensures
            final(self)@.wf(),
            did(old(self)@, final(self)@, r, step_forget(old(self)@, id, mode)),
    {
        let now = self.clock.now_millis();
        let ghost change = |m: MemoryView| forgotten(m, mode, now);
        match self.memory_position(id) {
            None => Err(DomainError::new(DomainErrorCode::NotFound, "memory not found")),
            Some(i) => {
                let ghost before = self.memories@;
                proof {
                    lemma_edited_at(self@.memories, i as int, change);
                    lemma_edited_keeps_ids(self@.memories, id, change);
                    assert(self@.memories[i as int].room(1));
                }
                forget_memory(&mut self.memories[i], mode, now);
                proof {
                    assert(views(self.memories@) =~= views(before).update(
                        i as int,
                        change(views(before)[i as int]),
                    ));
                }
                Ok(one_affected(id))
            },
        }
    }

    fn apply_access(&mut self, memory_ids: &Vec<EntityId>, context: Option<&str>) -> (r:
        DomainResult<ReceiptOutcome>)
        requires
            old(self)@.wf(),
            old(self)@.room(memory_ids@.len() as int),
        ensures
            final(self)@.wf(),
            did(old(self)@, final(self)@, r, step_access(old(self)@, memory_ids@, opt_str(context))),
    {
        let now = self.clock.now_millis();
        let tag: Option<String> = match context {
            None => None,
            Some(t) => {
                let t = lower(trim(t).as_str());
                if t.as_str().is_empty() {
                    None
                } else {
                    Some(t)
                }
            },
        };
        let ghost start = self@;
        let ghost change = |m: MemoryView| accessed(m, opt_view(tag), now);
        let mut affected: Vec<EntityId> = Vec::new();
        let mut k: usize = 0;
        proof {
            assert(memory_ids@.take(0) =~= Seq::empty());
            assert(start.memories =~= accessed_all(
                start.memories,
                memory_ids@.take(0),
                opt_view(tag),
                now,
            ));
        }
        while k < memory_ids.len()
            invariant
                k <= memory_ids.len(),
                now == start.now,
                change == (|m: MemoryView| accessed(m, opt_view(tag), now)),
                start.wf(),
                self@ == (StateView {
                    memories: accessed_all(
                        start.memories,
                        memory_ids@.take(k as int),
                        opt_view(tag),
                        now,
                    ),
                    ..start
                }),
                unique_memories(self@.memories),
                affected@ == known(start.memories, memory_ids@.take(k as int)),
                forall|x: EntityId| #[trigger]
                    has_memory(self@.memories, x) == has_memory(start.memories, x),
                forall|j: int|
                    0 <= j < self@.memories.len() ==> (#[trigger] self@.memories[j]).room(
                        memory_ids@.len() - k,
                    ),
            decreases memory_ids.len() - k,
        {
            let id = memory_ids[k];
            let ghost prior = self@;
            proof {
                let t = memory_ids@.take(k + 1);
                assert(t.drop_last() =~= memory_ids@.take(k as int));
                assert(t.last() == id);
                lemma_edited_keeps_ids(prior.memories, id, change);
                assert(has_memory(prior.memories, id) == has_memory(start.memories, id));
            }
            match self.memory_position(id) {
                Some(at) => {
                    let ghost before = self.memories@;
                    proof {
                        lemma_edited_at(self@.memories, at as int, change);
                        assert(self@.memories[at as int].room(memory_ids@.len() - k));
                    }
                    access_memory(&mut self.memories[at], &tag, now);
                    proof {
                        assert(views(self.memories@) =~= views(before).update(
                            at as int,
                            change(views(before)[at as int]),
                        ));
                        assert(self@.memories == edited(prior.memories, id, change));
                    }
                    affected.push(id);
                },
                None => {
                    proof {
                        lemma_edited_absent(prior.memories, id, change);
                    }
                },
            }
            proof {
                assert forall|j: int| 0 <= j < self@.memories.len() implies (
                #[trigger] self@.memories[j]).room(memory_ids@.len() - (k + 1)) by {
                    assert(prior.memories[j].room(memory_ids@.len() - k));
                }
            }
            k += 1;
        }
        proof {
            assert(memory_ids@.take(memory_ids@.len() as int) =~= memory_ids@);
        }
        Ok(ReceiptOutcome::Success { affected })
    }

    fn apply_boost_confidence(&mut self, memory_ids: &Vec<EntityId>) -> (r: DomainResult<
        ReceiptOutcome,
    >)
        requires
            old(self)@.wf(),
            old(self)@.room(memory_ids@.len() as int),
        ensures
            final(self)@.wf(),
            did(old(self)@, final(self)@, r, step_boost(old(self)@, memory_ids@)),
    {
        let now = self.clock.now_millis();
        let ghost start = self@;
        let ghost change = |m: MemoryView| raised(m, Score(BOOST_STEP), now);
        let mut affected: Vec<EntityId> = Vec::new();
        let mut k: usize = 0;
        proof {
            assert(memory_ids@.take(0) =~= Seq::empty());
            assert(start.memories =~= boosted_all(start.memories, memory_ids@.take(0), now));
        }
        while k < memory_ids.len()
            invariant
                k <= memory_ids.len(),
                now == start.now,
                change == (|m: MemoryView| raised(m, Score(BOOST_STEP), now)),
                start.wf(),
                self@ == (StateView {
                    memories: boosted_all(start.memories, memory_ids@.take(k as int), now),
                    ..start
                }),
                unique_memories(self@.memories),
                affected@ == known(start.memories, memory_ids@.take(k as int)),
                forall|x: EntityId| #[trigger]
                    has_memory(self@.memories, x) == has_memory(start.memories, x),
                forall|j: int|
                    0 <= j < self@.memories.len() ==> (#[trigger] self@.memories[j]).room(
                        memory_ids@.len() - k,
                    ),
            decreases memory_ids.len() - k,
        {
            let id = memory_ids[k];
            let ghost prior = self@;
            proof {
                let t = memory_ids@.take(k + 1);
                assert(t.drop_last() =~= memory_ids@.take(k as int));
                assert(t.last() == id);
                lemma_edited_keeps_ids(prior.memories, id, change);
                assert(has_memory(prior.memories, id) == has_memory(start.memories, id));
            }
            match self.memory_position(id) {
                Some(at) => {
                    let ghost before = self.memories@;
                    proof {
                        lemma_edited_at(self@.memories, at as int, change);
                        assert(self@.memories[at as int].room(memory_ids@.len() - k));
                    }
                    raise_memory(&mut self.memories[at], Score(BOOST_STEP), now);
                    proof {
                        assert(views(self.memories@) =~= views(before).update(
                            at as int,
                            change(views(before)[at as int]),
                        ));
                        assert(self@.memories == edited(prior.memories, id, change));
                    }
                    affected.push(id);
                },
                None => {
                    proof {
                        lemma_edited_absent(prior.memories, id, change);
                    }
                },
            }
            proof {
                assert forall|j: int| 0 <= j < self@.memories.len() implies (
                #[trigger] self@.memories[j]).room(memory_ids@.len() - (k + 1)) by {
                    assert(prior.memories[j].room(memory_ids@.len() - k));
                }
            }
            k += 1;
        }
        proof {
            assert(memory_ids@.take(memory_ids@.len() as int) =~= memory_ids@);
        }
        Ok(ReceiptOutcome::Success { affected })
    }

    /// Where the session with a handle is.
    fn session_position(&self, handle: SessionHandle) -> (r: Option<usize>)
        ensures
            match r {
                Some(i) => i < self@.sessions.len() && self.sessions@[i as int]@
                    == self@.sessions[i as int] && self@.sessions[i as int].handle == handle,
                None => !has_session(self@.sessions, handle),
            },
    {
        let mut i: usize = 0;
        while i < self.sessions.len()
            invariant
                i <= self.sessions.len(),
                forall|j: int| 0 <= j < i ==> (#[trigger] self@.sessions[j]).handle != handle,
            decreases self.sessions.len() - i,
        {
            proof {
                assert(self@.sessions[i as int] == self.sessions@[i as int]@);
            }
            if self.sessions[i].handle == handle {
                return Some(i);
            }
            i += 1;
        }
        None
    }

    fn apply_end_session(
        &mut self,
        session: SessionHandle,
        outcome: TaskOutcome,
        final_approach: &Option<String>,
        lessons: &Vec<String>,
    ) -> (r: DomainResult<ReceiptOutcome>)
        requires
            old(self)@.wf(),
        ensures
            final(self)@.wf(),
            did(
                old(self)@,
                final(self)@,
                r,
                step_end_session(
                    old(self)@,
                    session,
                    outcome,
                    opt_view(*final_approach),
                    views(lessons@),
                ),
            ),
    {
        let now = self.clock.now_millis();
        let ghost change = |s: SessionView|
            ended(s, outcome, opt_view(*final_approach), views(lessons@), now);
        match self.session_position(session) {
            None => Err(DomainError::new(DomainErrorCode::NotFound, "session not found")),
            Some(i) => {
                let ghost before = self.sessions@;
                proof {
                    lemma_session_at(self@.sessions, i as int, change);
                }
                if !self.sessions[i].can_end() {
                    return Err(
                        DomainError::new(
                            DomainErrorCode::InvalidLifecycleTransition,
                            "session already ended",
                        ),
                    );
                }
                end_one(&mut self.sessions[i], outcome, final_approach, lessons, now);
                proof {
                    assert(views(self.sessions@) =~= views(before).update(
                        i as int,
                        change(views(before)[i as int]),
                    ));
                }
                Ok(none_affected())
            },
        }
    }

    /// Where the guide with a name is.
    pub fn guide_position(&self, name: &str) -> (r: Option<usize>)
        ensures
            match r {
                Some(i) => i < self@.guides.len() && self.guides@[i as int]@
                    == self@.guides[i as int] && self@.guides[i as int].name == name@,
                None => !has_guide(self@.guides, name@),
            },
    {
        let mut i: usize = 0;
        while i < self.guides.len()
            invariant
                i <= self.guides.len(),
                forall|j: int| 0 <= j < i ==> (#[trigger] self@.guides[j]).name != name@,
            decreases self.guides.len() - i,
        {
            proof {
                assert(self@.guides[i as int] == self.guides@[i as int]@);
            }
            if same(self.guides[i].name.as_str(), name) {
                return Some(i);
            }
            i += 1;
        }
        None
    }

    fn apply_guide_practice(
        &mut self,
        guide: &str,
        category: &str,
        contexts: &Vec<String>,
        learnings: &Vec<String>,
        outcome: Option<bool>,
    ) -> (r: DomainResult<ReceiptOutcome>)
        requires
            old(self)@.wf(),
            old(self)@.room(1),
        ensures
            final(self)@.wf(),
            did(
                old(self)@,
                final(self)@,
                r,
                step_guide_practice(
                    old(self)@,
                    guide@,
                    category@,
                    views(contexts@),
                    views(learnings@),
                    outcome,
                ),
            ),
    {
        let now = self.clock.now_millis();
        let ghost change = |g: GuideView|
            practised(g, views(contexts@), views(learnings@), outcome, now);
        let ghost start = self@;
        let at: usize = match self.guide_position(guide) {
            Some(i) => i,
            None => {
                let ghost before = self.guides@;
                let fresh = new_guide(guide, category, now);
                self.guides.push(fresh);
                proof {
                    assert(views(self.guides@) =~= views(before).push(
                        blank_guide(guide@, category@, now),
                    ));
                    assert forall|j: int| 0 <= j < start.guides.len() implies (
                    #[trigger] start.guides[j]).name != guide@ by {}
                }
                self.guides.len() - 1
            },
        };
        let ghost before = self.guides@;
        proof {
            assert(unique_guides(self@.guides));
            lemma_guide_at(self@.guides, at as int, change);
            if at < start.guides.len() {
                assert(start.guides[at as int].room(1));
            }
        }
        practise_one(&mut self.guides[at], contexts, learnings, outcome, now);
        proof {
            assert(views(self.guides@) =~= views(before).update(
                at as int,
                change(views(before)[at as int]),
            ));
        }
        Ok(none_affected())
    }

    fn apply_guide_merge(&mut self, source_names: &Vec<String>, result: &Guide) -> (r: DomainResult<
        ReceiptOutcome,
    >)
        requires
            old(self)@.wf(),
        ensures
            final(self)@.wf(),
            did(
                old(self)@,
                final(self)@,
                r,
                step_guide_merge(old(self)@, views(source_names@), result@),
            ),
    {
        let mut i: usize = 0;
        while i < source_names.len()
            invariant
                i <= source_names.len(),
                *self == *old(self),
                old(self)@.wf(),
                forall|j: int| 0 <= j < i ==> has_guide(
                    self@.guides,
                    #[trigger] views(source_names@)[j],
                ),
            decreases source_names.len() - i,
        {
            proof {
                assert(views(source_names@)[i as int] == source_names@[i as int]@);
            }
            if self.guide_position(source_names[i].as_str()).is_none() {
                proof {
                    assert(!has_guide(self@.guides, views(source_names@)[i as int]));
                }
                return Err(DomainError::new(DomainErrorCode::NotFound, "guide not found"));
            }
            i += 1;
        }
        if self.guide_position(result.name.as_str()).is_some() {
            return Err(DomainError::new(DomainErrorCode::Validation, "guide already exists"));
        }
        let ghost start = self@.guides;
        remove_guides(&mut self.guides, source_names);
        let ghost before = self.guides@;
        let copy = result.clone();
        self.guides.push(copy);
        proof {
            assert(views(self.guides@) =~= views(before).push(result@));
            lemma_without_guides(start, views(source_names@));
            assert forall|j: int| 0 <= j < views(before).len() implies (#[trigger] views(
                before,
            )[j]).name != result@.name by {
                let k = choose|k: int| 0 <= k < start.len() && start[k] == views(before)[j];
                assert(start[k].name != result@.name);
            }
        }
        Ok(none_affected())
    }

    fn apply_guide_forget(&mut self, name: &String) -> (r: DomainResult<ReceiptOutcome>)
        requires
            old(self)@.wf(),
        ensures
            final(self)@.wf(),
            did(old(self)@, final(self)@, r, step_guide_forget(old(self)@, name@)),
    {
        if self.guide_position(name.as_str()).is_none() {
            return Err(DomainError::new(DomainErrorCode::NotFound, "guide not found"));
        }
        let ghost start = self@.guides;
        let mut names: Vec<String> = Vec::new();
        names.push(name.clone());
        proof {
            assert(views(names@) =~= seq![name@]);
            lemma_without_guides(start, views(names@));
        }
        remove_guides(&mut self.guides, &names);
        Ok(none_affected())
    }

    /// Applies a command that was not applied before.
    fn apply_inner(&mut self, cmd: &DomainCommand) -> (r: DomainResult<ReceiptOutcome>)
        requires
            old(self)@.wf(),
            old(self)@.room(cmd@.weight()),
        ensures
            final(self)@.wf(),
            did(old(self)@, final(self)@, r, step(old(self)@, cmd@)),
    {
        match cmd {
            DomainCommand::AddMemory { memory, .. } => self.apply_add_memory(memory),
            DomainCommand::UpdateMemory { id, expected_revision, patch } => self.apply_update_memory(
                *id,
                *expected_revision,
                patch,
            ),
            DomainCommand::Feedback { memory_id, useful } => self.apply_feedback(
                *memory_id,
                *useful,
            ),
            DomainCommand::Relate { relation } => self.apply_relate(relation),
            DomainCommand::Unrelate { source, target, relation_type } => self.apply_unrelate(
                *source,
                *target,
                *relation_type,
            ),
            DomainCommand::Merge { source_ids, result } => self.apply_merge(source_ids, result),
            DomainCommand::Forget { id, mode } => self.apply_forget(*id, *mode),
            DomainCommand::EndSession { session, outcome, final_approach, lessons } =>
                self.apply_end_session(*session, *outcome, final_approach, lessons),
            DomainCommand::GuidePractice { guide, category, contexts, learnings, outcome } =>
                self.apply_guide_practice(
                guide.as_str(),
                category.as_str(),
                contexts,
                learnings,
                *outcome,
            ),
            DomainCommand::GuideMerge { source_names, result } => self.apply_guide_merge(
                source_names,
                result,
            ),
            DomainCommand::GuideForget { name } => self.apply_guide_forget(name),
            DomainCommand::Access { memory_ids, context } => {
                let context: Option<&str> = match context {
                    Some(c) => Some(c.as_str()),
                    None => None,
                };
                self.apply_access(memory_ids, context)
            },
            DomainCommand::BoostConfidence { memory_ids } => self.apply_boost_confidence(
                memory_ids,
            ),
        }
    }

    /// Applies a command once. A key that was used before is answered from its
    /// receipt if the input is the same, and refused if it is not.
    pub fn apply(&mut self, ctx: &CommandContext, cmd: &DomainCommand) -> (r: DomainResult<
        CommandReceipt,
    >)
        requires
            old(self)@.wf(),
            old(self)@.room(cmd@.weight()),
        ensures
            final(self)@.wf(),
            final(self)@ == applied(old(self)@, ctx@, cmd@).0,
            receipt_result(r) == applied(old(self)@, ctx@, cmd@).1,
    {
        if let Some(i) = self.receipt_position(ctx.store_generation, ctx.operation_id) {
            proof {
                lemma_receipt_at(self@.receipts, i as int);
            }
            if same(self.receipts[i].request_digest.as_str(), ctx.request_digest.as_str()) {
                return Ok(self.receipts[i].clone());
            }
            return Err(
                DomainError::new(
                    DomainErrorCode::KeyReuseDifferentInput,
                    "operation key reused with different input",
                ),
            );
        }
        let ghost start = self@;
        match self.apply_inner(cmd) {
            Err(e) => Err(e),
            Ok(outcome) => {
                let receipt = CommandReceipt {
                    operation_id: ctx.operation_id,
                    store_generation: ctx.store_generation,
                    frontend_id: ctx.frontend_id,
                    channel_id: ctx.channel_id,
                    request_digest: ctx.request_digest.clone(),
                    outcome,
                    retry_epoch: ctx.retry_epoch,
                };
                let ghost before = self.receipts@;
                proof {
                    lemma_step_keeps_receipts(start, cmd@);
                    assert(self@.receipts == start.receipts);
                }
                self.receipts.push(receipt.clone());
                proof {
                    assert(views(self.receipts@) =~= views(before).push(receipt@));
                    assert forall|j: int| 0 <= j < start.receipts.len() implies !((
                    #[trigger] start.receipts[j]).store_generation == ctx.store_generation
                        && start.receipts[j].operation_id == ctx.operation_id) by {}
                }
                Ok(receipt)
            },
        }
    }

    /// Opens a session under a handle, in place of one that had it.
    pub fn register_session(
        &mut self,
        handle: SessionHandle,
        channel_id: ChannelId,
        task_type: Option<String>,
        project: Option<String>,
    )
        requires
            old(self)@.wf(),
        ensures
            final(self)@.wf(),
            final(self)@ == (StateView {
                sessions: if has_session(old(self)@.sessions, handle) {
                    edited_session(
                        old(self)@.sessions,
                        handle,
                        |s: SessionView|
                            fresh_session(
                                handle,
                                channel_id,
                                opt_view(project),
                                opt_view(task_type),
                                Seq::empty(),
                                old(self)@.now,
                            ),
                    )
                } else {
                    old(self)@.sessions.push(
                        fresh_session(
                            handle,
                            channel_id,
                            opt_view(project),
                            opt_view(task_type),
                            Seq::empty(),
                            old(self)@.now,
                        ),
                    )
                },
                ..old(self)@
            }),
    {
        let now = self.clock.now_millis();
        let session = open_session(handle, channel_id, project, task_type, Vec::new(), now);
        let ghost opened = session@;
        let ghost before = self.sessions@;
        proof {
            assert(views(Seq::<String>::empty()) =~= Seq::<Seq<char>>::empty());
        }
        match self.session_position(handle) {
            Some(i) => {
                let ghost change = |s: SessionView|
                    fresh_session(
                        handle,
                        channel_id,
                        opt_view(project),
                        opt_view(task_type),
                        Seq::empty(),
                        now,
                    );
                proof {
                    lemma_session_at(self@.sessions, i as int, change);
                }
                self.sessions.set(i, session);
                proof {
                    assert(views(self.sessions@) =~= views(before).update(i as int, opened));
                }
            },
            None => {
                self.sessions.push(session);
                proof {
                    assert(views(self.sessions@) =~= views(before).push(opened));
                    assert forall|j: int| 0 <= j < views(before).len() implies (#[trigger] views(
                        before,
                    )[j]).handle != handle by {}
                }
            },
        }
    }

    /// Finds a free alias: the preferred one, or the first of `preferred-2`,
    /// `preferred-3` and so on that is free.
    pub fn allocate_alias(&self, preferred: &str) -> (r: ExternalAlias)
        requires
            self@.wf(),
        ensures
            !has_alias(self@.aliases, r@),
            exists|n: int|
                n >= 1 && r@ == #[trigger] alias_try(preferred@, n) && forall|k: int|
                    1 <= k < n ==> has_alias(self@.aliases, #[trigger] alias_try(preferred@, k)),
    {
        let mut candidate = preferred.to_owned();
        let mut counter: u128 = 1;
        while self.alias_used(candidate.as_str())
            invariant
                counter >= 1,
                candidate@ == alias_try(preferred@, counter as int),
                forall|k: int|
                    1 <= k < counter ==> has_alias(
                        self@.aliases,
                        #[trigger] alias_try(preferred@, k),
                    ),
            decreases self@.aliases.len() + 1 - counter,
        {
            proof {
                lemma_aliases_tried(self@.aliases, preferred@, counter as int);
                assert(self@.aliases.len() == self.aliases.len());
            }
            counter = counter + 1;
            candidate = preferred.to_owned();
            candidate.append("-");
            candidate.append(decimal_wide(counter).as_str());
        }
        ExternalAlias::new(candidate)
    }

    /// The whole store, in order.
    pub fn export(&self) -> (r: CanonicalExport)
        ensures
            arranged(
                self@.memories,
                views(r.memories@),
                |a: MemoryView, b: MemoryView| a.id.0 < b.id.0,
            ),
            arranged(
                self@.relations,
                views(r.relations@),
                |a: RelationView, b: RelationView| a.id.0 < b.id.0,
            ),
            arranged(
                self@.guides,
                views(r.guides@),
                |a: GuideView, b: GuideView| text_lt(a.name, b.name),
            ),
            views(r.sessions@) == self@.sessions,
            sorted_from(self@.feedback, r.feedback@),
            arranged(
                self@.suggestions,
                views(r.suggestions@),
                |a: SuggestionView, b: SuggestionView| a.id < b.id,
            ),
            r.projects@.len() == 0,
            r.archives@.len() == 0,
            r.history@.len() == 0,
            r.unknown_fields@.len() == 0,
    {
        let mut export = CanonicalExport {
            memories: clone_all(&self.memories),
            relations: clone_all(&self.relations),
            guides: clone_all(&self.guides),
            sessions: clone_all(&self.sessions),
            feedback: clone_feedback(&self.feedback),
            suggestions: clone_all(&self.suggestions),
            projects: Vec::new(),
            archives: Vec::new(),
            history: Vec::new(),
            unknown_fields: Vec::new(),
        };
        let ghost copy = export;
        export.normalize();
        proof {
            lemma_sorted_views(
                copy.memories@,
                export.memories@,
                |a: MemoryView, b: MemoryView| a.id.0 < b.id.0,
            );
            lemma_sorted_views(
                copy.relations@,
                export.relations@,
                |a: RelationView, b: RelationView| a.id.0 < b.id.0,
            );
            lemma_sorted_views(
                copy.guides@,
                export.guides@,
                |a: GuideView, b: GuideView| text_lt(a.name, b.name),
            );
            lemma_sorted_views(
                copy.suggestions@,
                export.suggestions@,
                |a: SuggestionView, b: SuggestionView| a.id < b.id,
            );
            law_sorted_same_items(copy.archives@, export.archives@);
            law_sorted_same_items(copy.history@, export.history@);
        }
        export
    }

    /// Whether every counter can still be stepped `n` times.
    pub fn has_room(&self, n: u64) -> (r: bool)
        ensures
            r == self@.room(n as int),
    {
        if self.revision_counter > u64::MAX - n {
            return false;
        }
        if !self.id_gen.has_room(n) {
            return false;
        }
        let mut i: usize = 0;
        while i < self.memories.len()
            invariant
                i <= self.memories.len(),
                forall|j: int| 0 <= j < i ==> (#[trigger] self@.memories[j]).room(n as int),
            decreases self.memories.len() - i,
        {
            proof {
                assert(self@.memories[i as int] == self.memories@[i as int]@);
            }
            let m = &self.memories[i];
            let most: u64 = u64::MAX - n;
            if m.access_count > most || m.positive_feedback > most || m.negative_feedback > most
                || m.negative_hits > most || m.entity_revision.0 > most || m.document_revision.0
                > most || m.eligibility_revision.0 > most {
                return false;
            }
            i += 1;
        }
        let mut k: usize = 0;
        while k < self.guides.len()
            invariant
                k <= self.guides.len(),
                forall|j: int| 0 <= j < k ==> (#[trigger] self@.guides[j]).room(n as int),
            decreases self.guides.len() - k,
        {
            proof {
                assert(self@.guides[k as int] == self.guides@[k as int]@);
            }
            let g = &self.guides[k];
            if n > u32::MAX as u64 {
                return false;
            }
            let most: u64 = u32::MAX as u64 - n;
            if g.usage_count as u64 > most || g.success_count as u64 > most
                || g.failure_count as u64 > most || g.entity_revision.0 > u64::MAX - n {
                return false;
            }
            k += 1;
        }
        true
    }
}

fn clone_feedback(v: &Vec<FeedbackEvent>) -> (r: Vec<FeedbackEvent>)
    ensures
        r@ == v@,
{
    let r = v.clone();
    proof {
        assert forall|i: int| 0 <= i < v@.len() implies r@[i] == v@[i] by {
            assert(cloned::<FeedbackEvent>(v@[i], r@[i]));
        }
        assert(r@ =~= v@);
    }
    r
}

/// The `n`th alias to try.
pub open spec fn alias_try(preferred: Seq<char>, n: int) -> Seq<char> {
    if n <= 1 {
        preferred
    } else {
        preferred + "-"@ + dec(n as nat)
    }
}

proof fn lemma_dec_injective(a: nat, b: nat)
    requires
        dec(a) == dec(b),
    ensures
        a == b,
    decreases a,
{
    assert(dec(a).last() == digit(a % 10));
    assert(dec(b).last() == digit(b % 10));
    assert(a % 10 == b % 10);
    lemma_dec_nonempty(a / 10);
    lemma_dec_nonempty(b / 10);
    if a >= 10 {
        assert(dec(a).len() >= 2);
        assert(b >= 10);
        assert(dec(a).drop_last() =~= dec(a / 10));
        assert(dec(b).drop_last() =~= dec(b / 10));
        lemma_dec_injective(a / 10, b / 10);
    } else {
        assert(dec(a).len() == 1);
        assert(b < 10);
    }
}

proof fn lemma_dec_nonempty(a: nat)
    ensures
        dec(a).len() >= 1,
    decreases a,
{
    if a >= 10 {
        lemma_dec_nonempty(a / 10);
    }
}

proof fn lemma_alias_try_injective(preferred: Seq<char>, a: int, b: int)
    requires
        1 <= a < b,
    ensures
        alias_try(preferred, a) != alias_try(preferred, b),
{
    reveal_strlit("-");
    let tail = dec(b as nat);
    assert(alias_try(preferred, b).len() == preferred.len() + 1 + tail.len());
    if a > 1 && alias_try(preferred, a) == alias_try(preferred, b) {
        let head = preferred + "-"@;
        assert(dec(a as nat) =~= alias_try(preferred, a).skip(head.len() as int));
        assert(dec(b as nat) =~= alias_try(preferred, b).skip(head.len() as int));
        lemma_dec_injective(a as nat, b as nat);
    }
}

/// As many aliases as were tried in vain are in use.
proof fn lemma_aliases_tried(
    aliases: Seq<(Seq<char>, EntityId)>,
    preferred: Seq<char>,
    n: int,
)
    requires
        n >= 1,
        forall|k: int| 1 <= k <= n ==> has_alias(aliases, #[trigger] alias_try(preferred, k)),
    ensures
        n <= aliases.len(),
{
    let tried = Seq::new(n as nat, |k: int| alias_try(preferred, k + 1));
    let used = aliases.map_values(|a: (Seq<char>, EntityId)| a.0);
    assert forall|i: int, j: int| 0 <= i < tried.len() && 0 <= j < tried.len() && i
        != j implies tried[i] != tried[j] by {
        if i < j {
            lemma_alias_try_injective(preferred, i + 1, j + 1);
        } else {
            lemma_alias_try_injective(preferred, j + 1, i + 1);
        }
    }
    assert(tried.no_duplicates());
    tried.unique_seq_to_set();
    assert forall|x: Seq<char>| tried.to_set().contains(x) implies used.to_set().contains(x) by {
        let k = choose|k: int| 0 <= k < tried.len() && tried[k] == x;
        assert(has_alias(aliases, alias_try(preferred, k + 1)));
        let w = choose|w: int| 0 <= w < aliases.len() && (#[trigger] aliases[w]).0 == x;
        assert(used[w] == x);
    }
    vstd::set_lib::lemma_len_subset(tried.to_set(), used.to_set());
    used.lemma_cardinality_of_set();
}

fn none_affected() -> (r: ReceiptOutcome)
    ensures
        r@ == (ReceiptOutcomeView::Success { affected: Seq::empty() }),
{
    let affected: Vec<EntityId> = Vec::new();
    proof {
        assert(affected@ =~= Seq::empty());
    }
    ReceiptOutcome::Success { affected }
}

/// Ends a session.
pub fn end_one(
    s: &mut Session,
    outcome: TaskOutcome,
    final_approach: &Option<String>,
    lessons: &Vec<String>,
    now: u64,
)
    ensures
        final(s)@ == ended(old(s)@, outcome, opt_view(*final_approach), views(lessons@), now),
{
    s.status = SessionStatus::Ended;
    s.outcome = Some(outcome);
    s.final_approach = final_approach.clone();
    s.lessons = clone_texts(lessons);
    s.ended_at = Some(Instant::new(now));
}

/// A session that was just opened.
pub fn open_session(
    handle: SessionHandle,
    channel_id: ChannelId,
    project: Option<String>,
    task_type: Option<String>,
    technologies: Vec<String>,
    now: u64,
) -> (r: Session)
    ensures
        r@ == fresh_session(
            handle,
            channel_id,
            opt_view(project),
            opt_view(task_type),
            views(technologies@),
            now,
        ),
{
    let r = Session {
        handle,
        channel_id,
        project,
        task_type,
        technologies,
        status: SessionStatus::Active,
        attempts: Vec::new(),
        outcome: None,
        final_approach: None,
        lessons: Vec::new(),
        initial_approach: None,
        guides_used: Vec::new(),
        memories_read: Vec::new(),
        memories_created: Vec::new(),
        refinement_attempts: 0,
        self_critique_count: 0,
        started_at: Instant::new(now),
        ended_at: None,
    };
    proof {
        assert(views(r.attempts@) =~= Seq::empty());
        assert(views(r.lessons@) =~= Seq::empty());
        assert(views(r.guides_used@) =~= Seq::empty());
        assert(views(r.memories_read@) =~= Seq::empty());
        assert(views(r.memories_created@) =~= Seq::empty());
    }
    r
}

/// A guide that was never practised.
pub fn new_guide(name: &str, category: &str, now: u64) -> (r: Guide)
    ensures
        r@ == blank_guide(name@, category@, now),
{
    let r = Guide {
        name: name.to_owned(),
        category: category.to_owned(),
        description: String::new(),
        contexts: Vec::new(),
        learnings: Vec::new(),
        usage_count: 0,
        last_used: None,
        success_count: 0,
        failure_count: 0,
        anti_patterns: Vec::new(),
        pitfalls: Vec::new(),
        depends_on: Vec::new(),
        enables: Vec::new(),
        source_memories: Vec::new(),
        validated_by: Vec::new(),
        superseded_by: None,
        deprecated: false,
        entity_revision: EntityRevision::new(1),
        created_at: Instant::new(now),
        updated_at: Instant::new(now),
    };
    proof {
        assert(views(Seq::<String>::empty()) =~= Seq::<Seq<char>>::empty());
        assert(r.contexts@ =~= Seq::empty());
        assert(r.learnings@ =~= Seq::empty());
        assert(r.anti_patterns@ =~= Seq::empty());
        assert(r.pitfalls@ =~= Seq::empty());
        assert(r.depends_on@ =~= Seq::empty());
        assert(r.enables@ =~= Seq::empty());
        assert(r.validated_by@ =~= Seq::empty());
        assert(r.source_memories@ =~= Seq::empty());
    }
    r
}

/// Records that a guide was practised.
fn practise_one(
    g: &mut Guide,
    contexts: &Vec<String>,
    learnings: &Vec<String>,
    outcome: Option<bool>,
    now: u64,
)
    requires
        old(g)@.room(1),
    ensures
        final(g)@ == practised(old(g)@, views(contexts@), views(learnings@), outcome, now),
{
    g.usage_count = g.usage_count + 1;
    g.last_used = Some(Instant::new(now));
    if let Some(success) = outcome {
        if success {
            g.success_count = g.success_count + 1;
        } else {
            g.failure_count = g.failure_count + 1;
        }
    }
    add_texts(&mut g.contexts, contexts);
    add_texts(&mut g.learnings, learnings);
    g.updated_at = Instant::new(now);
    g.entity_revision = g.entity_revision.next();
}

/// Removes the guides with these names.
pub fn remove_guides(guides: &mut Vec<Guide>, names: &Vec<String>)
    ensures
        views(final(guides)@) == without_guides(views(old(guides)@), views(names@)),
{
    let ghost orig = views(guides@);
    let ghost keep = |g: GuideView| !views(names@).contains(g.name);
    let mut at: usize = 0;
    let ghost mut done: int = 0;
    proof {
        reveal(Seq::filter);
        assert(orig.take(0).filter(keep) =~= Seq::empty());
        assert(orig.take(0).filter(keep) + orig.skip(0) =~= orig);
    }
    while at < guides.len()
        invariant
            0 <= done <= orig.len(),
            at <= guides.len(),
            keep == (|g: GuideView| !views(names@).contains(g.name)),
            views(guides@) == orig.take(done).filter(keep) + orig.skip(done),
            at == orig.take(done).filter(keep).len(),
            guides@.len() - at == orig.len() - done,
        decreases guides.len() - at,
    {
        let ghost before = guides@;
        let ghost head = orig.take(done).filter(keep);
        proof {
            assert(views(before)[at as int] == before[at as int]@);
            assert(views(before)[at as int] == orig[done]);
            reveal(Seq::filter);
            let t = orig.take(done + 1);
            assert(t.drop_last() =~= orig.take(done));
            assert(t.last() == orig[done]);
        }
        if holds(names, guides[at].name.as_str()) {
            guides.remove(at);
            proof {
                assert forall|j: int| 0 <= j < guides@.len() implies views(guides@)[j] == (head
                    + orig.skip(done + 1))[j] by {
                    if j < at {
                        assert(views(before)[j] == head[j]);
                    } else {
                        assert(views(before)[j + 1] == orig.skip(done)[j + 1 - at]);
                    }
                }
                assert(views(guides@) =~= head + orig.skip(done + 1));
            }
        } else {
            at += 1;
            proof {
                assert(views(guides@) =~= head.push(orig[done]) + orig.skip(done + 1));
            }
        }
        proof {
            done = done + 1;
        }
    }
    proof {
        assert(orig.take(done) =~= orig);
        assert(views(guides@) =~= orig.filter(keep));
    }
}

/// What is left when guides are removed was there before, and names that were
/// unique stay so.
pub proof fn lemma_without_guides(gs: Seq<GuideView>, names: Seq<Seq<char>>)
    ensures
        without_guides(gs, names).len() <= gs.len(),
        forall|i: int| 0 <= i < without_guides(gs, names).len() ==> gs.contains(
            #[trigger] without_guides(gs, names)[i],
        ),
        unique_guides(gs) ==> unique_guides(without_guides(gs, names)),
        forall|n: Seq<char>| #[trigger]
            has_guide(without_guides(gs, names), n) <==> has_guide(gs, n) && !names.contains(n),
    decreases gs.len(),
{
    reveal(Seq::filter);
    let keep = |g: GuideView| !names.contains(g.name);
    let out = without_guides(gs, names);
    if gs.len() > 0 {
        let d = gs.drop_last();
        let sub = without_guides(d, names);
        lemma_without_guides(d, names);
        assert(out == if keep(gs.last()) {
            sub.push(gs.last())
        } else {
            sub
        });
        assert forall|i: int| 0 <= i < out.len() implies gs.contains(#[trigger] out[i]) by {
            if i < sub.len() {
                assert(out[i] == sub[i]);
                let k = choose|k: int| 0 <= k < d.len() && d[k] == sub[i];
                assert(gs[k] == out[i]);
            } else {
                assert(gs[gs.len() - 1] == out[i]);
            }
        }
        if unique_guides(gs) {
            assert forall|i: int, j: int| 0 <= i < j < d.len() implies (#[trigger] d[i]).name != (
            #[trigger] d[j]).name by {
                assert(d[i] == gs[i] && d[j] == gs[j]);
            }
            assert forall|i: int, j: int| 0 <= i < j < out.len() implies (#[trigger] out[i]).name
                != (#[trigger] out[j]).name by {
                if j < sub.len() {
                    assert(out[i] == sub[i] && out[j] == sub[j]);
                } else {
                    assert(out[i] == sub[i]);
                    let k = choose|k: int| 0 <= k < d.len() && d[k] == sub[i];
                    assert(gs[k].name != gs[gs.len() - 1].name);
                }
            }
        }
        assert forall|n: Seq<char>| #[trigger] has_guide(out, n) <==> has_guide(gs, n)
            && !names.contains(n) by {
            assert(has_guide(sub, n) <==> has_guide(d, n) && !names.contains(n));
            if has_guide(out, n) {
                let i = choose|i: int| 0 <= i < out.len() && (#[trigger] out[i]).name == n;
                if i < sub.len() {
                    assert(sub[i].name == n);
                    let k = choose|k: int| 0 <= k < d.len() && (#[trigger] d[k]).name == n;
                    assert(gs[k].name == n);
                } else {
                    assert(gs[gs.len() - 1].name == n);
                }
            }
            if has_guide(gs, n) && !names.contains(n) {
                let k = choose|k: int| 0 <= k < gs.len() && (#[trigger] gs[k]).name == n;
                if k < d.len() {
                    assert(d[k].name == n);
                    let i = choose|i: int| 0 <= i < sub.len() && (#[trigger] sub[i]).name == n;
                    assert(out[i].name == n);
                } else {
                    assert(out[sub.len() as int].name == n);
                }
            }
        }
    }
}

/// Where names are unique, editing by name is editing in place.
pub proof fn lemma_guide_at(gs: Seq<GuideView>, i: int, change: spec_fn(GuideView) -> GuideView)
    requires
        unique_guides(gs),
        0 <= i < gs.len(),
    ensures
        edited_guide(gs, gs[i].name, change) == gs.update(i, change(gs[i])),
        change(gs[i]).name == gs[i].name ==> unique_guides(gs.update(i, change(gs[i]))),
{
    let name = gs[i].name;
    assert forall|j: int| 0 <= j < gs.len() implies edited_guide(gs, name, change)[j] == gs.update(
        i,
        change(gs[i]),
    )[j] by {
        if j < i {
            assert(gs[j].name != gs[i].name);
        } else if j > i {
            assert(gs[i].name != gs[j].name);
        }
    }
    assert(edited_guide(gs, name, change) =~= gs.update(i, change(gs[i])));
}

/// Where handles are unique, editing by handle is editing in place.
pub proof fn lemma_session_at(
    ss: Seq<SessionView>,
    i: int,
    change: spec_fn(SessionView) -> SessionView,
)
    requires
        unique_sessions(ss),
        0 <= i < ss.len(),
    ensures
        edited_session(ss, ss[i].handle, change) == ss.update(i, change(ss[i])),
        change(ss[i]).handle == ss[i].handle ==> unique_sessions(ss.update(i, change(ss[i]))),
        has_session(ss, ss[i].handle),
        session_of(ss, ss[i].handle) == ss[i],
{
    let h = ss[i].handle;
    assert forall|j: int| 0 <= j < ss.len() implies edited_session(ss, h, change)[j] == ss.update(
        i,
        change(ss[i]),
    )[j] by {
        if j < i {
            assert(ss[j].handle != ss[i].handle);
        } else if j > i {
            assert(ss[i].handle != ss[j].handle);
        }
    }
    assert(edited_session(ss, h, change) =~= ss.update(i, change(ss[i])));
    let k = choose|k: int| 0 <= k < ss.len() && (#[trigger] ss[k]).handle == h;
    assert(ss[k].handle == h);
    if k < i {
        assert(ss[k].handle != ss[i].handle);
    } else if k > i {
        assert(ss[i].handle != ss[k].handle);
    }
}

/// No command touches the receipts by itself.
proof fn lemma_step_keeps_receipts(s: StateView, cmd: crate::domain::command::DomainCommandView)
    ensures
        step(s, cmd) is Ok ==> step(s, cmd)->Ok_0.0.receipts == s.receipts,
{
}

fn one_affected(id: EntityId) -> (r: ReceiptOutcome)
    ensures
        r@ == (ReceiptOutcomeView::Success { affected: seq![id] }),
{
    let mut affected: Vec<EntityId> = Vec::new();
    affected.push(id);
    proof {
        assert(affected@ =~= seq![id]);
    }
    ReceiptOutcome::Success { affected }
}

/// Lays a patch over a memory.
fn patch_memory(m: &mut Memory, patch: &MemoryPatch)
    requires
        old(m)@.room(1),
    ensures
        final(m)@ == patch@.over(old(m)@),
{
    let mut content_changed = false;
    if let Some(title) = &patch.title {
        m.title = title.clone();
        content_changed = true;
    }
    if let Some(fragment) = &patch.fragment {
        m.fragment = fragment.clone();
        content_changed = true;
    }
    if let Some(description) = &patch.description {
        m.description = description.clone();
        content_changed = true;
    }
    if let Some(fragment_type) = patch.fragment_type {
        m.fragment_type = fragment_type;
        content_changed = true;
    }
    if let Some(project) = &patch.project {
        m.project = project.clone();
        content_changed = true;
    }
    if let Some(confidence) = patch.confidence {
        m.confidence = confidence;
    }
    if let Some(quality_score) = patch.quality_score {
        m.quality_score = quality_score;
    }
    if let Some(tags) = &patch.tags {
        m.tags = clone_all(tags);
    }
    if let Some(evidence) = &patch.evidence {
        m.evidence = clone_all(evidence);
    }
    if content_changed {
        m.advance_document();
    }
}

/// Records a judgement on a memory.
fn judge_memory(m: &mut Memory, useful: bool, now: u64)
    requires
        old(m)@.room(1),
    ensures
        final(m)@ == judged(old(m)@, useful, now),
{
    if useful {
        m.positive_feedback = m.positive_feedback + 1;
        m.confidence = m.confidence.raised(Score(ACCESS_STEP));
        m.access_count = m.access_count + 1;
        m.last_accessed_at = Some(Instant::new(now));
    } else {
        m.negative_feedback = m.negative_feedback + 1;
        m.negative_hits = m.negative_hits + 1;
        m.confidence = m.confidence.lowered(Score(BOOST_STEP));
    }
}

/// Archives a memory.
fn archive_memory(m: &mut Memory, now: u64)
    requires
        old(m)@.room(1),
    ensures
        final(m)@ == archived(old(m)@, now),
{
    m.lifecycle = MemoryLifecycle::Archived { at: Instant::new(now) };
    m.advance_eligibility();
}

/// Forgets a memory.
fn forget_memory(m: &mut Memory, mode: ForgetMode, now: u64)
    requires
        old(m)@.room(1),
    ensures
        final(m)@ == forgotten(old(m)@, mode, now),
{
    m.lifecycle = mode.applied_at(Instant::new(now));
    m.advance_eligibility();
}

/// Raises the confidence of a memory.
fn raise_memory(m: &mut Memory, step: Score, now: u64)
    requires
        old(m)@.room(1),
    ensures
        final(m)@ == raised(old(m)@, step, now),
{
    m.confidence = m.confidence.raised(step);
    m.access_count = m.access_count + 1;
    m.last_accessed_at = Some(Instant::new(now));
}

/// Records a read of a memory.
fn access_memory(m: &mut Memory, tag: &Option<String>, now: u64)
    requires
        old(m)@.room(1),
    ensures
        final(m)@ == accessed(old(m)@, opt_view(*tag), now),
{
    raise_memory(m, Score(ACCESS_STEP), now);
    if let Some(t) = tag {
        add_text(&mut m.tags, t.as_str());
    }
}

/// Removes the edges with these ends and this type; tells whether there were
/// any.
fn remove_edges(
    relations: &mut Vec<Relation>,
    source: EntityId,
    target: EntityId,
    relation_type: RelationType,
) -> (removed: bool)
    ensures
        removed == (exists|i: int|
            0 <= i < views(old(relations)@).len() && #[trigger] is_edge(
                views(old(relations)@)[i],
                source,
                target,
                relation_type,
            )),
        views(final(relations)@) == views(old(relations)@).filter(
            |r: RelationView| !is_edge(r, source, target, relation_type),
        ),
        !removed ==> final(relations)@ == old(relations)@,
{
    let ghost orig = views(relations@);
    let ghost keep = |r: RelationView| !is_edge(r, source, target, relation_type);
    let mut removed = false;
    let mut at: usize = 0;
    let ghost mut done: int = 0;
    proof {
        reveal(Seq::filter);
        assert(orig.take(0).filter(keep) =~= Seq::empty());
        assert(orig.take(0).filter(keep) + orig.skip(0) =~= orig);
    }
    while at < relations.len()
        invariant
            0 <= done <= orig.len(),
            at <= relations.len(),
            keep == (|r: RelationView| !is_edge(r, source, target, relation_type)),
            views(relations@) == orig.take(done).filter(keep) + orig.skip(done),
            at == orig.take(done).filter(keep).len(),
            relations@.len() - at == orig.len() - done,
            removed == (exists|i: int|
                0 <= i < done && #[trigger] is_edge(orig[i], source, target, relation_type)),
            !removed ==> relations@ == old(relations)@,
        decreases relations.len() - at,
    {
        let ghost before = relations@;
        let ghost head = orig.take(done).filter(keep);
        proof {
            assert(views(before)[at as int] == before[at as int]@);
            assert(views(before)[at as int] == orig[done]);
            reveal(Seq::filter);
            let t = orig.take(done + 1);
            assert(t.drop_last() =~= orig.take(done));
            assert(t.last() == orig[done]);
        }
        if relations[at].source == source && relations[at].target == target
            && relations[at].relation_type == relation_type {
            relations.remove(at);
            removed = true;
            proof {
                assert(is_edge(orig[done], source, target, relation_type));
                assert forall|j: int| 0 <= j < relations@.len() implies views(relations@)[j] == (
                head + orig.skip(done + 1))[j] by {
                    if j < at {
                        assert(views(before)[j] == head[j]);
                    } else {
                        assert(views(before)[j + 1] == orig.skip(done)[j + 1 - at]);
                    }
                }
                assert(views(relations@) =~= head + orig.skip(done + 1));
            }
        } else {
            at += 1;
            proof {
                assert(views(relations@) =~= head.push(orig[done]) + orig.skip(done + 1));
            }
        }
        proof {
            done = done + 1;
        }
    }
    proof {
        assert(orig.take(done) =~= orig);
        assert(views(relations@) =~= orig.filter(keep));
    }
    removed
}

proof fn lemma_receipt_at(rs: Seq<CommandReceiptView>, i: int)
    requires
        unique_receipts(rs),
        0 <= i < rs.len(),
    ensures
        has_receipt(rs, rs[i].store_generation, rs[i].operation_id),
        receipt_of(rs, rs[i].store_generation, rs[i].operation_id) == rs[i],
{
    let g = rs[i].store_generation;
    let op = rs[i].operation_id;
    assert(has_receipt(rs, g, op));
    let k = choose|k: int|
        0 <= k < rs.len() && (#[trigger] rs[k]).store_generation == g && rs[k].operation_id == op;
    if k < i {
        assert(rs[k].store_generation == rs[i].store_generation);
    } else if k > i {
        assert(rs[i].store_generation == rs[k].store_generation);
    }
}

} // verus!
