//! The state of a store, and what each command makes of it.

use crate::domain::command::{
    refusal, CommandContextView, CommandReceiptView, DomainCommandView, DomainErrorCode,
    DomainErrorView, ForgetMode, MemoryPatchView, ReceiptOutcomeView,
};
use crate::domain::graph::{verdict, GraphValidation};
use crate::domain::guide::GuideView;
use crate::domain::id::{
    ChannelId, EntityId, EntityRevision, OperationId, SessionHandle, StoreGeneration,
};
use crate::domain::memory::{Instant, MemoryLifecycle, MemoryView};
use crate::domain::relation::{RelationType, RelationView};
use crate::domain::score::{ACCESS_STEP, BOOST_STEP, Score};
use crate::domain::session::{
    AttemptView, FeedbackEvent, SessionStatus, SessionView, SuggestionView, TaskOutcome,
};
use crate::text::{lowercase, trimmed, with_text, with_texts};
use vstd::prelude::*;

verus! {

/// The content of a store.
#[verifier::ext_equal]
pub struct StateView {
    pub store_generation: StoreGeneration,
    pub memories: Seq<MemoryView>,
    pub aliases: Seq<(Seq<char>, EntityId)>,
    pub guides: Seq<GuideView>,
    pub sessions: Seq<SessionView>,
    pub relations: Seq<RelationView>,
    pub feedback: Seq<FeedbackEvent>,
    pub suggestions: Seq<SuggestionView>,
    pub receipts: Seq<CommandReceiptView>,
    /// The last identifier given to a feedback event.
    pub last_id: u128,
    /// The time on the store's clock.
    pub now: u64,
    /// The last revision given to a new memory.
    pub revision: u64,
}

/// The outcome of a command: the state after it and what it reports, or why it
/// was refused.
pub type Step = Result<(StateView, ReceiptOutcomeView), DomainErrorView>;

// ---------------------------------------------------------------------------
// Looking records up
// ---------------------------------------------------------------------------

/// Whether a memory has this identifier.
pub open spec fn has_memory(ms: Seq<MemoryView>, id: EntityId) -> bool {
    exists|i: int| 0 <= i < ms.len() && (#[trigger] ms[i]).id == id
}

/// The memory with this identifier.
pub open spec fn memory_of(ms: Seq<MemoryView>, id: EntityId) -> MemoryView {
    ms[choose|i: int| 0 <= i < ms.len() && (#[trigger] ms[i]).id == id]
}

/// Whether a memory with this identifier is live.
pub open spec fn is_live(ms: Seq<MemoryView>, id: EntityId) -> bool {
    has_memory(ms, id) && memory_of(ms, id).lifecycle is Live
}

/// The memories with the one of this identifier changed.
pub open spec fn edited(
    ms: Seq<MemoryView>,
    id: EntityId,
    change: spec_fn(MemoryView) -> MemoryView,
) -> Seq<MemoryView> {
    ms.map_values(
        |m: MemoryView|
            if m.id == id {
                change(m)
            } else {
                m
            },
    )
}

/// Whether an alias is in use.
pub open spec fn has_alias(aliases: Seq<(Seq<char>, EntityId)>, alias: Seq<char>) -> bool {
    exists|i: int| 0 <= i < aliases.len() && (#[trigger] aliases[i]).0 == alias
}

/// Whether a guide has this name.
pub open spec fn has_guide(gs: Seq<GuideView>, name: Seq<char>) -> bool {
    exists|i: int| 0 <= i < gs.len() && (#[trigger] gs[i]).name == name
}

/// The guides with the one of this name changed.
pub open spec fn edited_guide(
    gs: Seq<GuideView>,
    name: Seq<char>,
    change: spec_fn(GuideView) -> GuideView,
) -> Seq<GuideView> {
    gs.map_values(
        |g: GuideView|
            if g.name == name {
                change(g)
            } else {
                g
            },
    )
}

/// Whether a session has this handle.
pub open spec fn has_session(ss: Seq<SessionView>, handle: SessionHandle) -> bool {
    exists|i: int| 0 <= i < ss.len() && (#[trigger] ss[i]).handle == handle
}

/// The session with this handle.
pub open spec fn session_of(ss: Seq<SessionView>, handle: SessionHandle) -> SessionView {
    ss[choose|i: int| 0 <= i < ss.len() && (#[trigger] ss[i]).handle == handle]
}

/// The sessions with the one of this handle changed.
pub open spec fn edited_session(
    ss: Seq<SessionView>,
    handle: SessionHandle,
    change: spec_fn(SessionView) -> SessionView,
) -> Seq<SessionView> {
    ss.map_values(
        |s: SessionView|
            if s.handle == handle {
                change(s)
            } else {
                s
            },
    )
}

/// Whether a receipt is kept under this key.
pub open spec fn has_receipt(
    rs: Seq<CommandReceiptView>,
    generation: StoreGeneration,
    op: OperationId,
) -> bool {
    exists|i: int|
        0 <= i < rs.len() && (#[trigger] rs[i]).store_generation == generation && rs[i].operation_id
            == op
}

/// The receipt that is kept under this key.
pub open spec fn receipt_of(
    rs: Seq<CommandReceiptView>,
    generation: StoreGeneration,
    op: OperationId,
) -> CommandReceiptView {
    rs[choose|i: int|
        0 <= i < rs.len() && (#[trigger] rs[i]).store_generation == generation && rs[i].operation_id
            == op]
}

// ---------------------------------------------------------------------------
// Well-formed states
// ---------------------------------------------------------------------------

pub open spec fn unique_memories(ms: Seq<MemoryView>) -> bool {
    forall|i: int, j: int|
        0 <= i < j < ms.len() ==> (#[trigger] ms[i]).id != (#[trigger] ms[j]).id
}

pub open spec fn unique_aliases(xs: Seq<(Seq<char>, EntityId)>) -> bool {
    forall|i: int, j: int| 0 <= i < j < xs.len() ==> (#[trigger] xs[i]).0 != (#[trigger] xs[j]).0
}

pub open spec fn unique_guides(gs: Seq<GuideView>) -> bool {
    forall|i: int, j: int|
        0 <= i < j < gs.len() ==> (#[trigger] gs[i]).name != (#[trigger] gs[j]).name
}

pub open spec fn unique_sessions(ss: Seq<SessionView>) -> bool {
    forall|i: int, j: int|
        0 <= i < j < ss.len() ==> (#[trigger] ss[i]).handle != (#[trigger] ss[j]).handle
}

pub open spec fn unique_receipts(rs: Seq<CommandReceiptView>) -> bool {
    forall|i: int, j: int|
        0 <= i < j < rs.len() ==> !((#[trigger] rs[i]).store_generation == (
        #[trigger] rs[j]).store_generation && rs[i].operation_id == rs[j].operation_id)
}

impl StateView {
    /// No two memories share an identifier, no two entries an alias, no two
    /// guides a name, no two sessions a handle, no two receipts a key.
    pub open spec fn wf(self) -> bool {
        &&& unique_memories(self.memories)
        &&& unique_aliases(self.aliases)
        &&& unique_guides(self.guides)
        &&& unique_sessions(self.sessions)
        &&& unique_receipts(self.receipts)
    }

    /// Whether every counter of the store can still be stepped `n` times.
    pub open spec fn room(self, n: int) -> bool {
        &&& forall|i: int| 0 <= i < self.memories.len() ==> (#[trigger] self.memories[i]).room(n)
        &&& forall|i: int| 0 <= i < self.guides.len() ==> (#[trigger] self.guides[i]).room(n)
        &&& self.revision + n <= u64::MAX
        &&& self.last_id + n <= u128::MAX
    }
}

impl DomainCommandView {
    /// How often a command may step one counter.
    pub open spec fn weight(self) -> int {
        match self {
            DomainCommandView::Merge { source_ids, .. } => source_ids.len() as int + 1,
            DomainCommandView::Access { memory_ids, .. } => memory_ids.len() as int,
            DomainCommandView::BoostConfidence { memory_ids } => memory_ids.len() as int,
            _ => 1,
        }
    }
}

// ---------------------------------------------------------------------------
// Commands
// ---------------------------------------------------------------------------

/// A new memory gets the next revision. Its identifier and its alias must be
/// free.
pub open spec fn step_add(s: StateView, memory: MemoryView) -> Step {
    if has_memory(s.memories, memory.id) {
        Err(refusal(DomainErrorCode::Validation, "memory already exists"@))
    } else if memory.external_alias is Some && has_alias(s.aliases, memory.external_alias->0) {
        Err(refusal(DomainErrorCode::DuplicateAlias, "alias already in use"@))
    } else {
        let rev = (s.revision + 1) as u64;
        Ok(
            (
                StateView {
                    revision: rev,
                    memories: s.memories.push(
                        MemoryView { entity_revision: EntityRevision(rev), ..memory },
                    ),
                    aliases: if memory.external_alias is Some {
                        s.aliases.push((memory.external_alias->0, memory.id))
                    } else {
                        s.aliases
                    },
                    ..s
                },
                ReceiptOutcomeView::Success { affected: seq![memory.id] },
            ),
        )
    }
}

/// A patch is laid over the memory, unless the caller expected another
/// revision of it.
pub open spec fn step_update(
    s: StateView,
    id: EntityId,
    expected_revision: Option<EntityRevision>,
    patch: MemoryPatchView,
) -> Step {
    if !has_memory(s.memories, id) {
        Err(refusal(DomainErrorCode::NotFound, "memory not found"@))
    } else if expected_revision is Some && memory_of(s.memories, id).entity_revision
        != expected_revision->0 {
        Err(refusal(DomainErrorCode::RevisionConflict, "stale revision"@))
    } else {
        Ok(
            (
                StateView {
                    memories: edited(s.memories, id, |m: MemoryView| patch.over(m)),
                    ..s
                },
                ReceiptOutcomeView::Success { affected: seq![id] },
            ),
        )
    }
}

/// A memory that was judged useful or useless at time `now`.
pub open spec fn judged(m: MemoryView, useful: bool, now: u64) -> MemoryView {
    if useful {
        MemoryView {
            positive_feedback: (m.positive_feedback + 1) as u64,
            confidence: m.confidence.up(Score(ACCESS_STEP)),
            access_count: (m.access_count + 1) as u64,
            last_accessed_at: Some(Instant(now)),
            ..m
        }
    } else {
        MemoryView {
            negative_feedback: (m.negative_feedback + 1) as u64,
            negative_hits: (m.negative_hits + 1) as u64,
            confidence: m.confidence.down(Score(BOOST_STEP)),
            ..m
        }
    }
}

pub open spec fn step_feedback(s: StateView, id: EntityId, useful: bool) -> Step {
    if !has_memory(s.memories, id) {
        Err(refusal(DomainErrorCode::NotFound, "memory not found"@))
    } else {
        let event = (s.last_id + 1) as u128;
        Ok(
            (
                StateView {
                    memories: edited(s.memories, id, |m: MemoryView| judged(m, useful, s.now)),
                    last_id: event,
                    feedback: s.feedback.push(
                        FeedbackEvent {
                            id: EntityId(event),
                            memory_id: id,
                            useful,
                            timestamp: Instant(s.now),
                        },
                    ),
                    ..s
                },
                ReceiptOutcomeView::Success { affected: seq![id] },
            ),
        )
    }
}

/// An edge is added where the graph's rules allow it.
pub open spec fn step_relate(s: StateView, relation: RelationView) -> Step {
    match verdict(
        relation,
        s.relations,
        is_live(s.memories, relation.source),
        is_live(s.memories, relation.target),
    ) {
        GraphValidation::Reject(code) => Err(refusal(code, "graph validation failed"@)),
        GraphValidation::Accept => Ok(
            (
                StateView { relations: s.relations.push(relation), ..s },
                ReceiptOutcomeView::Success { affected: seq![relation.source, relation.target] },
            ),
        ),
    }
}

/// Whether the edge has these ends and this type.
pub open spec fn is_edge(
    r: RelationView,
    source: EntityId,
    target: EntityId,
    relation_type: RelationType,
) -> bool {
    r.source == source && r.target == target && r.relation_type == relation_type
}

/// Every edge with these ends and this type is removed.
pub open spec fn step_unrelate(
    s: StateView,
    source: EntityId,
    target: EntityId,
    relation_type: RelationType,
) -> Step {
    if !exists|i: int|
        0 <= i < s.relations.len() && #[trigger] is_edge(
            s.relations[i],
            source,
            target,
            relation_type,
        ) {
        Err(refusal(DomainErrorCode::NotFound, "relation not found"@))
    } else {
        Ok(
            (
                StateView {
                    relations: s.relations.filter(
                        |r: RelationView| !is_edge(r, source, target, relation_type),
                    ),
                    ..s
                },
                ReceiptOutcomeView::Success { affected: seq![source, target] },
            ),
        )
    }
}

/// A memory that was archived at time `now`.
pub open spec fn archived(m: MemoryView, now: u64) -> MemoryView {
    MemoryView { lifecycle: MemoryLifecycle::Archived { at: Instant(now) }, ..m }.eligibility_advanced()
}

/// The memories with those of these identifiers archived, in order.
pub open spec fn archived_all(ms: Seq<MemoryView>, ids: Seq<EntityId>, now: u64) -> Seq<MemoryView>
    decreases ids.len(),
{
    if ids.len() == 0 {
        ms
    } else {
        edited(
            archived_all(ms, ids.drop_last(), now),
            ids.last(),
            |m: MemoryView| archived(m, now),
        )
    }
}

/// The sources are archived and the result takes their place.
pub open spec fn step_merge(s: StateView, source_ids: Seq<EntityId>, result: MemoryView) -> Step {
    if exists|i: int| 0 <= i < source_ids.len() && !has_memory(s.memories, #[trigger] source_ids[i]) {
        Err(refusal(DomainErrorCode::NotFound, "source memory not found"@))
    } else if has_memory(s.memories, result.id) {
        Err(refusal(DomainErrorCode::Validation, "result memory already exists"@))
    } else {
        let rev = (s.revision + 1) as u64;
        Ok(
            (
                StateView {
                    revision: rev,
                    memories: archived_all(s.memories, source_ids, s.now).push(
                        MemoryView { entity_revision: EntityRevision(rev), ..result },
                    ),
                    ..s
                },
                ReceiptOutcomeView::Success { affected: source_ids.push(result.id) },
            ),
        )
    }
}

/// A memory that was forgotten at time `now`.
pub open spec fn forgotten(m: MemoryView, mode: ForgetMode, now: u64) -> MemoryView {
    MemoryView { lifecycle: mode.lifecycle_at(Instant(now)), ..m }.eligibility_advanced()
}

pub open spec fn step_forget(s: StateView, id: EntityId, mode: ForgetMode) -> Step {
    if !has_memory(s.memories, id) {
        Err(refusal(DomainErrorCode::NotFound, "memory not found"@))
    } else {
        Ok(
            (
                StateView {
                    memories: edited(s.memories, id, |m: MemoryView| forgotten(m, mode, s.now)),
                    ..s
                },
                ReceiptOutcomeView::Success { affected: seq![id] },
            ),
        )
    }
}

/// The tag that a read's context leaves: trimmed, in lower case.
pub open spec fn context_tag(context: Option<Seq<char>>) -> Option<Seq<char>> {
    match context {
        None => None,
        Some(t) => {
            let tag = lowercase(trimmed(t));
            if tag.len() == 0 {
                None
            } else {
                Some(tag)
            }
        },
    }
}

/// A memory whose confidence was raised by `step` at time `now`.
pub open spec fn raised(m: MemoryView, step: Score, now: u64) -> MemoryView {
    MemoryView {
        confidence: m.confidence.up(step),
        access_count: (m.access_count + 1) as u64,
        last_accessed_at: Some(Instant(now)),
        ..m
    }
}

/// A memory that was read at time `now`.
pub open spec fn accessed(m: MemoryView, tag: Option<Seq<char>>, now: u64) -> MemoryView {
    let n = raised(m, Score(ACCESS_STEP), now);
    match tag {
        None => n,
        Some(t) => MemoryView { tags: with_text(n.tags, t), ..n },
    }
}

/// The memories with those of these identifiers read, in order; identifiers
/// of no memory are passed over.
pub open spec fn accessed_all(
    ms: Seq<MemoryView>,
    ids: Seq<EntityId>,
    tag: Option<Seq<char>>,
    now: u64,
) -> Seq<MemoryView>
    decreases ids.len(),
{
    if ids.len() == 0 {
        ms
    } else {
        edited(
            accessed_all(ms, ids.drop_last(), tag, now),
            ids.last(),
            |m: MemoryView| accessed(m, tag, now),
        )
    }
}

/// Those of the identifiers that belong to a memory, in order.
pub open spec fn known(ms: Seq<MemoryView>, ids: Seq<EntityId>) -> Seq<EntityId>
    decreases ids.len(),
{
    if ids.len() == 0 {
        Seq::empty()
    } else if has_memory(ms, ids.last()) {
        known(ms, ids.drop_last()).push(ids.last())
    } else {
        known(ms, ids.drop_last())
    }
}

pub open spec fn step_access(s: StateView, ids: Seq<EntityId>, context: Option<Seq<char>>) -> Step {
    Ok(
        (
            StateView {
                memories: accessed_all(s.memories, ids, context_tag(context), s.now),
                ..s
            },
            ReceiptOutcomeView::Success { affected: known(s.memories, ids) },
        ),
    )
}

/// The memories with those of these identifiers boosted, in order.
pub open spec fn boosted_all(ms: Seq<MemoryView>, ids: Seq<EntityId>, now: u64) -> Seq<MemoryView>
    decreases ids.len(),
{
    if ids.len() == 0 {
        ms
    } else {
        edited(
            boosted_all(ms, ids.drop_last(), now),
            ids.last(),
            |m: MemoryView| raised(m, Score(BOOST_STEP), now),
        )
    }
}

pub open spec fn step_boost(s: StateView, ids: Seq<EntityId>) -> Step {
    Ok(
        (
            StateView { memories: boosted_all(s.memories, ids, s.now), ..s },
            ReceiptOutcomeView::Success { affected: known(s.memories, ids) },
        ),
    )
}

/// A session that was ended at time `now`.
pub open spec fn ended(
    s: SessionView,
    outcome: TaskOutcome,
    final_approach: Option<Seq<char>>,
    lessons: Seq<Seq<char>>,
    now: u64,
) -> SessionView {
    SessionView {
        status: SessionStatus::Ended,
        outcome: Some(outcome),
        final_approach,
        lessons,
        ended_at: Some(Instant(now)),
        ..s
    }
}

pub open spec fn step_end_session(
    s: StateView,
    handle: SessionHandle,
    outcome: TaskOutcome,
    final_approach: Option<Seq<char>>,
    lessons: Seq<Seq<char>>,
) -> Step {
    if !has_session(s.sessions, handle) {
        Err(refusal(DomainErrorCode::NotFound, "session not found"@))
    } else if session_of(s.sessions, handle).status.terminal() {
        Err(refusal(DomainErrorCode::InvalidLifecycleTransition, "session already ended"@))
    } else {
        Ok(
            (
                StateView {
                    sessions: edited_session(
                        s.sessions,
                        handle,
                        |x: SessionView| ended(x, outcome, final_approach, lessons, s.now),
                    ),
                    ..s
                },
                ReceiptOutcomeView::Success { affected: Seq::empty() },
            ),
        )
    }
}

/// A guide that was never practised.
pub open spec fn blank_guide(name: Seq<char>, category: Seq<char>, now: u64) -> GuideView {
    GuideView {
        name,
        category,
        description: Seq::empty(),
        contexts: Seq::empty(),
        learnings: Seq::empty(),
        usage_count: 0,
        last_used: None,
        success_count: 0,
        failure_count: 0,
        anti_patterns: Seq::empty(),
        pitfalls: Seq::empty(),
        depends_on: Seq::empty(),
        enables: Seq::empty(),
        source_memories: Seq::empty(),
        validated_by: Seq::empty(),
        superseded_by: None,
        deprecated: false,
        entity_revision: EntityRevision(1),
        created_at: Instant(now),
        updated_at: Instant(now),
    }
}

/// A guide that was practised at time `now`.
pub open spec fn practised(
    g: GuideView,
    contexts: Seq<Seq<char>>,
    learnings: Seq<Seq<char>>,
    outcome: Option<bool>,
    now: u64,
) -> GuideView {
    GuideView {
        usage_count: (g.usage_count + 1) as u32,
        last_used: Some(Instant(now)),
        success_count: if outcome == Some(true) {
            (g.success_count + 1) as u32
        } else {
            g.success_count
        },
        failure_count: if outcome == Some(false) {
            (g.failure_count + 1) as u32
        } else {
            g.failure_count
        },
        contexts: with_texts(g.contexts, contexts),
        learnings: with_texts(g.learnings, learnings),
        updated_at: Instant(now),
        entity_revision: g.entity_revision.succ(),
        ..g
    }
}

pub open spec fn step_guide_practice(
    s: StateView,
    name: Seq<char>,
    category: Seq<char>,
    contexts: Seq<Seq<char>>,
    learnings: Seq<Seq<char>>,
    outcome: Option<bool>,
) -> Step {
    let known_guides = if has_guide(s.guides, name) {
        s.guides
    } else {
        s.guides.push(blank_guide(name, category, s.now))
    };
    Ok(
        (
            StateView {
                guides: edited_guide(
                    known_guides,
                    name,
                    |g: GuideView| practised(g, contexts, learnings, outcome, s.now),
                ),
                ..s
            },
            ReceiptOutcomeView::Success { affected: Seq::empty() },
        ),
    )
}

/// The guides without those of these names.
pub open spec fn without_guides(gs: Seq<GuideView>, names: Seq<Seq<char>>) -> Seq<GuideView> {
    gs.filter(|g: GuideView| !names.contains(g.name))
}

pub open spec fn step_guide_merge(
    s: StateView,
    source_names: Seq<Seq<char>>,
    result: GuideView,
) -> Step {
    if exists|i: int|
        0 <= i < source_names.len() && !has_guide(s.guides, #[trigger] source_names[i]) {
        Err(refusal(DomainErrorCode::NotFound, "guide not found"@))
    } else if has_guide(s.guides, result.name) {
        Err(refusal(DomainErrorCode::Validation, "guide already exists"@))
    } else {
        Ok(
            (
                StateView {
                    guides: without_guides(s.guides, source_names).push(result),
                    ..s
                },
                ReceiptOutcomeView::Success { affected: Seq::empty() },
            ),
        )
    }
}

pub open spec fn step_guide_forget(s: StateView, name: Seq<char>) -> Step {
    if !has_guide(s.guides, name) {
        Err(refusal(DomainErrorCode::NotFound, "guide not found"@))
    } else {
        Ok(
            (
                StateView { guides: without_guides(s.guides, seq![name]), ..s },
                ReceiptOutcomeView::Success { affected: Seq::empty() },
            ),
        )
    }
}

/// What a command makes of a state.
pub open spec fn step(s: StateView, cmd: DomainCommandView) -> Step {
    match cmd {
        DomainCommandView::AddMemory { memory, .. } => step_add(s, memory),
        DomainCommandView::UpdateMemory { id, expected_revision, patch } => step_update(
            s,
            id,
            expected_revision,
            patch,
        ),
        DomainCommandView::Feedback { memory_id, useful } => step_feedback(s, memory_id, useful),
        DomainCommandView::Relate { relation } => step_relate(s, relation),
        DomainCommandView::Unrelate { source, target, relation_type } => step_unrelate(
            s,
            source,
            target,
            relation_type,
        ),
        DomainCommandView::Merge { source_ids, result } => step_merge(s, source_ids, result),
        DomainCommandView::Forget { id, mode } => step_forget(s, id, mode),
        DomainCommandView::EndSession { session, outcome, final_approach, lessons } =>
            step_end_session(s, session, outcome, final_approach, lessons),
        DomainCommandView::GuidePractice { guide, category, contexts, learnings, outcome } =>
            step_guide_practice(s, guide, category, contexts, learnings, outcome),
        DomainCommandView::GuideMerge { source_names, result } => step_guide_merge(
            s,
            source_names,
            result,
        ),
        DomainCommandView::GuideForget { name } => step_guide_forget(s, name),
        DomainCommandView::Access { memory_ids, context } => step_access(s, memory_ids, context),
        DomainCommandView::BoostConfidence { memory_ids } => step_boost(s, memory_ids),
    }
}

/// The receipt of a command that was applied.
pub open spec fn receipt_for(
    ctx: CommandContextView,
    outcome: ReceiptOutcomeView,
) -> CommandReceiptView {
    CommandReceiptView {
        operation_id: ctx.operation_id,
        store_generation: ctx.store_generation,
        frontend_id: ctx.frontend_id,
        channel_id: ctx.channel_id,
        request_digest: ctx.request_digest,
        outcome,
        retry_epoch: ctx.retry_epoch,
    }
}

/// What comes of a command under its context: the state after it, and its
/// receipt or its refusal. A key that was used before is answered from its
/// receipt, if the input is the same, and refused if it is not. A refused
/// command leaves the state as it was.
pub open spec fn applied(s: StateView, ctx: CommandContextView, cmd: DomainCommandView) -> (
    StateView,
    Result<CommandReceiptView, DomainErrorView>,
) {
    if has_receipt(s.receipts, ctx.store_generation, ctx.operation_id) {
        let kept = receipt_of(s.receipts, ctx.store_generation, ctx.operation_id);
        if kept.request_digest == ctx.request_digest {
            (s, Ok(kept))
        } else {
            (
                s,
                Err(
                    refusal(
                        DomainErrorCode::KeyReuseDifferentInput,
                        "operation key reused with different input"@,
                    ),
                ),
            )
        }
    } else {
        match step(s, cmd) {
            Err(e) => (s, Err(e)),
            Ok(done) => {
                let receipt = receipt_for(ctx, done.1);
                (StateView { receipts: done.0.receipts.push(receipt), ..done.0 }, Ok(receipt))
            },
        }
    }
}

/// A session that was just opened.
pub open spec fn fresh_session(
    handle: SessionHandle,
    channel_id: ChannelId,
    project: Option<Seq<char>>,
    task_type: Option<Seq<char>>,
    technologies: Seq<Seq<char>>,
    now: u64,
) -> SessionView {
    SessionView {
        handle,
        channel_id,
        project,
        task_type,
        technologies,
        status: SessionStatus::Active,
        attempts: Seq::<AttemptView>::empty(),
        outcome: None,
        final_approach: None,
        lessons: Seq::empty(),
        initial_approach: None,
        guides_used: Seq::empty(),
        memories_read: Seq::empty(),
        memories_created: Seq::empty(),
        refinement_attempts: 0,
        self_critique_count: 0,
        started_at: Instant(now),
        ended_at: None,
    }
}

} // verus!
