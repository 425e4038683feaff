//! Commands, their context, receipts, errors and scope.

use crate::domain::guide::{Guide, GuideView};
use crate::domain::id::{
    ChannelId, EntityId, EntityRevision, FrontendId, OperationId, SessionHandle, StoreGeneration,
};
use crate::domain::memory::{
    clone_ids, Evidence, EvidenceView, FragmentType, Instant, Memory, MemoryLifecycle, MemoryView,
};
use crate::domain::relation::{Relation, RelationType, RelationView};
use crate::domain::score::Score;
use crate::domain::session::TaskOutcome;
use crate::text::{clone_all, opt_str, opt_view, same, views};
use vstd::prelude::*;

verus! {

// ---------------------------------------------------------------------------
// Scope
// ---------------------------------------------------------------------------

/// What part of the store a request speaks of.
#[derive(Debug, PartialEq)]
pub struct Scope {
    pub project: Option<String>,
    pub fragment_types: Option<Vec<FragmentType>>,
    pub after: Option<u64>,
    pub before: Option<u64>,
    pub min_confidence: Option<Score>,
    pub all_projects: bool,
}

/// The content of a scope.
#[verifier::ext_equal]
pub struct ScopeView {
    pub project: Option<Seq<char>>,
    pub fragment_types: Option<Seq<FragmentType>>,
    pub after: Option<u64>,
    pub before: Option<u64>,
    pub min_confidence: Option<Score>,
    pub all_projects: bool,
}

impl View for Scope {
    type V = ScopeView;

    open spec fn view(&self) -> ScopeView {
        ScopeView {
            project: opt_view(self.project),
            fragment_types: opt_view(self.fragment_types),
            after: self.after,
            before: self.before,
            min_confidence: self.min_confidence,
            all_projects: self.all_projects,
        }
    }
}

fn clone_types(v: &Vec<FragmentType>) -> (r: Vec<FragmentType>)
    ensures
        r@ == v@,
{
    let r = v.clone();
    proof {
        assert forall|i: int| 0 <= i < v@.len() implies r@[i] == v@[i] by {
            assert(cloned::<FragmentType>(v@[i], r@[i]));
        }
        assert(r@ =~= v@);
    }
    r
}

impl Clone for Scope {
    fn clone(&self) -> (r: Self)
        ensures
            r@ == self@,
    {
        Scope {
            project: self.project.clone(),
            fragment_types: match &self.fragment_types {
                Some(v) => Some(clone_types(v)),
                None => None,
            },
            after: self.after,
            before: self.before,
            min_confidence: self.min_confidence,
            all_projects: self.all_projects,
        }
    }
}

impl Default for Scope {
    fn default() -> (r: Self)
        ensures
            r@ == (ScopeView {
                project: None,
                fragment_types: None,
                after: None,
                before: None,
                min_confidence: None,
                all_projects: false,
            }),
    {
        Scope {
            project: None,
            fragment_types: None,
            after: None,
            before: None,
            min_confidence: None,
            all_projects: false,
        }
    }
}

impl ScopeView {
    /// A record without a project is global and in every scope. A record with
    /// one is in the scope of that project, and in one that takes in all.
    pub open spec fn includes(self, record_project: Option<Seq<char>>) -> bool {
        self.all_projects || record_project is None || record_project == self.project
    }
}

impl Scope {
    pub fn includes_project(&self, record_project: Option<&str>) -> (r: bool)
        ensures
            r == self@.includes(opt_str(record_project)),
    {
        if self.all_projects {
            return true;
        }
        match record_project {
            None => true,
            Some(theirs) => match &self.project {
                Some(ours) => same(ours.as_str(), theirs),
                None => false,
            },
        }
    }
}

// ---------------------------------------------------------------------------
// Commands
// ---------------------------------------------------------------------------

/// Changes to a memory; what is absent stays.
#[derive(Debug)]
pub struct MemoryPatch {
    pub title: Option<String>,
    pub fragment: Option<String>,
    pub description: Option<String>,
    pub fragment_type: Option<FragmentType>,
    pub project: Option<Option<String>>,
    pub confidence: Option<Score>,
    pub quality_score: Option<Option<Score>>,
    pub tags: Option<Vec<String>>,
    pub evidence: Option<Vec<Evidence>>,
}

/// The content of a patch.
#[verifier::ext_equal]
pub struct MemoryPatchView {
    pub title: Option<Seq<char>>,
    pub fragment: Option<Seq<char>>,
    pub description: Option<Seq<char>>,
    pub fragment_type: Option<FragmentType>,
    pub project: Option<Option<Seq<char>>>,
    pub confidence: Option<Score>,
    pub quality_score: Option<Option<Score>>,
    pub tags: Option<Seq<Seq<char>>>,
    pub evidence: Option<Seq<EvidenceView>>,
}

impl View for MemoryPatch {
    type V = MemoryPatchView;

    open spec fn view(&self) -> MemoryPatchView {
        MemoryPatchView {
            title: opt_view(self.title),
            fragment: opt_view(self.fragment),
            description: opt_view(self.description),
            fragment_type: self.fragment_type,
            project: match self.project {
                Some(p) => Some(opt_view(p)),
                None => None,
            },
            confidence: self.confidence,
            quality_score: self.quality_score,
            tags: match self.tags {
                Some(t) => Some(views(t@)),
                None => None,
            },
            evidence: match self.evidence {
                Some(e) => Some(views(e@)),
                None => None,
            },
        }
    }
}

impl Clone for MemoryPatch {
    fn clone(&self) -> (r: Self)
        ensures
            r@ == self@,
    {
        MemoryPatch {
            title: self.title.clone(),
            fragment: self.fragment.clone(),
            description: self.description.clone(),
            fragment_type: self.fragment_type,
            project: match &self.project {
                Some(p) => Some(p.clone()),
                None => None,
            },
            confidence: self.confidence,
            quality_score: self.quality_score,
            tags: match &self.tags {
                Some(t) => Some(clone_all(t)),
                None => None,
            },
            evidence: match &self.evidence {
                Some(e) => Some(clone_all(e)),
                None => None,
            },
        }
    }
}

impl MemoryPatchView {
    /// The patch that changes nothing.
    pub open spec fn empty() -> MemoryPatchView {
        MemoryPatchView {
            title: None,
            fragment: None,
            description: None,
            fragment_type: None,
            project: None,
            confidence: None,
            quality_score: None,
            tags: None,
            evidence: None,
        }
    }

    /// Whether the patch changes what is projected for search. The project
    /// counts, because it is indexed.
    pub open spec fn changes_content(self) -> bool {
        ||| self.title is Some
        ||| self.fragment is Some
        ||| self.description is Some
        ||| self.fragment_type is Some
        ||| self.project is Some
    }

    /// The memory with the patch laid over it. Its revisions advance when its
    /// content changes.
    pub open spec fn over(self, m: MemoryView) -> MemoryView {
        let n = MemoryView {
            title: if self.title is Some { self.title->0 } else { m.title },
            fragment: if self.fragment is Some { self.fragment->0 } else { m.fragment },
            description: if self.description is Some { self.description->0 } else { m.description },
            fragment_type: if self.fragment_type is Some { self.fragment_type->0 } else {
                m.fragment_type
            },
            project: if self.project is Some { self.project->0 } else { m.project },
            confidence: if self.confidence is Some { self.confidence->0 } else { m.confidence },
            quality_score: if self.quality_score is Some { self.quality_score->0 } else {
                m.quality_score
            },
            tags: if self.tags is Some { self.tags->0 } else { m.tags },
            evidence: if self.evidence is Some { self.evidence->0 } else { m.evidence },
            ..m
        };
        if self.changes_content() {
            n.document_advanced()
        } else {
            n
        }
    }
}

impl Default for MemoryPatch {
    fn default() -> (r: Self)
        ensures
            r@ == MemoryPatchView::empty(),
    {
        MemoryPatch {
            title: None,
            fragment: None,
            description: None,
            fragment_type: None,
            project: None,
            confidence: None,
            quality_score: None,
            tags: None,
            evidence: None,
        }
    }
}

/// How a memory is forgotten.
#[derive(Debug, Clone, Copy, PartialEq, Eq, Structural)]
pub enum ForgetMode {
    Delete,
    Invalidate,
    Archive,
}

impl ForgetMode {
    /// The state of a memory that was forgotten this way at a given time.
    pub open spec fn lifecycle_at(self, at: Instant) -> MemoryLifecycle {
        match self {
            ForgetMode::Delete => MemoryLifecycle::Deleted { at },
            ForgetMode::Invalidate => MemoryLifecycle::Invalidated { at },
            ForgetMode::Archive => MemoryLifecycle::Archived { at },
        }
    }

    /// The state of a memory that was forgotten this way at the epoch.
    pub fn lifecycle(&self) -> (r: MemoryLifecycle)
        ensures
            r == self.lifecycle_at(Instant(0)),
    {
        self.applied_at(Instant(0))
    }

    /// The state of a memory that was forgotten this way at a given time.
    pub fn applied_at(&self, at: Instant) -> (r: MemoryLifecycle)
        ensures
            r == self.lifecycle_at(at),
    {
        match self {
            ForgetMode::Delete => MemoryLifecycle::Deleted { at },
            ForgetMode::Invalidate => MemoryLifecycle::Invalidated { at },
            ForgetMode::Archive => MemoryLifecycle::Archived { at },
        }
    }
}

/// Every way of forgetting takes a memory out of recall, and no two leave it
/// in the same state.
pub proof fn law_forget_modes(a: ForgetMode, b: ForgetMode, at: Instant)
    ensures
        !(a.lifecycle_at(at) is Live),
        a != b ==> a.lifecycle_at(at) != b.lifecycle_at(at),
{
}

/// A change to the store.
#[derive(Debug)]
#[allow(inconsistent_fields)]
pub enum DomainCommand {
    AddMemory { memory: Memory, session: Option<SessionHandle> },
    UpdateMemory { id: EntityId, expected_revision: Option<EntityRevision>, patch: MemoryPatch },
    Feedback { memory_id: EntityId, useful: bool },
    Relate { relation: Relation },
    Unrelate { source: EntityId, target: EntityId, relation_type: RelationType },
    Merge { source_ids: Vec<EntityId>, result: Memory },
    Forget { id: EntityId, mode: ForgetMode },
    EndSession {
        session: SessionHandle,
        outcome: TaskOutcome,
        final_approach: Option<String>,
        lessons: Vec<String>,
    },
    GuidePractice {
        guide: String,
        category: String,
        contexts: Vec<String>,
        learnings: Vec<String>,
        outcome: Option<bool>,
    },
    GuideMerge { source_names: Vec<String>, result: Guide },
    GuideForget { name: String },
    /// A read that is to be seen: each memory's confidence and access count
    /// rise, and it is tagged with the context.
    Access { memory_ids: Vec<EntityId>, context: Option<String> },
    /// Memories were loaded into a session.
    BoostConfidence { memory_ids: Vec<EntityId> },
}

/// The content of a command.
#[verifier::ext_equal]
#[allow(inconsistent_fields)]
pub enum DomainCommandView {
    AddMemory { memory: MemoryView, session: Option<SessionHandle> },
    UpdateMemory {
        id: EntityId,
        expected_revision: Option<EntityRevision>,
        patch: MemoryPatchView,
    },
    Feedback { memory_id: EntityId, useful: bool },
    Relate { relation: RelationView },
    Unrelate { source: EntityId, target: EntityId, relation_type: RelationType },
    Merge { source_ids: Seq<EntityId>, result: MemoryView },
    Forget { id: EntityId, mode: ForgetMode },
    EndSession {
        session: SessionHandle,
        outcome: TaskOutcome,
        final_approach: Option<Seq<char>>,
        lessons: Seq<Seq<char>>,
    },
    GuidePractice {
        guide: Seq<char>,
        category: Seq<char>,
        contexts: Seq<Seq<char>>,
        learnings: Seq<Seq<char>>,
        outcome: Option<bool>,
    },
    GuideMerge { source_names: Seq<Seq<char>>, result: GuideView },
    GuideForget { name: Seq<char> },
    Access { memory_ids: Seq<EntityId>, context: Option<Seq<char>> },
    BoostConfidence { memory_ids: Seq<EntityId> },
}

impl View for DomainCommand {
    type V = DomainCommandView;

    open spec fn view(&self) -> DomainCommandView {
        match *self {
            DomainCommand::AddMemory { memory, session } => DomainCommandView::AddMemory {
                memory: memory@,
                session,
            },
            DomainCommand::UpdateMemory { id, expected_revision, patch } =>
                DomainCommandView::UpdateMemory { id, expected_revision, patch: patch@ },
            DomainCommand::Feedback { memory_id, useful } => DomainCommandView::Feedback {
                memory_id,
                useful,
            },
            DomainCommand::Relate { relation } => DomainCommandView::Relate {
                relation: relation@,
            },
            DomainCommand::Unrelate { source, target, relation_type } =>
                DomainCommandView::Unrelate { source, target, relation_type },
            DomainCommand::Merge { source_ids, result } => DomainCommandView::Merge {
                source_ids: source_ids@,
                result: result@,
            },
            DomainCommand::Forget { id, mode } => DomainCommandView::Forget { id, mode },
            DomainCommand::EndSession { session, outcome, final_approach, lessons } =>
                DomainCommandView::EndSession {
                session,
                outcome,
                final_approach: opt_view(final_approach),
                lessons: views(lessons@),
            },
            DomainCommand::GuidePractice { guide, category, contexts, learnings, outcome } =>
                DomainCommandView::GuidePractice {
                guide: guide@,
                category: category@,
                contexts: views(contexts@),
                learnings: views(learnings@),
                outcome,
            },
            DomainCommand::GuideMerge { source_names, result } => DomainCommandView::GuideMerge {
                source_names: views(source_names@),
                result: result@,
            },
            DomainCommand::GuideForget { name } => DomainCommandView::GuideForget { name: name@ },
            DomainCommand::Access { memory_ids, context } => DomainCommandView::Access {
                memory_ids: memory_ids@,
                context: opt_view(context),
            },
            DomainCommand::BoostConfidence { memory_ids } => DomainCommandView::BoostConfidence {
                memory_ids: memory_ids@,
            },
        }
    }
}

impl Clone for DomainCommand {
    fn clone(&self) -> (r: Self)
        ensures
            r@ == self@,
    {
        match self {
            DomainCommand::AddMemory { memory, session } => DomainCommand::AddMemory {
                memory: memory.clone(),
                session: *session,
            },
            DomainCommand::UpdateMemory { id, expected_revision, patch } =>
                DomainCommand::UpdateMemory {
                id: *id,
                expected_revision: *expected_revision,
                patch: patch.clone(),
            },
            DomainCommand::Feedback { memory_id, useful } => DomainCommand::Feedback {
                memory_id: *memory_id,
                useful: *useful,
            },
            DomainCommand::Relate { relation } => DomainCommand::Relate {
                relation: relation.clone(),
            },
            DomainCommand::Unrelate { source, target, relation_type } => DomainCommand::Unrelate {
                source: *source,
                target: *target,
                relation_type: *relation_type,
            },
            DomainCommand::Merge { source_ids, result } => DomainCommand::Merge {
                source_ids: clone_ids(source_ids),
                result: result.clone(),
            },
            DomainCommand::Forget { id, mode } => DomainCommand::Forget { id: *id, mode: *mode },
            DomainCommand::EndSession { session, outcome, final_approach, lessons } =>
                DomainCommand::EndSession {
                session: *session,
                outcome: *outcome,
                final_approach: final_approach.clone(),
                lessons: clone_all(lessons),
            },
            DomainCommand::GuidePractice { guide, category, contexts, learnings, outcome } =>
                DomainCommand::GuidePractice {
                guide: guide.clone(),
                category: category.clone(),
                contexts: clone_all(contexts),
                learnings: clone_all(learnings),
                outcome: *outcome,
            },
            DomainCommand::GuideMerge { source_names, result } => DomainCommand::GuideMerge {
                source_names: clone_all(source_names),
                result: result.clone(),
            },
            DomainCommand::GuideForget { name } => DomainCommand::GuideForget {
                name: name.clone(),
            },
            DomainCommand::Access { memory_ids, context } => DomainCommand::Access {
                memory_ids: clone_ids(memory_ids),
                context: context.clone(),
            },
            DomainCommand::BoostConfidence { memory_ids } => DomainCommand::BoostConfidence {
                memory_ids: clone_ids(memory_ids),
            },
        }
    }
}

// ---------------------------------------------------------------------------
// Context and receipts
// ---------------------------------------------------------------------------

/// Who sends a command, under which key, and how it was asked for.
#[derive(Debug, PartialEq)]
pub struct CommandContext {
    pub store_generation: StoreGeneration,
    pub frontend_id: FrontendId,
    pub channel_id: ChannelId,
    pub session: Option<SessionHandle>,
    pub operation_id: OperationId,
    pub request_digest: String,
    pub deadline_millis: Option<u64>,
    pub scope: Scope,
    pub retry_epoch: u64,
}

/// The content of a context.
#[verifier::ext_equal]
pub struct CommandContextView {
    pub store_generation: StoreGeneration,
    pub frontend_id: FrontendId,
    pub channel_id: ChannelId,
    pub session: Option<SessionHandle>,
    pub operation_id: OperationId,
    pub request_digest: Seq<char>,
    pub deadline_millis: Option<u64>,
    pub scope: ScopeView,
    pub retry_epoch: u64,
}

impl View for CommandContext {
    type V = CommandContextView;

    open spec fn view(&self) -> CommandContextView {
        CommandContextView {
            store_generation: self.store_generation,
            frontend_id: self.frontend_id,
            channel_id: self.channel_id,
            session: self.session,
            operation_id: self.operation_id,
            request_digest: self.request_digest@,
            deadline_millis: self.deadline_millis,
            scope: self.scope@,
            retry_epoch: self.retry_epoch,
        }
    }
}

impl Clone for CommandContext {
    fn clone(&self) -> (r: Self)
        ensures
            r@ == self@,
    {
        CommandContext {
            store_generation: self.store_generation,
            frontend_id: self.frontend_id,
            channel_id: self.channel_id,
            session: self.session,
            operation_id: self.operation_id,
            request_digest: self.request_digest.clone(),
            deadline_millis: self.deadline_millis,
            scope: self.scope.clone(),
            retry_epoch: self.retry_epoch,
        }
    }
}

/// What a command did.
#[derive(Debug, PartialEq, Eq)]
pub enum ReceiptOutcome {
    Success { affected: Vec<EntityId> },
    Rejected { code: DomainErrorCode },
}

/// The content of an outcome.
#[verifier::ext_equal]
pub enum ReceiptOutcomeView {
    Success { affected: Seq<EntityId> },
    Rejected { code: DomainErrorCode },
}

impl View for ReceiptOutcome {
    type V = ReceiptOutcomeView;

    open spec fn view(&self) -> ReceiptOutcomeView {
        match *self {
            ReceiptOutcome::Success { affected } => ReceiptOutcomeView::Success {
                affected: affected@,
            },
            ReceiptOutcome::Rejected { code } => ReceiptOutcomeView::Rejected { code },
        }
    }
}

impl Clone for ReceiptOutcome {
    fn clone(&self) -> (r: Self)
        ensures
            r@ == self@,
    {
        match self {
            ReceiptOutcome::Success { affected } => ReceiptOutcome::Success {
                affected: clone_ids(affected),
            },
            ReceiptOutcome::Rejected { code } => ReceiptOutcome::Rejected { code: *code },
        }
    }
}

/// The proof that a command was applied, kept under its key.
#[derive(Debug, PartialEq, Eq)]
pub struct CommandReceipt {
    pub operation_id: OperationId,
    pub store_generation: StoreGeneration,
    pub frontend_id: FrontendId,
    pub channel_id: ChannelId,
    pub request_digest: String,
    pub outcome: ReceiptOutcome,
    pub retry_epoch: u64,
}

/// The content of a receipt.
#[verifier::ext_equal]
pub struct CommandReceiptView {
    pub operation_id: OperationId,
    pub store_generation: StoreGeneration,
    pub frontend_id: FrontendId,
    pub channel_id: ChannelId,
    pub request_digest: Seq<char>,
    pub outcome: ReceiptOutcomeView,
    pub retry_epoch: u64,
}

impl View for CommandReceipt {
    type V = CommandReceiptView;

    open spec fn view(&self) -> CommandReceiptView {
        CommandReceiptView {
            operation_id: self.operation_id,
            store_generation: self.store_generation,
            frontend_id: self.frontend_id,
            channel_id: self.channel_id,
            request_digest: self.request_digest@,
            outcome: self.outcome@,
            retry_epoch: self.retry_epoch,
        }
    }
}

impl Clone for CommandReceipt {
    fn clone(&self) -> (r: Self)
        ensures
            r@ == self@,
    {
        CommandReceipt {
            operation_id: self.operation_id,
            store_generation: self.store_generation,
            frontend_id: self.frontend_id,
            channel_id: self.channel_id,
            request_digest: self.request_digest.clone(),
            outcome: self.outcome.clone(),
            retry_epoch: self.retry_epoch,
        }
    }
}

/// The stretch of time in which a frontend may retry its operations. Its end is
/// fixed when it is issued: reconnecting does not extend it.
#[derive(Debug, Clone, Copy, PartialEq, Eq, Structural)]
pub struct RetryNamespace {
    pub frontend_id: FrontendId,
    pub retry_epoch: u64,
    pub issued_at: u64,
    pub expires_at: u64,
}

impl RetryNamespace {
    pub fn new(frontend_id: FrontendId, retry_epoch: u64, issued_at: u64, ttl_millis: u64) -> (r:
        Self)
        requires
            issued_at + ttl_millis <= u64::MAX,
        ensures
            r == (RetryNamespace {
                frontend_id,
                retry_epoch,
                issued_at,
                expires_at: (issued_at + ttl_millis) as u64,
            }),
    {
        RetryNamespace { frontend_id, retry_epoch, issued_at, expires_at: issued_at + ttl_millis }
    }

    /// Whether the name space is still open at a given time.
    pub fn is_valid_at(&self, now_millis: u64) -> (r: bool)
        ensures
            r == (now_millis < self.expires_at),
    {
        now_millis < self.expires_at
    }
}

/// A position in the history of the store.
#[derive(Debug, Clone, Copy, PartialEq, Eq, Structural)]
pub struct SnapshotToken(pub u64);

impl SnapshotToken {
    pub fn new(v: u64) -> (r: Self)
        ensures
            r == SnapshotToken(v),
    {
        SnapshotToken(v)
    }

    pub fn as_u64(&self) -> (r: u64)
        ensures
            r == self.0,
    {
        self.0
    }
}

// ---------------------------------------------------------------------------
// Errors
// ---------------------------------------------------------------------------

/// Why a command was refused.
#[derive(Debug, Clone, Copy, PartialEq, Eq, Hash, Structural)]
pub enum DomainErrorCode {
    NotFound,
    RevisionConflict,
    DuplicateAlias,
    DuplicateEdge,
    SelfSupersession,
    SupersessionCycle,
    InvalidLifecycleTransition,
    StaleReplay,
    KeyReuseDifferentInput,
    OutOfScope,
    Validation,
}

impl DomainErrorCode {
    /// The name of the value on the wire.
    pub open spec fn name(self) -> Seq<char> {
        match self {
            DomainErrorCode::NotFound => "not_found"@,
            DomainErrorCode::RevisionConflict => "revision_conflict"@,
            DomainErrorCode::DuplicateAlias => "duplicate_alias"@,
            DomainErrorCode::DuplicateEdge => "duplicate_edge"@,
            DomainErrorCode::SelfSupersession => "self_supersession"@,
            DomainErrorCode::SupersessionCycle => "supersession_cycle"@,
            DomainErrorCode::InvalidLifecycleTransition => "invalid_lifecycle_transition"@,
            DomainErrorCode::StaleReplay => "stale_replay"@,
            DomainErrorCode::KeyReuseDifferentInput => "key_reuse_different_input"@,
            DomainErrorCode::OutOfScope => "out_of_scope"@,
            DomainErrorCode::Validation => "validation"@,
        }
    }

    /// The code with a given name; an unknown name stands for `Validation`.
    pub open spec fn named(s: Seq<char>) -> DomainErrorCode {
        if s == "not_found"@ {
            DomainErrorCode::NotFound
        } else if s == "revision_conflict"@ {
            DomainErrorCode::RevisionConflict
        } else if s == "duplicate_alias"@ {
            DomainErrorCode::DuplicateAlias
        } else if s == "duplicate_edge"@ {
            DomainErrorCode::DuplicateEdge
        } else if s == "self_supersession"@ {
            DomainErrorCode::SelfSupersession
        } else if s == "supersession_cycle"@ {
            DomainErrorCode::SupersessionCycle
        } else if s == "invalid_lifecycle_transition"@ {
            DomainErrorCode::InvalidLifecycleTransition
        } else if s == "stale_replay"@ {
            DomainErrorCode::StaleReplay
        } else if s == "key_reuse_different_input"@ {
            DomainErrorCode::KeyReuseDifferentInput
        } else if s == "out_of_scope"@ {
            DomainErrorCode::OutOfScope
        } else {
            DomainErrorCode::Validation
        }
    }

    pub fn as_str(&self) -> (r: &'static str)
        ensures
            r@ == self.name(),
    {
        match self {
            DomainErrorCode::NotFound => "not_found",
            DomainErrorCode::RevisionConflict => "revision_conflict",
            DomainErrorCode::DuplicateAlias => "duplicate_alias",
            DomainErrorCode::DuplicateEdge => "duplicate_edge",
            DomainErrorCode::SelfSupersession => "self_supersession",
            DomainErrorCode::SupersessionCycle => "supersession_cycle",
            DomainErrorCode::InvalidLifecycleTransition => "invalid_lifecycle_transition",
            DomainErrorCode::StaleReplay => "stale_replay",
            DomainErrorCode::KeyReuseDifferentInput => "key_reuse_different_input",
            DomainErrorCode::OutOfScope => "out_of_scope",
            DomainErrorCode::Validation => "validation",
        }
    }

    pub fn parse(s: &str) -> (r: Self)
        ensures
            r == DomainErrorCode::named(s@),
    {
        if same(s, "not_found") {
            DomainErrorCode::NotFound
        } else if same(s, "revision_conflict") {
            DomainErrorCode::RevisionConflict
        } else if same(s, "duplicate_alias") {
            DomainErrorCode::DuplicateAlias
        } else if same(s, "duplicate_edge") {
            DomainErrorCode::DuplicateEdge
        } else if same(s, "self_supersession") {
            DomainErrorCode::SelfSupersession
        } else if same(s, "supersession_cycle") {
            DomainErrorCode::SupersessionCycle
        } else if same(s, "invalid_lifecycle_transition") {
            DomainErrorCode::InvalidLifecycleTransition
        } else if same(s, "stale_replay") {
            DomainErrorCode::StaleReplay
        } else if same(s, "key_reuse_different_input") {
            DomainErrorCode::KeyReuseDifferentInput
        } else if same(s, "out_of_scope") {
            DomainErrorCode::OutOfScope
        } else {
            DomainErrorCode::Validation
        }
    }
}

/// A code is read back from its name, and every code but `Validation` from
/// nothing else.
pub proof fn law_domain_error_code_names(t: DomainErrorCode, s: Seq<char>)
    ensures
        DomainErrorCode::named(t.name()) == t,
        DomainErrorCode::named(s) == t && t != DomainErrorCode::Validation ==> s == t.name(),
{
    reveal_strlit("not_found");
    reveal_strlit("revision_conflict");
    reveal_strlit("duplicate_alias");
    reveal_strlit("duplicate_edge");
    reveal_strlit("self_supersession");
    reveal_strlit("supersession_cycle");
    reveal_strlit("invalid_lifecycle_transition");
    reveal_strlit("stale_replay");
    reveal_strlit("key_reuse_different_input");
    reveal_strlit("out_of_scope");
    reveal_strlit("validation");
    assert("not_found"@.len() == 9);
    assert("revision_conflict"@.len() == 17);
    assert("duplicate_alias"@.len() == 15);
    assert("duplicate_edge"@.len() == 14);
    assert("self_supersession"@.len() == 17);
    assert("supersession_cycle"@.len() == 18);
    assert("invalid_lifecycle_transition"@.len() == 28);
    assert("stale_replay"@.len() == 12);
    assert("key_reuse_different_input"@.len() == 25);
    assert("out_of_scope"@.len() == 12);
    assert("validation"@.len() == 10);
    assert("self_supersession"@[0] == 's');
    assert("revision_conflict"@[0] == 'r');
    assert("out_of_scope"@[0] == 'o');
    assert("stale_replay"@[0] == 's');
}

/// A refusal, with a message for the reader.
#[derive(Debug, PartialEq, Eq)]
pub struct DomainError {
    pub code: DomainErrorCode,
    pub message: String,
}

/// The content of a refusal.
#[verifier::ext_equal]
pub struct DomainErrorView {
    pub code: DomainErrorCode,
    pub message: Seq<char>,
}

impl View for DomainError {
    type V = DomainErrorView;

    open spec fn view(&self) -> DomainErrorView {
        DomainErrorView { code: self.code, message: self.message@ }
    }
}

impl Clone for DomainError {
    fn clone(&self) -> (r: Self)
        ensures
            r == *self,
    {
        DomainError { code: self.code, message: self.message.clone() }
    }
}

/// A refusal with a code and a message.
pub open spec fn refusal(code: DomainErrorCode, message: Seq<char>) -> DomainErrorView {
    DomainErrorView { code, message }
}

impl DomainError {
    pub fn new(code: DomainErrorCode, message: &str) -> (r: Self)
        ensures
            r@ == refusal(code, message@),
    {
        DomainError { code, message: message.to_owned() }
    }
}

pub type DomainResult<T> = Result<T, DomainError>;

} // verus!
