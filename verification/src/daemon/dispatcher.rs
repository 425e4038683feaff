//! The dispatcher: requests to the store and to the sessions of the channels.

use crate::canonical::repository::{
    by_id, edges_by_id, found, stored, touches, CanonicalRepository,
};
use crate::daemon::envelope::{
    command_of, handshake_fault, success_view, validate_handshake, DomainPayload,
    DomainPayloadView, DomainRequest, HandshakeRequest, HandshakeResponse, IpcEnvelope,
    IpcResponse, IpcResponseView, PROTOCOL_VERSION,
};
use crate::daemon::frame::IpcError;
use crate::daemon::namespaces::{
    epochs_left, has_next, is_open, issue_namespace, namespace_for, namespace_open, with_issued,
};
use crate::daemon::registry::{FrontendRegistry, RegistryView};
use crate::daemon::tools::common::{Hit, HitView};
use crate::daemon::tools::execute::{called, execute_tool, is_ready, ready};
use crate::daemon::tools::sessions::{new_attempt, new_attempt_id};
use crate::digest::text_digest;
use crate::domain::command::{
    refusal, DomainError, DomainErrorCode, DomainErrorView, DomainResult, ReceiptOutcome,
    ReceiptOutcomeView, RetryNamespace,
};
use crate::domain::id::{EntityId, FrontendId, SessionHandle, StoreGeneration};
use crate::domain::memory::Instant;
use crate::domain::relation::RelationView;
use crate::domain::score::{Score, UNIT};
use crate::domain::session::{Attempt, AttemptOutcome, AttemptView, SessionView};
use crate::domain::state::{ended, session_of, StateView};
use crate::text::{clone_all, opt_view, views};
use vstd::prelude::*;

verus! {

/// The store and the registry that the daemon serves, and the namespaces that
/// were issued to its frontends.
#[derive(Debug)]
pub struct Dispatcher {
    pub repo: CanonicalRepository,
    pub registry: FrontendRegistry,
    pub namespaces: Vec<RetryNamespace>,
}

/// The content of these.
#[verifier::ext_equal]
pub struct DispatcherView {
    pub store: StateView,
    pub registry: RegistryView,
    pub namespaces: Seq<RetryNamespace>,
}

impl View for Dispatcher {
    type V = DispatcherView;

    open spec fn view(&self) -> DispatcherView {
        DispatcherView {
            store: self.repo@,
            registry: self.registry@,
            namespaces: self.namespaces@,
        }
    }
}

impl DispatcherView {
    pub open spec fn wf(self) -> bool {
        self.store.wf() && self.registry.wf()
    }

    /// Whether a request may send commands: the epoch that it carries is the one
    /// that was issued to its frontend, and has not run out.
    pub open spec fn admits(self, env: IpcEnvelope) -> bool {
        is_open(self.namespaces, env.frontend_id, env.retry_epoch, self.store.now)
    }
}

/// A command under an epoch that is not open.
pub open spec fn stale() -> DomainErrorView {
    refusal(DomainErrorCode::StaleReplay, "retry namespace is not open"@)
}

pub fn stale_error() -> (r: DomainError)
    ensures
        r@ == stale(),
{
    DomainError::new(DomainErrorCode::StaleReplay, "retry namespace is not open")
}

/// What a request does, and the response to it or why it is refused.
pub type Handled = (DispatcherView, Result<IpcResponseView, DomainErrorView>);

/// A response that affects no record.
pub open spec fn plain(env: IpcEnvelope, payload: DomainPayloadView) -> IpcResponseView {
    success_view(
        env.operation_id,
        ReceiptOutcomeView::Success { affected: Seq::empty() },
        payload,
    )
}

/// The attempt that a frontend sends, the next of its session.
pub open spec fn attempt_sent(
    d: DispatcherView,
    env: IpcEnvelope,
    h: SessionHandle,
    approach: Seq<char>,
    outcome: AttemptOutcome,
    critique: Option<Seq<char>>,
    rationale: Option<Seq<char>>,
    related_memory_id: Option<EntityId>,
) -> AttemptView {
    AttemptView {
        id: new_attempt(env.operation_id),
        session_id: h,
        seq: (session_of(d.registry.sessions, h).attempts.len() + 1) as u32,
        approach,
        outcome,
        critique,
        rationale,
        related_memory_id,
        confidence: Score(UNIT),
        access_count: 0,
        last_accessed_at: None,
        created_at: Instant(d.store.now),
    }
}

/// What comes of a request that changes the store.
pub open spec fn mutated(d: DispatcherView, env: IpcEnvelope) -> Handled {
    let session = d.registry.active(env.frontend_id, env.channel_id);
    match command_of(env.body, session) {
        None => (
            d,
            Err(refusal(DomainErrorCode::Validation, "request requires a session binding"@)),
        ),
        Some(cmd) => if !d.admits(env) {
            (d, Err(stale()))
        } else {
            let (store, r) = stored(d.store, env.context(text_digest(env.body_json@)), cmd);
            (
                DispatcherView { store, ..d },
                match r {
                    Ok(receipt) => Ok(
                        success_view(
                            env.operation_id,
                            receipt.outcome,
                            DomainPayloadView::Nothing,
                        ),
                    ),
                    Err(e) => Err(e),
                },
            )
        },
    }
}

/// What comes of a request in the daemon's protocol.
pub open spec fn served(d: DispatcherView, env: IpcEnvelope, hits: Seq<HitView>) -> Handled {
    let session = d.registry.active(env.frontend_id, env.channel_id);
    match env.body {
        DomainRequest::ToolCall { tool } => {
            let (after, r) = called(d, env, tool, hits);
            (
                after,
                match r {
                    Ok(t) => Ok(plain(env, DomainPayloadView::ToolResult(t))),
                    Err(e) => Err(e),
                },
            )
        },
        DomainRequest::GetMemories { ids } => (
            d,
            Ok(plain(env, DomainPayloadView::Memories(found(d.store.memories, ids@)))),
        ),
        DomainRequest::ListMemories => (
            d,
            Ok(plain(env, DomainPayloadView::Memories(by_id(d.store.memories)))),
        ),
        DomainRequest::Neighbors { id } => (
            d,
            Ok(
                plain(
                    env,
                    DomainPayloadView::Relations(
                        edges_by_id(d.store.relations).filter(|e: RelationView| touches(e, id)),
                    ),
                ),
            ),
        ),
        DomainRequest::SessionAttempt {
            approach,
            outcome,
            critique,
            rationale,
            related_memory_id,
        } => match session {
            None => (
                d,
                Err(refusal(DomainErrorCode::Validation, "no active session for channel"@)),
            ),
            Some(h) => {
                let a = attempt_sent(
                    d,
                    env,
                    h,
                    approach@,
                    outcome,
                    opt_view(critique),
                    opt_view(rationale),
                    related_memory_id,
                );
                (
                    DispatcherView {
                        registry: d.registry.with_change(
                            h,
                            |s: SessionView| SessionView { attempts: s.attempts.push(a), ..s },
                        ),
                        ..d
                    },
                    Ok(plain(env, DomainPayloadView::Nothing)),
                )
            },
        },
        DomainRequest::SessionEnd { outcome, final_approach, lessons } => (
            match session {
                None => d,
                Some(h) => DispatcherView {
                    registry: d.registry.with_change(
                        h,
                        |s: SessionView|
                            ended(
                                s,
                                outcome,
                                opt_view(final_approach),
                                views(lessons@),
                                d.store.now,
                            ),
                    ),
                    ..d
                },
            },
            Ok(plain(env, DomainPayloadView::Nothing)),
        ),
        _ => mutated(d, env),
    }
}

/// What comes of a request. One in another protocol is refused.
pub open spec fn handled(d: DispatcherView, env: IpcEnvelope, hits: Seq<HitView>) -> Handled {
    if env.protocol_version != PROTOCOL_VERSION {
        (
            d,
            Err(
                refusal(
                    DomainErrorCode::Validation,
                    IpcError::UnsupportedProtocol(env.protocol_version).text(),
                ),
            ),
        )
    } else {
        served(d, env, hits)
    }
}

/// Whether a request can be handled without a counter running over.
pub open spec fn request_ready(d: DispatcherView, env: IpcEnvelope) -> bool {
    match env.body {
        DomainRequest::ToolCall { tool } => ready(d, env, tool),
        DomainRequest::SessionAttempt { .. } => d.registry.room(1),
        _ => match command_of(env.body, d.registry.active(env.frontend_id, env.channel_id)) {
            Some(cmd) => d.store.room(cmd.weight()),
            None => true,
        },
    }
}

/// The view of a response.
pub open spec fn response_view(r: DomainResult<IpcResponse>) -> Result<
    IpcResponseView,
    DomainErrorView,
> {
    match r {
        Ok(x) => Ok(x@),
        Err(e) => Err(e@),
    }
}

fn nothing_affected() -> (r: ReceiptOutcome)
    ensures
        r@ == (ReceiptOutcomeView::Success { affected: Seq::empty() }),
{
    let affected: Vec<EntityId> = Vec::new();
    proof {
        assert(affected@ =~= Seq::empty());
    }
    ReceiptOutcome::Success { affected }
}

fn plain_response(envelope: &IpcEnvelope, payload: DomainPayload) -> (r: IpcResponse)
    ensures
        r@ == plain(*envelope, payload@),
{
    IpcResponse::success(envelope.operation_id, nothing_affected(), payload)
}

impl Dispatcher {
    pub fn new(repo: CanonicalRepository, registry: FrontendRegistry) -> (r: Self)
        ensures
            r@ == (DispatcherView {
                store: repo@,
                registry: registry@,
                namespaces: Seq::empty(),
            }),
    {
        let namespaces: Vec<RetryNamespace> = Vec::new();
        proof {
            assert(namespaces@ =~= Seq::empty());
        }
        Dispatcher { repo, registry, namespaces }
    }

    /// The protocol that the dispatcher speaks.
    pub fn protocol_version() -> (r: u32)
        ensures
            r == PROTOCOL_VERSION,
    {
        PROTOCOL_VERSION
    }

    /// The generation of the store that the daemon serves.
    pub fn store_generation(&self) -> (r: StoreGeneration)
        ensures
            r == self@.store.store_generation,
    {
        self.repo.store_generation()
    }

    /// Whether the commands of a request are under an epoch that is open.
    pub fn admits_commands(&self, envelope: &IpcEnvelope) -> (r: bool)
        ensures
            r == self@.admits(*envelope),
    {
        namespace_open(
            &self.namespaces,
            envelope.frontend_id,
            envelope.retry_epoch,
            self.repo.now_millis(),
        )
    }

    /// Issues a namespace to a frontend, without which it may send no command.
    pub fn issue_namespace(&mut self, frontend_id: FrontendId) -> (r: RetryNamespace)
        requires
            has_next(old(self)@.namespaces, frontend_id),
        ensures
            r == namespace_for(old(self)@.namespaces, frontend_id, old(self)@.store.now),
            final(self)@ == (DispatcherView {
                namespaces: with_issued(
                    old(self)@.namespaces,
                    frontend_id,
                    old(self)@.store.now,
                ),
                ..old(self)@
            }),
    {
        let now: u64 = self.repo.now_millis();
        issue_namespace(&mut self.namespaces, frontend_id, now)
    }

    /// Whether a frontend can still be given a next epoch.
    pub fn can_issue(&self, frontend_id: FrontendId) -> (r: bool)
        ensures
            r == has_next(self@.namespaces, frontend_id),
    {
        epochs_left(&self.namespaces, frontend_id)
    }

    /// Answers the first message on a connection: a frontend that speaks the
    /// protocol and knows the store is issued its namespace.
    pub fn handle_handshake(&mut self, req: &HandshakeRequest) -> (r: Result<
        HandshakeResponse,
        IpcError,
    >)
        requires
            has_next(old(self)@.namespaces, req.frontend_id),
        ensures
            match handshake_fault(*req, old(self)@.store.store_generation) {
                Some(e) => r == Err::<HandshakeResponse, IpcError>(e) && final(self)@
                    == old(self)@,
                None => r == Ok::<HandshakeResponse, IpcError>(
                    HandshakeResponse {
                        protocol_version: PROTOCOL_VERSION,
                        store_generation: old(self)@.store.store_generation,
                        retry_epoch: namespace_for(
                            old(self)@.namespaces,
                            req.frontend_id,
                            old(self)@.store.now,
                        ).retry_epoch,
                    },
                ) && final(self)@ == (DispatcherView {
                    namespaces: with_issued(
                        old(self)@.namespaces,
                        req.frontend_id,
                        old(self)@.store.now,
                    ),
                    ..old(self)@
                }),
            },
    {
        let generation = self.repo.store_generation();
        match validate_handshake(req, generation) {
            Err(e) => Err(e),
            Ok(_) => {
                let issued = self.issue_namespace(req.frontend_id);
                Ok(
                    HandshakeResponse {
                        protocol_version: PROTOCOL_VERSION,
                        store_generation: generation,
                        retry_epoch: issued.retry_epoch,
                    },
                )
            },
        }
    }

    /// Handles one request. `hits` is what the search backend found for it.
    pub fn handle(&mut self, envelope: &IpcEnvelope, hits: &Vec<Hit>) -> (r: DomainResult<
        IpcResponse,
    >)
        requires
            old(self)@.wf(),
            request_ready(old(self)@, *envelope),
        ensures
            final(self)@.wf(),
            (final(self)@, response_view(r)) == handled(old(self)@, *envelope, views(hits@)),
    {
        if let Err(e) = envelope.check_protocol() {
            return Err(DomainError::new(DomainErrorCode::Validation, e.message().as_str()));
        }
        match &envelope.body {
            DomainRequest::ToolCall { tool } => match execute_tool(self, envelope, tool, hits) {
                Ok(t) => Ok(plain_response(envelope, DomainPayload::ToolResult(t))),
                Err(e) => Err(e),
            },
            DomainRequest::GetMemories { ids } => {
                let memories = self.repo.get_memories(ids);
                Ok(plain_response(envelope, DomainPayload::Memories(memories)))
            },
            DomainRequest::ListMemories => {
                let memories = self.repo.all_memories();
                Ok(plain_response(envelope, DomainPayload::Memories(memories)))
            },
            DomainRequest::Neighbors { id } => {
                let relations = self.repo.neighbors(*id);
                Ok(plain_response(envelope, DomainPayload::Relations(relations)))
            },
            DomainRequest::SessionAttempt {
                approach,
                outcome,
                critique,
                rationale,
                related_memory_id,
            } => self.record_attempt(
                envelope,
                approach,
                *outcome,
                critique,
                rationale,
                *related_memory_id,
            ),
            DomainRequest::SessionEnd { outcome, final_approach, lessons } => {
                let now: u64 = self.repo.now_millis();
                let _ = self.registry.end_session(
                    envelope.frontend_id,
                    envelope.channel_id,
                    *outcome,
                    final_approach.clone(),
                    clone_all(lessons),
                    now,
                );
                Ok(plain_response(envelope, DomainPayload::Nothing))
            },
            _ => self.mutate(envelope),
        }
    }

    /// Handles one request, if that can be done without a counter running over.
    /// Otherwise nothing happens.
    pub fn try_handle(&mut self, envelope: &IpcEnvelope, hits: &Vec<Hit>) -> (r: Option<
        DomainResult<IpcResponse>,
    >)
        requires
            old(self)@.wf(),
        ensures
            final(self)@.wf(),
            match r {
                Some(x) => request_ready(old(self)@, *envelope) && (
                    final(self)@,
                    response_view(x),
                ) == handled(old(self)@, *envelope, views(hits@)),
                None => !request_ready(old(self)@, *envelope) && final(self)@ == old(self)@,
            },
    {
        if self.can_handle(envelope) {
            Some(self.handle(envelope, hits))
        } else {
            None
        }
    }

    fn record_attempt(
        &mut self,
        envelope: &IpcEnvelope,
        approach: &String,
        outcome: AttemptOutcome,
        critique: &Option<String>,
        rationale: &Option<String>,
        related_memory_id: Option<EntityId>,
    ) -> (r: DomainResult<IpcResponse>)
        requires
            old(self)@.wf(),
            old(self)@.registry.room(1),
        ensures
            final(self)@.wf(),
            final(self)@.store == old(self)@.store,
            final(self)@.namespaces == old(self)@.namespaces,
            match old(self)@.registry.active(envelope.frontend_id, envelope.channel_id) {
                None => final(self)@ == old(self)@ && response_view(r) == Err::<
                    IpcResponseView,
                    DomainErrorView,
                >(refusal(DomainErrorCode::Validation, "no active session for channel"@)),
                Some(h) => {
                    let a = attempt_sent(
                        old(self)@,
                        *envelope,
                        h,
                        approach@,
                        outcome,
                        opt_view(*critique),
                        opt_view(*rationale),
                        related_memory_id,
                    );
                    &&& response_view(r) == Ok::<IpcResponseView, DomainErrorView>(
                        plain(*envelope, DomainPayloadView::Nothing),
                    )
                    &&& final(self)@.registry == old(self)@.registry.with_change(
                        h,
                        |s: SessionView| SessionView { attempts: s.attempts.push(a), ..s },
                    )
                },
            },
    {
        let h = match self.registry.resolve_session(envelope.frontend_id, envelope.channel_id) {
            Some(h) => h,
            None => return Err(
                DomainError::new(DomainErrorCode::Validation, "no active session for channel"),
            ),
        };
        let seq: u32 = match self.registry.session(h) {
            Some(s) => {
                proof {
                    let ss = self@.registry.sessions;
                    let i = choose|i: int| 0 <= i < ss.len() && (#[trigger] ss[i]).handle == h;
                    assert(ss[i].attempts.len() + 1 <= u32::MAX);
                    assert(views(s.attempts@).len() == s.attempts@.len());
                }
                s.attempts.len() as u32 + 1
            },
            None => 1,
        };
        let attempt = Attempt {
            id: new_attempt_id(envelope),
            session_id: h,
            seq,
            approach: approach.clone(),
            outcome,
            critique: critique.clone(),
            rationale: rationale.clone(),
            related_memory_id,
            confidence: Score(UNIT),
            access_count: 0,
            last_accessed_at: None,
            created_at: Instant::new(self.repo.now_millis()),
        };
        let _ = self.registry.record_attempt(envelope.frontend_id, envelope.channel_id, attempt);
        Ok(plain_response(envelope, DomainPayload::Nothing))
    }

    fn mutate(&mut self, envelope: &IpcEnvelope) -> (r: DomainResult<IpcResponse>)
        requires
            old(self)@.wf(),
            match command_of(
                envelope.body,
                old(self)@.registry.active(envelope.frontend_id, envelope.channel_id),
            ) {
                Some(cmd) => old(self)@.store.room(cmd.weight()),
                None => true,
            },
        ensures
            final(self)@.wf(),
            (final(self)@, response_view(r)) == mutated(old(self)@, *envelope),
    {
        let session = self.registry.resolve_session(envelope.frontend_id, envelope.channel_id);
        let cmd = match envelope.body.to_domain_command(session) {
            Some(cmd) => cmd,
            None => return Err(
                DomainError::new(
                    DomainErrorCode::Validation,
                    "request requires a session binding",
                ),
            ),
        };
        if !self.admits_commands(envelope) {
            return Err(stale_error());
        }
        let ctx = envelope.to_command_context(envelope.request_digest());
        match self.repo.apply(&ctx, &cmd) {
            Ok(receipt) => Ok(
                IpcResponse::success(
                    envelope.operation_id,
                    receipt.outcome,
                    DomainPayload::Nothing,
                ),
            ),
            Err(e) => Err(e),
        }
    }

    /// Whether a request can be handled without a counter running over.
    pub fn can_handle(&self, envelope: &IpcEnvelope) -> (r: bool)
        requires
            self@.wf(),
        ensures
            r == request_ready(self@, *envelope),
    {
        match &envelope.body {
            DomainRequest::ToolCall { tool } => is_ready(self, envelope, tool),
            DomainRequest::SessionAttempt { .. } => self.registry.has_room(1),
            DomainRequest::Merge { source_ids, .. } => {
                let n: usize = source_ids.len();
                if n as u64 == u64::MAX {
                    return false;
                }
                self.repo.has_room(n as u64 + 1)
            },
            DomainRequest::AddMemory { .. } => self.repo.has_room(1),
            DomainRequest::UpdateMemory { .. } => self.repo.has_room(1),
            DomainRequest::Feedback { .. } => self.repo.has_room(1),
            DomainRequest::Relate { .. } => self.repo.has_room(1),
            DomainRequest::Unrelate { .. } => self.repo.has_room(1),
            DomainRequest::Forget { .. } => self.repo.has_room(1),
            DomainRequest::SessionEnd { .. } => {
                let session = self.registry.resolve_session(
                    envelope.frontend_id,
                    envelope.channel_id,
                );
                session.is_none() || self.repo.has_room(1)
            },
            _ => true,
        }
    }
}

} // verus!
