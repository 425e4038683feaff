//! The protocol of a connection: who may connect, the handshake that comes
//! first, and the requests that follow it.

use crate::daemon::dispatcher::response_view;
use crate::daemon::envelope::{
    HandshakeRequest, HandshakeResponse, IpcEnvelope, IpcResponse, IpcResponseView, IpcResultView,
    WireError, WireMessage, WireReply, PROTOCOL_VERSION,
};
use crate::daemon::frame::IpcError;
use crate::daemon::limits::{queued_for, QuotaError, QuotaTracker, QuotaView};
use crate::daemon::server::peer_authorized;
use crate::domain::command::{
    refusal, DomainError, DomainErrorCode, DomainErrorView, DomainResult,
};
use crate::domain::id::{FrontendId, OperationId};
use crate::text::{dec, decimal};
use vstd::prelude::*;

verus! {

// ---------------------------------------------------------------------------
// Replies
// ---------------------------------------------------------------------------

/// The content of a reply.
#[verifier::ext_equal]
pub enum WireReplyView {
    Handshake(HandshakeResponse),
    Response(IpcResponseView),
    Error { kind: Seq<char>, message: Seq<char> },
}

impl View for WireReply {
    type V = WireReplyView;

    open spec fn view(&self) -> WireReplyView {
        match *self {
            WireReply::Handshake(h) => WireReplyView::Handshake(h),
            WireReply::Response(r) => WireReplyView::Response(r@),
            WireReply::Error(e) => WireReplyView::Error { kind: e.kind@, message: e.message@ },
        }
    }
}

/// A message was turned away.
pub open spec fn turned_away(kind: Seq<char>, message: Seq<char>) -> WireReplyView {
    WireReplyView::Error { kind, message }
}

fn turn_away(kind: &str, message: &str) -> (r: WireReply)
    ensures
        r@ == turned_away(kind@, message@),
{
    WireReply::Error(WireError { kind: kind.to_owned(), message: message.to_owned() })
}

/// A response that reports an error.
pub open spec fn failed(op: OperationId, e: DomainErrorView) -> IpcResponseView {
    IpcResponseView {
        protocol_version: PROTOCOL_VERSION,
        operation_id: op,
        result: IpcResultView::Error { code: e.code, message: e.message },
    }
}

/// A request cannot be taken now.
pub open spec fn busy(op: OperationId, e: QuotaError) -> WireReplyView {
    WireReplyView::Response(
        failed(op, refusal(DomainErrorCode::Validation, "backpressure: "@ + e.text())),
    )
}

fn busy_reply(op: OperationId, e: QuotaError) -> (r: WireReply)
    ensures
        r@ == busy(op, e),
{
    let mut message = "backpressure: ".to_owned();
    message.append(e.message());
    let err = DomainError::new(DomainErrorCode::Validation, message.as_str());
    WireReply::Response(IpcResponse::error(op, &err))
}

/// The response to a request that was dispatched.
pub open spec fn answered(op: OperationId, r: Result<IpcResponseView, DomainErrorView>) ->
    IpcResponseView {
    match r {
        Ok(x) => x,
        Err(e) => failed(op, e),
    }
}

/// A response is too long.
pub open spec fn over_budget_text(n: nat) -> Seq<char> {
    "response exceeds budget ("@ + dec(n) + " bytes)"@
}

pub fn over_budget(n: usize) -> (r: String)
    ensures
        r@ == over_budget_text(n as nat),
{
    let mut out = "response exceeds budget (".to_owned();
    out.append(decimal(n as u64).as_str());
    out.append(" bytes)");
    out
}

/// What is sent in place of a reply that takes `bytes` bytes: a response that
/// is over the budget is refused, and never cut. Other replies always pass.
pub open spec fn budgeted(reply: WireReplyView, bytes: usize, q: QuotaView) -> WireReplyView {
    match reply {
        WireReplyView::Response(r) => if bytes > q.limits.max_response_bytes {
            WireReplyView::Response(
                failed(
                    r.operation_id,
                    refusal(DomainErrorCode::Validation, over_budget_text(bytes as nat)),
                ),
            )
        } else {
            reply
        },
        _ => reply,
    }
}

/// The operation that a reply responds to. Only a response has one.
pub open spec fn responded(reply: WireReplyView) -> Option<OperationId> {
    match reply {
        WireReplyView::Response(r) => Some(r.operation_id),
        _ => None,
    }
}

pub fn operation_of(reply: &WireReply) -> (r: Option<OperationId>)
    ensures
        r == responded(reply@),
{
    match reply {
        WireReply::Response(x) => Some(x.operation_id),
        _ => None,
    }
}

/// What is sent in place of the reply to an operation, if it takes `bytes` bytes
/// and that is over the budget.
pub fn over_budget_answer(
    operation: Option<OperationId>,
    bytes: usize,
    quotas: &QuotaTracker,
) -> (r: Option<WireReply>)
    ensures
        forall|reply: WireReplyView| #[trigger]
            responded(reply) == operation ==> budgeted(reply, bytes, quotas@) == (match r {
                Some(x) => x@,
                None => reply,
            }),
        r is Some <==> operation is Some && bytes > quotas@.limits.max_response_bytes,
{
    match operation {
        Some(id) => if quotas.allows_response(bytes) {
            None
        } else {
            let err = DomainError::new(
                DomainErrorCode::Validation,
                over_budget(bytes).as_str(),
            );
            Some(WireReply::Response(IpcResponse::error(id, &err)))
        },
        None => None,
    }
}

/// What is sent in place of a reply, if it is over the budget.
pub fn over_budget_reply(reply: &WireReply, bytes: usize, quotas: &QuotaTracker) -> (r: Option<
    WireReply,
>)
    ensures
        match r {
            Some(x) => x@ == budgeted(reply@, bytes, quotas@),
            None => reply@ == budgeted(reply@, bytes, quotas@),
        },
        r is Some <==> reply@ is Response && bytes > quotas@.limits.max_response_bytes,
{
    over_budget_answer(operation_of(reply), bytes, quotas)
}

// ---------------------------------------------------------------------------
// The connection
// ---------------------------------------------------------------------------

/// How far a connection is.
#[derive(Debug, Clone, Copy, PartialEq, Eq, Structural)]
pub enum Phase {
    /// No frame was read.
    Opening,
    /// The handshake of a frontend is being answered.
    Shaking { frontend: FrontendId },
    /// The frontend is known, and its requests are read.
    Serving { frontend: FrontendId },
    /// A request of the frontend is being handled.
    Working { frontend: FrontendId, operation: OperationId },
    Closed,
}

/// What is to be done next.
#[derive(Debug)]
pub enum Action {
    /// Read the next frame.
    Read,
    /// Have the handshake answered.
    Shake(HandshakeRequest),
    /// Have the request handled.
    Dispatch(Box<IpcEnvelope>),
    /// Send a reply, and read the next frame.
    Send(WireReply),
    /// Send a reply, and close the connection.
    SendAndClose(WireReply),
    Close,
}

/// The content of an action.
#[verifier::ext_equal]
pub enum ActionView {
    Read,
    Shake(HandshakeRequest),
    Dispatch(IpcEnvelope),
    Send(WireReplyView),
    SendAndClose(WireReplyView),
    Close,
}

impl View for Action {
    type V = ActionView;

    open spec fn view(&self) -> ActionView {
        match *self {
            Action::Read => ActionView::Read,
            Action::Shake(h) => ActionView::Shake(h),
            Action::Dispatch(e) => ActionView::Dispatch(*e),
            Action::Send(r) => ActionView::Send(r@),
            Action::SendAndClose(r) => ActionView::SendAndClose(r@),
            Action::Close => ActionView::Close,
        }
    }
}

/// What follows on a new connection.
pub open spec fn accepted(peer_uid: u32, own_uid: u32) -> (Phase, ActionView) {
    if peer_uid != own_uid {
        (
            Phase::Closed,
            ActionView::SendAndClose(
                turned_away("unauthorized"@, "ipc: "@ + IpcError::Unauthorized.text()),
            ),
        )
    } else {
        (Phase::Opening, ActionView::Read)
    }
}

/// Whether a client has room in its queue and the store can take work.
pub open spec fn has_capacity(q: QuotaView, f: FrontendId) -> bool {
    queued_for(q.queued, f) < q.limits.max_queued_per_client && q.in_flight
        < q.limits.max_in_flight_storage
}

/// What follows on a request of the frontend `f`.
pub open spec fn requested(f: FrontendId, q: QuotaView, env: IpcEnvelope) -> (Phase, ActionView) {
    let serving = Phase::Serving { frontend: f };
    if env.frontend_id != f {
        (
            serving,
            ActionView::Send(
                turned_away(
                    "frontend_mismatch"@,
                    "frame frontend differs from handshake identity"@,
                ),
            ),
        )
    } else if queued_for(q.queued, f) >= q.limits.max_queued_per_client {
        (serving, ActionView::Send(busy(env.operation_id, QuotaError::ClientQueueFull)))
    } else if q.in_flight >= q.limits.max_in_flight_storage {
        (serving, ActionView::Send(busy(env.operation_id, QuotaError::StorageBusy)))
    } else {
        (
            Phase::Working { frontend: f, operation: env.operation_id },
            ActionView::Dispatch(env),
        )
    }
}

/// What follows on a frame. Frames are read before the handshake and between
/// requests only.
pub open spec fn framed(phase: Phase, q: QuotaView, msg: WireMessage) -> (Phase, ActionView) {
    match phase {
        Phase::Opening => match msg {
            WireMessage::Handshake(req) => (
                Phase::Shaking { frontend: req.frontend_id },
                ActionView::Shake(req),
            ),
            WireMessage::Request(_) => (
                Phase::Closed,
                ActionView::SendAndClose(
                    turned_away("handshake_required"@, "first frame must be a handshake"@),
                ),
            ),
        },
        Phase::Serving { frontend } => match msg {
            WireMessage::Handshake(_) => (
                phase,
                ActionView::Send(
                    turned_away("unexpected_handshake"@, "handshake already completed"@),
                ),
            ),
            WireMessage::Request(env) => requested(frontend, q, *env),
        },
        _ => (Phase::Closed, ActionView::Close),
    }
}

/// Whether the quotas are the same but for one more job of a client, or one
/// less.
pub open spec fn stepped(before: QuotaView, after: QuotaView, f: FrontendId, jobs: int) -> bool {
    &&& after.limits == before.limits
    &&& after.clients == before.clients
    &&& after.in_flight == before.in_flight + jobs
    &&& forall|x: FrontendId| #[trigger]
        queued_for(after.queued, x) == queued_for(before.queued, x) + (if x == f {
            jobs
        } else {
            0
        })
}

/// Whether the quotas are the same but for one job of a client less, in its
/// queue and in the store's, where there was one.
pub open spec fn given_back(before: QuotaView, after: QuotaView, f: FrontendId) -> bool {
    &&& after.limits == before.limits
    &&& after.clients == before.clients
    &&& after.in_flight == if before.in_flight > 0 {
        before.in_flight - 1
    } else {
        0
    }
    &&& forall|x: FrontendId| #[trigger]
        queued_for(after.queued, x) == queued_for(before.queued, x) - (if x == f && queued_for(
            before.queued,
            x,
        ) > 0 {
            1int
        } else {
            0
        })
}

/// What follows on the answer to a handshake.
pub open spec fn shaken(f: FrontendId, q: QuotaView, r: Result<HandshakeResponse, IpcError>) -> (
    Phase,
    ActionView,
) {
    match r {
        Err(e) => (
            Phase::Closed,
            ActionView::SendAndClose(turned_away("handshake_rejected"@, e.text())),
        ),
        Ok(h) => if !q.clients.contains(f) && q.clients.len() >= q.limits.max_clients {
            (
                Phase::Closed,
                ActionView::SendAndClose(
                    turned_away("client_limit_reached"@, QuotaError::TooManyClients.text()),
                ),
            )
        } else {
            (Phase::Serving { frontend: f }, ActionView::Send(WireReplyView::Handshake(h)))
        },
    }
}

proof fn lemma_queued_some(q: Seq<(FrontendId, usize)>, f: FrontendId)
    ensures
        queued_for(q, f) >= 0,
    decreases q.len(),
{
    if q.len() > 0 {
        lemma_queued_some(q.drop_last(), f);
    }
}

/// One connection of a frontend.
#[derive(Debug)]
pub struct Connection {
    pub phase: Phase,
}

impl Connection {
    /// A new connection. Only the user that runs the daemon may connect.
    pub fn accept(peer_uid: u32, own_uid: u32) -> (r: (Self, Action))
        ensures
            (r.0.phase, r.1@) == accepted(peer_uid, own_uid),
    {
        if !peer_authorized(peer_uid, own_uid) {
            let mut message = "ipc: ".to_owned();
            message.append(IpcError::Unauthorized.message().as_str());
            return (
                Connection { phase: Phase::Closed },
                Action::SendAndClose(turn_away("unauthorized", message.as_str())),
            );
        }
        (Connection { phase: Phase::Opening }, Action::Read)
    }

    /// A frame came in. A request that is dispatched takes a place in the
    /// client's queue and one in the store's.
    pub fn on_frame(&mut self, quotas: &mut QuotaTracker, msg: WireMessage) -> (r: Action)
        requires
            old(quotas)@.wf(),
        ensures
            final(quotas)@.wf(),
            (final(self).phase, r@) == framed(old(self).phase, old(quotas)@, msg),
            match r@ {
                ActionView::Dispatch(env) => stepped(
                    old(quotas)@,
                    final(quotas)@,
                    env.frontend_id,
                    1,
                ),
                _ => forall|f: FrontendId| stepped(old(quotas)@, final(quotas)@, f, 0),
            },
    {
        match self.phase {
            Phase::Opening => match msg {
                WireMessage::Handshake(req) => {
                    self.phase = Phase::Shaking { frontend: req.frontend_id };
                    Action::Shake(req)
                },
                WireMessage::Request(_) => {
                    self.phase = Phase::Closed;
                    Action::SendAndClose(
                        turn_away("handshake_required", "first frame must be a handshake"),
                    )
                },
            },
            Phase::Serving { frontend } => match msg {
                WireMessage::Handshake(_) => Action::Send(
                    turn_away("unexpected_handshake", "handshake already completed"),
                ),
                WireMessage::Request(env) => self.on_request(quotas, frontend, env),
            },
            _ => {
                self.phase = Phase::Closed;
                Action::Close
            },
        }
    }

    fn on_request(&mut self, quotas: &mut QuotaTracker, f: FrontendId, env: Box<IpcEnvelope>) -> (r:
        Action)
        requires
            old(quotas)@.wf(),
            old(self).phase == (Phase::Serving { frontend: f }),
        ensures
            final(quotas)@.wf(),
            (final(self).phase, r@) == requested(f, old(quotas)@, *env),
            match r@ {
                ActionView::Dispatch(e) => stepped(
                    old(quotas)@,
                    final(quotas)@,
                    e.frontend_id,
                    1,
                ),
                _ => forall|x: FrontendId| stepped(old(quotas)@, final(quotas)@, x, 0),
            },
    {
        proof {
            lemma_queued_some(quotas@.queued, f);
        }
        if env.frontend_id != f {
            return Action::Send(
                turn_away(
                    "frontend_mismatch",
                    "frame frontend differs from handshake identity",
                ),
            );
        }
        if let Err(e) = quotas.try_enqueue(f) {
            return Action::Send(busy_reply(env.operation_id, e));
        }
        if let Err(e) = quotas.try_start_storage() {
            quotas.dequeue(f);
            return Action::Send(busy_reply(env.operation_id, e));
        }
        self.phase = Phase::Working { frontend: f, operation: env.operation_id };
        Action::Dispatch(env)
    }

    /// The handshake was answered. The client is admitted if there is a slot
    /// for it.
    pub fn on_handshake(
        &mut self,
        quotas: &mut QuotaTracker,
        answer: Result<HandshakeResponse, IpcError>,
    ) -> (r: Action)
        requires
            old(quotas)@.wf(),
        ensures
            final(quotas)@.wf(),
            match old(self).phase {
                Phase::Shaking { frontend } => {
                    &&& (final(self).phase, r@) == shaken(frontend, old(quotas)@, answer)
                    &&& final(quotas)@ == (QuotaView {
                        clients: if r@ is Send && !old(quotas)@.clients.contains(frontend) {
                            old(quotas)@.clients.push(frontend)
                        } else {
                            old(quotas)@.clients
                        },
                        ..old(quotas)@
                    })
                },
                _ => final(self).phase is Closed && r@ is Close && final(quotas)@ == old(quotas)@,
            },
    {
        let f = match self.phase {
            Phase::Shaking { frontend } => frontend,
            _ => {
                self.phase = Phase::Closed;
                return Action::Close;
            },
        };
        match answer {
            Err(e) => {
                self.phase = Phase::Closed;
                Action::SendAndClose(turn_away("handshake_rejected", e.message().as_str()))
            },
            Ok(h) => match quotas.register_client(f) {
                Err(e) => {
                    self.phase = Phase::Closed;
                    Action::SendAndClose(turn_away("client_limit_reached", e.message()))
                },
                Ok(_) => {
                    self.phase = Phase::Serving { frontend: f };
                    Action::Send(WireReply::Handshake(h))
                },
            },
        }
    }

    /// The request was handled. The places that it took are free again.
    pub fn on_answer(&mut self, quotas: &mut QuotaTracker, answer: DomainResult<IpcResponse>) -> (r:
        Action)
        requires
            old(quotas)@.wf(),
        ensures
            final(quotas)@.wf(),
            match old(self).phase {
                Phase::Working { frontend, operation } => {
                    &&& final(self).phase == (Phase::Serving { frontend })
                    &&& r@ == ActionView::Send(
                        WireReplyView::Response(answered(operation, response_view(answer))),
                    )
                    &&& given_back(old(quotas)@, final(quotas)@, frontend)
                },
                _ => final(self).phase is Closed && r@ is Close && final(quotas)@ == old(quotas)@,
            },
    {
        match self.phase {
            Phase::Working { frontend, operation } => {
                quotas.finish_storage();
                quotas.dequeue(frontend);
                self.phase = Phase::Serving { frontend };
                let response = match answer {
                    Ok(x) => x,
                    Err(e) => IpcResponse::error(operation, &e),
                };
                Action::Send(WireReply::Response(response))
            },
            _ => {
                self.phase = Phase::Closed;
                Action::Close
            },
        }
    }

    /// Whether the peer may end the connection here: once it has said who it is.
    pub fn may_end(&self) -> (r: bool)
        ensures
            r == !(self.phase is Opening),
    {
        match self.phase {
            Phase::Opening => false,
            _ => true,
        }
    }

    /// The connection is over. The slot of its client is free again.
    pub fn on_end(&mut self, quotas: &mut QuotaTracker)
        requires
            old(quotas)@.wf(),
        ensures
            final(quotas)@.wf(),
            final(self).phase is Closed,
            match old(self).phase {
                Phase::Serving { frontend } => !final(quotas)@.clients.contains(frontend),
                Phase::Working { frontend, .. } => !final(quotas)@.clients.contains(frontend),
                _ => final(quotas)@ == old(quotas)@,
            },
            forall|x: FrontendId|
                (old(self).phase is Serving ==> x != old(self).phase->Serving_frontend) && (old(
                    self,
                ).phase is Working ==> x != old(self).phase->Working_frontend) ==> (
                #[trigger] final(quotas)@.clients.contains(x) == old(quotas)@.clients.contains(x)),
            final(quotas)@ == (QuotaView { clients: final(quotas)@.clients, ..old(quotas)@ }),
    {
        match self.phase {
            Phase::Serving { frontend } => {
                quotas.unregister_client(frontend);
            },
            Phase::Working { frontend, .. } => {
                quotas.unregister_client(frontend);
            },
            _ => {},
        }
        self.phase = Phase::Closed;
    }
}

/// A request that was handled leaves the quotas as they were before it.
pub proof fn law_places_are_given_back(
    before: QuotaView,
    during: QuotaView,
    after: QuotaView,
    f: FrontendId,
    x: FrontendId,
)
    requires
        stepped(before, during, f, 1),
        given_back(during, after, f),
    ensures
        after.limits == before.limits,
        after.clients == before.clients,
        after.in_flight == before.in_flight,
        queued_for(after.queued, x) == queued_for(before.queued, x),
{
    lemma_queued_some(before.queued, f);
    assert(queued_for(during.queued, x) == queued_for(before.queued, x) + (if x == f {
        1int
    } else {
        0
    }));
}

/// No request is handled before a handshake was answered: on a connection that
/// is opening, whatever comes, nothing is dispatched.
pub proof fn law_handshake_comes_first(q: QuotaView, msg: WireMessage)
    ensures
        !(framed(Phase::Opening, q, msg).1 is Dispatch),
        msg is Request ==> framed(Phase::Opening, q, msg).0 is Closed,
{
}

/// Every request that is dispatched carries the identity of the handshake, and
/// there was room for it.
pub proof fn law_requests_are_bound(phase: Phase, q: QuotaView, msg: WireMessage)
    requires
        framed(phase, q, msg).1 is Dispatch,
    ensures
        phase is Serving,
        msg is Request,
        framed(phase, q, msg).1->Dispatch_0.frontend_id == phase->Serving_frontend,
        has_capacity(q, phase->Serving_frontend),
{
}

/// A frontend that is served was admitted after its own handshake.
pub proof fn law_served_is_who_shook(
    f: FrontendId,
    q: QuotaView,
    r: Result<HandshakeResponse, IpcError>,
)
    ensures
        shaken(f, q, r).0 is Serving ==> shaken(f, q, r).0 == (Phase::Serving { frontend: f })
            && r is Ok && (q.clients.contains(f) || q.clients.len() < q.limits.max_clients),
        shaken(f, q, r).0 is Closed || shaken(f, q, r).0 is Serving,
{
}

} // verus!
