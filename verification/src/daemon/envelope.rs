//! What frontends and the daemon say to each other.

use crate::compatibility::lemma::tool_args::ToolArgs;
use crate::daemon::frame::IpcError;
use crate::daemon::tools::data::{ToolData, ToolDataView};
use crate::digest::{sha256_hex, text_digest};
use crate::domain::command::{
    CommandContext, CommandContextView, DomainCommand, DomainCommandView, DomainError,
    DomainErrorCode, ForgetMode, MemoryPatch, ReceiptOutcome, ReceiptOutcomeView, Scope,
};
use crate::domain::id::{
    uuid_from_name, uuid_named, uuid_text, uuid_to_text, ChannelId, EntityId, EntityRevision,
    FrontendId, OperationId, SessionHandle, StoreGeneration,
};
use crate::domain::memory::{clone_ids, Memory, MemoryView};
use crate::domain::relation::{Relation, RelationType, RelationView};
use crate::domain::session::{AttemptOutcome, TaskOutcome};
use crate::text::{clone_texts, dec, decimal, opt_view, views};
use vstd::prelude::*;

verus! {

/// The version of the protocol.
pub const PROTOCOL_VERSION: u32 = 1;

/// What a frontend asks for.
#[derive(Debug)]
#[allow(inconsistent_fields)]
pub enum DomainRequest {
    AddMemory { memory: Memory },
    UpdateMemory { id: EntityId, expected_revision: Option<EntityRevision>, patch: MemoryPatch },
    Feedback { memory_id: EntityId, useful: bool },
    Relate { relation: Relation },
    Unrelate { source: EntityId, target: EntityId, relation_type: RelationType },
    Merge { source_ids: Vec<EntityId>, result: Memory },
    Forget { id: EntityId, mode: ForgetMode },
    SessionAttempt {
        approach: String,
        outcome: AttemptOutcome,
        critique: Option<String>,
        rationale: Option<String>,
        related_memory_id: Option<EntityId>,
    },
    SessionEnd { outcome: TaskOutcome, final_approach: Option<String>, lessons: Vec<String> },
    GetMemories { ids: Vec<EntityId> },
    ListMemories,
    Neighbors { id: EntityId },
    ToolCall { tool: ToolArgs },
}

/// The command that a request stands for; none for what only reads, and for
/// what concerns the session of a channel.
pub open spec fn command_of(req: DomainRequest, session: Option<SessionHandle>) -> Option<
    DomainCommandView,
> {
    match req {
        DomainRequest::AddMemory { memory } => Some(
            DomainCommandView::AddMemory { memory: memory@, session },
        ),
        DomainRequest::UpdateMemory { id, expected_revision, patch } => Some(
            DomainCommandView::UpdateMemory { id, expected_revision, patch: patch@ },
        ),
        DomainRequest::Feedback { memory_id, useful } => Some(
            DomainCommandView::Feedback { memory_id, useful },
        ),
        DomainRequest::Relate { relation } => Some(
            DomainCommandView::Relate { relation: relation@ },
        ),
        DomainRequest::Unrelate { source, target, relation_type } => Some(
            DomainCommandView::Unrelate { source, target, relation_type },
        ),
        DomainRequest::Merge { source_ids, result } => Some(
            DomainCommandView::Merge { source_ids: source_ids@, result: result@ },
        ),
        DomainRequest::Forget { id, mode } => Some(DomainCommandView::Forget { id, mode }),
        DomainRequest::SessionEnd { outcome, final_approach, lessons } => match session {
            Some(h) => Some(
                DomainCommandView::EndSession {
                    session: h,
                    outcome,
                    final_approach: opt_view(final_approach),
                    lessons: views(lessons@),
                },
            ),
            None => None,
        },
        _ => None,
    }
}

impl DomainRequest {
    /// The command that the request stands for.
    pub fn to_domain_command(&self, session: Option<SessionHandle>) -> (r: Option<DomainCommand>)
        ensures
            opt_view(r) == command_of(*self, session),
    {
        match self {
            DomainRequest::AddMemory { memory } => Some(
                DomainCommand::AddMemory { memory: memory.clone(), session },
            ),
            DomainRequest::UpdateMemory { id, expected_revision, patch } => Some(
                DomainCommand::UpdateMemory {
                    id: *id,
                    expected_revision: *expected_revision,
                    patch: patch.clone(),
                },
            ),
            DomainRequest::Feedback { memory_id, useful } => Some(
                DomainCommand::Feedback { memory_id: *memory_id, useful: *useful },
            ),
            DomainRequest::Relate { relation } => Some(
                DomainCommand::Relate { relation: relation.clone() },
            ),
            DomainRequest::Unrelate { source, target, relation_type } => Some(
                DomainCommand::Unrelate {
                    source: *source,
                    target: *target,
                    relation_type: *relation_type,
                },
            ),
            DomainRequest::Merge { source_ids, result } => Some(
                DomainCommand::Merge { source_ids: clone_ids(source_ids), result: result.clone() },
            ),
            DomainRequest::Forget { id, mode } => Some(
                DomainCommand::Forget { id: *id, mode: *mode },
            ),
            DomainRequest::SessionEnd { outcome, final_approach, lessons } => match session {
                Some(h) => Some(
                    DomainCommand::EndSession {
                        session: h,
                        outcome: *outcome,
                        final_approach: final_approach.clone(),
                        lessons: clone_texts(lessons),
                    },
                ),
                None => None,
            },
            _ => None,
        }
    }
}

/// What a tool answers. Where `as_json` is set, the text that is sent is the
/// structured part in JSON.
#[derive(Debug)]
pub struct ToolResult {
    pub text: String,
    pub structured: Option<ToolData>,
    pub is_error: bool,
    pub as_json: bool,
}

/// The content of an answer.
#[verifier::ext_equal]
pub struct ToolResultView {
    pub text: Seq<char>,
    pub structured: Option<ToolDataView>,
    pub is_error: bool,
    pub as_json: bool,
}

impl View for ToolResult {
    type V = ToolResultView;

    open spec fn view(&self) -> ToolResultView {
        ToolResultView {
            text: self.text@,
            structured: opt_view(self.structured),
            is_error: self.is_error,
            as_json: self.as_json,
        }
    }
}

/// What comes with a success.
#[derive(Debug)]
pub enum DomainPayload {
    Memories(Vec<Memory>),
    Relations(Vec<Relation>),
    ToolResult(ToolResult),
    Nothing,
}

/// The content of a payload.
#[verifier::ext_equal]
pub enum DomainPayloadView {
    Memories(Seq<MemoryView>),
    Relations(Seq<RelationView>),
    ToolResult(ToolResultView),
    Nothing,
}

impl View for DomainPayload {
    type V = DomainPayloadView;

    open spec fn view(&self) -> DomainPayloadView {
        match *self {
            DomainPayload::Memories(v) => DomainPayloadView::Memories(views(v@)),
            DomainPayload::Relations(v) => DomainPayloadView::Relations(views(v@)),
            DomainPayload::ToolResult(t) => DomainPayloadView::ToolResult(t@),
            DomainPayload::Nothing => DomainPayloadView::Nothing,
        }
    }
}

/// How a request ended.
#[derive(Debug)]
pub enum IpcResult {
    Success { outcome: ReceiptOutcome, payload: DomainPayload },
    Error { code: DomainErrorCode, message: String },
}

/// The content of a result.
#[verifier::ext_equal]
pub enum IpcResultView {
    Success { outcome: ReceiptOutcomeView, payload: DomainPayloadView },
    Error { code: DomainErrorCode, message: Seq<char> },
}

impl View for IpcResult {
    type V = IpcResultView;

    open spec fn view(&self) -> IpcResultView {
        match *self {
            IpcResult::Success { outcome, payload } => IpcResultView::Success {
                outcome: outcome@,
                payload: payload@,
            },
            IpcResult::Error { code, message } => IpcResultView::Error { code, message: message@ },
        }
    }
}

/// The daemon's answer to a request.
#[derive(Debug)]
pub struct IpcResponse {
    pub protocol_version: u32,
    pub operation_id: OperationId,
    pub result: IpcResult,
}

/// The content of a response.
#[verifier::ext_equal]
pub struct IpcResponseView {
    pub protocol_version: u32,
    pub operation_id: OperationId,
    pub result: IpcResultView,
}

impl View for IpcResponse {
    type V = IpcResponseView;

    open spec fn view(&self) -> IpcResponseView {
        IpcResponseView {
            protocol_version: self.protocol_version,
            operation_id: self.operation_id,
            result: self.result@,
        }
    }
}

/// A successful answer.
pub open spec fn success_view(
    operation_id: OperationId,
    outcome: ReceiptOutcomeView,
    payload: DomainPayloadView,
) -> IpcResponseView {
    IpcResponseView {
        protocol_version: PROTOCOL_VERSION,
        operation_id,
        result: IpcResultView::Success { outcome, payload },
    }
}

impl IpcResponse {
    pub fn success(operation_id: OperationId, outcome: ReceiptOutcome, payload: DomainPayload) -> (r:
        Self)
        ensures
            r@ == success_view(operation_id, outcome@, payload@),
    {
        IpcResponse {
            protocol_version: PROTOCOL_VERSION,
            operation_id,
            result: IpcResult::Success { outcome, payload },
        }
    }

    pub fn error(operation_id: OperationId, err: &DomainError) -> (r: Self)
        ensures
            r@ == (IpcResponseView {
                protocol_version: PROTOCOL_VERSION,
                operation_id,
                result: IpcResultView::Error { code: err.code, message: err.message@ },
            }),
    {
        IpcResponse {
            protocol_version: PROTOCOL_VERSION,
            operation_id,
            result: IpcResult::Error { code: err.code, message: err.message.clone() },
        }
    }
}

/// One request with all that goes with it. `body_json` is the body as it was
/// sent: canonical JSON, from which the digest is taken.
#[derive(Debug)]
pub struct IpcEnvelope {
    pub protocol_version: u32,
    pub store_generation: StoreGeneration,
    pub frontend_id: FrontendId,
    pub channel_id: ChannelId,
    pub operation_id: OperationId,
    pub session: Option<SessionHandle>,
    pub retry_epoch: u64,
    pub deadline_millis: Option<u64>,
    pub scope: Scope,
    pub body: DomainRequest,
    pub body_json: String,
}

impl IpcEnvelope {
    /// The context of the command in an envelope.
    pub open spec fn context(self, digest: Seq<char>) -> CommandContextView {
        CommandContextView {
            store_generation: self.store_generation,
            frontend_id: self.frontend_id,
            channel_id: self.channel_id,
            session: self.session,
            operation_id: self.operation_id,
            request_digest: digest,
            deadline_millis: self.deadline_millis,
            scope: self.scope@,
            retry_epoch: self.retry_epoch,
        }
    }

    /// The context of the request's `n`th command. Each has a key of its own,
    /// which a retry of the request makes again.
    pub open spec fn sub_context(self, n: nat) -> CommandContextView {
        CommandContextView {
            operation_id: OperationId(
                uuid_named(uuid_text(self.operation_id.0) + ":cmd"@ + dec(n)),
            ),
            ..self.context(text_digest(self.body_json@) + ":cmd"@ + dec(n))
        }
    }

    /// The context of the command in the envelope.
    pub fn to_command_context(&self, request_digest: String) -> (r: CommandContext)
        ensures
            r@ == self.context(request_digest@),
    {
        CommandContext {
            store_generation: self.store_generation,
            frontend_id: self.frontend_id,
            channel_id: self.channel_id,
            session: self.session,
            operation_id: self.operation_id,
            request_digest,
            deadline_millis: self.deadline_millis,
            scope: self.scope.clone(),
            retry_epoch: self.retry_epoch,
        }
    }

    /// The context of the request's `n`th command.
    pub fn sub_command_ctx(&self, n: u32) -> (r: CommandContext)
        ensures
            r@ == self.sub_context(n as nat),
    {
        let mut key = uuid_to_text(self.operation_id.0);
        key.append(":cmd");
        key.append(decimal(n as u64).as_str());
        let mut digest = self.request_digest();
        digest.append(":cmd");
        digest.append(decimal(n as u64).as_str());
        let mut ctx = self.to_command_context(digest);
        ctx.operation_id = OperationId::new(uuid_from_name(key.as_str()));
        ctx
    }

    /// Whether the envelope speaks the daemon's protocol.
    pub fn check_protocol(&self) -> (r: Result<(), IpcError>)
        ensures
            r == (if self.protocol_version != PROTOCOL_VERSION {
                Err::<(), IpcError>(IpcError::UnsupportedProtocol(self.protocol_version))
            } else {
                Ok::<(), IpcError>(())
            }),
    {
        if self.protocol_version != PROTOCOL_VERSION {
            return Err(IpcError::UnsupportedProtocol(self.protocol_version));
        }
        Ok(())
    }

    /// The digest of the body: the same for the same body.
    pub fn request_digest(&self) -> (r: String)
        ensures
            r@ == text_digest(self.body_json@),
    {
        sha256_hex(self.body_json.as_str())
    }
}

/// The first message on a connection.
#[derive(Debug, Clone, Copy, PartialEq, Eq, Structural)]
pub struct HandshakeRequest {
    pub protocol_version: u32,
    pub store_generation: StoreGeneration,
    pub frontend_id: FrontendId,
    pub channel_id: ChannelId,
}

/// The answer to it.
#[derive(Debug, Clone, Copy, PartialEq, Eq, Structural)]
pub struct HandshakeResponse {
    pub protocol_version: u32,
    pub store_generation: StoreGeneration,
    pub retry_epoch: u64,
}

/// What is wrong with a handshake: the protocol first, then the store.
pub open spec fn handshake_fault(req: HandshakeRequest, generation: StoreGeneration) -> Option<
    IpcError,
> {
    if req.protocol_version != PROTOCOL_VERSION {
        Some(IpcError::UnsupportedProtocol(req.protocol_version))
    } else if req.store_generation != generation {
        Some(
            IpcError::GenerationMismatch { daemon: generation.0, client: req.store_generation.0 },
        )
    } else {
        None
    }
}

/// Checks a handshake against the daemon's store.
pub fn validate_handshake(req: &HandshakeRequest, daemon_generation: StoreGeneration) -> (r: Result<
    (),
    IpcError,
>)
    ensures
        match handshake_fault(*req, daemon_generation) {
            Some(e) => r == Err::<(), IpcError>(e),
            None => r == Ok::<(), IpcError>(()),
        },
{
    if req.protocol_version != PROTOCOL_VERSION {
        return Err(IpcError::UnsupportedProtocol(req.protocol_version));
    }
    if req.store_generation != daemon_generation {
        return Err(
            IpcError::GenerationMismatch {
                daemon: daemon_generation.as_u64(),
                client: req.store_generation.as_u64(),
            },
        );
    }
    Ok(())
}

/// A message from a frontend.
#[derive(Debug)]
pub enum WireMessage {
    Handshake(HandshakeRequest),
    Request(Box<IpcEnvelope>),
}

/// A message from the daemon.
#[derive(Debug)]
pub enum WireReply {
    Handshake(HandshakeResponse),
    Response(IpcResponse),
    Error(WireError),
}

/// Why a message was turned away.
#[derive(Debug, Clone, PartialEq, Eq)]
pub struct WireError {
    pub kind: String,
    pub message: String,
}

} // verus!
