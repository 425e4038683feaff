//! Receipts as they are kept on disk, and what a commit's outcome means.

use crate::domain::command::{
    refusal, CommandContext, CommandReceipt, CommandReceiptView, DomainError, DomainErrorCode,
    DomainErrorView, DomainResult, ReceiptOutcome, ReceiptOutcomeView,
};
use crate::domain::id::{
    uuid_from_text, uuid_read, uuid_text, uuid_to_text, ChannelId, EntityId, FrontendId,
    OperationId, StoreGeneration,
};
use crate::domain::interpreter::receipt_result;
use crate::text::{dec, decimal, same, views};
use vstd::prelude::*;

verus! {

/// How often a command is tried again after a conflict in the store.
pub const MAX_RETRIES: u32 = 8;

/// The version of the layout on disk.
pub const CURRENT_SCHEMA_VERSION: u64 = 1;

/// A receipt with its identifiers written out.
#[derive(Debug)]
pub struct ReceiptRecord {
    pub store_generation: u64,
    pub operation_id: String,
    pub frontend_id: String,
    pub channel_id: String,
    pub request_digest: String,
    pub outcome: OutcomeRecord,
    pub retry_epoch: u64,
}

/// An outcome with its identifiers written out.
#[derive(Debug)]
pub enum OutcomeRecord {
    Success { affected: Vec<String> },
    Rejected { code: String },
}

/// The content of a record.
#[verifier::ext_equal]
pub struct ReceiptRecordView {
    pub store_generation: u64,
    pub operation_id: Seq<char>,
    pub frontend_id: Seq<char>,
    pub channel_id: Seq<char>,
    pub request_digest: Seq<char>,
    pub outcome: OutcomeRecordView,
    pub retry_epoch: u64,
}

/// The content of an outcome record.
#[verifier::ext_equal]
pub enum OutcomeRecordView {
    Success { affected: Seq<Seq<char>> },
    Rejected { code: Seq<char> },
}

impl View for OutcomeRecord {
    type V = OutcomeRecordView;

    open spec fn view(&self) -> OutcomeRecordView {
        match *self {
            OutcomeRecord::Success { affected } => OutcomeRecordView::Success {
                affected: views(affected@),
            },
            OutcomeRecord::Rejected { code } => OutcomeRecordView::Rejected { code: code@ },
        }
    }
}

impl View for ReceiptRecord {
    type V = ReceiptRecordView;

    open spec fn view(&self) -> ReceiptRecordView {
        ReceiptRecordView {
            store_generation: self.store_generation,
            operation_id: self.operation_id@,
            frontend_id: self.frontend_id@,
            channel_id: self.channel_id@,
            request_digest: self.request_digest@,
            outcome: self.outcome@,
            retry_epoch: self.retry_epoch,
        }
    }
}

/// Identifiers as text.
pub open spec fn id_texts(ids: Seq<EntityId>) -> Seq<Seq<char>> {
    ids.map_values(|id: EntityId| uuid_text(id.0))
}

/// The identifiers that texts write; texts that write none are passed over.
pub open spec fn read_ids(texts: Seq<Seq<char>>) -> Seq<EntityId>
    decreases texts.len(),
{
    if texts.len() == 0 {
        Seq::empty()
    } else {
        match uuid_read(texts.last()) {
            Ok(u) => read_ids(texts.drop_last()).push(EntityId(u)),
            Err(_) => read_ids(texts.drop_last()),
        }
    }
}

/// The record of a receipt.
pub open spec fn record_of(r: CommandReceiptView) -> ReceiptRecordView {
    ReceiptRecordView {
        store_generation: r.store_generation.0,
        operation_id: uuid_text(r.operation_id.0),
        frontend_id: uuid_text(r.frontend_id.0),
        channel_id: uuid_text(r.channel_id.0),
        request_digest: r.request_digest,
        outcome: match r.outcome {
            ReceiptOutcomeView::Success { affected } => OutcomeRecordView::Success {
                affected: id_texts(affected),
            },
            ReceiptOutcomeView::Rejected { code } => OutcomeRecordView::Rejected {
                code: code.name(),
            },
        },
        retry_epoch: r.retry_epoch,
    }
}

/// What an outcome record says.
pub open spec fn outcome_in(r: OutcomeRecordView) -> ReceiptOutcomeView {
    match r {
        OutcomeRecordView::Success { affected } => ReceiptOutcomeView::Success {
            affected: read_ids(affected),
        },
        OutcomeRecordView::Rejected { code } => ReceiptOutcomeView::Rejected {
            code: DomainErrorCode::named(code),
        },
    }
}

/// The receipt of a record, or what is wrong with the first of its identifiers
/// that cannot be read.
pub open spec fn receipt_in(r: ReceiptRecordView) -> Result<CommandReceiptView, Seq<char>> {
    match uuid_read(r.operation_id) {
        Err(e) => Err(e),
        Ok(op) => match uuid_read(r.frontend_id) {
            Err(e) => Err(e),
            Ok(f) => match uuid_read(r.channel_id) {
                Err(e) => Err(e),
                Ok(c) => Ok(
                    CommandReceiptView {
                        operation_id: OperationId(op),
                        store_generation: StoreGeneration(r.store_generation),
                        frontend_id: FrontendId(f),
                        channel_id: ChannelId(c),
                        request_digest: r.request_digest,
                        outcome: outcome_in(r.outcome),
                        retry_epoch: r.retry_epoch,
                    },
                ),
            },
        },
    }
}

/// The key under which a receipt is kept.
pub open spec fn receipt_key_text(generation: StoreGeneration, op: OperationId) -> Seq<char> {
    dec(generation.0 as nat) + ":"@ + uuid_text(op.0)
}

pub fn receipt_key(generation: StoreGeneration, op: OperationId) -> (r: String)
    ensures
        r@ == receipt_key_text(generation, op),
{
    let mut out = decimal(generation.0);
    out.append(":");
    out.append(uuid_to_text(op.0).as_str());
    out
}

/// The record of a receipt. Its identifiers can be read back.
pub fn encode_receipt(receipt: &CommandReceipt) -> (r: ReceiptRecord)
    ensures
        r@ == record_of(receipt@),
        receipt_in(r@) == Ok::<CommandReceiptView, Seq<char>>(receipt@),
{
    let outcome = match &receipt.outcome {
        ReceiptOutcome::Success { affected } => {
            let mut texts: Vec<String> = Vec::new();
            let mut i: usize = 0;
            proof {
                assert(views(texts@) =~= id_texts(affected@.take(0)));
                assert(read_ids(views(texts@)) =~= affected@.take(0));
            }
            while i < affected.len()
                invariant
                    i <= affected@.len(),
                    views(texts@) == id_texts(affected@.take(i as int)),
                    read_ids(views(texts@)) == affected@.take(i as int),
                decreases affected@.len() - i,
            {
                let ghost before = views(texts@);
                let t = uuid_to_text(affected[i].0);
                let ghost tv = t@;
                texts.push(t);
                proof {
                    assert(views(texts@) =~= before.push(tv));
                    assert(id_texts(affected@.take(i + 1)) =~= before.push(tv));
                    assert(before.push(tv).drop_last() =~= before);
                    assert(affected@.take(i + 1) =~= affected@.take(i as int).push(
                        affected@[i as int],
                    ));
                }
                i += 1;
            }
            proof {
                assert(affected@.take(affected@.len() as int) =~= affected@);
            }
            OutcomeRecord::Success { affected: texts }
        },
        ReceiptOutcome::Rejected { code } => {
            proof {
                crate::domain::command::law_domain_error_code_names(*code, code.name());
            }
            OutcomeRecord::Rejected { code: code.as_str().to_owned() }
        },
    };
    ReceiptRecord {
        store_generation: receipt.store_generation.0,
        operation_id: uuid_to_text(receipt.operation_id.0),
        frontend_id: uuid_to_text(receipt.frontend_id.0),
        channel_id: uuid_to_text(receipt.channel_id.0),
        request_digest: receipt.request_digest.clone(),
        outcome,
        retry_epoch: receipt.retry_epoch,
    }
}

/// The receipt of a record.
pub fn decode_receipt(record: &ReceiptRecord) -> (r: DomainResult<CommandReceipt>)
    ensures
        match receipt_in(record@) {
            Ok(x) => r is Ok && r->Ok_0@ == x,
            Err(e) => r is Err && r->Err_0@ == refusal(DomainErrorCode::Validation, e),
        },
{
    let op = match uuid_from_text(record.operation_id.as_str()) {
        Ok(u) => u,
        Err(e) => return Err(DomainError::new(DomainErrorCode::Validation, e.as_str())),
    };
    let frontend = match uuid_from_text(record.frontend_id.as_str()) {
        Ok(u) => u,
        Err(e) => return Err(DomainError::new(DomainErrorCode::Validation, e.as_str())),
    };
    let channel = match uuid_from_text(record.channel_id.as_str()) {
        Ok(u) => u,
        Err(e) => return Err(DomainError::new(DomainErrorCode::Validation, e.as_str())),
    };
    let outcome = match &record.outcome {
        OutcomeRecord::Success { affected } => ReceiptOutcome::Success {
            affected: ids_in(affected),
        },
        OutcomeRecord::Rejected { code } => ReceiptOutcome::Rejected {
            code: DomainErrorCode::parse(code.as_str()),
        },
    };
    Ok(
        CommandReceipt {
            operation_id: OperationId::new(op),
            store_generation: StoreGeneration::new(record.store_generation),
            frontend_id: FrontendId::new(frontend),
            channel_id: ChannelId::new(channel),
            request_digest: record.request_digest.clone(),
            outcome,
            retry_epoch: record.retry_epoch,
        },
    )
}

fn ids_in(texts: &Vec<String>) -> (r: Vec<EntityId>)
    ensures
        r@ == read_ids(views(texts@)),
{
    let mut out: Vec<EntityId> = Vec::new();
    let mut i: usize = 0;
    proof {
        assert(views(texts@).take(0) =~= Seq::empty());
        assert(out@ =~= Seq::empty());
    }
    while i < texts.len()
        invariant
            i <= texts@.len(),
            out@ == read_ids(views(texts@).take(i as int)),
        decreases texts@.len() - i,
    {
        proof {
            let t = views(texts@).take(i + 1);
            assert(t.drop_last() =~= views(texts@).take(i as int));
            assert(t.last() == texts@[i as int]@);
        }
        if let Ok(u) = uuid_from_text(texts[i].as_str()) {
            out.push(EntityId::new(u));
        }
        i += 1;
    }
    proof {
        assert(views(texts@).take(texts@.len() as int) =~= views(texts@));
    }
    out
}

/// What a receipt that is already there means for an operation: its answer, if
/// the input is the same, or else that the key was used for something else.
pub open spec fn replayed(existing: CommandReceiptView, digest: Seq<char>) -> Result<
    CommandReceiptView,
    DomainErrorView,
> {
    if existing.request_digest == digest {
        Ok(existing)
    } else {
        Err(
            refusal(
                DomainErrorCode::KeyReuseDifferentInput,
                "operation key reused with different input"@,
            ),
        )
    }
}

pub fn replay_or_conflict(existing: CommandReceipt, ctx: &CommandContext) -> (r: DomainResult<
    CommandReceipt,
>)
    ensures
        receipt_result(r) == replayed(existing@, ctx.request_digest@),
{
    if same(existing.request_digest.as_str(), ctx.request_digest.as_str()) {
        Ok(existing)
    } else {
        Err(
            DomainError::new(
                DomainErrorCode::KeyReuseDifferentInput,
                "operation key reused with different input",
            ),
        )
    }
}

/// How a commit ended.
#[derive(Debug)]
pub enum CommitEvent {
    /// The command and its receipt are in the store.
    Committed,
    /// Another transaction came first; nothing was written.
    Conflict,
    /// The store does not know. What was found under the operation's key
    /// afterwards, and the store's message.
    Unknown { found: Option<CommandReceipt>, message: String },
}

/// What to do after a commit.
#[derive(Debug)]
pub enum CommitStep {
    /// Try again from a fresh snapshot; the number of tries made so far.
    Retry(u32),
    Finish(DomainResult<CommandReceipt>),
}

/// What to do after a commit of `receipt`, the `tried`th retry.
pub fn after_commit(
    tried: u32,
    receipt: CommandReceipt,
    ctx: &CommandContext,
    event: CommitEvent,
) -> (r: CommitStep)
    requires
        tried < MAX_RETRIES,
    ensures
        match event {
            CommitEvent::Committed => r is Finish && receipt_result(r->Finish_0) == Ok::<
                CommandReceiptView,
                DomainErrorView,
            >(receipt@),
            CommitEvent::Conflict => if tried + 1 < MAX_RETRIES {
                r == CommitStep::Retry((tried + 1) as u32)
            } else {
                r is Finish && receipt_result(r->Finish_0) == Err::<
                    CommandReceiptView,
                    DomainErrorView,
                >(refusal(DomainErrorCode::Validation, "max transaction retries exceeded"@))
            },
            CommitEvent::Unknown { found, message } => r is Finish && match found {
                Some(x) => receipt_result(r->Finish_0) == replayed(x@, ctx.request_digest@),
                None => receipt_result(r->Finish_0) == Err::<CommandReceiptView, DomainErrorView>(
                    refusal(
                        DomainErrorCode::Validation,
                        "commit outcome unknown and no receipt recorded: "@ + message@,
                    ),
                ),
            },
        },
{
    match event {
        CommitEvent::Committed => CommitStep::Finish(Ok(receipt)),
        CommitEvent::Conflict => if tried + 1 < MAX_RETRIES {
            CommitStep::Retry(tried + 1)
        } else {
            CommitStep::Finish(
                Err(
                    DomainError::new(
                        DomainErrorCode::Validation,
                        "max transaction retries exceeded",
                    ),
                ),
            )
        },
        CommitEvent::Unknown { found, message } => match found {
            Some(x) => CommitStep::Finish(replay_or_conflict(x, ctx)),
            None => {
                let mut text = "commit outcome unknown and no receipt recorded: ".to_owned();
                text.append(message.as_str());
                CommitStep::Finish(Err(DomainError::new(DomainErrorCode::Validation, text.as_str())))
            },
        },
    }
}

/// The number that eight bytes write, the lowest first.
pub open spec fn from_le(bytes: Seq<u8>) -> nat
    decreases bytes.len(),
{
    if bytes.len() == 0 {
        0
    } else {
        bytes[0] as nat + 256 * from_le(bytes.drop_first())
    }
}

/// What to do about the layout version that a store holds.
#[derive(Debug)]
pub enum SchemaCheck {
    /// The store is new: write the current version.
    WriteCurrent,
    Supported,
    Refused(DomainError),
}

/// Checks the layout version of a store. A store that a newer program wrote is
/// not opened.
pub fn check_schema_version(raw: Option<&[u8]>) -> (r: SchemaCheck)
    ensures
        match raw {
            None => r is WriteCurrent,
            Some(bytes) => if bytes@.len() != 8 {
                r is Refused && r->Refused_0@ == refusal(
                    DomainErrorCode::Validation,
                    "corrupt schema version"@,
                )
            } else if from_le(bytes@) > CURRENT_SCHEMA_VERSION {
                r is Refused && r->Refused_0@ == refusal(
                    DomainErrorCode::Validation,
                    "refusing to open: store schema "@ + dec(from_le(bytes@))
                        + " is newer than supported "@ + dec(CURRENT_SCHEMA_VERSION as nat),
                )
            } else {
                r is Supported
            },
        },
{
    match raw {
        None => SchemaCheck::WriteCurrent,
        Some(bytes) => {
            if bytes.len() != 8 {
                return SchemaCheck::Refused(
                    DomainError::new(DomainErrorCode::Validation, "corrupt schema version"),
                );
            }
            let version = le_value(bytes);
            if version > CURRENT_SCHEMA_VERSION {
                let mut text = "refusing to open: store schema ".to_owned();
                text.append(decimal(version).as_str());
                text.append(" is newer than supported ");
                text.append(decimal(CURRENT_SCHEMA_VERSION).as_str());
                return SchemaCheck::Refused(
                    DomainError::new(DomainErrorCode::Validation, text.as_str()),
                );
            }
            SchemaCheck::Supported
        },
    }
}

fn le_value(bytes: &[u8]) -> (r: u64)
    requires
        bytes@.len() == 8,
    ensures
        r == from_le(bytes@),
{
    proof {
        reveal_with_fuel(from_le, 9);
        let b = bytes@;
        assert(from_le(b) == b[0] + 256 * (b[1] + 256 * (b[2] + 256 * (b[3] + 256 * (b[4] + 256 * (
        b[5] + 256 * (b[6] + 256 * b[7])))))));
    }
    bytes[0] as u64 + 256 * (bytes[1] as u64 + 256 * (bytes[2] as u64 + 256 * (bytes[3] as u64 + 256
        * (bytes[4] as u64 + 256 * (bytes[5] as u64 + 256 * (bytes[6] as u64 + 256
        * bytes[7] as u64))))))
}

} // verus!
