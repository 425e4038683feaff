//! Identities: 128-bit internal identifiers, external aliases, revisions, the
//! store generation, and the identities of channels and sessions.

use crate::digest::hex_padded;
use vstd::prelude::*;

verus! {

// ---------------------------------------------------------------------------
// UUIDs
// ---------------------------------------------------------------------------

/// The text of a UUID: the 32 digits of its value in lower-case hexadecimal, in
/// groups of 8, 4, 4, 4 and 12.
pub open spec fn uuid_text(id: u128) -> Seq<char> {
    hex_padded((id / 0x1_0000_0000_0000_0000_0000_0000) as nat, 8) + "-"@ + hex_padded(
        (id / 0x1_0000_0000_0000_0000_0000 % 0x1_0000) as nat,
        4,
    ) + "-"@ + hex_padded((id / 0x1_0000_0000_0000_0000 % 0x1_0000) as nat, 4) + "-"@ + hex_padded(
        (id / 0x1_0000_0000_0000 % 0x1_0000) as nat,
        4,
    ) + "-"@ + hex_padded((id % 0x1_0000_0000_0000) as nat, 12)
}

/// The UUID that `uuid::Uuid::parse_str` reads from a text, or its message where
/// it reads none.
pub uninterp spec fn uuid_read(text: Seq<char>) -> Result<u128, Seq<char>>;

/// The version 5 UUID of a name in the URL name space.
pub uninterp spec fn uuid_named(name: Seq<char>) -> u128;

/// `uuid::Uuid::to_string`: the hyphenated text of the UUID with this value.
/// Claimed of it: the text itself, and that `uuid::Uuid::parse_str` reads the
/// value back from it.
#[verifier::external_body]
pub(crate) fn uuid_to_text(id: u128) -> (r: String)
    ensures
        r@ == uuid_text(id),
        uuid_read(r@) is Ok && uuid_read(r@)->Ok_0 == id,
{
    uuid::Uuid::from_u128(id).to_string()
}

/// `uuid::Uuid::parse_str`: the value of the UUID that the text writes, in any
/// of the forms the crate reads, or the message of its error. Both depend on the
/// text alone.
#[verifier::external_body]
pub(crate) fn uuid_from_text(text: &str) -> (r: Result<u128, String>)
    ensures
        match r {
            Ok(id) => uuid_read(text@) is Ok && uuid_read(text@)->Ok_0 == id,
            Err(e) => uuid_read(text@) is Err && uuid_read(text@)->Err_0 == e@,
        },
{
    match uuid::Uuid::parse_str(text) {
        Ok(id) => Ok(id.as_u128()),
        Err(e) => Err(e.to_string()),
    }
}

/// `uuid::Uuid::new_v5` in the URL name space, on the UTF-8 bytes of the name.
/// It depends on the name alone.
#[verifier::external_body]
pub(crate) fn uuid_from_name(name: &str) -> (r: u128)
    ensures
        r == uuid_named(name@),
{
    uuid::Uuid::new_v5(&uuid::Uuid::NAMESPACE_URL, name.as_bytes()).as_u128()
}

// ---------------------------------------------------------------------------
// Identifiers
// ---------------------------------------------------------------------------

/// The identity of a memory, a relation or another record.
#[derive(Debug, Clone, Copy, PartialEq, Eq, Hash, PartialOrd, Ord, Structural)]
pub struct EntityId(pub u128);

impl EntityId {
    pub fn new(id: u128) -> (r: Self)
        ensures
            r == EntityId(id),
    {
        EntityId(id)
    }

    /// The value of the UUID.
    pub fn as_uuid(&self) -> (r: u128)
        ensures
            r == self.0,
    {
        self.0
    }
}

/// The generation of a store. Receipts are kept per generation.
#[derive(Debug, Clone, Copy, PartialEq, Eq, Hash, PartialOrd, Ord, Structural)]
pub struct StoreGeneration(pub u64);

impl StoreGeneration {
    /// The generation that a new store starts in.
    pub fn first() -> (r: Self)
        ensures
            r == StoreGeneration(1),
    {
        StoreGeneration(1)
    }

    pub fn new(value: u64) -> (r: Self)
        ensures
            r == StoreGeneration(value),
    {
        StoreGeneration(value)
    }

    pub fn as_u64(&self) -> (r: u64)
        ensures
            r == self.0,
    {
        self.0
    }
}

/// The revision of a record.
#[derive(Debug, Clone, Copy, PartialEq, Eq, Hash, PartialOrd, Ord, Structural)]
pub struct EntityRevision(pub u64);

impl EntityRevision {
    pub fn new(value: u64) -> (r: Self)
        ensures
            r == EntityRevision(value),
    {
        EntityRevision(value)
    }

    pub fn as_u64(&self) -> (r: u64)
        ensures
            r == self.0,
    {
        self.0
    }

    /// The revision that follows.
    pub open spec fn succ(self) -> EntityRevision {
        EntityRevision((self.0 + 1) as u64)
    }

    pub fn next(&self) -> (r: Self)
        requires
            self.0 < u64::MAX,
        ensures
            r == self.succ(),
            r.0 == self.0 + 1,
    {
        EntityRevision(self.0 + 1)
    }
}

/// The revision of a memory's content.
#[derive(Debug, Clone, Copy, PartialEq, Eq, Hash, PartialOrd, Ord, Structural)]
pub struct DocumentRevision(pub u64);

impl DocumentRevision {
    pub fn new(value: u64) -> (r: Self)
        ensures
            r == DocumentRevision(value),
    {
        DocumentRevision(value)
    }

    pub fn as_u64(&self) -> (r: u64)
        ensures
            r == self.0,
    {
        self.0
    }

    /// The revision that follows.
    pub open spec fn succ(self) -> DocumentRevision {
        DocumentRevision((self.0 + 1) as u64)
    }

    pub fn next(&self) -> (r: Self)
        requires
            self.0 < u64::MAX,
        ensures
            r == self.succ(),
            r.0 == self.0 + 1,
    {
        DocumentRevision(self.0 + 1)
    }
}

/// The revision of whether a memory can be recalled.
#[derive(Debug, Clone, Copy, PartialEq, Eq, Hash, PartialOrd, Ord, Structural)]
pub struct EligibilityRevision(pub u64);

impl EligibilityRevision {
    pub fn new(value: u64) -> (r: Self)
        ensures
            r == EligibilityRevision(value),
    {
        EligibilityRevision(value)
    }

    pub fn as_u64(&self) -> (r: u64)
        ensures
            r == self.0,
    {
        self.0
    }

    /// The revision that follows.
    pub open spec fn succ(self) -> EligibilityRevision {
        EligibilityRevision((self.0 + 1) as u64)
    }

    pub fn next(&self) -> (r: Self)
        requires
            self.0 < u64::MAX,
        ensures
            r == self.succ(),
            r.0 == self.0 + 1,
    {
        EligibilityRevision(self.0 + 1)
    }
}

/// The identity of a frontend process.
#[derive(Debug, Clone, Copy, PartialEq, Eq, Hash, PartialOrd, Ord, Structural)]
pub struct FrontendId(pub u128);

impl FrontendId {
    pub fn new(id: u128) -> (r: Self)
        ensures
            r == FrontendId(id),
    {
        FrontendId(id)
    }

    pub fn as_uuid(&self) -> (r: u128)
        ensures
            r == self.0,
    {
        self.0
    }
}

/// The identity of one channel of a frontend.
#[derive(Debug, Clone, Copy, PartialEq, Eq, Hash, PartialOrd, Ord, Structural)]
pub struct ChannelId(pub u128);

impl ChannelId {
    pub fn new(id: u128) -> (r: Self)
        ensures
            r == ChannelId(id),
    {
        ChannelId(id)
    }

    pub fn as_uuid(&self) -> (r: u128)
        ensures
            r == self.0,
    {
        self.0
    }
}

/// The identity of a working session.
#[derive(Debug, Clone, Copy, PartialEq, Eq, Hash, PartialOrd, Ord, Structural)]
pub struct SessionHandle(pub u128);

impl SessionHandle {
    pub fn new(id: u128) -> (r: Self)
        ensures
            r == SessionHandle(id),
    {
        SessionHandle(id)
    }

    pub fn as_uuid(&self) -> (r: u128)
        ensures
            r == self.0,
    {
        self.0
    }
}

/// The identity of an operation: its idempotency key within a generation.
#[derive(Debug, Clone, Copy, PartialEq, Eq, Hash, PartialOrd, Ord, Structural)]
pub struct OperationId(pub u128);

impl OperationId {
    pub fn new(id: u128) -> (r: Self)
        ensures
            r == OperationId(id),
    {
        OperationId(id)
    }

    pub fn as_uuid(&self) -> (r: u128)
        ensures
            r == self.0,
    {
        self.0
    }
}

/// The name by which the outside knows a record.
#[derive(Debug, PartialEq, Eq, Hash)]
pub struct ExternalAlias(pub String);

impl View for ExternalAlias {
    type V = Seq<char>;

    open spec fn view(&self) -> Seq<char> {
        self.0@
    }
}

impl Clone for ExternalAlias {
    fn clone(&self) -> (r: Self)
        ensures
            r == *self,
    {
        ExternalAlias(self.0.clone())
    }
}

impl ExternalAlias {
    pub fn new(alias: String) -> (r: Self)
        ensures
            r == ExternalAlias(alias),
            r@ == alias@,
    {
        ExternalAlias(alias)
    }

    pub fn as_str(&self) -> (r: &str)
        ensures
            r@ == self@,
    {
        self.0.as_str()
    }
}

/// The fingerprint of an embedding model.
#[derive(Debug, Clone, Copy, PartialEq, Eq, Hash, PartialOrd, Ord, Structural)]
pub struct ModelFingerprint(pub u64);

impl ModelFingerprint {
    pub fn new(value: u64) -> (r: Self)
        ensures
            r == ModelFingerprint(value),
    {
        ModelFingerprint(value)
    }

    pub fn as_u64(&self) -> (r: u64)
        ensures
            r == self.0,
    {
        self.0
    }
}

/// The number of a chunk of a document.
#[derive(Debug, Clone, Copy, PartialEq, Eq, Hash, PartialOrd, Ord, Structural)]
pub struct ChunkId(pub u32);

impl ChunkId {
    pub fn new(value: u32) -> (r: Self)
        ensures
            r == ChunkId(value),
    {
        ChunkId(value)
    }

    pub fn as_u32(&self) -> (r: u32)
        ensures
            r == self.0,
    {
        self.0
    }
}

/// The identity of one row of the search projection.
#[derive(Debug, Clone, Copy, PartialEq, Eq, Hash, Structural)]
pub struct SearchIdentity {
    pub store_generation: StoreGeneration,
    pub memory_id: EntityId,
    pub document_revision: DocumentRevision,
    pub model_fingerprint: ModelFingerprint,
    pub chunk_id: ChunkId,
}

} // verus!
