//! The desired state of the search projection, and the records of a generation
//! that is being built beside the live one.

use crate::domain::id::{DocumentRevision, EntityId, ModelFingerprint, StoreGeneration};
use vstd::prelude::*;

verus! {

/// A durable order to project a memory at a document revision. A worker clears
/// it by comparing `seq`, which grows with every change of the content.
#[derive(Debug, Clone, Copy, PartialEq, Eq, Structural)]
pub struct ProjectionJob {
    pub memory_id: EntityId,
    /// The document revision that must be projected.
    pub desired_document_revision: DocumentRevision,
    /// The token by which the job is compared and cleared.
    pub seq: u64,
    /// When this version of the job was enqueued.
    pub enqueued_at_millis: u64,
    /// Whether every projected row of the memory is to be removed instead.
    pub is_tombstone: bool,
}

/// Where a generation stands between being staged and being retired.
#[derive(Debug, Clone, Copy, PartialEq, Eq, Structural)]
pub enum GenerationStatus {
    /// Staged, no progress reported yet.
    Staged,
    /// Being built.
    Building,
    /// Built far enough to be activated.
    Ready,
    /// The generation that readers use.
    Active,
    /// Replaced, but kept for a while.
    Retired,
}

/// The record of one generation.
#[derive(Debug, Clone, Copy, PartialEq, Eq, Structural)]
pub struct GenerationRecord {
    pub generation: StoreGeneration,
    /// The model the generation was built with, if it is known.
    pub model_fingerprint: Option<ModelFingerprint>,
    pub status: GenerationStatus,
    /// Memories that could be recalled when the generation was staged.
    pub desired_memories: u64,
    /// Memories projected into the generation.
    pub projected_memories: u64,
    /// When the record last changed.
    pub updated_at_millis: u64,
    /// Whether the store changed after the last report of progress.
    pub build_dirty: bool,
}

/// What a record without the flag is taken to be: dirty, so that a build of
/// unknown state must be reported again.
pub fn dirty_by_default() -> (r: bool)
    ensures
        r,
{
    true
}

} // verus!
