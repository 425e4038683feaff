//! The bounded queue of embedding work.

use crate::domain::id::EntityId;
use vstd::prelude::*;

verus! {

/// Why work was not taken.
#[derive(Debug, Clone, Copy, PartialEq, Eq, Structural)]
pub enum SchedulerError {
    /// The queue is full; try again later.
    Busy,
    /// The worker is gone.
    Closed,
}

impl SchedulerError {
    /// The message for the reader.
    pub open spec fn text(self) -> Seq<char> {
        match self {
            SchedulerError::Busy => "scheduler queue full; retry later"@,
            SchedulerError::Closed => "scheduler is closed"@,
        }
    }

    pub fn message(&self) -> (r: &'static str)
        ensures
            r@ == self.text(),
    {
        match self {
            SchedulerError::Busy => "scheduler queue full; retry later",
            SchedulerError::Closed => "scheduler is closed",
        }
    }
}

/// Who waits for a job.
#[derive(Debug, Clone, Copy, PartialEq, Eq, Structural)]
pub enum JobPriority {
    Interactive,
    Maintenance,
}

/// A text to embed.
#[derive(Debug, Clone)]
pub struct EmbeddingJob {
    pub memory_id: EntityId,
    pub text: String,
    pub priority: JobPriority,
}

/// The budget of the queue.
#[derive(Debug, Clone, Copy, PartialEq, Eq, Structural)]
pub struct SchedulerConfig {
    /// Queued jobs before work is turned away.
    pub max_queue_depth: usize,
}

impl Default for SchedulerConfig {
    fn default() -> (r: Self)
        ensures
            r.max_queue_depth == 1024,
    {
        SchedulerConfig { max_queue_depth: 1024 }
    }
}

/// What the channel made of a job that was offered to it.
#[derive(Debug, Clone, Copy, PartialEq, Eq, Structural)]
pub enum Offer {
    Taken,
    Full,
    Closed,
}

/// What the submitter is told: a full queue is busy, not an error for good.
pub fn submitted(offer: Offer) -> (r: Result<(), SchedulerError>)
    ensures
        r is Ok <==> offer == Offer::Taken,
        r == Err::<(), SchedulerError>(SchedulerError::Busy) <==> offer == Offer::Full,
        r == Err::<(), SchedulerError>(SchedulerError::Closed) <==> offer == Offer::Closed,
{
    match offer {
        Offer::Taken => Ok(()),
        Offer::Full => Err(SchedulerError::Busy),
        Offer::Closed => Err(SchedulerError::Closed),
    }
}

/// The jobs that wait, given the size of the queue and the places left in it.
pub fn queue_depth(max_capacity: usize, capacity: usize) -> (r: usize)
    requires
        capacity <= max_capacity,
    ensures
        r == max_capacity - capacity,
{
    max_capacity - capacity
}

/// Whether the queue has no place left.
pub fn is_full(capacity: usize) -> (r: bool)
    ensures
        r == (capacity == 0),
{
    capacity == 0
}

} // verus!
