//! What becomes of a request that is cancelled.

use vstd::prelude::*;

verus! {

/// The state of a request at the moment its cancellation is seen.
#[derive(Debug, Clone, Copy, PartialEq, Eq, Structural)]
pub struct RequestState {
    pub committed: bool,
    pub canceled: bool,
}

/// What to do with the request.
#[derive(Debug, Clone, Copy, PartialEq, Eq, Structural)]
pub enum CancellationAction {
    Abort,
    Complete,
    KeepReceipt,
}

/// A request that was not cancelled completes. One that was cancelled is
/// aborted before it is committed, and keeps its receipt after.
pub open spec fn action(state: RequestState) -> CancellationAction {
    if !state.canceled {
        CancellationAction::Complete
    } else if state.committed {
        CancellationAction::KeepReceipt
    } else {
        CancellationAction::Abort
    }
}

pub fn decide(state: RequestState) -> (r: CancellationAction)
    ensures
        r == action(state),
{
    if state.committed {
        if state.canceled {
            CancellationAction::KeepReceipt
        } else {
            CancellationAction::Complete
        }
    } else if state.canceled {
        CancellationAction::Abort
    } else {
        CancellationAction::Complete
    }
}

/// Whether the receipt must be kept although the request was cancelled.
pub fn receipt_must_survive(state: RequestState) -> (r: bool)
    ensures
        r == (state.committed && state.canceled),
{
    decide(state) == CancellationAction::KeepReceipt
}

/// Whether the request may be aborted with nothing to undo.
pub fn may_abort(state: RequestState) -> (r: bool)
    ensures
        r == (!state.committed && state.canceled),
{
    decide(state) == CancellationAction::Abort
}

/// What was committed is never aborted.
pub proof fn law_committed_is_never_aborted(state: RequestState)
    ensures
        state.committed ==> action(state) != CancellationAction::Abort,
{
}

} // verus!
