//! The outcome of a one-shot request that may have been cancelled.

use vstd::prelude::*;

verus! {

/// The message of a request that was cancelled.
pub const INTERRUPTED_MESSAGE: &'static str = "Interrupted by shutdown signal.";

/// The outcome of a one-shot request. Cancellation ends a turn cleanly, so that what was
/// done stays available; it becomes an error here.
pub fn classify_one_shot_response<T>(response: Result<T, String>, cancelled: bool) -> (r: Result<
    T,
    String,
>)
    ensures
        cancelled ==> (r matches Err(e) && e@ == INTERRUPTED_MESSAGE@),
        !cancelled ==> r == response,
{
    if cancelled {
        return Err(INTERRUPTED_MESSAGE.to_owned());
    }
    response
}

} // verus!
