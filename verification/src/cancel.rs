//! Cancellation of a wait.

use vstd::prelude::*;

verus! {

/// A token that a waiting task asks, turn after turn, whether to give up.
pub trait TrCancellationToken {
    /// What the token answers every time it is asked, where that is known
    /// beforehand.
    spec fn verdict(&self) -> Option<bool>;

    fn is_cancelled(&self) -> (r: bool)
        ensures
            self.verdict() matches Some(b) ==> r == b,
        opens_invariants none
    ;
}

/// A token that is cancelled from the start.
#[derive(Clone, Copy, Debug)]
pub struct CancelledToken;

impl TrCancellationToken for CancelledToken {
    open spec fn verdict(&self) -> Option<bool> {
        Some(true)
    }

    fn is_cancelled(&self) -> (r: bool) {
        true
    }
}

/// A token that is never cancelled.
#[derive(Clone, Copy, Debug)]
pub struct NonCancellableToken;

impl TrCancellationToken for NonCancellableToken {
    open spec fn verdict(&self) -> Option<bool> {
        Some(false)
    }

    fn is_cancelled(&self) -> (r: bool) {
        false
    }
}

} // verus!
