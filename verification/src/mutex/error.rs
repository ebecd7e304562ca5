//! The errors of a mutual exclusion lock.

use vstd::prelude::*;

verus! {

/// Why a lock was not acquired.
#[derive(Clone, Copy, Debug, PartialEq, Eq, Structural)]
pub enum MutexError {
    Cancelled,
    Poisoned,
    Retry,
}

impl MutexError {
    /// The text of the error.
    pub open spec fn text(self) -> Seq<char> {
        match self {
            MutexError::Cancelled => "SpinningMutexError::Cancelled"@,
            MutexError::Poisoned => "SpinningMutexError::Poisoned"@,
            MutexError::Retry => "SpinningMutexError::Retry"@,
        }
    }

    pub fn to_string(&self) -> (r: String)
        ensures
            r@ == self.text(),
    {
        match self {
            MutexError::Cancelled => "SpinningMutexError::Cancelled".to_string(),
            MutexError::Poisoned => "SpinningMutexError::Poisoned".to_string(),
            MutexError::Retry => "SpinningMutexError::Retry".to_string(),
        }
    }
}

} // verus!
