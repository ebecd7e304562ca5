//! The errors of the spinning reader-writer lock.

use vstd::prelude::*;

verus! {

/// Why a lock was not acquired.
#[derive(Clone, Copy, Debug, PartialEq, Eq, Structural)]
pub enum RwLockError {
    Cancelled,
    Poisoned,
    Retry,
}

impl RwLockError {
    /// The text of the error.
    pub open spec fn text(self) -> Seq<char> {
        match self {
            RwLockError::Cancelled => "SpinningRwLockError::Cancelled"@,
            RwLockError::Poisoned => "SpinningRwLockError::Poisoned"@,
            RwLockError::Retry => "SpinningRwLockError::Retry"@,
        }
    }

    pub fn to_string(&self) -> (r: String)
        ensures
            r@ == self.text(),
    {
        match self {
            RwLockError::Cancelled => "SpinningRwLockError::Cancelled".to_string(),
            RwLockError::Poisoned => "SpinningRwLockError::Poisoned".to_string(),
            RwLockError::Retry => "SpinningRwLockError::Retry".to_string(),
        }
    }
}

} // verus!
