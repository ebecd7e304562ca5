//! The errors of the cooperative reader-writer lock.

use vstd::prelude::*;

verus! {

/// Why a lock was not acquired.
#[derive(Clone, Copy, Debug, PartialEq, Eq, Structural)]
pub enum CoopRwLockError {
    /// The task would have to wait.
    WouldBlock,
    /// The task was cancelled while it waited.
    Cancelled,
    /// The lock is poisoned. No lock is so far.
    Poisoned,
}

impl CoopRwLockError {
    /// The text of the error.
    pub open spec fn text(self) -> Seq<char> {
        match self {
            CoopRwLockError::WouldBlock => "CoopRwLockError::WouldBlock"@,
            CoopRwLockError::Cancelled => "CoopRwLockError::Cancelled"@,
            CoopRwLockError::Poisoned => "CoopRwLockError::Poisoned"@,
        }
    }

    pub fn to_string(&self) -> (r: String)
        ensures
            r@ == self.text(),
    {
        match self {
            CoopRwLockError::WouldBlock => "CoopRwLockError::WouldBlock".to_string(),
            CoopRwLockError::Cancelled => "CoopRwLockError::Cancelled".to_string(),
            CoopRwLockError::Poisoned => "CoopRwLockError::Poisoned".to_string(),
        }
    }
}

} // verus!
