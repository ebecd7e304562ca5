//! Whose place as an upgradable reader a guard stands on.

use vstd::prelude::*;

verus! {

/// Whose place as an upgradable reader a guard stands on. An upgradable reader
/// that becomes a writer for a while keeps its place and lends it to the
/// writer, and to whatever that is downgraded to.
#[derive(Clone, Copy, Debug, PartialEq, Eq, Structural)]
pub enum Place {
    /// Its own, which it gives back.
    Own,
    /// One that it was lent, which the lender gives back.
    Lent,
}

} // verus!
