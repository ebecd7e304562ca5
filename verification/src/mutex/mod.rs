//! Mutual exclusion locks.

pub mod embedded;
pub mod error;
pub mod ticketing;
