//! Reader-writer locks.

pub mod cooperative;
pub mod place;
pub mod preemptive;
pub mod sequential;
