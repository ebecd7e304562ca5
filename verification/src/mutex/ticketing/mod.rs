//! A mutual exclusion lock that serves its tasks in the order of the numbers
//! they drew.

pub mod laws;
pub mod spinning;
pub mod state;
pub mod turns;
pub mod wait;
