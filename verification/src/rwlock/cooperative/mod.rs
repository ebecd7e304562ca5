//! A reader-writer lock whose tasks wait in a queue.

pub mod acquire;
pub mod error;
pub mod fairness;
pub mod laws;
pub mod nodes;
pub mod queue;
pub mod run;
pub mod rwcore;
pub mod rwlock;
pub mod state;
pub mod upgrade;
pub mod wait;
