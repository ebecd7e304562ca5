//! A reader-writer lock whose tasks spin, each as eager as the other.

pub mod error;
pub mod laws;
pub mod rwlock;
pub mod state;
