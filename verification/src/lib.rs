//! Locks that keep their whole state in one atomic word.
//!
//! - `mutex::embedded` is a lock in one bit of a word that holds something else
//!   as well.
//! - `mutex::ticketing` serves its tasks in the order of the numbers they drew.
//! - `rwlock::preemptive` is a reader-writer lock whose tasks spin.
//! - `rwlock::cooperative` is a reader-writer lock whose tasks wait in a queue.
//!
//! A lock changes its word by guarded updates, each of which is a step of
//! `cell`. What a step asks of the word and what it makes of it is stated on
//! the parts of the word; from that the laws of a lock follow, whatever the
//! order in which its tasks take their steps.

pub mod cancel;
pub mod cell;
pub mod fields;
pub mod mutex;
pub mod rwlock;
pub mod word;
