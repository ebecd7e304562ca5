//! The cooperative reader-writer lock, for tasks that do not wait.
//!
//! The lock has no data of its own. A guard stands for the right to what the
//! lock protects, and is given back by its `release`. How a task waits is in
//! the module `acquire`.

use vstd::prelude::*;

use crate::cell;
use crate::cell::{Attempt, Loaded, Source, WordCell};
use crate::rwlock::cooperative::error::CoopRwLockError;
use crate::rwlock::cooperative::rwcore;
use crate::rwlock::cooperative::rwcore::{Left, RwCore};
use crate::rwlock::cooperative::state;
use crate::rwlock::cooperative::state::{readers_in, CoopStep};
use crate::rwlock::cooperative::wait::WaitKind;
use crate::rwlock::place::Place;
use crate::word::StateWord;

verus! {

/// A reader-writer lock whose tasks wait in a queue.
pub struct CooperativeRwLock<C: WordCell> {
    core_: RwCore<C>,
}

impl<C: WordCell> CooperativeRwLock<C> {
    /// The heart of the lock.
    pub closed spec fn heart(self) -> RwCore<C> {
        self.core_
    }

    /// A lock over `cell`, whose word must be zero.
    pub fn new(cell: C) -> (r: Self)
        ensures
            r.heart().state().cell() == cell,
        opens_invariants none
    {
        CooperativeRwLock { core_: RwCore::new(cell) }
    }

    pub fn acquire_session(&self) -> (r: CooperativeAcqSession<'_, C>)
        ensures
            r.lock() == self,
        opens_invariants none
    {
        CooperativeAcqSession { lock_: self }
    }

    /// The number of readers that hold the lock, an upgradable reader among
    /// them. There is none where a `usize` cannot hold the number.
    pub fn reader_count(&self) -> (r: Option<usize>)
        ensures
            exists|l: Loaded<C::Word>|
                {
                    &&& #[trigger] l.source() == self.heart().source()
                    &&& r is Some <==> state::coop_view(l.seen()).readers <= usize::MAX
                    &&& r matches Some(n) ==> n == state::coop_view(l.seen()).readers
                },
        opens_invariants none
    {
        let s = self.core_.state_().load_state().word();
        readers_in(s)
    }

    /// A reference to the heart of the lock.
    pub fn core_(&self) -> (r: &RwCore<C>)
        ensures
            *r == self.heart(),
        opens_invariants none
    {
        &self.core_
    }
}

/// Whether a task that tried to come in without waiting can have come in or
/// not: it has just where its exchange swapped the word.
pub open spec fn tried<D: StateWord>(source: Source, kind: WaitKind, came_in: bool) -> bool {
    exists|a: Attempt<D, CoopStep>| #[trigger]
        cell::attempt_on(a, source, rwcore::fast_step(kind)) && came_in == a.swapped()
}

/// Whether a task comes in by this change of the state word, waiting or not.
pub open spec fn enters(step: CoopStep, kind: WaitKind) -> bool {
    step == rwcore::fast_step(kind) || step == rwcore::claim_step(kind)
}

/// A task that acquires the lock.
pub struct CooperativeAcqSession<'a, C: WordCell> {
    lock_: &'a CooperativeRwLock<C>,
}

impl<'a, C: WordCell> CooperativeAcqSession<'a, C> {
    pub closed spec fn lock(self) -> &'a CooperativeRwLock<C> {
        self.lock_
    }

    pub fn new(lock: &'a CooperativeRwLock<C>) -> (r: Self)
        ensures
            r.lock() == lock,
        opens_invariants none
    {
        CooperativeAcqSession { lock_: lock }
    }

    /// One attempt to come in without waiting.
    pub fn attempt_(&self, kind: WaitKind) -> (r: Attempt<C::Word, CoopStep>)
        ensures
            cell::attempt_on(r, self.lock().heart().source(), rwcore::fast_step(kind)),
        opens_invariants [ state::step_name(rwcore::fast_step(kind)) ]
    {
        self.lock_.core_.try_fast(kind)
    }

    /// The guard of a reader that came in like this.
    pub fn reader_(&self, a: Attempt<C::Word, CoopStep>) -> (r: Result<
        ReaderGuard<'a, C>,
        CoopRwLockError,
    >)
        requires
            enters(a.step(), WaitKind::Read),
            a.source() == self.lock().heart().source(),
        ensures
            a.swapped() ==> (r matches Ok(g) && g.lock() == self.lock() && g.counted()),
            !a.swapped() ==> (r matches Err(e) && e == CoopRwLockError::WouldBlock),
        opens_invariants none
    {
        if a.is_succ() {
            Ok(ReaderGuard { lock_: self.lock_, counted_: true })
        } else {
            Err(CoopRwLockError::WouldBlock)
        }
    }

    /// The guard of a writer that came in like this.
    pub fn writer_(&self, a: Attempt<C::Word, CoopStep>) -> (r: Result<
        WriterGuard<'a, C>,
        CoopRwLockError,
    >)
        requires
            enters(a.step(), WaitKind::Write),
            a.source() == self.lock().heart().source(),
        ensures
            a.swapped() ==> (r matches Ok(g) && g.lock() == self.lock() && !g.lent()),
            !a.swapped() ==> (r matches Err(e) && e == CoopRwLockError::WouldBlock),
        opens_invariants none
    {
        if a.is_succ() {
            Ok(WriterGuard { lock_: self.lock_, lent_: false })
        } else {
            Err(CoopRwLockError::WouldBlock)
        }
    }

    /// The guard of an upgradable reader that became a writer like this, and
    /// stands on the place that it was lent.
    pub fn upgraded_(&self, a: Attempt<C::Word, CoopStep>) -> (r: Result<
        WriterGuard<'a, C>,
        CoopRwLockError,
    >)
        requires
            enters(a.step(), WaitKind::Upgrade),
            a.source() == self.lock().heart().source(),
        ensures
            a.swapped() ==> (r matches Ok(g) && g.lock() == self.lock() && g.lent()),
            !a.swapped() ==> (r matches Err(e) && e == CoopRwLockError::WouldBlock),
        opens_invariants none
    {
        if a.is_succ() {
            Ok(WriterGuard { lock_: self.lock_, lent_: true })
        } else {
            Err(CoopRwLockError::WouldBlock)
        }
    }

    /// The guard of an upgradable reader that came in like this.
    pub fn upgradable_(&self, a: Attempt<C::Word, CoopStep>) -> (r: Result<
        UpgradableReaderGuard<'a, C>,
        CoopRwLockError,
    >)
        requires
            enters(a.step(), WaitKind::UpgradableRead),
            a.source() == self.lock().heart().source(),
        ensures
            a.swapped() ==> (r matches Ok(g) && g.lock() == self.lock() && g.place() is Own),
            !a.swapped() ==> (r matches Err(e) && e == CoopRwLockError::WouldBlock),
        opens_invariants none
    {
        if a.is_succ() {
            Ok(UpgradableReaderGuard { lock_: self.lock_, place_: Place::Own })
        } else {
            Err(CoopRwLockError::WouldBlock)
        }
    }

    pub fn try_read(&mut self) -> (r: Result<ReaderGuard<'a, C>, CoopRwLockError>)
        ensures
            *final(self) == *old(self),
            tried::<C::Word>(old(self).lock().heart().source(), WaitKind::Read, r is Ok),
            r matches Ok(g) ==> g.lock() == old(self).lock() && g.counted(),
            r matches Err(e) ==> e == CoopRwLockError::WouldBlock,
        opens_invariants [ state::step_name(CoopStep::ReadFast) ]
    {
        let a = self.attempt_(WaitKind::Read);
        self.reader_(a)
    }

    pub fn try_write(&mut self) -> (r: Result<WriterGuard<'a, C>, CoopRwLockError>)
        ensures
            *final(self) == *old(self),
            tried::<C::Word>(old(self).lock().heart().source(), WaitKind::Write, r is Ok),
            r matches Ok(g) ==> g.lock() == old(self).lock() && !g.lent(),
            r matches Err(e) ==> e == CoopRwLockError::WouldBlock,
        opens_invariants [ state::step_name(CoopStep::WriteFast) ]
    {
        let a = self.attempt_(WaitKind::Write);
        self.writer_(a)
    }

    pub fn try_upgradable_read(&mut self) -> (r: Result<
        UpgradableReaderGuard<'a, C>,
        CoopRwLockError,
    >)
        ensures
            *final(self) == *old(self),
            tried::<C::Word>(old(self).lock().heart().source(), WaitKind::UpgradableRead, r is Ok),
            r matches Ok(g) ==> g.lock() == old(self).lock() && g.place() is Own,
            r matches Err(e) ==> e == CoopRwLockError::WouldBlock,
        opens_invariants [ state::step_name(CoopStep::UpgradableReadFast) ]
    {
        let a = self.attempt_(WaitKind::UpgradableRead);
        self.upgradable_(a)
    }
}

/// The right of a reader.
pub struct ReaderGuard<'a, C: WordCell> {
    lock_: &'a CooperativeRwLock<C>,
    counted_: bool,
}

impl<'a, C: WordCell> ReaderGuard<'a, C> {
    pub closed spec fn lock(self) -> &'a CooperativeRwLock<C> {
        self.lock_
    }

    /// Whether the reader is counted for itself. One that is not stands on the
    /// place of an [`Upgrade`].
    pub closed spec fn counted(self) -> bool {
        self.counted_
    }

    /// The reader leaves. One that stands on a place that it was lent leaves
    /// the lock as it is.
    pub fn release(self) -> (r: Option<Left<C::Word>>)
        ensures
            r is Some <==> self.counted(),
            r matches Some(l) ==> l.holds(self.lock().heart().source(), CoopStep::ReleaseReader),
        opens_invariants [
            cell::name_if(self.counted(), state::step_name(CoopStep::ReleaseReader)),
        ]
    {
        if self.counted_ {
            Some(self.lock_.core_.release_reader())
        } else {
            None
        }
    }
}

/// The right of a writer.
pub struct WriterGuard<'a, C: WordCell> {
    lock_: &'a CooperativeRwLock<C>,
    lent_: bool,
}

impl<'a, C: WordCell> WriterGuard<'a, C> {
    pub closed spec fn lock(self) -> &'a CooperativeRwLock<C> {
        self.lock_
    }

    /// Whether the writer stands on the place of an [`Upgrade`].
    pub closed spec fn lent(self) -> bool {
        self.lent_
    }

    /// The writer leaves.
    pub fn release(self) -> (r: Left<C::Word>)
        ensures
            r.holds(self.lock().heart().source(), CoopStep::ReleaseWriter),
        opens_invariants [ state::step_name(CoopStep::ReleaseWriter) ]
    {
        self.lock_.core_.release_writer()
    }

    /// The writer becomes a reader.
    pub fn downgrade_to_reader(self) -> (r: (ReaderGuard<'a, C>, Left<C::Word>))
        ensures
            r.0.lock() == self.lock(),
            r.0.counted(),
            r.1.holds(self.lock().heart().source(), CoopStep::WriteToRead),
        opens_invariants [ state::step_name(CoopStep::WriteToRead) ]
    {
        let left = self.lock_.core_.downgrade_write_to_read();
        (ReaderGuard { lock_: self.lock_, counted_: true }, left)
    }

    /// The writer becomes an upgradable reader, on the place that it was lent
    /// if it was.
    pub fn downgrade_to_upgradable(self) -> (r: (UpgradableReaderGuard<'a, C>, Left<C::Word>))
        ensures
            r.0.lock() == self.lock(),
            r.0.place() == (if self.lent() {
                Place::Lent
            } else {
                Place::Own
            }),
            r.1.holds(self.lock().heart().source(), CoopStep::WriteToUpgradable),
        opens_invariants [ state::step_name(CoopStep::WriteToUpgradable) ]
    {
        let left = self.lock_.core_.downgrade_write_to_upgradable();
        let place_ = if self.lent_ {
            Place::Lent
        } else {
            Place::Own
        };
        (UpgradableReaderGuard { lock_: self.lock_, place_ }, left)
    }
}

/// The right of an upgradable reader. There is at most one.
pub struct UpgradableReaderGuard<'a, C: WordCell> {
    lock_: &'a CooperativeRwLock<C>,
    place_: Place,
}

/// What became of an upgradable reader that tried to become a writer for good.
pub struct UpgradeTry<'a, C: WordCell> {
    /// The guard of the writer, or that of the upgradable reader as it was.
    pub guard: Result<WriterGuard<'a, C>, UpgradableReaderGuard<'a, C>>,
    /// The exchange by which it becomes a writer.
    pub upgrade: Attempt<C::Word, CoopStep>,
    /// How it gave back its own place as an upgradable reader, once it was a
    /// writer.
    pub left: Option<Left<C::Word>>,
}

impl<'a, C: WordCell> UpgradableReaderGuard<'a, C> {
    pub closed spec fn lock(self) -> &'a CooperativeRwLock<C> {
        self.lock_
    }

    /// Whose place the upgradable reader stands on.
    pub closed spec fn place(self) -> Place {
        self.place_
    }

    /// The upgradable reader leaves, and gives back the place if that is its
    /// own.
    pub fn release(self) -> (r: Option<Left<C::Word>>)
        ensures
            r is Some <==> self.place() is Own,
            r matches Some(l) ==> l.holds(
                self.lock().heart().source(),
                CoopStep::ReleaseUpgradable,
            ),
        opens_invariants [
            cell::name_if(
                self.place() is Own,
                state::step_name(CoopStep::ReleaseUpgradable),
            ),
        ]
    {
        match self.place_ {
            Place::Own => Some(self.lock_.core_.release_upgradable_read()),
            Place::Lent => None,
        }
    }

    /// The upgradable reader becomes a reader. On a place that it was lent it
    /// stays there, and the place stays that of an upgradable reader.
    pub fn downgrade(self) -> (r: (ReaderGuard<'a, C>, Option<Left<C::Word>>))
        ensures
            r.0.lock() == self.lock(),
            r.0.counted() == (self.place() is Own),
            r.1 is Some <==> self.place() is Own,
            r.1 matches Some(l) ==> l.holds(
                self.lock().heart().source(),
                CoopStep::UpgradableToRead,
            ),
        opens_invariants [
            cell::name_if(
                self.place() is Own,
                state::step_name(CoopStep::UpgradableToRead),
            ),
        ]
    {
        match self.place_ {
            Place::Own => {
                let left = self.lock_.core_.downgrade_upgradable_to_read();
                (ReaderGuard { lock_: self.lock_, counted_: true }, Some(left))
            },
            Place::Lent => (ReaderGuard { lock_: self.lock_, counted_: false }, None),
        }
    }

    /// One attempt to become a writer. The upgradable reader stays what it is.
    pub(crate) fn attempt_upgrade_(&self) -> (r: Attempt<C::Word, CoopStep>)
        ensures
            cell::attempt_on(r, self.lock().heart().source(), CoopStep::Upgrade),
        opens_invariants [ state::step_name(CoopStep::Upgrade) ]
    {
        self.lock_.core_.try_fast(WaitKind::Upgrade)
    }

    /// The guard of the writer that the upgradable reader has become like this.
    pub(crate) fn writer_by_(&self, upgrade: &Attempt<C::Word, CoopStep>) -> (r: WriterGuard<'a, C>)
        requires
            upgrade.swapped(),
            upgrade.step() is Upgrade,
            upgrade.source() == self.lock().heart().source(),
        ensures
            r.lock() == self.lock(),
            r.lent() == (self.place() is Lent),
        opens_invariants none
    {
        let lent_ = match self.place_ {
            Place::Own => false,
            Place::Lent => true,
        };
        WriterGuard { lock_: self.lock_, lent_ }
    }

    /// The upgradable reader as one that will become a writer for a while.
    pub fn upgrade_session(self) -> (r: Upgrade<'a, C>)
        ensures
            r.guard() == self,
        opens_invariants none
    {
        Upgrade { guard_: self }
    }
}

/// An upgradable reader that becomes a writer for a while, and keeps its place
/// as an upgradable reader. The writer, and what it is downgraded to, stand on
/// that place.
pub struct Upgrade<'a, C: WordCell> {
    guard_: UpgradableReaderGuard<'a, C>,
}

impl<'a, C: WordCell> Upgrade<'a, C> {
    pub closed spec fn guard(self) -> UpgradableReaderGuard<'a, C> {
        self.guard_
    }

    /// Tries to become a writer without waiting.
    pub fn try_upgrade<'u>(&'u mut self) -> (r: Result<WriterGuard<'u, C>, CoopRwLockError>)
        ensures
            *final(self) == *old(self),
            tried::<C::Word>(
                old(self).guard().lock().heart().source(),
                WaitKind::Upgrade,
                r is Ok,
            ),
            r matches Ok(g) ==> g.lock() == old(self).guard().lock() && g.lent(),
            r matches Err(e) ==> e == CoopRwLockError::WouldBlock,
        opens_invariants [ state::step_name(CoopStep::Upgrade) ]
    {
        let sess = CooperativeAcqSession::new(self.guard_.lock_);
        let a = sess.attempt_(WaitKind::Upgrade);
        sess.upgraded_(a)
    }

    pub fn into_guard(self) -> (r: UpgradableReaderGuard<'a, C>)
        ensures
            r == self.guard(),
        opens_invariants none
    {
        self.guard_
    }
}

} // verus!
