//! The spinning reader-writer lock.
//!
//! The lock has no data of its own. A guard stands for the right to what the
//! lock protects, and is given back by its `release`.

use vstd::prelude::*;

use crate::cancel::{NonCancellableToken, TrCancellationToken};
use crate::cell;
use crate::cell::{Attempt, Loaded, Source, WordCell};
use crate::rwlock::place::Place;
use crate::rwlock::preemptive::error::RwLockError;
use crate::rwlock::preemptive::state;
use crate::rwlock::preemptive::state::{readers_in, RwLockState, RwStep};
use crate::word::StateWord;

verus! {

/// A reader-writer lock whose tasks spin.
pub struct SpinningRwLock<C: WordCell> {
    stat_: RwLockState<C>,
}

impl<C: WordCell> SpinningRwLock<C> {
    /// The state of the lock.
    pub closed spec fn state(self) -> RwLockState<C> {
        self.stat_
    }

    /// The atomic that holds the state word.
    pub open spec fn source(self) -> Source {
        self.state().cell().source()
    }

    /// A lock over `cell`, whose word must be zero.
    pub fn new(cell: C) -> (r: Self)
        ensures
            r.state().cell() == cell,
        opens_invariants none
    {
        SpinningRwLock { stat_: RwLockState::new(cell) }
    }

    /// The number of readers that hold the lock, an upgradable reader and an
    /// upgraded writer among them. There is none where a `usize` cannot hold
    /// the number.
    pub fn reader_count(&self) -> (r: Option<usize>)
        ensures
            exists|l: Loaded<C::Word>|
                {
                    &&& #[trigger] l.source() == self.source()
                    &&& r is Some <==> state::rw_view(l.seen()).readers <= usize::MAX
                    &&& r matches Some(n) ==> n == state::rw_view(l.seen()).readers
                },
        opens_invariants none
    {
        let s = self.stat_.load_state().word();
        readers_in(s)
    }

    pub fn acquire_session(&self) -> (r: AcqSession<'_, C>)
        ensures
            r.lock() == self,
        opens_invariants none
    {
        AcqSession { lock_: self }
    }

    /// A reference to the state of the lock.
    pub fn state_(&self) -> (r: &RwLockState<C>)
        ensures
            *r == self.state(),
        opens_invariants none
    {
        &self.stat_
    }
}

/// How a task wants to hold the lock.
#[derive(Clone, Copy, Debug, PartialEq, Eq, Structural)]
pub enum Want {
    Read,
    Write,
    UpgradableRead,
    /// As a writer, while it is an upgradable reader.
    Upgrade,
}

impl Want {
    /// The change of the state word that lets the task in.
    pub open spec fn step(self) -> RwStep {
        match self {
            Want::Read => RwStep::Read,
            Want::Write => RwStep::Write,
            Want::UpgradableRead => RwStep::UpgradableRead,
            Want::Upgrade => RwStep::Upgrade,
        }
    }

    /// The only other change that the task may make of the state word: a writer
    /// that is not let in announces itself.
    pub open spec fn queue_step(self) -> RwStep {
        match self {
            Want::Write => RwStep::QueueWriter,
            _ => self.step(),
        }
    }
}

/// What became of a task that tried to come in.
pub struct EntryTry<D> {
    /// The exchange by which it comes in.
    pub by: Attempt<D, RwStep>,
    /// The exchange by which a writer announces itself that did not come in.
    pub queue: Option<Attempt<D, RwStep>>,
}

impl<D: StateWord> EntryTry<D> {
    /// A task tries to come in as it wants to, and a writer announces itself if
    /// it does not come in.
    pub open spec fn holds(self, want: Want) -> bool {
        &&& cell::attempt_holds(self.by, want.step())
        &&& self.queue is Some <==> want is Write && !self.by.swapped()
        &&& self.queue matches Some(q) ==> cell::attempt_holds(q, RwStep::QueueWriter)
    }

    /// Whether the exchanges were made on the atomic `source`.
    pub open spec fn on(self, source: Source) -> bool {
        &&& self.by.source() == source
        &&& self.queue matches Some(q) ==> q.source() == source
    }
}

/// Whether a task that tried once to come in, as it wants to, can have come in
/// or not: it has just where its exchange swapped the word.
pub open spec fn tried<D: StateWord>(source: Source, want: Want, came_in: bool) -> bool {
    exists|t: EntryTry<D>| #[trigger]
        t.holds(want) && t.on(source) && came_in == t.by.swapped()
}

/// Whether each of these is a try of a task that did not come in.
pub open spec fn refused<D: StateWord>(source: Source, want: Want, tries: Seq<EntryTry<D>>) -> bool {
    forall|i: int|
        0 <= i < tries.len() ==> (#[trigger] tries[i]).holds(want) && tries[i].on(source)
            && !tries[i].by.swapped()
}

/// Whether a task that tried to come in, in at most `turns` turns, can come to
/// `out`. It asks its token, which has the given verdict, after every try that
/// was refused, and only then: it comes in by a try, is cancelled after one, or
/// has used up its turns.
pub open spec fn waited<D: StateWord>(
    source: Source,
    want: Want,
    verdict: Option<bool>,
    turns: usize,
    out: Result<(), RwLockError>,
) -> bool {
    exists|tries: Seq<EntryTry<D>>| #[trigger]
        refused(source, want, tries) && match out {
            Ok(_) => {
                &&& tries.len() < turns
                &&& tries.len() > 0 ==> verdict != Some(true)
                &&& tried::<D>(source, want, true)
            },
            Err(RwLockError::Cancelled) => {
                &&& 0 < tries.len() <= turns
                &&& verdict != Some(false)
                &&& tries.len() > 1 ==> verdict != Some(true)
            },
            Err(RwLockError::Retry) => tries.len() == turns && (turns > 0 ==> verdict != Some(
                true,
            )),
            Err(RwLockError::Poisoned) => false,
        }
}

/// Whether the task came in, or why it did not.
pub open spec fn outcome<G>(r: Result<G, RwLockError>) -> Result<(), RwLockError> {
    match r {
        Ok(_) => Ok(()),
        Err(e) => Err(e),
    }
}

/// A task that acquires the lock.
pub struct AcqSession<'a, C: WordCell> {
    lock_: &'a SpinningRwLock<C>,
}

impl<'a, C: WordCell> AcqSession<'a, C> {
    pub closed spec fn lock(self) -> &'a SpinningRwLock<C> {
        self.lock_
    }

    pub fn new(lock: &'a SpinningRwLock<C>) -> (r: Self)
        ensures
            r.lock() == lock,
        opens_invariants none
    {
        AcqSession { lock_: lock }
    }

    /// One attempt to come in.
    pub fn attempt_(&self, want: Want) -> (r: EntryTry<C::Word>)
        ensures
            r.holds(want),
            r.on(self.lock().source()),
        opens_invariants [ state::step_name(want.step()), state::step_name(want.queue_step()) ]
    {
        match want {
            Want::Read => EntryTry { by: self.lock_.stat_.try_read(), queue: None },
            Want::Write => {
                let t = self.lock_.stat_.try_write();
                EntryTry { by: t.write, queue: t.queue }
            },
            Want::UpgradableRead => EntryTry {
                by: self.lock_.stat_.try_upgradable_read(),
                queue: None,
            },
            Want::Upgrade => EntryTry {
                by: self.lock_.stat_.try_upgrade_upgradable_to_write(),
                queue: None,
            },
        }
    }

    /// The guard of a reader that came in like this.
    pub fn reader_(&self, a: Attempt<C::Word, RwStep>) -> (r: Result<
        ReaderGuard<'a, C>,
        RwLockError,
    >)
        requires
            a.step() is Read,
            a.source() == self.lock().source(),
        ensures
            a.swapped() ==> (r matches Ok(g) && g.lock() == self.lock() && g.counted()),
            !a.swapped() ==> (r matches Err(e) && e == RwLockError::Retry),
        opens_invariants none
    {
        if a.is_succ() {
            Ok(ReaderGuard { lock_: self.lock_, counted_: true })
        } else {
            Err(RwLockError::Retry)
        }
    }

    /// The guard of a writer that came in like this.
    pub fn writer_(&self, a: Attempt<C::Word, RwStep>) -> (r: Result<
        WriterGuard<'a, C>,
        RwLockError,
    >)
        requires
            a.step() is Write,
            a.source() == self.lock().source(),
        ensures
            a.swapped() ==> (r matches Ok(g) && g.lock() == self.lock() && g.place() is None),
            !a.swapped() ==> (r matches Err(e) && e == RwLockError::Retry),
        opens_invariants none
    {
        if a.is_succ() {
            Ok(WriterGuard { lock_: self.lock_, place_: None })
        } else {
            Err(RwLockError::Retry)
        }
    }

    /// The guard of an upgradable reader that became a writer like this, and
    /// stands on the place that it was lent.
    pub fn upgraded_(&self, a: Attempt<C::Word, RwStep>) -> (r: Result<
        WriterGuard<'a, C>,
        RwLockError,
    >)
        requires
            a.step() is Upgrade,
            a.source() == self.lock().source(),
        ensures
            a.swapped() ==> (r matches Ok(g) && g.lock() == self.lock() && g.place() == Some(
                Place::Lent,
            )),
            !a.swapped() ==> (r matches Err(e) && e == RwLockError::Retry),
        opens_invariants none
    {
        if a.is_succ() {
            Ok(WriterGuard { lock_: self.lock_, place_: Some(Place::Lent) })
        } else {
            Err(RwLockError::Retry)
        }
    }

    /// The guard of an upgradable reader that came in like this.
    pub fn upgradable_(&self, a: Attempt<C::Word, RwStep>) -> (r: Result<
        UpgradableReaderGuard<'a, C>,
        RwLockError,
    >)
        requires
            a.step() is UpgradableRead,
            a.source() == self.lock().source(),
        ensures
            a.swapped() ==> (r matches Ok(g) && g.lock() == self.lock() && g.place() is Own),
            !a.swapped() ==> (r matches Err(e) && e == RwLockError::Retry),
        opens_invariants none
    {
        if a.is_succ() {
            Ok(UpgradableReaderGuard { lock_: self.lock_, place_: Place::Own })
        } else {
            Err(RwLockError::Retry)
        }
    }

    pub fn try_read(&mut self) -> (r: Result<ReaderGuard<'a, C>, RwLockError>)
        ensures
            *final(self) == *old(self),
            tried::<C::Word>(old(self).lock().source(), Want::Read, r is Ok),
            r matches Ok(g) ==> g.lock() == old(self).lock() && g.counted(),
            r matches Err(e) ==> e == RwLockError::Retry,
        opens_invariants [ state::step_name(RwStep::Read) ]
    {
        let a = self.attempt_(Want::Read);
        self.reader_(a.by)
    }

    pub fn try_write(&mut self) -> (r: Result<WriterGuard<'a, C>, RwLockError>)
        ensures
            *final(self) == *old(self),
            tried::<C::Word>(old(self).lock().source(), Want::Write, r is Ok),
            r matches Ok(g) ==> g.lock() == old(self).lock() && g.place() is None,
            r matches Err(e) ==> e == RwLockError::Retry,
        opens_invariants [
            state::step_name(RwStep::Write),
            state::step_name(RwStep::QueueWriter),
        ]
    {
        let a = self.attempt_(Want::Write);
        self.writer_(a.by)
    }

    pub fn try_upgradable_read(&mut self) -> (r: Result<UpgradableReaderGuard<'a, C>, RwLockError>)
        ensures
            *final(self) == *old(self),
            tried::<C::Word>(old(self).lock().source(), Want::UpgradableRead, r is Ok),
            r matches Ok(g) ==> g.lock() == old(self).lock() && g.place() is Own,
            r matches Err(e) ==> e == RwLockError::Retry,
        opens_invariants [ state::step_name(RwStep::UpgradableRead) ]
    {
        let a = self.attempt_(Want::UpgradableRead);
        self.upgradable_(a.by)
    }

    /// Tries to come in, in at most `turns` turns. The token is asked after
    /// every turn that does not let the task in. The error is
    /// [`RwLockError::Retry`] where the turns have run out.
    pub fn may_break_with_impl_<K: TrCancellationToken>(
        &self,
        want: Want,
        cancel: &K,
        turns: usize,
    ) -> (r: Result<Attempt<C::Word, RwStep>, RwLockError>)
        ensures
            waited::<C::Word>(
                self.lock().source(),
                want,
                cancel.verdict(),
                turns,
                outcome(r),
            ),
            r matches Ok(a) ==> a.swapped() && cell::attempt_on(
                a,
                self.lock().source(),
                want.step(),
            ),
        opens_invariants [
            cell::name_if(turns > 0, state::step_name(want.step())),
            cell::name_if(turns > 0, state::step_name(want.queue_step())),
        ]
    {
        let ghost source = self.lock().source();
        let ghost mut tries: Seq<EntryTry<C::Word>> = Seq::empty();
        let mut left: usize = turns;
        while left > 0
            invariant
                left <= turns,
                source == self.lock().source(),
                tries.len() == turns - left,
                refused(source, want, tries),
                left < turns ==> cancel.verdict() != Some(true),
            decreases left,
        {
            left = left - 1;
            let a = self.attempt_(want);
            if a.by.is_succ() {
                assert(a.holds(want));
                return Ok(a.by);
            }
            proof {
                tries = tries.push(a);
            }
            assert(refused(source, want, tries));
            if cancel.is_cancelled() {
                return Err(RwLockError::Cancelled);
            }
        }
        Err(RwLockError::Retry)
    }

    /// A reader that comes in when it can.
    pub fn read(&mut self) -> (r: MayBreakRead<'a, C>)
        ensures
            *final(self) == *old(self),
            r.lock() == old(self).lock(),
        opens_invariants none
    {
        MayBreakRead { lock_: self.lock_ }
    }

    /// A writer that comes in when it can.
    pub fn write(&mut self) -> (r: MayBreakWrite<'a, C>)
        ensures
            *final(self) == *old(self),
            r.lock() == old(self).lock(),
        opens_invariants none
    {
        MayBreakWrite { lock_: self.lock_ }
    }

    /// An upgradable reader that comes in when it can.
    pub fn upgradable_read(&mut self) -> (r: MayBreakUpgradableRead<'a, C>)
        ensures
            *final(self) == *old(self),
            r.lock() == old(self).lock(),
        opens_invariants none
    {
        MayBreakUpgradableRead { lock_: self.lock_ }
    }
}

/// A reader that waits to come in.
pub struct MayBreakRead<'a, C: WordCell> {
    lock_: &'a SpinningRwLock<C>,
}

impl<'a, C: WordCell> MayBreakRead<'a, C> {
    pub closed spec fn lock(self) -> &'a SpinningRwLock<C> {
        self.lock_
    }

    /// Tries to come in, in at most `turns` turns, until the token is
    /// cancelled.
    pub fn may_break_with<K: TrCancellationToken>(self, cancel: &K, turns: usize) -> (r: Result<
        ReaderGuard<'a, C>,
        RwLockError,
    >)
        ensures
            waited::<C::Word>(
                self.lock().source(),
                Want::Read,
                cancel.verdict(),
                turns,
                outcome(r),
            ),
            r matches Ok(g) ==> g.lock() == self.lock() && g.counted(),
        opens_invariants [
            cell::name_if(turns > 0, state::step_name(RwStep::Read)),
        ]
    {
        let acq = AcqSession::new(self.lock_);
        match acq.may_break_with_impl_(Want::Read, cancel, turns) {
            Ok(a) => acq.reader_(a),
            Err(e) => Err(e),
        }
    }

    /// Tries to come in, in at most `turns` turns.
    pub fn wait(self, turns: usize) -> (r: Result<ReaderGuard<'a, C>, RwLockError>)
        ensures
            waited::<C::Word>(self.lock().source(), Want::Read, Some(false), turns, outcome(r)),
            r matches Ok(g) ==> g.lock() == self.lock() && g.counted(),
            r matches Err(e) ==> e == RwLockError::Retry,
        opens_invariants [
            cell::name_if(turns > 0, state::step_name(RwStep::Read)),
        ]
    {
        self.may_break_with(&NonCancellableToken, turns)
    }
}

/// A writer that waits to come in.
pub struct MayBreakWrite<'a, C: WordCell> {
    lock_: &'a SpinningRwLock<C>,
}

impl<'a, C: WordCell> MayBreakWrite<'a, C> {
    pub closed spec fn lock(self) -> &'a SpinningRwLock<C> {
        self.lock_
    }

    /// Tries to come in, in at most `turns` turns, until the token is
    /// cancelled.
    pub fn may_break_with<K: TrCancellationToken>(self, cancel: &K, turns: usize) -> (r: Result<
        WriterGuard<'a, C>,
        RwLockError,
    >)
        ensures
            waited::<C::Word>(
                self.lock().source(),
                Want::Write,
                cancel.verdict(),
                turns,
                outcome(r),
            ),
            r matches Ok(g) ==> g.lock() == self.lock() && g.place() is None,
        opens_invariants [
            cell::name_if(turns > 0, state::step_name(RwStep::Write)),
            cell::name_if(turns > 0, state::step_name(RwStep::QueueWriter)),
        ]
    {
        let acq = AcqSession::new(self.lock_);
        match acq.may_break_with_impl_(Want::Write, cancel, turns) {
            Ok(a) => acq.writer_(a),
            Err(e) => Err(e),
        }
    }

    /// Tries to come in, in at most `turns` turns.
    pub fn wait(self, turns: usize) -> (r: Result<WriterGuard<'a, C>, RwLockError>)
        ensures
            waited::<C::Word>(self.lock().source(), Want::Write, Some(false), turns, outcome(r)),
            r matches Ok(g) ==> g.lock() == self.lock() && g.place() is None,
            r matches Err(e) ==> e == RwLockError::Retry,
        opens_invariants [
            cell::name_if(turns > 0, state::step_name(RwStep::Write)),
            cell::name_if(turns > 0, state::step_name(RwStep::QueueWriter)),
        ]
    {
        self.may_break_with(&NonCancellableToken, turns)
    }
}

/// An upgradable reader that waits to come in.
pub struct MayBreakUpgradableRead<'a, C: WordCell> {
    lock_: &'a SpinningRwLock<C>,
}

impl<'a, C: WordCell> MayBreakUpgradableRead<'a, C> {
    pub closed spec fn lock(self) -> &'a SpinningRwLock<C> {
        self.lock_
    }

    /// Tries to come in, in at most `turns` turns, until the token is
    /// cancelled.
    pub fn may_break_with<K: TrCancellationToken>(self, cancel: &K, turns: usize) -> (r: Result<
        UpgradableReaderGuard<'a, C>,
        RwLockError,
    >)
        ensures
            waited::<C::Word>(
                self.lock().source(),
                Want::UpgradableRead,
                cancel.verdict(),
                turns,
                outcome(r),
            ),
            r matches Ok(g) ==> g.lock() == self.lock() && g.place() is Own,
        opens_invariants [
            cell::name_if(turns > 0, state::step_name(RwStep::UpgradableRead)),
        ]
    {
        let acq = AcqSession::new(self.lock_);
        match acq.may_break_with_impl_(Want::UpgradableRead, cancel, turns) {
            Ok(a) => acq.upgradable_(a),
            Err(e) => Err(e),
        }
    }

    /// Tries to come in, in at most `turns` turns.
    pub fn wait(self, turns: usize) -> (r: Result<UpgradableReaderGuard<'a, C>, RwLockError>)
        ensures
            waited::<C::Word>(self.lock().source(), Want::UpgradableRead, Some(false), turns, outcome(r)),
            r matches Ok(g) ==> g.lock() == self.lock() && g.place() is Own,
            r matches Err(e) ==> e == RwLockError::Retry,
        opens_invariants [
            cell::name_if(turns > 0, state::step_name(RwStep::UpgradableRead)),
        ]
    {
        self.may_break_with(&NonCancellableToken, turns)
    }
}

/// An upgradable reader that waits to become a writer.
pub struct MayBreakUpgrade<'a, C: WordCell> {
    lock_: &'a SpinningRwLock<C>,
}

impl<'a, C: WordCell> MayBreakUpgrade<'a, C> {
    pub closed spec fn lock(self) -> &'a SpinningRwLock<C> {
        self.lock_
    }

    /// Tries to come in, in at most `turns` turns, until the token is
    /// cancelled.
    pub fn may_break_with<K: TrCancellationToken>(self, cancel: &K, turns: usize) -> (r: Result<
        WriterGuard<'a, C>,
        RwLockError,
    >)
        ensures
            waited::<C::Word>(
                self.lock().source(),
                Want::Upgrade,
                cancel.verdict(),
                turns,
                outcome(r),
            ),
            r matches Ok(g) ==> g.lock() == self.lock() && g.place() == Some(Place::Lent),
        opens_invariants [
            cell::name_if(turns > 0, state::step_name(RwStep::Upgrade)),
        ]
    {
        let acq = AcqSession::new(self.lock_);
        match acq.may_break_with_impl_(Want::Upgrade, cancel, turns) {
            Ok(a) => acq.upgraded_(a),
            Err(e) => Err(e),
        }
    }

    /// Tries to come in, in at most `turns` turns.
    pub fn wait(self, turns: usize) -> (r: Result<WriterGuard<'a, C>, RwLockError>)
        ensures
            waited::<C::Word>(self.lock().source(), Want::Upgrade, Some(false), turns, outcome(r)),
            r matches Ok(g) ==> g.lock() == self.lock() && g.place() == Some(Place::Lent),
            r matches Err(e) ==> e == RwLockError::Retry,
        opens_invariants [
            cell::name_if(turns > 0, state::step_name(RwStep::Upgrade)),
        ]
    {
        self.may_break_with(&NonCancellableToken, turns)
    }
}

/// The right of a reader.
pub struct ReaderGuard<'a, C: WordCell> {
    lock_: &'a SpinningRwLock<C>,
    counted_: bool,
}

impl<'a, C: WordCell> ReaderGuard<'a, C> {
    pub closed spec fn lock(self) -> &'a SpinningRwLock<C> {
        self.lock_
    }

    /// Whether the reader is counted for itself. One that is not stands on the
    /// place of an [`Upgrade`].
    pub closed spec fn counted(self) -> bool {
        self.counted_
    }

    /// The reader leaves. One that stands on a place that it was lent leaves
    /// the word as it is.
    pub fn release(self) -> (r: Option<Attempt<C::Word, RwStep>>)
        ensures
            r is Some <==> self.counted(),
            r matches Some(a) ==> cell::attempt_on(a, self.lock().source(), RwStep::ReadDrop),
        opens_invariants [
            cell::name_if(self.counted(), state::step_name(RwStep::ReadDrop)),
        ]
    {
        if self.counted_ {
            Some(self.lock_.stat_.on_reader_guard_drop())
        } else {
            None
        }
    }
}

/// The right of a writer.
pub struct WriterGuard<'a, C: WordCell> {
    lock_: &'a SpinningRwLock<C>,
    place_: Option<Place>,
}

/// What a writer did that left.
pub struct WriterLeft<D> {
    /// The exchange by which it left.
    pub by: Attempt<D, RwStep>,
    /// The exchange by which it then gave back its own place as an upgradable
    /// reader.
    pub place: Option<Attempt<D, RwStep>>,
}

/// A guard that was to become another: the new one, and the exchange by which
/// it came about. Where the word did not admit the exchange, nobody holds what
/// the guard stood for.
pub struct Turned<G, D> {
    pub guard: Option<G>,
    pub by: Attempt<D, RwStep>,
    /// The exchange by which a writer then gave back its own place as an
    /// upgradable reader, where the new guard does not stand on it.
    pub place: Option<Attempt<D, RwStep>>,
}

impl<'a, C: WordCell> WriterGuard<'a, C> {
    pub closed spec fn lock(self) -> &'a SpinningRwLock<C> {
        self.lock_
    }

    /// The place as an upgradable reader that the writer stands on, if it was
    /// one.
    pub closed spec fn place(self) -> Option<Place> {
        self.place_
    }

    /// The writer leaves, and gives back the place as an upgradable reader if
    /// that is its own.
    pub fn release(self) -> (r: WriterLeft<C::Word>)
        ensures
            cell::attempt_on(r.by, self.lock().source(), RwStep::WriteDrop),
            r.place is Some <==> self.place() == Some(Place::Own),
            r.place matches Some(a) ==> cell::attempt_on(
                a,
                self.lock().source(),
                RwStep::UpgradableDrop,
            ),
        opens_invariants [
            state::step_name(RwStep::WriteDrop),
            cell::name_if(
                self.place() == Some(Place::Own),
                state::step_name(RwStep::UpgradableDrop),
            ),
        ]
    {
        let by = self.lock_.stat_.on_writer_guard_drop();
        let place = match self.place_ {
            Some(Place::Own) => Some(self.lock_.stat_.on_upgradable_read_drop()),
            _ => None,
        };
        WriterLeft { by, place }
    }

    /// The writer becomes a reader, and gives back the place as an upgradable
    /// reader if that is its own.
    pub fn downgrade_to_reader(self) -> (r: Turned<ReaderGuard<'a, C>, C::Word>)
        ensures
            cell::attempt_on(r.by, self.lock().source(), RwStep::WriteToRead),
            r.guard is Some <==> r.by.swapped(),
            r.guard matches Some(g) ==> g.lock() == self.lock() && g.counted(),
            r.place is Some <==> r.by.swapped() && self.place() == Some(Place::Own),
            r.place matches Some(a) ==> cell::attempt_on(
                a,
                self.lock().source(),
                RwStep::UpgradableDrop,
            ),
        opens_invariants [
            state::step_name(RwStep::WriteToRead),
            cell::name_if(
                self.place() == Some(Place::Own),
                state::step_name(RwStep::UpgradableDrop),
            ),
        ]
    {
        let by = self.lock_.stat_.try_downgrade_write_to_read();
        if by.is_succ() {
            let guard = Some(ReaderGuard { lock_: self.lock_, counted_: true });
            let place = match self.place_ {
                Some(Place::Own) => Some(self.lock_.stat_.on_upgradable_read_drop()),
                _ => None,
            };
            Turned { guard, by, place }
        } else {
            Turned { guard: None, by, place: None }
        }
    }

    /// The writer becomes an upgradable reader, on the place that it stands on
    /// if it has one.
    pub fn downgrade_to_upgradable(self) -> (r: Turned<UpgradableReaderGuard<'a, C>, C::Word>)
        ensures
            cell::attempt_on(r.by, self.lock().source(), RwStep::WriteToUpgradable),
            r.guard is Some <==> r.by.swapped(),
            r.guard matches Some(g) ==> g.lock() == self.lock() && g.place() == (
            match self.place() {
                Some(p) => p,
                None => Place::Own,
            }),
            r.place is None,
        opens_invariants [ state::step_name(RwStep::WriteToUpgradable) ]
    {
        let by = self.lock_.stat_.try_downgrade_write_to_upgradable();
        let place = match self.place_ {
            Some(p) => p,
            None => Place::Own,
        };
        let guard = if by.is_succ() {
            Some(UpgradableReaderGuard { lock_: self.lock_, place_: place })
        } else {
            None
        };
        Turned { guard, by, place: None }
    }
}

/// The right of an upgradable reader.
pub struct UpgradableReaderGuard<'a, C: WordCell> {
    lock_: &'a SpinningRwLock<C>,
    place_: Place,
}

/// What became of an upgradable reader that was to become a reader.
pub struct ReaderTurn<'a, C: WordCell> {
    pub guard: Option<ReaderGuard<'a, C>>,
    /// The exchange by which it became one. There is none on a place that it
    /// was lent.
    pub by: Option<Attempt<C::Word, RwStep>>,
}

/// What became of an upgradable reader that tried to become a writer for good.
pub struct UpgradeTry<'a, C: WordCell> {
    /// The guard of the writer, or that of the upgradable reader as it was.
    pub guard: Result<WriterGuard<'a, C>, UpgradableReaderGuard<'a, C>>,
    /// The exchange by which it becomes a writer.
    pub upgrade: Attempt<C::Word, RwStep>,
}

impl<'a, C: WordCell> UpgradableReaderGuard<'a, C> {
    pub closed spec fn lock(self) -> &'a SpinningRwLock<C> {
        self.lock_
    }

    /// Whose place the upgradable reader stands on.
    pub closed spec fn place(self) -> Place {
        self.place_
    }

    /// The upgradable reader leaves, and gives back the place if that is its
    /// own.
    pub fn release(self) -> (r: Option<Attempt<C::Word, RwStep>>)
        ensures
            r is Some <==> self.place() is Own,
            r matches Some(a) ==> cell::attempt_on(
                a,
                self.lock().source(),
                RwStep::UpgradableDrop,
            ),
        opens_invariants [
            cell::name_if(self.place() is Own, state::step_name(RwStep::UpgradableDrop)),
        ]
    {
        match self.place_ {
            Place::Own => Some(self.lock_.stat_.on_upgradable_read_drop()),
            Place::Lent => None,
        }
    }

    /// The upgradable reader becomes a reader. On a place that it was lent it
    /// stays there, and the place stays that of an upgradable reader.
    pub fn downgrade(self) -> (r: ReaderTurn<'a, C>)
        ensures
            r.by is Some <==> self.place() is Own,
            r.by matches Some(a) ==> cell::attempt_on(
                a,
                self.lock().source(),
                RwStep::UpgradableToRead,
            ),
            r.guard is None <==> (r.by matches Some(a) && !a.swapped()),
            r.guard matches Some(g) ==> g.lock() == self.lock() && g.counted() == (
            self.place() is Own),
        opens_invariants [
            cell::name_if(self.place() is Own, state::step_name(RwStep::UpgradableToRead)),
        ]
    {
        match self.place_ {
            Place::Own => {
                let by = self.lock_.stat_.try_downgrade_upgradable_to_read();
                let guard = if by.is_succ() {
                    Some(ReaderGuard { lock_: self.lock_, counted_: true })
                } else {
                    None
                };
                ReaderTurn { guard, by: Some(by) }
            },
            Place::Lent => {
                let guard = Some(ReaderGuard { lock_: self.lock_, counted_: false });
                ReaderTurn { guard, by: None }
            },
        }
    }

    /// The upgradable reader tries to become a writer. The writer stands on the
    /// place of the upgradable reader, which stays counted until it leaves.
    pub fn try_upgrade(self) -> (r: UpgradeTry<'a, C>)
        ensures
            cell::attempt_on(r.upgrade, self.lock().source(), RwStep::Upgrade),
            r.guard is Ok <==> r.upgrade.swapped(),
            r.guard matches Ok(g) ==> g.lock() == self.lock() && g.place() == Some(self.place()),
            r.guard matches Err(g) ==> g == self,
        opens_invariants [ state::step_name(RwStep::Upgrade) ]
    {
        let upgrade = self.lock_.stat_.try_upgrade_upgradable_to_write();
        let guard = if upgrade.is_succ() {
            Ok(WriterGuard { lock_: self.lock_, place_: Some(self.place_) })
        } else {
            Err(self)
        };
        UpgradeTry { guard, upgrade }
    }

    /// The upgradable reader as one that will become a writer for a while.
    pub fn upgrade(self) -> (r: Upgrade<'a, C>)
        ensures
            r.guard() == self,
        opens_invariants none
    {
        Upgrade { guard_: self }
    }
}

/// An upgradable reader that becomes a writer for a while, and keeps its place
/// as an upgradable reader. The writer, and what it is downgraded to, stand on
/// that place.
pub struct Upgrade<'a, C: WordCell> {
    guard_: UpgradableReaderGuard<'a, C>,
}

impl<'a, C: WordCell> Upgrade<'a, C> {
    pub closed spec fn guard(self) -> UpgradableReaderGuard<'a, C> {
        self.guard_
    }

    pub fn new(guard: UpgradableReaderGuard<'a, C>) -> (r: Self)
        ensures
            r.guard() == guard,
        opens_invariants none
    {
        Upgrade { guard_: guard }
    }

    pub fn into_guard(self) -> (r: UpgradableReaderGuard<'a, C>)
        ensures
            r == self.guard(),
        opens_invariants none
    {
        self.guard_
    }

    pub fn try_upgrade<'u>(&'u mut self) -> (r: Result<WriterGuard<'u, C>, RwLockError>)
        ensures
            *final(self) == *old(self),
            tried::<C::Word>(old(self).guard().lock().source(), Want::Upgrade, r is Ok),
            r matches Ok(g) ==> g.lock() == old(self).guard().lock() && g.place() == Some(
                Place::Lent,
            ),
            r matches Err(e) ==> e == RwLockError::Retry,
        opens_invariants [ state::step_name(RwStep::Upgrade) ]
    {
        let acq = AcqSession::new(self.guard_.lock_);
        let a = acq.attempt_(Want::Upgrade);
        acq.upgraded_(a.by)
    }

    /// The upgradable reader as one that becomes a writer when it can.
    pub fn upgrade<'u>(&'u mut self) -> (r: MayBreakUpgrade<'u, C>)
        ensures
            *final(self) == *old(self),
            r.lock() == old(self).guard().lock(),
        opens_invariants none
    {
        MayBreakUpgrade { lock_: self.guard_.lock_ }
    }

    /// Becomes a writer, in at most `turns` turns, until the token is cancelled.
    pub fn upgrade_with_cancel<'u, K: TrCancellationToken>(
        &'u mut self,
        cancel: &K,
        turns: usize,
    ) -> (r: Result<WriterGuard<'u, C>, RwLockError>)
        ensures
            *final(self) == *old(self),
            waited::<C::Word>(
                old(self).guard().lock().source(),
                Want::Upgrade,
                cancel.verdict(),
                turns,
                outcome(r),
            ),
            r matches Ok(g) ==> g.lock() == old(self).guard().lock() && g.place() == Some(
                Place::Lent,
            ),
        opens_invariants [
            cell::name_if(turns > 0, state::step_name(RwStep::Upgrade)),
        ]
    {
        self.upgrade().may_break_with(cancel, turns)
    }
}

} // verus!
