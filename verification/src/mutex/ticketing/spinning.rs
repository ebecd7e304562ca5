//! The ticket lock.
//!
//! The lock has no data of its own. A [`MutexGuard`] stands for the right to
//! what the lock protects, and is given back by [`MutexGuard::release`].

use vstd::prelude::*;

use crate::cancel::{CancelledToken, NonCancellableToken, TrCancellationToken};
use crate::cell;
use crate::cell::{Loaded, Source, WordCell};
use crate::mutex::ticketing::state;
use crate::mutex::ticketing::state::{MutexState, NoTicket, TicketMove};
use crate::mutex::ticketing::wait;
use crate::mutex::ticketing::wait::{AcqSt, TicketCtx, WaitEnd, WaitState};
use crate::word::StateWord;

verus! {

/// A spinlock for fairness. Tasks are served in the order of the numbers that
/// they drew.
pub struct SpinningMutex<C: WordCell> {
    state_: MutexState<C>,
}

/// How far a task has come that acquires the lock.
#[derive(Clone, Copy, Debug)]
pub enum Acquiring<D> {
    /// It is to draw a number from this word on.
    Drawing(D),
    /// It waits for its number to be served.
    Waiting(WaitState<D>),
}

impl<D: StateWord> Acquiring<D> {
    /// Whether the task still acquires the lock, with a number that can be
    /// drawn if it has one.
    pub open spec fn wf(self) -> bool {
        self matches Acquiring::Waiting(w) ==> w.wf() && w.waiting()
    }

    /// Whether the task has not begun to give up.
    pub open spec fn staying(self) -> bool {
        self matches Acquiring::Waiting(w) ==> w.staying()
    }
}

/// Why a task did not get the lock.
#[derive(Clone, Copy, Debug)]
pub enum NoGuard<D> {
    /// The token was cancelled.
    Cancelled,
    /// The number served has gone past the number of the task.
    Overrun,
    /// The turns have run out. The task can go on from where it is.
    Pending(Acquiring<D>),
}

/// The right to what the lock protects.
pub struct MutexGuard<'a, C: WordCell> {
    mutex_: &'a SpinningMutex<C>,
    ticket_: C::Word,
}

impl<'a, C: WordCell> MutexGuard<'a, C> {
    pub closed spec fn mutex(self) -> &'a SpinningMutex<C> {
        self.mutex_
    }

    /// The number that the lock is held with.
    pub closed spec fn ticket(self) -> C::Word {
        self.ticket_
    }

    pub fn ticket_number(&self) -> (r: C::Word)
        ensures
            r == self.ticket(),
        opens_invariants none
    {
        self.ticket_
    }

    /// Gives the lock back: `Ok` with the word that was exchanged, `Err` with
    /// the word that shows the lock not to be held with this number.
    pub fn release(self) -> (r: Result<C::Word, C::Word>)
        ensures
            state::released(self.mutex().source(), self.ticket(), r),
        opens_invariants [ state::move_name(TicketMove::Release(self.ticket().val())) ]
    {
        self.mutex_.state_.try_release(self.ticket_)
    }
}

impl<C: WordCell> SpinningMutex<C> {
    /// The state of the lock.
    pub closed spec fn state(self) -> MutexState<C> {
        self.state_
    }

    /// The atomic that holds the state word.
    pub open spec fn source(self) -> Source {
        self.state().cell().source()
    }

    /// A lock over `cell`, whose word must be zero.
    pub fn new(cell: C) -> (r: Self)
        ensures
            r.state().cell() == cell,
        opens_invariants none
    {
        SpinningMutex { state_: MutexState::new(cell) }
    }

    /// Tests if the lock is acquired.
    pub fn is_acquired(&self) -> (r: bool)
        ensures
            exists|l: Loaded<C::Word>| #[trigger]
                l.source() == self.source() && r == (state::ticket_view(l.seen())
                    != state::TicketFields::free()),
        opens_invariants none
    {
        self.state_.is_acquired()
    }

    /// A task that begins to acquire the lock.
    pub fn acquire(&self) -> (r: AcquireTask<'_, C>)
        ensures
            r.mutex() == self,
            r.at() matches Acquiring::Drawing(v) && v.val() == 0,
            r.wf(),
            r.at().staying(),
        opens_invariants none
    {
        AcquireTask { mutex_: self, at_: Acquiring::Drawing(C::Word::zero()) }
    }

    /// Goes on acquiring the lock, in at most `turns` turns for drawing a number
    /// and as many for waiting.
    pub fn spin_acquire_with_cancel<K: TrCancellationToken>(
        &self,
        cancel: &K,
        from: Acquiring<C::Word>,
        turns: usize,
    ) -> (r: Result<MutexGuard<'_, C>, NoGuard<C::Word>>)
        requires
            from.wf(),
        ensures
            r matches Ok(g) ==> g.mutex() == self && g.ticket().val() <= state::half_max(
                C::Word::bits(),
            ),
            acquires(self.source(), from, cancel.verdict(), turns, ticket_of(r)),
            cancel.verdict() == Some(false) && from.staying() ==> !(r matches Err(
                NoGuard::Cancelled,
            )),
            r matches Err(NoGuard::Pending(p)) ==> p.wf(),
            cancel.verdict() == Some(false) && from.staying() ==> (r matches Err(
                NoGuard::Pending(p),
            ) ==> p.staying()),
        opens_invariants [
            cell::no_step(),
            cell::name_if(from is Drawing && turns > 0, state::move_name(TicketMove::GetTicket)),
            cell::name_if(turns > 0, state::move_name(TicketMove::ServeFirst)),
            cell::name_if(
                turns > 0 && !(cancel.verdict() == Some(false) && from.staying()),
                state::move_name(TicketMove::GiveUp(0)),
            ),
            cell::name_if(turns > 0, state::move_name(TicketMove::MoveUp(0))),
            cell::name_if(
                turns > 0 && cancel.verdict() != Some(true),
                state::move_name(TicketMove::ReportOff),
            ),
            cell::name_if(
                turns > 0 && cancel.verdict() != Some(false),
                state::move_name(TicketMove::SkipReportOff(0)),
            ),
        ]
    {
        let w = match from {
            Acquiring::Drawing(v) => match self.state_.spin_get_ticket(cancel, v, turns) {
                Ok(ticket) => {
                    let x = TicketCtx::new(&self.state_, cancel, ticket);
                    x.start()
                },
                Err(NoTicket::Cancelled) => {
                    return Err(NoGuard::Cancelled);
                },
                Err(NoTicket::Pending(v)) => {
                    return Err(NoGuard::Pending(Acquiring::Drawing(v)));
                },
            },
            Acquiring::Waiting(w) => w,
        };
        let x = TicketCtx::new(&self.state_, cancel, w.m);
        match x.spin_wait(w, turns) {
            Ok(ticket) => Ok(MutexGuard { mutex_: self, ticket_: ticket }),
            Err(WaitEnd::Cancelled) => Err(NoGuard::Cancelled),
            Err(WaitEnd::Overrun) => Err(NoGuard::Overrun),
            Err(WaitEnd::Pending(u)) => Err(NoGuard::Pending(Acquiring::Waiting(u))),
        }
    }

    /// Attempts to acquire the lock without waiting behind another task: where
    /// the lock is acquired there is no guard, and otherwise the task acquires
    /// the lock as one that is to give up at once.
    pub fn try_acquire(&self, turns: usize) -> (r: Result<MutexGuard<'_, C>, NoGuard<C::Word>>)
        ensures
            r matches Ok(g) ==> g.mutex() == self && g.ticket().val() <= state::half_max(
                C::Word::bits(),
            ),
            r matches Err(NoGuard::Pending(p)) ==> p.wf() && (turns > 0 ==> p is Waiting),
            exists|l: Loaded<C::Word>| #[trigger]
                l.source() == self.source() && (if state::ticket_view(l.seen())
                    != state::TicketFields::free() {
                    ticket_of(r) == Err::<C::Word, NoGuard<C::Word>>(NoGuard::Cancelled)
                } else {
                    acquires(
                        self.source(),
                        Acquiring::Drawing(C::Word::of(0)),
                        Some(true),
                        turns,
                        ticket_of(r),
                    )
                }),
        opens_invariants [
            cell::no_step(),
            cell::name_if(turns > 0, state::move_name(TicketMove::GetTicket)),
            cell::name_if(turns > 0, state::move_name(TicketMove::ServeFirst)),
            cell::name_if(turns > 0, state::move_name(TicketMove::GiveUp(0))),
            cell::name_if(turns > 0, state::move_name(TicketMove::MoveUp(0))),
            cell::name_if(turns > 0, state::move_name(TicketMove::SkipReportOff(0))),
        ]
    {
        if self.is_acquired() {
            Err(NoGuard::Cancelled)
        } else {
            let from = self.acquire().at_;
            proof {
                from->Drawing_0.lemma_word();
            }
            self.spin_acquire_with_cancel(&CancelledToken, from, turns)
        }
    }
}

/// A task that acquires the lock.
pub struct AcquireTask<'a, C: WordCell> {
    mutex_: &'a SpinningMutex<C>,
    at_: Acquiring<C::Word>,
}

/// Why a task has no guard.
pub enum NotAcquired<'a, C: WordCell> {
    /// The token was cancelled.
    Cancelled,
    /// The number served has gone past the number of the task.
    Overrun,
    /// The turns have run out. The task can go on from where it is.
    Pending(AcquireTask<'a, C>),
}

impl<'a, C: WordCell> AcquireTask<'a, C> {
    pub closed spec fn mutex(self) -> &'a SpinningMutex<C> {
        self.mutex_
    }

    /// How far the task has come.
    pub closed spec fn at(self) -> Acquiring<C::Word> {
        self.at_
    }

    /// Whether the task still acquires the lock.
    pub open spec fn wf(self) -> bool {
        self.at().wf()
    }

    /// How far the task has come.
    pub fn progress(&self) -> (r: Acquiring<C::Word>)
        ensures
            r == self.at(),
        opens_invariants none
    {
        self.at_
    }

    /// Tries to acquire the lock, in at most `turns` turns for drawing a number
    /// and as many for waiting, until the token is cancelled.
    pub fn may_cancel_with<K: TrCancellationToken>(self, cancel: &K, turns: usize) -> (r: Result<
        MutexGuard<'a, C>,
        NotAcquired<'a, C>,
    >)
        requires
            self.wf(),
        ensures
            r matches Ok(g) ==> g.mutex() == self.mutex() && g.ticket().val() <= state::half_max(
                C::Word::bits(),
            ),
            acquires(
                self.mutex().source(),
                self.at(),
                cancel.verdict(),
                turns,
                ticket_of_task(r),
            ),
            cancel.verdict() == Some(false) && self.at().staying() ==> !(r matches Err(
                NotAcquired::Cancelled,
            )),
            r matches Err(NotAcquired::Pending(t)) ==> t.mutex() == self.mutex() && t.wf(),
            cancel.verdict() == Some(false) && self.at().staying() ==> (r matches Err(
                NotAcquired::Pending(t),
            ) ==> t.at().staying()),
        opens_invariants [
            cell::no_step(),
            cell::name_if(
                self.at() is Drawing && turns > 0,
                state::move_name(TicketMove::GetTicket),
            ),
            cell::name_if(turns > 0, state::move_name(TicketMove::ServeFirst)),
            cell::name_if(
                turns > 0 && !(cancel.verdict() == Some(false) && self.at().staying()),
                state::move_name(TicketMove::GiveUp(0)),
            ),
            cell::name_if(turns > 0, state::move_name(TicketMove::MoveUp(0))),
            cell::name_if(
                turns > 0 && cancel.verdict() != Some(true),
                state::move_name(TicketMove::ReportOff),
            ),
            cell::name_if(
                turns > 0 && cancel.verdict() != Some(false),
                state::move_name(TicketMove::SkipReportOff(0)),
            ),
        ]
    {
        match self.mutex_.spin_acquire_with_cancel(cancel, self.at_, turns) {
            Ok(g) => Ok(g),
            Err(NoGuard::Cancelled) => Err(NotAcquired::Cancelled),
            Err(NoGuard::Overrun) => Err(NotAcquired::Overrun),
            Err(NoGuard::Pending(at)) => Err(
                NotAcquired::Pending(AcquireTask { mutex_: self.mutex_, at_: at }),
            ),
        }
    }

    /// Tries to acquire the lock, in at most as many turns.
    pub fn wait(self, turns: usize) -> (r: Result<MutexGuard<'a, C>, NotAcquired<'a, C>>)
        requires
            self.wf(),
            self.at().staying(),
        ensures
            r matches Ok(g) ==> g.mutex() == self.mutex() && g.ticket().val() <= state::half_max(
                C::Word::bits(),
            ),
            acquires(self.mutex().source(), self.at(), Some(false), turns, ticket_of_task(r)),
            !(r matches Err(NotAcquired::Cancelled)),
            r matches Err(NotAcquired::Pending(t)) ==> t.mutex() == self.mutex() && t.wf()
                && t.at().staying(),
        opens_invariants [
            cell::no_step(),
            cell::name_if(
                self.at() is Drawing && turns > 0,
                state::move_name(TicketMove::GetTicket),
            ),
            cell::name_if(turns > 0, state::move_name(TicketMove::ServeFirst)),
            cell::name_if(turns > 0, state::move_name(TicketMove::MoveUp(0))),
            cell::name_if(turns > 0, state::move_name(TicketMove::ReportOff)),
        ]
    {
        self.may_cancel_with(&NonCancellableToken, turns)
    }
}

/// The number that the lock was acquired with, or why it was not.
pub open spec fn ticket_of<C: WordCell>(r: Result<MutexGuard<'_, C>, NoGuard<C::Word>>) -> Result<
    C::Word,
    NoGuard<C::Word>,
> {
    match r {
        Ok(g) => Ok(g.ticket()),
        Err(e) => Err(e),
    }
}

/// The same of a task.
pub open spec fn ticket_of_task<C: WordCell>(
    r: Result<MutexGuard<'_, C>, NotAcquired<'_, C>>,
) -> Result<C::Word, NoGuard<C::Word>> {
    match r {
        Ok(g) => Ok(g.ticket()),
        Err(NotAcquired::Cancelled) => Err(NoGuard::Cancelled),
        Err(NotAcquired::Overrun) => Err(NoGuard::Overrun),
        Err(NotAcquired::Pending(t)) => Err(NoGuard::Pending(t.at())),
    }
}

/// What a task comes to that waited and came to `r`.
pub open spec fn after_wait<D: StateWord>(r: Result<D, WaitEnd<D>>) -> Result<D, NoGuard<D>> {
    match r {
        Ok(n) => Ok(n),
        Err(WaitEnd::Cancelled) => Err(NoGuard::Cancelled),
        Err(WaitEnd::Overrun) => Err(NoGuard::Overrun),
        Err(WaitEnd::Pending(u)) => Err(NoGuard::Pending(Acquiring::Waiting(u))),
    }
}

/// Whether a task that waits as `w` can come to `r`.
pub open spec fn acquires_waiting<D: StateWord>(
    source: Source,
    w: WaitState<D>,
    verdict: Option<bool>,
    turns: usize,
    r: Result<D, NoGuard<D>>,
) -> bool {
    exists|x: Result<D, WaitEnd<D>>| #[trigger]
        wait::waited(source, w, verdict, turns, x) && r == after_wait(x)
}

/// Whether a task that has come as far as `from` can come to `r`, in at most
/// `turns` turns for drawing a number and as many for waiting: it draws a
/// number unless it has one, and then waits for it to be served.
pub open spec fn acquires<D: StateWord>(
    source: Source,
    from: Acquiring<D>,
    verdict: Option<bool>,
    turns: usize,
    r: Result<D, NoGuard<D>>,
) -> bool {
    match from {
        Acquiring::Waiting(w) => acquires_waiting(source, w, verdict, turns, r),
        Acquiring::Drawing(v) => exists|x: Result<D, NoTicket<D>>| #[trigger]
            state::drew(source, v, verdict, turns, x) && match x {
                Ok(n) => acquires_waiting(
                    source,
                    WaitState::entered(AcqSt::TicketStandby, n),
                    verdict,
                    turns,
                    r,
                ),
                Err(NoTicket::Cancelled) => r == Err::<D, NoGuard<D>>(NoGuard::Cancelled),
                Err(NoTicket::Pending(u)) => r == Err::<D, NoGuard<D>>(
                    NoGuard::Pending(Acquiring::Drawing(u)),
                ),
            },
    }
}

} // verus!
