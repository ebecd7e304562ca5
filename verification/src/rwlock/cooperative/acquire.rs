//! A task that acquires a cooperative lock, from poll to poll.

use core::task::Waker;

use vstd::prelude::*;

use crate::cell;
use crate::cell::{Attempt, Source, WordCell};
use crate::rwlock::cooperative::error::CoopRwLockError;
use crate::rwlock::cooperative::queue;
use crate::rwlock::cooperative::queue::{QueuePayload, QueueView};
use crate::rwlock::cooperative::rwcore;
use crate::rwlock::cooperative::rwcore::{AcqProgress, Acquire, GiveUp, Retry, RwCore};
use crate::rwlock::cooperative::state;
use crate::rwlock::cooperative::state::CoopStep;
use crate::rwlock::cooperative::wait::WaitKind;
use crate::word::StateWord;

verus! {

/// A task that acquires the lock.
#[derive(Clone, Copy, Debug, PartialEq, Eq)]
pub struct AcquireInner {
    /// How it wants to hold the lock.
    pub kind_: WaitKind,
    /// Whether it still acquires the lock: it has neither come in nor given up.
    pub live_: bool,
    /// The node and the place that it waits at, if it does.
    pub pending_: Option<(u64, usize)>,
}

/// What was done in the queue for a task that was polled.
pub enum Queued<D> {
    /// It came into the queue.
    Entered(Acquire<D>),
    /// It had been in the queue before.
    Retried(Retry<D>),
}

impl<D: StateWord> Queued<D> {
    /// Whether the task came in.
    pub open spec fn came_in(self) -> bool {
        match self {
            Queued::Entered(a) => a.progress is Acquired,
            Queued::Retried(t) => t.claim.claimed,
        }
    }

    /// Those who have been admitted, to be woken once the queue is unlocked.
    pub open spec fn admitted(self) -> Seq<Waker> {
        match self {
            Queued::Entered(a) => a.pass.wakers@,
            Queued::Retried(t) => t.pass.wakers@,
        }
    }

    /// The exchange by which the task came in, if it did.
    pub open spec fn exchange(self) -> Option<Attempt<D, CoopStep>> {
        if self.came_in() {
            match self {
                Queued::Entered(a) => a.claim.tried,
                Queued::Retried(t) => t.claim.tried,
            }
        } else {
            None
        }
    }

    /// Whether the state word was the one in the atomic `source`.
    pub open spec fn on(self, source: Source) -> bool {
        match self {
            Queued::Entered(a) => a.on(source),
            Queued::Retried(t) => t.on(source),
        }
    }

    pub fn into_wakers(self) -> (r: Vec<Waker>)
        ensures
            r@ == self.admitted(),
    {
        match self {
            Queued::Entered(a) => a.pass.wakers,
            Queued::Retried(t) => t.pass.wakers,
        }
    }
}

/// What was done for a task that was polled.
pub struct Polled<D> {
    /// Whether the task came in.
    pub ready: bool,
    /// The exchange by which it comes in without waiting, if it did not wait
    /// before.
    pub fast: Option<Attempt<D, CoopStep>>,
    /// What was done in the queue, if it did not come in like that.
    pub queued: Option<Queued<D>>,
}

impl<D: StateWord> Polled<D> {
    /// The exchange by which the task came in, if it did.
    pub open spec fn exchange(self) -> Option<Attempt<D, CoopStep>> {
        if self.ready {
            match self.queued {
                None => self.fast,
                Some(t) => t.exchange(),
            }
        } else {
            None
        }
    }

    /// The exchange by which the task came in, if it did.
    pub fn came_by(&self) -> (r: Option<&Attempt<D, CoopStep>>)
        ensures
            r is Some <==> self.exchange() is Some,
            r matches Some(a) ==> self.exchange() == Some(*a),
    {
        if !self.ready {
            return None;
        }
        match &self.queued {
            None => self.fast.as_ref(),
            Some(Queued::Entered(a)) => match &a.progress {
                AcqProgress::Acquired => a.claim.tried.as_ref(),
                AcqProgress::Waiting { .. } => None,
            },
            Some(Queued::Retried(t)) => if t.claim.claimed {
                t.claim.tried.as_ref()
            } else {
                None
            },
        }
    }

    /// Those who have been admitted, to be woken once the queue is unlocked.
    pub open spec fn admitted(self) -> Seq<Waker> {
        match self.queued {
            None => Seq::empty(),
            Some(t) => t.admitted(),
        }
    }

    /// The exchange by which the task came in, if it did, and those who have
    /// been admitted.
    pub fn into_parts(self) -> (r: (Option<Attempt<D, CoopStep>>, Vec<Waker>))
        ensures
            r.0 == self.exchange(),
            r.1@ == self.admitted(),
    {
        let ready = self.ready;
        let (tried, wakers) = match self.queued {
            None => (self.fast, Vec::new()),
            Some(Queued::Entered(a)) => {
                let tried = match a.progress {
                    AcqProgress::Acquired => a.claim.tried,
                    AcqProgress::Waiting { .. } => None,
                };
                (tried, a.pass.wakers)
            },
            Some(Queued::Retried(t)) => {
                let tried = if t.claim.claimed {
                    t.claim.tried
                } else {
                    None
                };
                (tried, t.pass.wakers)
            },
        };
        if ready {
            (tried, wakers)
        } else {
            (None, wakers)
        }
    }
}

impl AcquireInner {
    /// A task that begins to acquire the lock.
    pub open spec fn fresh(kind: WaitKind) -> AcquireInner {
        AcquireInner { kind_: kind, live_: true, pending_: None }
    }

    /// A task that has come in or given up.
    pub open spec fn done(self) -> AcquireInner {
        AcquireInner { live_: false, pending_: None, ..self }
    }

    /// The node that the task waits in.
    pub open spec fn node(self) -> u64 {
        match self.pending_ {
            Some((node, _)) => node,
            None => 0,
        }
    }

    /// The place in the node that the task waits at.
    pub open spec fn slot(self) -> int {
        match self.pending_ {
            Some((_, slot)) => slot as int,
            None => 0,
        }
    }

    /// Whether the task waits at this place.
    pub open spec fn waits_at(self, id: u64, slot: int) -> bool {
        self.pending_ is Some && id == self.node() && slot == self.slot()
    }

    /// Whether, in going from the queue `q` to `after`, the task gave its place
    /// for that of `next` and nobody else came by one: of the places kept after
    /// that, the task has the one that it waits at, and no other.
    pub open spec fn moves_alone(self, next: AcquireInner, q: QueueView, after: QueueView) -> bool {
        forall|id: u64, slot: int| #[trigger]
            after.keeps(id, slot) ==> next.waits_at(id, slot) || (q.keeps(id, slot)
                && !self.waits_at(id, slot))
    }

    /// Whether the task still acquires the lock, and keeps the place in the
    /// queue that it waits at, as one that wants to hold the lock like this.
    pub open spec fn placed(self, q: QueueView) -> bool {
        self.live_ && (self.pending_ is Some ==> q.keeps(self.node(), self.slot()) && q.kind_of(
            self.node(),
            self.slot(),
        ) == self.kind_)
    }

    /// Whether `t` is what the queue did about the task, in going from `q` to
    /// `after`.
    pub open spec fn queue_leads<D: StateWord>(
        self,
        t: Queued<D>,
        q: QueueView,
        after: QueueView,
        waker: Waker,
    ) -> bool {
        match self.pending_ {
            None => t matches Queued::Entered(a) && a.leads(q, after, self.kind_, waker),
            Some(_) => t matches Queued::Retried(x) && x.leads(
                q,
                after,
                self.node(),
                self.slot(),
                waker,
            ),
        }
    }

    /// The task after what was done in the queue for it.
    pub open spec fn after_queue<D: StateWord>(self, t: Queued<D>) -> AcquireInner {
        if t.came_in() {
            self.done()
        } else {
            match t {
                Queued::Entered(a) => match a.progress {
                    AcqProgress::Waiting { node_, slot_ } => AcquireInner {
                        pending_: Some((node_, slot_)),
                        ..self
                    },
                    AcqProgress::Acquired => self,
                },
                Queued::Retried(_) => self,
            }
        }
    }

    /// Whether `p` is what was done for the task when it was polled, in going
    /// from the queue `q` to `after`, with the state word in the atomic
    /// `source`: a task that does not wait yet tries to come in without
    /// waiting; if that is not to be, or was not before, it goes to the queue;
    /// it comes in just by an exchange that swapped the word; and it has one
    /// place if it did not come in, and none if it did.
    pub open spec fn poll_leads<D: StateWord>(
        self,
        p: Polled<D>,
        source: Source,
        q: QueueView,
        after: QueueView,
        waker: Waker,
    ) -> bool {
        &&& p.fast is Some <==> self.pending_ is None
        &&& p.fast matches Some(a) ==> cell::attempt_on(a, source, rwcore::fast_step(self.kind_))
        &&& p.queued is None <==> (p.fast matches Some(a) && a.swapped())
        &&& p.queued is None ==> after == q
        &&& p.queued matches Some(t) ==> self.queue_leads(t, q, after, waker) && t.on(source)
        &&& p.ready == (p.queued is None || p.queued->0.came_in())
        &&& p.ready <==> p.exchange() is Some
        &&& self.moves_alone(self.after_poll(p), q, after)
        &&& if p.ready {
            self.after_poll(p) == self.done()
        } else {
            self.after_poll(p).pending_ is Some && self.after_poll(p).placed(after)
        }
        &&& p.exchange() matches Some(a) ==> {
            &&& a.swapped()
            &&& a.source() == source
            &&& a.step() == (if p.queued is None {
                rwcore::fast_step(self.kind_)
            } else {
                rwcore::claim_step(self.kind_)
            })
        }
    }

    /// The task after it was polled.
    pub open spec fn after_poll<D: StateWord>(self, p: Polled<D>) -> AcquireInner {
        match p.queued {
            None => self.done(),
            Some(t) => self.after_queue(t),
        }
    }

    pub fn new(kind: WaitKind) -> (r: Self)
        ensures
            r == Self::fresh(kind),
        opens_invariants none
    {
        AcquireInner { kind_: kind, live_: true, pending_: None }
    }

    /// A task that does not wait yet tries to come in without waiting.
    pub fn try_fast<C: WordCell>(&mut self, core: &RwCore<C>) -> (r: Option<
        Attempt<C::Word, CoopStep>,
    >)
        requires
            old(self).live_,
        ensures
            r is Some <==> old(self).pending_ is None,
            r matches Some(a) ==> cell::attempt_on(
                a,
                core.source(),
                rwcore::fast_step(old(self).kind_),
            ),
            *final(self) == (if r is Some && r->0.swapped() {
                old(self).done()
            } else {
                *old(self)
            }),
        opens_invariants [
            cell::name_if(
                old(self).pending_ is None,
                state::step_name(rwcore::fast_step(old(self).kind_)),
            ),
        ]
    {
        match self.pending_ {
            Some(_) => None,
            None => {
                let a = core.try_fast(self.kind_);
                if a.is_succ() {
                    self.live_ = false;
                }
                Some(a)
            },
        }
    }

    /// A task comes into the queue, or tries again if it is in it. The queue
    /// must be locked.
    pub fn poll_queued<C: WordCell>(
        &mut self,
        core: &RwCore<C>,
        q: &mut QueuePayload,
        waker: &Waker,
    ) -> (r: Queued<C::Word>)
        requires
            old(q)@.wf(),
            old(self).placed(old(q)@),
            old(self).pending_ is None ==> old(q)@.next_id < u64::MAX,
        ensures
            final(q)@.wf(),
            old(self).queue_leads(r, old(q)@, final(q)@, *waker),
            r.on(core.source()),
            r.exchange() is Some <==> r.came_in(),
            r.exchange() matches Some(a) ==> a.swapped() && cell::attempt_on(
                a,
                core.source(),
                rwcore::claim_step(old(self).kind_),
            ),
            *final(self) == old(self).after_queue(r),
            !r.came_in() ==> final(self).placed(final(q)@) && final(self).pending_ is Some,
            old(self).moves_alone(*final(self), old(q)@, final(q)@),
            old(self).pending_ is None ==> old(q)@.kept_in(final(q)@),
            old(self).pending_ is Some ==> old(q)@.others_kept_in(
                final(q)@,
                old(self).node(),
                old(self).slot(),
            ),
    {
        proof {
            let p = q@.pruned();
            queue::lemma_pruned(q@);
            if self.pending_ is None {
                queue::lemma_enqueued(p, self.kind_);
            }
        }
        match self.pending_ {
            Some((node, slot)) => {
                let t = core.poll_acquire(q, node, slot, waker);
                if t.claim.claimed {
                    self.live_ = false;
                    self.pending_ = None;
                }
                Queued::Retried(t)
            },
            None => {
                let a = core.acquire(q, self.kind_, waker);
                match a.progress {
                    AcqProgress::Acquired => {
                        self.live_ = false;
                    },
                    AcqProgress::Waiting { node_, slot_ } => {
                        self.pending_ = Some((node_, slot_));
                    },
                }
                Queued::Entered(a)
            },
        }
    }

    /// Polls the task: one that does not wait yet tries to come in without
    /// waiting; if that is not to be, or was not before, it goes to the queue.
    pub fn poll<C: WordCell>(&mut self, core: &RwCore<C>, q: &mut QueuePayload, waker: &Waker) -> (r:
        Polled<C::Word>)
        requires
            old(q)@.wf(),
            old(self).placed(old(q)@),
            old(self).pending_ is None ==> old(q)@.next_id < u64::MAX,
        ensures
            final(q)@.wf(),
            old(self).poll_leads(r, core.source(), old(q)@, final(q)@, *waker),
            *final(self) == old(self).after_poll(r),
    {
        let fast = self.try_fast(core);
        let in_already = match &fast {
            Some(a) => a.is_succ(),
            None => false,
        };
        if in_already {
            return Polled { ready: true, fast, queued: None };
        }
        let t = self.poll_queued(core, q, waker);
        let ready = !self.live_;
        Polled { ready, fast, queued: Some(t) }
    }

    /// The task gives up, and with it the place that it waits at. The queue
    /// must be locked.
    pub fn give_up<C: WordCell>(&mut self, core: &RwCore<C>, q: &mut QueuePayload) -> (r: Option<
        GiveUp<C::Word>,
    >)
        requires
            old(q)@.wf(),
            old(self).live_ ==> old(self).placed(old(q)@),
        ensures
            final(q)@.wf(),
            *final(self) == old(self).done(),
            r is Some <==> old(self).live_ && old(self).pending_ is Some,
            r is None ==> final(q)@ == old(q)@,
            r matches Some(g) ==> g.on(core.source()) && g.leads(
                old(q)@,
                final(q)@,
                old(self).node(),
                old(self).slot(),
            ),
    {
        let was = *self;
        self.live_ = false;
        self.pending_ = None;
        match was.pending_ {
            Some((node, slot)) => {
                if was.live_ {
                    Some(core.cancel_wait(q, node, slot))
                } else {
                    None
                }
            },
            None => None,
        }
    }
}

/// What a poll of a task comes to.
#[derive(Clone, Copy, Debug, PartialEq, Eq)]
pub enum AcqPoll {
    /// The task waits.
    Pending,
    /// The task has come in, or has not for this reason.
    Ready(Result<(), CoopRwLockError>),
}

/// A task that acquires the lock, and may be cancelled.
pub struct AcquireFuture {
    /// The task, until it has come in or given up.
    pub inner_: Option<AcquireInner>,
}

/// What was done for a task that was polled, and may be cancelled.
pub struct FuturePolled<D> {
    pub out: AcqPoll,
    /// What was done for a task that was not cancelled.
    pub polled: Option<Polled<D>>,
    /// What was done for a task that was cancelled while it waited.
    pub gave_up: Option<GiveUp<D>>,
}

impl AcquireFuture {
    pub fn new(kind: WaitKind) -> (r: Self)
        ensures
            r.inner_ == Some(AcquireInner::fresh(kind)),
        opens_invariants none
    {
        AcquireFuture { inner_: Some(AcquireInner::new(kind)) }
    }

    /// What was done for the task when it was polled, in going from the queue
    /// `q` to `after`, with the state word in the atomic `source`. The token
    /// comes first: a task that is cancelled gives up, even where it could come
    /// in, and one that did not wait yet then leaves the queue as it is.
    pub open spec fn poll_leads<D: StateWord>(
        self,
        cancelled: bool,
        r: FuturePolled<D>,
        source: Source,
        q: QueueView,
        after: QueueView,
        waker: Waker,
    ) -> bool {
        let inner = self.inner_->0;
        if cancelled {
            &&& r.out == AcqPoll::Ready(Err(CoopRwLockError::Cancelled))
            &&& r.polled is None
            &&& r.gave_up is Some <==> inner.pending_ is Some
            &&& r.gave_up is None ==> after == q
            &&& r.gave_up matches Some(g) ==> g.on(source) && g.leads(
                q,
                after,
                inner.node(),
                inner.slot(),
            )
        } else {
            &&& r.gave_up is None
            &&& r.polled matches Some(p) && {
                &&& inner.poll_leads(p, source, q, after, waker)
                &&& r.out == (if p.ready {
                    AcqPoll::Ready(Ok(()))
                } else {
                    AcqPoll::Pending
                })
            }
        }
    }

    /// The task after it was polled.
    pub open spec fn after_poll<D: StateWord>(self, r: FuturePolled<D>) -> AcquireFuture {
        AcquireFuture {
            inner_: if r.out is Pending {
                Some(self.inner_->0.after_poll(r.polled->0))
            } else {
                None
            },
        }
    }

    /// What a poll does before it comes to the queue. A task that is cancelled
    /// before it waits gives up, and one that does not wait yet tries to come
    /// in. There is no result where the queue is needed.
    pub fn poll_unlocked<C: WordCell>(&mut self, cancelled: bool, core: &RwCore<C>) -> (r: (
        Option<AcqPoll>,
        Option<Attempt<C::Word, CoopStep>>,
    ))
        requires
            old(self).inner_ is Some,
            old(self).inner_->0.live_,
        ensures
            r.1 is Some <==> !cancelled && old(self).inner_->0.pending_ is None,
            r.1 matches Some(a) ==> cell::attempt_on(
                a,
                core.source(),
                rwcore::fast_step(old(self).inner_->0.kind_),
            ),
            r.0 == (if cancelled && old(self).inner_->0.pending_ is None {
                Some(AcqPoll::Ready(Err(CoopRwLockError::Cancelled)))
            } else if r.1 is Some && r.1->0.swapped() {
                Some(AcqPoll::Ready(Ok(())))
            } else {
                None
            }),
            final(self).inner_ == (if r.0 is Some {
                None
            } else {
                old(self).inner_
            }),
        opens_invariants [
            cell::no_step(),
            cell::name_if(
                !cancelled && old(self).inner_->0.pending_ is None,
                state::step_name(rwcore::fast_step(old(self).inner_->0.kind_)),
            ),
        ]
    {
        let mut inner = match self.inner_ {
            Some(inner) => inner,
            None => {
                return (None, None);
            },
        };
        if cancelled {
            return match inner.pending_ {
                Some(_) => (None, None),
                None => {
                    self.inner_ = None;
                    (Some(AcqPoll::Ready(Err(CoopRwLockError::Cancelled))), None)
                },
            };
        }
        let fast = inner.try_fast(core);
        let in_already = match &fast {
            Some(a) => a.is_succ(),
            None => false,
        };
        if in_already {
            self.inner_ = None;
            (Some(AcqPoll::Ready(Ok(()))), fast)
        } else {
            (None, fast)
        }
    }

    /// What a poll then does at the queue, which must be locked.
    pub fn poll_locked<C: WordCell>(
        &mut self,
        cancelled: bool,
        core: &RwCore<C>,
        q: &mut QueuePayload,
        waker: &Waker,
        fast: Option<Attempt<C::Word, CoopStep>>,
    ) -> (r: FuturePolled<C::Word>)
        requires
            old(q)@.wf(),
            old(self).inner_->0.pending_ is None ==> old(q)@.next_id < u64::MAX,
            old(self).inner_ is Some,
            old(self).inner_->0.placed(old(q)@),
            cancelled ==> old(self).inner_->0.pending_ is Some,
            fast is Some <==> old(self).inner_->0.pending_ is None,
            fast matches Some(a) ==> !a.swapped() && cell::attempt_on(
                a,
                core.source(),
                rwcore::fast_step(old(self).inner_->0.kind_),
            ),
        ensures
            final(q)@.wf(),
            old(self).poll_leads(cancelled, r, core.source(), old(q)@, final(q)@, *waker),
            *final(self) == old(self).after_poll(r),
            r.out is Pending ==> final(self).inner_->0.placed(final(q)@),
    {
        let mut inner = self.inner_.unwrap();
        self.inner_ = None;
        if cancelled {
            let gave_up = inner.give_up(core, q);
            let out = AcqPoll::Ready(Err(CoopRwLockError::Cancelled));
            return FuturePolled { out, polled: None, gave_up };
        }
        let t = inner.poll_queued(core, q, waker);
        let ready = !inner.live_;
        let out = if ready {
            AcqPoll::Ready(Ok(()))
        } else {
            self.inner_ = Some(inner);
            AcqPoll::Pending
        };
        FuturePolled { out, polled: Some(Polled { ready, fast, queued: Some(t) }), gave_up: None }
    }

    /// Polls the task, whose token has or has not been cancelled.
    pub fn poll<C: WordCell>(
        &mut self,
        cancelled: bool,
        core: &RwCore<C>,
        q: &mut QueuePayload,
        waker: &Waker,
    ) -> (r: FuturePolled<C::Word>)
        requires
            old(q)@.wf(),
            !cancelled && old(self).inner_->0.pending_ is None ==> old(q)@.next_id < u64::MAX,
            old(self).inner_ is Some,
            old(self).inner_->0.placed(old(q)@),
        ensures
            final(q)@.wf(),
            old(self).poll_leads(cancelled, r, core.source(), old(q)@, final(q)@, *waker),
            *final(self) == old(self).after_poll(r),
            r.out is Pending ==> final(self).inner_->0.placed(final(q)@),
    {
        let (out, fast) = self.poll_unlocked(cancelled, core);
        match out {
            None => self.poll_locked(cancelled, core, q, waker, fast),
            Some(out) => {
                let polled = if cancelled {
                    None
                } else {
                    Some(Polled { ready: true, fast, queued: None })
                };
                FuturePolled { out, polled, gave_up: None }
            },
        }
    }
}

} // verus!
