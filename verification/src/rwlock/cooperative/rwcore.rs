//! The heart of the cooperative lock: the state word, and who is admitted from
//! the queue.
//!
//! The state word is exchanged without a lock. The queue must be locked by
//! whoever hands it in here, from before the call until after it. Nobody is
//! woken in here: the wakers come back, to be woken once the queue is unlocked.
//!
//! # Why an upgrade comes first
//!
//! An upgradable reader that is to become a writer still counts as a reader,
//! and a writer in the queue waits for all readers to leave. If the upgrade
//! came behind the writer, each would wait for the other. So it comes in front
//! of all. It counts as a writer that waits, which keeps new readers out: the
//! upgrade is not put off by them.

use core::task::Waker;

use vstd::prelude::*;

use crate::cell;
use crate::cell::{Attempt, Loaded, Source, WordCell};
use crate::rwlock::cooperative::queue;
use crate::rwlock::cooperative::queue::{QueuePayload, QueueView};
use crate::rwlock::cooperative::state;
use crate::rwlock::cooperative::state::{
    expect_waiters_present_, snapshot_of, CoopFields, CoopRwState, CoopStep,
};
use crate::rwlock::cooperative::wait;
use crate::rwlock::cooperative::wait::{Admit, NodeView, SlotState, WaitKind};
use crate::word::StateWord;

verus! {

/// How far a task has come that acquires the lock.
#[derive(Clone, Copy, Debug, PartialEq, Eq, Structural)]
pub enum AcqProgress {
    /// It has come in.
    Acquired,
    /// It waits in the queue, at this place of this node.
    Waiting { node_: u64, slot_: usize },
}

/// The change of the state word by which a task comes in that was in the queue.
pub open spec fn claim_step(kind: WaitKind) -> CoopStep {
    match kind {
        WaitKind::Read => CoopStep::ReadQueued,
        WaitKind::UpgradableRead => CoopStep::UpgradableReadQueued,
        WaitKind::Upgrade => CoopStep::Upgrade,
        WaitKind::Write => CoopStep::WriteQueued,
    }
}

/// The change of the state word by which a task comes in without waiting.
pub open spec fn fast_step(kind: WaitKind) -> CoopStep {
    match kind {
        WaitKind::Read => CoopStep::ReadFast,
        WaitKind::UpgradableRead => CoopStep::UpgradableReadFast,
        WaitKind::Upgrade => CoopStep::Upgrade,
        WaitKind::Write => CoopStep::WriteFast,
    }
}

/// What was done for somebody who left the lock, or holds it otherwise from now
/// on.
pub struct Left<D> {
    /// The exchange by which it did.
    pub by: Attempt<D, CoopStep>,
    /// The look whether anybody waits, after the exchange.
    pub looked: Loaded<D>,
}

/// Whether the exchange, if there was one, was made on the atomic `source`.
pub open spec fn made_on<D: StateWord>(a: Option<Attempt<D, CoopStep>>, source: Source) -> bool {
    a matches Some(x) ==> x.source() == source
}

impl<D: StateWord> Left<D> {
    /// Whether this is what was done on the atomic `source` by the change
    /// `step`.
    pub open spec fn holds(self, source: Source, step: CoopStep) -> bool {
        &&& cell::attempt_on(self.by, source, step)
        &&& self.looked.source() == source
    }

    /// Whether it is to be decided now who is admitted: somebody waits. A task
    /// that comes into the queue after the look sees to that itself.
    pub fn needs_pass(&self) -> (r: bool)
        ensures
            r == state::coop_view(self.looked.seen()).waiters,
        opens_invariants none
    {
        expect_waiters_present_(self.looked.word())
    }
}

/// Whom the first node admits where the state word has the parts `f`: nobody
/// while a writer holds the lock; else readers, and one upgradable reader
/// unless there is one; or a writer once nobody holds the lock; or an upgrade
/// once its own is the only reader.
pub open spec fn admits_at(front: NodeView, f: CoopFields) -> Option<Admit> {
    if f.writer {
        None
    } else if front.readish {
        Some(Admit::Readers(f.upgrade))
    } else if front.slots[0].kind_ is Write && f.readers == 0 && !f.upgrade {
        Some(Admit::All)
    } else if front.slots[0].kind_ is Upgrade && f.readers == 1 {
        Some(Admit::All)
    } else {
        None
    }
}

/// The queue after its first node has admitted whom it does.
pub open spec fn after_admission(q: QueueView, f: CoopFields) -> QueueView {
    match admits_at(q.nodes[0], f) {
        Some(whom) => QueueView {
            nodes: q.nodes.update(
                0,
                NodeView { slots: wait::slots_admitted(q.nodes[0].slots, whom), ..q.nodes[0] },
            ),
            ..q
        },
        None => q,
    }
}

/// The wakers that are handed out where the first node admits whom it does.
pub open spec fn admission_wakers(q: QueueView, f: CoopFields) -> Seq<Waker> {
    match admits_at(q.nodes[0], f) {
        Some(whom) => wait::wakers_handed(
            q.nodes[0].slots,
            whom,
            q.nodes[0].slots.len() as int,
        ),
        None => Seq::empty(),
    }
}

/// What was done to decide who is admitted.
pub struct Pass<D> {
    /// The wakers of those admitted.
    pub wakers: Vec<Waker>,
    /// The exchange that clears the mark of the queue, if it is empty.
    pub cleared: Option<Attempt<D, CoopStep>>,
    /// The look at the state word, if the queue is not empty.
    pub looked: Option<Loaded<D>>,
}

impl<D: StateWord> Pass<D> {
    /// Whether this is what leads from the queue `q` to `after`: the dead front
    /// comes away; of an empty queue the mark is cleared; otherwise the first
    /// node admits whom it does.
    pub open spec fn leads(self, q: QueueView, after: QueueView) -> bool {
        let p = q.pruned();
        if p.nodes.len() == 0 {
            &&& after == p
            &&& self.cleared matches Some(a) && cell::attempt_holds(a, CoopStep::ClearWaiters)
            &&& self.looked is None
            &&& self.wakers@.len() == 0
        } else {
            &&& self.cleared is None
            &&& self.looked is Some
            &&& after == after_admission(p, state::coop_view(self.looked->0.seen()))
            &&& self.wakers@ == admission_wakers(p, state::coop_view(self.looked->0.seen()))
        }
    }

    /// Whether the state word was the one in the atomic `source`.
    pub open spec fn on(self, source: Source) -> bool {
        &&& made_on(self.cleared, source)
        &&& self.looked matches Some(l) ==> l.source() == source
    }
}

/// What was done to let a task in.
pub struct Claim<D> {
    /// Whether it came in.
    pub claimed: bool,
    /// The exchange by which it comes in, if it was its turn.
    pub tried: Option<Attempt<D, CoopStep>>,
    /// The exchange that clears the mark that a writer waits, if it was the
    /// last one.
    pub finished: Option<Attempt<D, CoopStep>>,
}

impl<D: StateWord> Claim<D> {
    /// Whether this is what leads from the queue `q` to `after` for the task
    /// at this place: if its node comes first it tries to come in, and settles
    /// if it does; otherwise it leaves its waker.
    pub open spec fn leads(
        self,
        q: QueueView,
        after: QueueView,
        id: u64,
        slot: int,
        waker: Waker,
    ) -> bool {
        let node = q.nodes[q.place(id)];
        &&& self.tried is Some <==> q.is_head(id)
        &&& self.tried matches Some(a) ==> cell::attempt_holds(
            a,
            claim_step(node.slots[slot].kind_),
        )
        &&& self.claimed == (self.tried is Some && self.tried->0.swapped())
        &&& self.claimed ==> after == q.settled(id, slot, SlotState::Acquired)
        &&& !self.claimed ==> q.waker_set(after, id, slot, waker)
        &&& self.finished is Some <==> self.claimed && !node.readish && after.writer_waiters == 0
        &&& self.finished matches Some(a) ==> cell::attempt_holds(a, CoopStep::ClearWriterQueued)
    }

    /// Whether the state word was the one in the atomic `source`.
    pub open spec fn on(self, source: Source) -> bool {
        made_on(self.tried, source) && made_on(self.finished, source)
    }
}

/// What was done for a task that came into the queue.
pub struct Acquire<D> {
    pub progress: AcqProgress,
    /// The exchange that sets the mark that a writer waits, if it is the first
    /// one.
    pub queued: Option<Attempt<D, CoopStep>>,
    /// The look whether the queue has its mark.
    pub looked: Loaded<D>,
    /// The exchange that sets the mark of the queue, if it did not have it.
    pub marked: Option<Attempt<D, CoopStep>>,
    pub claim: Claim<D>,
    pub pass: Pass<D>,
}

impl<D: StateWord> Acquire<D> {
    /// Whether this is what leads from the queue `q` to `after` for a task that
    /// comes into it.
    pub open spec fn leads(
        self,
        q: QueueView,
        after: QueueView,
        kind: WaitKind,
        waker: Waker,
    ) -> bool {
        let p = q.pruned();
        let e = p.enqueued(kind);
        let id = p.id_for(kind);
        let slot = p.slot_for(kind);
        &&& self.queued is Some <==> !kind.readish() && e.writer_waiters == 1
        &&& self.queued matches Some(a) ==> cell::attempt_holds(a, CoopStep::MarkWriterQueued)
        &&& self.marked is Some <==> !state::coop_view(self.looked.seen()).waiters
        &&& self.marked matches Some(a) ==> cell::attempt_holds(a, CoopStep::MarkWaiters)
        &&& exists|s: QueueView| #[trigger]
            self.pass.leads(s, after) && self.claim.leads(e, s, id, slot as int, waker)
        &&& self.progress is Acquired <==> self.claim.claimed
        &&& self.progress matches AcqProgress::Waiting { node_, slot_ } ==> node_ == id && slot_
            == slot
    }

    /// Whether the state word was the one in the atomic `source`.
    pub open spec fn on(self, source: Source) -> bool {
        &&& made_on(self.queued, source) && made_on(self.marked, source)
        &&& self.looked.source() == source
        &&& self.claim.on(source) && self.pass.on(source)
    }
}

/// What was done for a task that came back to try again.
pub struct Retry<D> {
    pub claim: Claim<D>,
    pub pass: Pass<D>,
}

impl<D: StateWord> Retry<D> {
    /// Whether this is what leads from the queue `q` to `after` for the task at
    /// this place.
    pub open spec fn leads(
        self,
        q: QueueView,
        after: QueueView,
        id: u64,
        slot: int,
        waker: Waker,
    ) -> bool {
        exists|s: QueueView| #[trigger]
            self.pass.leads(s, after) && self.claim.leads(q.pruned(), s, id, slot, waker)
    }

    /// Whether the state word was the one in the atomic `source`.
    pub open spec fn on(self, source: Source) -> bool {
        self.claim.on(source) && self.pass.on(source)
    }
}

/// What was done for a task that gave up.
pub struct GiveUp<D> {
    /// The exchange that clears the mark that a writer waits, if it was the
    /// last one.
    pub finished: Option<Attempt<D, CoopStep>>,
    pub pass: Pass<D>,
}

impl<D: StateWord> GiveUp<D> {
    /// Whether this is what leads from the queue `q` to `after` for the task at
    /// this place. Those behind it may be admitted now, so it sees to that
    /// before it goes.
    pub open spec fn leads(self, q: QueueView, after: QueueView, id: u64, slot: int) -> bool {
        let s = q.settled(id, slot, SlotState::Cancelled);
        &&& self.finished is Some <==> !q.nodes[q.place(id)].readish && s.writer_waiters == 0
        &&& self.finished matches Some(a) ==> cell::attempt_holds(a, CoopStep::ClearWriterQueued)
        &&& self.pass.leads(s, after)
    }

    /// Whether the state word was the one in the atomic `source`.
    pub open spec fn on(self, source: Source) -> bool {
        made_on(self.finished, source) && self.pass.on(source)
    }
}

/// Whom the first node admits where the state word is `word`.
pub fn whom_front_admits<D: StateWord>(q: &QueuePayload, word: D) -> (r: Option<Admit>)
    requires
        q@.wf(),
        q@.nodes.len() > 0,
    ensures
        r == admits_at(q@.nodes[0], state::coop_view(word)),
{
    let snap = snapshot_of(word);
    if snap.writer_active {
        return None;
    }
    if q.front_is_readish() {
        return Some(Admit::Readers(snap.upgrade_active));
    }
    proof {
        D::lemma_width();
        vstd::arithmetic::power2::lemma2_to64();
    }
    match q.front_solo_kind() {
        WaitKind::Write => {
            if snap.reader_count.same(D::zero()) && !snap.upgrade_active {
                Some(Admit::All)
            } else {
                None
            }
        },
        _ => {
            if snap.reader_count.same(D::single(0)) {
                Some(Admit::All)
            } else {
                None
            }
        },
    }
}

/// Lets the first node admit whom it does where the state word is `word`, and
/// hands out the wakers.
pub fn pass_with<D: StateWord>(q: &mut QueuePayload, word: D) -> (r: Vec<Waker>)
    requires
        old(q)@.wf(),
        old(q)@.nodes.len() > 0,
    ensures
        final(q)@.wf(),
        final(q)@ == after_admission(old(q)@, state::coop_view(word)),
        r@ == admission_wakers(old(q)@, state::coop_view(word)),
        forall|id: u64, slot: int| #[trigger]
            final(q)@.keeps(id, slot) == old(q)@.keeps(id, slot),
        old(q)@.kept_in(final(q)@),
{
    let ghost q0 = q@;
    let mut wakers: Vec<Waker> = Vec::new();
    match whom_front_admits(q, word) {
        Some(whom) => {
            proof {
                queue::lemma_front_admitted(q0, whom);
            }
            q.admit_front_(&mut wakers, whom);
        },
        None => {},
    }
    assert(wakers@ =~= admission_wakers(q0, state::coop_view(word)));
    wakers
}

/// The heart of a lock.
pub struct RwCore<C: WordCell> {
    stat_: CoopRwState<C>,
}

impl<C: WordCell> RwCore<C> {
    /// The state of the lock.
    pub closed spec fn state(self) -> CoopRwState<C> {
        self.stat_
    }

    /// The atomic that holds the state word.
    pub open spec fn source(self) -> Source {
        self.state().cell().source()
    }

    pub fn new(cell: C) -> (r: Self)
        ensures
            r.state().cell() == cell,
        opens_invariants none
    {
        RwCore { stat_: CoopRwState::new(cell) }
    }

    /// A reference to the state of the lock.
    pub fn state_(&self) -> (r: &CoopRwState<C>)
        ensures
            *r == self.state(),
        opens_invariants none
    {
        &self.stat_
    }

    /// The number of readers in the word that was loaded.
    pub fn reader_count(&self) -> (r: C::Word)
        ensures
            exists|l: Loaded<C::Word>| #[trigger]
                l.source() == self.source() && r.val() == state::coop_view(l.seen()).readers,
            r.val() <= state::max_readers(C::Word::bits()),
        opens_invariants none
    {
        self.stat_.reader_count()
    }

    /// A task tries to come in without waiting.
    pub fn try_fast(&self, kind: WaitKind) -> (r: Attempt<C::Word, CoopStep>)
        ensures
            cell::attempt_on(r, self.source(), fast_step(kind)),
        opens_invariants [ state::step_name(fast_step(kind)) ]
    {
        match kind {
            WaitKind::Read => self.stat_.try_read_fast(),
            WaitKind::UpgradableRead => self.stat_.try_upgradable_read_fast(),
            WaitKind::Upgrade => self.stat_.try_upgrade_to_write(),
            WaitKind::Write => self.stat_.try_write_fast(),
        }
    }

    /// Somebody leaves the lock or holds it otherwise from now on, and then
    /// looks whether anybody waits.
    fn leave_(&self, by: Attempt<C::Word, CoopStep>) -> (r: Left<C::Word>)
        ensures
            r.by == by,
            r.looked.source() == self.source(),
        opens_invariants none
    {
        Left { by, looked: self.stat_.load_state() }
    }

    /// A reader leaves.
    pub fn release_reader(&self) -> (r: Left<C::Word>)
        ensures
            r.holds(self.source(), CoopStep::ReleaseReader),
        opens_invariants [ state::step_name(CoopStep::ReleaseReader) ]
    {
        self.leave_(self.stat_.release_reader())
    }

    /// An upgradable reader leaves.
    pub fn release_upgradable_read(&self) -> (r: Left<C::Word>)
        ensures
            r.holds(self.source(), CoopStep::ReleaseUpgradable),
        opens_invariants [ state::step_name(CoopStep::ReleaseUpgradable) ]
    {
        self.leave_(self.stat_.release_upgradable_read())
    }

    /// A writer leaves.
    pub fn release_writer(&self) -> (r: Left<C::Word>)
        ensures
            r.holds(self.source(), CoopStep::ReleaseWriter),
        opens_invariants [ state::step_name(CoopStep::ReleaseWriter) ]
    {
        self.leave_(self.stat_.release_writer())
    }

    /// A writer becomes a reader.
    pub fn downgrade_write_to_read(&self) -> (r: Left<C::Word>)
        ensures
            r.holds(self.source(), CoopStep::WriteToRead),
        opens_invariants [ state::step_name(CoopStep::WriteToRead) ]
    {
        self.leave_(self.stat_.downgrade_write_to_read())
    }

    /// A writer becomes an upgradable reader.
    pub fn downgrade_write_to_upgradable(&self) -> (r: Left<C::Word>)
        ensures
            r.holds(self.source(), CoopStep::WriteToUpgradable),
        opens_invariants [ state::step_name(CoopStep::WriteToUpgradable) ]
    {
        self.leave_(self.stat_.downgrade_write_to_upgradable())
    }

    /// An upgradable reader becomes a reader.
    pub fn downgrade_upgradable_to_read(&self) -> (r: Left<C::Word>)
        ensures
            r.holds(self.source(), CoopStep::UpgradableToRead),
        opens_invariants [ state::step_name(CoopStep::UpgradableToRead) ]
    {
        self.leave_(self.stat_.downgrade_upgradable_to_read())
    }

    /// A task in the queue, whose turn it is, tries to come in.
    pub fn try_claim_(&self, kind: WaitKind) -> (r: Attempt<C::Word, CoopStep>)
        ensures
            cell::attempt_on(r, self.source(), claim_step(kind)),
        opens_invariants [ state::step_name(claim_step(kind)) ]
    {
        match kind {
            WaitKind::Read => self.stat_.try_read_queued(),
            WaitKind::UpgradableRead => self.stat_.try_upgradable_read_queued(),
            WaitKind::Upgrade => self.stat_.try_upgrade_to_write(),
            WaitKind::Write => self.stat_.try_write_queued(),
        }
    }

    /// Sets the mark that a writer waits, where it is the first one.
    pub fn note_exclusive_slot_queued_(&self, q: &QueuePayload) -> (r: Option<
        Attempt<C::Word, CoopStep>,
    >)
        ensures
            r is Some <==> q@.writer_waiters == 1,
            r matches Some(a) ==> cell::attempt_on(
                a,
                self.source(),
                CoopStep::MarkWriterQueued,
            ),
        opens_invariants [
            cell::name_if(
                q@.writer_waiters == 1,
                state::step_name(CoopStep::MarkWriterQueued),
            ),
        ]
    {
        if q.writer_waiters() == 1 {
            Some(self.stat_.mark_writer_queued())
        } else {
            None
        }
    }

    /// Clears the mark that a writer waits, where none is left, for a task that
    /// has come in or given up.
    pub fn note_exclusive_slot_finished_(&self, q: &QueuePayload, readish: bool) -> (r: Option<
        Attempt<C::Word, CoopStep>,
    >)
        ensures
            r is Some <==> !readish && q@.writer_waiters == 0,
            r matches Some(a) ==> cell::attempt_on(
                a,
                self.source(),
                CoopStep::ClearWriterQueued,
            ),
        opens_invariants [
            cell::name_if(
                !readish && q@.writer_waiters == 0,
                state::step_name(CoopStep::ClearWriterQueued),
            ),
        ]
    {
        if !readish && q.writer_waiters() == 0 {
            Some(self.stat_.clear_writer_queued())
        } else {
            None
        }
    }

    /// The task at this place tries to come in if its node is the first, and
    /// leaves its waker if it does not.
    fn claim_or_wait_(&self, q: &mut QueuePayload, id: u64, slot: usize, waker: &Waker) -> (r:
        Claim<C::Word>)
        requires
            old(q)@.wf(),
            old(q)@.keeps(id, slot as int),
        ensures
            final(q)@.wf(),
            r.leads(old(q)@, final(q)@, id, slot as int, *waker),
            r.on(self.source()),
            old(q)@.others_kept_in(final(q)@, id, slot as int),
            old(q)@.adds_only(final(q)@, id, slot as int),
            final(q)@.keeps(id, slot as int) == !r.claimed,
            !r.claimed ==> old(q)@.kept_in(final(q)@),
            final(q)@.next_id == old(q)@.next_id,
    {
        let ghost q0 = q@;
        let kind = q.kind_at(id, slot);
        let tried = if q.is_head_(id) {
            Some(self.try_claim_(kind))
        } else {
            None
        };
        let claimed = match &tried {
            Some(a) => a.is_succ(),
            None => false,
        };
        let finished = if claimed {
            proof {
                queue::lemma_settled(q0, id, slot as int, SlotState::Acquired);
            }
            q.settle_(id, slot, SlotState::Acquired);
            self.note_exclusive_slot_finished_(q, kind.is_readish())
        } else {
            q.set_waker_(id, slot, waker);
            proof {
                queue::lemma_waker_set(q0, q@, id, slot as int, *waker);
            }
            None
        };
        Claim { claimed, tried, finished }
    }

    /// Comes into the queue, and tries to come into the lock. The three steps,
    /// coming into the queue, trying, and leaving a waker, are one to everybody
    /// else, so that no wake can be lost between them.
    pub fn acquire(&self, q: &mut QueuePayload, kind: WaitKind, waker: &Waker) -> (r: Acquire<
        C::Word,
    >)
        requires
            old(q)@.wf(),
            old(q)@.next_id < u64::MAX,
        ensures
            final(q)@.wf(),
            r.leads(old(q)@, final(q)@, kind, *waker),
            r.on(self.source()),
            old(q)@.kept_in(final(q)@),
            forall|id: u64, slot: int| #[trigger]
                final(q)@.keeps(id, slot) ==> old(q)@.keeps(id, slot) || (r.progress matches
                    AcqProgress::Waiting { node_, slot_ } && node_ == id && slot_ == slot),
            r.progress matches AcqProgress::Waiting { node_, slot_ } ==> final(q)@.keeps(
                node_,
                slot_ as int,
            ) && final(q)@.kind_of(node_, slot_ as int) == kind,
    {
        let ghost q0 = q@;
        q.prune_front_();
        let ghost p = q@;
        proof {
            queue::lemma_pruned(q0);
            queue::lemma_enqueued(p, kind);
            lemma_not_kept_before(p, kind);
        }
        let (id, slot) = q.enqueue_(kind);
        let queued = if kind.is_readish() {
            None
        } else {
            self.note_exclusive_slot_queued_(q)
        };
        let looked = self.stat_.load_state();
        let marked = if expect_waiters_present_(looked.word()) {
            None
        } else {
            Some(self.stat_.mark_waiters_present())
        };
        let claim = self.claim_or_wait_(q, id, slot, waker);
        let ghost s = q@;
        let pass = self.pass_(q);
        let progress = if claim.claimed {
            AcqProgress::Acquired
        } else {
            AcqProgress::Waiting { node_: id, slot_: slot }
        };
        assert(pass.leads(s, q@));
        let ghost e = p.enqueued(kind);
        assert forall|id2: u64, slot2: int| #[trigger] q0.keeps(id2, slot2) implies q@.keeps(
            id2,
            slot2,
        ) && q@.kind_of(id2, slot2) == q0.kind_of(id2, slot2) by {
            assert(p.keeps(id2, slot2));
            assert(e.keeps(id2, slot2));
            assert(id2 != id || slot2 != slot);
            assert(s.keeps(id2, slot2));
        }
        Acquire { progress, queued, looked, marked, claim, pass }
    }

    /// A task that waits tries again to come in.
    pub fn poll_acquire(&self, q: &mut QueuePayload, id: u64, slot: usize, waker: &Waker) -> (r:
        Retry<C::Word>)
        requires
            old(q)@.wf(),
            old(q)@.keeps(id, slot as int),
        ensures
            final(q)@.wf(),
            r.leads(old(q)@, final(q)@, id, slot as int, *waker),
            r.on(self.source()),
            old(q)@.others_kept_in(final(q)@, id, slot as int),
            old(q)@.adds_only(final(q)@, id, slot as int),
            final(q)@.keeps(id, slot as int) == !r.claim.claimed,
            !r.claim.claimed ==> old(q)@.kept_in(final(q)@),
    {
        let ghost q0 = q@;
        q.prune_front_();
        let ghost p = q@;
        proof {
            queue::lemma_pruned(q0);
        }
        let claim = self.claim_or_wait_(q, id, slot, waker);
        let ghost s = q@;
        let pass = self.pass_(q);
        assert(pass.leads(s, q@));
        Retry { claim, pass }
    }

    /// A task that waits gives up.
    pub fn cancel_wait(&self, q: &mut QueuePayload, id: u64, slot: usize) -> (r: GiveUp<C::Word>)
        requires
            old(q)@.wf(),
            old(q)@.keeps(id, slot as int),
        ensures
            final(q)@.wf(),
            r.leads(old(q)@, final(q)@, id, slot as int),
            r.on(self.source()),
            old(q)@.others_kept_in(final(q)@, id, slot as int),
            old(q)@.adds_only(final(q)@, id, slot as int),
            !final(q)@.keeps(id, slot as int),
    {
        let ghost q0 = q@;
        proof {
            queue::lemma_settled(q0, id, slot as int, SlotState::Cancelled);
        }
        let kind = q.kind_at(id, slot);
        q.settle_(id, slot, SlotState::Cancelled);
        let finished = self.note_exclusive_slot_finished_(q, kind.is_readish());
        let pass = self.pass_(q);
        GiveUp { finished, pass }
    }

    /// Decides who is admitted, and collects the wakers. Only the first node is
    /// looked at: as long as somebody is left in it, it bars those behind.
    /// Nothing is given to those admitted: they come in by their own exchange,
    /// so that one who gives up instead takes nothing along.
    pub fn pass_(&self, q: &mut QueuePayload) -> (r: Pass<C::Word>)
        requires
            old(q)@.wf(),
        ensures
            final(q)@.wf(),
            r.leads(old(q)@, final(q)@),
            r.on(self.source()),
            forall|id: u64, slot: int| #[trigger]
                final(q)@.keeps(id, slot) == old(q)@.keeps(id, slot),
            old(q)@.kept_in(final(q)@),
            final(q)@.next_id == old(q)@.next_id,
    {
        let ghost q0 = q@;
        q.prune_front_();
        proof {
            queue::lemma_pruned(q0);
        }
        if q.is_empty() {
            let cleared = Some(self.stat_.clear_waiters_present());
            return Pass { wakers: Vec::new(), cleared, looked: None };
        }
        let looked = self.stat_.load_state();
        let wakers = pass_with(q, looked.word());
        Pass { wakers, cleared: None, looked: Some(looked) }
    }
}

/// The place that a task comes into is nobody's.
proof fn lemma_not_kept_before(q: QueueView, kind: WaitKind)
    requires
        q.wf(),
        q.next_id < u64::MAX,
    ensures
        !q.keeps(q.id_for(kind), q.slot_for(kind) as int),
{
    let id = q.id_for(kind);
    let i = q.place(id);
    if q.keeps(id, q.slot_for(kind) as int) {
        assert(q.has_at(id, i));
        if q.joins(kind) {
            assert(q.has_at(id, q.nodes.len() - 1));
            queue::lemma_place(q, id, q.nodes.len() - 1);
        } else {
            assert(q.nodes[i].id < q.next_id);
        }
    }
}

} // verus!
