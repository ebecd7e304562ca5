//! What the cooperative lock promises of its queue, however its tasks interleave.
//!
//! A task that uses the queue has it locked, but the state word may change under
//! it. So what such a task does comes in moves, between which others change the
//! word: it comes into the queue or comes back to it, it tries to come into the
//! lock, and it decides who is admitted.

use core::task::Waker;

use vstd::prelude::*;

use crate::rwlock::cooperative::laws;
use crate::rwlock::cooperative::laws::{CoopEvent, CoopSystem};
use crate::rwlock::cooperative::queue;
use crate::rwlock::cooperative::queue::QueueView;
use crate::rwlock::cooperative::rwcore;
use crate::rwlock::cooperative::rwcore::{Acquire, GiveUp, Retry};
use crate::rwlock::cooperative::state;
use crate::rwlock::cooperative::state::CoopFields;
use crate::rwlock::cooperative::wait;
use crate::rwlock::cooperative::wait::{SlotState, WaitKind};
use crate::word::StateWord;

verus! {

/// Who uses the queue.
pub enum Phase {
    /// Nobody: it is not locked.
    Free,
    /// The task at this place, which is to try to come in.
    Claiming(u64, int),
    /// Somebody who is to decide who is admitted.
    PassDue,
}

/// A lock with its queue.
pub struct CoopRun {
    /// The state word, and those who hold the lock.
    pub sys: CoopSystem,
    pub q: QueueView,
    pub phase: Phase,
    /// How many have left the lock and are still to look whether anybody waits.
    pub owed: nat,
    /// Whether somebody has left the lock since it was last decided who is
    /// admitted.
    pub dirty: bool,
}

/// A move.
pub enum Move {
    /// A task comes in without waiting.
    Fast(WaitKind),
    /// Somebody leaves the lock, or holds it otherwise from now on.
    Leave(CoopEvent),
    /// One who has left sees that nobody waits.
    SeeNobody,
    /// One who has left locks the queue, to decide who is admitted.
    LeaverLocks,
    /// A task comes into the queue.
    Enter(WaitKind),
    /// A task comes back to its place in the queue.
    Retry(u64, int),
    /// The task that has come to its place tries to come in, or leaves a waker.
    Claim(Waker),
    /// A task gives up its place.
    GiveUp(u64, int),
    /// It is decided who is admitted.
    Pass,
}

/// The event by which a task comes in.
pub open spec fn entry(kind: WaitKind) -> CoopEvent {
    match kind {
        WaitKind::Read => CoopEvent::Read,
        WaitKind::UpgradableRead => CoopEvent::UpgradableRead,
        WaitKind::Upgrade => CoopEvent::Upgrade,
        WaitKind::Write => CoopEvent::Write,
    }
}

/// Whether somebody leaves the lock, or holds it otherwise, by the event.
pub open spec fn leaves(e: CoopEvent) -> bool {
    e is ReadDrop || e is WriteDrop || e is UpgradedDrop || e is UpgradableDrop || e is WriteToRead
        || e is UpgradedToRead || e is WriteToUpgradable || e is UpgradableToRead || e is Settle
        || e is UpgradedToUpgradable
}

/// What the queue is after a task at a place has tried to come in, where the
/// state word has the parts `f`.
pub open spec fn claim_leads(
    q: QueueView,
    after: QueueView,
    id: u64,
    slot: int,
    f: CoopFields,
    max: nat,
    waker: Waker,
) -> bool {
    if claims(q, id, slot, f, max) {
        after == q.settled(id, slot, SlotState::Acquired)
    } else {
        q.waker_set(after, id, slot, waker)
    }
}

/// Whether the task at a place comes in: its node is the first, and the state
/// word lets it.
pub open spec fn claims(q: QueueView, id: u64, slot: int, f: CoopFields, max: nat) -> bool {
    q.is_head(id) && state::step_enabled(
        rwcore::claim_step(q.nodes[q.place(id)].slots[slot].kind_),
        f,
        max,
    )
}

/// What the queue is after it was decided who is admitted, where the state word
/// has the parts `f`.
pub open spec fn pass_leads(q: QueueView, after: QueueView, f: CoopFields) -> bool {
    after == (if q.pruned().nodes.len() == 0 {
        q.pruned()
    } else {
        rwcore::after_admission(q.pruned(), f)
    })
}

impl CoopRun {
    /// A lock that nobody holds or waits for.
    pub open spec fn start() -> CoopRun {
        CoopRun {
            sys: CoopSystem::start(),
            q: QueueView::empty(),
            phase: Phase::Free,
            owed: 0,
            dirty: false,
        }
    }

    /// The state word with the marks of the queue set so.
    pub open spec fn marked(self, waiters: bool, writer_queued: bool) -> CoopSystem {
        CoopSystem { word: CoopFields { waiters, writer_queued, ..self.sys.word }, ..self.sys }
    }

    /// The mark that a writer waits, after a task has come in or given up.
    pub open spec fn mark_after(self, after: QueueView) -> bool {
        self.sys.word.writer_queued && after.writer_waiters > 0
    }

    /// Whether a move leads from here to `next`.
    pub open spec fn moves(self, m: Move, next: CoopRun, max: nat) -> bool {
        match m {
            Move::Fast(kind) => {
                &&& state::step_enabled(rwcore::fast_step(kind), self.sys.word, max)
                &&& self.sys.by.have(entry(kind))
                &&& next == (CoopRun { sys: self.sys.after(entry(kind)), ..self })
            },
            Move::Leave(e) => {
                &&& leaves(e)
                &&& self.sys.can(e, max)
                &&& next == (CoopRun {
                    sys: self.sys.after(e),
                    owed: self.owed + 1,
                    dirty: true,
                    ..self
                })
            },
            Move::SeeNobody => {
                &&& self.owed > 0
                &&& !self.sys.word.waiters
                &&& next == (CoopRun { owed: (self.owed - 1) as nat, ..self })
            },
            Move::LeaverLocks => {
                &&& self.owed > 0
                &&& self.phase is Free
                &&& next == (CoopRun {
                    owed: (self.owed - 1) as nat,
                    phase: Phase::PassDue,
                    ..self
                })
            },
            Move::Enter(kind) => {
                let p = self.q.pruned();
                &&& self.phase is Free
                &&& p.next_id < u64::MAX
                &&& next == (CoopRun {
                    sys: self.marked(true, self.sys.word.writer_queued || !kind.readish()),
                    q: p.enqueued(kind),
                    phase: Phase::Claiming(p.id_for(kind), p.slot_for(kind) as int),
                    ..self
                })
            },
            Move::Retry(id, slot) => {
                &&& self.phase is Free
                &&& self.q.keeps(id, slot)
                &&& next == (CoopRun {
                    q: self.q.pruned(),
                    phase: Phase::Claiming(id, slot),
                    ..self
                })
            },
            Move::Claim(waker) => self.phase matches Phase::Claiming(id, slot) && {
                let kind = self.q.nodes[self.q.place(id)].slots[slot].kind_;
                let in_now = claims(self.q, id, slot, self.sys.word, max);
                let cleared = self.marked(self.sys.word.waiters, self.mark_after(next.q));
                &&& claim_leads(self.q, next.q, id, slot, self.sys.word, max, waker)
                &&& in_now ==> self.sys.by.have(entry(kind))
                &&& next == (CoopRun {
                    sys: if in_now {
                        cleared.after(entry(kind))
                    } else {
                        self.sys
                    },
                    q: next.q,
                    phase: Phase::PassDue,
                    ..self
                })
            },
            Move::GiveUp(id, slot) => {
                let after = self.q.settled(id, slot, SlotState::Cancelled);
                &&& self.phase is Free
                &&& self.q.keeps(id, slot)
                &&& next == (CoopRun {
                    sys: self.marked(self.sys.word.waiters, self.mark_after(after)),
                    q: after,
                    phase: Phase::PassDue,
                    ..self
                })
            },
            Move::Pass => {
                &&& self.phase is PassDue
                &&& pass_leads(self.q, next.q, self.sys.word)
                &&& next == (CoopRun {
                    sys: self.marked(
                        self.sys.word.waiters && next.q.nodes.len() > 0,
                        self.sys.word.writer_queued,
                    ),
                    q: next.q,
                    phase: Phase::Free,
                    dirty: false,
                    ..self
                })
            },
        }
    }

    /// The task at a place of the first node waits, and the state word would
    /// let it in.
    pub open spec fn could_come_in(self, i: int, max: nat) -> bool {
        let slots = self.q.nodes[0].slots;
        &&& slots[i].state_ is Waiting
        &&& state::step_enabled(rwcore::claim_step(slots[i].kind_), self.sys.word, max)
    }

    /// An upgradable reader before the place has been admitted, and is yet to
    /// come.
    pub open spec fn upgradable_due(self, i: int) -> bool {
        let slots = self.q.nodes[0].slots;
        exists|j: int|
            0 <= j < i && (#[trigger] slots[j]).state_ is Admitted && slots[j].kind_
                is UpgradableRead
    }

    /// Somebody in the first node keeps a place, and whoever waits in it could
    /// not come in, or is an upgradable reader behind one that has been
    /// admitted.
    pub open spec fn settled(self, max: nat) -> bool {
        self.q.nodes.len() > 0 ==> {
            &&& self.q.nodes[0].pending() > 0
            &&& forall|i: int|
                0 <= i < self.q.nodes[0].slots.len() && #[trigger] self.could_come_in(i, max)
                    ==> self.q.nodes[0].slots[i].kind_ is UpgradableRead && self.upgradable_due(i)
        }
    }

    /// Every task that waits has left its waker, but for one that has just come
    /// into the queue.
    pub open spec fn wakers_left(self) -> bool {
        forall|n: int, i: int|
            0 <= n < self.q.nodes.len() && 0 <= i < self.q.nodes[n].slots.len()
                && (#[trigger] self.q.nodes[n].slots[i]).state_ is Waiting
                && self.q.nodes[n].slots[i].waker_ is None ==> (self.phase matches Phase::Claiming(
                id,
                slot,
            ) && self.q.nodes[n].id == id && i == slot)
    }

    /// What every move keeps.
    pub open spec fn inv(self, max: nat) -> bool {
        &&& self.sys.inv(max)
        &&& self.q.wf()
        &&& self.q.next_id <= u64::MAX
        &&& self.sys.word.writer_queued == (self.q.writer_waiters > 0)
        &&& self.q.nodes.len() > 0 ==> self.sys.word.waiters
        &&& self.phase is Free ==> self.sys.word.waiters == (self.q.nodes.len() > 0)
        &&& self.phase matches Phase::Claiming(id, slot) ==> self.q.keeps(id, slot)
        &&& self.wakers_left()
        &&& self.phase is Free && !self.dirty ==> self.settled(max)
        &&& self.dirty ==> self.owed > 0 || !(self.phase is Free) || self.q.nodes.len() == 0
    }
}

/// A task that comes in without waiting lets nobody of the first node in.
proof fn lemma_fast(r: CoopRun, kind: WaitKind, next: CoopRun, max: nat)
    requires
        2 <= max,
        r.inv(max),
        r.moves(Move::Fast(kind), next, max),
    ensures
        next.inv(max),
{
    laws::law_fast_is_queued_and_more(kind, r.sys.word, max);
    laws::lemma_event(r.sys, entry(kind), max);
    if r.phase is Free && !r.dirty && r.q.nodes.len() > 0 {
        let front = r.q.nodes[0];
        assert(front.wf());
        if kind is Read {
            if !front.readish {
                queue::lemma_front_counts(r.q);
            }
        }
        assert forall|i: int| 0 <= i < front.slots.len() && #[trigger] next.could_come_in(
            i,
            max,
        ) implies front.slots[i].kind_ is UpgradableRead && next.upgradable_due(i) by {
            assert(front.slots[i].kind_.readish() == front.readish);
            assert(r.could_come_in(i, max));
            assert(r.upgradable_due(i));
            let j = choose|j: int|
                0 <= j < i && (#[trigger] front.slots[j]).state_ is Admitted
                    && front.slots[j].kind_ is UpgradableRead;
            assert(next.q.nodes[0].slots[j].state_ is Admitted);
        }
    }
}

/// A task that comes into the queue.
proof fn lemma_enter(r: CoopRun, kind: WaitKind, next: CoopRun, max: nat)
    requires
        2 <= max,
        r.inv(max),
        r.moves(Move::Enter(kind), next, max),
    ensures
        next.inv(max),
{
    let p = r.q.pruned();
    let d = queue::dead_front(r.q.nodes) as int;
    queue::lemma_dead_front(r.q.nodes);
    queue::lemma_pruned(r.q);
    queue::lemma_enqueued(p, kind);
    let e = p.enqueued(kind);
    assert forall|n: int, i: int|
        0 <= n < e.nodes.len() && 0 <= i < e.nodes[n].slots.len() && (
        #[trigger] e.nodes[n].slots[i]).state_ is Waiting && e.nodes[n].slots[i].waker_
            is None implies e.nodes[n].id == p.id_for(kind) && i == p.slot_for(kind) by {
        let k = if kind is Upgrade {
            n - 1
        } else {
            n
        };
        if 0 <= k < p.nodes.len() && i < p.nodes[k].slots.len() {
            assert(p.nodes[k] == r.q.nodes[k + d]);
            assert(r.q.nodes[k + d].slots[i] == e.nodes[n].slots[i]);
        }
    }
}

/// A task that comes back to its place.
proof fn lemma_retry(r: CoopRun, id: u64, slot: int, next: CoopRun, max: nat)
    requires
        2 <= max,
        r.inv(max),
        r.moves(Move::Retry(id, slot), next, max),
    ensures
        next.inv(max),
{
    let d = queue::dead_front(r.q.nodes) as int;
    queue::lemma_dead_front(r.q.nodes);
    queue::lemma_pruned(r.q);
    assert(r.q.pruned().keeps(id, slot));
    assert forall|n: int, i: int|
        0 <= n < next.q.nodes.len() && 0 <= i < next.q.nodes[n].slots.len() && (
        #[trigger] next.q.nodes[n].slots[i]).state_ is Waiting
            && next.q.nodes[n].slots[i].waker_ is None implies next.q.nodes[n].id == id && i
        == slot by {
        assert(r.q.nodes[n + d].slots[i] == next.q.nodes[n].slots[i]);
    }
}

/// A task that tries to come in.
proof fn lemma_claim(r: CoopRun, waker: Waker, next: CoopRun, max: nat)
    requires
        2 <= max,
        r.inv(max),
        r.moves(Move::Claim(waker), next, max),
    ensures
        next.inv(max),
{
    if let Phase::Claiming(id, slot) = r.phase {
        let at = r.q.place(id);
        let kind = r.q.nodes[at].slots[slot].kind_;
        assert(r.q.has_at(id, at));
        if claims(r.q, id, slot, r.sys.word, max) {
            queue::lemma_settled(r.q, id, slot, SlotState::Acquired);
            let cleared = r.marked(r.sys.word.waiters, r.mark_after(next.q));
            laws::lemma_event(cleared, entry(kind), max);
        } else {
            queue::lemma_waker_set(r.q, next.q, id, slot, waker);
        }
        assert forall|n: int, i: int|
            0 <= n < next.q.nodes.len() && 0 <= i < next.q.nodes[n].slots.len() && (
            #[trigger] next.q.nodes[n].slots[i]).state_ is Waiting implies
            next.q.nodes[n].slots[i].waker_ is Some by {
            if n != at || i != slot {
                assert(r.q.nodes[n].slots[i] == next.q.nodes[n].slots[i]);
                if n != at && r.q.nodes[n].id == id {
                    queue::lemma_place(r.q, id, n);
                }
            }
        }
    }
}

/// A task that gives up.
proof fn lemma_give_up(r: CoopRun, id: u64, slot: int, next: CoopRun, max: nat)
    requires
        2 <= max,
        r.inv(max),
        r.moves(Move::GiveUp(id, slot), next, max),
    ensures
        next.inv(max),
{
    let at = r.q.place(id);
    assert(r.q.has_at(id, at));
    queue::lemma_settled(r.q, id, slot, SlotState::Cancelled);
    assert forall|n: int, i: int|
        0 <= n < next.q.nodes.len() && 0 <= i < next.q.nodes[n].slots.len() && (
        #[trigger] next.q.nodes[n].slots[i]).state_ is Waiting implies
        next.q.nodes[n].slots[i].waker_ is Some by {
        if n != at || i != slot {
            assert(r.q.nodes[n].slots[i] == next.q.nodes[n].slots[i]);
        }
    }
}

/// Among the upgradable readers that wait before a place there is a first one.
proof fn lemma_first_upgradable(slots: Seq<wait::WaiterSlot>, n: int) -> (j: int)
    requires
        0 <= n <= slots.len(),
        wait::upgradable_before(slots, n),
    ensures
        0 <= j < n,
        slots[j].state_ is Waiting,
        slots[j].kind_ is UpgradableRead,
        !wait::upgradable_before(slots, j),
    decreases n,
{
    let j = choose|j: int|
        0 <= j < n && (#[trigger] slots[j]).state_ is Waiting && slots[j].kind_ is UpgradableRead;
    if wait::upgradable_before(slots, j) {
        lemma_first_upgradable(slots, j)
    } else {
        j
    }
}

/// It is decided who is admitted.
proof fn lemma_pass(r: CoopRun, next: CoopRun, max: nat)
    requires
        2 <= max,
        r.inv(max),
        r.moves(Move::Pass, next, max),
    ensures
        next.inv(max),
{
    let p = r.q.pruned();
    let f = r.sys.word;
    let d = queue::dead_front(r.q.nodes) as int;
    queue::lemma_dead_front(r.q.nodes);
    queue::lemma_pruned(r.q);
    assert forall|n: int, i: int|
        0 <= n < p.nodes.len() && 0 <= i < p.nodes[n].slots.len() && (
        #[trigger] p.nodes[n].slots[i]).state_ is Waiting implies p.nodes[n].slots[i].waker_
        is Some by {
        assert(r.q.nodes[n + d].slots[i] == p.nodes[n].slots[i]);
    }
    if p.nodes.len() > 0 {
        let front = p.nodes[0];
        match rwcore::admits_at(front, f) {
            Some(whom) => {
                queue::lemma_front_admitted(p, whom);
                assert forall|i: int| 0 <= i < front.slots.len() implies
                    #[trigger] next.q.nodes[0].slots[i] == (if wait::admits(front.slots, whom, i) {
                    wait::admitted_slot(front.slots[i])
                } else {
                    front.slots[i]
                }) by {}
            },
            None => {},
        }
        assert forall|n: int, i: int|
            0 <= n < next.q.nodes.len() && 0 <= i < next.q.nodes[n].slots.len() && (
            #[trigger] next.q.nodes[n].slots[i]).state_ is Waiting implies
            next.q.nodes[n].slots[i].waker_ is Some by {
            assert(p.nodes[n].slots[i].state_ is Waiting);
        }
        assert forall|i: int| 0 <= i < next.q.nodes[0].slots.len()
            && #[trigger] next.could_come_in(i, max) implies next.q.nodes[0].slots[i].kind_
            is UpgradableRead && next.upgradable_due(i) by {
            laws::law_no_wake_is_lost(p, f, max, i);
            let j = lemma_first_upgradable(front.slots, i);
            assert(front.wf());
            assert(front.slots[i].kind_.readish() == front.readish);
            assert(wait::admits(front.slots, rwcore::admits_at(front, f)->0, j));
            assert(next.q.nodes[0].slots[j].state_ is Admitted);
        }
    }
}

/// Every move keeps what is to be kept.
pub proof fn lemma_move(r: CoopRun, m: Move, next: CoopRun, max: nat)
    requires
        2 <= max,
        r.inv(max),
        r.moves(m, next, max),
    ensures
        next.inv(max),
{
    match m {
        Move::Fast(kind) => lemma_fast(r, kind, next, max),
        Move::Leave(e) => laws::lemma_event(r.sys, e, max),
        Move::SeeNobody => {},
        Move::LeaverLocks => {},
        Move::Enter(kind) => lemma_enter(r, kind, next, max),
        Move::Retry(id, slot) => lemma_retry(r, id, slot, next, max),
        Move::Claim(waker) => lemma_claim(r, waker, next, max),
        Move::GiveUp(id, slot) => lemma_give_up(r, id, slot, next, max),
        Move::Pass => lemma_pass(r, next, max),
    }
}

/// Whether the moves lead through these states, from a lock that nobody holds
/// or waits for.
pub open spec fn runs(states: Seq<CoopRun>, moves: Seq<Move>, max: nat) -> bool {
    &&& states.len() == moves.len() + 1
    &&& states[0] == CoopRun::start()
    &&& forall|i: int|
        0 <= i < moves.len() ==> (#[trigger] states[i]).moves(moves[i], states[i + 1], max)
}

/// Whatever the order in which tasks make their moves, the lock and its queue
/// are in order at all times.
pub proof fn law_always_in_order(states: Seq<CoopRun>, moves: Seq<Move>, max: nat, n: int)
    requires
        2 <= max,
        runs(states, moves, max),
        0 <= n <= moves.len(),
    ensures
        states[n].inv(max),
    decreases n,
{
    if n > 0 {
        law_always_in_order(states, moves, max, n - 1);
        assert(states[n - 1].moves(moves[n - 1], states[n - 1 + 1], max));
        lemma_move(states[n - 1], moves[n - 1], states[n], max);
    } else {
        assert(CoopRun::start().q.nodes.len() == 0);
    }
}

/// Nobody waits in vain. At any time at which the queue is not locked, and
/// nobody who has left the lock is still to look at it: if anybody waits, then
/// somebody in the first node keeps a place, and whoever of them has not been
/// woken could not come in as the state word is now, or is an upgradable reader
/// behind one that has been woken and is yet to come.
pub proof fn law_nobody_waits_in_vain(states: Seq<CoopRun>, moves: Seq<Move>, max: nat, n: int)
    requires
        2 <= max,
        runs(states, moves, max),
        0 <= n <= moves.len(),
        states[n].phase is Free,
        states[n].owed == 0,
    ensures
        states[n].settled(max),
{
    law_always_in_order(states, moves, max, n);
}

/// The marks of the queue tell, whenever it is not locked, whether anybody waits
/// and whether a writer does; the second tells so at all times.
pub proof fn law_marks_tell_the_queue(states: Seq<CoopRun>, moves: Seq<Move>, max: nat, n: int)
    requires
        2 <= max,
        runs(states, moves, max),
        0 <= n <= moves.len(),
    ensures
        states[n].sys.word.writer_queued == (states[n].q.writer_waiters > 0),
        states[n].phase is Free ==> states[n].sys.word.waiters == (states[n].q.nodes.len() > 0),
{
    law_always_in_order(states, moves, max, n);
}

/// However tasks wait, a writer holds the lock alone, but for the place as an
/// upgradable reader that it keeps itself.
pub proof fn law_writer_excludes_others(states: Seq<CoopRun>, moves: Seq<Move>, max: nat, n: int)
    requires
        2 <= max,
        runs(states, moves, max),
        0 <= n <= moves.len(),
    ensures
        ({
            let h = states[n].sys.by;
            &&& h.writers + h.upgraded <= 1
            &&& h.writers == 1 ==> h.readers == 0 && h.upgradables == 0
            &&& h.upgraded == 1 ==> h.readers == 0 && h.upgradables == 1
            &&& h.upgradables <= 1
        }),
{
    law_always_in_order(states, moves, max, n);
}

/// What `RwCore::acquire` does to the queue is that a task comes into it, tries
/// to come into the lock as the word is that the exchange saw, and decides who
/// is admitted as the word is that it looked at.
pub proof fn law_acquire_is_three_moves<D: StateWord>(
    a: Acquire<D>,
    q: QueueView,
    after: QueueView,
    kind: WaitKind,
    waker: Waker,
)
    requires
        q.wf(),
        q.next_id < u64::MAX,
        a.leads(q, after, kind, waker),
    ensures
        ({
            let p = q.pruned();
            let e = p.enqueued(kind);
            let seen = state::coop_view(a.claim.tried->0.seen());
            let looked = state::coop_view(a.pass.looked->0.seen());
            let max = state::max_readers(D::bits());
            exists|s: QueueView| #[trigger]
                claim_leads(e, s, p.id_for(kind), p.slot_for(kind) as int, seen, max, waker)
                    && pass_leads(s, after, looked)
        }),
{
    let p = q.pruned();
    let e = p.enqueued(kind);
    let id = p.id_for(kind);
    let slot = p.slot_for(kind) as int;
    let seen = state::coop_view(a.claim.tried->0.seen());
    let max = state::max_readers(D::bits());
    let s = choose|s: QueueView| #[trigger]
        a.pass.leads(s, after) && a.claim.leads(e, s, id, slot, waker);
    assert(claim_leads(e, s, id, slot, seen, max, waker));
}

/// What `RwCore::poll_acquire` does to the queue is that a task comes back to
/// its place, tries to come into the lock, and decides who is admitted.
pub proof fn law_retry_is_three_moves<D: StateWord>(
    t: Retry<D>,
    q: QueueView,
    after: QueueView,
    id: u64,
    slot: int,
    waker: Waker,
)
    requires
        q.wf(),
        q.keeps(id, slot),
        t.leads(q, after, id, slot, waker),
    ensures
        ({
            let seen = state::coop_view(t.claim.tried->0.seen());
            let looked = state::coop_view(t.pass.looked->0.seen());
            let max = state::max_readers(D::bits());
            exists|s: QueueView| #[trigger]
                claim_leads(q.pruned(), s, id, slot, seen, max, waker) && pass_leads(
                    s,
                    after,
                    looked,
                )
        }),
{
    let seen = state::coop_view(t.claim.tried->0.seen());
    let max = state::max_readers(D::bits());
    let s = choose|s: QueueView| #[trigger]
        t.pass.leads(s, after) && t.claim.leads(q.pruned(), s, id, slot, waker);
    assert(claim_leads(q.pruned(), s, id, slot, seen, max, waker));
}

/// What `RwCore::cancel_wait` does to the queue is that a task gives up its
/// place, and decides who is admitted.
pub proof fn law_give_up_is_two_moves<D: StateWord>(
    g: GiveUp<D>,
    q: QueueView,
    after: QueueView,
    id: u64,
    slot: int,
)
    requires
        q.wf(),
        q.keeps(id, slot),
        g.leads(q, after, id, slot),
    ensures
        pass_leads(
            q.settled(id, slot, SlotState::Cancelled),
            after,
            state::coop_view(g.pass.looked->0.seen()),
        ),
{
}

} // verus!
