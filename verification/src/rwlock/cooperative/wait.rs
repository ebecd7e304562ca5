//! What the queue of a cooperative lock is made of: a spin lock, and nodes in
//! which tasks wait.

use core::sync::atomic::{AtomicUsize, Ordering};
use core::task::Waker;

use vstd::prelude::*;

verus! {

/// `core::task::Waker`: a handle that wakes a task.
#[verifier::external_type_specification]
#[verifier::external_body]
pub struct ExWaker(std::task::Waker);

/// `Waker::will_wake`: whether two handles wake the same task. By its
/// documentation it may answer `false` even where they do, so nothing is
/// claimed of the answer.
pub assume_specification[ std::task::Waker::will_wake ](
    waker: &std::task::Waker,
    other: &std::task::Waker,
) -> bool;

/// `Waker::clone`: another handle that wakes the same task. The runtime of the
/// task makes it, so nothing is claimed of it beyond its being a clone.
pub assume_specification[ <std::task::Waker as Clone>::clone ](waker: &std::task::Waker) -> (r:
    std::task::Waker);

/// What the atomic of a spin lock holds while nobody holds the lock.
pub const SPIN_FREE: usize = 0;

/// What the atomic of a spin lock holds while somebody holds the lock.
pub const SPIN_HELD: usize = 1;

/// A minimal spin lock. It guards the queue of one lock, for a few moves of
/// memory at a time. No task may be woken, and nothing else may be done that
/// yields, while it is held.
pub struct SpinLock {
    locked_: AtomicUsize,
}

/// The right to what a [`SpinLock`] guards.
pub struct SpinLockGuard<'a> {
    lock_: &'a SpinLock,
}

impl SpinLock {
    /// The atomic that is one while the lock is held, and else zero.
    pub closed spec fn atomic(self) -> AtomicUsize {
        self.locked_
    }

    /// A lock over an atomic that holds zero.
    pub fn new(locked: AtomicUsize) -> (r: Self)
        ensures
            r.atomic() == locked,
    {
        SpinLock { locked_: locked }
    }

    /// Tries to take the lock, at most `turns` times, and takes it as soon as
    /// an exchange of zero for one succeeds.
    pub fn lock(&self, turns: usize) -> (r: Option<SpinLockGuard<'_>>)
        ensures
            r matches Some(g) ==> g.lock() == self,
            exists|seen: Seq<usize>| #[trigger]
                exchanges_failed(self.atomic(), seen) && match r {
                    Some(_) => seen.len() < turns && exists|x: usize| #[trigger]
                        exchange_gave(self.atomic(), Ok(x)),
                    None => seen.len() == turns,
                },
    {
        let ghost mut seen: Seq<usize> = Seq::empty();
        let mut left: usize = turns;
        while left > 0
            invariant
                left <= turns,
                seen.len() == turns - left,
                exchanges_failed(self.atomic(), seen),
            decreases left,
        {
            left = left - 1;
            let r = self.locked_.compare_exchange_weak(
                SPIN_FREE,
                SPIN_HELD,
                Ordering::Acquire,
                Ordering::Relaxed,
            );
            assert(exchange_gave(self.atomic(), r));
            match guard_of_(self, r) {
                Some(g) => {
                    assert(exchange_gave(self.atomic(), Ok(r->Ok_0)));
                    return Some(g);
                },
                None => {},
            }
            proof {
                seen = seen.push(r->Err_0);
            }
        }
        None
    }

    /// Gives the lock back. Only who holds it may.
    pub fn unlock_(&self)
        ensures
            zero_stored(self.atomic()),
    {
        self.locked_.store(SPIN_FREE, Ordering::Release);
    }
}

/// Whether `r` can come back from an exchange of zero for one in the atomic.
pub open spec fn exchange_gave(atomic: AtomicUsize, r: Result<usize, usize>) -> bool {
    call_ensures(
        AtomicUsize::compare_exchange_weak,
        (&atomic, SPIN_FREE, SPIN_HELD, Ordering::Acquire, Ordering::Relaxed),
        r,
    )
}

/// Whether each of these came back from an exchange that failed.
pub open spec fn exchanges_failed(atomic: AtomicUsize, seen: Seq<usize>) -> bool {
    forall|i: int| 0 <= i < seen.len() ==> exchange_gave(atomic, Err(#[trigger] seen[i]))
}

/// Whether zero can have been stored in the atomic.
pub open spec fn zero_stored(atomic: AtomicUsize) -> bool {
    call_ensures(AtomicUsize::store, (&atomic, SPIN_FREE, Ordering::Release), ())
}

/// What happens to a spin lock: somebody takes it by an exchange that hands
/// back this, or who holds it gives it back.
pub enum SpinEvent {
    Take(usize),
    GiveBack,
}

/// What the atomic of a spin lock holds after the events.
pub open spec fn spin_word(es: Seq<SpinEvent>) -> usize {
    if es.len() > 0 && es.last() is Take {
        SPIN_HELD
    } else {
        SPIN_FREE
    }
}

/// How many hold the lock after the events.
pub open spec fn spin_holders(es: Seq<SpinEvent>) -> int
    decreases es.len(),
{
    if es.len() == 0 {
        0
    } else if es.last() is Take {
        spin_holders(es.drop_last()) + 1
    } else {
        spin_holders(es.drop_last()) - 1
    }
}

/// Whether the events can happen, one after the other, as [`SpinLock::lock`]
/// and [`SpinLock::unlock_`] run on the atomic of a lock: who takes the lock
/// does so by an exchange that hands back what the atomic held, which was zero,
/// and who gives it back holds it, and stores zero.
pub open spec fn spin_can(atomic: AtomicUsize, es: Seq<SpinEvent>) -> bool
    decreases es.len(),
{
    es.len() > 0 ==> {
        &&& spin_can(atomic, es.drop_last())
        &&& match es.last() {
            SpinEvent::Take(x) => {
                &&& exchange_gave(atomic, Ok(x))
                &&& x == spin_word(es.drop_last())
                &&& x == SPIN_FREE
            },
            SpinEvent::GiveBack => zero_stored(atomic) && spin_holders(es.drop_last()) > 0,
        }
    }
}

/// At most one holds a spin lock at any time, and the atomic says whether one
/// does.
pub proof fn law_spin_lock_excludes(atomic: AtomicUsize, es: Seq<SpinEvent>)
    requires
        spin_can(atomic, es),
    ensures
        0 <= spin_holders(es) <= 1,
        spin_holders(es) == 1 <==> spin_word(es) == SPIN_HELD,
    decreases es.len(),
{
    if es.len() > 0 {
        law_spin_lock_excludes(atomic, es.drop_last());
    }
}

/// The guard of a task whose exchange of zero for one ended like this.
pub fn guard_of_<'a>(lock: &'a SpinLock, r: Result<usize, usize>) -> (g: Option<SpinLockGuard<'a>>)
    requires
        exchange_gave(lock.atomic(), r),
    ensures
        g is Some <==> r is Ok,
        g matches Some(x) ==> x.lock() == lock,
{
    match r {
        Ok(_) => Some(SpinLockGuard { lock_: lock }),
        Err(_) => None,
    }
}

impl<'a> SpinLockGuard<'a> {
    pub closed spec fn lock(self) -> &'a SpinLock {
        self.lock_
    }

    /// Gives the lock back.
    pub fn release(self)
        ensures
            zero_stored(self.lock().atomic()),
    {
        self.lock_.unlock_()
    }
}

/// How a waiting task wants to hold the lock.
#[derive(Clone, Copy, Debug, PartialEq, Eq, Structural)]
pub enum WaitKind {
    /// As a reader.
    Read,
    /// As an upgradable reader.
    UpgradableRead,
    /// As a writer, while it is an upgradable reader.
    Upgrade,
    /// As a writer.
    Write,
}

impl WaitKind {
    /// Whether the task can share the lock, and a node, with readers.
    pub open spec fn readish(self) -> bool {
        self is Read || self is UpgradableRead
    }

    pub fn is_readish(self) -> (r: bool)
        ensures
            r == self.readish(),
    {
        match self {
            WaitKind::Read | WaitKind::UpgradableRead => true,
            _ => false,
        }
    }
}

/// How far a waiting task has come.
#[derive(Clone, Copy, Debug, PartialEq, Eq, Structural)]
pub enum SlotState {
    /// It waits to be admitted.
    Waiting,
    /// It has been admitted, and its waker handed out, but it has not come yet
    /// to take what it was admitted to.
    Admitted,
    /// It was admitted, and has come in.
    Acquired,
    /// It has given up.
    Cancelled,
}

impl SlotState {
    /// Whether the task still keeps its place in the queue.
    pub open spec fn pending(self) -> bool {
        self is Waiting || self is Admitted
    }

    pub fn is_pending(self) -> (r: bool)
        ensures
            r == self.pending(),
    {
        match self {
            SlotState::Waiting | SlotState::Admitted => true,
            _ => false,
        }
    }
}

/// A task in a node.
pub struct WaiterSlot {
    pub kind_: WaitKind,
    pub waker_: Option<Waker>,
    pub state_: SlotState,
}

/// A task that has just come into a node.
pub open spec fn fresh_slot(kind: WaitKind) -> WaiterSlot {
    WaiterSlot { kind_: kind, waker_: None, state_: SlotState::Waiting }
}

/// Adds a task to a node, and says at which place.
pub fn push_slot_into_(slots: &mut Vec<WaiterSlot>, kind: WaitKind) -> (r: usize)
    ensures
        final(slots)@ == old(slots)@.push(fresh_slot(kind)),
        r == old(slots)@.len(),
{
    let r: usize = slots.len();
    slots.push(WaiterSlot { kind_: kind, waker_: None, state_: SlotState::Waiting });
    r
}

/// A node of the queue, as contracts see it.
#[verifier::ext_equal]
pub struct NodeView {
    /// The number by which tasks find their node again.
    pub id: u64,
    /// Whether the tasks in the node can share the lock.
    pub readish: bool,
    pub slots: Seq<WaiterSlot>,
}

impl NodeView {
    /// A node holds readers, of both sorts, or a single task that wants the
    /// lock for itself.
    pub open spec fn wf(self) -> bool {
        &&& self.slots.len() > 0
        &&& !self.readish ==> self.slots.len() == 1
        &&& forall|i: int|
            0 <= i < self.slots.len() ==> (#[trigger] self.slots[i]).kind_.readish()
                == self.readish
    }

    /// How many tasks in the node still keep their place.
    pub open spec fn pending(self) -> nat {
        pending_in(self.slots)
    }
}

/// How many tasks still keep their place.
pub open spec fn pending_in(slots: Seq<WaiterSlot>) -> nat
    decreases slots.len(),
{
    if slots.len() == 0 {
        0
    } else {
        pending_in(slots.drop_last()) + (if slots.last().state_.pending() {
            1nat
        } else {
            0
        })
    }
}

/// Tasks keep a place just where there is one that does.
pub proof fn lemma_pending(slots: Seq<WaiterSlot>)
    ensures
        pending_in(slots) <= slots.len(),
        pending_in(slots) > 0 <==> exists|i: int|
            0 <= i < slots.len() && (#[trigger] slots[i]).state_.pending(),
    decreases slots.len(),
{
    if slots.len() > 0 {
        let init = slots.drop_last();
        lemma_pending(init);
        if pending_in(init) > 0 {
            let i = choose|i: int| 0 <= i < init.len() && (#[trigger] init[i]).state_.pending();
            assert(slots[i].state_.pending());
        }
        if exists|i: int| 0 <= i < slots.len() && (#[trigger] slots[i]).state_.pending() {
            let i = choose|i: int| 0 <= i < slots.len() && (#[trigger] slots[i]).state_.pending();
            if i < slots.len() - 1 {
                assert(init[i].state_.pending());
            }
        }
    }
}

/// How the number of tasks that keep their place changes with one of them.
pub proof fn lemma_pending_update(slots: Seq<WaiterSlot>, i: int, s: WaiterSlot)
    requires
        0 <= i < slots.len(),
    ensures
        pending_in(slots.update(i, s)) + (if slots[i].state_.pending() {
            1int
        } else {
            0
        }) == pending_in(slots) + (if s.state_.pending() {
            1int
        } else {
            0
        }),
    decreases slots.len(),
{
    let init = slots.drop_last();
    if i < slots.len() - 1 {
        lemma_pending_update(init, i, s);
        assert(slots.update(i, s).drop_last() =~= init.update(i, s));
    } else {
        assert(slots.update(i, s).drop_last() =~= init);
    }
}

/// Whom a node admits.
#[derive(Clone, Copy, Debug, PartialEq, Eq, Structural)]
pub enum Admit {
    /// Every task that waits.
    All,
    /// Every reader that waits, and one upgradable reader unless there is one
    /// already, as said here.
    Readers(bool),
}

/// Whether a task among those at the first `n` places is an upgradable reader
/// that waits.
pub open spec fn upgradable_before(slots: Seq<WaiterSlot>, n: int) -> bool {
    exists|j: int|
        0 <= j < n && (#[trigger] slots[j]).state_ is Waiting && slots[j].kind_ is UpgradableRead
}

/// Whether the task at the place `i` is admitted. It must have left a waker.
pub open spec fn admits(slots: Seq<WaiterSlot>, whom: Admit, i: int) -> bool {
    &&& slots[i].state_ is Waiting
    &&& slots[i].waker_ is Some
    &&& match whom {
        Admit::All => true,
        Admit::Readers(taken) => match slots[i].kind_ {
            WaitKind::Read => true,
            WaitKind::UpgradableRead => !taken && !upgradable_before(slots, i),
            _ => false,
        },
    }
}

/// A task that has been admitted: its waker has been handed out.
pub open spec fn admitted_slot(s: WaiterSlot) -> WaiterSlot {
    WaiterSlot { state_: SlotState::Admitted, waker_: None, ..s }
}

/// The tasks of a node after it has admitted some.
pub open spec fn slots_admitted(slots: Seq<WaiterSlot>, whom: Admit) -> Seq<WaiterSlot> {
    Seq::new(
        slots.len(),
        |i: int|
            if admits(slots, whom, i) {
                admitted_slot(slots[i])
            } else {
                slots[i]
            },
    )
}

/// The wakers of those admitted at the first `n` places, in order.
pub open spec fn wakers_handed(slots: Seq<WaiterSlot>, whom: Admit, n: int) -> Seq<Waker>
    decreases n,
{
    if n <= 0 {
        Seq::empty()
    } else if admits(slots, whom, n - 1) {
        wakers_handed(slots, whom, n - 1).push(slots[n - 1].waker_->0)
    } else {
        wakers_handed(slots, whom, n - 1)
    }
}

/// A node of the queue. Readers that come one after the other share a node, and
/// are admitted together; a task that wants the lock for itself has a node of
/// its own. A task that gives up leaves the others in its node alone.
pub struct WaitNode {
    id_: u64,
    readish_: bool,
    slots_: Vec<WaiterSlot>,
}

impl View for WaitNode {
    type V = NodeView;

    closed spec fn view(&self) -> NodeView {
        NodeView { id: self.id_, readish: self.readish_, slots: self.slots_@ }
    }
}

impl WaitNode {
    /// A node with the number `id` and one task, and the place of the task.
    pub fn new(id: u64, kind: WaitKind) -> (r: (Self, usize))
        ensures
            r.0@ == (NodeView { id, readish: kind.readish(), slots: seq![fresh_slot(kind)] }),
            r.0@.wf(),
            r.1 == 0,
    {
        let mut slots: Vec<WaiterSlot> = Vec::new();
        let slot: usize = push_slot_into_(&mut slots, kind);
        let node = WaitNode { id_: id, readish_: kind.is_readish(), slots_: slots };
        assert(node@.slots =~= seq![fresh_slot(kind)]);
        (node, slot)
    }

    pub fn id(&self) -> (r: u64)
        ensures
            r == self@.id,
    {
        self.id_
    }

    pub fn is_readish(&self) -> (r: bool)
        ensures
            r == self@.readish,
    {
        self.readish_
    }

    /// How many places the node has.
    pub fn slot_count(&self) -> (r: usize)
        ensures
            r == self@.slots.len(),
    {
        self.slots_.len()
    }

    /// How the task at this place wants to hold the lock.
    pub fn slot_kind(&self, slot: usize) -> (r: WaitKind)
        requires
            slot < self@.slots.len(),
        ensures
            r == self@.slots[slot as int].kind_,
    {
        self.slots_[slot].kind_
    }

    /// How far the task at this place has come.
    pub fn slot_state(&self, slot: usize) -> (r: SlotState)
        requires
            slot < self@.slots.len(),
        ensures
            r == self@.slots[slot as int].state_,
    {
        self.slots_[slot].state_
    }

    /// How the single task of a node wants to hold the lock that it wants for
    /// itself.
    pub fn solo_kind(&self) -> (r: WaitKind)
        requires
            self@.wf(),
            !self@.readish,
        ensures
            r == self@.slots[0].kind_,
            !r.readish(),
    {
        self.slot_kind(0)
    }

    /// Adds a reader, of either sort, to a node of readers.
    pub fn push_readish_slot(&mut self, kind: WaitKind) -> (r: usize)
        requires
            old(self)@.wf(),
            old(self)@.readish,
            kind.readish(),
        ensures
            final(self)@ == (NodeView {
                slots: old(self)@.slots.push(fresh_slot(kind)),
                ..old(self)@
            }),
            final(self)@.wf(),
            r == old(self)@.slots.len(),
    {
        push_slot_into_(&mut self.slots_, kind)
    }

    /// Leaves the waker of a task, which waits from now on, also where it had
    /// been admitted before. A waker that wakes the same task is kept.
    pub fn set_waker(&mut self, slot: usize, waker: &Waker)
        requires
            slot < old(self)@.slots.len(),
        ensures
            final(self)@.id == old(self)@.id,
            final(self)@.readish == old(self)@.readish,
            final(self)@.slots == old(self)@.slots.update(
                slot as int,
                final(self)@.slots[slot as int],
            ),
            waker_left(old(self)@.slots[slot as int], final(self)@.slots[slot as int], *waker),
            old(self)@.slots[slot as int].state_.pending() ==> final(self)@.pending()
                == old(self)@.pending(),
    {
        let ghost before = self@;
        let old_waker = self.slots_[slot].waker_.take();
        let kept = match old_waker {
            Some(w) => {
                if w.will_wake(waker) {
                    w
                } else {
                    waker.clone()
                }
            },
            None => waker.clone(),
        };
        let kind = self.slots_[slot].kind_;
        self.slots_[slot] = WaiterSlot {
            kind_: kind,
            waker_: Some(kept),
            state_: SlotState::Waiting,
        };
        proof {
            let after = self@.slots[slot as int];
            assert(self@.slots =~= before.slots.update(slot as int, after));
            lemma_pending_update(before.slots, slot as int, after);
        }
    }

    /// The task at this place has come in.
    pub fn mark_acquired(&mut self, slot: usize)
        requires
            slot < old(self)@.slots.len(),
            old(self)@.slots[slot as int].state_.pending(),
        ensures
            final(self)@ == node_with_state(old(self)@, slot as int, SlotState::Acquired),
    {
        self.set_state_(slot, SlotState::Acquired);
    }

    /// The task at this place has given up.
    pub fn mark_cancelled(&mut self, slot: usize)
        requires
            slot < old(self)@.slots.len(),
            old(self)@.slots[slot as int].state_.pending(),
        ensures
            final(self)@ == node_with_state(old(self)@, slot as int, SlotState::Cancelled),
    {
        self.set_state_(slot, SlotState::Cancelled);
    }

    /// Settles a task that kept its place. Its waker is of no more use.
    pub fn set_state_(&mut self, slot: usize, state: SlotState)
        requires
            slot < old(self)@.slots.len(),
            old(self)@.slots[slot as int].state_.pending(),
        ensures
            final(self)@ == node_with_state(old(self)@, slot as int, state),
    {
        let kind = self.slots_[slot].kind_;
        self.slots_[slot] = WaiterSlot { kind_: kind, waker_: None, state_: state };
    }

    /// How many tasks still keep their place. Where it is zero, the place of
    /// the node in the queue can be given up.
    pub fn pending_count(&self) -> (r: usize)
        ensures
            r == self@.pending(),
    {
        let mut n: usize = 0;
        let mut i: usize = 0;
        while i < self.slots_.len()
            invariant
                i <= self@.slots.len(),
                self@.slots == self.slots_@,
                n <= i,
                n == pending_in(self@.slots.take(i as int)),
            decreases self.slots_.len() - i,
        {
            proof {
                assert(self@.slots.take(i + 1).drop_last() =~= self@.slots.take(i as int));
            }
            if self.slots_[i].state_.is_pending() {
                n = n + 1;
            }
            i = i + 1;
        }
        proof {
            assert(self@.slots.take(i as int) =~= self@.slots);
        }
        n
    }

    /// Admits tasks that wait, and hands out their wakers. One that has been
    /// admitted is not admitted again before it has come and left its waker
    /// anew.
    pub fn admit_waiting(&mut self, out: &mut Vec<Waker>, whom: Admit)
        ensures
            final(self)@ == (NodeView {
                slots: slots_admitted(old(self)@.slots, whom),
                ..old(self)@
            }),
            final(out)@ == old(out)@ + wakers_handed(
                old(self)@.slots,
                whom,
                old(self)@.slots.len() as int,
            ),
    {
        let ghost slots = self@.slots;
        let ghost out0 = out@;
        let mut taken: bool = match whom {
            Admit::All => false,
            Admit::Readers(t) => t,
        };
        let mut i: usize = 0;
        proof {
            assert(out@ =~= out0 + wakers_handed(slots, whom, 0));
        }
        while i < self.slots_.len()
            invariant
                slots == old(self)@.slots,
                self@.id == old(self)@.id,
                self@.readish == old(self)@.readish,
                self@.slots == self.slots_@,
                self@.slots.len() == slots.len(),
                i <= slots.len(),
                whom matches Admit::Readers(t) ==> taken == (t || upgradable_before(
                    slots,
                    i as int,
                )),
                forall|j: int|
                    0 <= j < i ==> #[trigger] self@.slots[j] == slots_admitted(slots, whom)[j],
                forall|j: int| i <= j < slots.len() ==> #[trigger] self@.slots[j] == slots[j],
                out@ == out0 + wakers_handed(slots, whom, i as int),
            decreases self.slots_.len() - i,
        {
            let ghost s = slots[i as int];
            let ghost before = upgradable_before(slots, i as int);
            let ghost n = i as int;
            let kind = self.slots_[i].kind_;
            let waits = match self.slots_[i].state_ {
                SlotState::Waiting => true,
                _ => false,
            };
            let allowed = if waits {
                match whom {
                    Admit::All => true,
                    Admit::Readers(_) => match kind {
                        WaitKind::Read => true,
                        WaitKind::UpgradableRead => {
                            let free = !taken;
                            taken = true;
                            free
                        },
                        _ => false,
                    },
                }
            } else {
                false
            };
            proof {
                lemma_upgradable_before(slots, n);
            }
            if allowed {
                match self.slots_[i].waker_.take() {
                    Some(w) => {
                        self.slots_[i] = WaiterSlot {
                            kind_: kind,
                            waker_: None,
                            state_: SlotState::Admitted,
                        };
                        out.push(w);
                        assert(admits(slots, whom, n));
                    },
                    None => {
                        assert(!admits(slots, whom, n));
                        assert(self@.slots[n] == s);
                    },
                }
            } else {
                assert(!admits(slots, whom, n));
            }
            assert(out@ =~= out0 + wakers_handed(slots, whom, n + 1));
            i = i + 1;
        }
        assert(self@.slots =~= slots_admitted(slots, whom));
    }
}

/// What the place of a task is after it has left a waker: the one that was
/// there is kept where it was asked and answered that it wakes the same task,
/// and is replaced by a clone otherwise.
pub open spec fn waker_left(before: WaiterSlot, after: WaiterSlot, waker: Waker) -> bool {
    &&& after.kind_ == before.kind_
    &&& after.state_ is Waiting
    &&& after.waker_ matches Some(w) && ((before.waker_ == Some(w) && call_ensures(
        Waker::will_wake,
        (&w, &waker),
        true,
    )) || cloned(waker, w))
}

/// A node with the task at a place settled.
pub open spec fn node_with_state(n: NodeView, slot: int, state: SlotState) -> NodeView {
    NodeView {
        slots: n.slots.update(
            slot,
            WaiterSlot { state_: state, waker_: None, ..n.slots[slot] },
        ),
        ..n
    }
}

/// One place more.
proof fn lemma_upgradable_before(slots: Seq<WaiterSlot>, n: int)
    requires
        0 <= n < slots.len(),
    ensures
        upgradable_before(slots, n + 1) <==> upgradable_before(slots, n) || (slots[n].state_
            is Waiting && slots[n].kind_ is UpgradableRead),
{
    if slots[n].state_ is Waiting && slots[n].kind_ is UpgradableRead {
        assert(slots[n].state_ is Waiting);
    }
    if upgradable_before(slots, n) {
        let j = choose|j: int|
            0 <= j < n && (#[trigger] slots[j]).state_ is Waiting && slots[j].kind_
                is UpgradableRead;
        assert(0 <= j < n + 1 && slots[j].state_ is Waiting);
    }
}

} // verus!
