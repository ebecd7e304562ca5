//! What a node of the queue promises the tasks that wait in it, whatever is done
//! to it.

use core::task::Waker;

use vstd::prelude::*;

use crate::rwlock::cooperative::queue;
use crate::rwlock::cooperative::queue::QueueView;
use crate::rwlock::cooperative::wait;
use crate::rwlock::cooperative::wait::{Admit, NodeView, SlotState, WaitKind};

verus! {

/// What can be done to a node.
pub ghost enum NodeCall {
    /// A reader, of either sort, joins.
    Push(WaitKind),
    /// The task at this place leaves its waker.
    SetWaker(int, Waker),
    /// The task at this place has come in or given up.
    Settle(int, SlotState),
    /// Tasks that wait are admitted.
    AdmitWaiting(Admit),
}

impl NodeCall {
    /// Whether it can be done to the node.
    pub open spec fn can(self, n: NodeView) -> bool {
        match self {
            NodeCall::Push(kind) => n.readish && kind.readish(),
            NodeCall::SetWaker(i, _) => 0 <= i < n.slots.len() && n.slots[i].state_.pending(),
            NodeCall::Settle(i, state) => 0 <= i < n.slots.len() && n.slots[i].state_.pending()
                && !state.pending(),
            NodeCall::AdmitWaiting(_) => true,
        }
    }

    /// Whether the node is `after` once it has been done.
    pub open spec fn leads(self, n: NodeView, after: NodeView) -> bool {
        match self {
            NodeCall::Push(kind) => after == (NodeView {
                slots: n.slots.push(wait::fresh_slot(kind)),
                ..n
            }),
            NodeCall::SetWaker(i, waker) => {
                &&& after == (NodeView { slots: n.slots.update(i, after.slots[i]), ..n })
                &&& wait::waker_left(n.slots[i], after.slots[i], waker)
            },
            NodeCall::Settle(i, state) => after == wait::node_with_state(n, i, state),
            NodeCall::AdmitWaiting(whom) => after == (NodeView {
                slots: wait::slots_admitted(n.slots, whom),
                ..n
            }),
        }
    }

    /// By how many the tasks change that keep a place in the node.
    pub open spec fn gain(self) -> int {
        match self {
            NodeCall::Push(_) => 1,
            NodeCall::Settle(_, _) => -1,
            _ => 0,
        }
    }
}

/// Whether a node goes through these states while this is done to it.
pub open spec fn runs(states: Seq<NodeView>, calls: Seq<NodeCall>) -> bool {
    &&& states.len() == calls.len() + 1
    &&& states[0].wf()
    &&& forall|i: int|
        0 <= i < calls.len() ==> (#[trigger] calls[i]).can(states[i]) && calls[i].leads(
            states[i],
            states[i + 1],
        )
}

/// How many more keep a place after all this.
pub open spec fn gain(calls: Seq<NodeCall>) -> int
    decreases calls.len(),
{
    if calls.len() == 0 {
        0
    } else {
        gain(calls.drop_last()) + calls.last().gain()
    }
}

/// What one call does to the places of a sound node.
proof fn lemma_call(n: NodeView, c: NodeCall, after: NodeView)
    requires
        n.wf(),
        c.can(n),
        c.leads(n, after),
    ensures
        after.wf(),
        after.id == n.id,
        after.readish == n.readish,
        after.slots.len() >= n.slots.len(),
        forall|p: int|
            0 <= p < n.slots.len() ==> (#[trigger] after.slots[p]).kind_ == n.slots[p].kind_,
        after.pending() == n.pending() + c.gain(),
{
    match c {
        NodeCall::Push(kind) => {
            assert(after.slots.drop_last() =~= n.slots);
        },
        NodeCall::SetWaker(i, _) => {
            wait::lemma_pending_update(n.slots, i, after.slots[i]);
        },
        NodeCall::Settle(i, _) => {
            wait::lemma_pending_update(n.slots, i, after.slots[i]);
        },
        NodeCall::AdmitWaiting(_) => {
            queue::lemma_pending_same(n.slots, after.slots);
        },
    }
    assert forall|p: int| 0 <= p < after.slots.len() implies (
    #[trigger] after.slots[p]).kind_.readish() == after.readish by {
        if p < n.slots.len() {
            assert(n.slots[p].kind_.readish() == n.readish);
        }
    }
}

/// A task that waits in a node keeps its place in it, and the node keeps how
/// the task wants to hold the lock, whatever is done to the node.
pub proof fn law_places_and_kinds_stay(
    states: Seq<NodeView>,
    calls: Seq<NodeCall>,
    i: int,
    j: int,
    place: int,
)
    requires
        runs(states, calls),
        0 <= i <= j < states.len(),
        0 <= place < states[i].slots.len(),
    ensures
        states[j].wf(),
        states[j].id == states[i].id,
        states[j].readish == states[i].readish,
        place < states[j].slots.len(),
        states[j].slots[place].kind_ == states[i].slots[place].kind_,
    decreases j,
{
    if i < j {
        law_places_and_kinds_stay(states, calls, i, j - 1, place);
        assert(calls[j - 1].can(states[j - 1]));
        lemma_call(states[j - 1], calls[j - 1], states[j]);
    } else {
        lemma_sound(states, calls, i);
    }
}

/// A node stays sound.
proof fn lemma_sound(states: Seq<NodeView>, calls: Seq<NodeCall>, i: int)
    requires
        runs(states, calls),
        0 <= i < states.len(),
    ensures
        states[i].wf(),
    decreases i,
{
    if i > 0 {
        lemma_sound(states, calls, i - 1);
        assert(calls[i - 1].can(states[i - 1]));
        lemma_call(states[i - 1], calls[i - 1], states[i]);
    }
}

/// The tasks that keep a place in a node are those that did at first and those
/// that have joined, without those that have come in or given up.
pub proof fn law_pending_are_those_who_stayed(states: Seq<NodeView>, calls: Seq<NodeCall>)
    requires
        runs(states, calls),
    ensures
        states.last().pending() == states[0].pending() + gain(calls),
    decreases calls.len(),
{
    if calls.len() > 0 {
        let before = states.drop_last();
        let done = calls.drop_last();
        assert forall|i: int| 0 <= i < done.len() implies (#[trigger] done[i]).can(before[i])
            && done[i].leads(before[i], before[i + 1]) by {
            assert(calls[i].can(states[i]));
        }
        law_pending_are_those_who_stayed(before, done);
        let k = calls.len() - 1;
        lemma_sound(states, calls, k);
        assert(calls[k].can(states[k]));
        lemma_call(states[k], calls[k], states[k + 1]);
    }
}

/// Whether a queue goes through these states while others than the task at this
/// place come into it, try again, come in, give up or are admitted.
pub open spec fn others_use(qs: Seq<QueueView>, id: u64, slot: int) -> bool {
    &&& qs.len() > 0
    &&& forall|i: int|
        0 <= i < qs.len() - 1 ==> (#[trigger] qs[i]).kept_in(qs[i + 1]) || exists|
            id2: u64,
            slot2: int,
        |
            (id2 != id || slot2 != slot) && #[trigger] qs[i].others_kept_in(qs[i + 1], id2, slot2)
}

/// A task that waits keeps its place in the queue, and the queue keeps how the
/// task wants to hold the lock, whatever others do.
pub proof fn law_place_in_the_queue_stays(qs: Seq<QueueView>, id: u64, slot: int)
    requires
        others_use(qs, id, slot),
        qs[0].keeps(id, slot),
    ensures
        qs.last().keeps(id, slot),
        qs.last().kind_of(id, slot) == qs[0].kind_of(id, slot),
    decreases qs.len(),
{
    if qs.len() > 1 {
        let before = qs.drop_last();
        assert forall|i: int| 0 <= i < before.len() - 1 implies (#[trigger] before[i]).kept_in(
            before[i + 1],
        ) || exists|id2: u64, slot2: int|
            (id2 != id || slot2 != slot) && #[trigger] before[i].others_kept_in(
                before[i + 1],
                id2,
                slot2,
            ) by {
            assert(qs[i].kept_in(qs[i + 1]) || exists|id2: u64, slot2: int|
                (id2 != id || slot2 != slot) && #[trigger] qs[i].others_kept_in(
                    qs[i + 1],
                    id2,
                    slot2,
                ));
        }
        law_place_in_the_queue_stays(before, id, slot);
        let q = qs[qs.len() - 2];
        assert(q.keeps(id, slot));
    }
}

} // verus!
