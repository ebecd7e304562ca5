//! The queue in which tasks wait for a cooperative lock.

use std::collections::VecDeque;

use core::task::Waker;

use vstd::prelude::*;

use crate::rwlock::cooperative::wait;
use crate::rwlock::cooperative::wait::{
    Admit, NodeView, SlotState, WaitKind, WaitNode, WaiterSlot,
};

verus! {

/// A queue, as contracts see it.
#[verifier::ext_equal]
pub struct QueueView {
    /// The nodes, the longest waiting one first.
    pub nodes: Seq<NodeView>,
    /// How many tasks that want the lock for themselves keep a place.
    pub writer_waiters: nat,
    /// The number that the next node gets.
    pub next_id: nat,
}

/// How much a node counts for among those that want the lock for themselves.
pub open spec fn weight(n: NodeView) -> nat {
    if !n.readish && n.pending() > 0 {
        1
    } else {
        0
    }
}

/// How many tasks that want the lock for themselves keep a place in the nodes.
pub open spec fn exclusives(nodes: Seq<NodeView>) -> nat
    decreases nodes.len(),
{
    if nodes.len() == 0 {
        0
    } else {
        weight(nodes[0]) + exclusives(nodes.drop_first())
    }
}

/// How many nodes at the front have nobody left in them.
pub open spec fn dead_front(nodes: Seq<NodeView>) -> nat
    decreases nodes.len(),
{
    if nodes.len() > 0 && nodes[0].pending() == 0 {
        1 + dead_front(nodes.drop_first())
    } else {
        0
    }
}

impl QueueView {
    /// The nodes have numbers of their own, and the count is that of the tasks
    /// that want the lock for themselves.
    pub open spec fn wf(self) -> bool {
        &&& forall|i: int|
            0 <= i < self.nodes.len() ==> (#[trigger] self.nodes[i]).wf() && self.nodes[i].id
                < self.next_id
        &&& forall|i: int, j: int|
            0 <= i < j < self.nodes.len() ==> (#[trigger] self.nodes[i]).id != (
            #[trigger] self.nodes[j]).id
        &&& self.writer_waiters == exclusives(self.nodes)
        &&& self.writer_waiters <= self.nodes.len()
    }

    /// A queue in which nobody waits.
    pub open spec fn empty() -> QueueView {
        QueueView { nodes: Seq::empty(), writer_waiters: 0, next_id: 0 }
    }

    /// Whether the node with the number `id` is at the place `i`.
    pub open spec fn has_at(self, id: u64, i: int) -> bool {
        0 <= i < self.nodes.len() && self.nodes[i].id == id
    }

    /// The place of the node with the number `id`.
    pub open spec fn place(self, id: u64) -> int {
        choose|i: int| self.has_at(id, i)
    }

    /// Whether the node with this number is in the queue, and the task at this
    /// place in it still keeps it.
    pub open spec fn keeps(self, id: u64, slot: int) -> bool {
        &&& exists|i: int| self.has_at(id, i)
        &&& 0 <= slot < self.nodes[self.place(id)].slots.len()
        &&& self.nodes[self.place(id)].slots[slot].state_.pending()
    }

    /// How the task at this place wants to hold the lock.
    pub open spec fn kind_of(self, id: u64, slot: int) -> WaitKind {
        self.nodes[self.place(id)].slots[slot].kind_
    }

    /// Whether everybody who keeps a place here does so in `after`, and wants
    /// to hold the lock as before.
    pub open spec fn kept_in(self, after: QueueView) -> bool {
        forall|id: u64, slot: int| #[trigger]
            self.keeps(id, slot) ==> after.keeps(id, slot) && after.kind_of(id, slot)
                == self.kind_of(id, slot)
    }

    /// The same of everybody but the task at this place.
    pub open spec fn others_kept_in(self, after: QueueView, id: u64, slot: int) -> bool {
        forall|id2: u64, slot2: int| #[trigger]
            self.keeps(id2, slot2) && (id2 != id || slot2 != slot) ==> after.keeps(id2, slot2)
                && after.kind_of(id2, slot2) == self.kind_of(id2, slot2)
    }

    /// Whether nobody keeps a place in `after` that was not kept here, but for
    /// the task at this place.
    pub open spec fn adds_only(self, after: QueueView, id: u64, slot: int) -> bool {
        forall|id2: u64, slot2: int| #[trigger]
            after.keeps(id2, slot2) && (id2 != id || slot2 != slot) ==> self.keeps(id2, slot2)
    }

    /// Whether the node with this number comes first.
    pub open spec fn is_head(self, id: u64) -> bool {
        self.nodes.len() > 0 && self.nodes[0].id == id
    }

    /// The queue without the nodes at its front that nobody is left in.
    pub open spec fn pruned(self) -> QueueView {
        QueueView { nodes: self.nodes.skip(dead_front(self.nodes) as int), ..self }
    }

    /// Whether a task joins the last node: a reader, behind readers.
    pub open spec fn joins(self, kind: WaitKind) -> bool {
        kind.readish() && self.nodes.len() > 0 && self.nodes.last().readish
    }

    /// The number of the node that a task comes into.
    pub open spec fn id_for(self, kind: WaitKind) -> u64 {
        if self.joins(kind) {
            self.nodes.last().id
        } else {
            self.next_id as u64
        }
    }

    /// The place in the node that a task comes into.
    pub open spec fn slot_for(self, kind: WaitKind) -> nat {
        if self.joins(kind) {
            self.nodes.last().slots.len()
        } else {
            0
        }
    }

    /// The queue after a task has come into it. A reader behind readers joins
    /// them; an upgradable reader that is to become a writer comes in front of
    /// all, since those behind wait for it to leave; everybody else comes last.
    pub open spec fn enqueued(self, kind: WaitKind) -> QueueView {
        let fresh = NodeView {
            id: self.next_id as u64,
            readish: kind.readish(),
            slots: seq![wait::fresh_slot(kind)],
        };
        if self.joins(kind) {
            let tail = self.nodes.last();
            QueueView {
                nodes: self.nodes.update(
                    self.nodes.len() - 1,
                    NodeView { slots: tail.slots.push(wait::fresh_slot(kind)), ..tail },
                ),
                ..self
            }
        } else {
            QueueView {
                nodes: if kind is Upgrade {
                    seq![fresh] + self.nodes
                } else {
                    self.nodes.push(fresh)
                },
                writer_waiters: self.writer_waiters + (if kind.readish() {
                    0nat
                } else {
                    1
                }),
                next_id: self.next_id + 1,
            }
        }
    }

    /// The queue after the task at this place has come in or given up.
    pub open spec fn settled(self, id: u64, slot: int, state: SlotState) -> QueueView {
        let i = self.place(id);
        QueueView {
            nodes: self.nodes.update(i, wait::node_with_state(self.nodes[i], slot, state)),
            writer_waiters: if self.nodes[i].readish {
                self.writer_waiters
            } else {
                (self.writer_waiters - 1) as nat
            },
            ..self
        }
    }

    /// Whether `after` is the queue after the task at this place has left its
    /// waker.
    pub open spec fn waker_set(self, after: QueueView, id: u64, slot: int, waker: Waker) -> bool {
        let i = self.place(id);
        let a = self.nodes[i].slots[slot];
        let b = after.nodes[i].slots[slot];
        &&& wait::waker_left(a, b, waker)
        &&& after == (QueueView {
            nodes: self.nodes.update(
                i,
                NodeView { slots: self.nodes[i].slots.update(slot, b), ..self.nodes[i] },
            ),
            ..self
        })
    }
}

/// The nodes of two queues, one behind the other, count together.
pub proof fn lemma_exclusives_add(a: Seq<NodeView>, b: Seq<NodeView>)
    ensures
        exclusives(a + b) == exclusives(a) + exclusives(b),
    decreases a.len(),
{
    if a.len() == 0 {
        assert(a + b =~= b);
    } else {
        assert((a + b).drop_first() =~= a.drop_first() + b);
        lemma_exclusives_add(a.drop_first(), b);
    }
}

/// A single node counts for itself.
proof fn lemma_exclusives_one(n: NodeView)
    ensures
        exclusives(seq![n]) == weight(n),
{
    assert(seq![n].drop_first() =~= Seq::<NodeView>::empty());
    assert(exclusives(Seq::<NodeView>::empty()) == 0);
}

/// What replacing one node does to the count.
pub proof fn lemma_exclusives_update(nodes: Seq<NodeView>, i: int, n: NodeView)
    requires
        0 <= i < nodes.len(),
    ensures
        exclusives(nodes.update(i, n)) + weight(nodes[i]) == exclusives(nodes) + weight(n),
{
    let a = nodes.take(i);
    let b = nodes.skip(i + 1);
    assert(nodes =~= a + (seq![nodes[i]] + b));
    assert(nodes.update(i, n) =~= a + (seq![n] + b));
    lemma_exclusives_add(a, seq![nodes[i]] + b);
    lemma_exclusives_add(seq![nodes[i]], b);
    lemma_exclusives_add(a, seq![n] + b);
    lemma_exclusives_add(seq![n], b);
    lemma_exclusives_one(n);
    lemma_exclusives_one(nodes[i]);
}

/// Nodes that nobody is left in come away without a change of the count, and
/// what then comes first has somebody in it.
pub proof fn lemma_dead_front(nodes: Seq<NodeView>)
    ensures
        dead_front(nodes) <= nodes.len(),
        exclusives(nodes.skip(dead_front(nodes) as int)) == exclusives(nodes),
        dead_front(nodes) < nodes.len() ==> nodes[dead_front(nodes) as int].pending() > 0,
        forall|i: int| 0 <= i < dead_front(nodes) ==> (#[trigger] nodes[i]).pending() == 0,
    decreases nodes.len(),
{
    if nodes.len() > 0 && nodes[0].pending() == 0 {
        let rest = nodes.drop_first();
        lemma_dead_front(rest);
        assert(nodes.skip(dead_front(nodes) as int) =~= rest.skip(dead_front(rest) as int));
        assert forall|i: int| 0 <= i < dead_front(nodes) implies (#[trigger] nodes[i]).pending()
            == 0 by {
            if i > 0 {
                assert(rest[i - 1].pending() == 0);
            }
        }
    } else {
        assert(nodes.skip(0) =~= nodes);
    }
}

/// The count is at most the number of nodes.
pub proof fn lemma_exclusives_bound(nodes: Seq<NodeView>)
    ensures
        exclusives(nodes) <= nodes.len(),
    decreases nodes.len(),
{
    if nodes.len() > 0 {
        lemma_exclusives_bound(nodes.drop_first());
    }
}

/// A first node in which a task keeps a place that wants the lock for itself
/// counts.
pub proof fn lemma_front_counts(q: QueueView)
    requires
        q.wf(),
        q.nodes.len() > 0,
        !q.nodes[0].readish,
        q.nodes[0].pending() > 0,
    ensures
        q.writer_waiters > 0,
{
}

/// The place of a node is where it is found.
pub proof fn lemma_place(q: QueueView, id: u64, i: int)
    requires
        q.wf(),
        q.has_at(id, i),
    ensures
        q.place(id) == i,
{
    let j = q.place(id);
    assert(q.has_at(id, j));
    if i < j {
        assert(q.nodes[i].id != q.nodes[j].id);
    } else if j < i {
        assert(q.nodes[j].id != q.nodes[i].id);
    }
}

/// Without the dead front, a queue is sound, and has lost nobody.
pub proof fn lemma_pruned(q: QueueView)
    requires
        q.wf(),
    ensures
        q.pruned().wf(),
        q.pruned().nodes.len() > 0 ==> q.pruned().nodes[0].pending() > 0,
        q.kept_in(q.pruned()),
        forall|id: u64, slot: int| #[trigger]
            q.pruned().keeps(id, slot) ==> q.keeps(id, slot),
{
    let d = dead_front(q.nodes) as int;
    let p = q.pruned();
    lemma_dead_front(q.nodes);
    lemma_exclusives_bound(p.nodes);
    assert forall|i: int| 0 <= i < p.nodes.len() implies (#[trigger] p.nodes[i]).wf()
        && p.nodes[i].id < p.next_id by {
        assert(q.nodes[i + d].wf());
    }
    assert forall|i: int, j: int| 0 <= i < j < p.nodes.len() implies (#[trigger] p.nodes[i]).id
        != (#[trigger] p.nodes[j]).id by {
        assert(q.nodes[i + d].id != q.nodes[j + d].id);
    }
    assert(p.wf());
    assert forall|id: u64, slot: int| #[trigger] q.keeps(id, slot) implies p.keeps(id, slot)
        && p.kind_of(id, slot) == q.kind_of(id, slot) by {
        let i = q.place(id);
        assert(q.has_at(id, i));
        wait::lemma_pending(q.nodes[i].slots);
        assert(q.nodes[i].slots[slot].state_.pending());
        assert(q.nodes[i].pending() > 0);
        assert(i >= d);
        assert(p.has_at(id, i - d));
        lemma_place(p, id, i - d);
    }
    assert forall|id: u64, slot: int| #[trigger] p.keeps(id, slot) implies q.keeps(id, slot) by {
        let i = p.place(id);
        assert(p.has_at(id, i));
        assert(q.has_at(id, i + d));
        lemma_place(q, id, i + d);
    }
}

/// A task that has come into a sound queue keeps a place in it, and everybody
/// else keeps theirs.
pub proof fn lemma_enqueued(q: QueueView, kind: WaitKind)
    requires
        q.wf(),
        q.next_id < u64::MAX,
    ensures
        q.enqueued(kind).wf(),
        q.enqueued(kind).keeps(q.id_for(kind), q.slot_for(kind) as int),
        ({
            let e = q.enqueued(kind);
            let i = e.place(q.id_for(kind));
            &&& e.has_at(q.id_for(kind), i)
            &&& e.nodes[i].readish == kind.readish()
            &&& e.nodes[i].slots[q.slot_for(kind) as int] == wait::fresh_slot(kind)
        }),
        q.kept_in(q.enqueued(kind)),
        q.adds_only(q.enqueued(kind), q.id_for(kind), q.slot_for(kind) as int),
{
    let e = q.enqueued(kind);
    let id = q.id_for(kind);
    let slot = q.slot_for(kind) as int;
    let n = q.nodes.len() as int;
    if q.joins(kind) {
        let tail = q.nodes.last();
        let node = NodeView { slots: tail.slots.push(wait::fresh_slot(kind)), ..tail };
        assert(tail.wf());
        lemma_exclusives_update(q.nodes, n - 1, node);
        assert forall|i: int| 0 <= i < node.slots.len() implies (
        #[trigger] node.slots[i]).kind_.readish() == node.readish by {
            if i < tail.slots.len() {
                assert(tail.slots[i].kind_.readish() == tail.readish);
            }
        }
        assert(node.wf());
        assert forall|i: int, j: int| 0 <= i < j < e.nodes.len() implies (
        #[trigger] e.nodes[i]).id != (#[trigger] e.nodes[j]).id by {
            assert(q.nodes[i].id != q.nodes[j].id);
        }
        assert(e.wf());
        assert(e.has_at(id, n - 1));
        lemma_place(e, id, n - 1);
        assert forall|id: u64, slot: int| #[trigger] q.keeps(id, slot) implies e.keeps(id, slot)
            && e.kind_of(id, slot) == q.kind_of(id, slot) by {
            let i = q.place(id);
            assert(q.has_at(id, i));
            assert(e.has_at(id, i));
            lemma_place(e, id, i);
        }
        assert forall|id2: u64, slot2: int| #[trigger] e.keeps(id2, slot2) && (id2 != id || slot2
            != slot) implies q.keeps(id2, slot2) by {
            let i = e.place(id2);
            assert(e.has_at(id2, i));
            assert(q.has_at(id2, i));
            lemma_place(q, id2, i);
        }
    } else {
        let fresh = NodeView {
            id: q.next_id as u64,
            readish: kind.readish(),
            slots: seq![wait::fresh_slot(kind)],
        };
        assert(fresh.slots.drop_last() =~= Seq::<WaiterSlot>::empty());
        assert(wait::pending_in(Seq::<WaiterSlot>::empty()) == 0);
        assert(fresh.pending() == 1);
        assert(fresh.wf());
        lemma_exclusives_one(fresh);
        let d = if kind is Upgrade {
            1int
        } else {
            0
        };
        if kind is Upgrade {
            lemma_exclusives_add(seq![fresh], q.nodes);
        } else {
            assert(q.nodes.push(fresh) =~= q.nodes + seq![fresh]);
            lemma_exclusives_add(q.nodes, seq![fresh]);
        }
        lemma_exclusives_bound(e.nodes);
        let at = if kind is Upgrade {
            0
        } else {
            n
        };
        assert(e.nodes[at] == fresh);
        assert forall|i: int| 0 <= i < e.nodes.len() implies (#[trigger] e.nodes[i]).wf()
            && e.nodes[i].id < e.next_id by {
            if i != at {
                assert(e.nodes[i] == q.nodes[i - d]);
            }
        }
        assert forall|i: int, j: int| 0 <= i < j < e.nodes.len() implies (
        #[trigger] e.nodes[i]).id != (#[trigger] e.nodes[j]).id by {
            if i != at && j != at {
                assert(q.nodes[i - d].id != q.nodes[j - d].id);
            } else if i == at {
                assert(e.nodes[j] == q.nodes[j - d]);
            } else {
                assert(e.nodes[i] == q.nodes[i - d]);
            }
        }
        assert(e.wf());
        assert(e.has_at(id, at));
        lemma_place(e, id, at);
        assert forall|id: u64, slot: int| #[trigger] q.keeps(id, slot) implies e.keeps(id, slot)
            && e.kind_of(id, slot) == q.kind_of(id, slot) by {
            let i = q.place(id);
            assert(q.has_at(id, i));
            assert(e.nodes[i + d] == q.nodes[i]);
            assert(e.has_at(id, i + d));
            lemma_place(e, id, i + d);
        }
        assert forall|id2: u64, slot2: int| #[trigger] e.keeps(id2, slot2) && (id2 != id || slot2
            != slot) implies q.keeps(id2, slot2) by {
            let i = e.place(id2);
            assert(e.has_at(id2, i));
            if i != at {
                assert(e.nodes[i] == q.nodes[i - d]);
                assert(q.has_at(id2, i - d));
                lemma_place(q, id2, i - d);
            }
        }
    }
}

/// Tasks that keep their places at the same places are as many.
pub proof fn lemma_pending_same(a: Seq<WaiterSlot>, b: Seq<WaiterSlot>)
    requires
        a.len() == b.len(),
        forall|i: int|
            0 <= i < a.len() ==> (#[trigger] a[i]).state_.pending() == b[i].state_.pending(),
    ensures
        wait::pending_in(a) == wait::pending_in(b),
    decreases a.len(),
{
    if a.len() > 0 {
        assert forall|i: int| 0 <= i < a.drop_last().len() implies (
        #[trigger] a.drop_last()[i]).state_.pending() == b.drop_last()[i].state_.pending() by {
            assert(a[i].state_.pending() == b[i].state_.pending());
        }
        lemma_pending_same(a.drop_last(), b.drop_last());
        assert(a[a.len() - 1].state_.pending() == b[b.len() - 1].state_.pending());
    }
}

/// Whether two nodes are the same but for wakers and for who has been admitted.
pub open spec fn same_places(a: NodeView, b: NodeView) -> bool {
    &&& a.id == b.id
    &&& a.readish == b.readish
    &&& a.slots.len() == b.slots.len()
    &&& forall|i: int|
        0 <= i < a.slots.len() ==> (#[trigger] a.slots[i]).kind_ == b.slots[i].kind_
            && a.slots[i].state_.pending() == b.slots[i].state_.pending()
}

/// A node can be replaced by one with the same places.
pub proof fn lemma_same_places(q: QueueView, i: int, n: NodeView)
    requires
        q.wf(),
        0 <= i < q.nodes.len(),
        same_places(q.nodes[i], n),
    ensures
        ({
            let after = QueueView { nodes: q.nodes.update(i, n), ..q };
            &&& after.wf()
            &&& n.pending() == q.nodes[i].pending()
            &&& forall|id: u64, k: int| #[trigger]
                q.has_at(id, k) ==> after.has_at(id, k) && after.place(id) == k
            &&& forall|id: u64, slot: int| #[trigger] after.keeps(id, slot) == q.keeps(id, slot)
            &&& q.kept_in(after)
        }),
{
    let m = q.nodes[i];
    let after = QueueView { nodes: q.nodes.update(i, n), ..q };
    lemma_pending_same(m.slots, n.slots);
    lemma_exclusives_update(q.nodes, i, n);
    assert(m.wf());
    assert forall|k: int| 0 <= k < n.slots.len() implies (#[trigger] n.slots[k]).kind_.readish()
        == n.readish by {
        assert(m.slots[k].kind_.readish() == m.readish);
    }
    assert forall|a: int, b: int| 0 <= a < b < after.nodes.len() implies (
    #[trigger] after.nodes[a]).id != (#[trigger] after.nodes[b]).id by {
        assert(q.nodes[a].id != q.nodes[b].id);
    }
    assert(after.wf());
    assert forall|id: u64, k: int| #[trigger] q.has_at(id, k) implies after.has_at(id, k)
        && after.place(id) == k by {
        assert(after.has_at(id, k));
        lemma_place(after, id, k);
    }
    assert forall|id: u64, slot: int| #[trigger] after.keeps(id, slot) == q.keeps(id, slot) by {
        if q.keeps(id, slot) {
            let k = q.place(id);
            assert(q.has_at(id, k));
            if k == i {
                assert(m.slots[slot].state_.pending() == n.slots[slot].state_.pending());
            }
        }
        if after.keeps(id, slot) {
            let k = after.place(id);
            assert(after.has_at(id, k));
            assert(q.has_at(id, k));
            lemma_place(q, id, k);
            if k == i {
                assert(m.slots[slot].state_.pending() == n.slots[slot].state_.pending());
            }
        }
    }
    assert forall|id: u64, slot: int| #[trigger] q.keeps(id, slot) implies after.keeps(id, slot)
        && after.kind_of(id, slot) == q.kind_of(id, slot) by {
        let k = q.place(id);
        assert(q.has_at(id, k));
        assert(after.keeps(id, slot));
        if k == i {
            assert(m.slots[slot].kind_ == n.slots[slot].kind_);
        }
    }
}

/// A task that comes in or gives up loses its place, and nobody else does.
pub proof fn lemma_settled(q: QueueView, id: u64, slot: int, state: SlotState)
    requires
        q.wf(),
        q.keeps(id, slot),
        !state.pending(),
    ensures
        q.settled(id, slot, state).wf(),
        !q.settled(id, slot, state).keeps(id, slot),
        !q.nodes[q.place(id)].readish ==> q.writer_waiters > 0,
        q.others_kept_in(q.settled(id, slot, state), id, slot),
        q.adds_only(q.settled(id, slot, state), id, slot),
{
    let i = q.place(id);
    assert(q.has_at(id, i));
    let m = q.nodes[i];
    let n = wait::node_with_state(m, slot, state);
    let after = q.settled(id, slot, state);
    assert(m.wf());
    wait::lemma_pending(m.slots);
    assert(m.slots[slot].state_.pending());
    assert forall|k: int| 0 <= k < n.slots.len() implies (#[trigger] n.slots[k]).kind_.readish()
        == n.readish by {
        assert(m.slots[k].kind_.readish() == m.readish);
    }
    if !m.readish {
        assert(n.slots.drop_last() =~= Seq::<WaiterSlot>::empty());
        assert(wait::pending_in(Seq::<WaiterSlot>::empty()) == 0);
        assert(n.pending() == 0);
    }
    lemma_exclusives_update(q.nodes, i, n);
    lemma_exclusives_bound(after.nodes);
    assert forall|a: int, b: int| 0 <= a < b < after.nodes.len() implies (
    #[trigger] after.nodes[a]).id != (#[trigger] after.nodes[b]).id by {
        assert(q.nodes[a].id != q.nodes[b].id);
    }
    assert(after.wf());
    assert(after.has_at(id, i));
    lemma_place(after, id, i);
    assert forall|id2: u64, slot2: int| #[trigger] q.keeps(id2, slot2) && (id2 != id || slot2
        != slot) implies after.keeps(id2, slot2) && after.kind_of(id2, slot2) == q.kind_of(
        id2,
        slot2,
    ) by {
        let k = q.place(id2);
        assert(q.has_at(id2, k));
        assert(after.has_at(id2, k));
        lemma_place(after, id2, k);
    }
    assert forall|id2: u64, slot2: int| #[trigger] after.keeps(id2, slot2) && (id2 != id || slot2
        != slot) implies q.keeps(id2, slot2) by {
        let k = after.place(id2);
        assert(after.has_at(id2, k));
        assert(q.has_at(id2, k));
        lemma_place(q, id2, k);
    }
}

/// A task that leaves its waker keeps its place, as does everybody else.
pub proof fn lemma_waker_set(q: QueueView, after: QueueView, id: u64, slot: int, waker: Waker)
    requires
        q.wf(),
        q.keeps(id, slot),
        q.waker_set(after, id, slot, waker),
    ensures
        after.wf(),
        after.place(id) == q.place(id),
        forall|id2: u64, slot2: int| #[trigger]
            after.keeps(id2, slot2) == q.keeps(id2, slot2),
        q.kept_in(after),
{
    let i = q.place(id);
    assert(q.has_at(id, i));
    assert(same_places(q.nodes[i], after.nodes[i]));
    lemma_same_places(q, i, after.nodes[i]);
}

/// Admitting tasks takes nobody's place.
pub proof fn lemma_front_admitted(q: QueueView, whom: Admit)
    requires
        q.wf(),
        q.nodes.len() > 0,
    ensures
        ({
            let n = NodeView {
                slots: wait::slots_admitted(q.nodes[0].slots, whom),
                ..q.nodes[0]
            };
            let after = QueueView { nodes: q.nodes.update(0, n), ..q };
            &&& after.wf()
            &&& n.pending() == q.nodes[0].pending()
            &&& forall|id: u64, slot: int| #[trigger] after.keeps(id, slot) == q.keeps(id, slot)
            &&& q.kept_in(after)
        }),
{
    let n = NodeView { slots: wait::slots_admitted(q.nodes[0].slots, whom), ..q.nodes[0] };
    assert(same_places(q.nodes[0], n));
    lemma_same_places(q, 0, n);
}

/// The queue of a lock. It must be locked while it is used.
pub struct QueuePayload {
    nodes_: VecDeque<WaitNode>,
    writer_waiters_: usize,
    next_id_: u64,
}

impl View for QueuePayload {
    type V = QueueView;

    closed spec fn view(&self) -> QueueView {
        QueueView {
            nodes: self.nodes_@.map_values(|n: WaitNode| n@),
            writer_waiters: self.writer_waiters_ as nat,
            next_id: self.next_id_ as nat,
        }
    }
}

impl QueuePayload {
    pub fn new() -> (r: Self)
        ensures
            r@ == QueueView::empty(),
            r@.wf(),
    {
        let r = QueuePayload { nodes_: VecDeque::new(), writer_waiters_: 0, next_id_: 0 };
        assert(r@.nodes =~= Seq::<NodeView>::empty());
        r
    }

    pub fn is_empty(&self) -> (r: bool)
        ensures
            r == (self@.nodes.len() == 0),
    {
        self.nodes_.len() == 0
    }

    /// How many tasks that want the lock for themselves keep a place.
    pub fn writer_waiters(&self) -> (r: usize)
        ensures
            r == self@.writer_waiters,
        opens_invariants none
    {
        self.writer_waiters_
    }

    /// Whether there is a number left for one more node.
    pub fn has_room(&self) -> (r: bool)
        ensures
            r == (self@.next_id < u64::MAX),
        opens_invariants none
    {
        self.next_id_ < u64::MAX
    }

    fn index_of_(&self, id: u64) -> (r: Option<usize>)
        ensures
            r matches Some(i) ==> self@.has_at(id, i as int),
            r is None ==> forall|i: int| !self@.has_at(id, i),
    {
        let mut i: usize = 0;
        while i < self.nodes_.len()
            invariant
                i <= self@.nodes.len(),
                self@.nodes.len() == self.nodes_@.len(),
                forall|k: int| 0 <= k < i ==> !self@.has_at(id, k),
            decreases self.nodes_.len() - i,
        {
            assert(self@.nodes[i as int] == self.nodes_@[i as int]@);
            if self.nodes_[i].id() == id {
                return Some(i);
            }
            i = i + 1;
        }
        None
    }

    /// Whether the task at this place still keeps it.
    pub fn has_pending(&self, id: u64, slot: usize) -> (r: bool)
        requires
            self@.wf(),
        ensures
            r == self@.keeps(id, slot as int),
    {
        match self.index_of_(id) {
            Some(i) => {
                proof {
                    lemma_place(self@, id, i as int);
                    assert(self@.nodes[i as int] == self.nodes_@[i as int]@);
                }
                let node = &self.nodes_[i];
                slot < node.slot_count() && node.slot_state(slot).is_pending()
            },
            None => false,
        }
    }

    /// How the task at this place wants to hold the lock.
    pub fn kind_at(&self, id: u64, slot: usize) -> (r: WaitKind)
        requires
            self@.wf(),
            self@.keeps(id, slot as int),
        ensures
            r == self@.nodes[self@.place(id)].slots[slot as int].kind_,
            r.readish() == self@.nodes[self@.place(id)].readish,
    {
        let i: usize = self.index_of_(id).unwrap();
        proof {
            lemma_place(self@, id, i as int);
            assert(self@.nodes[i as int] == self.nodes_@[i as int]@);
            assert(self@.nodes[i as int].wf());
        }
        self.nodes_[i].slot_kind(slot)
    }

    /// Whether the node with this number comes first.
    pub fn is_head_(&self, id: u64) -> (r: bool)
        ensures
            r == self@.is_head(id),
    {
        if self.nodes_.len() == 0 {
            false
        } else {
            assert(self@.nodes[0] == self.nodes_@[0]@);
            self.nodes_[0].id() == id
        }
    }

    /// Takes away the nodes at the front that nobody is left in.
    pub fn prune_front_(&mut self)
        ensures
            final(self)@ == old(self)@.pruned(),
    {
        let ghost nodes = self@.nodes;
        let ghost mut gone: int = 0;
        proof {
            assert(nodes.skip(0) =~= nodes);
        }
        while self.nodes_.len() > 0 && self.nodes_[0].pending_count() == 0
            invariant
                nodes == old(self)@.nodes,
                0 <= gone <= nodes.len(),
                self@.nodes == nodes.skip(gone),
                self@.writer_waiters == old(self)@.writer_waiters,
                self@.next_id == old(self)@.next_id,
                dead_front(nodes) == gone + dead_front(nodes.skip(gone)),
            ensures
                self@.nodes.len() > 0 ==> self@.nodes[0].pending() > 0,
            decreases self.nodes_.len(),
        {
            proof {
                assert(self@.nodes[0] == self.nodes_@[0]@);
                assert(nodes.skip(gone).drop_first() =~= nodes.skip(gone + 1));
            }
            let ghost before = self.nodes_@;
            let _ = self.nodes_.pop_front();
            proof {
                assert(self@.nodes =~= nodes.skip(gone + 1));
                gone = gone + 1;
            }
        }
        assert(dead_front(nodes) == gone);
    }

    /// Lets a task come into the queue, and says where.
    pub fn enqueue_(&mut self, kind: WaitKind) -> (r: (u64, usize))
        requires
            old(self)@.wf(),
            old(self)@.next_id < u64::MAX,
        ensures
            final(self)@ == old(self)@.enqueued(kind),
            r.0 == old(self)@.id_for(kind),
            r.1 == old(self)@.slot_for(kind),
    {
        let ghost q = self@;
        let len: usize = self.nodes_.len();
        proof {
            if len > 0 {
                assert(q.nodes[len - 1] == self.nodes_@[len - 1]@);
                assert(q.nodes[len - 1].wf());
            }
        }
        if kind.is_readish() && len > 0 && self.nodes_[len - 1].is_readish() {
            let mut tail = self.nodes_.pop_back().unwrap();
            let slot: usize = tail.push_readish_slot(kind);
            let id: u64 = tail.id();
            self.nodes_.push_back(tail);
            assert(self@.nodes =~= q.enqueued(kind).nodes);
            return (id, slot);
        }
        let id: u64 = self.next_id_;
        let (node, slot) = WaitNode::new(id, kind);
        match kind {
            WaitKind::Upgrade => {
                self.nodes_.push_front(node);
                assert(self@.nodes =~= q.enqueued(kind).nodes);
                assert(self.nodes_.len() == len + 1);
                self.writer_waiters_ = self.writer_waiters_ + 1;
            },
            WaitKind::Write => {
                self.nodes_.push_back(node);
                assert(self@.nodes =~= q.enqueued(kind).nodes);
                assert(self.nodes_.len() == len + 1);
                self.writer_waiters_ = self.writer_waiters_ + 1;
            },
            _ => {
                self.nodes_.push_back(node);
                assert(self@.nodes =~= q.enqueued(kind).nodes);
            },
        }
        self.next_id_ = id + 1;
        (id, slot)
    }

    /// The task at this place has come in or given up.
    pub fn settle_(&mut self, id: u64, slot: usize, state: SlotState)
        requires
            old(self)@.wf(),
            old(self)@.keeps(id, slot as int),
            !state.pending(),
        ensures
            final(self)@ == old(self)@.settled(id, slot as int, state),
    {
        let ghost q = self@;
        let i: usize = self.index_of_(id).unwrap();
        proof {
            lemma_place(q, id, i as int);
            lemma_settled(q, id, slot as int, state);
            assert(q.nodes[i as int] == self.nodes_@[i as int]@);
        }
        let ghost nodes = self.nodes_@;
        let mut node = self.nodes_.remove(i).unwrap();
        match state {
            SlotState::Acquired => node.mark_acquired(slot),
            _ => node.mark_cancelled(slot),
        }
        let readish = node.is_readish();
        self.nodes_.insert(i, node);
        if !readish {
            self.writer_waiters_ = self.writer_waiters_ - 1;
        }
        assert(self@.nodes =~= q.settled(id, slot as int, state).nodes);
    }

    /// Leaves the waker of the task at this place.
    pub fn set_waker_(&mut self, id: u64, slot: usize, waker: &Waker)
        requires
            old(self)@.wf(),
            old(self)@.keeps(id, slot as int),
        ensures
            old(self)@.waker_set(final(self)@, id, slot as int, *waker),
    {
        let ghost q = self@;
        let i: usize = self.index_of_(id).unwrap();
        proof {
            lemma_place(q, id, i as int);
            assert(q.nodes[i as int] == self.nodes_@[i as int]@);
        }
        let mut node = self.nodes_.remove(i).unwrap();
        node.set_waker(slot, waker);
        let ghost n = node@;
        self.nodes_.insert(i, node);
        assert(self@.nodes =~= q.nodes.update(i as int, n));
        assert(self@.nodes[i as int] == n);
    }

    /// Whether the tasks of the first node can share the lock.
    pub fn front_is_readish(&self) -> (r: bool)
        requires
            self@.nodes.len() > 0,
        ensures
            r == self@.nodes[0].readish,
    {
        assert(self@.nodes[0] == self.nodes_@[0]@);
        self.nodes_[0].is_readish()
    }

    /// How the single task of the first node wants to hold the lock that it
    /// wants for itself.
    pub fn front_solo_kind(&self) -> (r: WaitKind)
        requires
            self@.wf(),
            self@.nodes.len() > 0,
            !self@.nodes[0].readish,
        ensures
            r == self@.nodes[0].slots[0].kind_,
            !r.readish(),
    {
        assert(self@.nodes[0] == self.nodes_@[0]@);
        assert(self@.nodes[0].wf());
        self.nodes_[0].solo_kind()
    }

    /// Admits tasks of the first node, and hands out their wakers.
    pub fn admit_front_(&mut self, out: &mut Vec<Waker>, whom: Admit)
        requires
            old(self)@.nodes.len() > 0,
        ensures
            final(self)@ == (QueueView {
                nodes: old(self)@.nodes.update(
                    0,
                    NodeView {
                        slots: wait::slots_admitted(old(self)@.nodes[0].slots, whom),
                        ..old(self)@.nodes[0]
                    },
                ),
                ..old(self)@
            }),
            final(out)@ == old(out)@ + wait::wakers_handed(
                old(self)@.nodes[0].slots,
                whom,
                old(self)@.nodes[0].slots.len() as int,
            ),
    {
        let ghost q = self@;
        assert(q.nodes[0] == self.nodes_@[0]@);
        let mut node = self.nodes_.pop_front().unwrap();
        node.admit_waiting(out, whom);
        let ghost n = node@;
        self.nodes_.push_front(node);
        assert(self@.nodes =~= q.nodes.update(0, n));
    }
}

} // verus!
