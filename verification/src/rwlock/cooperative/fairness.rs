//! What the queue of a cooperative lock promises, said of its nodes and of the
//! places in them.

use core::task::Waker;

use vstd::prelude::*;

use crate::cell;
use crate::cell::{Attempt, Source};
use crate::rwlock::cooperative::acquire::{
    AcqPoll, AcquireFuture, AcquireInner, FuturePolled, Polled, Queued,
};
use crate::rwlock::cooperative::error::CoopRwLockError;
use crate::rwlock::cooperative::queue;
use crate::rwlock::cooperative::queue::QueueView;
use crate::rwlock::cooperative::rwcore;
use crate::rwlock::cooperative::rwcore::{AcqProgress, Acquire, Claim, GiveUp, Pass, Retry};
use crate::rwlock::cooperative::state;
use crate::rwlock::cooperative::state::CoopStep;
use crate::rwlock::cooperative::wait;
use crate::rwlock::cooperative::wait::{NodeView, SlotState, WaitKind, WaiterSlot};
use crate::word::StateWord;

verus! {

/// Whether a task is still at this place: it waits, or has been admitted and has
/// not come yet.
pub open spec fn taken(s: WaiterSlot) -> bool {
    s.state_ is Waiting || s.state_ is Admitted
}

/// Whether somebody is left in the node.
pub open spec fn occupied(n: NodeView) -> bool {
    exists|i: int| 0 <= i < n.slots.len() && taken(#[trigger] n.slots[i])
}

/// Somebody is left in a node just where its count says so.
proof fn lemma_occupied(n: NodeView)
    ensures
        occupied(n) <==> n.pending() > 0,
{
    wait::lemma_pending(n.slots);
    if occupied(n) {
        let i = choose|i: int| 0 <= i < n.slots.len() && taken(#[trigger] n.slots[i]);
        assert(n.slots[i].state_.pending());
    }
    if n.pending() > 0 {
        let i = choose|i: int| 0 <= i < n.slots.len() && (#[trigger] n.slots[i]).state_.pending();
        assert(taken(n.slots[i]));
    }
}

/// The nodes that come away at the front are those that nobody is left in, up to
/// the first that somebody is left in.
pub proof fn law_only_dead_nodes_come_away(q: QueueView)
    ensures
        exists|d: int|
            {
                &&& 0 <= d <= q.nodes.len()
                &&& #[trigger] q.nodes.skip(d) == q.pruned().nodes
                &&& forall|j: int| 0 <= j < d ==> !occupied(#[trigger] q.nodes[j])
                &&& d < q.nodes.len() ==> occupied(q.nodes[d])
            },
        q.pruned().writer_waiters == q.writer_waiters,
        q.pruned().next_id == q.next_id,
{
    let d = queue::dead_front(q.nodes) as int;
    queue::lemma_dead_front(q.nodes);
    assert forall|j: int| 0 <= j < d implies !occupied(#[trigger] q.nodes[j]) by {
        lemma_occupied(q.nodes[j]);
    }
    if d < q.nodes.len() {
        assert(q.nodes.skip(d)[0] == q.nodes[d]);
        lemma_occupied(q.nodes[d]);
    }
    assert(q.nodes.skip(d) == q.pruned().nodes);
}

/// A task that tries again comes in only where nobody is left in any node in
/// front of its own. Otherwise it makes no exchange to come in.
pub proof fn law_nobody_in_front_of_who_comes_in<D: StateWord>(
    t: Retry<D>,
    q: QueueView,
    after: QueueView,
    id: u64,
    slot: int,
    waker: Waker,
    at: int,
    j: int,
)
    requires
        q.wf(),
        q.keeps(id, slot),
        t.leads(q, after, id, slot, waker),
        0 <= at < q.nodes.len(),
        q.nodes[at].id == id,
        0 <= j < at,
        occupied(q.nodes[j]),
    ensures
        !t.claim.claimed,
        t.claim.tried is None,
{
    let p = q.pruned();
    let d = queue::dead_front(q.nodes) as int;
    queue::lemma_pruned(q);
    queue::lemma_dead_front(q.nodes);
    lemma_occupied(q.nodes[j]);
    let s = choose|s: QueueView| #[trigger]
        t.pass.leads(s, after) && t.claim.leads(p, s, id, slot, waker);
    if t.claim.tried is Some {
        assert(p.nodes.len() > 0);
        assert(p.nodes[0] == q.nodes[d]);
        assert(q.nodes[d].id == id);
        if d != at {
            assert(q.nodes[if d < at { d } else { at }].id != q.nodes[if d < at { at } else { d }].id);
        }
    }
}

/// A task that comes into the queue comes in at once only where nobody is left
/// in any node but the one that it joins: an upgrade comes in front of all, and
/// everybody else waits behind whoever is in another node, and makes no exchange
/// to come in.
pub proof fn law_newcomer_waits_behind_others<D: StateWord>(
    a: Acquire<D>,
    q: QueueView,
    after: QueueView,
    kind: WaitKind,
    waker: Waker,
    j: int,
)
    requires
        q.wf(),
        q.next_id < u64::MAX,
        a.leads(q, after, kind, waker),
        !(kind is Upgrade),
        0 <= j < q.nodes.len(),
        occupied(q.nodes[j]),
        j < q.nodes.len() - 1 || !q.nodes[j].readish || kind is Write,
    ensures
        !a.claim.claimed,
        a.claim.tried is None,
        a.progress is Waiting,
{
    let p = q.pruned();
    let e = p.enqueued(kind);
    let d = queue::dead_front(q.nodes) as int;
    queue::lemma_pruned(q);
    queue::lemma_dead_front(q.nodes);
    lemma_occupied(q.nodes[j]);
    queue::lemma_enqueued(p, kind);
    let s = choose|s: QueueView| #[trigger]
        a.pass.leads(s, after) && a.claim.leads(
            e,
            s,
            p.id_for(kind),
            p.slot_for(kind) as int,
            waker,
        );
    assert(d <= j);
    assert(p.nodes.len() > 0);
    assert(p.nodes[j - d] == q.nodes[j]);
    assert(p.nodes[0] == q.nodes[d]);
    assert(p.nodes[0].id < p.next_id);
    if a.claim.tried is Some {
        assert(e.nodes[0].id == p.id_for(kind));
        if p.joins(kind) {
            if p.nodes.len() > 1 {
                assert(p.nodes[0].id != p.nodes[p.nodes.len() - 1].id);
            }
        } else {
            assert(e.nodes[0] == p.nodes[0]);
        }
    }
}

/// Nobody overtakes in the queue, whichever way a task is polled. Where somebody
/// is left in a node in front of that of a task which waits, or in another node
/// than the one that a newcomer joins, a poll from the queue does not let the
/// task in, unless it is an upgrade that comes to the queue.
pub proof fn law_no_poll_overtakes<D: StateWord>(
    task: AcquireInner,
    p: Polled<D>,
    source: Source,
    q: QueueView,
    after: QueueView,
    waker: Waker,
    at: int,
    j: int,
)
    requires
        q.wf(),
        task.placed(q),
        task.pending_ is None ==> q.next_id < u64::MAX,
        task.poll_leads(p, source, q, after, waker),
        p.queued is Some,
        0 <= j < q.nodes.len(),
        occupied(q.nodes[j]),
        task.pending_ is Some ==> j < at < q.nodes.len() && q.nodes[at].id == task.node(),
        task.pending_ is None ==> !(task.kind_ is Upgrade) && (j < q.nodes.len() - 1
            || !q.nodes[j].readish || task.kind_ is Write),
    ensures
        !p.ready,
        p.exchange() is None,
{
    match p.queued->0 {
        Queued::Entered(a) => {
            law_newcomer_waits_behind_others(a, q, after, task.kind_, waker, j);
        },
        Queued::Retried(t) => {
            law_nobody_in_front_of_who_comes_in(
                t,
                q,
                after,
                task.node(),
                task.slot(),
                waker,
                at,
                j,
            );
        },
    }
}

/// Whether the task at this place has been admitted.
pub open spec fn became_admitted(before: Seq<WaiterSlot>, after: Seq<WaiterSlot>, i: int) -> bool {
    before[i].state_ is Waiting && after[i].state_ is Admitted
}

/// How many of the tasks at the first `n` places have been admitted.
pub open spec fn admitted_among(before: Seq<WaiterSlot>, after: Seq<WaiterSlot>, n: int) -> nat
    decreases n,
{
    if n <= 0 {
        0
    } else {
        admitted_among(before, after, n - 1) + (if became_admitted(before, after, n - 1) {
            1nat
        } else {
            0
        })
    }
}

/// Whether just those have been woken who have been admitted, each once and in
/// the order of their places, and everybody else's place is as it was.
pub open spec fn admitted_are_woken(
    before: Seq<WaiterSlot>,
    after: Seq<WaiterSlot>,
    woken: Seq<Waker>,
) -> bool {
    &&& after.len() == before.len()
    &&& woken.len() == admitted_among(before, after, before.len() as int)
    &&& forall|i: int|
        #![trigger before[i]]
        0 <= i < before.len() ==> if became_admitted(before, after, i) {
            &&& before[i].waker_ == Some(woken[admitted_among(before, after, i) as int])
            &&& after[i].kind_ == before[i].kind_
            &&& after[i].waker_ is None
        } else {
            after[i] == before[i]
        }
}

/// Whoever is admitted from a node is woken, and nobody else is.
proof fn lemma_admitted_are_woken(slots: Seq<WaiterSlot>, whom: wait::Admit, n: int)
    requires
        0 <= n <= slots.len(),
    ensures
        ({
            let after = wait::slots_admitted(slots, whom);
            let woken = wait::wakers_handed(slots, whom, n);
            &&& woken.len() == admitted_among(slots, after, n)
            &&& forall|i: int|
                #![trigger slots[i]]
                0 <= i < n && became_admitted(slots, after, i) ==> admitted_among(slots, after, i)
                    < woken.len() && slots[i].waker_ == Some(
                    woken[admitted_among(slots, after, i) as int],
                )
        }),
    decreases n,
{
    if n > 0 {
        lemma_admitted_are_woken(slots, whom, n - 1);
    }
}

/// Whoever is admitted when somebody has left is woken: the wakers that are
/// handed out are those of the tasks that have become admitted, each once and in
/// the order of their places. They are all in the first node that somebody is
/// left in, and what comes behind is as it was.
pub proof fn law_whoever_is_admitted_is_woken<D: StateWord>(
    p: Pass<D>,
    q: QueueView,
    after: QueueView,
    d: int,
)
    requires
        q.wf(),
        p.leads(q, after),
        0 <= d < q.nodes.len(),
        occupied(q.nodes[d]),
        forall|j: int| 0 <= j < d ==> !occupied(#[trigger] q.nodes[j]),
    ensures
        after.nodes.len() == q.nodes.len() - d,
        after.nodes[0].id == q.nodes[d].id,
        admitted_are_woken(q.nodes[d].slots, after.nodes[0].slots, p.wakers@),
        forall|k: int| d < k < q.nodes.len() ==> after.nodes[k - d] == #[trigger] q.nodes[k],
{
    let pr = q.pruned();
    let d2 = queue::dead_front(q.nodes) as int;
    queue::lemma_dead_front(q.nodes);
    assert forall|j: int| 0 <= j < q.nodes.len() implies occupied(#[trigger] q.nodes[j]) == (
    q.nodes[j].pending() > 0) by {
        lemma_occupied(q.nodes[j]);
    }
    assert(q.nodes[d].pending() > 0);
    assert(d2 <= d);
    assert(q.nodes.skip(d2)[0] == q.nodes[d2]);
    if d2 < d {
        assert(!occupied(q.nodes[d2]));
    }
    let slots = q.nodes[d].slots;
    let f = state::coop_view(p.looked->0.seen());
    assert(pr.nodes[0] == q.nodes[d]);
    match rwcore::admits_at(pr.nodes[0], f) {
        Some(whom) => {
            lemma_admitted_are_woken(slots, whom, slots.len() as int);
            let out = wait::slots_admitted(slots, whom);
            assert forall|i: int|
                #![trigger slots[i]]
                0 <= i < slots.len() implies if became_admitted(slots, out, i) {
                &&& slots[i].waker_ == Some(p.wakers@[admitted_among(slots, out, i) as int])
                &&& out[i].kind_ == slots[i].kind_
                &&& out[i].waker_ is None
            } else {
                out[i] == slots[i]
            } by {}
        },
        None => {
            lemma_none_admitted(slots, slots.len() as int);
        },
    }
    assert forall|k: int| d < k < q.nodes.len() implies after.nodes[k - d]
        == #[trigger] q.nodes[k] by {
        assert(pr.nodes[k - d] == q.nodes[k]);
    }
}

/// Where nothing has changed, nobody has been admitted.
proof fn lemma_none_admitted(slots: Seq<WaiterSlot>, n: int)
    ensures
        admitted_among(slots, slots, n) == 0,
    decreases n,
{
    if n > 0 {
        lemma_none_admitted(slots, n - 1);
    }
}

/// Who is admitted when somebody has left: of the first node that somebody is
/// left in, and of those who wait there and have left a waker, every reader
/// unless a writer holds the lock; the first upgradable reader that waits, if
/// besides nobody is upgradable; a writer if nobody holds the lock; and an
/// upgrade if there is one reader left, its own.
pub proof fn law_who_is_admitted<D: StateWord>(
    p: Pass<D>,
    q: QueueView,
    after: QueueView,
    d: int,
    i: int,
)
    requires
        q.wf(),
        p.leads(q, after),
        0 <= d < q.nodes.len(),
        occupied(q.nodes[d]),
        forall|j: int| 0 <= j < d ==> !occupied(#[trigger] q.nodes[j]),
        0 <= i < q.nodes[d].slots.len(),
        q.nodes[d].slots[i].state_ is Waiting,
        q.nodes[d].slots[i].waker_ is Some,
    ensures
        p.looked is Some,
        ({
            let slots = q.nodes[d].slots;
            let f = state::coop_view(p.looked->0.seen());
            became_admitted(slots, after.nodes[0].slots, i) <==> !f.writer
                && match slots[i].kind_ {
                WaitKind::Read => true,
                WaitKind::UpgradableRead => !f.upgrade && (forall|j: int|
                    0 <= j < i ==> !((#[trigger] slots[j]).state_ is Waiting && slots[j].kind_
                        is UpgradableRead)),
                WaitKind::Write => f.readers == 0 && !f.upgrade,
                WaitKind::Upgrade => f.readers == 1,
            }
        }),
{
    let pr = q.pruned();
    law_whoever_is_admitted_is_woken(p, q, after, d);
    let d2 = queue::dead_front(q.nodes) as int;
    queue::lemma_dead_front(q.nodes);
    lemma_occupied(q.nodes[d]);
    assert(q.nodes.skip(d2)[0] == q.nodes[d2]);
    if d2 < d {
        lemma_occupied(q.nodes[d2]);
        assert(!occupied(q.nodes[d2]));
    }
    assert(d2 == d);
    let n = q.nodes[d];
    assert(pr.nodes[0] == n);
    assert(n.wf());
    assert(n.slots[i].kind_.readish() == n.readish);
    if !n.readish {
        assert(i == 0);
    }
}

/// A task keeps a place just where a node with its number is in the queue, and
/// the task at that place of it waits, or has been admitted and has not come yet.
pub proof fn law_kept_places(q: QueueView, id: u64, slot: int, at: int)
    requires
        q.wf(),
        0 <= at < q.nodes.len(),
        q.nodes[at].id == id,
    ensures
        q.keeps(id, slot) <==> 0 <= slot < q.nodes[at].slots.len() && taken(
            q.nodes[at].slots[slot],
        ),
        q.kind_of(id, slot) == q.nodes[at].slots[slot].kind_,
        q.is_head(id) <==> at == 0,
{
    assert(q.has_at(id, at));
    queue::lemma_place(q, id, at);
    if at > 0 {
        assert(q.nodes[0].id != q.nodes[at].id);
    }
}

/// The count of the tasks that want the lock for themselves is positive just
/// where such a task is left in the queue.
pub proof fn law_writers_are_counted(q: QueueView)
    requires
        q.wf(),
    ensures
        q.writer_waiters > 0 <==> exists|i: int|
            0 <= i < q.nodes.len() && !(#[trigger] q.nodes[i]).readish && occupied(q.nodes[i]),
{
    lemma_exclusives(q.nodes);
}

/// The same of a row of nodes.
proof fn lemma_exclusives(nodes: Seq<NodeView>)
    ensures
        queue::exclusives(nodes) > 0 <==> exists|i: int|
            0 <= i < nodes.len() && !(#[trigger] nodes[i]).readish && occupied(nodes[i]),
    decreases nodes.len(),
{
    if nodes.len() > 0 {
        let rest = nodes.drop_first();
        lemma_exclusives(rest);
        lemma_occupied(nodes[0]);
        if exists|i: int| 0 <= i < rest.len() && !(#[trigger] rest[i]).readish && occupied(rest[i]) {
            let i = choose|i: int|
                0 <= i < rest.len() && !(#[trigger] rest[i]).readish && occupied(rest[i]);
            assert(!nodes[i + 1].readish && occupied(nodes[i + 1]));
        }
        if exists|i: int| 0 <= i < nodes.len() && !(#[trigger] nodes[i]).readish && occupied(
            nodes[i],
        ) {
            let i = choose|i: int|
                0 <= i < nodes.len() && !(#[trigger] nodes[i]).readish && occupied(nodes[i]);
            if i > 0 {
                assert(!rest[i - 1].readish && occupied(rest[i - 1]));
            }
        }
    }
}

/// Whether a place is that of a task of this kind that has just come.
pub open spec fn is_new(s: WaiterSlot, kind: WaitKind) -> bool {
    s.kind_ == kind && s.state_ is Waiting && s.waker_ is None
}

/// Whether the queue `e` is `q` after a task of this kind has come in, at the place
/// `slot` of the node `at`. A reader, of either sort, joins the last node if that
/// is one of readers; an upgrade gets a node in front of all; and everybody else
/// gets one behind all. Nothing else changes, and only writers and upgrades are
/// counted.
pub open spec fn has_come_in(
    q: QueueView,
    e: QueueView,
    kind: WaitKind,
    at: int,
    slot: int,
) -> bool {
    let n = q.nodes.len() as int;
    let shares = kind is Read || kind is UpgradableRead;
    if shares && n > 0 && q.nodes[n - 1].readish {
        let tail = e.nodes[at];
        &&& at == n - 1
        &&& slot == q.nodes[n - 1].slots.len()
        &&& e.nodes.len() == n
        &&& forall|i: int| 0 <= i < n - 1 ==> e.nodes[i] == #[trigger] q.nodes[i]
        &&& tail.id == q.nodes[n - 1].id && tail.readish
        &&& tail.slots.len() == slot + 1
        &&& forall|i: int| 0 <= i < slot ==> tail.slots[i] == #[trigger] q.nodes[n - 1].slots[i]
        &&& is_new(tail.slots[slot], kind)
        &&& e.writer_waiters == q.writer_waiters
    } else {
        &&& at == (if kind is Upgrade {
            0
        } else {
            n
        })
        &&& slot == 0
        &&& e.nodes.len() == n + 1
        &&& forall|i: int|
            0 <= i < n ==> e.nodes[if kind is Upgrade {
                i + 1
            } else {
                i
            }] == #[trigger] q.nodes[i]
        &&& e.nodes[at].readish == shares
        &&& e.nodes[at].slots.len() == 1 && is_new(e.nodes[at].slots[0], kind)
        &&& forall|i: int| 0 <= i < n ==> e.nodes[at].id != (#[trigger] q.nodes[i]).id
        &&& e.writer_waiters == q.writer_waiters + (if shares {
            0int
        } else {
            1
        })
    }
}

/// Where a task comes into the queue: a reader with the readers that came last, an
/// upgrade in front of all, and everybody else behind all.
pub proof fn law_where_a_task_comes_in(q: QueueView, kind: WaitKind, at: int)
    requires
        q.wf(),
        q.next_id < u64::MAX,
        0 <= at < q.enqueued(kind).nodes.len(),
        q.enqueued(kind).nodes[at].id == q.id_for(kind),
    ensures
        has_come_in(q, q.enqueued(kind), kind, at, q.slot_for(kind) as int),
{
    queue::lemma_enqueued(q, kind);
    let e = q.enqueued(kind);
    let n = q.nodes.len() as int;
    let own = if q.joins(kind) {
        n - 1
    } else if kind is Upgrade {
        0
    } else {
        n
    };
    assert(e.nodes[own].id == q.id_for(kind));
    if at < own {
        assert(e.nodes[at].id != e.nodes[own].id);
    } else if own < at {
        assert(e.nodes[own].id != e.nodes[at].id);
    }
    if !(q.joins(kind)) {
        assert forall|i: int| 0 <= i < n implies q.next_id as u64 != (#[trigger] q.nodes[i]).id by {
            assert(q.nodes[i].id < q.next_id);
        }
    }
}

/// Whether the queue `s` is `q` after the task at the place `slot` of the node `at`
/// has come in or given up, whichever `state` says: its place says so and has no
/// waker any more, and nothing else changes. A writer or an upgrade is no longer
/// counted.
pub open spec fn has_left(
    q: QueueView,
    s: QueueView,
    at: int,
    slot: int,
    state: SlotState,
) -> bool {
    let left = s.nodes[at].slots[slot];
    &&& s.nodes.len() == q.nodes.len()
    &&& forall|i: int| 0 <= i < q.nodes.len() && i != at ==> s.nodes[i] == #[trigger] q.nodes[i]
    &&& s.nodes[at].id == q.nodes[at].id && s.nodes[at].readish == q.nodes[at].readish
    &&& s.nodes[at].slots.len() == q.nodes[at].slots.len()
    &&& forall|k: int|
        0 <= k < q.nodes[at].slots.len() && k != slot ==> s.nodes[at].slots[k]
            == #[trigger] q.nodes[at].slots[k]
    &&& left.state_ == state && left.waker_ is None
    &&& left.kind_ == q.nodes[at].slots[slot].kind_
    &&& s.writer_waiters == q.writer_waiters - (if q.nodes[at].readish {
        0int
    } else {
        1
    })
    &&& s.next_id == q.next_id
}

/// What a task leaves behind that comes in or gives up.
pub proof fn law_what_a_task_leaves_behind(
    q: QueueView,
    id: u64,
    slot: int,
    state: SlotState,
    at: int,
)
    requires
        q.wf(),
        0 <= at < q.nodes.len(),
        q.nodes[at].id == id,
        0 <= slot < q.nodes[at].slots.len(),
        taken(q.nodes[at].slots[slot]),
        state is Acquired || state is Cancelled,
    ensures
        has_left(q, q.settled(id, slot, state), at, slot, state),
{
    assert(q.has_at(id, at));
    queue::lemma_place(q, id, at);
    assert(q.nodes[at].slots[slot].state_.pending());
    assert(q.keeps(id, slot));
    queue::lemma_settled(q, id, slot, state);
}

/// Whether the queue `after` is `q` after the task at the place `slot` of the node
/// `at` did not come in: it waits, with a waker that is the one that it had, if
/// that was asked and answered that it wakes the task, or a clone of the one that
/// it came with. Nothing else changes.
pub open spec fn waits_on(
    q: QueueView,
    after: QueueView,
    at: int,
    slot: int,
    waker: Waker,
) -> bool {
    let a = q.nodes[at].slots[slot];
    let b = after.nodes[at].slots[slot];
    &&& after.nodes.len() == q.nodes.len()
    &&& after.writer_waiters == q.writer_waiters && after.next_id == q.next_id
    &&& forall|i: int|
        0 <= i < q.nodes.len() && i != at ==> after.nodes[i] == #[trigger] q.nodes[i]
    &&& after.nodes[at].id == q.nodes[at].id && after.nodes[at].readish == q.nodes[at].readish
    &&& after.nodes[at].slots.len() == q.nodes[at].slots.len()
    &&& forall|k: int|
        0 <= k < q.nodes[at].slots.len() && k != slot ==> after.nodes[at].slots[k]
            == #[trigger] q.nodes[at].slots[k]
    &&& b.kind_ == a.kind_ && b.state_ is Waiting
    &&& b.waker_ is Some
    &&& b.waker_ != a.waker_ ==> cloned(waker, b.waker_->0)
    &&& !cloned(waker, b.waker_->0) ==> call_ensures(
        Waker::will_wake,
        (&b.waker_->0, &waker),
        true,
    )
}

/// What a task leaves behind that did not come in.
pub proof fn law_what_a_task_waits_with(
    q: QueueView,
    after: QueueView,
    id: u64,
    slot: int,
    waker: Waker,
    at: int,
)
    requires
        q.wf(),
        0 <= at < q.nodes.len(),
        q.nodes[at].id == id,
        0 <= slot < q.nodes[at].slots.len(),
        q.waker_set(after, id, slot, waker),
    ensures
        waits_on(q, after, at, slot, waker),
{
    assert(q.has_at(id, at));
    queue::lemma_place(q, id, at);
}

/// Whether the word `w` lets a task of this kind in from the queue: a reader where
/// no writer holds the lock, an upgradable reader where besides nobody is
/// upgradable, a writer where nobody holds the lock, and an upgrade where its own
/// is the only place. Readers are counted up to the largest number.
pub open spec fn lets_in<D: StateWord>(w: D, kind: WaitKind) -> bool {
    let f = state::coop_view(w);
    let max = state::max_readers(D::bits());
    !f.writer && match kind {
        WaitKind::Read => f.readers < max,
        WaitKind::UpgradableRead => f.readers < max && !f.upgrade,
        WaitKind::Write => f.readers == 0 && !f.upgrade,
        WaitKind::Upgrade => f.readers == 1 && f.upgrade,
    }
}

/// By which condition of the word a task comes in from the queue.
pub proof fn law_claim_goes_by_the_word<D: StateWord>(
    a: Attempt<D, CoopStep>,
    kind: WaitKind,
)
    requires
        cell::attempt_holds(a, rwcore::claim_step(kind)),
    ensures
        a.swapped() <==> lets_in(a.seen(), kind),
{
}

/// Whether the queue `p` is `q` without the nodes at its front that nobody is left
/// in, of which there are `d`.
pub open spec fn is_cleared(q: QueueView, p: QueueView, d: int) -> bool {
    &&& 0 <= d <= q.nodes.len()
    &&& forall|j: int| 0 <= j < d ==> !occupied(#[trigger] q.nodes[j])
    &&& d < q.nodes.len() ==> occupied(q.nodes[d])
    &&& p.nodes.len() == q.nodes.len() - d
    &&& forall|j: int| d <= j < q.nodes.len() ==> p.nodes[j - d] == #[trigger] q.nodes[j]
    &&& p.writer_waiters == q.writer_waiters && p.next_id == q.next_id
}

/// The nodes that come away are those that nobody is left in.
proof fn lemma_cleared(q: QueueView)
    ensures
        is_cleared(q, q.pruned(), queue::dead_front(q.nodes) as int),
{
    queue::lemma_dead_front(q.nodes);
    assert forall|j: int| 0 <= j < q.nodes.len() implies occupied(#[trigger] q.nodes[j]) == (
    q.nodes[j].pending() > 0) by {
        lemma_occupied(q.nodes[j]);
    }
}

/// What becomes of a task that tries to come in at the place `slot` of the node
/// `at`, and of the queue `p` by that: only the first node tries, and whoever tries
/// comes in just where the word lets it; it has then left its place, and otherwise
/// it waits there.
pub open spec fn has_tried<D: StateWord>(
    c: Claim<D>,
    p: QueueView,
    s: QueueView,
    at: int,
    slot: int,
    waker: Waker,
) -> bool {
    &&& c.tried is Some <==> at == 0
    &&& c.claimed <==> at == 0 && lets_in(c.tried->0.seen(), p.nodes[at].slots[slot].kind_)
    &&& c.tried matches Some(a) ==> a.swapped() == c.claimed
    &&& if c.claimed {
        has_left(p, s, at, slot, SlotState::Acquired)
    } else {
        waits_on(p, s, at, slot, waker)
    }
}

/// What becomes of a task that tries to come in, and of the queue by that.
proof fn lemma_tried<D: StateWord>(
    c: Claim<D>,
    p: QueueView,
    s: QueueView,
    id: u64,
    slot: int,
    waker: Waker,
    at: int,
)
    requires
        p.wf(),
        p.keeps(id, slot),
        c.leads(p, s, id, slot, waker),
        0 <= at < p.nodes.len(),
        p.nodes[at].id == id,
    ensures
        has_tried(c, p, s, at, slot, waker),
{
    assert(p.has_at(id, at));
    queue::lemma_place(p, id, at);
    law_kept_places(p, id, slot, at);
    if c.tried is Some {
        law_claim_goes_by_the_word(c.tried->0, p.nodes[at].slots[slot].kind_);
    }
    if c.claimed {
        law_what_a_task_leaves_behind(p, id, slot, SlotState::Acquired, at);
    } else {
        law_what_a_task_waits_with(p, s, id, slot, waker, at);
    }
}

/// What trying again does: the nodes come away that nobody is left in; the task
/// comes in if its node is then the first and the word lets it, and waits
/// otherwise; and then others are admitted.
pub proof fn law_what_trying_again_does<D: StateWord>(
    t: Retry<D>,
    q: QueueView,
    after: QueueView,
    id: u64,
    slot: int,
    waker: Waker,
    at: int,
)
    requires
        q.wf(),
        q.keeps(id, slot),
        t.leads(q, after, id, slot, waker),
        0 <= at < q.nodes.len(),
        q.nodes[at].id == id,
    ensures
        t.claim.tried is Some <==> forall|j: int| 0 <= j < at ==> !occupied(#[trigger] q.nodes[j]),
        exists|d: int, p: QueueView, s: QueueView|
            {
                &&& d <= at
                &&& #[trigger] is_cleared(q, p, d)
                &&& has_tried(t.claim, p, s, at - d, slot, waker)
                &&& #[trigger] t.pass.leads(s, after)
            },
{
    let p = q.pruned();
    let d = queue::dead_front(q.nodes) as int;
    queue::lemma_pruned(q);
    lemma_cleared(q);
    let s = choose|s: QueueView| #[trigger]
        t.pass.leads(s, after) && t.claim.leads(p, s, id, slot, waker);
    law_kept_places(q, id, slot, at);
    assert(occupied(q.nodes[at]));
    assert(d <= at);
    assert(p.nodes[at - d] == q.nodes[at]);
    lemma_tried(t.claim, p, s, id, slot, waker, at - d);
    assert(is_cleared(q, p, d) && t.pass.leads(s, after));
}

/// What coming into the queue does: the nodes come away that nobody is left in; the
/// task comes into the queue; it comes into the lock if its node is then the first
/// and the word lets it, and waits otherwise; and then others are admitted. Its
/// node is the first if it is an upgrade, or if nobody is left in any node but the
/// one that it joins.
pub proof fn law_what_coming_into_the_queue_does<D: StateWord>(
    a: Acquire<D>,
    q: QueueView,
    after: QueueView,
    kind: WaitKind,
    waker: Waker,
)
    requires
        q.wf(),
        q.next_id < u64::MAX,
        a.leads(q, after, kind, waker),
    ensures
        a.claim.tried is Some <==> kind is Upgrade || forall|j: int|
            0 <= j < q.nodes.len() && occupied(#[trigger] q.nodes[j]) ==> j == q.nodes.len() - 1
                && q.nodes[j].readish && (kind is Read || kind is UpgradableRead),
        a.progress is Acquired <==> a.claim.claimed,
        exists|d: int, p: QueueView, e: QueueView, s: QueueView, at: int, slot: int|
            {
                &&& #[trigger] is_cleared(q, p, d)
                &&& #[trigger] has_come_in(p, e, kind, at, slot)
                &&& has_tried(a.claim, e, s, at, slot, waker)
                &&& #[trigger] a.pass.leads(s, after)
                &&& a.progress matches AcqProgress::Waiting { node_, slot_ } ==> node_
                    == e.nodes[at].id && slot_ == slot
            },
{
    let p = q.pruned();
    let e = p.enqueued(kind);
    let d = queue::dead_front(q.nodes) as int;
    let id = p.id_for(kind);
    let slot = p.slot_for(kind) as int;
    queue::lemma_pruned(q);
    lemma_cleared(q);
    queue::lemma_enqueued(p, kind);
    let at = e.place(id);
    let s = choose|s: QueueView| #[trigger]
        a.pass.leads(s, after) && a.claim.leads(e, s, id, slot, waker);
    law_where_a_task_comes_in(p, kind, at);
    lemma_tried(a.claim, e, s, id, slot, waker, at);
    let n = q.nodes.len() as int;
    let shares = kind is Read || kind is UpgradableRead;
    if d < n {
        assert(p.nodes[0] == q.nodes[d]);
        assert(p.nodes[n - 1 - d] == q.nodes[n - 1]);
    }
    if a.claim.tried is Some && !(kind is Upgrade) {
        assert forall|j: int| 0 <= j < n && occupied(#[trigger] q.nodes[j]) implies j == n - 1
            && q.nodes[j].readish && shares by {
            assert(d <= j);
        }
    }
    if a.claim.tried is None && !(kind is Upgrade) {
        assert(at > 0);
        assert(d < n);
        assert(occupied(q.nodes[d]));
    }
    assert(is_cleared(q, p, d) && has_come_in(p, e, kind, at, slot) && a.pass.leads(s, after));
}

/// What giving up does: the task leaves its place, and then others are admitted.
pub proof fn law_what_giving_up_does<D: StateWord>(
    g: GiveUp<D>,
    q: QueueView,
    after: QueueView,
    id: u64,
    slot: int,
    at: int,
)
    requires
        q.wf(),
        q.keeps(id, slot),
        g.leads(q, after, id, slot),
        0 <= at < q.nodes.len(),
        q.nodes[at].id == id,
    ensures
        exists|s: QueueView| #[trigger]
            g.pass.leads(s, after) && has_left(q, s, at, slot, SlotState::Cancelled),
{
    law_kept_places(q, id, slot, at);
    law_what_a_task_leaves_behind(q, id, slot, SlotState::Cancelled, at);
    assert(g.pass.leads(q.settled(id, slot, SlotState::Cancelled), after));
}

/// What deciding does where nobody is left in the queue: it is empty after that,
/// its mark is cleared, and nobody is woken. Where somebody is left, the mark
/// stays.
pub proof fn law_empty_queue_is_unmarked<D: StateWord>(p: Pass<D>, q: QueueView, after: QueueView)
    requires
        q.wf(),
        p.leads(q, after),
    ensures
        ({
            let nobody = forall|j: int|
                0 <= j < q.nodes.len() ==> !occupied(#[trigger] q.nodes[j]);
            &&& p.cleared is Some <==> nobody
            &&& p.looked is None <==> nobody
            &&& nobody ==> after.nodes.len() == 0 && p.wakers@.len() == 0
            &&& p.cleared matches Some(a) ==> a.step() is ClearWaiters
        }),
        after.writer_waiters == q.writer_waiters,
        after.next_id == q.next_id,
{
    lemma_cleared(q);
}

/// What a poll makes of the task: one that came in is done, and one that did not
/// waits, at the place that it had if it had one, and otherwise at the one that it
/// got.
pub proof fn law_what_a_poll_makes_of_the_task<D: StateWord>(
    task: AcquireInner,
    p: Polled<D>,
    source: Source,
    q: QueueView,
    after: QueueView,
    waker: Waker,
)
    requires
        task.live_,
        task.poll_leads(p, source, q, after, waker),
    ensures
        ({
            let n = task.after_poll(p);
            &&& n.kind_ == task.kind_
            &&& n.live_ == !p.ready
            &&& n.pending_ is None <==> p.ready
            &&& !p.ready && task.pending_ is Some ==> n.pending_ == task.pending_
            &&& !p.ready && task.pending_ is None ==> match p.queued {
                Some(Queued::Entered(a)) => a.progress matches AcqProgress::Waiting {
                    node_,
                    slot_,
                } && n.pending_ == Some((node_, slot_)),
                _ => false,
            }
        }),
{
}

/// Whoever a poll admits is handed on to be woken, and the exchange that it names
/// is the one by which the task came in.
pub proof fn law_what_a_poll_hands_on<D: StateWord>(p: Polled<D>)
    ensures
        p.admitted() == (match p.queued {
            None => Seq::empty(),
            Some(Queued::Entered(a)) => a.pass.wakers@,
            Some(Queued::Retried(t)) => t.pass.wakers@,
        }),
        p.exchange() matches Some(x) ==> p.ready && (match p.queued {
            None => p.fast == Some(x),
            Some(Queued::Entered(a)) => a.progress is Acquired && a.claim.tried == Some(x),
            Some(Queued::Retried(t)) => t.claim.claimed && t.claim.tried == Some(x),
        }),
{
}

/// A task whose token was cancelled gives up, whether it could come in or not. If
/// it waits, it leaves its place; if it does not wait yet, the queue stays as it
/// was. It makes no exchange to come in.
pub proof fn law_cancelled_task_gives_up<D: StateWord>(
    task: AcquireFuture,
    r: FuturePolled<D>,
    source: Source,
    q: QueueView,
    after: QueueView,
    waker: Waker,
    at: int,
)
    requires
        q.wf(),
        task.inner_ is Some,
        task.inner_->0.placed(q),
        task.poll_leads(true, r, source, q, after, waker),
        task.inner_->0.pending_ is Some ==> 0 <= at < q.nodes.len() && q.nodes[at].id
            == task.inner_->0.node(),
    ensures
        r.out == AcqPoll::Ready(Err(CoopRwLockError::Cancelled)),
        r.polled is None,
        task.after_poll(r).inner_ is None,
        task.inner_->0.pending_ is None ==> after == q && r.gave_up is None,
        task.inner_->0.pending_ matches Some((_, slot)) ==> r.gave_up is Some && exists|
            s: QueueView,
        | #[trigger]
            r.gave_up->0.pass.leads(s, after) && has_left(
                q,
                s,
                at,
                slot as int,
                SlotState::Cancelled,
            ),
{
    let inner = task.inner_->0;
    if inner.pending_ is Some {
        law_what_giving_up_does(r.gave_up->0, q, after, inner.node(), inner.slot(), at);
    }
}

/// A task whose token was not cancelled comes in, or waits, and does not give up.
pub proof fn law_task_that_is_not_cancelled_stays<D: StateWord>(
    task: AcquireFuture,
    r: FuturePolled<D>,
    source: Source,
    q: QueueView,
    after: QueueView,
    waker: Waker,
)
    requires
        task.inner_ is Some,
        task.inner_->0.live_,
        task.poll_leads(false, r, source, q, after, waker),
    ensures
        r.gave_up is None,
        r.polled is Some,
        task.inner_->0.poll_leads(r.polled->0, source, q, after, waker),
        r.out is Pending <==> !r.polled->0.ready,
        r.out is Ready ==> r.out == AcqPoll::Ready(Ok(())) && task.after_poll(r).inner_ is None,
        r.out is Pending ==> task.after_poll(r).inner_ == Some(
            task.inner_->0.after_poll(r.polled->0),
        ),
{
}

} // verus!
