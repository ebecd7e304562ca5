//! What the cooperative reader-writer lock promises its tasks.

use core::task::Waker;

use vstd::prelude::*;

use crate::cell;
use crate::cell::Attempt;
use crate::rwlock::cooperative::acquire::{AcquireInner, Polled, Queued};
use crate::rwlock::cooperative::queue;
use crate::rwlock::cooperative::queue::QueueView;
use crate::rwlock::cooperative::rwcore;
use crate::rwlock::cooperative::rwcore::{Acquire, GiveUp, Pass, Retry};
use crate::rwlock::cooperative::rwlock;
use crate::rwlock::cooperative::state;
use crate::rwlock::cooperative::state::{CoopFields, CoopStep};
use crate::rwlock::cooperative::wait;
use crate::rwlock::cooperative::wait::{Admit, WaitKind, WaiterSlot};
use crate::word::StateWord;

verus! {

/// Whether a change of the state word is one of the marks of the queue alone.
pub open spec fn is_mark(step: CoopStep) -> bool {
    step is MarkWaiters || step is ClearWaiters || step is MarkWriterQueued
        || step is ClearWriterQueued || step is MarkBoth || step is ClearBoth
}

/// Who holds a lock.
pub struct Holders {
    /// How many readers do, upgradable ones aside.
    pub readers: nat,
    /// How many upgradable readers do.
    pub upgradables: nat,
    /// How many writers do that are nothing else.
    pub writers: nat,
    /// How many writers do that keep a place as an upgradable reader.
    pub upgraded: nat,
}

/// A lock together with those who hold it.
pub struct CoopSystem {
    pub word: CoopFields,
    pub by: Holders,
}

/// What can happen to a lock.
pub enum CoopEvent {
    /// A reader comes in, whether or not it waited.
    Read,
    /// A reader leaves.
    ReadDrop,
    /// A writer comes in, whether or not it waited.
    Write,
    /// A mark of the queue changes.
    Mark(CoopStep),
    /// A writer leaves.
    WriteDrop,
    /// A writer leaves that keeps a place as an upgradable reader.
    UpgradedDrop,
    /// An upgradable reader comes in, whether or not it waited.
    UpgradableRead,
    /// An upgradable reader leaves.
    UpgradableDrop,
    /// A writer becomes a reader.
    WriteToRead,
    /// A writer that keeps a place as an upgradable reader becomes a reader.
    UpgradedToRead,
    /// A writer becomes an upgradable reader.
    WriteToUpgradable,
    /// An upgradable reader becomes a reader.
    UpgradableToRead,
    /// An upgradable reader becomes a writer, and keeps its place.
    Upgrade,
    /// A writer gives up its place as an upgradable reader.
    Settle,
    /// A writer that keeps a place as an upgradable reader becomes one again.
    UpgradedToUpgradable,
}

impl CoopEvent {
    /// The change of the state word.
    pub open spec fn step(self) -> CoopStep {
        match self {
            CoopEvent::Read => CoopStep::ReadQueued,
            CoopEvent::ReadDrop => CoopStep::ReleaseReader,
            CoopEvent::Write => CoopStep::WriteQueued,
            CoopEvent::Mark(step) => step,
            CoopEvent::WriteDrop => CoopStep::ReleaseWriter,
            CoopEvent::UpgradedDrop => CoopStep::ReleaseWriter,
            CoopEvent::UpgradableRead => CoopStep::UpgradableReadQueued,
            CoopEvent::UpgradableDrop => CoopStep::ReleaseUpgradable,
            CoopEvent::WriteToRead => CoopStep::WriteToRead,
            CoopEvent::UpgradedToRead => CoopStep::WriteToRead,
            CoopEvent::WriteToUpgradable => CoopStep::WriteToUpgradable,
            CoopEvent::UpgradableToRead => CoopStep::UpgradableToRead,
            CoopEvent::Upgrade => CoopStep::Upgrade,
            CoopEvent::Settle => CoopStep::ReleaseUpgradable,
            CoopEvent::UpgradedToUpgradable => CoopStep::WriteToUpgradable,
        }
    }
}

impl Holders {
    pub open spec fn none() -> Holders {
        Holders { readers: 0, upgradables: 0, writers: 0, upgraded: 0 }
    }

    /// Whether somebody is there whom the event can happen to. An upgradable
    /// reader that is a writer for a while is not at hand.
    pub open spec fn have(self, e: CoopEvent) -> bool {
        match e {
            CoopEvent::Read => true,
            CoopEvent::ReadDrop => self.readers > 0,
            CoopEvent::Write => true,
            CoopEvent::Mark(step) => is_mark(step),
            CoopEvent::WriteDrop => self.writers > 0,
            CoopEvent::UpgradedDrop => self.upgraded > 0,
            CoopEvent::UpgradableRead => true,
            CoopEvent::UpgradableDrop => self.upgradables > self.upgraded,
            CoopEvent::WriteToRead => self.writers > 0,
            CoopEvent::UpgradedToRead => self.upgraded > 0,
            CoopEvent::WriteToUpgradable => self.writers > 0,
            CoopEvent::UpgradableToRead => self.upgradables > self.upgraded,
            CoopEvent::Upgrade => self.upgradables > self.upgraded,
            CoopEvent::Settle => self.upgraded > 0,
            CoopEvent::UpgradedToUpgradable => self.upgraded > 0,
        }
    }

    pub open spec fn after(self, e: CoopEvent) -> Holders {
        match e {
            CoopEvent::Read => Holders { readers: self.readers + 1, ..self },
            CoopEvent::ReadDrop => Holders { readers: (self.readers - 1) as nat, ..self },
            CoopEvent::Write => Holders { writers: self.writers + 1, ..self },
            CoopEvent::Mark(_) => self,
            CoopEvent::WriteDrop => Holders { writers: (self.writers - 1) as nat, ..self },
            CoopEvent::UpgradedDrop => Holders { upgraded: (self.upgraded - 1) as nat, ..self },
            CoopEvent::UpgradableRead => Holders { upgradables: self.upgradables + 1, ..self },
            CoopEvent::UpgradableDrop => Holders {
                upgradables: (self.upgradables - 1) as nat,
                ..self
            },
            CoopEvent::WriteToRead => Holders {
                writers: (self.writers - 1) as nat,
                readers: self.readers + 1,
                ..self
            },
            CoopEvent::UpgradedToRead => Holders {
                upgraded: (self.upgraded - 1) as nat,
                readers: self.readers + 1,
                ..self
            },
            CoopEvent::WriteToUpgradable => Holders {
                writers: (self.writers - 1) as nat,
                upgradables: self.upgradables + 1,
                ..self
            },
            CoopEvent::UpgradableToRead => Holders {
                upgradables: (self.upgradables - 1) as nat,
                readers: self.readers + 1,
                ..self
            },
            CoopEvent::Upgrade => Holders { upgraded: self.upgraded + 1, ..self },
            CoopEvent::Settle => Holders {
                upgradables: (self.upgradables - 1) as nat,
                upgraded: (self.upgraded - 1) as nat,
                writers: self.writers + 1,
                ..self
            },
            CoopEvent::UpgradedToUpgradable => Holders {
                upgraded: (self.upgraded - 1) as nat,
                ..self
            },
        }
    }
}

impl CoopSystem {
    /// A lock that nobody holds or waits for.
    pub open spec fn start() -> CoopSystem {
        CoopSystem { word: CoopFields::free(), by: Holders::none() }
    }

    /// Whether an event can happen: the word admits it, and somebody is there
    /// whom it can happen to.
    pub open spec fn can(self, e: CoopEvent, max: nat) -> bool {
        &&& state::step_enabled(e.step(), self.word, max)
        &&& self.by.have(e)
    }

    pub open spec fn after(self, e: CoopEvent) -> CoopSystem {
        CoopSystem { word: state::step_next(e.step(), self.word), by: self.by.after(e) }
    }

    /// Whether all the events can happen, one after the other.
    pub open spec fn can_all(self, es: Seq<CoopEvent>, max: nat) -> bool
        decreases es.len(),
    {
        es.len() > 0 ==> self.can_all(es.drop_last(), max) && self.after_all(es.drop_last()).can(
            es.last(),
            max,
        )
    }

    pub open spec fn after_all(self, es: Seq<CoopEvent>) -> CoopSystem
        decreases es.len(),
    {
        if es.len() == 0 {
            self
        } else {
            self.after_all(es.drop_last()).after(es.last())
        }
    }

    /// The word counts those who hold the lock, and they agree.
    pub open spec fn inv(self, max: nat) -> bool {
        let f = self.word;
        let h = self.by;
        &&& f.readers == h.readers + h.upgradables
        &&& f.readers <= max
        &&& f.upgrade <==> h.upgradables == 1
        &&& h.upgradables <= 1
        &&& f.writer <==> h.writers + h.upgraded == 1
        &&& h.writers + h.upgraded <= 1
        &&& h.upgraded <= h.upgradables
        &&& h.writers == 1 ==> h.readers == 0 && h.upgradables == 0
        &&& h.upgraded == 1 ==> h.readers == 0
    }
}

/// An event that can happen does not count into the flags of the word, and
/// keeps the word in agreement with those who hold the lock.
pub proof fn lemma_event(sys: CoopSystem, e: CoopEvent, max: nat)
    requires
        2 <= max,
        sys.inv(max),
        sys.can(e, max),
    ensures
        !state::carries(e.step(), sys.word, max),
        sys.after(e).inv(max),
{
}

/// Whatever happens to a fresh lock, its word is in agreement with those who
/// hold it: the count of the word is that of the readers, the upgradable reader
/// among them, also while that one is a writer.
pub proof fn law_word_counts_holders(es: Seq<CoopEvent>, max: nat)
    requires
        2 <= max,
        CoopSystem::start().can_all(es, max),
    ensures
        CoopSystem::start().after_all(es).inv(max),
    decreases es.len(),
{
    if es.len() > 0 {
        law_word_counts_holders(es.drop_last(), max);
        lemma_event(CoopSystem::start().after_all(es.drop_last()), es.last(), max);
    }
}

/// Whether an event can come about by this change of the state word. Whoever
/// comes in may do so without waiting.
pub open spec fn made_by(e: CoopEvent, step: CoopStep) -> bool {
    ||| step == e.step()
    ||| e is Read && step is ReadFast
    ||| e is Write && step is WriteFast
    ||| e is UpgradableRead && step is UpgradableReadFast
}

/// The number of the word after exchanges that all swapped it, one after the
/// other, on a fresh lock.
pub open spec fn word_after<D: StateWord>(h: Seq<Attempt<D, CoopStep>>) -> nat {
    if h.len() == 0 {
        0
    } else {
        state::number_next(h.last().step(), h.last().seen().val(), D::bits())
    }
}

/// Whether these exchanges, each by a step of its event, can have been made on
/// a fresh lock: each swapped the word that the one before it left behind, and
/// was made by somebody whom the event can happen to.
pub open spec fn history<D: StateWord>(es: Seq<CoopEvent>, h: Seq<Attempt<D, CoopStep>>) -> bool
    decreases es.len(),
{
    &&& es.len() == h.len()
    &&& es.len() > 0 ==> {
        &&& history(es.drop_last(), h.drop_last())
        &&& made_by(es.last(), h.last().step())
        &&& cell::attempt_holds(h.last(), h.last().step())
        &&& h.last().swapped()
        &&& h.last().seen().val() == word_after(h.drop_last())
        &&& CoopSystem::start().after_all(es.drop_last()).by.have(es.last())
    }
}

/// Whatever exchanges the functions of a lock have made on its word, in
/// whatever order, the word is in agreement with those who hold the lock. That
/// an exchange swapped the word is all that it takes.
pub proof fn law_exchanges_keep_agreement<D: StateWord>(
    es: Seq<CoopEvent>,
    h: Seq<Attempt<D, CoopStep>>,
)
    requires
        history(es, h),
    ensures
        CoopSystem::start().can_all(es, state::max_readers(D::bits())),
        CoopSystem::start().after_all(es).inv(state::max_readers(D::bits())),
        word_after(h) < vstd::arithmetic::power2::pow2(D::bits()),
        state::fields_of(word_after(h), D::bits()) == CoopSystem::start().after_all(es).word,
    decreases es.len(),
{
    let bits = D::bits();
    let max = state::max_readers(bits);
    D::lemma_width();
    vstd::arithmetic::power2::lemma_pow2_pos(bits);
    state::lemma_fields(0, bits);
    if es.len() == 0 {
        state::lemma_word_of(CoopFields::free(), bits);
        vstd::arithmetic::mul::lemma_mul_basics(
            vstd::arithmetic::power2::pow2(state::flags_at(bits)) as int,
        );
    } else {
        let a = h.last();
        let e = es.last();
        let sys = CoopSystem::start().after_all(es.drop_last());
        law_exchanges_keep_agreement(es.drop_last(), h.drop_last());
        a.seen().lemma_word();
        assert(state::step_enabled(a.step(), sys.word, max));
        assert(sys.can(e, max));
        lemma_event(sys, e, max);
        assert(state::number_next(a.step(), a.seen().val(), bits) == state::number_next(
            e.step(),
            a.seen().val(),
            bits,
        ));
        state::lemma_step(e.step(), a.seen().val(), bits);
    }
}

/// A try comes in just where the word that decided it admits that. Without
/// waiting, a reader comes in where no writer holds the lock or waits, a writer
/// and an upgradable reader where nobody waits either, and an upgrade where its
/// own is the only place. So whoever finds a free lock comes in.
pub proof fn law_try_goes_by_the_word<D: StateWord>(a: Attempt<D, CoopStep>, kind: WaitKind)
    requires
        cell::attempt_holds(a, rwcore::fast_step(kind)),
    ensures
        ({
            let f = state::coop_view(a.seen());
            let max = state::max_readers(D::bits());
            &&& kind is Read ==> a.swapped() == (!f.writer && !f.writer_queued && f.readers < max)
            &&& kind is Write ==> a.swapped() == (!f.writer && !f.waiters && !f.upgrade
                && f.readers == 0)
            &&& kind is UpgradableRead ==> a.swapped() == (!f.writer && !f.waiters && !f.upgrade
                && f.readers < max)
            &&& kind is Upgrade ==> a.swapped() == (f.upgrade && f.readers == 1 && !f.writer)
            &&& f == CoopFields::free() && !(kind is Upgrade) ==> a.swapped()
        }),
{
    D::lemma_width();
    vstd::arithmetic::power2::lemma_pow2_pos(D::bits());
    state::lemma_fields(0, D::bits());
}

/// Steps are told apart by their names, and each has one.
pub proof fn law_names_tell_steps_apart(a: CoopStep, b: CoopStep)
    ensures
        state::step_name(a) == state::step_name(b) ==> a == b,
        state::step_name(a) != cell::no_step(),
{
}

/// A task that tries to come in, in whichever way and however often, takes
/// nobody's place away: the step that it may take counts no reader less, and
/// clears no flag.
pub proof fn law_tries_take_nobodys_place(
    kind: WaitKind,
    step: CoopStep,
    f: CoopFields,
    max: nat,
)
    requires
        state::step_name(step) == state::step_name(rwcore::fast_step(kind)) || state::step_name(
            step,
        ) == state::step_name(rwcore::claim_step(kind)),
        state::step_enabled(step, f, max),
    ensures
        state::step_next(step, f).readers >= f.readers,
        f.writer ==> state::step_next(step, f).writer,
        f.upgrade ==> state::step_next(step, f).upgrade,
        state::step_next(step, f).waiters == f.waiters,
        state::step_next(step, f).writer_queued == f.writer_queued,
        kind is Upgrade ==> state::step_next(step, f).readers == f.readers,
{
}

/// A writer holds the lock alone: no other writer and no reader holds it at the
/// same time, but for the place as an upgradable reader that the writer itself
/// keeps. There is at most one upgradable reader.
pub proof fn law_writer_excludes_others(es: Seq<CoopEvent>, max: nat)
    requires
        2 <= max,
        CoopSystem::start().can_all(es, max),
    ensures
        ({
            let h = CoopSystem::start().after_all(es).by;
            &&& h.writers + h.upgraded <= 1
            &&& h.writers == 1 ==> h.readers == 0 && h.upgradables == 0
            &&& h.upgraded == 1 ==> h.readers == 0 && h.upgradables == 1
            &&& h.upgradables <= 1
        }),
{
    law_word_counts_holders(es, max);
}

/// Whoever holds the lock can leave, and can downgrade: the word admits it.
pub proof fn law_holders_can_leave(es: Seq<CoopEvent>, max: nat, e: CoopEvent)
    requires
        2 <= max,
        CoopSystem::start().can_all(es, max),
        CoopSystem::start().after_all(es).by.have(e),
        e is ReadDrop || e is WriteDrop || e is UpgradedDrop || e is UpgradableDrop
            || e is WriteToRead || e is UpgradedToRead || e is WriteToUpgradable
            || e is UpgradableToRead || e is Settle || e is UpgradedToUpgradable,
    ensures
        CoopSystem::start().after_all(es).can(e, max),
{
    law_word_counts_holders(es, max);
}

/// The only reader, if it is upgradable, can become a writer.
pub proof fn law_only_reader_can_upgrade(es: Seq<CoopEvent>, max: nat)
    requires
        2 <= max,
        CoopSystem::start().can_all(es, max),
        CoopSystem::start().after_all(es).by.upgradables == 1,
        CoopSystem::start().after_all(es).by.upgraded == 0,
    ensures
        CoopSystem::start().after_all(es).can(CoopEvent::Upgrade, max) <==> CoopSystem::start().after_all(
            es,
        ).by.readers == 0,
{
    law_word_counts_holders(es, max);
}

/// Coming in without waiting asks for no less than coming in from the queue,
/// and does the same to the word.
pub proof fn law_fast_is_queued_and_more(kind: WaitKind, f: CoopFields, max: nat)
    ensures
        state::step_enabled(rwcore::fast_step(kind), f, max) ==> state::step_enabled(
            rwcore::claim_step(kind),
            f,
            max,
        ),
        state::step_next(rwcore::fast_step(kind), f) == state::step_next(
            rwcore::claim_step(kind),
            f,
        ),
{
}

/// While somebody waits, no writer and no upgradable reader comes in without
/// waiting; while a writer waits, or an upgrade, no reader does either. Readers
/// that wait bar no reader.
pub proof fn law_nobody_overtakes(f: CoopFields, max: nat)
    ensures
        f.waiters ==> !state::step_enabled(CoopStep::WriteFast, f, max),
        f.waiters ==> !state::step_enabled(CoopStep::UpgradableReadFast, f, max),
        f.writer_queued ==> !state::step_enabled(CoopStep::ReadFast, f, max),
        !f.writer_queued ==> state::step_enabled(CoopStep::ReadFast, f, max)
            == state::step_enabled(CoopStep::ReadFast, CoopFields { waiters: !f.waiters, ..f }, max),
{
}

/// Whoever was in the queue comes in without regard to its marks.
pub proof fn law_queued_ignores_marks(
    kind: WaitKind,
    f: CoopFields,
    waiters: bool,
    writer_queued: bool,
    max: nat,
)
    ensures
        state::step_enabled(rwcore::claim_step(kind), f, max) == state::step_enabled(
            rwcore::claim_step(kind),
            CoopFields { waiters, writer_queued, ..f },
            max,
        ),
{
}

/// The marks of the queue change by their own steps alone, and those change
/// nothing else.
pub proof fn law_marks_are_apart(step: CoopStep, f: CoopFields)
    ensures
        !is_mark(step) ==> state::step_next(step, f).waiters == f.waiters && state::step_next(
            step,
            f,
        ).writer_queued == f.writer_queued,
        is_mark(step) ==> state::step_next(step, f) == (CoopFields {
            waiters: state::step_next(step, f).waiters,
            writer_queued: state::step_next(step, f).writer_queued,
            ..f
        }),
{
}

/// An upgradable reader that becomes a writer, and is downgraded to an upgradable
/// reader again, has one place all the while: the word is what it was before the
/// upgrade, and giving the place back once leaves the word as it was at first.
pub proof fn law_upgrade_and_back_keep_one_place(word: CoopFields, max: nat)
    requires
        state::step_enabled(CoopStep::UpgradableReadQueued, word, max),
    ensures
        ({
            let held = state::step_next(CoopStep::UpgradableReadQueued, word);
            let upgraded = state::step_next(CoopStep::Upgrade, held);
            let back = state::step_next(CoopStep::WriteToUpgradable, upgraded);
            &&& upgraded.readers == held.readers && upgraded.upgrade
            &&& back == held
            &&& state::step_next(CoopStep::ReleaseUpgradable, back) == word
        }),
{
}

/// Coming in and leaving again leaves the word as it was. An upgradable reader
/// that becomes a writer is, once the writer has left, what it was before.
pub proof fn law_leaving_undoes_coming_in(f: CoopFields, max: nat)
    ensures
        state::step_enabled(CoopStep::ReadQueued, f, max) ==> state::step_next(
            CoopStep::ReleaseReader,
            state::step_next(CoopStep::ReadQueued, f),
        ) == f,
        state::step_enabled(CoopStep::UpgradableReadQueued, f, max) ==> state::step_next(
            CoopStep::ReleaseUpgradable,
            state::step_next(CoopStep::UpgradableReadQueued, f),
        ) == f,
        state::step_enabled(CoopStep::WriteQueued, f, max) ==> state::step_next(
            CoopStep::ReleaseWriter,
            state::step_next(CoopStep::WriteQueued, f),
        ) == f,
        state::step_enabled(CoopStep::Upgrade, f, max) ==> state::step_next(
            CoopStep::ReleaseWriter,
            state::step_next(CoopStep::Upgrade, f),
        ) == f,
{
}

/// Only the first node admits anybody: what comes behind stays as it is.
pub proof fn law_only_front_admits(q: QueueView, f: CoopFields, i: int)
    requires
        0 < i < q.nodes.len(),
    ensures
        rwcore::after_admission(q, f).nodes.len() == q.nodes.len(),
        rwcore::after_admission(q, f).nodes[i] == q.nodes[i],
{
}

/// Nobody is left waiting who could come in. Where a task in the first node
/// still waits after those have been admitted who are to be, though it has left
/// its waker, the state word that was looked at does not let it in, or it is an
/// upgradable reader behind another one in the node.
pub proof fn law_no_wake_is_lost(q: QueueView, f: CoopFields, max: nat, i: int)
    requires
        q.wf(),
        q.nodes.len() > 0,
        0 <= i < q.nodes[0].slots.len(),
        rwcore::after_admission(q, f).nodes[0].slots[i].state_ is Waiting,
        rwcore::after_admission(q, f).nodes[0].slots[i].waker_ is Some,
    ensures
        ({
            let kind = q.nodes[0].slots[i].kind_;
            ||| !state::step_enabled(rwcore::claim_step(kind), f, max)
            ||| kind is UpgradableRead && wait::upgradable_before(q.nodes[0].slots, i)
        }),
{
    let front = q.nodes[0];
    assert(front.wf());
    assert(front.slots[i].kind_.readish() == front.readish);
    match rwcore::admits_at(front, f) {
        Some(whom) => {
            assert(wait::slots_admitted(front.slots, whom)[i] == (if wait::admits(
                front.slots,
                whom,
                i,
            ) {
                wait::admitted_slot(front.slots[i])
            } else {
                front.slots[i]
            }));
        },
        None => {},
    }
}

/// Nobody is admitted in vain, as far as the state word that was looked at goes
/// and the count of readers is not full: a task that is admitted could come in,
/// an upgrade if an upgradable reader holds the lock.
pub proof fn law_admitted_could_come_in(q: QueueView, f: CoopFields, max: nat, i: int)
    requires
        q.wf(),
        q.nodes.len() > 0,
        0 <= i < q.nodes[0].slots.len(),
        rwcore::admits_at(q.nodes[0], f) is Some,
        wait::admits(q.nodes[0].slots, rwcore::admits_at(q.nodes[0], f)->0, i),
        f.readers < max,
        q.nodes[0].slots[i].kind_ is Upgrade ==> f.upgrade,
    ensures
        state::step_enabled(rwcore::claim_step(q.nodes[0].slots[i].kind_), f, max),
{
    assert(q.nodes[0].wf());
    assert(q.nodes[0].slots[i].kind_.readish() == q.nodes[0].readish);
}

/// A task is woken once: one that has been admitted is not admitted again
/// before it has left its waker anew.
pub proof fn law_admitted_once(slots: Seq<WaiterSlot>, whom: Admit, again: Admit, i: int)
    requires
        0 <= i < slots.len(),
        wait::admits(slots, whom, i),
    ensures
        !wait::admits(wait::slots_admitted(slots, whom), again, i),
{
}

/// The places of a node after those who are admitted have been, and some of the
/// tasks, admitted or not, have left a waker anew.
pub open spec fn armed_anew(
    slots: Seq<WaiterSlot>,
    whom: Admit,
    after: Seq<WaiterSlot>,
    who: Set<int>,
    wakers: Seq<Waker>,
) -> bool {
    &&& after.len() == slots.len()
    &&& wakers.len() == slots.len()
    &&& forall|i: int|
        0 <= i < slots.len() ==> if who.contains(i) {
            wait::waker_left(wait::slots_admitted(slots, whom)[i], #[trigger] after[i], wakers[i])
        } else {
            after[i] == wait::slots_admitted(slots, whom)[i]
        }
}

/// Of those admitted, just the ones that have left a waker anew can be admitted
/// again, and they are: a reader whenever readers are, and everybody when all
/// are.
pub proof fn law_armed_anew_is_admitted_again(
    slots: Seq<WaiterSlot>,
    whom: Admit,
    after: Seq<WaiterSlot>,
    who: Set<int>,
    wakers: Seq<Waker>,
    again: Admit,
    i: int,
)
    requires
        armed_anew(slots, whom, after, who, wakers),
        0 <= i < slots.len(),
        wait::admits(slots, whom, i),
    ensures
        !who.contains(i) ==> !wait::admits(after, again, i),
        who.contains(i) && (again is All || slots[i].kind_ is Read) ==> wait::admits(
            after,
            again,
            i,
        ),
        who.contains(i) && slots[i].kind_ is UpgradableRead ==> (again matches Admit::Readers(
            taken,
        ) ==> wait::admits(after, again, i) == (!taken && !wait::upgradable_before(after, i))),
{
    assert(after[i].kind_ == slots[i].kind_);
}

/// At most one upgradable reader of a node is admitted at a time, and none
/// while there is one.
pub proof fn law_one_upgradable_admitted(slots: Seq<WaiterSlot>, taken: bool, i: int, j: int)
    requires
        0 <= i < slots.len(),
        0 <= j < slots.len(),
        slots[i].kind_ is UpgradableRead,
        slots[j].kind_ is UpgradableRead,
        wait::admits(slots, Admit::Readers(taken), i),
        wait::admits(slots, Admit::Readers(taken), j),
    ensures
        i == j,
        !taken,
{
    if i < j {
        assert(slots[i].state_ is Waiting);
        assert(wait::upgradable_before(slots, j));
    }
    if j < i {
        assert(slots[j].state_ is Waiting);
        assert(wait::upgradable_before(slots, i));
    }
}

/// An upgrade comes in front of all that wait, and everybody else behind: the
/// nodes that were there keep their order.
pub proof fn law_order_of_arrival(q: QueueView, kind: WaitKind)
    requires
        q.wf(),
        q.next_id < u64::MAX,
    ensures
        kind is Upgrade ==> q.enqueued(kind).nodes[0].id == q.id_for(kind)
            && q.enqueued(kind).nodes.drop_first() =~= q.nodes,
        !(kind is Upgrade) ==> q.enqueued(kind).nodes.last().id == q.id_for(kind) && (forall|
            i: int,
        |
            0 <= i < q.nodes.len() - 1 ==> q.enqueued(kind).nodes[i] == #[trigger] q.nodes[i]),
        kind is Write && q.nodes.len() > 0 ==> q.enqueued(kind).nodes[q.nodes.len() - 1]
            == q.nodes.last(),
{
}

/// Readers that come one after the other wait together, at one place of the
/// queue.
pub proof fn law_readers_wait_together(q: QueueView, first: WaitKind, second: WaitKind)
    requires
        q.wf(),
        q.next_id < u64::MAX - 1,
        first.readish(),
        second.readish(),
    ensures
        q.enqueued(first).id_for(second) == q.id_for(first),
        q.enqueued(first).slot_for(second) == q.slot_for(first) + 1,
        q.enqueued(first).enqueued(second).nodes.len() == q.enqueued(first).nodes.len(),
{
}

/// Whether the task went through these states when it was polled so, each poll
/// with some queues before and after it, until it was done.
pub open spec fn polled_through<D: StateWord>(
    states: Seq<AcquireInner>,
    polls: Seq<Polled<D>>,
    source: cell::Source,
    waker: Waker,
) -> bool {
    &&& states.len() == polls.len() + 1
    &&& forall|i: int|
        0 <= i < polls.len() ==> states[i].live_ && states[i + 1] == states[i].after_poll(
            #[trigger] polls[i],
        ) && exists|q: QueueView, after: QueueView| #[trigger]
            states[i].poll_leads(polls[i], source, q, after, waker)
}

/// A task has one place in the queue, however often it is polled: it comes into
/// the queue at most once, and where it does it waits until it is done.
pub proof fn law_one_place_however_often_polled<D: StateWord>(
    states: Seq<AcquireInner>,
    polls: Seq<Polled<D>>,
    source: cell::Source,
    waker: Waker,
    i: int,
    j: int,
)
    requires
        polled_through(states, polls, source, waker),
        0 <= i <= j < states.len(),
        states[i].pending_ is Some,
    ensures
        states[j] == states[i] || states[j] == states[i].done(),
        i < j ==> polls[i].queued is Some && polls[i].queued->0 is Retried,
    decreases j - i,
{
    if i < j {
        let (q, after) = choose|q: QueueView, after: QueueView| #[trigger]
            states[i].poll_leads(polls[i], source, q, after, waker);
        assert(states[i].poll_leads(polls[i], source, q, after, waker));
        if states[i + 1].live_ {
            law_one_place_however_often_polled(states, polls, source, waker, i + 1, j);
        } else if i + 1 < j {
            assert(states[i + 1].after_poll(polls[i + 1]) == states[i + 2]);
        }
    }
}

/// What a poll does to the word of the lock. One by which the task comes in
/// makes of the word what its coming in does: a reader is counted once. One by
/// which it does not leaves the task a place in the queue, and none of its
/// exchanges let it in.
pub proof fn law_poll_comes_in_once_or_not_at_all<D: StateWord>(
    task: AcquireInner,
    p: Polled<D>,
    source: cell::Source,
    q: QueueView,
    after: QueueView,
    waker: Waker,
)
    requires
        task.poll_leads(p, source, q, after, waker),
    ensures
        p.ready ==> {
            let a = p.exchange()->0;
            let f = state::coop_view(a.seen());
            &&& a.swapped()
            &&& state::fields_of(
                state::number_next(a.step(), a.seen().val(), D::bits()),
                D::bits(),
            ) == state::step_next(rwcore::claim_step(task.kind_), f)
            &&& task.kind_ is Read ==> state::step_next(rwcore::claim_step(task.kind_), f) == (
            CoopFields { readers: f.readers + 1, ..f })
            &&& task.after_poll(p).pending_ is None
        },
        !p.ready ==> {
            &&& task.after_poll(p).placed(after)
            &&& task.after_poll(p).pending_ is Some
            &&& p.fast matches Some(a) ==> !a.swapped()
            &&& p.queued is Some
            &&& match p.queued->0 {
                Queued::Entered(x) => x.claim.tried matches
                    Some(a) ==> !a.swapped(),
                Queued::Retried(x) => x.claim.tried matches
                    Some(a) ==> !a.swapped(),
            }
        },
{
    D::lemma_width();
    if p.ready {
        let a = p.exchange()->0;
        a.seen().lemma_word();
        state::lemma_step(a.step(), a.seen().val(), D::bits());
    }
}

/// Where nobody waits, no writer does.
pub proof fn law_empty_queue_has_no_writer(q: QueueView)
    requires
        q.wf(),
        q.nodes.len() == 0,
    ensures
        q.writer_waiters == 0,
{
}

/// The mark that a writer waits after the exchanges of an operation: whether
/// the mark was set, and whether it was then cleared.
pub open spec fn writer_mark(before: bool, set: bool, cleared: bool) -> bool {
    !cleared && (set || before)
}

/// Deciding who is admitted changes neither the count of writers that wait nor
/// their mark.
proof fn lemma_pass_keeps_writers<D: StateWord>(p: Pass<D>, q: QueueView, after: QueueView)
    requires
        p.leads(q, after),
    ensures
        after.writer_waiters == q.writer_waiters,
{
}

/// The mark that a writer waits, if it is set just while one does, is so again
/// after a task has come into the queue.
pub proof fn law_writer_mark_after_acquire<D: StateWord>(
    a: Acquire<D>,
    q: QueueView,
    after: QueueView,
    kind: WaitKind,
    waker: Waker,
)
    requires
        q.wf(),
        q.next_id < u64::MAX,
        a.leads(q, after, kind, waker),
    ensures
        writer_mark(q.writer_waiters > 0, a.queued is Some, a.claim.finished is Some) == (
        after.writer_waiters > 0),
{
    let p = q.pruned();
    let e = p.enqueued(kind);
    queue::lemma_pruned(q);
    queue::lemma_enqueued(p, kind);
    let s = choose|s: QueueView| #[trigger]
        a.pass.leads(s, after) && a.claim.leads(
            e,
            s,
            p.id_for(kind),
            p.slot_for(kind) as int,
            waker,
        );
    lemma_pass_keeps_writers(a.pass, s, after);
    if a.claim.claimed {
        queue::lemma_settled(
            e,
            p.id_for(kind),
            p.slot_for(kind) as int,
            wait::SlotState::Acquired,
        );
    }
}

/// The same after a task in the queue has tried again.
pub proof fn law_writer_mark_after_retry<D: StateWord>(
    t: Retry<D>,
    q: QueueView,
    after: QueueView,
    id: u64,
    slot: int,
    waker: Waker,
)
    requires
        q.wf(),
        q.keeps(id, slot),
        t.leads(q, after, id, slot, waker),
    ensures
        writer_mark(q.writer_waiters > 0, false, t.claim.finished is Some) == (
        after.writer_waiters > 0),
{
    let p = q.pruned();
    queue::lemma_pruned(q);
    let s = choose|s: QueueView| #[trigger]
        t.pass.leads(s, after) && t.claim.leads(p, s, id, slot, waker);
    lemma_pass_keeps_writers(t.pass, s, after);
    if t.claim.claimed {
        queue::lemma_settled(p, id, slot, wait::SlotState::Acquired);
    }
}

/// The same after a task in the queue has given up: no reader is kept out by a
/// writer that is no longer there.
pub proof fn law_writer_mark_after_give_up<D: StateWord>(
    g: GiveUp<D>,
    q: QueueView,
    after: QueueView,
    id: u64,
    slot: int,
)
    requires
        q.wf(),
        q.keeps(id, slot),
        g.leads(q, after, id, slot),
    ensures
        writer_mark(q.writer_waiters > 0, false, g.finished is Some) == (after.writer_waiters
            > 0),
{
    queue::lemma_settled(q, id, slot, wait::SlotState::Cancelled);
    lemma_pass_keeps_writers(g.pass, q.settled(id, slot, wait::SlotState::Cancelled), after);
}

/// The mark that somebody waits is cleared just when the queue is empty, by
/// whoever decides who is admitted.
pub proof fn law_waiters_mark_after_pass<D: StateWord>(p: Pass<D>, q: QueueView, after: QueueView)
    requires
        p.leads(q, after),
    ensures
        p.cleared is Some <==> after.nodes.len() == 0,
{
}

/// A task that comes into the queue finds the mark set that somebody waits, or
/// sets it.
pub proof fn law_waiters_mark_after_acquire<D: StateWord>(
    a: Acquire<D>,
    q: QueueView,
    after: QueueView,
    kind: WaitKind,
    waker: Waker,
)
    requires
        a.leads(q, after, kind, waker),
    ensures
        state::coop_view(a.looked.seen()).waiters || a.marked is Some,
        a.pass.cleared is Some <==> after.nodes.len() == 0,
{
}

/// Whoever tried to come in without waiting has come in just where an exchange on
/// the word of the lock swapped it, by the step of what it wanted.
pub proof fn law_what_a_try_comes_to<D: StateWord>(
    source: cell::Source,
    kind: WaitKind,
    came_in: bool,
)
    requires
        rwlock::tried::<D>(source, kind, came_in),
    ensures
        exists|a: Attempt<D, CoopStep>|
            {
                &&& #[trigger] a.source() == source
                &&& a.swapped() == came_in
                &&& a.step() == (match kind {
                    WaitKind::Read => CoopStep::ReadFast,
                    WaitKind::Write => CoopStep::WriteFast,
                    WaitKind::UpgradableRead => CoopStep::UpgradableReadFast,
                    WaitKind::Upgrade => CoopStep::Upgrade,
                })
                &&& cell::attempt_holds(a, a.step())
            },
{
    let a = choose|a: Attempt<D, CoopStep>| #[trigger]
        cell::attempt_on(a, source, rwcore::fast_step(kind)) && came_in == a.swapped();
    assert(a.source() == source);
}

/// What the changes make of the word, said of its parts.
pub proof fn law_what_changes_make_of_the_word(step: CoopStep, f: CoopFields, max: nat)
    ensures
        ({
            let g = state::step_next(step, f);
            let can = state::step_enabled(step, f, max);
            match step {
                CoopStep::ReleaseReader => (can <==> f.readers > 0) && (can ==> g == (CoopFields {
                    readers: (f.readers - 1) as nat,
                    ..f
                })),
                CoopStep::ReleaseUpgradable => (can <==> f.upgrade && f.readers > 0) && (can ==> g
                    == (CoopFields { upgrade: false, readers: (f.readers - 1) as nat, ..f })),
                CoopStep::ReleaseWriter => (can <==> f.writer) && g == (CoopFields {
                    writer: false,
                    ..f
                }),
                CoopStep::WriteToRead => (can <==> f.writer) && g == (CoopFields {
                    writer: false,
                    readers: f.readers + 1,
                    ..f
                }),
                CoopStep::WriteToUpgradable => (can <==> f.writer) && g == (CoopFields {
                    writer: false,
                    upgrade: true,
                    readers: g.readers,
                    ..f
                }) && g.readers == f.readers + (if f.upgrade {
                    0int
                } else {
                    1
                }),
                CoopStep::UpgradableToRead => (can <==> f.upgrade) && g == (CoopFields {
                    upgrade: false,
                    ..f
                }),
                CoopStep::MarkWaiters => can && g == (CoopFields { waiters: true, ..f }),
                CoopStep::ClearWaiters => can && g == (CoopFields { waiters: false, ..f }),
                CoopStep::MarkWriterQueued => can && g == (CoopFields { writer_queued: true, ..f }),
                CoopStep::ClearWriterQueued => can && g == (CoopFields {
                    writer_queued: false,
                    ..f
                }),
                CoopStep::MarkBoth => can && g == (CoopFields {
                    waiters: true,
                    writer_queued: true,
                    ..f
                }),
                CoopStep::ClearBoth => can && g == (CoopFields {
                    waiters: false,
                    writer_queued: false,
                    ..f
                }),
                CoopStep::ReadFast | CoopStep::ReadQueued => g == (CoopFields {
                    readers: f.readers + 1,
                    ..f
                }),
                CoopStep::WriteFast | CoopStep::WriteQueued | CoopStep::Upgrade => g == (
                CoopFields { writer: true, ..f }),
                CoopStep::UpgradableReadFast | CoopStep::UpgradableReadQueued => g == (CoopFields {
                    upgrade: true,
                    readers: f.readers + 1,
                    ..f
                }),
            }
        }),
{
}

/// A snapshot has of a word what the queue needs to know of it.
pub proof fn law_what_a_snapshot_shows<D: StateWord>(
    s: state::CoopRwStateSnapshot<D>,
    f: CoopFields,
)
    requires
        s.shows(f),
    ensures
        f == (CoopFields {
            writer: s.writer_active,
            writer_queued: s.writer_queued,
            upgrade: s.upgrade_active,
            readers: s.reader_count.val(),
            waiters: f.waiters,
        }),
{
}

} // verus!
