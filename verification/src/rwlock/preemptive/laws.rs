//! What the spinning reader-writer lock promises its tasks.

use vstd::prelude::*;

use crate::cell;
use crate::cell::Attempt;
use crate::rwlock::preemptive::error::RwLockError;
use crate::rwlock::preemptive::rwlock;
use crate::rwlock::preemptive::rwlock::Want;
use crate::rwlock::preemptive::state;
use crate::rwlock::preemptive::state::{RwFields, RwStep};
use crate::word::StateWord;

verus! {

/// Who holds a lock.
pub struct Holders {
    /// How many readers do, upgradable ones aside.
    pub readers: nat,
    /// How many upgradable readers do.
    pub upgradables: nat,
    /// How many writers do that are nothing else.
    pub writers: nat,
    /// How many writers do that keep a place as an upgradable reader.
    pub upgraded: nat,
}

/// A lock together with those who hold it.
pub struct RwSystem {
    pub word: RwFields,
    pub by: Holders,
}

/// What can happen to a lock.
pub enum RwEvent {
    /// A reader comes in.
    Read,
    /// A reader leaves.
    ReadDrop,
    /// A writer comes in.
    Write,
    /// A writer that was not let in announces itself.
    QueueWriter,
    /// A writer leaves.
    WriteDrop,
    /// A writer leaves that keeps a place as an upgradable reader.
    UpgradedDrop,
    /// An upgradable reader comes in.
    UpgradableRead,
    /// An upgradable reader leaves.
    UpgradableDrop,
    /// A writer becomes a reader.
    WriteToRead,
    /// A writer that keeps a place as an upgradable reader becomes a reader.
    UpgradedToRead,
    /// A writer becomes an upgradable reader.
    WriteToUpgradable,
    /// An upgradable reader becomes a reader.
    UpgradableToRead,
    /// An upgradable reader becomes a writer, and keeps its place.
    Upgrade,
    /// A writer that keeps a place as an upgradable reader becomes one again.
    UpgradedToUpgradable,
}

impl RwEvent {
    /// The change of the state word.
    pub open spec fn step(self) -> RwStep {
        match self {
            RwEvent::Read => RwStep::Read,
            RwEvent::ReadDrop => RwStep::ReadDrop,
            RwEvent::Write => RwStep::Write,
            RwEvent::QueueWriter => RwStep::QueueWriter,
            RwEvent::WriteDrop => RwStep::WriteDrop,
            RwEvent::UpgradedDrop => RwStep::WriteDrop,
            RwEvent::UpgradableRead => RwStep::UpgradableRead,
            RwEvent::UpgradableDrop => RwStep::UpgradableDrop,
            RwEvent::WriteToRead => RwStep::WriteToRead,
            RwEvent::UpgradedToRead => RwStep::WriteToRead,
            RwEvent::WriteToUpgradable => RwStep::WriteToUpgradable,
            RwEvent::UpgradableToRead => RwStep::UpgradableToRead,
            RwEvent::Upgrade => RwStep::Upgrade,
            RwEvent::UpgradedToUpgradable => RwStep::WriteToUpgradable,
        }
    }
}

impl Holders {
    pub open spec fn none() -> Holders {
        Holders { readers: 0, upgradables: 0, writers: 0, upgraded: 0 }
    }

    /// Whether somebody is there whom the event can happen to. An upgradable
    /// reader that is a writer for a while is not at hand.
    pub open spec fn have(self, e: RwEvent) -> bool {
        match e {
            RwEvent::Read => true,
            RwEvent::ReadDrop => self.readers > 0,
            RwEvent::Write => true,
            RwEvent::QueueWriter => true,
            RwEvent::WriteDrop => self.writers > 0,
            RwEvent::UpgradedDrop => self.upgraded > 0,
            RwEvent::UpgradableRead => true,
            RwEvent::UpgradableDrop => self.upgradables > self.upgraded,
            RwEvent::WriteToRead => self.writers > 0,
            RwEvent::UpgradedToRead => self.upgraded > 0,
            RwEvent::WriteToUpgradable => self.writers > 0,
            RwEvent::UpgradableToRead => self.upgradables > self.upgraded,
            RwEvent::Upgrade => self.upgradables > self.upgraded,
            RwEvent::UpgradedToUpgradable => self.upgraded > 0,
        }
    }

    pub open spec fn after(self, e: RwEvent) -> Holders {
        match e {
            RwEvent::Read => Holders { readers: self.readers + 1, ..self },
            RwEvent::ReadDrop => Holders { readers: (self.readers - 1) as nat, ..self },
            RwEvent::Write => Holders { writers: self.writers + 1, ..self },
            RwEvent::QueueWriter => self,
            RwEvent::WriteDrop => Holders { writers: (self.writers - 1) as nat, ..self },
            RwEvent::UpgradedDrop => Holders { upgraded: (self.upgraded - 1) as nat, ..self },
            RwEvent::UpgradableRead => Holders { upgradables: self.upgradables + 1, ..self },
            RwEvent::UpgradableDrop => Holders {
                upgradables: (self.upgradables - 1) as nat,
                ..self
            },
            RwEvent::WriteToRead => Holders {
                writers: (self.writers - 1) as nat,
                readers: self.readers + 1,
                ..self
            },
            RwEvent::UpgradedToRead => Holders {
                upgraded: (self.upgraded - 1) as nat,
                readers: self.readers + 1,
                ..self
            },
            RwEvent::WriteToUpgradable => Holders {
                writers: (self.writers - 1) as nat,
                upgradables: self.upgradables + 1,
                ..self
            },
            RwEvent::UpgradableToRead => Holders {
                upgradables: (self.upgradables - 1) as nat,
                readers: self.readers + 1,
                ..self
            },
            RwEvent::Upgrade => Holders { upgraded: self.upgraded + 1, ..self },
            RwEvent::UpgradedToUpgradable => Holders {
                upgraded: (self.upgraded - 1) as nat,
                ..self
            },
        }
    }
}

impl RwSystem {
    /// A lock that nobody holds or waits for.
    pub open spec fn start() -> RwSystem {
        RwSystem { word: RwFields::free(), by: Holders::none() }
    }

    /// Whether an event can happen: the word admits it, and somebody is there
    /// whom it can happen to.
    pub open spec fn can(self, e: RwEvent, max: nat) -> bool {
        &&& state::step_enabled(e.step(), self.word, max)
        &&& self.by.have(e)
    }

    pub open spec fn after(self, e: RwEvent) -> RwSystem {
        RwSystem { word: state::step_next(e.step(), self.word), by: self.by.after(e) }
    }

    /// Whether all the events can happen, one after the other.
    pub open spec fn can_all(self, es: Seq<RwEvent>, max: nat) -> bool
        decreases es.len(),
    {
        es.len() > 0 ==> self.can_all(es.drop_last(), max) && self.after_all(es.drop_last()).can(
            es.last(),
            max,
        )
    }

    pub open spec fn after_all(self, es: Seq<RwEvent>) -> RwSystem
        decreases es.len(),
    {
        if es.len() == 0 {
            self
        } else {
            self.after_all(es.drop_last()).after(es.last())
        }
    }

    /// The word counts those who hold the lock, and they agree.
    pub open spec fn inv(self, max: nat) -> bool {
        let f = self.word;
        let h = self.by;
        &&& f.readers == h.readers + h.upgradables
        &&& f.readers <= max
        &&& f.upgrade <==> h.upgradables == 1
        &&& h.upgradables <= 1
        &&& f.writer <==> h.writers + h.upgraded == 1
        &&& h.writers + h.upgraded <= 1
        &&& h.upgraded <= h.upgradables
        &&& h.writers == 1 ==> h.readers == 0 && h.upgradables == 0
        &&& h.upgraded == 1 ==> h.readers == 0
    }
}

/// An event that can happen does not count into the flags of the word, and
/// keeps the word in agreement with those who hold the lock.
pub proof fn lemma_event(sys: RwSystem, e: RwEvent, max: nat)
    requires
        2 <= max,
        sys.inv(max),
        sys.can(e, max),
    ensures
        !state::carries(e.step(), sys.word, max),
        sys.after(e).inv(max),
{
}

/// Whatever happens to a fresh lock, its word is in agreement with those who
/// hold it: the count of the word is that of the readers, the upgradable reader
/// among them, also while that one is a writer.
pub proof fn law_word_counts_holders(es: Seq<RwEvent>, max: nat)
    requires
        2 <= max,
        RwSystem::start().can_all(es, max),
    ensures
        RwSystem::start().after_all(es).inv(max),
    decreases es.len(),
{
    if es.len() > 0 {
        law_word_counts_holders(es.drop_last(), max);
        lemma_event(RwSystem::start().after_all(es.drop_last()), es.last(), max);
    }
}

/// The number of the word after exchanges that all swapped it, one after the
/// other, on a fresh lock.
pub open spec fn word_after<D: StateWord>(h: Seq<Attempt<D, RwStep>>) -> nat {
    if h.len() == 0 {
        0
    } else {
        state::number_next(h.last().step(), h.last().seen().val(), D::bits())
    }
}

/// Whether these exchanges, each by the step of its event, can have been made
/// on a fresh lock: each swapped the word that the one before it left behind,
/// and was made by somebody whom the event can happen to.
pub open spec fn history<D: StateWord>(es: Seq<RwEvent>, h: Seq<Attempt<D, RwStep>>) -> bool
    decreases es.len(),
{
    &&& es.len() == h.len()
    &&& es.len() > 0 ==> {
        &&& history(es.drop_last(), h.drop_last())
        &&& cell::attempt_holds(h.last(), es.last().step())
        &&& h.last().swapped()
        &&& h.last().seen().val() == word_after(h.drop_last())
        &&& RwSystem::start().after_all(es.drop_last()).by.have(es.last())
    }
}

/// Whatever exchanges the functions of a lock have made on its word, in
/// whatever order, the word is in agreement with those who hold the lock. That
/// an exchange swapped the word is all that it takes.
pub proof fn law_exchanges_keep_agreement<D: StateWord>(
    es: Seq<RwEvent>,
    h: Seq<Attempt<D, RwStep>>,
)
    requires
        history(es, h),
    ensures
        RwSystem::start().can_all(es, state::max_readers(D::bits())),
        RwSystem::start().after_all(es).inv(state::max_readers(D::bits())),
        word_after(h) < vstd::arithmetic::power2::pow2(D::bits()),
        state::fields_of(word_after(h), D::bits()) == RwSystem::start().after_all(es).word,
    decreases es.len(),
{
    let bits = D::bits();
    let max = state::max_readers(bits);
    D::lemma_width();
    vstd::arithmetic::power2::lemma_pow2_pos(bits);
    state::lemma_fields(0, bits);
    if es.len() == 0 {
        state::lemma_word_of(RwFields::free(), bits);
        vstd::arithmetic::mul::lemma_mul_basics(
            vstd::arithmetic::power2::pow2(state::flags_at(bits)) as int,
        );
    } else {
        let a = h.last();
        let sys = RwSystem::start().after_all(es.drop_last());
        law_exchanges_keep_agreement(es.drop_last(), h.drop_last());
        a.seen().lemma_word();
        lemma_event(sys, es.last(), max);
        state::lemma_step(es.last().step(), a.seen().val(), bits);
    }
}

/// A try comes in just where the word that decided it admits that: with these
/// parts of the word, a reader where no writer holds the lock or is announced,
/// a writer where nobody holds the lock, an upgradable reader where there is
/// none besides, and an upgrade where its own is the only place.
pub proof fn law_try_goes_by_the_word<D: StateWord>(t: rwlock::EntryTry<D>, want: Want)
    requires
        t.holds(want),
    ensures
        ({
            let f = state::rw_view(t.by.seen());
            let max = state::max_readers(D::bits());
            &&& want is Read ==> t.by.swapped() == (!f.writer && !f.queued && f.readers < max)
            &&& want is Write ==> t.by.swapped() == (!f.writer && f.readers == 0)
            &&& want is UpgradableRead ==> t.by.swapped() == (!f.writer && !f.queued && !f.upgrade
                && f.readers < max)
            &&& want is Upgrade ==> t.by.swapped() == (f.upgrade && f.readers == 1)
        }),
{
}

/// Steps are told apart by their names, and each has one.
pub proof fn law_names_tell_steps_apart(a: RwStep, b: RwStep)
    ensures
        state::step_name(a) == state::step_name(b) ==> a == b,
        state::step_name(a) != cell::no_step(),
{
}

/// A task that tries to come in, in whichever way and however often, takes
/// nobody's place away: none of the steps that it may take counts a reader less,
/// or clears the flag of a writer or of an upgradable reader.
pub proof fn law_tries_take_nobodys_place(want: Want, step: RwStep, f: RwFields, max: nat)
    requires
        state::step_name(step) == state::step_name(want.step()) || state::step_name(step)
            == state::step_name(want.queue_step()),
        state::step_enabled(step, f, max),
    ensures
        state::step_next(step, f).readers >= f.readers,
        f.writer ==> state::step_next(step, f).writer,
        f.upgrade ==> state::step_next(step, f).upgrade,
        f.queued ==> state::step_next(step, f).queued,
{
}

/// An upgrade that does not succeed changes nothing in the word: the only step
/// that it may take is refused wherever another reader is there or the place of
/// the upgradable reader is not, and one that is not refused leaves the place
/// and the count as they are.
pub proof fn law_refused_upgrade_changes_nothing(step: RwStep, f: RwFields, max: nat)
    requires
        state::step_name(step) == state::step_name(RwStep::Upgrade),
    ensures
        f.readers != 1 || !f.upgrade ==> !state::step_enabled(step, f, max),
        state::step_enabled(step, f, max) ==> state::step_next(step, f) == (RwFields {
            writer: true,
            ..f
        }),
{
}

/// A writer holds the lock alone: no other writer and no reader holds it at the
/// same time, but for the place as an upgradable reader that the writer itself
/// keeps. There is at most one upgradable reader.
pub proof fn law_writer_excludes_others(es: Seq<RwEvent>, max: nat)
    requires
        2 <= max,
        RwSystem::start().can_all(es, max),
    ensures
        ({
            let h = RwSystem::start().after_all(es).by;
            &&& h.writers + h.upgraded <= 1
            &&& h.writers == 1 ==> h.readers == 0 && h.upgradables == 0
            &&& h.upgraded == 1 ==> h.readers == 0 && h.upgradables == 1
            &&& h.upgradables <= 1
        }),
{
    law_word_counts_holders(es, max);
}

/// Whoever holds the lock can leave, and can downgrade: the word admits it.
pub proof fn law_holders_can_leave(es: Seq<RwEvent>, max: nat, e: RwEvent)
    requires
        2 <= max,
        RwSystem::start().can_all(es, max),
        RwSystem::start().after_all(es).by.have(e),
        e is ReadDrop || e is WriteDrop || e is UpgradedDrop || e is UpgradableDrop
            || e is WriteToRead || e is UpgradedToRead || e is WriteToUpgradable
            || e is UpgradableToRead || e is UpgradedToUpgradable,
    ensures
        RwSystem::start().after_all(es).can(e, max),
{
    law_word_counts_holders(es, max);
}

/// The only reader, if it is upgradable, can become a writer.
pub proof fn law_only_reader_can_upgrade(es: Seq<RwEvent>, max: nat)
    requires
        2 <= max,
        RwSystem::start().can_all(es, max),
        RwSystem::start().after_all(es).by.upgradables == 1,
        RwSystem::start().after_all(es).by.upgraded == 0,
    ensures
        RwSystem::start().after_all(es).can(RwEvent::Upgrade, max) <==> RwSystem::start().after_all(
            es,
        ).by.readers == 0,
{
    law_word_counts_holders(es, max);
}

/// Once a writer has announced itself, no reader and no upgradable reader comes
/// in before a writer has left.
pub proof fn law_queued_writer_keeps_readers_out(sys: RwSystem, es: Seq<RwEvent>, max: nat)
    requires
        sys.word.queued,
        forall|i: int|
            0 <= i < es.len() ==> !(#[trigger] es[i] is WriteDrop) && !(es[i] is UpgradedDrop),
    ensures
        sys.after_all(es).word.queued,
        !sys.after_all(es).can(RwEvent::Read, max),
        !sys.after_all(es).can(RwEvent::UpgradableRead, max),
    decreases es.len(),
{
    if es.len() > 0 {
        law_queued_writer_keeps_readers_out(sys, es.drop_last(), max);
        assert(!(es[es.len() - 1] is WriteDrop));
    }
}

/// An upgradable reader, whether or not it waits to become a writer, does not
/// keep readers out.
pub proof fn law_upgradable_lets_readers_in(word: RwFields, max: nat)
    ensures
        state::step_enabled(RwStep::Read, word, max) == state::step_enabled(
            RwStep::Read,
            RwFields { upgrade: !word.upgrade, ..word },
            max,
        ),
{
}

/// An upgradable reader that becomes a writer, and is downgraded to an upgradable
/// reader again, has one place all the while: the word is what it was before the
/// upgrade, and giving the place back once leaves the word as it was at first.
pub proof fn law_upgrade_and_back_keep_one_place(word: RwFields, max: nat)
    requires
        state::step_enabled(RwStep::UpgradableRead, word, max),
    ensures
        ({
            let held = state::step_next(RwStep::UpgradableRead, word);
            let upgraded = state::step_next(RwStep::Upgrade, held);
            let back = state::step_next(RwStep::WriteToUpgradable, upgraded);
            &&& upgraded.readers == held.readers && upgraded.upgrade
            &&& back == held
            &&& state::step_next(RwStep::UpgradableDrop, back) == word
        }),
{
}

/// Coming in and leaving again leaves the word as it was; a writer also takes
/// the announcement of a waiting writer with it.
pub proof fn law_leaving_undoes_coming_in(word: RwFields, max: nat)
    ensures
        state::step_enabled(RwStep::Read, word, max) ==> state::step_next(
            RwStep::ReadDrop,
            state::step_next(RwStep::Read, word),
        ) == word,
        state::step_enabled(RwStep::UpgradableRead, word, max) ==> state::step_next(
            RwStep::UpgradableDrop,
            state::step_next(RwStep::UpgradableRead, word),
        ) == word,
        state::step_enabled(RwStep::Write, word, max) ==> state::step_next(
            RwStep::WriteDrop,
            state::step_next(RwStep::Write, word),
        ) == (RwFields { queued: false, ..word }),
        state::step_enabled(RwStep::Upgrade, word, max) && !word.writer ==> state::step_next(
            RwStep::WriteDrop,
            state::step_next(RwStep::Upgrade, word),
        ) == (RwFields { queued: false, ..word }),
{
}

/// Whoever tried to come in has come in just where an exchange on the word of the
/// lock swapped it, by the step of what it wanted.
pub proof fn law_what_a_try_comes_to<D: StateWord>(source: cell::Source, want: Want, came_in: bool)
    requires
        rwlock::tried::<D>(source, want, came_in),
    ensures
        exists|a: Attempt<D, RwStep>|
            {
                &&& #[trigger] a.source() == source
                &&& a.swapped() == came_in
                &&& a.step() == (match want {
                    Want::Read => RwStep::Read,
                    Want::Write => RwStep::Write,
                    Want::UpgradableRead => RwStep::UpgradableRead,
                    Want::Upgrade => RwStep::Upgrade,
                })
                &&& cell::attempt_holds(a, a.step())
            },
        want is Write && !came_in ==> exists|a: Attempt<D, RwStep>|
            {
                &&& #[trigger] a.source() == source
                &&& a.step() is QueueWriter
                &&& a.swapped() == !state::rw_view(a.seen()).queued
            },
{
    let t = choose|t: rwlock::EntryTry<D>| #[trigger]
        t.holds(want) && t.on(source) && came_in == t.by.swapped();
    assert(t.by.source() == source);
    if want is Write && !came_in {
        assert(t.queue->0.source() == source);
    }
}

/// Whoever waited to come in, and had turns to take, has tried before its token
/// was asked: it has come in by an exchange that swapped the word, or at least
/// one was refused. A token that never cancels cancels nobody, and one that is
/// cancelled lets a task try once.
pub proof fn law_what_a_wait_comes_to<D: StateWord>(
    source: cell::Source,
    want: Want,
    verdict: Option<bool>,
    turns: usize,
    out: Result<(), RwLockError>,
)
    requires
        rwlock::waited::<D>(source, want, verdict, turns, out),
    ensures
        out is Ok ==> turns > 0 && rwlock::tried::<D>(source, want, true),
        out is Err && turns > 0 ==> rwlock::tried::<D>(source, want, false),
        out == Err::<(), RwLockError>(RwLockError::Cancelled) ==> turns > 0
            && verdict != Some(false),
        out == Err::<(), RwLockError>(RwLockError::Retry) ==> turns == 0
            || verdict != Some(true),
        out != Err::<(), RwLockError>(RwLockError::Poisoned),
        turns == 0 ==> out == Err::<(), RwLockError>(RwLockError::Retry),
{
    let tries = choose|tries: Seq<rwlock::EntryTry<D>>| #[trigger]
        rwlock::refused(source, want, tries) && match out {
            Ok(_) => {
                &&& tries.len() < turns
                &&& tries.len() > 0 ==> verdict != Some(true)
                &&& rwlock::tried::<D>(source, want, true)
            },
            Err(RwLockError::Cancelled) => {
                &&& 0 < tries.len() <= turns
                &&& verdict != Some(false)
                &&& tries.len() > 1 ==> verdict != Some(true)
            },
            Err(RwLockError::Retry) => tries.len() == turns && (turns > 0 ==> verdict
                != Some(true)),
            Err(RwLockError::Poisoned) => false,
        };
    if out is Err && turns > 0 {
        assert(tries[0].holds(want));
    }
}

/// What the changes make of the word, said of its parts.
pub proof fn law_what_changes_make_of_the_word(step: RwStep, f: RwFields, max: nat)
    ensures
        ({
            let g = state::step_next(step, f);
            let can = state::step_enabled(step, f, max);
            match step {
                RwStep::ReadDrop => (can <==> f.readers > 0) && (can ==> g == (RwFields {
                    readers: (f.readers - 1) as nat,
                    ..f
                })),
                RwStep::QueueWriter => (can <==> !f.queued) && g == (RwFields { queued: true, ..f }),
                RwStep::WriteDrop => (can <==> f.writer) && g == (RwFields {
                    writer: false,
                    queued: false,
                    ..f
                }),
                RwStep::UpgradableDrop => (can <==> f.upgrade) && (f.readers > 0 ==> g == (RwFields {
                    upgrade: false,
                    readers: (f.readers - 1) as nat,
                    ..f
                })),
                RwStep::WriteToRead => (can <==> f.writer) && g == (RwFields {
                    writer: false,
                    readers: f.readers + 1,
                    ..f
                }),
                RwStep::WriteToUpgradable => (can <==> f.writer) && !g.writer && g.upgrade
                    && g.queued == f.queued && g.readers == f.readers + (if f.upgrade {
                    0int
                } else {
                    1
                }),
                RwStep::UpgradableToRead => (can <==> f.upgrade && !f.writer && f.readers > 0) && g
                    == (RwFields { upgrade: false, ..f }),
                RwStep::Read => g == (RwFields { readers: f.readers + 1, ..f }),
                RwStep::Write => g == (RwFields { writer: true, ..f }),
                RwStep::UpgradableRead => g == (RwFields {
                    upgrade: true,
                    readers: f.readers + 1,
                    ..f
                }),
                RwStep::Upgrade => g == (RwFields { writer: true, ..f }),
            }
        }),
{
}

} // verus!
