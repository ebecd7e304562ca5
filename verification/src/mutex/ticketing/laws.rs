//! What the ticket lock promises its tasks.
//!
//! A task that gives up its number turns on the report flag. Whoever then sees
//! no other task move up, for a few looks, turns the flag off. Whether it looked
//! often enough is a matter of time, and so the lock is at risk in four ways. The
//! number of a task that has not noticed the flag may be drawn again. A number
//! may be skipped that somebody has moved up to. A task that is about to move
//! up, but finds that it need not, goes on with the number in the word, which
//! another may have or come to have. And a task that has given up a number, but
//! whose token then no longer says so, goes on with that number.
//!
//! The laws here leave out just the events by which a task comes by a number
//! that another has, or that is no number, or by which one is skipped that
//! another has.

use vstd::prelude::*;

use crate::cell;
use crate::cell::{Attempt, Step, Trial};
use crate::mutex::ticketing::state;
use crate::mutex::ticketing::state::{TicketFields, TicketMove, TicketStep};
use crate::word::StateWord;

verus! {

/// A lock together with the tasks that have a number, and their numbers.
pub struct TicketSystem {
    pub word: TicketFields,
    pub tasks: Map<int, nat>,
}

/// What can happen to a lock.
pub enum TicketEvent {
    /// A task draws a number.
    Draw(int),
    /// The first number is served.
    ServeFirst,
    /// A task that holds the lock gives it back.
    Release(int),
    /// A task gives up its number.
    GiveUp(int),
    /// A task moves up to the number given up, and gives up its own.
    MoveUp(int),
    /// The report flag is turned off.
    TurnOff,
    /// The report flag is turned off, and this number, which was given up, is
    /// skipped if it is served.
    TurnOffAndSkip(nat),
    /// The report flag is turned off by a task that has moved up and leaves. Its
    /// number is skipped if it is served.
    LeaveAndSkip(int),
    /// A task that is about to move up, but finds that it need not, goes on with
    /// this number, which it found.
    GoOn(int, nat),
    /// A task that has given up this number goes on with it.
    Resume(int, nat),
}

impl TicketEvent {
    /// Whether no task gives up a number by the event.
    pub open spec fn calm(self) -> bool {
        self is Draw || self is ServeFirst || self is Release
    }

    /// Whether no task goes on with a number that it found or had given up.
    pub open spec fn steady(self) -> bool {
        !(self is GoOn) && !(self is Resume)
    }

    /// The task whose number the event is about.
    pub open spec fn task(self) -> Option<int> {
        match self {
            TicketEvent::Draw(a) => Some(a),
            TicketEvent::Release(a) => Some(a),
            TicketEvent::GiveUp(a) => Some(a),
            TicketEvent::MoveUp(a) => Some(a),
            TicketEvent::LeaveAndSkip(a) => Some(a),
            TicketEvent::GoOn(a, _) => Some(a),
            TicketEvent::Resume(a, _) => Some(a),
            TicketEvent::ServeFirst => None,
            TicketEvent::TurnOff => None,
            TicketEvent::TurnOffAndSkip(_) => None,
        }
    }

    /// Whether the report flag is turned off by the event.
    pub open spec fn turns_off(self) -> bool {
        self is TurnOff || self is TurnOffAndSkip || self is LeaveAndSkip
    }
}

impl TicketSystem {
    /// A lock that nobody has drawn a number of.
    pub open spec fn start(poison: bool) -> TicketSystem {
        TicketSystem {
            word: TicketFields { poison, ..TicketFields::free() },
            tasks: Map::empty(),
        }
    }

    /// Whether the task has a number.
    pub open spec fn has(self, a: int) -> bool {
        self.tasks.dom().contains(a)
    }

    /// Whether the task holds the lock: its number is served.
    pub open spec fn holds(self, a: int) -> bool {
        self.has(a) && self.tasks[a] == self.word.service
    }

    /// The change of the state word, if there is any.
    pub open spec fn mv(self, e: TicketEvent) -> Option<TicketMove> {
        match e {
            TicketEvent::Draw(_) => Some(TicketMove::GetTicket),
            TicketEvent::ServeFirst => Some(TicketMove::ServeFirst),
            TicketEvent::Release(a) => Some(TicketMove::Release(self.tasks[a])),
            TicketEvent::GiveUp(a) => Some(TicketMove::GiveUp(self.tasks[a])),
            TicketEvent::MoveUp(a) => Some(TicketMove::MoveUp(self.tasks[a])),
            TicketEvent::TurnOff => Some(TicketMove::ReportOff),
            TicketEvent::TurnOffAndSkip(m) => Some(TicketMove::SkipReportOff(m)),
            TicketEvent::LeaveAndSkip(a) => Some(TicketMove::SkipReportOff(self.tasks[a])),
            TicketEvent::GoOn(_, _) => None,
            TicketEvent::Resume(_, _) => None,
        }
    }

    /// Whether the event can happen: the state word admits the change, and the
    /// tasks are as it takes.
    pub open spec fn can(self, e: TicketEvent, max: nat) -> bool {
        &&& self.mv(e) matches Some(mv) ==> state::move_enabled(mv, self.word, max)
        &&& self.able(e, max)
    }

    /// Whether the tasks are as the event takes: the task has a number or, if it
    /// is to come by its first one, has none; no task comes by a number that
    /// another has, or that cannot be drawn; and none is skipped that another
    /// has.
    pub open spec fn able(self, e: TicketEvent, max: nat) -> bool {
        match e {
            TicketEvent::Draw(a) => !self.has(a) && !self.is_out(self.word.ticket + 1),
            TicketEvent::Release(a) => self.has(a),
            TicketEvent::GiveUp(a) => self.has(a),
            TicketEvent::MoveUp(a) => self.has(a) && !self.is_out(self.word.ticket),
            TicketEvent::ServeFirst => true,
            TicketEvent::TurnOff => true,
            TicketEvent::TurnOffAndSkip(m) => !self.is_out(m),
            TicketEvent::LeaveAndSkip(a) => self.has(a),
            TicketEvent::GoOn(a, n) => self.has(a) && 1 <= n <= max && (self.is_out(n)
                ==> self.tasks[a] == n),
            TicketEvent::Resume(a, n) => !self.has(a) && 1 <= n <= max && !self.is_out(n),
        }
    }

    /// Whether nobody has a number behind the one last given up.
    pub open spec fn all_moved_up(self) -> bool {
        forall|a: int| #[trigger] self.has(a) ==> self.tasks[a] <= self.word.ticket
    }

    pub open spec fn after(self, e: TicketEvent, max: nat) -> TicketSystem {
        TicketSystem {
            word: match self.mv(e) {
                Some(mv) => state::move_next(mv, self.word, max),
                None => self.word,
            },
            tasks: match e {
                TicketEvent::Draw(a) => self.tasks.insert(a, self.word.ticket + 1),
                TicketEvent::Release(a) => self.tasks.remove(a),
                TicketEvent::GiveUp(a) => self.tasks.remove(a),
                TicketEvent::LeaveAndSkip(a) => self.tasks.remove(a),
                TicketEvent::MoveUp(a) => self.tasks.insert(a, self.word.ticket),
                TicketEvent::GoOn(a, n) => self.tasks.insert(a, n),
                TicketEvent::Resume(a, n) => self.tasks.insert(a, n),
                _ => self.tasks,
            },
        }
    }

    /// Whether all the events can happen, one after the other.
    pub open spec fn can_all(self, es: Seq<TicketEvent>, max: nat) -> bool
        decreases es.len(),
    {
        es.len() > 0 ==> self.can_all(es.drop_last(), max) && self.after_all(
            es.drop_last(),
            max,
        ).can(es.last(), max)
    }

    pub open spec fn after_all(self, es: Seq<TicketEvent>, max: nat) -> TicketSystem
        decreases es.len(),
    {
        if es.len() == 0 {
            self
        } else {
            self.after_all(es.drop_last(), max).after(es.last(), max)
        }
    }

    /// No two tasks have the same number.
    pub open spec fn inv(self, max: nat) -> bool {
        &&& forall|a: int, b: int|
            #![trigger self.tasks[a], self.tasks[b]]
            self.has(a) && self.has(b) && a != b ==> self.tasks[a] != self.tasks[b]
        &&& forall|a: int| #[trigger] self.has(a) ==> 1 <= self.tasks[a] <= max
        &&& self.word.report ==> 1 <= self.word.ticket
        &&& self.word.fits(max)
    }

    /// No number has been passed by; and the number where the last one drawn is
    /// noted is, while one is given up, nobody's.
    pub open spec fn steady_inv(self) -> bool {
        &&& forall|a: int| #[trigger] self.has(a) ==> self.word.service <= self.tasks[a]
        &&& self.word.report ==> self.word.service <= self.word.ticket
        &&& self.word.report ==> (forall|a: int| #[trigger]
            self.has(a) ==> self.tasks[a] != self.word.ticket)
    }

    /// The numbers out are just those from the one served up to the last one
    /// drawn.
    pub open spec fn calm_inv(self) -> bool {
        &&& !self.word.report
        &&& self.word.service <= self.word.ticket
        &&& forall|n: nat| #[trigger]
            self.is_out(n) <==> 1 <= n && self.word.service <= n <= self.word.ticket
    }

    /// Whether some task has the number.
    pub open spec fn is_out(self, n: nat) -> bool {
        exists|a: int| self.has(a) && #[trigger] self.tasks[a] == n
    }
}

/// An event that can happen keeps the numbers apart.
proof fn lemma_event(sys: TicketSystem, e: TicketEvent, max: nat)
    requires
        1 <= max,
        sys.inv(max),
        sys.can(e, max),
    ensures
        sys.after(e, max).inv(max),
{
    let after = sys.after(e, max);
    assert forall|a: int| #[trigger] after.has(a) implies 1 <= after.tasks[a] <= max by {
        if sys.has(a) {
            assert(1 <= sys.tasks[a] <= max);
        }
    }
    assert forall|a: int, b: int|
        #![trigger after.tasks[a], after.tasks[b]]
        after.has(a) && after.has(b) && a != b implies after.tasks[a] != after.tasks[b] by {
        match e.task() {
            Some(x) => {
                if a != x {
                    assert(sys.has(a));
                    assert(after.tasks[a] == sys.tasks[a]);
                    assert(sys.is_out(sys.tasks[a]));
                }
                if b != x {
                    assert(sys.has(b));
                    assert(after.tasks[b] == sys.tasks[b]);
                    assert(sys.is_out(sys.tasks[b]));
                }
                if sys.has(a) && sys.has(b) {
                    assert(sys.tasks[a] != sys.tasks[b]);
                }
            },
            None => {
                assert(sys.tasks[a] != sys.tasks[b]);
            },
        }
    }
    if e is GiveUp {
        assert(sys.has(e->GiveUp_0));
    }
    if e is MoveUp {
        assert(sys.has(e->MoveUp_0));
    }
    if e is LeaveAndSkip {
        assert(sys.has(e->LeaveAndSkip_0));
    }
}

/// As long as no task goes on with a number that it found or had given up, no
/// number is passed by.
proof fn lemma_steady_event(sys: TicketSystem, e: TicketEvent, max: nat)
    requires
        1 <= max,
        sys.inv(max),
        sys.steady_inv(),
        sys.can(e, max),
        e.steady(),
    ensures
        sys.after(e, max).steady_inv(),
{
    let after = sys.after(e, max);
    assert forall|a: int| #[trigger] after.has(a) implies after.word.service
        <= after.tasks[a] by {
        if sys.has(a) {
            assert(1 <= sys.tasks[a] <= max);
            match e {
                TicketEvent::Release(x) => {
                    assert(a != x && sys.has(x));
                    assert(sys.tasks[a] != sys.tasks[x]);
                },
                TicketEvent::LeaveAndSkip(x) => {
                    assert(a != x && sys.has(x));
                    assert(sys.tasks[a] != sys.tasks[x]);
                },
                TicketEvent::TurnOffAndSkip(m) => {
                    if sys.tasks[a] == m {
                        assert(sys.is_out(m));
                    }
                },
                _ => {},
            }
        }
    }
    if after.word.report {
        assert forall|a: int| #[trigger] after.has(a) implies after.tasks[a]
            != after.word.ticket by {
            match e {
                TicketEvent::GiveUp(x) => {
                    assert(sys.tasks[a] != sys.tasks[x]);
                },
                TicketEvent::MoveUp(x) => {
                    if a != x {
                        assert(sys.tasks[a] != sys.tasks[x]);
                    }
                },
                _ => {
                    assert(sys.has(a));
                },
            }
        }
    }
}

/// No two tasks ever have the same number.
pub proof fn law_numbers_are_apart(poison: bool, es: Seq<TicketEvent>, max: nat)
    requires
        1 <= max,
        TicketSystem::start(poison).can_all(es, max),
    ensures
        TicketSystem::start(poison).after_all(es, max).inv(max),
    decreases es.len(),
{
    if es.len() > 0 {
        law_numbers_are_apart(poison, es.drop_last(), max);
        lemma_event(
            TicketSystem::start(poison).after_all(es.drop_last(), max),
            es.last(),
            max,
        );
    }
}

/// Whether no task goes on, by any of the events, with a number that it found or
/// had given up.
pub open spec fn all_steady(es: Seq<TicketEvent>) -> bool {
    forall|i: int| 0 <= i < es.len() ==> (#[trigger] es[i]).steady()
}

/// As long as no task goes on with a number that it found or had given up, no
/// number is passed by, and the number that a task moves up to is nobody's.
pub proof fn law_no_number_is_passed_by(poison: bool, es: Seq<TicketEvent>, max: nat)
    requires
        1 <= max,
        TicketSystem::start(poison).can_all(es, max),
        all_steady(es),
    ensures
        TicketSystem::start(poison).after_all(es, max).steady_inv(),
        ({
            let sys = TicketSystem::start(poison).after_all(es, max);
            sys.word.report ==> !sys.is_out(sys.word.ticket)
        }),
    decreases es.len(),
{
    let sys = TicketSystem::start(poison).after_all(es, max);
    if es.len() > 0 {
        let before = TicketSystem::start(poison).after_all(es.drop_last(), max);
        law_no_number_is_passed_by(poison, es.drop_last(), max);
        law_numbers_are_apart(poison, es.drop_last(), max);
        assert(es[es.len() - 1].steady());
        lemma_steady_event(before, es.last(), max);
    }
    if sys.word.report && sys.is_out(sys.word.ticket) {
        let a = choose|a: int| sys.has(a) && #[trigger] sys.tasks[a] == sys.word.ticket;
        assert(sys.has(a));
    }
}

/// The record of an exchange on the word of a lock.
pub ghost enum TicketRecord<D> {
    Decided(Attempt<D, TicketStep<D>>),
    Once(Trial<D, TicketStep<D>>),
    /// There was no exchange, or none that swapped the word.
    Idle,
}

impl<D: StateWord> TicketRecord<D> {
    /// Whether the exchange swapped the word with this number, by this change.
    pub open spec fn swapped(self, word: nat, mv: TicketMove) -> bool {
        match self {
            TicketRecord::Decided(a) => {
                &&& cell::attempt_holds(a, a.step()) && a.swapped()
                &&& a.seen().val() == word
                &&& a.step().mv() == mv
            },
            TicketRecord::Once(t) => {
                &&& cell::trial_holds(t, t.guess(), t.step()) && t.end() is Succ
                &&& t.seen().val() == word
                &&& t.step().mv() == mv
            },
            TicketRecord::Idle => false,
        }
    }
}

/// The number of the word after exchanges that all swapped it, one after the
/// other, on a fresh lock.
pub open spec fn word_after<D: StateWord>(h: Seq<TicketRecord<D>>) -> nat
    decreases h.len(),
{
    if h.len() == 0 {
        0
    } else {
        match h.last() {
            TicketRecord::Decided(a) => a.step().next(a.seen().val()),
            TicketRecord::Once(t) => t.step().next(t.seen().val()),
            TicketRecord::Idle => word_after(h.drop_last()),
        }
    }
}

/// Whether these exchanges, each by the change of its event, can have been made
/// on a fresh lock: each swapped the word that the one before it left behind,
/// and the tasks were as it takes.
pub open spec fn history<D: StateWord>(es: Seq<TicketEvent>, h: Seq<TicketRecord<D>>) -> bool
    decreases es.len(),
{
    let max = state::half_max(D::bits());
    let sys = TicketSystem::start(false).after_all(es.drop_last(), max);
    &&& es.len() == h.len()
    &&& es.len() > 0 ==> {
        &&& history(es.drop_last(), h.drop_last())
        &&& match sys.mv(es.last()) {
            Some(mv) => h.last().swapped(word_after(h.drop_last()), mv),
            None => h.last() is Idle,
        }
        &&& sys.able(es.last(), max)
    }
}

/// Whatever exchanges the functions of a lock have made on its word, in
/// whatever order and with whatever tokens, the word is in agreement with the
/// numbers that the tasks have, unless one came by a number or skipped one that
/// another has.
pub proof fn law_exchanges_keep_agreement<D: StateWord>(
    es: Seq<TicketEvent>,
    h: Seq<TicketRecord<D>>,
)
    requires
        history(es, h),
    ensures
        TicketSystem::start(false).can_all(es, state::half_max(D::bits())),
        TicketSystem::start(false).after_all(es, state::half_max(D::bits())).inv(
            state::half_max(D::bits()),
        ),
        word_after(h) < vstd::arithmetic::power2::pow2(D::bits()),
        state::fields_of(word_after(h), D::bits()) == TicketSystem::start(false).after_all(
            es,
            state::half_max(D::bits()),
        ).word,
    decreases es.len(),
{
    let bits = D::bits();
    let max = state::half_max(bits);
    D::lemma_width();
    state::lemma_half(bits);
    vstd::arithmetic::power2::lemma_pow2_pos(bits);
    if es.len() == 0 {
        state::lemma_word_of(TicketFields::free(), bits);
        let h = state::half(bits);
        vstd::arithmetic::mul::lemma_mul_basics(
            vstd::arithmetic::power2::pow2(h + h) as int,
        );
        vstd::arithmetic::mul::lemma_mul_basics(vstd::arithmetic::power2::pow2(h) as int);
    } else {
        let e = es.last();
        let sys = TicketSystem::start(false).after_all(es.drop_last(), max);
        law_exchanges_keep_agreement(es.drop_last(), h.drop_last());
        match h.last() {
            TicketRecord::Decided(a) => {
                assert(a.step().enabled(a.seen().val()));
            },
            TicketRecord::Once(t) => {
                assert(t.step().enabled(t.seen().val()));
            },
            TicketRecord::Idle => {},
        }
        assert(sys.can(e, max));
        lemma_event(sys, e, max);
        state::lemma_word_of(sys.after(e, max).word, bits);
    }
}

/// At most one task holds the lock at any time, whatever exchanges the functions
/// of the lock have made, also for tasks that were cancelled.
pub proof fn law_exchanges_exclude<D: StateWord>(
    es: Seq<TicketEvent>,
    h: Seq<TicketRecord<D>>,
    a: int,
    b: int,
)
    requires
        history(es, h),
        TicketSystem::start(false).after_all(es, state::half_max(D::bits())).holds(a),
        TicketSystem::start(false).after_all(es, state::half_max(D::bits())).holds(b),
    ensures
        a == b,
        state::fields_of(word_after(h), D::bits()) != TicketFields::free(),
{
    D::lemma_width();
    state::lemma_half(D::bits());
    law_exchanges_keep_agreement(es, h);
    law_mutual_exclusion(false, es, state::half_max(D::bits()), a, b);
}

/// While a task holds the lock, the word is that of an acquired lock: whoever
/// only tries to acquire the lock is refused.
pub proof fn law_held_lock_is_acquired(poison: bool, es: Seq<TicketEvent>, max: nat, a: int)
    requires
        1 <= max,
        TicketSystem::start(poison).can_all(es, max),
        TicketSystem::start(poison).after_all(es, max).holds(a),
    ensures
        TicketSystem::start(poison).after_all(es, max).word != TicketFields::free(),
{
    law_numbers_are_apart(poison, es, max);
}

/// No number is drawn while the report flag is on.
pub proof fn law_no_draw_while_reporting<D: StateWord>(t: Trial<D, TicketStep<D>>, guess: D)
    requires
        cell::trial_holds(t, guess, TicketStep::GetTicket),
        state::ticket_view(guess).report,
    ensures
        t.end() is Unexpected,
{
}

/// What giving the lock back does to the word. The next number is served; where
/// none is out and the report flag is off, the numbers start anew; and the task
/// with the largest number leaves a word of zero behind.
pub proof fn law_release_changes_the_word<D: StateWord>(a: Attempt<D, TicketStep<D>>, ticket: D)
    requires
        cell::attempt_holds(a, TicketStep::Release(ticket)),
    ensures
        ({
            let f = state::ticket_view(a.seen());
            let max = state::half_max(D::bits());
            let next = state::fields_of(a.step().next(a.seen().val()), D::bits());
            &&& a.swapped() <==> f.service == ticket.val() && (if ticket.val() < max {
                f.service <= f.ticket
            } else {
                f.service == f.ticket
            })
            &&& a.swapped() && ticket.val() < max && (f.report || f.service < f.ticket) ==> next
                == (TicketFields { service: f.service + 1, ..f })
            &&& a.swapped() && ticket.val() < max && !f.report && f.service == f.ticket ==> next
                == (TicketFields { service: 0, ticket: 0, ..f })
            &&& a.swapped() && ticket.val() >= max ==> next == TicketFields::free()
        }),
{
    let bits = D::bits();
    let max = state::half_max(bits);
    let f = state::ticket_view(a.seen());
    D::lemma_width();
    a.seen().lemma_word();
    state::lemma_half(bits);
    state::lemma_fields(a.seen().val(), bits);
    if a.swapped() {
        state::lemma_move_fits(TicketMove::Release(ticket.val()), f, max);
        state::lemma_word_of(state::move_next(TicketMove::Release(ticket.val()), f, max), bits);
    }
}

/// Changes are told apart by their names, and each has one. The number in a change
/// counts only where the lock is given back.
pub proof fn law_names_tell_changes_apart(a: TicketMove, b: TicketMove)
    requires
        state::move_name(a) == state::move_name(b),
    ensures
        a is GetTicket <==> b is GetTicket,
        a is ServeFirst <==> b is ServeFirst,
        a is GiveUp <==> b is GiveUp,
        a is MoveUp <==> b is MoveUp,
        a is ReportOff <==> b is ReportOff,
        a is SkipReportOff <==> b is SkipReportOff,
        a is Release <==> b is Release,
        a is Release ==> a == b,
        state::move_name(a) != cell::no_step(),
{
}

/// Whoever holds the lock with the number `n` can give back that one only: the step
/// that the owner of its guard may take swaps the word of a lock that is held with
/// `n`, and no other.
pub proof fn law_owner_gives_back_its_own_number(
    mv: TicketMove,
    n: nat,
    f: TicketFields,
    max: nat,
)
    requires
        state::move_name(mv) == state::move_name(TicketMove::Release(n)),
        state::move_enabled(mv, f, max),
    ensures
        mv is Release,
        f.service == n,
{
}

/// Whether a task that acquires the lock may take steps of this name. It may not
/// give the lock back.
pub open spec fn acquiring(name: int) -> bool {
    ||| name == state::move_name(TicketMove::GetTicket)
    ||| name == state::move_name(TicketMove::ServeFirst)
    ||| name == state::move_name(TicketMove::GiveUp(0))
    ||| name == state::move_name(TicketMove::MoveUp(0))
    ||| name == state::move_name(TicketMove::ReportOff)
    ||| name == state::move_name(TicketMove::SkipReportOff(0))
}

/// A task that acquires the lock, with whatever token and however that ends,
/// leaves the number served alone: none of the steps that it may take changes
/// it, but that the first number is served where none is, and that the number
/// that the task itself skips is.
pub proof fn law_acquiring_leaves_the_served_number(mv: TicketMove, f: TicketFields, max: nat)
    requires
        acquiring(state::move_name(mv)),
        state::move_enabled(mv, f, max),
        f.service != 0,
    ensures
        !(mv is Release),
        state::move_next(mv, f, max).service == f.service || mv == TicketMove::SkipReportOff(
            f.service,
        ),
{
}

/// While a number is served, only giving the lock back that is held with it, or
/// skipping it, serves another.
pub proof fn law_served_number_changes_by_its_release(mv: TicketMove, f: TicketFields, max: nat)
    requires
        state::move_enabled(mv, f, max),
        f.service != 0,
        state::move_next(mv, f, max).service != f.service,
    ensures
        mv == TicketMove::Release(f.service) || mv == TicketMove::SkipReportOff(f.service),
{
}

/// How many of the events are draws.
pub open spec fn draws(es: Seq<TicketEvent>) -> nat
    decreases es.len(),
{
    if es.len() == 0 {
        0
    } else {
        draws(es.drop_last()) + (if es.last() is Draw {
            1nat
        } else {
            0
        })
    }
}

/// As long as nobody gives the lock back or gives up a number, the n-th draw
/// from a fresh lock gives the number n.
pub proof fn law_nth_draw_gives_n(poison: bool, es: Seq<TicketEvent>, max: nat, drawer: int)
    requires
        TicketSystem::start(poison).can_all(es, max),
        forall|i: int|
            0 <= i < es.len() ==> (#[trigger] es[i]) is Draw || es[i] is ServeFirst,
    ensures
        TicketSystem::start(poison).after_all(es, max).word.ticket == draws(es),
        TicketSystem::start(poison).after_all(es, max).after(
            TicketEvent::Draw(drawer),
            max,
        ).tasks[drawer] == draws(es) + 1,
    decreases es.len(),
{
    if es.len() > 0 {
        let e = es[es.len() - 1];
        assert(e is Draw || e is ServeFirst);
        law_nth_draw_gives_n(poison, es.drop_last(), max, drawer);
    }
}

/// Whether these are the exchanges by which numbers were drawn in as many calls
/// of [`MutexState::spin_get_ticket`](crate::mutex::ticketing::state::MutexState)
/// on a fresh lock, with nothing else done to its word in between.
pub open spec fn drawn_in_a_row<D: StateWord>(ts: Seq<Trial<D, TicketStep<D>>>) -> bool
    decreases ts.len(),
{
    ts.len() > 0 ==> {
        let t = ts.last();
        &&& drawn_in_a_row(ts.drop_last())
        &&& cell::trial_holds(t, t.guess(), TicketStep::GetTicket)
        &&& t.end() is Succ
        &&& t.seen().val() == word_after_draws(ts.drop_last())
    }
}

/// The number of the word after these draws.
pub open spec fn word_after_draws<D: StateWord>(ts: Seq<Trial<D, TicketStep<D>>>) -> nat {
    if ts.len() == 0 {
        0
    } else {
        ts.last().step().next(ts.last().seen().val())
    }
}

/// Calls in a row draw the numbers from one on, in the order of the calls. After
/// n of them n is the last number drawn, none is served, both flags are off, and
/// the next number can be drawn as long as numbers are left.
pub proof fn law_calls_in_a_row_draw_in_order<D: StateWord>(ts: Seq<Trial<D, TicketStep<D>>>)
    requires
        drawn_in_a_row(ts),
    ensures
        forall|i: int|
            0 <= i < ts.len() ==> state::ticket_view((#[trigger] ts[i]).seen()).ticket + 1 == i
                + 1,
        ts.len() <= state::half_max(D::bits()),
        word_after_draws(ts) < vstd::arithmetic::power2::pow2(D::bits()),
        state::fields_of(word_after_draws(ts), D::bits()) == (TicketFields {
            ticket: ts.len(),
            ..TicketFields::free()
        }),
        ts.len() < state::half_max(D::bits()) <==> state::move_enabled(
            TicketMove::GetTicket,
            state::fields_of(word_after_draws(ts), D::bits()),
            state::half_max(D::bits()),
        ),
    decreases ts.len(),
{
    let bits = D::bits();
    let max = state::half_max(bits);
    D::lemma_width();
    state::lemma_half(bits);
    if ts.len() == 0 {
        let h = state::half(bits);
        state::lemma_word_of(TicketFields::free(), bits);
        vstd::arithmetic::mul::lemma_mul_basics(vstd::arithmetic::power2::pow2(h + h) as int);
        vstd::arithmetic::mul::lemma_mul_basics(vstd::arithmetic::power2::pow2(h) as int);
    } else {
        let t = ts.last();
        let init = ts.drop_last();
        law_calls_in_a_row_draw_in_order(init);
        let f = state::ticket_view(t.seen());
        assert(t.step().enabled(t.seen().val()));
        state::lemma_word_of(state::move_next(TicketMove::GetTicket, f, max), bits);
        assert forall|i: int| 0 <= i < ts.len() implies state::ticket_view(
            (#[trigger] ts[i]).seen(),
        ).ticket + 1 == i + 1 by {
            if i < init.len() {
                assert(init[i] == ts[i]);
            }
        }
    }
}

/// At most one task holds the lock at any time.
pub proof fn law_mutual_exclusion(poison: bool, es: Seq<TicketEvent>, max: nat, a: int, b: int)
    requires
        1 <= max,
        TicketSystem::start(poison).can_all(es, max),
        TicketSystem::start(poison).after_all(es, max).holds(a),
        TicketSystem::start(poison).after_all(es, max).holds(b),
    ensures
        a == b,
{
    let sys = TicketSystem::start(poison).after_all(es, max);
    law_numbers_are_apart(poison, es, max);
    if a != b {
        assert(sys.tasks[a] != sys.tasks[b]);
    }
}

/// Whether the report flag was turned off only after everybody had moved up.
pub open spec fn patient(sys: TicketSystem, es: Seq<TicketEvent>, max: nat) -> bool
    decreases es.len(),
{
    es.len() > 0 ==> patient(sys, es.drop_last(), max) && (es.last().turns_off()
        ==> sys.after_all(es.drop_last(), max).all_moved_up())
}

/// As long as the report flag is turned off after everybody has moved up, and no
/// task goes on with a number that it found or had given up, no task has a
/// number behind the one last drawn while the flag is off. So the next number to
/// be drawn is nobody's.
pub proof fn law_patience_keeps_numbers_fresh(poison: bool, es: Seq<TicketEvent>, max: nat)
    requires
        1 <= max,
        TicketSystem::start(poison).can_all(es, max),
        all_steady(es),
        patient(TicketSystem::start(poison), es, max),
    ensures
        ({
            let sys = TicketSystem::start(poison).after_all(es, max);
            !sys.word.report ==> sys.all_moved_up() && !sys.is_out(sys.word.ticket + 1)
        }),
    decreases es.len(),
{
    let sys = TicketSystem::start(poison).after_all(es, max);
    if es.len() > 0 {
        let before = TicketSystem::start(poison).after_all(es.drop_last(), max);
        assert(es[es.len() - 1].steady());
        law_patience_keeps_numbers_fresh(poison, es.drop_last(), max);
        law_numbers_are_apart(poison, es.drop_last(), max);
        law_no_number_is_passed_by(poison, es.drop_last(), max);
        if !sys.word.report {
            assert forall|a: int| #[trigger] sys.has(a) implies sys.tasks[a]
                <= sys.word.ticket by {
                if before.has(a) {
                    assert(before.tasks[a] <= before.word.ticket || before.word.report);
                }
                match es.last() {
                    TicketEvent::Release(x) => {
                        assert(before.has(a) && before.has(x));
                        assert(before.tasks[a] != before.tasks[x]);
                    },
                    _ => {},
                }
            }
        }
    }
    if !sys.word.report && sys.is_out(sys.word.ticket + 1) {
        let a = choose|a: int| sys.has(a) && #[trigger] sys.tasks[a] == sys.word.ticket + 1;
        assert(sys.has(a));
    }
}

/// Under the same conditions, a task that draws a number comes behind all that
/// have one.
pub proof fn law_drawn_number_is_last(
    poison: bool,
    es: Seq<TicketEvent>,
    max: nat,
    drawer: int,
    other: int,
)
    requires
        1 <= max,
        TicketSystem::start(poison).can_all(es, max),
        all_steady(es),
        patient(TicketSystem::start(poison), es, max),
        TicketSystem::start(poison).after_all(es, max).can(TicketEvent::Draw(drawer), max),
        TicketSystem::start(poison).after_all(es, max).has(other),
    ensures
        ({
            let next = TicketSystem::start(poison).after_all(es, max).after(
                TicketEvent::Draw(drawer),
                max,
            );
            next.has(other) && next.tasks[other] < next.tasks[drawer]
        }),
{
    law_patience_keeps_numbers_fresh(poison, es, max);
}

/// As long as no task goes on with a number that it found or had given up, the
/// lock is held with the least number out.
pub proof fn law_least_number_is_served(
    poison: bool,
    es: Seq<TicketEvent>,
    max: nat,
    holder: int,
    other: int,
)
    requires
        1 <= max,
        TicketSystem::start(poison).can_all(es, max),
        all_steady(es),
        TicketSystem::start(poison).after_all(es, max).holds(holder),
        TicketSystem::start(poison).after_all(es, max).has(other),
    ensures
        ({
            let sys = TicketSystem::start(poison).after_all(es, max);
            sys.tasks[holder] <= sys.tasks[other]
        }),
{
    law_no_number_is_passed_by(poison, es, max);
}

/// A task keeps its number, except that it gives it back or gives it up, leaves,
/// goes on with one that it found, or moves up to a lesser one.
pub proof fn law_number_is_kept(sys: TicketSystem, e: TicketEvent, max: nat, a: int)
    requires
        sys.can(e, max),
        sys.has(a),
        e != TicketEvent::Release(a),
        e != TicketEvent::GiveUp(a),
        e != TicketEvent::LeaveAndSkip(a),
        e matches TicketEvent::GoOn(b, _) ==> b != a,
    ensures
        sys.after(e, max).has(a),
        sys.after(e, max).tasks[a] <= sys.tasks[a],
        e != TicketEvent::MoveUp(a) ==> sys.after(e, max).tasks[a] == sys.tasks[a],
{
}

/// A task that holds the lock keeps it, whatever other tasks do.
pub proof fn law_held_whatever_others_do(
    poison: bool,
    es: Seq<TicketEvent>,
    max: nat,
    a: int,
    e: TicketEvent,
)
    requires
        1 <= max,
        TicketSystem::start(poison).can_all(es, max),
        TicketSystem::start(poison).after_all(es, max).holds(a),
        TicketSystem::start(poison).after_all(es, max).can(e, max),
        e.task() != Some(a),
    ensures
        TicketSystem::start(poison).after_all(es, max).after(e, max).holds(a),
{
    let sys = TicketSystem::start(poison).after_all(es, max);
    law_numbers_are_apart(poison, es, max);
    assert(sys.is_out(sys.tasks[a]));
    match e.task() {
        Some(x) => {
            if sys.has(x) {
                assert(sys.tasks[a] != sys.tasks[x]);
            }
        },
        None => {},
    }
}

/// While nobody gives up a number, the numbers out are just those from the one
/// served up to the last one drawn.
pub proof fn law_numbers_out(poison: bool, es: Seq<TicketEvent>, max: nat)
    requires
        1 <= max,
        TicketSystem::start(poison).can_all(es, max),
        forall|i: int| 0 <= i < es.len() ==> (#[trigger] es[i]).calm(),
    ensures
        TicketSystem::start(poison).after_all(es, max).calm_inv(),
    decreases es.len(),
{
    if es.len() > 0 {
        let sys = TicketSystem::start(poison).after_all(es.drop_last(), max);
        let e = es.last();
        let after = sys.after(e, max);
        law_numbers_out(poison, es.drop_last(), max);
        law_numbers_are_apart(poison, es.drop_last(), max);
        assert(all_steady(es.drop_last())) by {
            assert forall|i: int| 0 <= i < es.len() - 1 implies (
            #[trigger] es.drop_last()[i]).steady() by {
                assert(es[i].calm());
            }
        }
        law_no_number_is_passed_by(poison, es.drop_last(), max);
        assert(es[es.len() - 1].calm());
        assert forall|n: nat| #[trigger] after.is_out(n) <==> 1 <= n && after.word.service <= n
            <= after.word.ticket by {
            lemma_out_after(sys, e, max, n);
        }
    } else {
        let sys = TicketSystem::start(poison).after_all(es, max);
        assert forall|n: nat| #[trigger] sys.is_out(n) <==> 1 <= n && sys.word.service <= n
            <= sys.word.ticket by {}
    }
}

/// Which numbers are out after an event by which nobody gives one up.
proof fn lemma_out_after(sys: TicketSystem, e: TicketEvent, max: nat, n: nat)
    requires
        1 <= max,
        sys.inv(max),
        sys.calm_inv(),
        sys.can(e, max),
        e.calm(),
    ensures
        sys.after(e, max).is_out(n) <==> 1 <= n && sys.after(e, max).word.service <= n
            <= sys.after(e, max).word.ticket,
{
    let after = sys.after(e, max);
    match e {
        TicketEvent::Draw(x) => {
            assert(after.has(x) && after.tasks[x] == sys.word.ticket + 1);
            if sys.is_out(n) {
                let a = choose|a: int| sys.has(a) && #[trigger] sys.tasks[a] == n;
                assert(after.has(a) && after.tasks[a] == n);
            }
            if after.is_out(n) {
                let a = choose|a: int| after.has(a) && #[trigger] after.tasks[a] == n;
                if a != x {
                    assert(sys.has(a) && sys.tasks[a] == n);
                }
            }
            assert(sys.is_out(n) <==> 1 <= n && sys.word.service <= n <= sys.word.ticket);
        },
        TicketEvent::Release(x) => {
            assert(sys.is_out(sys.tasks[x]));
            assert(sys.is_out(n) <==> 1 <= n && sys.word.service <= n <= sys.word.ticket);
            if sys.is_out(n) && n != sys.tasks[x] {
                let a = choose|a: int| sys.has(a) && #[trigger] sys.tasks[a] == n;
                assert(after.has(a) && after.tasks[a] == n);
            }
            if after.is_out(n) {
                let a = choose|a: int| after.has(a) && #[trigger] after.tasks[a] == n;
                assert(sys.has(a) && sys.tasks[a] == n);
                assert(sys.tasks[a] != sys.tasks[x]);
            }
        },
        _ => {
            assert(sys.is_out(n) <==> 1 <= n && sys.word.service <= n <= sys.word.ticket);
            assert(after.is_out(n) == sys.is_out(n)) by {
                if sys.is_out(n) {
                    let a = choose|a: int| sys.has(a) && #[trigger] sys.tasks[a] == n;
                    assert(after.has(a) && after.tasks[a] == n);
                }
                if after.is_out(n) {
                    let a = choose|a: int| after.has(a) && #[trigger] after.tasks[a] == n;
                    assert(sys.has(a) && sys.tasks[a] == n);
                }
            }
        },
    }
}

/// A task that holds the lock can give it back. While nobody has given up a
/// number, the task with the next number then holds the lock, or the numbers
/// start anew where there is none.
pub proof fn law_release_serves_next(poison: bool, es: Seq<TicketEvent>, max: nat, a: int)
    requires
        1 <= max,
        TicketSystem::start(poison).can_all(es, max),
        forall|i: int| 0 <= i < es.len() ==> (#[trigger] es[i]).calm(),
        TicketSystem::start(poison).after_all(es, max).holds(a),
    ensures
        ({
            let sys = TicketSystem::start(poison).after_all(es, max);
            let next = sys.after(TicketEvent::Release(a), max);
            &&& sys.can(TicketEvent::Release(a), max)
            &&& forall|b: int| #[trigger]
                sys.has(b) && sys.tasks[b] == sys.tasks[a] + 1 ==> next.holds(b)
            &&& !sys.is_out(sys.tasks[a] + 1) ==> next.word == (TicketFields {
                poison: next.word.poison,
                ..TicketFields::free()
            })
        }),
{
    let sys = TicketSystem::start(poison).after_all(es, max);
    law_numbers_out(poison, es, max);
    law_numbers_are_apart(poison, es, max);
    assert(sys.is_out(sys.tasks[a]));
    assert forall|b: int| #[trigger]
        sys.has(b) && sys.tasks[b] == sys.tasks[a] + 1 implies sys.after(
        TicketEvent::Release(a),
        max,
    ).holds(b) by {
        assert(sys.is_out(sys.tasks[b]));
    }
    if !sys.is_out(sys.tasks[a] + 1) {
        assert(sys.word.ticket <= sys.tasks[a]);
    }
}

/// A lock that nobody has a number of gives its first number to the next task,
/// which then can hold it at once.
pub proof fn law_free_lock_is_acquired(poison: bool, es: Seq<TicketEvent>, max: nat, a: int)
    requires
        1 <= max,
        TicketSystem::start(poison).can_all(es, max),
        forall|i: int| 0 <= i < es.len() ==> (#[trigger] es[i]).calm(),
        forall|b: int| !TicketSystem::start(poison).after_all(es, max).has(b),
    ensures
        ({
            let sys = TicketSystem::start(poison).after_all(es, max);
            let drawn = sys.after(TicketEvent::Draw(a), max);
            &&& sys.can(TicketEvent::Draw(a), max)
            &&& drawn.can(TicketEvent::ServeFirst, max)
            &&& drawn.after(TicketEvent::ServeFirst, max).holds(a)
        }),
{
    let sys = TicketSystem::start(poison).after_all(es, max);
    law_numbers_out(poison, es, max);
    assert(!sys.is_out(sys.word.ticket));
}

} // verus!
