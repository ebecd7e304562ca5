//! What a task of the ticket lock comes to, said of the words that it saw and the
//! exchanges that it made.

use vstd::prelude::*;

use crate::cell;
use crate::cell::{Attempt, Loaded, Source, Step, Trial};
use crate::mutex::ticketing::spinning;
use crate::mutex::ticketing::spinning::{Acquiring, NoGuard};
use crate::mutex::ticketing::state;
use crate::mutex::ticketing::state::{NoTicket, TicketFields, TicketMove, TicketStep};
use crate::mutex::ticketing::wait;
use crate::mutex::ticketing::wait::{AcqSt, WaitEnd, WaitState, WaitTurn};
use crate::word::StateWord;

verus! {

/// Whether `next` is `w` in another phase: the task has its number still, and
/// begins anew to count how often it looks in vain.
pub open spec fn goes_to<D: StateWord>(w: WaitState<D>, next: WaitState<D>, a: AcqSt) -> bool {
    next.a == a && next.m == w.m && next.i == 0 && next.v is None
}

/// A task that waits for its number is done where the number is served. Where
/// none is served yet and its own is the first, it tries to have it served. It
/// gives up where its token says so, but only after it has seen that its number
/// is not served. It turns to the report flag where that is on: if the number
/// noted is behind its own it is to move up. Otherwise it looks again.
pub proof fn law_turn_of_a_task_that_stands_by<D: StateWord>(
    w: WaitState<D>,
    t: WaitTurn<D>,
    verdict: Option<bool>,
    source: Source,
)
    requires
        w.a is TicketStandby,
        wait::turn(w, t, verdict, source),
    ensures
        t.looked is Some && t.looked->0.source() == source,
        t.trial is None,
        ({
            let f = state::ticket_view(t.looked->0.seen());
            let first = f.service == 0 && w.m.val() == 1;
            &&& f.service == w.m.val() ==> goes_to(w, t.next, AcqSt::AcqCompleted)
                && t.asked is None && t.tried is None
            &&& f.service != w.m.val() && first ==> t.next == w && t.asked is None && t.tried is Some
                && t.tried->0.step() == TicketStep::<D>::ServeFirst
            &&& f.service != w.m.val() && !first ==> t.tried is None && t.asked is Some
                && if t.asked->0 {
                goes_to(w, t.next, AcqSt::ProactPrepare)
            } else if f.report && f.ticket > w.m.val() {
                goes_to(w, t.next, AcqSt::ReportStandby)
            } else if f.report {
                goes_to(w, t.next, AcqSt::PassivePrepare)
            } else {
                t.next == w
            }
        }),
        t.asked matches Some(c) ==> verdict is None || verdict == Some(c),
{
}

/// A task that gives up announces its number where nobody else gives one up and
/// its own is not served, and waits on otherwise. It has given up once it sees
/// that its number was taken over; if it has looked for that in vain often
/// enough, it is to turn off the report flag.
pub proof fn law_turn_of_a_task_that_gives_up<D: StateWord>(
    w: WaitState<D>,
    t: WaitTurn<D>,
    verdict: Option<bool>,
    source: Source,
)
    requires
        wait::turn(w, t, verdict, source),
    ensures
        w.a is ProactPrepare ==> {
            &&& t.looked is None && t.asked is None && t.trial is None
            &&& t.tried matches Some(a) && {
                let f = state::ticket_view(a.seen());
                &&& a.source() == source
                &&& a.step() == TicketStep::GiveUp(w.m)
                &&& a.swapped() <==> !f.report && f.service < w.m.val()
                &&& a.swapped() ==> goes_to(w, t.next, AcqSt::ProactSubmit)
                &&& !a.swapped() ==> goes_to(w, t.next, AcqSt::TicketStandby)
            }
        },
        w.a is ProactSubmit ==> {
            &&& t.asked is None && t.tried is None && t.trial is None
            &&& t.looked matches Some(l) && {
                let f = state::ticket_view(l.seen());
                &&& l.source() == source
                &&& f.ticket > w.m.val() ==> goes_to(w, t.next, AcqSt::AcqCancelled)
                &&& f.ticket <= w.m.val() && w.i >= 16 ==> goes_to(
                    w,
                    t.next,
                    AcqSt::ReportFlagRst,
                )
                &&& f.ticket <= w.m.val() && w.i < 16 ==> t.next.a == w.a && t.next.m == w.m
                    && t.next.v == w.v && t.next.i == w.i + (if f.ticket == w.m.val() {
                    1int
                } else {
                    0
                })
            }
        },
{
}

/// A task that the report flag concerns moves up where the number noted is behind
/// its own, by an exchange that notes its own number, and goes on with the number
/// that was noted. It then waits for another to move up in turn; if it has looked
/// for that in vain often enough, it is to turn off the report flag.
pub proof fn law_turn_of_a_task_that_moves_up<D: StateWord>(
    w: WaitState<D>,
    t: WaitTurn<D>,
    verdict: Option<bool>,
    source: Source,
)
    requires
        wait::turn(w, t, verdict, source),
    ensures
        w.a is PassivePrepare ==> {
            &&& t.asked is None && t.tried is None
            &&& t.looked is Some <==> w.v is None
            &&& t.looked matches Some(l) ==> l.source() == source
            &&& t.trial matches Some(x) && {
                let f = state::ticket_view(x.seen());
                let g = state::ticket_view(x.guess());
                &&& x.source() == source
                &&& x.step() == TicketStep::MoveUp(w.m)
                &&& x.guess() == (match w.v {
                    Some(v) => v,
                    None => t.looked->0.seen(),
                })
                &&& x.end() is Unexpected <==> !(g.report && g.ticket < w.m.val())
                &&& x.end() is Fail ==> t.next == (WaitState { v: Some(x.seen()), ..w })
                &&& x.end() is Succ ==> t.next.a is PassiveSubmit
                &&& x.end() is Unexpected ==> t.next.a is ReportStandby
                &&& !(x.end() is Fail) ==> t.next.m.val() == f.ticket && f == g && t.next.i == 0
                    && t.next.v is None
            }
        },
        w.a is PassiveSubmit ==> {
            &&& t.asked is None && t.tried is None && t.trial is None
            &&& t.looked matches Some(l) && {
                let f = state::ticket_view(l.seen());
                &&& l.source() == source
                &&& w.i >= 16 ==> goes_to(w, t.next, AcqSt::ReportFlagRst)
                &&& w.i < 16 && f.ticket > w.m.val() ==> goes_to(w, t.next, AcqSt::ReportStandby)
                &&& w.i < 16 && f.ticket <= w.m.val() ==> t.next.a == w.a && t.next.m == w.m
                    && t.next.v == w.v && t.next.i == w.i + (if f.ticket == w.m.val() {
                    1int
                } else {
                    0
                })
            }
        },
{
    if w.a is PassivePrepare {
        let seen = t.trial->0.seen();
        D::lemma_width();
        seen.lemma_word();
        state::lemma_half(D::bits());
        state::lemma_fields(seen.val(), D::bits());
        vstd::arithmetic::power2::lemma_pow2_strictly_increases(
            state::half(D::bits()),
            D::bits(),
        );
        D::lemma_of(state::ticket_view(seen).ticket);
    }
}

/// A task that the report flag does not concern is done where its number is
/// served, and waits for the flag to go off otherwise. One that is to turn off
/// the flag asks its token: a task that is cancelled skips its number with it and
/// has given up, and any other goes on waiting.
pub proof fn law_turn_of_a_task_that_reports<D: StateWord>(
    w: WaitState<D>,
    t: WaitTurn<D>,
    verdict: Option<bool>,
    source: Source,
)
    requires
        wait::turn(w, t, verdict, source),
    ensures
        w.a is ReportStandby ==> {
            &&& t.asked is None && t.tried is None && t.trial is None
            &&& t.looked matches Some(l) && {
                let f = state::ticket_view(l.seen());
                &&& l.source() == source
                &&& f.service > w.m.val() ==> goes_to(w, t.next, AcqSt::AcqOverrun)
                &&& f.service == w.m.val() ==> goes_to(w, t.next, AcqSt::AcqCompleted)
                &&& f.service < w.m.val() && !f.report ==> goes_to(
                    w,
                    t.next,
                    AcqSt::TicketStandby,
                )
                &&& f.service < w.m.val() && f.report ==> t.next == w
            }
        },
        w.a is ReportFlagRst ==> {
            &&& t.looked is None && t.trial is None
            &&& t.asked is Some && (verdict is None || verdict == t.asked)
            &&& t.tried matches Some(a) && {
                &&& a.source() == source
                &&& a.swapped() <==> state::ticket_view(a.seen()).report
                &&& t.asked->0 ==> a.step() == TicketStep::SkipReportOff(w.m) && goes_to(
                    w,
                    t.next,
                    AcqSt::AcqCancelled,
                )
                &&& !t.asked->0 ==> a.step() == TicketStep::<D>::ReportOff && goes_to(
                    w,
                    t.next,
                    AcqSt::TicketStandby,
                )
            }
        },
{
}

/// What the changes make of the word, each where it can take place: a number is
/// drawn, the first one is served, a number is announced that is given up or
/// moved up from, and the report flag is turned off, with a number skipped or
/// not.
pub proof fn law_what_changes_make_of_the_word(mv: TicketMove, f: TicketFields, max: nat)
    requires
        !(mv is Release),
    ensures
        ({
            let g = state::move_next(mv, f, max);
            let can = state::move_enabled(mv, f, max);
            &&& g.poison == f.poison
            &&& match mv {
                TicketMove::GetTicket => {
                    &&& can <==> !f.report && f.service <= f.ticket && f.ticket < max
                    &&& g.ticket == f.ticket + 1 && g.service == f.service && g.report == f.report
                },
                TicketMove::ServeFirst => {
                    &&& can <==> f.service == 0 && f.ticket > 0
                    &&& g.service == 1 && g.ticket == f.ticket && g.report == f.report
                },
                TicketMove::GiveUp(m) => {
                    &&& can <==> !f.report && f.service < m
                    &&& g.report && g.ticket == m && g.service == f.service
                },
                TicketMove::MoveUp(m) => {
                    &&& can <==> f.report && f.ticket < m
                    &&& g.report == f.report && g.ticket == m && g.service == f.service
                },
                TicketMove::ReportOff => {
                    &&& can <==> f.report
                    &&& !g.report && g.ticket == f.ticket && g.service == f.service
                },
                TicketMove::SkipReportOff(m) => {
                    &&& can <==> f.report
                    &&& !g.report && g.ticket == f.ticket
                    &&& m != f.service ==> g.service == f.service
                    &&& m == f.service && m < max ==> g.service == f.service + 1
                },
                TicketMove::Release(_) => true,
            }
        }),
{
}

/// A task that draws a number has it by an exchange on the word of the lock, which
/// notes just that number as the last one drawn. One that draws none has been
/// refused, and if it was cancelled its token was asked after that.
pub proof fn law_what_drawing_comes_to<D: StateWord>(
    source: Source,
    guess: D,
    verdict: Option<bool>,
    turns: usize,
    r: Result<D, NoTicket<D>>,
)
    requires
        state::drew(source, guess, verdict, turns, r),
    ensures
        r matches Ok(n) ==> turns > 0 && exists|t: Trial<D, TicketStep<D>>|
            {
                &&& #[trigger] t.source() == source
                &&& t.step() == TicketStep::<D>::GetTicket && t.end() is Succ
                &&& !state::ticket_view(t.seen()).report
                &&& state::fields_of(t.step().next(t.seen().val()), D::bits()).ticket == n.val()
                &&& state::ticket_view(t.seen()).ticket + 1 == n.val()
            },
        r is Err && turns > 0 ==> exists|t: Trial<D, TicketStep<D>>|
            {
                &&& #[trigger] t.source() == source
                &&& t.step() == TicketStep::<D>::GetTicket && !(t.end() is Succ)
            },
        r matches Err(NoTicket::Cancelled) ==> turns > 0 && verdict != Some(false),
        r matches Err(NoTicket::Pending(_)) ==> turns == 0 || verdict != Some(true),
        turns == 0 ==> r == Err::<D, NoTicket<D>>(NoTicket::Pending(guess)),
{
    let ts = choose|ts: Seq<Trial<D, TicketStep<D>>>| #[trigger]
        state::drew_none(source, guess, ts) && match r {
            Ok(n) => {
                &&& ts.len() < turns
                &&& ts.len() > 0 ==> verdict != Some(true)
                &&& state::draws(source, state::guess_at(guess, ts, ts.len() as int), n)
            },
            Err(NoTicket::Cancelled) => {
                &&& 0 < ts.len() <= turns
                &&& verdict != Some(false)
                &&& ts.len() > 1 ==> verdict != Some(true)
            },
            Err(NoTicket::Pending(v)) => {
                &&& ts.len() == turns
                &&& v == state::guess_at(guess, ts, ts.len() as int)
                &&& turns > 0 ==> verdict != Some(true)
            },
        };
    if r is Ok {
        let v = state::guess_at(guess, ts, ts.len() as int);
        let n = r->Ok_0;
        let t = choose|t: Trial<D, TicketStep<D>>| #[trigger]
            cell::trial_on(t, source, v, TicketStep::GetTicket) && t.end() is Succ && n.val()
                == state::ticket_view(t.seen()).ticket + 1;
        D::lemma_width();
        t.seen().lemma_word();
        state::lemma_half(D::bits());
        state::lemma_fields(t.seen().val(), D::bits());
        assert(t.step().enabled(t.seen().val()));
        state::lemma_word_of(
            state::move_next(
                TicketMove::GetTicket,
                state::ticket_view(t.seen()),
                state::half_max(D::bits()),
            ),
            D::bits(),
        );
        assert(t.source() == source);
    } else if turns > 0 {
        assert(ts[0].source() == source);
    }
}

/// A lock is given back by an exchange on its word, which swaps it just where the
/// number served is that of the guard and no later than the last one drawn. The
/// word that decided comes back.
pub proof fn law_what_releasing_comes_to<D: StateWord>(
    source: Source,
    ticket: D,
    r: Result<D, D>,
)
    requires
        state::released(source, ticket, r),
    ensures
        exists|a: Attempt<D, TicketStep<D>>|
            {
                &&& #[trigger] a.source() == source
                &&& a.step() == TicketStep::Release(ticket)
                &&& a.swapped() == (r is Ok)
                &&& a.seen() == (match r {
                    Ok(v) => v,
                    Err(v) => v,
                })
            },
        ({
            let v = match r {
                Ok(v) => v,
                Err(v) => v,
            };
            let f = state::ticket_view(v);
            r is Ok <==> f.service == ticket.val() && (f.service == f.ticket || f.service < f.ticket
                && ticket.val() < state::half_max(D::bits()))
        }),
{
    let a = choose|a: Attempt<D, TicketStep<D>>| #[trigger]
        cell::attempt_on(a, source, TicketStep::Release(ticket)) && r == (if a.swapped() {
            Ok::<D, D>(a.seen())
        } else {
            Err::<D, D>(a.seen())
        });
    assert(a.source() == source);
}

/// A task that waited and is done has looked at a word of the lock by which its
/// number is served, and that was the last that it did.
pub proof fn law_waited_until_served<D: StateWord>(
    source: Source,
    w: WaitState<D>,
    verdict: Option<bool>,
    turns: usize,
    r: Result<D, WaitEnd<D>>,
)
    requires
        w.waiting(),
        wait::waited(source, w, verdict, turns, r),
    ensures
        r matches Ok(m) ==> turns > 0 && exists|l: Loaded<D>| #[trigger]
            l.source() == source && state::ticket_view(l.seen()).service == m.val(),
        r matches Err(WaitEnd::Overrun) ==> turns > 0 && exists|l: Loaded<D>| #[trigger]
            l.source() == source,
        r matches Err(WaitEnd::Pending(u)) ==> u.waiting() && (turns == 0 ==> u == w),
        r matches Err(WaitEnd::Cancelled) ==> turns > 0,
{
    let (u, n) = choose|u: WaitState<D>, n: nat|
        {
            &&& n <= turns
            &&& #[trigger] wait::turns_lead(w, u, n, verdict, source)
            &&& u.waiting() ==> n == turns
            &&& r == wait::wait_result(u)
        };
    if n > 0 {
        let (x, t) = choose|x: WaitState<D>, t: WaitTurn<D>|
            wait::turns_lead(w, x, (n - 1) as nat, verdict, source) && #[trigger] wait::turn(
                x,
                t,
                verdict,
                source,
            ) && u == t.next;
        if u.a is AcqCompleted || u.a is AcqOverrun {
            assert(t.looked->0.source() == source);
        }
    }
}

/// A task that acquires the lock has looked at a word of it by which its number
/// is served. One that had no number first drew one.
pub proof fn law_acquired_when_served<D: StateWord>(
    source: Source,
    from: Acquiring<D>,
    verdict: Option<bool>,
    turns: usize,
    r: Result<D, NoGuard<D>>,
)
    requires
        from.wf(),
        spinning::acquires(source, from, verdict, turns, r),
    ensures
        r matches Ok(m) ==> turns > 0 && exists|l: Loaded<D>| #[trigger]
            l.source() == source && state::ticket_view(l.seen()).service == m.val(),
        r is Ok && from is Drawing ==> exists|t: Trial<D, TicketStep<D>>|
            {
                &&& #[trigger] t.source() == source
                &&& t.step() == TicketStep::<D>::GetTicket && t.end() is Succ
            },
{
    match from {
        Acquiring::Waiting(w) => {
            lemma_acquires_waiting(source, w, verdict, turns, r);
        },
        Acquiring::Drawing(v) => {
            let x = choose|x: Result<D, NoTicket<D>>| #[trigger]
                state::drew(source, v, verdict, turns, x) && match x {
                    Ok(n) => spinning::acquires_waiting(
                        source,
                        WaitState::entered(AcqSt::TicketStandby, n),
                        verdict,
                        turns,
                        r,
                    ),
                    Err(NoTicket::Cancelled) => r == Err::<D, NoGuard<D>>(NoGuard::Cancelled),
                    Err(NoTicket::Pending(u)) => r == Err::<D, NoGuard<D>>(
                        NoGuard::Pending(Acquiring::Drawing(u)),
                    ),
                };
            law_what_drawing_comes_to(source, v, verdict, turns, x);
            if x is Ok {
                lemma_acquires_waiting(
                    source,
                    WaitState::entered(AcqSt::TicketStandby, x->Ok_0),
                    verdict,
                    turns,
                    r,
                );
            }
        },
    }
}

/// The same of a task that waits.
proof fn lemma_acquires_waiting<D: StateWord>(
    source: Source,
    w: WaitState<D>,
    verdict: Option<bool>,
    turns: usize,
    r: Result<D, NoGuard<D>>,
)
    requires
        w.waiting(),
        spinning::acquires_waiting(source, w, verdict, turns, r),
    ensures
        r matches Ok(m) ==> turns > 0 && exists|l: Loaded<D>| #[trigger]
            l.source() == source && state::ticket_view(l.seen()).service == m.val(),
{
    let x = choose|x: Result<D, WaitEnd<D>>| #[trigger]
        wait::waited(source, w, verdict, turns, x) && r == spinning::after_wait(x);
    law_waited_until_served(source, w, verdict, turns, x);
}

} // verus!
