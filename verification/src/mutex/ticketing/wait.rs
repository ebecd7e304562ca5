//! Waiting for a number to be served, and giving it up.
//!
//! A task that waits goes through the phases of [`AcqSt`]. In each turn it
//! looks at the state word once, or exchanges it once, and then knows the phase
//! of its next turn. What it keeps between the turns is a [`WaitState`].

use vstd::prelude::*;

use crate::cancel::TrCancellationToken;
use crate::cell;
use crate::cell::{Attempt, Loaded, Source, Trial, TrialEnd, WordCell};
use crate::mutex::ticketing::state;
use crate::mutex::ticketing::state::{
    expect_report_flag_off, expect_report_flag_on, split_service_and_ticket, MutexState,
    TicketFields, TicketMove, TicketStep,
};
use crate::word::StateWord;

verus! {

/// How often a task that gives up a number looks whether another takes it over,
/// before it concludes that it is the last one.
pub const REPORT_MAX_CHK: usize = 16;

/// The phase that a waiting task is in.
#[derive(Clone, Copy, Debug, PartialEq, Eq, Structural)]
pub enum AcqSt {
    /// Wait for the number to be served.
    TicketStandby,
    /// The task is to turn on the report flag.
    ProactPrepare,
    /// The task has announced the number that it gives up.
    ProactSubmit,
    /// The report flag is on, and does not concern the task.
    ReportStandby,
    /// The report flag is on, and the task is to move up.
    PassivePrepare,
    /// The task has moved up, and waits for another to take over its former
    /// number.
    PassiveSubmit,
    /// The task is the last one to be concerned, and is to turn off the report
    /// flag.
    ReportFlagRst,
    /// The number of the task is served.
    AcqCompleted,
    /// The task has given up.
    AcqCancelled,
    /// The number served has gone past the number of the task.
    AcqOverrun,
}

/// What a waiting task keeps between its turns.
#[derive(Clone, Copy, Debug)]
pub struct WaitState<D> {
    /// The phase of the next turn.
    pub a: AcqSt,
    /// The number of the task, or the one that it has announced.
    pub m: D,
    /// How often the task has looked in vain in this phase.
    pub i: usize,
    /// The word that the next exchange is tried from, once there is one.
    pub v: Option<D>,
}

impl<D: StateWord> WaitState<D> {
    /// A task that has just come into the phase `a` with the number `m`.
    pub open spec fn entered(a: AcqSt, m: D) -> Self {
        WaitState { a, m, i: 0, v: None }
    }

    pub fn enter(a: AcqSt, m: D) -> (r: Self)
        ensures
            r == Self::entered(a, m),
        opens_invariants none
    {
        WaitState { a, m, i: 0, v: None }
    }

    /// Whether the number can be drawn.
    pub open spec fn wf(self) -> bool {
        self.m.val() <= state::half_max(D::bits())
    }

    /// Whether the task still waits.
    pub open spec fn waiting(self) -> bool {
        !(self.a is AcqCompleted) && !(self.a is AcqCancelled) && !(self.a is AcqOverrun)
    }

    /// Whether the task has not begun to give up.
    pub open spec fn staying(self) -> bool {
        !(self.a is ProactPrepare) && !(self.a is ProactSubmit) && !(self.a is AcqCancelled)
    }

    pub fn is_waiting(&self) -> (r: bool)
        ensures
            r == self.waiting(),
        opens_invariants none
    {
        match self.a {
            AcqSt::AcqCompleted | AcqSt::AcqCancelled | AcqSt::AcqOverrun => false,
            _ => true,
        }
    }
}

/// Whether a token with the given verdict can answer `c`.
pub open spec fn can_answer(verdict: Option<bool>, c: bool) -> bool {
    verdict == None::<bool> || verdict == Some(c)
}

/// The turn of a task that waits, has seen the parts `f`, and is answered `c`
/// by its token: if its number is served it is done, if it has the first number
/// and none is served it has it served, if it is to give up it does, and if
/// the report flag is on it turns to that.
pub open spec fn standby_next<D: StateWord>(w: WaitState<D>, f: TicketFields, c: bool) -> WaitState<
    D,
> {
    if f.service == w.m.val() {
        WaitState::entered(AcqSt::AcqCompleted, w.m)
    } else if f.service == 0 && w.m.val() == 1 {
        w
    } else if c {
        WaitState::entered(AcqSt::ProactPrepare, w.m)
    } else if f.report {
        if f.ticket > w.m.val() {
            WaitState::entered(AcqSt::ReportStandby, w.m)
        } else {
            WaitState::entered(AcqSt::PassivePrepare, w.m)
        }
    } else {
        w
    }
}

/// The turn of a task that has tried, on the parts `f`, to announce its number.
pub open spec fn proact_prepare_next<D: StateWord>(w: WaitState<D>, f: TicketFields) -> WaitState<
    D,
> {
    if state::move_enabled(TicketMove::GiveUp(w.m.val()), f, state::half_max(D::bits())) {
        WaitState::entered(AcqSt::ProactSubmit, w.m)
    } else {
        WaitState::entered(AcqSt::TicketStandby, w.m)
    }
}

/// The turn of a task that waits for its number to be taken over, and has seen
/// the parts `f`.
pub open spec fn proact_submit_next<D: StateWord>(w: WaitState<D>, f: TicketFields) -> WaitState<
    D,
> {
    if f.ticket > w.m.val() {
        WaitState::entered(AcqSt::AcqCancelled, w.m)
    } else if w.i >= REPORT_MAX_CHK {
        WaitState::entered(AcqSt::ReportFlagRst, w.m)
    } else if f.ticket == w.m.val() {
        WaitState { i: (w.i + 1) as usize, ..w }
    } else {
        w
    }
}

/// The turn of a task that the report flag does not concern, and that has seen
/// the parts `f`.
pub open spec fn report_standby_next<D: StateWord>(w: WaitState<D>, f: TicketFields) -> WaitState<
    D,
> {
    if f.service > w.m.val() {
        WaitState::entered(AcqSt::AcqOverrun, w.m)
    } else if f.service == w.m.val() {
        WaitState::entered(AcqSt::AcqCompleted, w.m)
    } else if !f.report {
        WaitState::entered(AcqSt::TicketStandby, w.m)
    } else {
        w
    }
}

/// The turn of a task that has tried to move up: how the exchange ended, and
/// the word that came back. The task goes on with the number that it found in
/// the word, whether it has moved up or need not.
pub open spec fn passive_prepare_next<D: StateWord>(
    w: WaitState<D>,
    end: TrialEnd,
    seen: D,
) -> WaitState<D> {
    let t = D::of(state::ticket_view(seen).ticket);
    match end {
        TrialEnd::Succ => WaitState::entered(AcqSt::PassiveSubmit, t),
        TrialEnd::Unexpected => WaitState::entered(AcqSt::ReportStandby, t),
        TrialEnd::Fail => WaitState { v: Some(seen), ..w },
    }
}

/// The turn of a task that has moved up, and has seen the parts `f`.
pub open spec fn passive_submit_next<D: StateWord>(w: WaitState<D>, f: TicketFields) -> WaitState<
    D,
> {
    if w.i >= REPORT_MAX_CHK {
        WaitState::entered(AcqSt::ReportFlagRst, w.m)
    } else if f.ticket > w.m.val() {
        WaitState::entered(AcqSt::ReportStandby, w.m)
    } else if f.ticket == w.m.val() {
        WaitState { i: (w.i + 1) as usize, ..w }
    } else {
        w
    }
}

/// The turn of a task that has turned off the report flag, and was answered
/// `c` by its token.
pub open spec fn report_flagrst_next<D: StateWord>(w: WaitState<D>, c: bool) -> WaitState<D> {
    if c {
        WaitState::entered(AcqSt::AcqCancelled, w.m)
    } else {
        WaitState::entered(AcqSt::TicketStandby, w.m)
    }
}

/// What a task did in a turn, and what it came to.
pub struct WaitTurn<D> {
    /// Where the turn leads.
    pub next: WaitState<D>,
    /// The look at the word, if the turn began with one.
    pub looked: Option<Loaded<D>>,
    /// The answer of the token, if it was asked.
    pub asked: Option<bool>,
    /// The exchange that was carried through, if any was.
    pub tried: Option<Attempt<D, TicketStep<D>>>,
    /// The single exchange, if one was tried.
    pub trial: Option<Trial<D, TicketStep<D>>>,
}

impl<D: StateWord> WaitTurn<D> {
    /// The parts of the word that the task looked at.
    pub open spec fn parts(self) -> TicketFields {
        state::ticket_view(self.looked->0.seen())
    }

    /// Whether the word was the one in the atomic `source`.
    pub open spec fn on(self, source: Source) -> bool {
        &&& self.looked matches Some(l) ==> l.source() == source
        &&& self.tried matches Some(a) ==> a.source() == source
        &&& self.trial matches Some(x) ==> x.source() == source
    }

    /// Whether the turn was a look at the word and nothing else.
    pub open spec fn only_looked(self) -> bool {
        self.looked is Some && self.asked is None && self.tried is None && self.trial is None
    }

    /// Whether the turn was one exchange by `step` after no look.
    pub open spec fn only_tried(self, step: TicketStep<D>) -> bool {
        &&& self.looked is None
        &&& self.tried matches Some(a) && cell::attempt_holds(a, step)
        &&& self.trial is None
    }
}

/// Whether `t` is a turn of a task in the state `w` whose token has the given
/// verdict, at the lock with its word in the atomic `source`.
pub open spec fn turn<D: StateWord>(
    w: WaitState<D>,
    t: WaitTurn<D>,
    verdict: Option<bool>,
    source: Source,
) -> bool {
    &&& t.on(source)
    &&& t.asked matches Some(c) ==> can_answer(verdict, c)
    &&& match w.a {
        AcqSt::TicketStandby => {
            let served = t.parts().service == w.m.val();
            let first = !served && t.parts().service == 0 && w.m.val() == 1;
            &&& t.looked is Some
            &&& t.asked is Some <==> !served && !first
            &&& t.tried is Some <==> first
            &&& t.tried matches Some(a) ==> cell::attempt_holds(a, TicketStep::ServeFirst)
            &&& t.trial is None
            &&& t.next == standby_next(w, t.parts(), t.asked == Some(true))
        },
        AcqSt::ProactPrepare => {
            &&& t.only_tried(TicketStep::GiveUp(w.m))
            &&& t.asked is None
            &&& t.next == proact_prepare_next(w, state::ticket_view(t.tried->0.seen()))
        },
        AcqSt::ProactSubmit => t.only_looked() && t.next == proact_submit_next(w, t.parts()),
        AcqSt::ReportStandby => t.only_looked() && t.next == report_standby_next(w, t.parts()),
        AcqSt::PassivePrepare => {
            &&& t.looked is None <==> w.v is Some
            &&& t.asked is None && t.tried is None
            &&& t.trial matches Some(x) && {
                &&& cell::trial_holds(
                    x,
                    if w.v is Some {
                        w.v->0
                    } else {
                        t.looked->0.seen()
                    },
                    TicketStep::MoveUp(w.m),
                )
                &&& t.next == passive_prepare_next(w, x.end(), x.seen())
            }
        },
        AcqSt::PassiveSubmit => t.only_looked() && t.next == passive_submit_next(w, t.parts()),
        AcqSt::ReportFlagRst => t.asked matches Some(c) && {
            &&& t.only_tried(
                if c {
                    TicketStep::SkipReportOff(w.m)
                } else {
                    TicketStep::ReportOff
                },
            )
            &&& t.next == report_flagrst_next(w, c)
        },
        AcqSt::AcqCompleted => false,
        AcqSt::AcqCancelled => false,
        AcqSt::AcqOverrun => false,
    }
}

/// Whether `n` turns can lead from `w` to `u`.
pub open spec fn turns_lead<D: StateWord>(
    w: WaitState<D>,
    u: WaitState<D>,
    n: nat,
    verdict: Option<bool>,
    source: Source,
) -> bool
    decreases n,
{
    if n == 0 {
        u == w
    } else {
        exists|x: WaitState<D>, t: WaitTurn<D>|
            turns_lead(w, x, (n - 1) as nat, verdict, source) && #[trigger] turn(
                x,
                t,
                verdict,
                source,
            ) && u == t.next
    }
}

/// A task that waits: the lock, its token and the number that it drew.
pub struct TicketCtx<'a, C: WordCell, K: TrCancellationToken> {
    pub s: &'a MutexState<C>,
    pub c: &'a K,
    pub t: C::Word,
}

/// How a wait ended that did not end with the lock.
#[derive(Clone, Copy, Debug)]
pub enum WaitEnd<D> {
    /// The task has given up.
    Cancelled,
    /// The number served has gone past the number of the task.
    Overrun,
    /// The turns have run out. The task can go on from where it is.
    Pending(WaitState<D>),
}

impl<'a, C: WordCell, K: TrCancellationToken> TicketCtx<'a, C, K> {
    pub fn new(state: &'a MutexState<C>, cancel: &'a K, ticket: C::Word) -> (r: Self)
        ensures
            r.s == state,
            r.c == cancel,
            r.t == ticket,
        opens_invariants none
    {
        TicketCtx { s: state, c: cancel, t: ticket }
    }

    /// The atomic that holds the word of the lock.
    pub open spec fn source(self) -> Source {
        self.s.cell().source()
    }

    /// The task as it begins to wait.
    pub fn start(&self) -> (r: WaitState<C::Word>)
        ensures
            r == WaitState::entered(AcqSt::TicketStandby, self.t),
        opens_invariants none
    {
        WaitState::enter(AcqSt::TicketStandby, self.t)
    }

    pub fn ticket_standby_(&self, w: WaitState<C::Word>) -> (r: WaitTurn<C::Word>)
        requires
            w.a is TicketStandby,
        ensures
            turn(w, r, self.c.verdict(), self.source()),
        opens_invariants [
            cell::name_if(w.m.val() == 1, state::move_name(TicketMove::ServeFirst)),
        ]
    {
        let l = self.s.as_cell().value();
        let v = l.word();
        let (srv, tkt) = split_service_and_ticket(v);
        let looked = Some(l);
        if srv.same(w.m) {
            let next = WaitState::enter(AcqSt::AcqCompleted, w.m);
            return WaitTurn { next, looked, asked: None, tried: None, trial: None };
        }
        proof {
            lemma_one::<C::Word>();
        }
        if srv.same(C::Word::zero()) && w.m.same(C::Word::single(0)) {
            let tried = Some(self.s.as_cell().try_spin(TicketStep::ServeFirst));
            return WaitTurn { next: w, looked, asked: None, tried, trial: None };
        }
        // The token is asked before the report flag is looked at.
        let c = self.c.is_cancelled();
        let next = if c {
            WaitState::enter(AcqSt::ProactPrepare, w.m)
        } else if expect_report_flag_on(v) {
            if w.m.less(tkt) {
                WaitState::enter(AcqSt::ReportStandby, w.m)
            } else {
                WaitState::enter(AcqSt::PassivePrepare, w.m)
            }
        } else {
            w
        };
        WaitTurn { next, looked, asked: Some(c), tried: None, trial: None }
    }

    pub fn proact_prepare_(&self, w: WaitState<C::Word>) -> (r: WaitTurn<C::Word>)
        requires
            w.a is ProactPrepare,
            w.wf(),
        ensures
            turn(w, r, self.c.verdict(), self.source()),
        opens_invariants [ state::move_name(TicketMove::GiveUp(0)) ]
    {
        // The exchange is refused where another task gives up its number. Then
        // this one waits until that has been dealt with.
        let attempt = self.s.as_cell().try_spin(TicketStep::GiveUp(w.m));
        let next = if attempt.is_succ() {
            WaitState::enter(AcqSt::ProactSubmit, w.m)
        } else {
            WaitState::enter(AcqSt::TicketStandby, w.m)
        };
        WaitTurn { next, looked: None, asked: None, tried: Some(attempt), trial: None }
    }

    pub fn proact_submit_(&self, w: WaitState<C::Word>) -> (r: WaitTurn<C::Word>)
        requires
            w.a is ProactSubmit,
        ensures
            turn(w, r, self.c.verdict(), self.source()),
        opens_invariants none
    {
        let l = self.s.as_cell().value();
        let (_, tkt) = split_service_and_ticket(l.word());
        let next = if w.m.less(tkt) {
            WaitState::enter(AcqSt::AcqCancelled, w.m)
        } else if w.i >= REPORT_MAX_CHK {
            WaitState::enter(AcqSt::ReportFlagRst, w.m)
        } else if tkt.same(w.m) {
            WaitState { i: w.i + 1, ..w }
        } else {
            w
        };
        WaitTurn { next, looked: Some(l), asked: None, tried: None, trial: None }
    }

    pub fn report_standby_(&self, w: WaitState<C::Word>) -> (r: WaitTurn<C::Word>)
        requires
            w.a is ReportStandby,
        ensures
            turn(w, r, self.c.verdict(), self.source()),
        opens_invariants none
    {
        let l = self.s.as_cell().value();
        let v = l.word();
        let (s, _) = split_service_and_ticket(v);
        let next = if w.m.less(s) {
            WaitState::enter(AcqSt::AcqOverrun, w.m)
        } else if s.same(w.m) {
            WaitState::enter(AcqSt::AcqCompleted, w.m)
        } else if expect_report_flag_off(v) {
            WaitState::enter(AcqSt::TicketStandby, w.m)
        } else {
            w
        };
        WaitTurn { next, looked: Some(l), asked: None, tried: None, trial: None }
    }

    pub fn passive_prepare_(&self, w: WaitState<C::Word>) -> (r: WaitTurn<C::Word>)
        requires
            w.a is PassivePrepare,
            w.wf(),
        ensures
            turn(w, r, self.c.verdict(), self.source()),
        opens_invariants [ state::move_name(TicketMove::MoveUp(0)) ]
    {
        let (looked, guess) = match w.v {
            Some(g) => (None, g),
            None => {
                let l = self.s.as_cell().value();
                let g = l.word();
                (Some(l), g)
            },
        };
        let trial = self.s.as_cell().try_once(guess, TicketStep::MoveUp(w.m));
        let seen = trial.word();
        let (_, t) = split_service_and_ticket(seen);
        proof {
            t.lemma_word();
        }
        let next = match trial.outcome() {
            TrialEnd::Succ => WaitState::enter(AcqSt::PassiveSubmit, t),
            TrialEnd::Unexpected => WaitState::enter(AcqSt::ReportStandby, t),
            TrialEnd::Fail => WaitState { v: Some(seen), ..w },
        };
        WaitTurn { next, looked, asked: None, tried: None, trial: Some(trial) }
    }

    pub fn passive_submit_(&self, w: WaitState<C::Word>) -> (r: WaitTurn<C::Word>)
        requires
            w.a is PassiveSubmit,
        ensures
            turn(w, r, self.c.verdict(), self.source()),
        opens_invariants none
    {
        let l = self.s.as_cell().value();
        let (_, tkt) = split_service_and_ticket(l.word());
        let next = if w.i >= REPORT_MAX_CHK {
            WaitState::enter(AcqSt::ReportFlagRst, w.m)
        } else if w.m.less(tkt) {
            WaitState::enter(AcqSt::ReportStandby, w.m)
        } else if tkt.same(w.m) {
            WaitState { i: w.i + 1, ..w }
        } else {
            w
        };
        WaitTurn { next, looked: Some(l), asked: None, tried: None, trial: None }
    }

    pub fn report_flagrst_(&self, w: WaitState<C::Word>) -> (r: WaitTurn<C::Word>)
        requires
            w.a is ReportFlagRst,
        ensures
            turn(w, r, self.c.verdict(), self.source()),
        opens_invariants [
            cell::name_if(
                self.c.verdict() != Some(true),
                state::move_name(TicketMove::ReportOff),
            ),
            cell::name_if(
                self.c.verdict() != Some(false),
                state::move_name(TicketMove::SkipReportOff(0)),
            ),
        ]
    {
        let c = self.c.is_cancelled();
        // Another task may have turned the flag off before: then there is
        // nothing left to do.
        let (next, tried) = if c {
            let a = self.s.as_cell().try_spin(TicketStep::SkipReportOff(w.m));
            (WaitState::enter(AcqSt::AcqCancelled, w.m), a)
        } else {
            let a = self.s.as_cell().try_spin(TicketStep::ReportOff);
            (WaitState::enter(AcqSt::TicketStandby, w.m), a)
        };
        WaitTurn { next, looked: None, asked: Some(c), tried: Some(tried), trial: None }
    }

    /// The next turn of the task.
    pub fn take_turn_(&self, w: WaitState<C::Word>) -> (r: WaitTurn<C::Word>)
        requires
            w.wf(),
            w.waiting(),
        ensures
            turn(w, r, self.c.verdict(), self.source()),
        opens_invariants [
            cell::name_if(
                w.a is TicketStandby && w.m.val() == 1,
                state::move_name(TicketMove::ServeFirst),
            ),
            cell::name_if(w.a is ProactPrepare, state::move_name(TicketMove::GiveUp(0))),
            cell::name_if(w.a is PassivePrepare, state::move_name(TicketMove::MoveUp(0))),
            cell::name_if(
                w.a is ReportFlagRst && self.c.verdict() != Some(true),
                state::move_name(TicketMove::ReportOff),
            ),
            cell::name_if(
                w.a is ReportFlagRst && self.c.verdict() != Some(false),
                state::move_name(TicketMove::SkipReportOff(0)),
            ),
        ]
    {
        match w.a {
            AcqSt::TicketStandby => self.ticket_standby_(w),
            AcqSt::ProactPrepare => self.proact_prepare_(w),
            AcqSt::ProactSubmit => self.proact_submit_(w),
            AcqSt::ReportStandby => self.report_standby_(w),
            AcqSt::PassivePrepare => self.passive_prepare_(w),
            AcqSt::PassiveSubmit => self.passive_submit_(w),
            _ => self.report_flagrst_(w),
        }
    }

    /// Waits for the number of the task to be served, from the state `w` on, in
    /// at most `turns` turns. The number comes back that the task holds the
    /// lock with.
    pub fn spin_wait(&self, w: WaitState<C::Word>, turns: usize) -> (r: Result<
        C::Word,
        WaitEnd<C::Word>,
    >)
        requires
            w.wf(),
            w.waiting(),
        ensures
            waited(self.source(), w, self.c.verdict(), turns, r),
            r matches Ok(m) ==> m.val() <= state::half_max(C::Word::bits()),
            r matches Err(WaitEnd::Pending(u)) ==> u.wf() && u.waiting(),
            self.c.verdict() == Some(false) && w.staying() ==> (r matches Err(
                WaitEnd::Pending(u),
            ) ==> u.staying()),
            self.c.verdict() == Some(false) && w.staying() ==> !(r matches Err(WaitEnd::Cancelled)),
        opens_invariants [
            cell::no_step(),
            cell::name_if(turns > 0, state::move_name(TicketMove::ServeFirst)),
            cell::name_if(
                turns > 0 && !(self.c.verdict() == Some(false) && w.staying()),
                state::move_name(TicketMove::GiveUp(0)),
            ),
            cell::name_if(turns > 0, state::move_name(TicketMove::MoveUp(0))),
            cell::name_if(
                turns > 0 && self.c.verdict() != Some(true),
                state::move_name(TicketMove::ReportOff),
            ),
            cell::name_if(
                turns > 0 && self.c.verdict() != Some(false),
                state::move_name(TicketMove::SkipReportOff(0)),
            ),
        ]
    {
        let mut u = w;
        let mut done: usize = 0;
        while done < turns && u.is_waiting()
            invariant
                done <= turns,
                turns_lead(w, u, done as nat, self.c.verdict(), self.source()),
                u.wf(),
                self.c.verdict() == Some(false) && w.staying() ==> u.staying(),
            ensures
                done == turns || !u.waiting(),
            decreases turns - done,
        {
            let t = self.take_turn_(u);
            proof {
                lemma_turn(u, t, self.c.verdict(), self.source());
                lemma_one_more_turn(w, u, t, done as nat, self.c.verdict(), self.source());
            }
            u = t.next;
            done = done + 1;
        }
        match u.a {
            AcqSt::AcqCompleted => Ok(u.m),
            AcqSt::AcqCancelled => Err(WaitEnd::Cancelled),
            AcqSt::AcqOverrun => Err(WaitEnd::Overrun),
            _ => Err(WaitEnd::Pending(u)),
        }
    }
}

/// What a task in the state `u` comes back with.
pub open spec fn wait_result<D: StateWord>(u: WaitState<D>) -> Result<D, WaitEnd<D>> {
    match u.a {
        AcqSt::AcqCompleted => Ok(u.m),
        AcqSt::AcqCancelled => Err(WaitEnd::Cancelled),
        AcqSt::AcqOverrun => Err(WaitEnd::Overrun),
        _ => Err(WaitEnd::Pending(u)),
    }
}

/// Whether a task that waits as `w` can come to `r` in at most `turns` turns: it
/// takes turns for as long as it waits and has any left.
pub open spec fn waited<D: StateWord>(
    source: Source,
    w: WaitState<D>,
    verdict: Option<bool>,
    turns: usize,
    r: Result<D, WaitEnd<D>>,
) -> bool {
    exists|u: WaitState<D>, n: nat|
        {
            &&& n <= turns
            &&& #[trigger] turns_lead(w, u, n, verdict, source)
            &&& u.waiting() ==> n == turns
            &&& r == wait_result(u)
        }
}

/// A turn keeps the number of the task one that can be drawn, and a task whose
/// token is never cancelled does not begin to give up.
pub proof fn lemma_turn<D: StateWord>(
    w: WaitState<D>,
    t: WaitTurn<D>,
    verdict: Option<bool>,
    source: Source,
)
    requires
        w.wf(),
        turn(w, t, verdict, source),
    ensures
        t.next.wf(),
        verdict == Some(false) && w.staying() ==> t.next.staying(),
{
    D::lemma_width();
    if w.a is PassivePrepare {
        let seen = t.trial->0.seen();
        seen.lemma_word();
        state::lemma_half(D::bits());
        state::lemma_fields(seen.val(), D::bits());
        vstd::arithmetic::power2::lemma_pow2_strictly_increases(
            state::half(D::bits()),
            D::bits(),
        );
        D::lemma_of(state::ticket_view(seen).ticket);
    }
}

/// One turn more.
proof fn lemma_one_more_turn<D: StateWord>(
    w: WaitState<D>,
    u: WaitState<D>,
    t: WaitTurn<D>,
    n: nat,
    verdict: Option<bool>,
    source: Source,
)
    requires
        turns_lead(w, u, n, verdict, source),
        turn(u, t, verdict, source),
    ensures
        turns_lead(w, t.next, n + 1, verdict, source),
{
    assert(turns_lead(w, u, ((n + 1) - 1) as nat, verdict, source));
}

/// A task holds the lock only where it has seen its number served: the turn
/// before it was done was a look at a word that serves the number that it came
/// back with.
pub proof fn law_completed_when_served<D: StateWord>(
    w: WaitState<D>,
    t: WaitTurn<D>,
    verdict: Option<bool>,
    source: Source,
)
    requires
        turn(w, t, verdict, source),
        t.next.a is AcqCompleted,
    ensures
        t.looked matches Some(l) && state::ticket_view(l.seen()).service == t.next.m.val(),
        t.next.m == w.m,
{
}

/// The number of a task changes only where it is to move up: then it is the
/// number in the word that the exchange was tried from. Where the task has moved
/// up, that is less than its own, and where it need not, it is not, unless the
/// report flag was off.
pub proof fn law_number_changes_where_it_is_to_move_up<D: StateWord>(
    w: WaitState<D>,
    t: WaitTurn<D>,
    verdict: Option<bool>,
    source: Source,
)
    requires
        w.wf(),
        turn(w, t, verdict, source),
        t.next.m != w.m,
    ensures
        w.a is PassivePrepare,
        t.trial matches Some(x) && {
            let f = state::ticket_view(x.guess());
            &&& !(x.end() is Fail)
            &&& t.next.m.val() == f.ticket
            &&& x.end() is Succ ==> f.report && t.next.m.val() < w.m.val()
            &&& x.end() is Unexpected && f.report ==> t.next.m.val() > w.m.val()
        },
{
    D::lemma_width();
    let seen = t.trial->0.seen();
    seen.lemma_word();
    state::lemma_half(D::bits());
    state::lemma_fields(seen.val(), D::bits());
    vstd::arithmetic::power2::lemma_pow2_strictly_increases(state::half(D::bits()), D::bits());
    D::lemma_of(state::ticket_view(seen).ticket);
    w.m.lemma_word();
}

/// The word with the lowest bit set stands for one.
proof fn lemma_one<D: StateWord>()
    ensures
        0 < D::bits(),
        vstd::arithmetic::power2::pow2(0) == 1,
{
    D::lemma_width();
    vstd::arithmetic::power2::lemma2_to64();
}

} // verus!
