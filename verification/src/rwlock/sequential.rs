//! Links by which waiting tasks form a line.
//!
//! A task's link holds the address of the link before it and that of the link
//! behind it, zero where there is none. Whoever changes a link locks it first,
//! by putting [`guard_`] where the address of the link before it was.

use vstd::prelude::*;

use crate::cell;
use crate::cell::{Attempt, Loaded, Source, Step, Trial, TrialEnd, WordCell};
use crate::word::StateWord;

verus! {

/// What is in the place of the address before a link while the link is locked.
pub fn guard_() -> (r: usize)
    ensures
        r == usize::MAX,
    opens_invariants none
{
    usize::MAX
}

/// A change of an address.
#[derive(Clone, Copy, Debug, PartialEq, Eq, Structural)]
pub enum LinkStep {
    /// The link is locked, if this is the address.
    Lock(usize),
    /// This becomes the address.
    Put(usize),
}

/// The name of a change, whatever the address in it.
pub open spec fn link_name(step: LinkStep) -> int {
    match step {
        LinkStep::Lock(_) => 1,
        LinkStep::Put(_) => 2,
    }
}

impl Step<usize> for LinkStep {
    open spec fn valid(self) -> bool {
        true
    }

    open spec fn enabled(self, v: nat) -> bool {
        self matches LinkStep::Lock(from) ==> v == from
    }

    open spec fn name(self) -> int {
        link_name(self)
    }

    open spec fn next(self, v: nat) -> nat {
        match self {
            LinkStep::Lock(_) => usize::MAX as nat,
            LinkStep::Put(to) => to as nat,
        }
    }

    fn expect(self, word: usize) -> (r: bool) {
        match self {
            LinkStep::Lock(from) => word == from,
            LinkStep::Put(_) => true,
        }
    }

    fn desire(self, word: usize) -> (r: usize) {
        match self {
            LinkStep::Lock(_) => guard_(),
            LinkStep::Put(to) => to,
        }
    }
}

/// The address that is tried next to lock a link, after `seen` came back where
/// `guess` was tried. The address of a locked link is not one to try.
pub fn next_guess(guess: usize, seen: usize) -> (r: usize)
    ensures
        r == (if seen != usize::MAX {
            seen
        } else {
            guess
        }),
    opens_invariants none
{
    if seen != guard_() {
        seen
    } else {
        guess
    }
}

/// The link of a task.
pub struct AcqLink<C: WordCell<Word = usize>> {
    /// Where the link before is. It also locks the link.
    prev_: C,
    /// Where the link behind is.
    next_: C,
}

/// What was done to come behind a link.
pub struct Follow {
    /// The exchange that locked the link, if one did.
    pub locked: Option<Trial<usize, LinkStep>>,
    /// The look at what is behind the link, once it was locked.
    pub looked: Option<Loaded<usize>>,
    /// The exchange that unlocked the link again.
    pub unlocked: Option<Attempt<usize, LinkStep>>,
    /// The exchange by which the task comes behind the link.
    pub behind: Option<Attempt<usize, LinkStep>>,
    /// The exchange by which the link comes before the task's own.
    pub before: Option<Attempt<usize, LinkStep>>,
    pub end: FollowEnd,
}

/// What a task comes back with that was to come behind a link.
#[derive(Clone, Copy, Debug, PartialEq, Eq, Structural)]
pub enum FollowEnd {
    /// It is behind the link. This is what is before the link.
    Followed(usize),
    /// Another is behind the link: this one.
    Taken(usize),
    /// The turns have run out. This is the address to try next.
    Pending(usize),
}

impl Follow {
    /// Whether the exchanges were made at these places of the two links: the
    /// link that is followed is locked and unlocked at `other_prev`, what is
    /// behind it is looked at and put at `other_next`, and what is before the
    /// task's own link is put at `own_prev`.
    pub open spec fn on(self, own_prev: Source, other_prev: Source, other_next: Source) -> bool {
        &&& self.locked matches Some(t) ==> t.source() == other_prev
        &&& self.unlocked matches Some(a) ==> a.source() == other_prev
        &&& self.looked matches Some(l) ==> l.source() == other_next
        &&& self.behind matches Some(a) ==> a.source() == other_next
        &&& self.before matches Some(a) ==> a.source() == own_prev
    }

    /// Whether this is what a task with its link at `own` does to come behind
    /// the link at `followed`: it locks the link; it unlocks it again with the
    /// address that it found; and where nothing is behind the link, it comes
    /// there.
    pub open spec fn holds(self, own: usize, followed: usize) -> bool {
        match self.locked {
            None => {
                &&& self.looked is None && self.unlocked is None
                &&& self.behind is None && self.before is None
                &&& self.end is Pending
            },
            Some(t) => {
                let at = t.guess();
                &&& cell::trial_holds(t, at, LinkStep::Lock(at))
                &&& t.end() is Succ
                &&& self.unlocked matches Some(a) && cell::attempt_holds(a, LinkStep::Put(at))
                &&& self.looked matches Some(l) && {
                    &&& self.behind is Some <==> l.seen() == 0
                    &&& self.before is Some <==> l.seen() == 0
                    &&& self.behind matches Some(a) ==> cell::attempt_holds(
                        a,
                        LinkStep::Put(own),
                    )
                    &&& self.before matches Some(a) ==> cell::attempt_holds(
                        a,
                        LinkStep::Put(followed),
                    )
                    &&& self.end == (if l.seen() == 0 {
                        FollowEnd::Followed(at)
                    } else {
                        FollowEnd::Taken(l.seen())
                    })
                }
            },
        }
    }
}

/// The address that is tried to lock a link after these trials, the first of
/// which was from `guess`.
pub open spec fn guess_after(guess: usize, ts: Seq<Trial<usize, LinkStep>>) -> usize
    decreases ts.len(),
{
    if ts.len() == 0 {
        guess
    } else if ts.last().seen() != usize::MAX {
        ts.last().seen()
    } else {
        guess_after(guess, ts.drop_last())
    }
}

/// Whether these are trials to lock the link with this place, one after the
/// other and the first from `guess`, none of which did.
pub open spec fn not_locked(source: Source, guess: usize, ts: Seq<Trial<usize, LinkStep>>) -> bool
    decreases ts.len(),
{
    ts.len() > 0 ==> {
        let at = guess_after(guess, ts.drop_last());
        &&& not_locked(source, guess, ts.drop_last())
        &&& cell::trial_on(ts.last(), source, at, LinkStep::Lock(at))
        &&& !(ts.last().end() is Succ)
    }
}

impl<C: WordCell<Word = usize>> AcqLink<C> {
    pub closed spec fn prev(self) -> C {
        self.prev_
    }

    pub closed spec fn next(self) -> C {
        self.next_
    }

    /// A link whose addresses are in these cells. Zero in both is a link that
    /// is in no line.
    pub fn new(prev: C, next: C) -> (r: Self)
        ensures
            r.prev() == prev,
            r.next() == next,
        opens_invariants none
    {
        AcqLink { prev_: prev, next_: next }
    }

    /// Tries to come behind the link `other`, which is at `followed`. The
    /// task's own link is at `own`. The link is locked in at most `turns`
    /// turns, from the address `guess` on, which is zero to begin with.
    pub fn try_follow(
        &self,
        own: usize,
        other: &Self,
        followed: usize,
        guess: usize,
        turns: usize,
    ) -> (r: Follow)
        ensures
            r.holds(own, followed),
            r.on(self.prev().source(), other.prev().source(), other.next().source()),
            exists|ts: Seq<Trial<usize, LinkStep>>| #[trigger]
                not_locked(other.prev().source(), guess, ts) && match r.locked {
                    Some(t) => ts.len() < turns && t.guess() == guess_after(guess, ts),
                    None => ts.len() == turns && r.end == FollowEnd::Pending(
                        guess_after(guess, ts),
                    ),
                },
        opens_invariants [ link_name(LinkStep::Lock(0)), link_name(LinkStep::Put(0)) ]
    {
        let ghost mut ts: Seq<Trial<usize, LinkStep>> = Seq::empty();
        let mut at: usize = guess;
        let mut left: usize = turns;
        while left > 0
            invariant
                left <= turns,
                ts.len() == turns - left,
                not_locked(other.prev().source(), guess, ts),
                at == guess_after(guess, ts),
            decreases left,
        {
            left = left - 1;
            let t = other.prev_.try_once(at, LinkStep::Lock(at));
            match t.outcome() {
                TrialEnd::Succ => {
                    return self.follow_locked_(own, other, followed, t);
                },
                _ => {
                    at = next_guess(at, t.word());
                    proof {
                        assert(ts.push(t).drop_last() =~= ts);
                        ts = ts.push(t);
                    }
                },
            }
        }
        Follow {
            locked: None,
            looked: None,
            unlocked: None,
            behind: None,
            before: None,
            end: FollowEnd::Pending(at),
        }
    }

    fn follow_locked_(
        &self,
        own: usize,
        other: &Self,
        followed: usize,
        locked: Trial<usize, LinkStep>,
    ) -> (r: Follow)
        requires
            cell::trial_holds(locked, locked.guess(), LinkStep::Lock(locked.guess())),
            locked.end() is Succ,
            locked.source() == other.prev().source(),
        ensures
            r.holds(own, followed),
            r.on(self.prev().source(), other.prev().source(), other.next().source()),
            r.locked == Some(locked),
        opens_invariants [ link_name(LinkStep::Put(0)) ]
    {
        let at: usize = locked.word();
        let looked = other.next_.value();
        let behind_it: usize = looked.word();
        let unlocked = other.prev_.try_spin(LinkStep::Put(at));
        if behind_it != 0 {
            return Follow {
                locked: Some(locked),
                looked: Some(looked),
                unlocked: Some(unlocked),
                behind: None,
                before: None,
                end: FollowEnd::Taken(behind_it),
            };
        }
        let behind = other.next_.try_spin(LinkStep::Put(own));
        let before = self.prev_.try_spin(LinkStep::Put(followed));
        Follow {
            locked: Some(locked),
            looked: Some(looked),
            unlocked: Some(unlocked),
            behind: Some(behind),
            before: Some(before),
            end: FollowEnd::Followed(at),
        }
    }
}

/// What a task does to come behind a link. It locks the link over the address that
/// was there, and puts that address back, so that the link is before the same
/// link as ever. Where nothing is behind the link, and only there, the link then
/// has the task's own behind it, and that has the link before it; otherwise it
/// learns what is behind the link, and changes nothing.
pub proof fn law_following_changes_two_addresses(r: Follow, own: usize, followed: usize)
    requires
        r.holds(own, followed),
    ensures
        !(r.end is Pending) ==> {
            &&& r.locked is Some && r.looked is Some && r.unlocked is Some
            &&& r.locked->0.end() is Succ
            &&& r.locked->0.step().next(r.locked->0.seen().val()) == usize::MAX
            &&& r.unlocked->0.swapped()
            &&& r.unlocked->0.step().next(r.unlocked->0.seen().val()) == r.locked->0.seen()
        },
        r.end matches FollowEnd::Followed(prev) ==> {
            &&& prev == r.locked->0.seen()
            &&& r.looked->0.seen() == 0
            &&& r.behind matches Some(a) && a.swapped() && a.step().next(a.seen().val()) == own
            &&& r.before matches Some(a) && a.swapped() && a.step().next(a.seen().val())
                == followed
        },
        r.end matches FollowEnd::Taken(next) ==> {
            &&& next == r.looked->0.seen() && next != 0
            &&& r.behind is None && r.before is None
        },
        r.end is Pending ==> {
            &&& r.locked is None && r.looked is None && r.unlocked is None
            &&& r.behind is None && r.before is None
        },
{
}

/// Only an exchange that locks a link can be refused, and it swaps just the
/// address that it was tried from.
pub proof fn law_link_steps(step: LinkStep, v: usize)
    ensures
        step matches LinkStep::Lock(from) ==> (step.enabled(v.val()) <==> v == from),
        step is Put ==> step.enabled(v.val()),
        link_name(step) == link_name(LinkStep::Lock(0)) <==> step is Lock,
        link_name(step) == link_name(LinkStep::Put(0)) <==> step is Put,
{
}

} // verus!
