//! A lock that lives in one bit of a word which holds something else as well.
//!
//! Which bit that is, and how it is set, a [`TrMutexSignal`] says. The lock has
//! no data of its own: a [`MutexGuard`] stands for the right to what the lock
//! protects.

use core::marker::PhantomData;

use vstd::arithmetic::power2::*;
use vstd::prelude::*;

use crate::cancel::{NonCancellableToken, TrCancellationToken};
use crate::cell;
use crate::cell::{Attempt, Loaded, Source, Step, Trial, TrialEnd, WordCell};
use crate::word;
use crate::word::StateWord;

verus! {

/// How a value tells whether a lock is acquired.
pub trait TrMutexSignal<V: Copy> {
    /// Whether the value is that of an acquired lock.
    spec fn held(val: V) -> bool;

    /// Whether [`TrMutexSignal::make_acquired`] takes the value.
    spec fn can_acquire(val: V) -> bool;

    /// Whether [`TrMutexSignal::make_released`] takes the value.
    spec fn can_release(val: V) -> bool;

    spec fn acquired(val: V) -> V;

    spec fn released(val: V) -> V;

    /// The value of a released lock can be made that of an acquired one, and
    /// the other way round.
    proof fn lemma_signal(val: V)
        ensures
            !Self::held(val) ==> Self::can_acquire(val) && Self::held(Self::acquired(val)),
            Self::held(val) ==> Self::can_release(val) && !Self::held(Self::released(val)),
    ;

    fn is_acquired(val: V) -> (r: bool)
        ensures
            r == Self::held(val),
        opens_invariants none
    ;

    fn is_released(val: V) -> (r: bool)
        ensures
            r == !Self::held(val),
        opens_invariants none
    {
        !Self::is_acquired(val)
    }

    fn make_acquired(val: V) -> (r: V)
        requires
            Self::can_acquire(val),
        ensures
            r == Self::acquired(val),
        opens_invariants none
    ;

    fn make_released(val: V) -> (r: V)
        requires
            Self::can_release(val),
        ensures
            r == Self::released(val),
        opens_invariants none
    ;
}

/// The topmost bit of a word is set while the lock is acquired.
#[derive(Debug)]
pub struct MsbAsMutexSignal<V: StateWord>(PhantomData<V>);

/// The place of the topmost bit of a word.
pub open spec fn msb<V: StateWord>() -> nat {
    (V::bits() - 1) as nat
}

impl<V: StateWord> MsbAsMutexSignal<V> {
    /// The word with the topmost bit set and no other.
    #[allow(non_snake_case)]
    pub fn K_MSB_FLAG() -> (r: V)
        ensures
            r.val() == pow2(msb::<V>()),
        opens_invariants none
    {
        V::single(V::width() - 1)
    }
}

impl<V: StateWord> TrMutexSignal<V> for MsbAsMutexSignal<V> {
    open spec fn held(val: V) -> bool {
        word::bit_at(val.val(), msb::<V>())
    }

    open spec fn can_acquire(val: V) -> bool {
        true
    }

    open spec fn can_release(val: V) -> bool {
        true
    }

    open spec fn acquired(val: V) -> V {
        V::of(word::with_bit_at(val.val(), msb::<V>()))
    }

    open spec fn released(val: V) -> V {
        V::of(word::without_bit_at(val.val(), msb::<V>()))
    }

    proof fn lemma_signal(val: V) {
        lemma_msb(val);
        let on = Self::acquired(val);
        lemma_msb(on);
    }

    fn is_acquired(val: V) -> (r: bool) {
        val.bit(V::width() - 1)
    }

    fn make_acquired(val: V) -> (r: V) {
        let r = val.with_bit(V::width() - 1);
        proof {
            r.lemma_word();
        }
        r
    }

    fn make_released(val: V) -> (r: V) {
        let r = val.without_bit(V::width() - 1);
        proof {
            r.lemma_word();
        }
        r
    }
}

/// What setting and clearing the topmost bit comes to.
proof fn lemma_msb<V: StateWord>(val: V)
    ensures
        ({
            let v = val.val();
            let on = word::with_bit_at(v, msb::<V>());
            let off = word::without_bit_at(v, msb::<V>());
            &&& V::of(v) == val
            &&& V::of(on).val() == on && word::bit_at(on, msb::<V>())
            &&& V::of(off).val() == off && !word::bit_at(off, msb::<V>())
            &&& !word::bit_at(v, msb::<V>()) ==> word::without_bit_at(on, msb::<V>()) == v
        }),
{
    let v = val.val();
    let m = pow2(msb::<V>());
    V::lemma_width();
    val.lemma_word();
    lemma2_to64();
    assert(msb::<V>() + 1 == V::bits());
    crate::fields::lemma_top_bits(v, msb::<V>());
    crate::fields::lemma_top_bound(v, msb::<V>(), 1);
    if word::bit_at(v, msb::<V>()) {
        crate::fields::lemma_change(v, m, -1, 0);
    } else {
        crate::fields::lemma_change(v, m, 1, 0);
        assert(v / m == 0);
        vstd::arithmetic::mul::lemma_mul_basics(m as int);
    }
    V::lemma_of(word::with_bit_at(v, msb::<V>()));
    V::lemma_of(word::without_bit_at(v, msb::<V>()));
}

/// The address of a value with an even alignment is made odd while the lock
/// is acquired. The address is that of a `T`.
#[derive(Debug)]
pub struct PtrAsMutexSignal<T: Sized>(PhantomData<T>);

/// What an address is divided by to tell whether the lock is acquired.
pub const K_MOD: usize = 2;

/// The remainder of the address of an acquired lock.
pub const K_RES: usize = 1;

impl<T: Sized> TrMutexSignal<usize> for PtrAsMutexSignal<T> {
    open spec fn held(val: usize) -> bool {
        val % K_MOD == K_RES
    }

    open spec fn can_acquire(val: usize) -> bool {
        val < usize::MAX
    }

    open spec fn can_release(val: usize) -> bool {
        0 < val
    }

    open spec fn acquired(val: usize) -> usize {
        (val + K_RES) as usize
    }

    open spec fn released(val: usize) -> usize {
        (val - K_RES) as usize
    }

    proof fn lemma_signal(val: usize) {
    }

    fn is_acquired(val: usize) -> (r: bool) {
        val % K_MOD == K_RES
    }

    fn make_acquired(val: usize) -> (r: usize) {
        val + K_RES
    }

    fn make_released(val: usize) -> (r: usize) {
        val - K_RES
    }
}

/// The step by which a lock is acquired or released.
pub struct SignalStep<S> {
    acquire: bool,
    signal: PhantomData<S>,
}

impl<S> Clone for SignalStep<S> {
    fn clone(&self) -> (r: Self)
        ensures
            r == *self,
    {
        *self
    }
}

impl<S> Copy for SignalStep<S> {

}

impl<S> SignalStep<S> {
    /// Whether the step acquires the lock rather than releasing it.
    pub closed spec fn acquires(self) -> bool {
        self.acquire
    }

    pub fn acquire() -> (r: Self)
        ensures
            r.acquires(),
        opens_invariants none
    {
        SignalStep { acquire: true, signal: PhantomData }
    }

    pub fn release() -> (r: Self)
        ensures
            !r.acquires(),
        opens_invariants [ signal_name(false) ]
    {
        SignalStep { acquire: false, signal: PhantomData }
    }
}

/// The name of the step that acquires the lock, or of the one that releases it.
pub open spec fn signal_name(acquires: bool) -> int {
    if acquires {
        1
    } else {
        2
    }
}

impl<D: StateWord, S: TrMutexSignal<D>> Step<D> for SignalStep<S> {
    open spec fn valid(self) -> bool {
        true
    }

    open spec fn enabled(self, v: nat) -> bool {
        S::held(D::of(v)) == !self.acquires()
    }

    open spec fn name(self) -> int {
        signal_name(self.acquires())
    }

    open spec fn next(self, v: nat) -> nat {
        if self.acquires() {
            S::acquired(D::of(v)).val()
        } else {
            S::released(D::of(v)).val()
        }
    }

    fn expect(self, word: D) -> (r: bool) {
        proof {
            word.lemma_word();
        }
        if self.acquire {
            S::is_released(word)
        } else {
            S::is_acquired(word)
        }
    }

    fn desire(self, word: D) -> (r: D) {
        proof {
            word.lemma_word();
            S::lemma_signal(word);
        }
        if self.acquire {
            S::make_acquired(word)
        } else {
            S::make_released(word)
        }
    }
}

/// A configurable spinlock, for use inside of other structures.
pub struct SpinningMutex<C: WordCell, S: TrMutexSignal<C::Word>> {
    state_: C,
    signal: PhantomData<S>,
}

/// The right to what the lock protects, with the exchange that won it.
pub struct MutexGuard<'a, C: WordCell, S: TrMutexSignal<C::Word>> {
    mutex_: &'a SpinningMutex<C, S>,
    won_: Ghost<Trial<C::Word, SignalStep<S>>>,
}

/// Whether the exchange acquired the lock: it swapped the word of a released
/// lock for that of an acquired one.
pub open spec fn wins<D: StateWord, S: TrMutexSignal<D>>(t: Trial<D, SignalStep<S>>) -> bool {
    &&& t.step().acquires()
    &&& t.end() is Succ
    &&& t.seen() == t.guess()
    &&& !S::held(t.guess())
}

/// Why a task did not get the lock.
#[derive(Clone, Copy, Debug, PartialEq, Eq)]
pub enum NoGuard<D> {
    /// The token was cancelled.
    Cancelled,
    /// The turns have run out. The word is the one to go on from.
    Pending(D),
}

/// Whether the exchange is one by which a task tries to acquire the lock, from
/// the word `guess`.
pub open spec fn tries<D: StateWord, S: TrMutexSignal<D>>(
    t: Trial<D, SignalStep<S>>,
    source: Source,
    guess: D,
) -> bool {
    t.step().acquires() && cell::trial_on(t, source, guess, t.step())
}

/// The word that is tried after the first `i` turns of a task that began with
/// the word `first`: the one that came back from the turn before. A turn that
/// finds the word not to be that of a released lock hands the same word back.
pub open spec fn guess_at<D: StateWord, S: TrMutexSignal<D>>(
    first: D,
    ts: Seq<Trial<D, SignalStep<S>>>,
    i: int,
) -> D {
    if i <= 0 {
        first
    } else {
        ts[i - 1].seen()
    }
}

/// Whether these are turns in vain, one after the other, of a task that began
/// with the word `first`.
pub open spec fn all_in_vain<D: StateWord, S: TrMutexSignal<D>>(
    source: Source,
    first: D,
    ts: Seq<Trial<D, SignalStep<S>>>,
) -> bool {
    forall|i: int|
        0 <= i < ts.len() ==> tries(#[trigger] ts[i], source, guess_at(first, ts, i)) && !(
        ts[i].end() is Succ)
}

/// Whether a task that goes by the word `first`, and is to acquire the lock in
/// at most `turns` turns, comes to `r` after these turns in vain: the exchange
/// by which it did, or why it did not. It asks its token, which has the given
/// verdict, after every turn in vain, and only then.
pub open spec fn spun_after<D: StateWord, S: TrMutexSignal<D>>(
    source: Source,
    first: D,
    ts: Seq<Trial<D, SignalStep<S>>>,
    verdict: Option<bool>,
    turns: usize,
    r: Result<Trial<D, SignalStep<S>>, NoGuard<D>>,
) -> bool {
    let v = guess_at(first, ts, ts.len() as int);
    &&& all_in_vain(source, first, ts)
    &&& match r {
        Ok(t) => {
            &&& ts.len() < turns
            &&& ts.len() > 0 ==> verdict != Some(true)
            &&& tries(t, source, v)
            &&& wins(t)
        },
        Err(NoGuard::Cancelled) => {
            &&& 0 < ts.len() <= turns
            &&& verdict != Some(false)
            &&& ts.len() > 1 ==> verdict != Some(true)
        },
        Err(NoGuard::Pending(u)) => {
            &&& ts.len() == turns
            &&& turns > 0 ==> verdict != Some(true)
            &&& u == v
        },
    }
}

/// Whether the task can come to `r`.
pub open spec fn spun_from<D: StateWord, S: TrMutexSignal<D>>(
    source: Source,
    first: D,
    verdict: Option<bool>,
    turns: usize,
    r: Result<Trial<D, SignalStep<S>>, NoGuard<D>>,
) -> bool {
    exists|ts: Seq<Trial<D, SignalStep<S>>>| #[trigger]
        spun_after(source, first, ts, verdict, turns, r)
}

/// The same of a task that loads the word first, unless it goes by one.
pub open spec fn spun<D: StateWord, S: TrMutexSignal<D>>(
    source: Source,
    current: Option<D>,
    verdict: Option<bool>,
    turns: usize,
    r: Result<Trial<D, SignalStep<S>>, NoGuard<D>>,
) -> bool {
    match current {
        Some(first) => spun_from(source, first, verdict, turns, r),
        None => exists|l: Loaded<D>| #[trigger]
            l.source() == source && spun_from(source, l.seen(), verdict, turns, r),
    }
}

/// The exchange by which the lock was acquired, or why it was not.
pub open spec fn won_by<C: WordCell, S: TrMutexSignal<C::Word>>(
    r: Result<MutexGuard<'_, C, S>, NoGuard<C::Word>>,
) -> Result<Trial<C::Word, SignalStep<S>>, NoGuard<C::Word>> {
    match r {
        Ok(g) => Ok(g.won()),
        Err(e) => Err(e),
    }
}

/// The same of a task.
pub open spec fn won_by_task<C: WordCell, S: TrMutexSignal<C::Word>>(
    r: Result<MutexGuard<'_, C, S>, NotAcquired<'_, C, S>>,
) -> Result<Trial<C::Word, SignalStep<S>>, NoGuard<C::Word>> {
    match r {
        Ok(g) => Ok(g.won()),
        Err(NotAcquired::Cancelled) => Err(NoGuard::Cancelled),
        Err(NotAcquired::Pending(t)) => Err(NoGuard::Pending(t.current()->0)),
    }
}

impl<C: WordCell, S: TrMutexSignal<C::Word>> SpinningMutex<C, S> {
    /// The cell that holds the word.
    pub closed spec fn cell(self) -> C {
        self.state_
    }

    pub fn new(cell: C) -> (r: Self)
        ensures
            r.cell() == cell,
        opens_invariants none
    {
        SpinningMutex { state_: cell, signal: PhantomData }
    }

    pub fn into_inner(self) -> (r: C)
        ensures
            r == self.cell(),
        opens_invariants none
    {
        self.state_
    }

    /// The atomic that holds the word of the lock.
    pub open spec fn source(self) -> Source {
        self.cell().source()
    }

    /// Whether the word that was loaded is that of an acquired lock.
    pub fn is_acquired(&self) -> (r: bool)
        ensures
            exists|l: Loaded<C::Word>| #[trigger]
                l.source() == self.source() && r == S::held(l.seen()),
        opens_invariants none
    {
        let l = self.state_.value();
        S::is_acquired(l.word())
    }

    /// One exchange that acquires the lock, from the word `current`.
    pub fn acquire_turn_(&self, current: C::Word) -> (r: Trial<C::Word, SignalStep<S>>)
        ensures
            tries(r, self.source(), current),
        opens_invariants [ signal_name(true) ]
    {
        self.state_.try_once(current, SignalStep::acquire())
    }

    /// The guard of a task whose exchange ended like this.
    pub fn guard_of_(&self, trial: Trial<C::Word, SignalStep<S>>) -> (r: Option<
        MutexGuard<'_, C, S>,
    >)
        requires
            trial.source() == self.source(),
            trial.step().acquires(),
        ensures
            r is Some <==> trial.end() is Succ,
            r matches Some(g) ==> g.mutex() == self && g.won() == trial,
        opens_invariants none
    {
        match trial.outcome() {
            TrialEnd::Succ => Some(MutexGuard { mutex_: self, won_: Ghost(trial) }),
            _ => None,
        }
    }

    /// Attempts to acquire the lock by one exchange, from the word that is
    /// loaded. There is a guard only where that exchange acquired the lock.
    pub fn try_acquire(&self) -> (r: Option<MutexGuard<'_, C, S>>)
        ensures
            exists|l: Loaded<C::Word>, t: Trial<C::Word, SignalStep<S>>|
                {
                    &&& l.source() == self.source()
                    &&& #[trigger] tries(t, self.source(), l.seen())
                    &&& r is Some <==> t.end() is Succ
                    &&& r matches Some(g) ==> g.won() == t
                },
            r matches Some(g) ==> g.mutex() == self && wins(g.won()),
        opens_invariants [ signal_name(true) ]
    {
        let l = self.state_.value();
        let current = l.word();
        let trial = self.acquire_turn_(current);
        proof {
            current.lemma_word();
        }
        self.guard_of_(trial)
    }

    /// A task that is to acquire the lock.
    pub fn acquire(&self) -> (r: AcquireTask<'_, C, S>)
        ensures
            r.mutex() == self,
        opens_invariants none
    {
        AcquireTask { mutex_: self, current_: None }
    }

    /// Acquires the lock, from the word that is loaded first, in at most
    /// `turns` turns.
    pub fn try_spin_acquire_<K: TrCancellationToken>(&self, cancel: &K, turns: usize) -> (r: Result<
        MutexGuard<'_, C, S>,
        NoGuard<C::Word>,
    >)
        ensures
            spun(self.source(), None, cancel.verdict(), turns, won_by(r)),
            r matches Ok(g) ==> g.mutex() == self && wins(g.won()),
        opens_invariants [
            cell::name_if(turns > 0, signal_name(true)),
        ]
    {
        let l = self.state_.value();
        self.spin_from_(cancel, l.word(), turns)
    }

    /// Acquires the lock, from the word `current` on, in at most `turns` turns.
    /// The token is asked after every turn that gives no guard. The word changes
    /// only where an exchange failed: a task that goes by the word of an
    /// acquired lock keeps to it.
    pub fn spin_from_<K: TrCancellationToken>(
        &self,
        cancel: &K,
        current: C::Word,
        turns: usize,
    ) -> (r: Result<MutexGuard<'_, C, S>, NoGuard<C::Word>>)
        ensures
            spun_from(self.source(), current, cancel.verdict(), turns, won_by(r)),
            r matches Ok(g) ==> g.mutex() == self && wins(g.won()),
        opens_invariants [
            cell::name_if(turns > 0, signal_name(true)),
        ]
    {
        let mut v = current;
        let mut left: usize = turns;
        let ghost source = self.source();
        let ghost mut ts: Seq<Trial<C::Word, SignalStep<S>>> = Seq::empty();
        while left > 0
            invariant
                left <= turns,
                source == self.source(),
                ts.len() == turns - left,
                all_in_vain(source, current, ts),
                v == guess_at(current, ts, ts.len() as int),
                left < turns ==> cancel.verdict() != Some(true),
            decreases left,
        {
            left = left - 1;
            let trial = self.acquire_turn_(v);
            let ghost t = trial;
            let end = trial.outcome();
            let seen = trial.word();
            proof {
                v.lemma_word();
            }
            match self.guard_of_(trial) {
                Some(g) => {
                    assert(spun_after(source, current, ts, cancel.verdict(), turns, Ok(t)));
                    return Ok(g);
                },
                None => {},
            }
            match end {
                TrialEnd::Fail => {
                    v = seen;
                },
                _ => {},
            }
            proof {
                let before = ts;
                ts = ts.push(t);
                assert forall|i: int| 0 <= i < ts.len() implies tries(
                    #[trigger] ts[i],
                    source,
                    guess_at(current, ts, i),
                ) && !(ts[i].end() is Succ) by {
                    assert(guess_at(current, ts, i) == guess_at(current, before, i));
                    if i < before.len() {
                        assert(ts[i] == before[i]);
                    }
                }
                assert(all_in_vain(source, current, ts));
            }
            if cancel.is_cancelled() {
                let r = Err(NoGuard::Cancelled);
                assert(spun_after(source, current, ts, cancel.verdict(), turns, won_by(r)));
                return r;
            }
        }
        let r = Err(NoGuard::Pending(v));
        assert(spun_after(source, current, ts, cancel.verdict(), turns, won_by(r)));
        r
    }

    /// Releases the lock, if it is acquired.
    pub fn try_spin_release_(&self) -> (r: Attempt<C::Word, SignalStep<S>>)
        ensures
            !r.step().acquires(),
            cell::attempt_on(r, self.source(), r.step()),
        opens_invariants [ signal_name(false) ]
    {
        self.state_.try_spin(SignalStep::release())
    }
}

/// A task that acquires the lock.
pub struct AcquireTask<'a, C: WordCell, S: TrMutexSignal<C::Word>> {
    mutex_: &'a SpinningMutex<C, S>,
    current_: Option<C::Word>,
}

/// Why a task has no guard.
pub enum NotAcquired<'a, C: WordCell, S: TrMutexSignal<C::Word>> {
    /// The token was cancelled.
    Cancelled,
    /// The turns have run out. The task can go on from where it is.
    Pending(AcquireTask<'a, C, S>),
}

impl<'a, C: WordCell, S: TrMutexSignal<C::Word>> AcquireTask<'a, C, S> {
    pub closed spec fn mutex(self) -> &'a SpinningMutex<C, S> {
        self.mutex_
    }

    /// The word that the task goes by, once it has begun to wait.
    pub closed spec fn current(self) -> Option<C::Word> {
        self.current_
    }

    pub fn word(&self) -> (r: Option<C::Word>)
        ensures
            r == self.current(),
        opens_invariants none
    {
        self.current_
    }

    /// Tries to acquire the lock, in at most `turns` turns, until the token is
    /// cancelled.
    pub fn may_cancel_with<K: TrCancellationToken>(self, cancel: &K, turns: usize) -> (r: Result<
        MutexGuard<'a, C, S>,
        NotAcquired<'a, C, S>,
    >)
        ensures
            spun(
                self.mutex().source(),
                self.current(),
                cancel.verdict(),
                turns,
                won_by_task(r),
            ),
            r matches Ok(g) ==> g.mutex() == self.mutex() && wins(g.won()),
            r matches Err(NotAcquired::Pending(t)) ==> t.mutex() == self.mutex()
                && t.current() is Some,
        opens_invariants [
            cell::name_if(turns > 0, signal_name(true)),
        ]
    {
        let r = match self.current_ {
            Some(v) => self.mutex_.spin_from_(cancel, v, turns),
            None => self.mutex_.try_spin_acquire_(cancel, turns),
        };
        match r {
            Ok(g) => Ok(g),
            Err(NoGuard::Cancelled) => Err(NotAcquired::Cancelled),
            Err(NoGuard::Pending(v)) => Err(
                NotAcquired::Pending(AcquireTask { mutex_: self.mutex_, current_: Some(v) }),
            ),
        }
    }

    /// Tries to acquire the lock, in at most `turns` turns: the guard, or the
    /// task as it goes on.
    pub fn wait(self, turns: usize) -> (r: Result<MutexGuard<'a, C, S>, NotAcquired<'a, C, S>>)
        ensures
            spun(self.mutex().source(), self.current(), Some(false), turns, won_by_task(r)),
            r matches Ok(g) ==> g.mutex() == self.mutex() && wins(g.won()),
            r matches Err(e) ==> e is Pending,
            r matches Err(NotAcquired::Pending(t)) ==> t.mutex() == self.mutex()
                && t.current() is Some,
        opens_invariants [
            cell::name_if(turns > 0, signal_name(true)),
        ]
    {
        self.may_cancel_with(&NonCancellableToken, turns)
    }
}

impl<'a, C: WordCell, S: TrMutexSignal<C::Word>> MutexGuard<'a, C, S> {
    pub closed spec fn mutex(self) -> &'a SpinningMutex<C, S> {
        self.mutex_
    }

    /// The exchange that won the lock.
    pub closed spec fn won(self) -> Trial<C::Word, SignalStep<S>> {
        self.won_@
    }

    /// Gives the lock back.
    pub fn release(self) -> (r: Attempt<C::Word, SignalStep<S>>)
        ensures
            !r.step().acquires(),
            cell::attempt_on(r, self.mutex().source(), r.step()),
        opens_invariants [ signal_name(false) ]
    {
        self.mutex_.try_spin_release_()
    }
}

/// An exchange by which a task tries to acquire the lock is refused just at the
/// word of an acquired lock, and hands that word back.
pub proof fn law_refused_only_while_acquired<D: StateWord, S: TrMutexSignal<D>>(
    t: Trial<D, SignalStep<S>>,
    source: Source,
    guess: D,
)
    requires
        tries(t, source, guess),
    ensures
        t.end() is Unexpected <==> S::held(guess),
        t.end() is Unexpected ==> t.seen() == guess,
        t.end() is Succ ==> wins(t),
{
    guess.lemma_word();
}

/// A task that goes by the word of an acquired lock does not get the lock,
/// however many turns it takes: it goes by that word until it is cancelled.
pub proof fn law_word_of_acquired_lock_is_kept<D: StateWord, S: TrMutexSignal<D>>(
    source: Source,
    first: D,
    verdict: Option<bool>,
    turns: usize,
    r: Result<Trial<D, SignalStep<S>>, NoGuard<D>>,
)
    requires
        spun_from(source, first, verdict, turns, r),
        S::held(first),
    ensures
        r is Err,
        r matches Err(NoGuard::Pending(v)) ==> v == first,
{
    let ts = choose|ts: Seq<Trial<D, SignalStep<S>>>| #[trigger]
        spun_after(source, first, ts, verdict, turns, r);
    lemma_guess_stays(source, first, ts, ts.len() as int);
}

/// The word of an acquired lock is tried in every turn.
proof fn lemma_guess_stays<D: StateWord, S: TrMutexSignal<D>>(
    source: Source,
    first: D,
    ts: Seq<Trial<D, SignalStep<S>>>,
    i: int,
)
    requires
        all_in_vain(source, first, ts),
        S::held(first),
        0 <= i <= ts.len(),
    ensures
        guess_at(first, ts, i) == first,
    decreases i,
{
    if i > 0 {
        lemma_guess_stays(source, first, ts, i - 1);
        assert(tries(ts[i - 1], source, first));
        law_refused_only_while_acquired(ts[i - 1], source, first);
    }
}

/// The two steps are told apart by their names, and each has one.
pub proof fn law_names_tell_steps_apart(a: bool, b: bool)
    ensures
        signal_name(a) == signal_name(b) ==> a == b,
        signal_name(a) != cell::no_step(),
{
}

/// A task that tries to acquire the lock, in whichever way and however often,
/// leaves an acquired lock alone: the only step that it may take does not swap
/// the word of one. The step of which that is not so has another name.
pub proof fn law_tries_leave_an_acquired_lock_alone<D: StateWord, S: TrMutexSignal<D>>(
    step: SignalStep<S>,
    word: D,
)
    requires
        signal_name(step.acquires()) == signal_name(true),
        S::held(word),
    ensures
        step.acquires(),
        !Step::<D>::enabled(step, word.val()),
{
    word.lemma_word();
}

/// The only step that the owner of a guard may take to give the lock back swaps
/// the word of an acquired lock, and no other.
pub proof fn law_releases_swap_an_acquired_lock_only<D: StateWord, S: TrMutexSignal<D>>(
    step: SignalStep<S>,
    word: D,
)
    requires
        signal_name(step.acquires()) == signal_name(false),
    ensures
        !step.acquires(),
        Step::<D>::enabled(step, word.val()) <==> S::held(word),
{
    word.lemma_word();
}

/// What a task that was to acquire the lock comes to. It has the lock by an
/// exchange on the word of the lock, which was that of a released one. If it has
/// not, every exchange that it made was refused or failed; and it has been
/// cancelled only by a token that can say so, after such an exchange.
pub proof fn law_what_spinning_comes_to<D: StateWord, S: TrMutexSignal<D>>(
    source: Source,
    current: Option<D>,
    verdict: Option<bool>,
    turns: usize,
    r: Result<Trial<D, SignalStep<S>>, NoGuard<D>>,
)
    requires
        spun(source, current, verdict, turns, r),
    ensures
        r matches Ok(t) ==> {
            &&& turns > 0
            &&& t.source() == source && t.step().acquires() && t.end() is Succ
            &&& t.seen() == t.guess() && !S::held(t.seen())
        },
        r is Err && turns > 0 ==> exists|t: Trial<D, SignalStep<S>>|
            {
                &&& #[trigger] t.source() == source
                &&& t.step().acquires() && !(t.end() is Succ)
                &&& current matches Some(v) ==> t.guess() == v
            },
        r matches Err(NoGuard::Cancelled) ==> turns > 0 && verdict != Some(false),
        r matches Err(NoGuard::Pending(_)) ==> turns == 0 || verdict != Some(true),
        turns == 0 ==> r is Err && (current matches Some(v) ==> r
            == Err::<Trial<D, SignalStep<S>>, NoGuard<D>>(NoGuard::Pending(v))),
        current is None ==> exists|l: Loaded<D>| #[trigger] l.source() == source,
{
    let first = match current {
        Some(v) => v,
        None => {
            let l = choose|l: Loaded<D>| #[trigger]
                l.source() == source && spun_from(source, l.seen(), verdict, turns, r);
            l.seen()
        },
    };
    let ts = choose|ts: Seq<Trial<D, SignalStep<S>>>| #[trigger]
        spun_after(source, first, ts, verdict, turns, r);
    if r is Err && turns > 0 {
        assert(tries(ts[0], source, guess_at(first, ts, 0)));
        assert(ts[0].source() == source);
    }
}

/// The lock of which the topmost bit is the signal is acquired while its word is
/// in the upper half of all words. To acquire it adds the half to the word, and
/// to release it takes the half away.
pub proof fn law_topmost_bit_is_the_signal<V: StateWord>(w: V)
    ensures
        ({
            let half = pow2((V::bits() - 1) as nat);
            let held = MsbAsMutexSignal::<V>::held(w);
            &&& held <==> w.val() >= half
            &&& !held ==> MsbAsMutexSignal::<V>::acquired(w).val() == w.val() + half
            &&& held ==> MsbAsMutexSignal::<V>::released(w).val() == w.val() - half
        }),
{
    let m = pow2(msb::<V>());
    V::lemma_width();
    w.lemma_word();
    lemma_msb(w);
    lemma2_to64();
    assert(msb::<V>() + 1 == V::bits());
    crate::fields::lemma_top_bits(w.val(), msb::<V>());
    crate::fields::lemma_top_bound(w.val(), msb::<V>(), 1);
    vstd::arithmetic::power2::lemma_pow2_pos(msb::<V>());
    vstd::arithmetic::div_mod::lemma_fundamental_div_mod(w.val() as int, m as int);
    vstd::arithmetic::mul::lemma_mul_basics(m as int);
    if w.val() < m {
        vstd::arithmetic::div_mod::lemma_basic_div(w.val() as int, m as int);
    }
}

/// The lock in an address is acquired while the address is odd.
pub proof fn law_odd_address_is_the_signal<T>(w: usize)
    ensures
        ({
            let held = PtrAsMutexSignal::<T>::held(w);
            &&& held <==> w % 2 == 1
            &&& !held ==> PtrAsMutexSignal::<T>::acquired(w) == w + 1
            &&& held ==> PtrAsMutexSignal::<T>::released(w) == w - 1
        }),
{
}

/// What happens to the word of an embedded lock: a task acquires the lock, or
/// the task that holds it gives it back.
pub enum SignalEvent {
    Acquire,
    Release,
}

/// The word after the events.
pub open spec fn word_after<D: StateWord, S: TrMutexSignal<D>>(
    start: D,
    es: Seq<SignalEvent>,
) -> D
    decreases es.len(),
{
    if es.len() == 0 {
        start
    } else {
        let w = word_after::<D, S>(start, es.drop_last());
        match es.last() {
            SignalEvent::Acquire => S::acquired(w),
            SignalEvent::Release => S::released(w),
        }
    }
}

/// Whether the events can happen: the lock is acquired where the word is that
/// of a released lock, and given back where a guard is out.
pub open spec fn events_can<D: StateWord, S: TrMutexSignal<D>>(
    start: D,
    es: Seq<SignalEvent>,
) -> bool
    decreases es.len(),
{
    es.len() > 0 ==> {
        &&& events_can::<D, S>(start, es.drop_last())
        &&& match es.last() {
            SignalEvent::Acquire => !S::held(word_after::<D, S>(start, es.drop_last())),
            SignalEvent::Release => guards_after(es.drop_last()) > 0,
        }
    }
}

/// How many guards are out after the events.
pub open spec fn guards_after(es: Seq<SignalEvent>) -> int
    decreases es.len(),
{
    if es.len() == 0 {
        0
    } else {
        guards_after(es.drop_last()) + match es.last() {
            SignalEvent::Acquire => 1int,
            SignalEvent::Release => -1int,
        }
    }
}

/// At most one guard of a lock is out at any time, and one is out just while
/// the word is that of an acquired lock.
pub proof fn law_mutual_exclusion<D: StateWord, S: TrMutexSignal<D>>(
    start: D,
    es: Seq<SignalEvent>,
)
    requires
        !S::held(start),
        events_can::<D, S>(start, es),
    ensures
        0 <= guards_after(es) <= 1,
        guards_after(es) == 1 <==> S::held(word_after::<D, S>(start, es)),
    decreases es.len(),
{
    if es.len() > 0 {
        law_mutual_exclusion::<D, S>(start, es.drop_last());
        S::lemma_signal(word_after::<D, S>(start, es.drop_last()));
    }
}

/// The record of an exchange on the word of an embedded lock: a trial to acquire
/// the lock, or the exchange by which it is given back.
pub ghost enum SignalRecord<D, S> {
    Acquire(Trial<D, SignalStep<S>>),
    Release(Attempt<D, SignalStep<S>>),
}

impl<D: StateWord, S: TrMutexSignal<D>> SignalRecord<D, S> {
    /// Whether the exchange swapped this word, by the event.
    pub open spec fn swapped(self, word: D, e: SignalEvent) -> bool {
        match self {
            SignalRecord::Acquire(t) => {
                &&& e is Acquire
                &&& t.step().acquires()
                &&& cell::trial_holds(t, word, t.step())
                &&& t.end() is Succ
            },
            SignalRecord::Release(a) => {
                &&& e is Release
                &&& !a.step().acquires()
                &&& cell::attempt_holds(a, a.step())
                &&& a.seen() == word
                &&& a.swapped()
            },
        }
    }
}

/// Whether these exchanges can have been made on a lock that began with the
/// word `start`: each swapped the word that the one before it left behind, and
/// the lock was given back by one who had a guard.
pub open spec fn history<D: StateWord, S: TrMutexSignal<D>>(
    start: D,
    es: Seq<SignalEvent>,
    h: Seq<SignalRecord<D, S>>,
) -> bool
    decreases es.len(),
{
    &&& es.len() == h.len()
    &&& es.len() > 0 ==> {
        &&& history(start, es.drop_last(), h.drop_last())
        &&& h.last().swapped(word_after::<D, S>(start, es.drop_last()), es.last())
        &&& es.last() is Release ==> guards_after(es.drop_last()) > 0
    }
}

/// At most one guard of a lock is out at any time, whatever exchanges the
/// functions of the lock have made on its word.
pub proof fn law_exchanges_exclude<D: StateWord, S: TrMutexSignal<D>>(
    start: D,
    es: Seq<SignalEvent>,
    h: Seq<SignalRecord<D, S>>,
)
    requires
        !S::held(start),
        history(start, es, h),
    ensures
        events_can::<D, S>(start, es),
        0 <= guards_after(es) <= 1,
        guards_after(es) == 1 <==> S::held(word_after::<D, S>(start, es)),
    decreases es.len(),
{
    if es.len() > 0 {
        let w = word_after::<D, S>(start, es.drop_last());
        law_exchanges_exclude(start, es.drop_last(), h.drop_last());
        w.lemma_word();
    }
    law_mutual_exclusion::<D, S>(start, es);
}

/// A lock whose signal is undone by the release has, while nobody holds it, the
/// word that it began with: whatever else the word holds is left alone.
pub proof fn law_word_left_alone<D: StateWord, S: TrMutexSignal<D>>(
    start: D,
    es: Seq<SignalEvent>,
)
    requires
        !S::held(start),
        S::released(S::acquired(start)) == start,
        events_can::<D, S>(start, es),
    ensures
        guards_after(es) == 0 ==> word_after::<D, S>(start, es) == start,
        guards_after(es) == 1 ==> word_after::<D, S>(start, es) == S::acquired(start),
    decreases es.len(),
{
    if es.len() > 0 {
        law_mutual_exclusion::<D, S>(start, es.drop_last());
        law_word_left_alone::<D, S>(start, es.drop_last());
    }
}

/// Releasing undoes acquiring where the topmost bit is the signal.
pub proof fn law_msb_release_undoes_acquire<V: StateWord>(val: V)
    requires
        !MsbAsMutexSignal::<V>::held(val),
    ensures
        MsbAsMutexSignal::<V>::released(MsbAsMutexSignal::<V>::acquired(val)) == val,
{
    lemma_msb(val);
}

/// Releasing undoes acquiring where an odd address is the signal.
pub proof fn law_ptr_release_undoes_acquire<T>(val: usize)
    requires
        !PtrAsMutexSignal::<T>::held(val),
    ensures
        PtrAsMutexSignal::<T>::released(PtrAsMutexSignal::<T>::acquired(val)) == val,
{
}

} // verus!
