//! Shared state words and their guarded updates.
//!
//! A lock changes its state word only by a compare-exchange: it looks at the
//! word, tests a condition, and swaps in the successor. Such an update is a
//! [`Step`]. The cell that holds the word is one of the `atomex` crate, whose
//! compare-exchange loops are called here and nowhere else.
//!
//! Other threads may change the word at any moment, so nothing is claimed of
//! what a cell holds. What an operation saw, and whether it swapped, comes back
//! in a record: [`Loaded`], [`Attempt`] or [`Trial`]. Only this module can make
//! one, so a record stands for an operation that took place on a cell.
//!
//! Which steps a function may take, and that it takes no others, stands in its
//! clause `opens_invariants`. Verus checks of every call that whatever the callee
//! lists there, the caller lists too. No invariant is opened anywhere in this
//! library: the names in these clauses are those of steps, and a function that
//! lists none makes no exchange at all. A step that is taken only for some
//! arguments is listed by [`name_if`]. How often a step is taken, the clause leaves
//! open: that is for the records in the result to say. A function that calls into
//! the collections of std has no such clause, as those have none.

use core::marker::PhantomData;
use core::sync::atomic::{AtomicU16, AtomicU32, AtomicU64, AtomicU8, AtomicUsize};

use atomex::{
    CmpxchResult, LocksOrderings, StrictOrderings, TrAtomicData, TrAtomicFlags, TrCmpxchOrderings,
};
use vstd::prelude::*;

use crate::word::StateWord;

verus! {

/// A guarded update of a state word: where `enabled` holds of the word, it may
/// be swapped for `next` of it.
pub trait Step<D: StateWord>: Copy {
    /// Whether the parameters of the step are ones that it can be tried with.
    spec fn valid(self) -> bool;

    spec fn enabled(self, v: nat) -> bool;

    spec fn next(self, v: nat) -> nat;

    /// The name of the step among those of its lock.
    spec fn name(self) -> int;

    fn expect(self, word: D) -> (r: bool)
        requires
            self.valid(),
        ensures
            r == self.enabled(word.val()),
        opens_invariants none
    ;

    fn desire(self, word: D) -> (r: D)
        requires
            self.valid(),
            self.enabled(word.val()),
        ensures
            r.val() == self.next(word.val()),
        opens_invariants none
    ;
}

/// A name that no step has.
pub open spec fn no_step() -> int {
    0
}

/// What a function lists that takes the step of this name only where `taken`
/// holds: the name there, and elsewhere one that no step has.
pub open spec fn name_if(taken: bool, name: int) -> int {
    if taken {
        name
    } else {
        no_step()
    }
}

/// The atomic that a state word is kept in.
pub ghost enum Source {
    U8(AtomicU8),
    U16(AtomicU16),
    U32(AtomicU32),
    U64(AtomicU64),
    Usize(AtomicUsize),
}

/// Something that keeps a state word in an atomic.
pub trait WordSource {
    spec fn source(&self) -> Source;
}

impl<C: WordSource> WordSource for &C {
    open spec fn source(&self) -> Source {
        (**self).source()
    }
}

/// The record of one load of a state word.
pub struct Loaded<D> {
    seen: D,
    source: Ghost<Source>,
}

impl<D: StateWord> Loaded<D> {
    /// The word that the load returned.
    pub closed spec fn seen(self) -> D {
        self.seen
    }

    /// The atomic that was loaded.
    pub closed spec fn source(self) -> Source {
        self.source@
    }

    pub fn word(&self) -> (r: D)
        ensures
            r == self.seen(),
        opens_invariants none
    {
        self.seen
    }
}

/// The record of a compare-exchange that was tried until it was decided: the
/// last word seen either met the condition of the step and was swapped, or did
/// not meet it.
pub struct Attempt<D, S> {
    step: S,
    seen: D,
    swapped: bool,
    source: Ghost<Source>,
}

impl<D: StateWord, S: Step<D>> Attempt<D, S> {
    /// The step that was tried.
    pub closed spec fn step(self) -> S {
        self.step
    }

    /// The word that decided the attempt.
    pub closed spec fn seen(self) -> D {
        self.seen
    }

    /// Whether the word was swapped for its successor.
    pub closed spec fn swapped(self) -> bool {
        self.swapped
    }

    /// The atomic that was exchanged.
    pub closed spec fn source(self) -> Source {
        self.source@
    }

    pub fn word(&self) -> (r: D)
        ensures
            r == self.seen(),
        opens_invariants none
    {
        self.seen
    }

    pub fn is_succ(&self) -> (r: bool)
        ensures
            r == self.swapped(),
        opens_invariants none
    {
        self.swapped
    }

    /// The word seen: `Ok` where it was swapped, `Err` where it was left.
    pub fn into_result(&self) -> (r: Result<D, D>)
        ensures
            self.swapped() ==> r == Ok::<D, D>(self.seen()),
            !self.swapped() ==> r == Err::<D, D>(self.seen()),
        opens_invariants none
    {
        if self.swapped {
            Ok(self.seen)
        } else {
            Err(self.seen)
        }
    }
}

/// How a single compare-exchange ended.
#[derive(Clone, Copy, PartialEq, Eq, Structural, Debug)]
pub enum TrialEnd {
    /// The word was swapped.
    Succ,
    /// The word met the condition but was not swapped: another thread changed
    /// it, or the exchange failed spuriously.
    Fail,
    /// The word did not meet the condition.
    Unexpected,
}

/// The record of a single compare-exchange from a guessed word.
pub struct Trial<D, S> {
    step: S,
    guess: D,
    seen: D,
    end: TrialEnd,
    source: Ghost<Source>,
}

impl<D: StateWord, S: Step<D>> Trial<D, S> {
    pub closed spec fn step(self) -> S {
        self.step
    }

    /// The word that the exchange started from.
    pub closed spec fn guess(self) -> D {
        self.guess
    }

    /// The word that came back.
    pub closed spec fn seen(self) -> D {
        self.seen
    }

    pub closed spec fn end(self) -> TrialEnd {
        self.end
    }

    /// The atomic that was exchanged.
    pub closed spec fn source(self) -> Source {
        self.source@
    }

    pub fn word(&self) -> (r: D)
        ensures
            r == self.seen(),
        opens_invariants none
    {
        self.seen
    }

    pub fn outcome(&self) -> (r: TrialEnd)
        ensures
            r == self.end(),
        opens_invariants none
    {
        self.end
    }
}

/// What a single compare-exchange reports.
pub open spec fn trial_holds<D: StateWord, S: Step<D>>(r: Trial<D, S>, guess: D, step: S) -> bool {
    &&& r.step() == step
    &&& r.guess() == guess
    &&& r.end() is Unexpected <==> !step.enabled(guess.val())
    &&& !(r.end() is Fail) ==> r.seen() == guess
}

/// What a decided compare-exchange reports.
pub open spec fn attempt_holds<D: StateWord, S: Step<D>>(r: Attempt<D, S>, step: S) -> bool {
    &&& r.step() == step
    &&& r.swapped() == step.enabled(r.seen().val())
}

/// Whether `r` is what a single compare-exchange on the atomic `source`
/// reports.
pub open spec fn trial_on<D: StateWord, S: Step<D>>(
    r: Trial<D, S>,
    source: Source,
    guess: D,
    step: S,
) -> bool {
    trial_holds(r, guess, step) && r.source() == source
}

/// Whether `r` is what a decided compare-exchange on the atomic `source`
/// reports.
pub open spec fn attempt_on<D: StateWord, S: Step<D>>(
    r: Attempt<D, S>,
    source: Source,
    step: S,
) -> bool {
    attempt_holds(r, step) && r.source() == source
}

/// The memory orderings `atomex::StrictOrderings`.
#[verifier::external_type_specification]
#[verifier::external_body]
pub struct ExStrictOrderings(StrictOrderings);

/// The memory orderings `atomex::LocksOrderings`.
#[verifier::external_type_specification]
#[verifier::external_body]
pub struct ExLocksOrderings(LocksOrderings);

/// Calls `atomex::TrAtomicFlags::value`, which loads the word from the atomic
/// that `as_ref` of the cell gives. Claimed is that the record is one of a load
/// from this cell. Other threads may change the cell at any moment, so nothing
/// is claimed of the word that comes back.
#[verifier::external_body]
fn flags_value<T, O, C>(flags: &C) -> (r: Loaded<T>)
where
    T: StateWord + TrAtomicData,
    O: TrCmpxchOrderings,
    C: TrAtomicFlags<T, O> + WordSource,
    ensures
        r.source() == flags.source(),
    opens_invariants none
{
    Loaded { seen: flags.value(), source: Ghost(flags.source()) }
}

/// Calls `atomex::TrAtomicFlags::try_spin_compare_exchange_weak`, which tries
/// the exchange again for as long as it fails: it ends by swapping a word that
/// meets the condition, or by finding a word that does not. Claimed is that the
/// word handed back decides which of the two it was, and that the record is one
/// of an exchange on this cell. Not claimed is which word that is.
#[verifier::external_body]
fn flags_try_spin<T, O, C, S>(flags: &C, step: S) -> (r: Attempt<T, S>)
where
    T: StateWord + TrAtomicData,
    O: TrCmpxchOrderings,
    C: TrAtomicFlags<T, O> + WordSource,
    S: Step<T>,
    requires
        step.valid(),
    ensures
        attempt_on(r, flags.source(), step),
    opens_invariants [ step.name() ]
{
    let source = Ghost(flags.source());
    match flags.try_spin_compare_exchange_weak(|v| step.expect(v), |v| step.desire(v)) {
        CmpxchResult::Succ(seen) => Attempt { step, seen, swapped: true, source },
        CmpxchResult::Fail(seen) => Attempt { step, seen, swapped: false, source },
        CmpxchResult::Unexpected(seen) => Attempt { step, seen, swapped: false, source },
    }
}

/// Calls `atomex::TrAtomicFlags::try_once_compare_exchange_weak`, which tests
/// the condition on the guessed word and, where it is met, makes one weak
/// compare-exchange from that word. Claimed is that a guess that does not meet
/// the condition is handed back as unexpected and no other is, and that a swap
/// hands the guess back, and that the record is one of an exchange on this
/// cell. Not claimed is whether the exchange succeeds.
#[verifier::external_body]
fn flags_try_once<T, O, C, S>(flags: &C, guess: T, step: S) -> (r: Trial<T, S>)
where
    T: StateWord + TrAtomicData,
    O: TrCmpxchOrderings,
    C: TrAtomicFlags<T, O> + WordSource,
    S: Step<T>,
    requires
        step.valid(),
    ensures
        trial_on(r, flags.source(), guess, step),
    opens_invariants [ step.name() ]
{
    let source = Ghost(flags.source());
    match flags.try_once_compare_exchange_weak(guess, |v| step.expect(v), |v| step.desire(v)) {
        CmpxchResult::Succ(seen) => Trial { step, guess, seen, end: TrialEnd::Succ, source },
        CmpxchResult::Fail(seen) => Trial { step, guess, seen, end: TrialEnd::Fail, source },
        CmpxchResult::Unexpected(seen) => {
            Trial { step, guess, seen, end: TrialEnd::Unexpected, source }
        },
    }
}

/// A shared cell that holds a state word.
pub trait WordCell: WordSource + Sized {
    type Word: StateWord;

    /// Loads the word that the cell holds at that moment.
    fn value(&self) -> (r: Loaded<Self::Word>)
        ensures
            r.source() == self.source(),
        opens_invariants none
    ;

    /// Tries `step` until it is decided.
    fn try_spin<S: Step<Self::Word>>(&self, step: S) -> (r: Attempt<Self::Word, S>)
        requires
            step.valid(),
        ensures
            attempt_on(r, self.source(), step),
        opens_invariants [ step.name() ]
    ;

    /// Tries `step` once, from the word `guess`.
    fn try_once<S: Step<Self::Word>>(&self, guess: Self::Word, step: S) -> (r: Trial<Self::Word, S>)
        requires
            step.valid(),
        ensures
            trial_on(r, self.source(), guess, step),
        opens_invariants [ step.name() ]
    ;
}

/// A borrowed cell serves as well as an owned one.
impl<C: WordCell> WordCell for &C {
    type Word = C::Word;

    fn value(&self) -> (r: Loaded<C::Word>) {
        (**self).value()
    }

    fn try_spin<S: Step<C::Word>>(&self, step: S) -> (r: Attempt<C::Word, S>) {
        (**self).try_spin(step)
    }

    fn try_once<S: Step<C::Word>>(&self, guess: C::Word, step: S) -> (r: Trial<C::Word, S>) {
        (**self).try_once(guess, step)
    }
}

/// An atomic of type `A` whose word is exchanged under the memory orderings
/// `O`.
pub struct StateCell<A, O> {
    atomic: A,
    orderings: PhantomData<O>,
}

impl<A, O> StateCell<A, O> {
    /// The atomic that the cell holds.
    pub closed spec fn atomic(self) -> A {
        self.atomic
    }

    pub fn new(atomic: A) -> (r: Self)
        ensures
            r.atomic() == atomic,
        opens_invariants none
    {
        StateCell { atomic, orderings: PhantomData }
    }

    pub fn into_inner(self) -> (r: A)
        ensures
            r == self.atomic(),
        opens_invariants none
    {
        self.atomic
    }
}

impl<O> WordSource for StateCell<AtomicU8, O> {
    open spec fn source(&self) -> Source {
        Source::U8(self.atomic())
    }
}

impl<O> AsRef<AtomicU8> for StateCell<AtomicU8, O> {
    fn as_ref(&self) -> (r: &AtomicU8)
        ensures
            *r == self.atomic(),
    {
        &self.atomic
    }
}

impl TrAtomicFlags<u8, StrictOrderings> for StateCell<AtomicU8, StrictOrderings> {

}

impl WordCell for StateCell<AtomicU8, StrictOrderings> {
    type Word = u8;

    fn value(&self) -> (r: Loaded<u8>) {
        flags_value::<u8, StrictOrderings, Self>(self)
    }

    fn try_spin<S: Step<u8>>(&self, step: S) -> (r: Attempt<u8, S>) {
        flags_try_spin::<u8, StrictOrderings, Self, S>(self, step)
    }

    fn try_once<S: Step<u8>>(&self, guess: u8, step: S) -> (r: Trial<u8, S>) {
        flags_try_once::<u8, StrictOrderings, Self, S>(self, guess, step)
    }
}

impl TrAtomicFlags<u8, LocksOrderings> for StateCell<AtomicU8, LocksOrderings> {

}

impl WordCell for StateCell<AtomicU8, LocksOrderings> {
    type Word = u8;

    fn value(&self) -> (r: Loaded<u8>) {
        flags_value::<u8, LocksOrderings, Self>(self)
    }

    fn try_spin<S: Step<u8>>(&self, step: S) -> (r: Attempt<u8, S>) {
        flags_try_spin::<u8, LocksOrderings, Self, S>(self, step)
    }

    fn try_once<S: Step<u8>>(&self, guess: u8, step: S) -> (r: Trial<u8, S>) {
        flags_try_once::<u8, LocksOrderings, Self, S>(self, guess, step)
    }
}

impl<O> WordSource for StateCell<AtomicU16, O> {
    open spec fn source(&self) -> Source {
        Source::U16(self.atomic())
    }
}

impl<O> AsRef<AtomicU16> for StateCell<AtomicU16, O> {
    fn as_ref(&self) -> (r: &AtomicU16)
        ensures
            *r == self.atomic(),
    {
        &self.atomic
    }
}

impl TrAtomicFlags<u16, StrictOrderings> for StateCell<AtomicU16, StrictOrderings> {

}

impl WordCell for StateCell<AtomicU16, StrictOrderings> {
    type Word = u16;

    fn value(&self) -> (r: Loaded<u16>) {
        flags_value::<u16, StrictOrderings, Self>(self)
    }

    fn try_spin<S: Step<u16>>(&self, step: S) -> (r: Attempt<u16, S>) {
        flags_try_spin::<u16, StrictOrderings, Self, S>(self, step)
    }

    fn try_once<S: Step<u16>>(&self, guess: u16, step: S) -> (r: Trial<u16, S>) {
        flags_try_once::<u16, StrictOrderings, Self, S>(self, guess, step)
    }
}

impl TrAtomicFlags<u16, LocksOrderings> for StateCell<AtomicU16, LocksOrderings> {

}

impl WordCell for StateCell<AtomicU16, LocksOrderings> {
    type Word = u16;

    fn value(&self) -> (r: Loaded<u16>) {
        flags_value::<u16, LocksOrderings, Self>(self)
    }

    fn try_spin<S: Step<u16>>(&self, step: S) -> (r: Attempt<u16, S>) {
        flags_try_spin::<u16, LocksOrderings, Self, S>(self, step)
    }

    fn try_once<S: Step<u16>>(&self, guess: u16, step: S) -> (r: Trial<u16, S>) {
        flags_try_once::<u16, LocksOrderings, Self, S>(self, guess, step)
    }
}

impl<O> WordSource for StateCell<AtomicU32, O> {
    open spec fn source(&self) -> Source {
        Source::U32(self.atomic())
    }
}

impl<O> AsRef<AtomicU32> for StateCell<AtomicU32, O> {
    fn as_ref(&self) -> (r: &AtomicU32)
        ensures
            *r == self.atomic(),
    {
        &self.atomic
    }
}

impl TrAtomicFlags<u32, StrictOrderings> for StateCell<AtomicU32, StrictOrderings> {

}

impl WordCell for StateCell<AtomicU32, StrictOrderings> {
    type Word = u32;

    fn value(&self) -> (r: Loaded<u32>) {
        flags_value::<u32, StrictOrderings, Self>(self)
    }

    fn try_spin<S: Step<u32>>(&self, step: S) -> (r: Attempt<u32, S>) {
        flags_try_spin::<u32, StrictOrderings, Self, S>(self, step)
    }

    fn try_once<S: Step<u32>>(&self, guess: u32, step: S) -> (r: Trial<u32, S>) {
        flags_try_once::<u32, StrictOrderings, Self, S>(self, guess, step)
    }
}

impl TrAtomicFlags<u32, LocksOrderings> for StateCell<AtomicU32, LocksOrderings> {

}

impl WordCell for StateCell<AtomicU32, LocksOrderings> {
    type Word = u32;

    fn value(&self) -> (r: Loaded<u32>) {
        flags_value::<u32, LocksOrderings, Self>(self)
    }

    fn try_spin<S: Step<u32>>(&self, step: S) -> (r: Attempt<u32, S>) {
        flags_try_spin::<u32, LocksOrderings, Self, S>(self, step)
    }

    fn try_once<S: Step<u32>>(&self, guess: u32, step: S) -> (r: Trial<u32, S>) {
        flags_try_once::<u32, LocksOrderings, Self, S>(self, guess, step)
    }
}

impl<O> WordSource for StateCell<AtomicU64, O> {
    open spec fn source(&self) -> Source {
        Source::U64(self.atomic())
    }
}

impl<O> AsRef<AtomicU64> for StateCell<AtomicU64, O> {
    fn as_ref(&self) -> (r: &AtomicU64)
        ensures
            *r == self.atomic(),
    {
        &self.atomic
    }
}

impl TrAtomicFlags<u64, StrictOrderings> for StateCell<AtomicU64, StrictOrderings> {

}

impl WordCell for StateCell<AtomicU64, StrictOrderings> {
    type Word = u64;

    fn value(&self) -> (r: Loaded<u64>) {
        flags_value::<u64, StrictOrderings, Self>(self)
    }

    fn try_spin<S: Step<u64>>(&self, step: S) -> (r: Attempt<u64, S>) {
        flags_try_spin::<u64, StrictOrderings, Self, S>(self, step)
    }

    fn try_once<S: Step<u64>>(&self, guess: u64, step: S) -> (r: Trial<u64, S>) {
        flags_try_once::<u64, StrictOrderings, Self, S>(self, guess, step)
    }
}

impl TrAtomicFlags<u64, LocksOrderings> for StateCell<AtomicU64, LocksOrderings> {

}

impl WordCell for StateCell<AtomicU64, LocksOrderings> {
    type Word = u64;

    fn value(&self) -> (r: Loaded<u64>) {
        flags_value::<u64, LocksOrderings, Self>(self)
    }

    fn try_spin<S: Step<u64>>(&self, step: S) -> (r: Attempt<u64, S>) {
        flags_try_spin::<u64, LocksOrderings, Self, S>(self, step)
    }

    fn try_once<S: Step<u64>>(&self, guess: u64, step: S) -> (r: Trial<u64, S>) {
        flags_try_once::<u64, LocksOrderings, Self, S>(self, guess, step)
    }
}

impl<O> WordSource for StateCell<AtomicUsize, O> {
    open spec fn source(&self) -> Source {
        Source::Usize(self.atomic())
    }
}

impl<O> AsRef<AtomicUsize> for StateCell<AtomicUsize, O> {
    fn as_ref(&self) -> (r: &AtomicUsize)
        ensures
            *r == self.atomic(),
    {
        &self.atomic
    }
}

impl TrAtomicFlags<usize, StrictOrderings> for StateCell<AtomicUsize, StrictOrderings> {

}

impl WordCell for StateCell<AtomicUsize, StrictOrderings> {
    type Word = usize;

    fn value(&self) -> (r: Loaded<usize>) {
        flags_value::<usize, StrictOrderings, Self>(self)
    }

    fn try_spin<S: Step<usize>>(&self, step: S) -> (r: Attempt<usize, S>) {
        flags_try_spin::<usize, StrictOrderings, Self, S>(self, step)
    }

    fn try_once<S: Step<usize>>(&self, guess: usize, step: S) -> (r: Trial<usize, S>) {
        flags_try_once::<usize, StrictOrderings, Self, S>(self, guess, step)
    }
}

impl TrAtomicFlags<usize, LocksOrderings> for StateCell<AtomicUsize, LocksOrderings> {

}

impl WordCell for StateCell<AtomicUsize, LocksOrderings> {
    type Word = usize;

    fn value(&self) -> (r: Loaded<usize>) {
        flags_value::<usize, LocksOrderings, Self>(self)
    }

    fn try_spin<S: Step<usize>>(&self, step: S) -> (r: Attempt<usize, S>) {
        flags_try_spin::<usize, LocksOrderings, Self, S>(self, step)
    }

    fn try_once<S: Step<usize>>(&self, guess: usize, step: S) -> (r: Trial<usize, S>) {
        flags_try_once::<usize, LocksOrderings, Self, S>(self, guess, step)
    }
}

} // verus!
