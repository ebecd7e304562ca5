use core::cell::Cell;
use core::sync::atomic::AtomicUsize;

use atomex::{LocksOrderings, StrictOrderings};
use atomic_sync::cancel::{CancelledToken, NonCancellableToken, TrCancellationToken};
use atomic_sync::cell::{StateCell, TrialEnd, WordCell};
use atomic_sync::mutex::embedded::{
    MsbAsMutexSignal, MutexGuard, NoGuard, NotAcquired, PtrAsMutexSignal, SpinningMutex,
    TrMutexSignal,
};
use atomic_sync::mutex::error::MutexError;

type WordCellOf = StateCell<AtomicUsize, StrictOrderings>;
type Lock = SpinningMutex<WordCellOf, MsbAsMutexSignal<usize>>;

fn new_lock() -> Lock {
    SpinningMutex::new(StateCell::new(AtomicUsize::new(0)))
}

fn wait<C, S>(lock: &SpinningMutex<C, S>) -> MutexGuard<'_, C, S>
where
    C: WordCell,
    S: TrMutexSignal<C::Word>,
{
    loop {
        if let Ok(g) = lock.acquire().wait(64) {
            return g;
        }
    }
}

#[test]
fn usize_smoke_test() {
    const ANSWER: usize = 42;
    const SECRET: usize = 58;

    let mutex = new_lock();
    let mut data = ANSWER;
    {
        let m = wait(&mutex);
        assert_eq!(data, ANSWER);
        data = SECRET;
        assert!(m.release().is_succ());
    }
    let m = wait(&mutex);
    assert_eq!(data, SECRET);
    assert!(m.release().is_succ());
}

#[test]
fn embedded_try_acquired_smoke() {
    let mutex = new_lock();
    let data = 1usize;
    let guard = mutex.try_acquire().unwrap();
    assert!(mutex.is_acquired());
    assert_eq!(data, 1);
    assert!(mutex.try_acquire().is_none());
    guard.release();
    assert!(!mutex.is_acquired());
}

/// One try of a worker that counts the numbers it is to count.
fn work<C, S>(
    mutex: &SpinningMutex<C, S>,
    data: &mut usize,
    max: usize,
    parity: usize,
    vec: &mut Vec<usize>,
) -> bool
where
    C: WordCell,
    S: TrMutexSignal<C::Word>,
{
    let Ok(guard) = mutex.acquire().may_cancel_with(&CancelledToken, 1) else {
        return false;
    };
    let done = *data >= max;
    if !done && *data % 2 == parity {
        *data += 1;
        vec.push(*data);
    }
    assert!(guard.release().is_succ());
    done
}

/// Two workers take turns.
fn two_workers<C, S>(mutex: &SpinningMutex<C, S>)
where
    C: WordCell,
    S: TrMutexSignal<C::Word>,
{
    const TEST_MAX: usize = 16;
    let mut data = 0usize;
    let (mut v1, mut v2) = (Vec::new(), Vec::new());
    let (mut done1, mut done2) = (false, false);
    while !(done1 && done2) {
        done1 = done1 || work(mutex, &mut data, TEST_MAX, 1, &mut v1);
        done2 = done2 || work(mutex, &mut data, TEST_MAX, 0, &mut v2);
    }
    assert_eq!(v1.len(), TEST_MAX / 2);
    assert_eq!(v2.len(), TEST_MAX / 2);
    assert!(v1.into_iter().all(|u| u % 2 == 0));
    assert!(v2.into_iter().all(|u| u % 2 == 1));
}

#[test]
fn embedded_multithreaded_smoke_strict_orderings() {
    two_workers(&new_lock())
}

#[test]
fn embedded_multithreaded_smoke_locks_orderings() {
    let cell = StateCell::<AtomicUsize, LocksOrderings>::new(AtomicUsize::new(0));
    two_workers(&SpinningMutex::<_, MsbAsMutexSignal<usize>>::new(cell))
}

#[test]
fn ptr_smoke_test() {
    const ANSWER: usize = 42;
    const PTR_SIZE: usize = core::mem::size_of::<&usize>();

    let cell: WordCellOf = StateCell::new(AtomicUsize::new(PTR_SIZE));
    let ptr = cell.value().word();
    let data = Box::new(ANSWER);
    let lock = SpinningMutex::<&WordCellOf, PtrAsMutexSignal<usize>>::new(&cell);

    let g = wait(&lock);
    assert_eq!(*data, ANSWER);
    assert_eq!(cell.value().word(), PTR_SIZE + 1);
    g.release();
    assert_eq!(cell.value().word(), ptr);
}

#[test]
fn signals_set_and_clear_their_bit() {
    type Msb = MsbAsMutexSignal<u8>;
    assert_eq!(Msb::K_MSB_FLAG(), 0x80);
    assert_eq!(Msb::make_acquired(0x05), 0x85);
    assert_eq!(Msb::make_released(0x85), 0x05);
    assert!(Msb::is_acquired(0x80) && !Msb::is_released(0x80));
    assert!(!Msb::is_acquired(0x7f) && Msb::is_released(0x7f));
    assert_eq!(MsbAsMutexSignal::<u64>::K_MSB_FLAG(), 1u64 << 63);

    type Ptr = PtrAsMutexSignal<u32>;
    assert!(Ptr::is_acquired(9) && Ptr::is_released(8));
    assert_eq!(Ptr::make_acquired(8), 9);
    assert_eq!(Ptr::make_released(9), 8);
    assert_eq!(Ptr::make_acquired(9), 10);
}

#[test]
fn a_word_keeps_what_else_it_holds() {
    let cell: WordCellOf = StateCell::new(AtomicUsize::new(0x1234));
    let lock = SpinningMutex::<&WordCellOf, MsbAsMutexSignal<usize>>::new(&cell);
    let g = lock.try_acquire().unwrap();
    assert_eq!(cell.value().word(), 0x1234 | (1usize << (usize::BITS - 1)));
    assert_eq!(g.release().word(), 0x1234 | (1usize << (usize::BITS - 1)));
    assert_eq!(cell.value().word(), 0x1234);
}

#[test]
fn releasing_a_released_lock_changes_nothing() {
    let cell: WordCellOf = StateCell::new(AtomicUsize::new(7));
    let lock = SpinningMutex::<&WordCellOf, MsbAsMutexSignal<usize>>::new(&cell);
    let a = lock.try_spin_release_();
    assert!(!a.is_succ());
    assert_eq!(a.into_result(), Err(7));
    assert_eq!(cell.value().word(), 7);
}

#[test]
fn a_task_loads_the_word_when_its_wait_begins() {
    let lock = new_lock();
    let g = lock.try_acquire().unwrap();
    let early = lock.acquire();
    let later = lock.acquire();
    assert!(early.word().is_none());
    let waiting = match early.may_cancel_with(&NonCancellableToken, 5) {
        Err(NotAcquired::Pending(t)) => t,
        _ => panic!("the lock is acquired"),
    };
    g.release();
    let g = later.may_cancel_with(&CancelledToken, 5).ok().unwrap();
    assert!(matches!(
        lock.acquire().may_cancel_with(&CancelledToken, 5),
        Err(NotAcquired::Cancelled)
    ));
    g.release();
    // A task that has begun to wait goes by the word that it loaded then, which
    // is that of an acquired lock.
    let held = waiting.word().unwrap();
    assert_eq!(held, 1usize << (usize::BITS - 1));
    let waiting = match waiting.wait(9) {
        Err(NotAcquired::Pending(t)) => t,
        _ => panic!("the task keeps to its word"),
    };
    assert_eq!(waiting.word(), Some(held));
    assert!(matches!(
        waiting.may_cancel_with(&CancelledToken, 9),
        Err(NotAcquired::Cancelled)
    ));
    assert!(lock.acquire().may_cancel_with(&CancelledToken, 1).is_ok());
}

#[test]
fn a_task_goes_on_from_the_word_that_a_failed_exchange_gives() {
    let cell: WordCellOf = StateCell::new(AtomicUsize::new(4));
    let lock = SpinningMutex::<&WordCellOf, MsbAsMutexSignal<usize>>::new(&cell);
    // The guess is the word of a released lock, but not the one that is there.
    let g = lock.spin_from_(&NonCancellableToken, 2, 16).ok().unwrap();
    assert_eq!(g.release().word(), 4 | (1usize << (usize::BITS - 1)));
    assert!(matches!(lock.spin_from_(&NonCancellableToken, 2, 0), Err(NoGuard::Pending(2))));
    assert!(matches!(lock.spin_from_(&NonCancellableToken, 2, 1), Err(NoGuard::Pending(4))));
}

#[test]
fn turns_and_tokens_bound_a_wait() {
    let lock = new_lock();
    assert!(matches!(lock.try_spin_acquire_(&NonCancellableToken, 0), Err(NoGuard::Pending(0))));
    assert!(CancelledToken.is_cancelled());
    assert!(!NonCancellableToken.is_cancelled());
    let t = lock.acquire_turn_(1usize << (usize::BITS - 1));
    assert_eq!(t.outcome(), TrialEnd::Unexpected);
    assert!(lock.guard_of_(t).is_none());
}

/// A token that is cancelled from the given time on that it is asked.
struct After(Cell<usize>);

impl TrCancellationToken for After {
    fn verdict(&self) -> Option<bool> {
        None
    }

    fn is_cancelled(&self) -> bool {
        self.0.set(self.0.get().saturating_sub(1));
        self.0.get() == 0
    }
}

#[test]
fn a_token_is_asked_after_every_turn_in_vain() {
    let lock = new_lock();
    let token = After(Cell::new(3));
    let g = lock.acquire().may_cancel_with(&token, 8).ok().unwrap();
    assert_eq!(token.0.get(), 3);
    assert!(matches!(
        lock.acquire().may_cancel_with(&token, 2),
        Err(NotAcquired::Pending(_))
    ));
    assert_eq!(token.0.get(), 1);
    assert!(matches!(
        lock.acquire().may_cancel_with(&token, 2),
        Err(NotAcquired::Cancelled)
    ));
    g.release();
}

#[test]
fn error_texts() {
    assert_eq!(MutexError::Cancelled.to_string(), "SpinningMutexError::Cancelled");
    assert_eq!(MutexError::Poisoned.to_string(), "SpinningMutexError::Poisoned");
    assert_eq!(MutexError::Retry.to_string(), "SpinningMutexError::Retry");
}
