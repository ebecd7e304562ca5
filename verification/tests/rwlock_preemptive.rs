use core::sync::atomic::{AtomicU8, AtomicUsize};

use atomex::StrictOrderings;
use atomic_sync::cancel::{CancelledToken, NonCancellableToken};
use atomic_sync::cell::{StateCell, Step, WordCell};
use atomic_sync::rwlock::preemptive::error::RwLockError;
use atomic_sync::rwlock::preemptive::rwlock::{
    AcqSession, ReaderGuard, SpinningRwLock, Upgrade, UpgradableReaderGuard, Want, WriterGuard,
};
use atomic_sync::rwlock::preemptive::state::{
    desire_dec_reader, desire_inc_reader, desire_upgrade_inactive_and_reader_dec,
    get_reader_count, readers_in, RwLockState, RwStep, K_MAX_READER_COUNT, K_UPGRADE_ACTIVE,
    K_WRITER_ACTIVE, K_WRITER_QUEUED,
};

type Cell = StateCell<AtomicUsize, StrictOrderings>;
type Cell8 = StateCell<AtomicU8, StrictOrderings>;
type TestLock = SpinningRwLock<Cell>;

fn new_lock() -> TestLock {
    SpinningRwLock::new(StateCell::new(AtomicUsize::new(0)))
}

const TURNS: usize = 64;

fn wait_read<'a, C: WordCell>(acq: &mut AcqSession<'a, C>) -> ReaderGuard<'a, C> {
    acq.read().wait(TURNS).ok().unwrap()
}

fn wait_write<'a, C: WordCell>(acq: &mut AcqSession<'a, C>) -> WriterGuard<'a, C> {
    acq.write().wait(TURNS).ok().unwrap()
}

fn wait_upgradable<'a, C: WordCell>(acq: &mut AcqSession<'a, C>) -> UpgradableReaderGuard<'a, C> {
    acq.upgradable_read().wait(TURNS).ok().unwrap()
}

fn wait_upgrade<'u, C: WordCell>(upg: &'u mut Upgrade<'_, C>) -> WriterGuard<'u, C> {
    upg.upgrade().wait(TURNS).ok().unwrap()
}

fn count<C: WordCell>(lock: &SpinningRwLock<C>) -> usize {
    lock.reader_count().unwrap()
}

#[test]
fn rwlock_default_test() {
    const ANSWER: usize = 42;
    let data = ANSWER;
    let rwlock = new_lock();
    assert_eq!(count(&rwlock), 0);
    assert_eq!(data, ANSWER);
}

#[test]
fn acquire_reader_guard_should_block_acq_writer_guard() {
    const ANSWER: usize = 42;
    const MYSTERY: usize = ANSWER * ANSWER;

    let mut data = ANSWER;
    let rwlock = new_lock();
    let mut acq_r0 = rwlock.acquire_session();
    let r0 = wait_read(&mut acq_r0);
    assert_eq!(data, ANSWER);
    assert_eq!(count(&rwlock), 1);

    let mut acq_r1 = rwlock.acquire_session();
    let r1 = wait_read(&mut acq_r1);
    assert_eq!(count(&rwlock), 2);

    let mut acq_w = rwlock.acquire_session();
    assert!(acq_w.try_write().is_err());

    r0.release();
    assert_eq!(count(&rwlock), 1);
    assert!(acq_w.try_write().is_err());

    r1.release();
    assert_eq!(count(&rwlock), 0);

    let w = acq_w.try_write().ok().unwrap();
    assert_eq!(data, ANSWER);
    data = MYSTERY;
    w.release();
    assert_eq!(data, MYSTERY);
}

#[test]
fn acquire_reader_guard_should_block_upgrade() {
    const ANSWER: usize = 42;
    const MYSTERY: usize = ANSWER * ANSWER;

    let mut data = ANSWER;
    let rwlock = new_lock();
    let mut acq_r0 = rwlock.acquire_session();
    let r0 = wait_read(&mut acq_r0);
    assert_eq!(data, ANSWER);
    assert_eq!(count(&rwlock), 1);

    let mut acq_r1 = rwlock.acquire_session();
    let r1 = wait_upgradable(&mut acq_r1);
    assert_eq!(count(&rwlock), 2);

    let mut upg = r1.upgrade();
    assert_eq!(count(&rwlock), 2);
    assert!(upg.try_upgrade().is_err());

    r0.release();
    assert_eq!(count(&rwlock), 1);

    let w = wait_upgrade(&mut upg);
    assert_eq!(count(&rwlock), 1);
    assert_eq!(data, ANSWER);
    data = MYSTERY;

    w.release();
    assert_eq!(data, MYSTERY);
}

#[test]
fn failed_try_write_should_block_later_readers() {
    let mut data = 1usize;
    let rwlock = new_lock();
    let mut acq_r = rwlock.acquire_session();
    let mut acq_w = rwlock.acquire_session();

    let r = wait_read(&mut acq_r);
    assert!(matches!(acq_w.try_write(), Err(RwLockError::Retry)));
    r.release();
    assert_eq!(count(&rwlock), 0);

    let mut acq_new = rwlock.acquire_session();
    assert!(matches!(acq_new.try_read(), Err(RwLockError::Retry)));

    let w = acq_w.try_write().ok().unwrap();
    data += 1;
    w.release();
    let g = acq_new.try_read().ok().unwrap();
    assert_eq!(data, 2);
    g.release();
}

#[test]
fn may_break_with_cancelled_token_should_return_cancelled() {
    let data = 0usize;
    let rwlock = new_lock();
    let mut acq_hold = rwlock.acquire_session();
    let mut acq_r = rwlock.acquire_session();

    let hold = acq_hold.try_write().ok().unwrap();
    let got = acq_r.read().may_break_with(&CancelledToken, TURNS);
    assert!(matches!(got, Err(RwLockError::Cancelled)));
    hold.release();

    let r = wait_read(&mut acq_r);
    assert_eq!(data, 0);
    r.release();
}

#[test]
fn wait_or_should_return_guard_on_success() {
    let data = 9usize;
    let rwlock = new_lock();
    let mut acq = rwlock.acquire_session();
    let g = acq.read().wait(TURNS).unwrap_or_else(|_| unreachable!());
    assert_eq!(data, 9);
    g.release();
}

#[test]
fn writer_guard_downgrade_paths() {
    let rwlock = new_lock();
    let mut acq = rwlock.acquire_session();

    let w = acq.try_write().ok().unwrap();
    let r = w.downgrade_to_reader().guard.unwrap();
    assert_eq!(count(&rwlock), 1);
    r.release();
    assert_eq!(count(&rwlock), 0);

    let w = acq.try_write().ok().unwrap();
    let upg = w.downgrade_to_upgradable().guard.unwrap();
    assert_eq!(count(&rwlock), 1);
    let r = upg.downgrade().guard.unwrap();
    assert_eq!(count(&rwlock), 1);
    r.release();
    assert_eq!(count(&rwlock), 0);
}

#[test]
fn upgrade_should_keep_slot_until_session_dropped() {
    let rwlock = new_lock();
    let mut acq_u = rwlock.acquire_session();
    let mut acq_w = rwlock.acquire_session();

    let upg = wait_upgradable(&mut acq_u);
    let mut upg_sess = upg.upgrade();
    {
        let w = wait_upgrade(&mut upg_sess);
        assert_eq!(count(&rwlock), 1);
        w.release();
    }
    assert_eq!(count(&rwlock), 1);
    assert!(acq_w.try_write().is_err());

    upg_sess.into_guard().release();
    assert_eq!(count(&rwlock), 0);
    assert!(acq_w.try_write().is_ok());
}

#[test]
fn pending_upgrade_should_not_block_new_readers() {
    let rwlock = new_lock();
    let mut acq_r = rwlock.acquire_session();
    let mut acq_u = rwlock.acquire_session();
    let mut acq_new = rwlock.acquire_session();

    let r = wait_read(&mut acq_r);
    let upg = wait_upgradable(&mut acq_u);
    let mut upg_sess = upg.upgrade();
    assert!(upg_sess.try_upgrade().is_err());

    let r_new = acq_new.try_read().ok().unwrap();
    assert_eq!(count(&rwlock), 3);
    r_new.release();
    r.release();
}

#[test]
fn borrowed_atomic_cell_should_work() {
    let cell: Cell = StateCell::new(AtomicUsize::new(0));
    let mut data = 5usize;
    let lock = SpinningRwLock::new(&cell);

    let mut acq = lock.acquire_session();
    {
        let w = wait_write(&mut acq);
        data += 1;
        w.release();
    }
    assert_eq!(count(&lock), 0);
    let r = wait_read(&mut acq);
    assert_eq!(data, 6);
    r.release();
    assert_eq!(cell.value().word(), 0);
}

#[test]
fn preemptive_rwlock_generic_trait_driven_round_trip() {
    let mut data = 0usize;
    let lock = new_lock();
    let mut sess = lock.acquire_session();
    {
        let w = wait_write(&mut sess);
        data += 1;
        w.release();
    }
    let observed = {
        let r = wait_read(&mut sess);
        let seen = data;
        r.release();
        seen
    };
    {
        let upg = wait_upgradable(&mut sess);
        let mut upg_sess = upg.upgrade();
        let w = wait_upgrade(&mut upg_sess);
        data += 1;
        let r = w.downgrade_to_reader().guard.unwrap();
        assert_eq!(data, observed + 1);
        r.release();
        upg_sess.into_guard().release();
    }
    {
        let w = wait_write(&mut sess);
        data += 1;
        w.release();
    }
    let r = wait_read(&mut sess);
    assert_eq!(data, 3);
    r.release();
    assert_eq!(count(&lock), 0);
}

#[test]
fn error_kinds_should_be_distinguishable() {
    let lock = new_lock();
    let mut acq_r = lock.acquire_session();
    let mut acq_w = lock.acquire_session();

    let r = wait_read(&mut acq_r);
    let err = match acq_w.try_write() {
        Ok(_) => panic!("a reader holds the lock"),
        Err(e) => e,
    };
    assert!(matches!(err, RwLockError::Retry));
    assert_eq!(err.to_string(), "SpinningRwLockError::Retry");
    r.release();

    let err = match acq_r.read().may_break_with(&CancelledToken, TURNS) {
        Ok(_) => panic!("the token is cancelled, and a writer waits"),
        Err(e) => e,
    };
    assert!(matches!(err, RwLockError::Cancelled));
    assert_eq!(err.to_string(), "SpinningRwLockError::Cancelled");
    assert_eq!(RwLockError::Poisoned.to_string(), "SpinningRwLockError::Poisoned");
}

#[test]
fn preemptive_rwlock_non_cancellable_token_should_behave_like_plain_wait() {
    let data = 11usize;
    let lock = new_lock();
    let mut acq = lock.acquire_session();
    let r = acq.read().may_break_with(&NonCancellableToken, TURNS).ok().unwrap();
    assert_eq!(data, 11);
    r.release();
}

#[test]
fn upgrade_slot_should_return_after_session_drops() {
    let mut data = 0usize;
    let lock = new_lock();
    let mut acq_u = lock.acquire_session();
    let mut acq_w = lock.acquire_session();

    let mut upg_sess = wait_upgradable(&mut acq_u).upgrade();
    {
        let w = wait_upgrade(&mut upg_sess);
        data += 1;
        assert_eq!(count(&lock), 1);
        w.release();
    }
    assert_eq!(data, 1);
    assert_eq!(count(&lock), 1);
    assert!(acq_w.try_write().is_err());

    upg_sess.into_guard().release();
    assert_eq!(count(&lock), 0);
    assert!(acq_w.try_write().is_ok());
}

#[test]
fn queued_writer_flag_should_block_new_readers_until_a_writer_passes() {
    let mut data = 1usize;
    let lock = new_lock();
    let mut acq_r = lock.acquire_session();
    let mut acq_w = lock.acquire_session();
    let mut acq_new = lock.acquire_session();

    let r = wait_read(&mut acq_r);
    assert!(acq_w.try_write().is_err());
    r.release();
    assert_eq!(count(&lock), 0);

    assert!(acq_new.try_read().is_err());

    let w = acq_w.try_write().ok().unwrap();
    data += 1;
    w.release();
    let g = acq_new.try_read().ok().unwrap();
    assert_eq!(data, 2);
    g.release();
}

#[test]
fn borrowed_cell_lock_should_work() {
    let cell: Cell = StateCell::new(AtomicUsize::new(0));
    let mut data = 5usize;
    let lock: SpinningRwLock<&Cell> = SpinningRwLock::new(&cell);

    let mut acq = lock.acquire_session();
    {
        let w = wait_write(&mut acq);
        data += 1;
        w.release();
    }
    let r = wait_read(&mut acq);
    assert_eq!(data, 6);
    r.release();
}

#[test]
fn an_upgrade_for_good_is_counted_until_the_writer_leaves() {
    let lock = new_lock();
    let mut acq = lock.acquire_session();
    let t = wait_upgradable(&mut acq).try_upgrade();
    let w = t.guard.ok().unwrap();
    assert_eq!(count(&lock), 1);
    assert!(acq.try_upgradable_read().is_err());
    let left = w.release();
    assert!(left.by.is_succ() && left.place.unwrap().is_succ());
    assert_eq!(count(&lock), 0);
    assert!(acq.try_write().is_ok());
    // Such a writer becomes a reader or an upgradable reader again, and is
    // counted once.
    let lock = new_lock();
    let mut acq = lock.acquire_session();
    let w = wait_upgradable(&mut acq).try_upgrade().guard.ok().unwrap();
    let t = w.downgrade_to_upgradable();
    assert!(t.place.is_none());
    assert_eq!(count(&lock), 1);
    let w = t.guard.unwrap().try_upgrade().guard.ok().unwrap();
    let t = w.downgrade_to_reader();
    assert!(t.place.is_some());
    assert_eq!(count(&lock), 1);
    assert!(t.guard.unwrap().release().is_some());
    assert_eq!(count(&lock), 0);
    // Another reader is there: the upgradable reader stays what it is.
    let lock = new_lock();
    let mut acq = lock.acquire_session();
    let r = wait_read(&mut acq);
    let t = wait_upgradable(&mut acq).try_upgrade();
    let u = t.guard.err().unwrap();
    assert_eq!(count(&lock), 2);
    r.release();
    u.release();
    assert_eq!(count(&lock), 0);
}

#[test]
fn what_an_upgrade_lends_is_given_back_once() {
    let lock = new_lock();
    let mut acq = lock.acquire_session();
    let mut upg = wait_upgradable(&mut acq).upgrade();
    let g = upg.try_upgrade().ok().unwrap().downgrade_to_upgradable().guard.unwrap();
    assert_eq!(count(&lock), 1);
    assert!(g.release().is_none());
    assert_eq!(count(&lock), 1);
    let w = upg.try_upgrade().ok().unwrap();
    let g = w.downgrade_to_upgradable().guard.unwrap();
    let r = g.downgrade();
    assert!(r.by.is_none());
    assert!(r.guard.unwrap().release().is_none());
    assert!(acq.try_upgradable_read().is_err());
    assert!(upg.into_guard().release().unwrap().is_succ());
    assert_eq!(count(&lock), 0);
    assert!(acq.try_upgradable_read().is_ok());
}

#[test]
fn a_cancelled_task_tries_once_before_it_gives_up() {
    let lock = new_lock();
    let mut acq = lock.acquire_session();
    let r = acq.read().may_break_with(&CancelledToken, 1).ok().unwrap();
    assert!(matches!(acq.write().may_break_with(&CancelledToken, 9), Err(RwLockError::Cancelled)));
    // The writer has announced itself.
    assert!(matches!(acq.read().may_break_with(&CancelledToken, 9), Err(RwLockError::Cancelled)));
    r.release();
    acq.write().may_break_with(&CancelledToken, 1).ok().unwrap().release();
    assert!(acq.read().may_break_with(&CancelledToken, 1).is_ok());
}

#[test]
fn no_second_upgradable_reader_comes_in() {
    let lock = new_lock();
    let mut acq = lock.acquire_session();
    let u = wait_upgradable(&mut acq);
    assert!(matches!(acq.try_upgradable_read(), Err(RwLockError::Retry)));
    assert!(matches!(
        acq.upgradable_read().may_break_with(&NonCancellableToken, 3),
        Err(RwLockError::Retry)
    ));
    assert!(matches!(acq.write().may_break_with(&CancelledToken, 3), Err(RwLockError::Cancelled)));
    u.release();
}

fn state8(word: u8) -> RwLockState<Cell8> {
    RwLockState::new(StateCell::new(AtomicU8::new(word)))
}

fn value8(s: &RwLockState<Cell8>) -> u8 {
    s.load_state().word()
}

#[test]
fn parts_of_a_small_word() {
    assert_eq!(K_WRITER_ACTIVE::<u8>(), 0x80);
    assert_eq!(K_WRITER_QUEUED::<u8>(), 0x40);
    assert_eq!(K_UPGRADE_ACTIVE::<u8>(), 0x20);
    assert_eq!(K_MAX_READER_COUNT::<u8>(), 0x1f);
    assert_eq!(get_reader_count(0xe5u8), 5);
    assert_eq!(desire_inc_reader(0x22u8), 0x23);
    assert_eq!(desire_dec_reader(0x22u8), 0x21);
    assert_eq!(readers_in(0xffu8), Some(31));
}

#[test]
fn a_full_count_refuses_readers() {
    let s = state8(0x1f);
    assert!(!s.try_read().is_succ());
    assert_eq!(value8(&s), 0x1f);
    assert!(!s.try_upgradable_read().is_succ());
    assert_eq!(value8(&s), 0x1f);
    assert_eq!(s.reader_count(), 31);
}

#[test]
fn an_empty_count_lets_nobody_leave() {
    let s = state8(0x40);
    assert_eq!(s.decrease_reader_count(), Err(0));
    let s = state8(0x43);
    assert_eq!(s.decrease_reader_count(), Ok(3));
    assert_eq!(value8(&s), 0x42);
    // An upgradable reader that is not counted borrows from the flags.
    assert_eq!(desire_upgrade_inactive_and_reader_dec(0x20u8), 0xff);
    assert_eq!(desire_upgrade_inactive_and_reader_dec(0xa0u8), 0x7f);
}

#[test]
fn steps_of_the_state_word() {
    let next = |step: RwStep, v: u8| {
        let e = <RwStep as Step<u8>>::expect(step, v);
        if e { Some(<RwStep as Step<u8>>::desire(step, v)) } else { None }
    };
    assert_eq!(next(RwStep::Read, 0x22), Some(0x23));
    assert_eq!(next(RwStep::Read, 0x42), None);
    assert_eq!(next(RwStep::Read, 0x80), None);
    assert_eq!(next(RwStep::ReadDrop, 0x41), Some(0x40));
    assert_eq!(next(RwStep::Write, 0x40), Some(0xc0));
    assert_eq!(next(RwStep::Write, 0x01), None);
    assert_eq!(next(RwStep::QueueWriter, 0x01), Some(0x41));
    assert_eq!(next(RwStep::QueueWriter, 0x41), None);
    assert_eq!(next(RwStep::WriteDrop, 0xe1), Some(0x21));
    assert_eq!(next(RwStep::UpgradableRead, 0x01), Some(0x22));
    assert_eq!(next(RwStep::UpgradableRead, 0x21), None);
    assert_eq!(next(RwStep::UpgradableDrop, 0x62), Some(0x41));
    assert_eq!(next(RwStep::WriteToRead, 0xc0), Some(0x41));
    assert_eq!(next(RwStep::WriteToUpgradable, 0x80), Some(0x21));
    assert_eq!(next(RwStep::WriteToUpgradable, 0xa1), Some(0x21));
    assert_eq!(next(RwStep::UpgradableRead, 0x1f), None);
    assert_eq!(next(RwStep::UpgradableToRead, 0x22), Some(0x02));
    assert_eq!(next(RwStep::UpgradableToRead, 0xa1), None);
    assert_eq!(next(RwStep::Upgrade, 0x21), Some(0xa1));
    assert_eq!(next(RwStep::Upgrade, 0x22), None);
}

#[test]
fn a_writer_that_is_refused_announces_itself() {
    let s = state8(0x01);
    let t = s.try_write();
    assert!(!t.write.is_succ());
    assert!(t.queue.unwrap().is_succ());
    assert_eq!(value8(&s), 0x41);
    let s = state8(0x00);
    assert!(s.try_write().queue.is_none());
    let lock = new_lock();
    let acq = AcqSession::new(&lock);
    let r = acq.attempt_(Want::Read);
    assert!(r.by.is_succ() && r.queue.is_none());
    assert!(acq.attempt_(Want::Write).queue.is_some());
    assert!(acq.may_break_with_impl_(Want::Write, &NonCancellableToken, 0).is_err());
}

#[test]
fn the_count_has_upgradable_readers_and_upgraded_writers() {
    let lock = new_lock();
    assert_eq!(count(&lock), 0);
    let mut acq0 = lock.acquire_session();
    let r0 = acq0.try_upgradable_read().ok().unwrap();
    assert_eq!(count(&lock), 1);
    let mut acq1 = lock.acquire_session();
    let r1 = acq1.try_read().ok().unwrap();
    assert_eq!(count(&lock), 2);
    let mut upg = r0.upgrade();
    assert_eq!(count(&lock), 2);
    r1.release();
    assert_eq!(count(&lock), 1);
    let w = wait_upgrade(&mut upg);
    assert_eq!(count(&lock), 1);
    assert!(w.release().place.is_none());
}
