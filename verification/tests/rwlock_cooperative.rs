use core::sync::atomic::{AtomicU8, AtomicUsize, Ordering};
use std::sync::Arc;
use std::task::{Wake, Waker};

use atomex::StrictOrderings;
use atomic_sync::cell::{StateCell, Step};
use atomic_sync::rwlock::cooperative::acquire::{AcqPoll, AcquireFuture, AcquireInner};
use atomic_sync::rwlock::cooperative::error::CoopRwLockError;
use atomic_sync::rwlock::cooperative::queue::QueuePayload;
use atomic_sync::rwlock::cooperative::rwcore::{pass_with, AcqProgress, Left, RwCore};
use atomic_sync::rwlock::cooperative::rwlock::CooperativeRwLock;
use atomic_sync::rwlock::cooperative::state::{
    get_reader_count_, readers_in, snapshot_of, CoopRwState, CoopStep, K_MAX_READER_COUNT,
    K_UPGRADE_ACTIVE, K_WAITERS_PRESENT, K_WRITER_ACTIVE, K_WRITER_QUEUED,
};
use atomic_sync::rwlock::cooperative::wait::{
    push_slot_into_, Admit, SlotState, SpinLock, WaitKind, WaitNode,
};

type Cell = StateCell<AtomicUsize, StrictOrderings>;
type TestState = CoopRwState<Cell>;

fn new_state() -> TestState {
    CoopRwState::new(StateCell::new(AtomicUsize::new(0)))
}

#[test]
fn new_state_should_be_idle() {
    let st = new_state();
    assert_eq!(st.reader_count(), 0);
    assert!(!st.snapshot().writer_active);
    assert!(!st.snapshot().upgrade_active);
    assert!(!st.waiter_queued());

    assert!(st.try_read_fast().is_succ());
    assert!(st.release_reader().is_succ());
    assert!(st.try_write_fast().is_succ());
    assert!(st.release_writer().is_succ());
    assert!(st.try_upgradable_read_fast().is_succ());
    assert!(st.release_upgradable_read().is_succ());
    assert!(!st.waiter_queued());
}

#[test]
fn fast_path_should_reject_when_queue_not_empty() {
    let st = new_state();
    assert!(st.mark_waiter_queued().is_succ());
    assert!(st.waiter_queued());

    assert!(!st.try_read_fast().is_succ());
    assert!(!st.try_write_fast().is_succ());
    assert!(!st.try_upgradable_read_fast().is_succ());
    assert_eq!(st.reader_count(), 0);

    assert!(st.clear_waiter_queued().is_succ());
    assert!(!st.waiter_queued());
    assert!(st.try_write_fast().is_succ());
    assert!(st.release_writer().is_succ());
}

#[test]
fn queued_path_should_ignore_waiter_queued_flag() {
    let st = new_state();
    assert!(st.mark_waiter_queued().is_succ());

    assert!(st.try_read_queued().is_succ());
    assert_eq!(st.reader_count(), 1);
    assert!(!st.try_write_queued().is_succ());

    assert!(st.try_upgradable_read_queued().is_succ());
    assert_eq!(st.reader_count(), 2);
    assert!(st.snapshot().upgrade_active);
    assert!(!st.try_write_queued().is_succ());

    assert!(st.release_upgradable_read().is_succ());
    assert_eq!(st.reader_count(), 1);
    assert!(!st.snapshot().upgrade_active);

    assert!(st.release_reader().is_succ());
    assert_eq!(st.reader_count(), 0);
    assert!(st.try_write_queued().is_succ());
    assert!(st.release_writer().is_succ());
}

#[test]
fn upgrade_to_write_should_keep_upgradable_slot() {
    let st = new_state();
    assert!(st.try_upgradable_read_fast().is_succ());
    assert_eq!(st.reader_count(), 1);
    assert!(st.snapshot().upgrade_active);

    assert!(st.try_upgrade_to_write().is_succ());
    assert_eq!(st.reader_count(), 1);
    assert!(st.snapshot().writer_active);
    assert!(st.snapshot().upgrade_active);
    assert!(!st.try_write_fast().is_succ());

    assert!(st.release_writer().is_succ());
    assert!(!st.snapshot().writer_active);
    assert_eq!(st.reader_count(), 1);
    assert!(!st.try_write_fast().is_succ());

    assert!(st.release_upgradable_read().is_succ());
    assert_eq!(st.reader_count(), 0);
    assert!(!st.snapshot().upgrade_active);
    assert!(st.try_write_fast().is_succ());
}

#[test]
fn upgrade_to_write_should_fail_when_other_readers_exist() {
    let st = new_state();
    assert!(st.try_upgradable_read_fast().is_succ());
    assert!(st.try_read_fast().is_succ());
    assert_eq!(st.reader_count(), 2);

    assert!(!st.try_upgrade_to_write().is_succ());
    assert_eq!(st.reader_count(), 2);
    assert!(!st.snapshot().writer_active);

    assert!(st.release_reader().is_succ());
    assert!(st.try_upgrade_to_write().is_succ());
    assert_eq!(st.reader_count(), 1);
    assert!(st.snapshot().writer_active);
}

#[test]
fn downgrade_write_should_restore_counts() {
    let st = new_state();

    assert!(st.try_write_fast().is_succ());
    assert!(st.downgrade_write_to_read().is_succ());
    assert_eq!(st.reader_count(), 1);
    assert!(!st.snapshot().writer_active);
    assert!(st.release_reader().is_succ());
    assert_eq!(st.reader_count(), 0);

    assert!(st.try_write_fast().is_succ());
    assert!(st.downgrade_write_to_upgradable().is_succ());
    assert_eq!(st.reader_count(), 1);
    assert!(st.snapshot().upgrade_active);
    assert!(!st.snapshot().writer_active);
    assert!(st.downgrade_upgradable_to_read().is_succ());
    assert_eq!(st.reader_count(), 1);
    assert!(!st.snapshot().upgrade_active);
    assert!(st.release_reader().is_succ());
    assert_eq!(st.reader_count(), 0);
}

#[test]
fn upgrade_should_require_exactly_one_reader() {
    let st = new_state();
    assert!(st.try_upgradable_read_fast().is_succ());
    assert!(st.try_read_fast().is_succ());
    assert_eq!(st.reader_count(), 2);
    assert!(!st.try_upgrade_to_write().is_succ());

    assert!(st.release_reader().is_succ());
    assert_eq!(st.reader_count(), 1);
    assert!(st.try_upgrade_to_write().is_succ());
    assert_eq!(st.reader_count(), 1);

    let text = format!("{:?}", st.snapshot());
    assert!(text.contains("writer_active: true"));
}

/// A waker that counts how often it is woken.
struct Count(AtomicUsize);

impl Wake for Count {
    fn wake(self: Arc<Self>) {
        self.0.fetch_add(1, Ordering::SeqCst);
    }
}

/// A lock with its queue.
struct Lock {
    core: RwCore<Cell>,
    queue: QueuePayload,
}

/// A task that acquires the lock.
struct Task {
    future: AcquireFuture,
    count: Arc<Count>,
}

impl Lock {
    fn new() -> Self {
        Lock {
            core: RwCore::new(StateCell::new(AtomicUsize::new(0))),
            queue: QueuePayload::new(),
        }
    }

    fn poll(&mut self, task: &mut Task, cancelled: bool) -> AcqPoll {
        let waker = Waker::from(task.count.clone());
        let done = task.future.poll(cancelled, &self.core, &mut self.queue, &waker);
        let mut wakers = Vec::new();
        if let Some(t) = done.polled.and_then(|p| p.queued) {
            wakers.extend(t.into_wakers());
        }
        if let Some(g) = done.gave_up {
            wakers.extend(g.pass.wakers);
        }
        for w in wakers {
            w.wake();
        }
        done.out
    }

    /// Somebody leaves, and those are woken who are admitted.
    fn left(&mut self, left: Left<usize>) {
        assert!(left.by.is_succ());
        if left.needs_pass() {
            let pass = self.core.pass_(&mut self.queue);
            for w in pass.wakers {
                w.wake();
            }
        }
    }

    fn release_reader(&mut self) {
        let l = self.core.release_reader();
        self.left(l)
    }

    fn release_writer(&mut self) {
        let l = self.core.release_writer();
        self.left(l)
    }

    fn release_upgradable(&mut self) {
        let l = self.core.release_upgradable_read();
        self.left(l)
    }

    fn try_now(&self, kind: WaitKind) -> bool {
        self.core.try_fast(kind).is_succ()
    }

    fn readers(&self) -> usize {
        self.core.reader_count()
    }

    fn marks(&self) -> (bool, bool) {
        (self.core.state_().waiters_present(), self.core.state_().writer_queued())
    }
}

impl Task {
    fn new(kind: WaitKind) -> Self {
        Task {
            future: AcquireFuture::new(kind),
            count: Arc::new(Count(AtomicUsize::new(0))),
        }
    }

    fn woken(&self) -> usize {
        self.count.0.load(Ordering::SeqCst)
    }
}

const IN: AcqPoll = AcqPoll::Ready(Ok(()));
const CANCELLED: AcqPoll = AcqPoll::Ready(Err(CoopRwLockError::Cancelled));

#[test]
fn reader_should_not_barge_when_writer_queued() {
    let mut lock = Lock::new();
    assert!(lock.try_now(WaitKind::Write));
    let mut writer = Task::new(WaitKind::Write);
    assert_eq!(lock.poll(&mut writer, false), AcqPoll::Pending);
    assert_eq!(lock.marks(), (true, true));

    let mut reader = Task::new(WaitKind::Read);
    assert_eq!(lock.poll(&mut reader, false), AcqPoll::Pending);
    assert!(!lock.try_now(WaitKind::Read));

    lock.release_writer();
    assert_eq!((writer.woken(), reader.woken()), (1, 0));
    assert!(!lock.try_now(WaitKind::Read));
    assert_eq!(lock.poll(&mut reader, false), AcqPoll::Pending);
    assert_eq!(lock.poll(&mut writer, false), IN);
    assert_eq!(lock.marks(), (true, false));
    lock.release_writer();
    assert_eq!(reader.woken(), 1);
    assert_eq!(lock.poll(&mut reader, false), IN);
    assert_eq!(lock.marks(), (false, false));
}

#[test]
fn cancelled_head_waiter_should_not_starve_followers() {
    let mut lock = Lock::new();
    assert!(lock.try_now(WaitKind::Write));
    let mut reader = Task::new(WaitKind::Read);
    assert_eq!(lock.poll(&mut reader, false), AcqPoll::Pending);
    let mut writer = Task::new(WaitKind::Write);
    assert_eq!(lock.poll(&mut writer, false), AcqPoll::Pending);

    assert_eq!(lock.poll(&mut reader, true), CANCELLED);
    lock.release_writer();
    assert_eq!((reader.woken(), writer.woken()), (0, 1));
    assert_eq!(lock.poll(&mut writer, false), IN);
}

#[test]
fn cancelled_token_should_abort_contended_write() {
    let data = 1usize;
    let mut lock = Lock::new();
    assert!(lock.try_now(WaitKind::Write));
    let mut writer = Task::new(WaitKind::Write);
    assert_eq!(lock.poll(&mut writer, true), CANCELLED);
    lock.release_writer();
    let mut reader = Task::new(WaitKind::Read);
    assert_eq!(lock.poll(&mut reader, false), IN);
    assert_eq!(data, 1);
}

#[test]
fn cooperative_rwlock_non_cancellable_token_should_behave_like_plain_wait() {
    let data = 11usize;
    let mut lock = Lock::new();
    let mut reader = Task::new(WaitKind::Read);
    assert_eq!(lock.poll(&mut reader, false), IN);
    assert_eq!(data, 11);
}

#[test]
fn cooperative_rwlock_generic_trait_driven_round_trip() {
    let mut data = 0usize;
    let mut lock = Lock::new();
    let mut come_in = |lock: &mut Lock, kind: WaitKind| {
        assert_eq!(lock.poll(&mut Task::new(kind), false), IN);
    };
    come_in(&mut lock, WaitKind::Write);
    data += 1;
    lock.release_writer();
    come_in(&mut lock, WaitKind::Read);
    let observed = data;
    lock.release_reader();
    come_in(&mut lock, WaitKind::UpgradableRead);
    come_in(&mut lock, WaitKind::Upgrade);
    data += 1;
    let l = lock.core.downgrade_write_to_read();
    lock.left(l);
    assert_eq!(data, observed + 1);
    lock.release_reader();
    lock.release_upgradable();
    come_in(&mut lock, WaitKind::Write);
    data += 1;
    lock.release_writer();
    come_in(&mut lock, WaitKind::Read);
    assert_eq!(data, 3);
    lock.release_reader();
    assert_eq!(lock.readers(), 0);
}

#[test]
fn a_task_has_one_place_however_often_it_is_polled() {
    let mut lock = Lock::new();
    assert!(lock.try_now(WaitKind::Write));
    let mut task = Task::new(WaitKind::Read);
    assert_eq!(lock.poll(&mut task, false), AcqPoll::Pending);
    let place = task.future.inner_.unwrap().pending_;
    for _ in 0..5 {
        assert_eq!(lock.poll(&mut task, false), AcqPoll::Pending);
        assert_eq!(task.future.inner_.unwrap().pending_, place);
    }
    let (node, slot) = place.unwrap();
    assert!(lock.queue.has_pending(node, slot) && !lock.queue.has_pending(node, slot + 1));
    assert_eq!(lock.queue.kind_at(node, slot), WaitKind::Read);
    lock.release_writer();
    assert_eq!(lock.poll(&mut task, false), IN);
    assert!(!lock.queue.has_pending(node, slot));
}

#[test]
fn one_who_is_woken_and_gives_up_lets_the_next_in() {
    let mut lock = Lock::new();
    assert!(lock.try_now(WaitKind::Write));
    let mut first = Task::new(WaitKind::Write);
    let mut second = Task::new(WaitKind::Write);
    assert_eq!(lock.poll(&mut first, false), AcqPoll::Pending);
    assert_eq!(lock.poll(&mut second, false), AcqPoll::Pending);
    lock.release_writer();
    assert_eq!((first.woken(), second.woken()), (1, 0));
    assert_eq!(lock.poll(&mut first, true), CANCELLED);
    assert_eq!(second.woken(), 1);
    assert_eq!(lock.poll(&mut second, false), IN);
    assert_eq!(lock.marks(), (false, false));
}

#[test]
fn upgrade_should_jump_ahead_of_queued_writer() {
    let mut lock = Lock::new();
    assert!(lock.try_now(WaitKind::UpgradableRead));
    assert!(lock.try_now(WaitKind::Read));
    let mut writer = Task::new(WaitKind::Write);
    assert_eq!(lock.poll(&mut writer, false), AcqPoll::Pending);
    let mut upgrade = Task::new(WaitKind::Upgrade);
    assert_eq!(lock.poll(&mut upgrade, false), AcqPoll::Pending);

    lock.release_reader();
    assert_eq!((upgrade.woken(), writer.woken()), (1, 0));
    assert_eq!(lock.poll(&mut writer, false), AcqPoll::Pending);
    assert_eq!(lock.poll(&mut upgrade, false), IN);
    assert_eq!(lock.readers(), 1);

    lock.release_writer();
    assert_eq!(writer.woken(), 0);
    lock.release_upgradable();
    assert_eq!(writer.woken(), 1);
    assert_eq!(lock.poll(&mut writer, false), IN);
}

#[test]
fn upgraded_writer_should_fall_back_to_upgradable() {
    let mut lock = Lock::new();
    assert!(lock.try_now(WaitKind::UpgradableRead));
    let mut upgrade = Task::new(WaitKind::Upgrade);
    assert_eq!(lock.poll(&mut upgrade, false), IN);
    lock.release_writer();
    assert_eq!(lock.readers(), 1);
    assert!(lock.try_now(WaitKind::Upgrade));
    lock.release_writer();
    lock.release_upgradable();
    assert_eq!(lock.readers(), 0);
}

#[test]
fn coalesced_readers_should_all_be_admitted() {
    let mut lock = Lock::new();
    assert!(lock.try_now(WaitKind::Write));
    let mut tasks: Vec<Task> = (0..3).map(|_| Task::new(WaitKind::Read)).collect();
    for t in tasks.iter_mut() {
        assert_eq!(lock.poll(t, false), AcqPoll::Pending);
    }
    assert_eq!(lock.marks(), (true, false));
    lock.release_writer();
    for t in tasks.iter_mut() {
        assert_eq!(t.woken(), 1);
        assert_eq!(lock.poll(t, false), IN);
    }
    assert_eq!(lock.readers(), 3);
    for _ in 0..3 {
        lock.release_reader();
    }
    assert_eq!(lock.readers(), 0);
    assert_eq!(lock.marks(), (false, false));
}

#[test]
fn cancelled_token_should_abort_acquire_cleanly() {
    let mut lock = Lock::new();
    assert!(lock.try_now(WaitKind::Write));
    let mut reader = Task::new(WaitKind::Read);
    assert_eq!(lock.poll(&mut reader, true), CANCELLED);
    lock.release_writer();
    // The token comes first, even where the lock is free.
    let mut reader = Task::new(WaitKind::Read);
    assert_eq!(lock.poll(&mut reader, true), CANCELLED);
    assert_eq!(lock.readers(), 0);
    let mut reader = Task::new(WaitKind::Read);
    assert_eq!(lock.poll(&mut reader, false), IN);
}

#[test]
fn cancelled_writer_should_not_starve_queued_readers() {
    let mut lock = Lock::new();
    assert!(lock.try_now(WaitKind::Write));
    let mut writer = Task::new(WaitKind::Write);
    let mut reader = Task::new(WaitKind::Read);
    assert_eq!(lock.poll(&mut writer, false), AcqPoll::Pending);
    assert_eq!(lock.poll(&mut reader, false), AcqPoll::Pending);
    assert_eq!(lock.poll(&mut writer, true), CANCELLED);
    assert_eq!(lock.marks(), (true, false));
    lock.release_writer();
    assert_eq!(reader.woken(), 1);
    assert_eq!(lock.poll(&mut reader, false), IN);
}

#[test]
fn cancelled_wait_should_leave_lock_usable() {
    let mut lock = Lock::new();
    assert!(lock.try_now(WaitKind::Write));
    let mut writer = Task::new(WaitKind::Write);
    assert_eq!(lock.poll(&mut writer, false), AcqPoll::Pending);
    assert_eq!(lock.poll(&mut writer, true), CANCELLED);
    assert_eq!(lock.marks(), (false, false));
    lock.release_writer();
    let mut reader = Task::new(WaitKind::Read);
    assert_eq!(lock.poll(&mut reader, false), IN);
}

#[test]
fn a_task_is_woken_once_until_it_comes_back() {
    let mut lock = Lock::new();
    assert!(lock.try_now(WaitKind::Write));
    let mut reader = Task::new(WaitKind::Read);
    assert_eq!(lock.poll(&mut reader, false), AcqPoll::Pending);
    lock.release_writer();
    assert_eq!(reader.woken(), 1);
    // Nobody wakes it again before it has come.
    assert!(lock.try_now(WaitKind::Read));
    lock.release_reader();
    assert_eq!(reader.woken(), 1);
    // A writer that came in between keeps it out; it waits and is woken anew.
    assert!(lock.core.state_().try_write_queued().is_succ());
    assert_eq!(lock.poll(&mut reader, false), AcqPoll::Pending);
    lock.release_writer();
    assert_eq!(reader.woken(), 2);
    assert_eq!(lock.poll(&mut reader, false), IN);
}

#[test]
fn one_upgradable_reader_of_a_node_at_a_time() {
    let mut lock = Lock::new();
    assert!(lock.try_now(WaitKind::Write));
    let mut a = Task::new(WaitKind::UpgradableRead);
    let mut b = Task::new(WaitKind::UpgradableRead);
    let mut c = Task::new(WaitKind::Read);
    for t in [&mut a, &mut b, &mut c] {
        assert_eq!(lock.poll(t, false), AcqPoll::Pending);
    }
    lock.release_writer();
    assert_eq!((a.woken(), b.woken(), c.woken()), (1, 0, 1));
    assert_eq!(lock.poll(&mut a, false), IN);
    assert_eq!(lock.poll(&mut b, false), AcqPoll::Pending);
    assert_eq!(lock.poll(&mut c, false), IN);
    assert_eq!(b.woken(), 0);
    lock.release_upgradable();
    assert_eq!(b.woken(), 1);
    assert_eq!(lock.poll(&mut b, false), IN);
    assert_eq!(lock.readers(), 2);
}

#[test]
fn places_in_the_queue() {
    let lock = Lock::new();
    assert!(lock.try_now(WaitKind::Write));
    let mut q = QueuePayload::new();
    let waker = Waker::from(Arc::new(Count(AtomicUsize::new(0))));
    let place = |p: AcqProgress| match p {
        AcqProgress::Waiting { node_, slot_ } => (node_, slot_),
        AcqProgress::Acquired => panic!("a writer holds the lock"),
    };
    let r0 = place(lock.core.acquire(&mut q, WaitKind::Read, &waker).progress);
    let r1 = place(lock.core.acquire(&mut q, WaitKind::UpgradableRead, &waker).progress);
    let w = place(lock.core.acquire(&mut q, WaitKind::Write, &waker).progress);
    let r2 = place(lock.core.acquire(&mut q, WaitKind::Read, &waker).progress);
    let u = place(lock.core.acquire(&mut q, WaitKind::Upgrade, &waker).progress);
    assert_eq!((r0, r1, w, r2, u), ((0, 0), (0, 1), (1, 0), (2, 0), (3, 0)));
    assert!(q.is_head_(3) && !q.is_head_(0));
    assert_eq!(q.writer_waiters(), 2);
    assert!(q.has_pending(0, 1) && !q.has_pending(0, 2) && !q.has_pending(9, 0));
    assert_eq!(q.kind_at(0, 1), WaitKind::UpgradableRead);
    assert!(q.has_room());

    let gone = lock.core.cancel_wait(&mut q, 3, 0);
    assert!(gone.finished.is_none());
    assert!(q.is_head_(0) && !q.has_pending(3, 0));
    let gone = lock.core.cancel_wait(&mut q, 1, 0);
    assert!(gone.finished.is_some());
    assert_eq!(q.writer_waiters(), 0);
    assert!(q.has_pending(2, 0));
    lock.core.cancel_wait(&mut q, 0, 0);
    assert!(q.is_head_(0));
    lock.core.cancel_wait(&mut q, 0, 1);
    assert!(q.is_head_(2));
    let last = lock.core.cancel_wait(&mut q, 2, 0);
    assert!(q.is_empty());
    assert!(last.pass.cleared.is_some());
}

#[test]
fn admission_goes_by_the_word() {
    let lock = Lock::new();
    assert!(lock.try_now(WaitKind::Write));
    let waker = Waker::from(Arc::new(Count(AtomicUsize::new(0))));
    let queue_of = |kind: WaitKind| {
        let mut q = QueuePayload::new();
        lock.core.acquire(&mut q, kind, &waker);
        q
    };
    let top = 1usize << (usize::BITS - 1);
    let upgrade = 1usize << (usize::BITS - 4);
    let admitted = |kind: WaitKind, word: usize| pass_with(&mut queue_of(kind), word).len();
    assert_eq!(admitted(WaitKind::Read, top), 0);
    assert_eq!(admitted(WaitKind::Read, 5), 1);
    assert_eq!(admitted(WaitKind::UpgradableRead, 5), 1);
    assert_eq!(admitted(WaitKind::UpgradableRead, upgrade + 5), 0);
    assert_eq!(admitted(WaitKind::Write, 0), 1);
    assert_eq!(admitted(WaitKind::Write, 1), 0);
    assert_eq!(admitted(WaitKind::Write, upgrade), 0);
    assert_eq!(admitted(WaitKind::Upgrade, upgrade + 1), 1);
    assert_eq!(admitted(WaitKind::Upgrade, upgrade + 2), 0);
    assert_eq!(admitted(WaitKind::Upgrade, top + upgrade + 1), 0);
}

#[test]
fn a_task_keeps_what_it_needs_from_poll_to_poll() {
    let mut lock = Lock::new();
    assert!(lock.try_now(WaitKind::Write));
    let waker = Waker::from(Arc::new(Count(AtomicUsize::new(0))));
    let mut t = AcquireInner::new(WaitKind::Write);
    let p = t.poll(&lock.core, &mut lock.queue, &waker);
    assert!(!p.ready && !p.fast.unwrap().is_succ());
    assert_eq!(t.pending_, Some((0, 0)));
    // It does not try without waiting any more.
    let p = t.poll(&lock.core, &mut lock.queue, &waker);
    assert!(!p.ready && p.fast.is_none());
    assert!(t.give_up(&lock.core, &mut lock.queue).is_some());
    assert!(!t.live_ && t.pending_.is_none());
    assert!(t.give_up(&lock.core, &mut lock.queue).is_none());
}

#[test]
fn guards_and_sessions() {
    let lock = CooperativeRwLock::new(StateCell::<AtomicUsize, StrictOrderings>::new(
        AtomicUsize::new(0),
    ));
    let mut s = lock.acquire_session();
    let r = s.try_read().ok().unwrap();
    assert_eq!(lock.reader_count(), Some(1));
    assert!(matches!(s.try_write(), Err(CoopRwLockError::WouldBlock)));
    let u = s.try_upgradable_read().ok().unwrap();
    assert!(matches!(s.try_upgradable_read(), Err(CoopRwLockError::WouldBlock)));
    let mut sess = u.upgrade_session();
    assert!(matches!(sess.try_upgrade(), Err(CoopRwLockError::WouldBlock)));
    assert!(r.release().unwrap().by.is_succ());
    let w = sess.try_upgrade().ok().unwrap();
    assert!(matches!(s.try_read(), Err(CoopRwLockError::WouldBlock)));
    assert!(!w.release().needs_pass());
    let t = sess.into_guard().try_upgrade();
    let w = t.guard.ok().unwrap();
    assert_eq!(lock.reader_count(), Some(0));
    let (r, left) = w.downgrade_to_reader();
    assert!(left.by.is_succ());
    assert_eq!(lock.reader_count(), Some(1));
    r.release();
    let (u, _) = s.try_write().ok().unwrap().downgrade_to_upgradable();
    let (r, _) = u.downgrade();
    r.release();
    let u = s.try_upgradable_read().ok().unwrap();
    u.release();
    assert_eq!(lock.reader_count(), Some(0));
}

#[test]
fn a_place_that_was_lent_is_given_back_once() {
    let lock = CooperativeRwLock::new(StateCell::<AtomicUsize, StrictOrderings>::new(
        AtomicUsize::new(0),
    ));
    let mut s = lock.acquire_session();
    let mut u = s.try_upgradable_read().ok().unwrap().upgrade_session();
    let (g, left) = u.try_upgrade().ok().unwrap().downgrade_to_upgradable();
    assert!(left.by.is_succ());
    assert_eq!(lock.reader_count(), Some(1));
    assert!(g.release().is_none());
    assert_eq!(lock.reader_count(), Some(1));
    assert!(s.try_upgradable_read().is_err());
    // The place is lent again, and kept while a writer or a reader is on it.
    let (g, _) = u.try_upgrade().ok().unwrap().downgrade_to_upgradable();
    let t = g.try_upgrade();
    assert!(t.left.is_none());
    let (g, _) = t.guard.ok().unwrap().downgrade_to_upgradable();
    let (r, left) = g.downgrade();
    assert!(left.is_none() && r.release().is_none());
    assert!(u.into_guard().release().unwrap().by.is_succ());
    assert_eq!(lock.reader_count(), Some(0));
    assert!(s.try_write().is_ok());
}

#[test]
fn a_waker_that_wakes_another_task_is_replaced() {
    let first = Arc::new(Count(AtomicUsize::new(0)));
    let second = Arc::new(Count(AtomicUsize::new(0)));
    let (mut node, slot) = WaitNode::new(1, WaitKind::Write);
    node.set_waker(slot, &Waker::from(first.clone()));
    node.set_waker(slot, &Waker::from(second.clone()));
    assert_eq!(node.pending_count(), 1);
    let mut out = Vec::new();
    node.admit_waiting(&mut out, Admit::All);
    for w in out {
        w.wake();
    }
    assert_eq!(first.0.load(Ordering::SeqCst), 0);
    assert_eq!(second.0.load(Ordering::SeqCst), 1);
}

#[test]
fn a_task_cancelled_before_it_waits_leaves_the_queue_alone() {
    let core = RwCore::new(StateCell::<AtomicUsize, StrictOrderings>::new(AtomicUsize::new(0)));
    let mut q = QueuePayload::new();
    let waker = Waker::from(Arc::new(Count(AtomicUsize::new(0))));
    let hold = core.try_fast(WaitKind::Write);
    assert!(hold.is_succ());
    let mut f = AcquireFuture::new(WaitKind::Write);
    let p = f.poll(true, &core, &mut q, &waker);
    assert_eq!(p.out, AcqPoll::Ready(Err(CoopRwLockError::Cancelled)));
    assert!(p.polled.is_none() && p.gave_up.is_none() && f.inner_.is_none());
    assert!(q.is_empty() && !core.state_().waiters_present());
    core.release_writer();
    let mut f = AcquireFuture::new(WaitKind::Read);
    let p = f.poll(false, &core, &mut q, &waker);
    assert_eq!(p.out, AcqPoll::Ready(Ok(())));
    assert!(p.polled.unwrap().came_by().unwrap().is_succ());
    assert_eq!(core.reader_count(), 1);
}

#[test]
fn error_texts_of_the_cooperative_lock() {
    assert_eq!(CoopRwLockError::WouldBlock.to_string(), "CoopRwLockError::WouldBlock");
    assert_eq!(CoopRwLockError::Cancelled.to_string(), "CoopRwLockError::Cancelled");
    assert_eq!(CoopRwLockError::Poisoned.to_string(), "CoopRwLockError::Poisoned");
}

#[test]
fn nodes_and_slots() {
    assert!(WaitKind::Read.is_readish() && WaitKind::UpgradableRead.is_readish());
    assert!(!WaitKind::Write.is_readish() && !WaitKind::Upgrade.is_readish());
    assert!(SlotState::Waiting.is_pending() && SlotState::Admitted.is_pending());
    assert!(!SlotState::Acquired.is_pending() && !SlotState::Cancelled.is_pending());

    let mut slots = Vec::new();
    assert_eq!(push_slot_into_(&mut slots, WaitKind::Read), 0);
    assert_eq!(push_slot_into_(&mut slots, WaitKind::Write), 1);
    assert!(slots[1].waker_.is_none() && slots[1].state_ == SlotState::Waiting);

    let count = Arc::new(Count(AtomicUsize::new(0)));
    let waker = Waker::from(count.clone());
    let (mut node, slot) = WaitNode::new(5, WaitKind::Read);
    assert_eq!((node.id(), slot, node.is_readish()), (5, 0, true));
    assert_eq!(node.push_readish_slot(WaitKind::UpgradableRead), 1);
    assert_eq!(node.push_readish_slot(WaitKind::UpgradableRead), 2);
    assert_eq!(node.slot_kind(1), WaitKind::UpgradableRead);
    assert_eq!(node.pending_count(), 3);
    // Nobody has left a waker yet.
    let mut out = Vec::new();
    node.admit_waiting(&mut out, Admit::All);
    assert!(out.is_empty());
    for i in 0..3 {
        node.set_waker(i, &waker);
    }
    node.admit_waiting(&mut out, Admit::Readers(true));
    assert_eq!(out.len(), 1);
    node.admit_waiting(&mut out, Admit::Readers(false));
    assert_eq!(out.len(), 2);
    assert_eq!(node.slot_state(0), SlotState::Admitted);
    assert_eq!(node.slot_state(1), SlotState::Admitted);
    assert_eq!(node.slot_state(2), SlotState::Waiting);
    node.mark_acquired(0);
    node.mark_cancelled(2);
    assert_eq!(node.pending_count(), 1);
    node.set_waker(1, &waker);
    assert_eq!(node.slot_state(1), SlotState::Waiting);
    for w in out {
        w.wake();
    }
    assert_eq!(count.0.load(Ordering::SeqCst), 2);

    let (solo, _) = WaitNode::new(6, WaitKind::Upgrade);
    assert_eq!(solo.solo_kind(), WaitKind::Upgrade);
}

#[test]
fn the_spin_lock_is_held_by_one() {
    let lock = SpinLock::new(AtomicUsize::new(0));
    assert!(lock.lock(0).is_none());
    let g = lock.lock(8).unwrap();
    assert!(lock.lock(8).is_none());
    g.release();
    let g = lock.lock(8).unwrap();
    lock.unlock_();
    assert!(lock.lock(8).is_some());
    drop(g);
}

#[test]
fn steps_of_the_cooperative_word() {
    assert_eq!(K_WRITER_ACTIVE::<u8>(), 0x80);
    assert_eq!(K_WAITERS_PRESENT::<u8>(), 0x40);
    assert_eq!(K_WRITER_QUEUED::<u8>(), 0x20);
    assert_eq!(K_UPGRADE_ACTIVE::<u8>(), 0x10);
    assert_eq!(K_MAX_READER_COUNT::<u8>(), 0x0f);
    assert_eq!(get_reader_count_(0xf5u8), 5);
    assert_eq!(readers_in(0xf5u8), Some(5));
    let snap = snapshot_of(0xb3u8);
    assert!(snap.writer_active && snap.writer_queued && snap.upgrade_active);
    assert_eq!(snap.reader_count, 3);

    let next = |step: CoopStep, v: u8| {
        let e = <CoopStep as Step<u8>>::expect(step, v);
        if e { Some(<CoopStep as Step<u8>>::desire(step, v)) } else { None }
    };
    assert_eq!(next(CoopStep::ReadFast, 0x51), Some(0x52));
    assert_eq!(next(CoopStep::ReadFast, 0x61), None);
    assert_eq!(next(CoopStep::ReadFast, 0x0f), None);
    assert_eq!(next(CoopStep::ReadQueued, 0x61), Some(0x62));
    assert_eq!(next(CoopStep::WriteFast, 0x40), None);
    assert_eq!(next(CoopStep::WriteFast, 0x00), Some(0x80));
    assert_eq!(next(CoopStep::WriteQueued, 0x60), Some(0xe0));
    assert_eq!(next(CoopStep::WriteQueued, 0x10), None);
    assert_eq!(next(CoopStep::UpgradableReadFast, 0x01), Some(0x12));
    assert_eq!(next(CoopStep::UpgradableReadFast, 0x41), None);
    assert_eq!(next(CoopStep::UpgradableReadQueued, 0x0f), None);
    assert_eq!(next(CoopStep::ReleaseUpgradable, 0x52), Some(0x41));
    assert_eq!(next(CoopStep::ReleaseUpgradable, 0x10), None);
    assert_eq!(next(CoopStep::ReleaseWriter, 0xf1), Some(0x71));
    assert_eq!(next(CoopStep::Upgrade, 0x11), Some(0x91));
    assert_eq!(next(CoopStep::Upgrade, 0x91), None);
    assert_eq!(next(CoopStep::WriteToRead, 0xe0), Some(0x61));
    assert_eq!(next(CoopStep::WriteToRead, 0x8f), Some(0x10));
    assert_eq!(next(CoopStep::WriteToUpgradable, 0x80), Some(0x11));
    assert_eq!(next(CoopStep::UpgradableToRead, 0x12), Some(0x02));
    assert_eq!(next(CoopStep::MarkBoth, 0x81), Some(0xe1));
    assert_eq!(next(CoopStep::ClearBoth, 0xe1), Some(0x81));
    assert_eq!(next(CoopStep::MarkWaiters, 0x00), Some(0x40));
    assert_eq!(next(CoopStep::ClearWaiters, 0x60), Some(0x20));
    assert_eq!(next(CoopStep::MarkWriterQueued, 0x40), Some(0x60));
    assert_eq!(next(CoopStep::ClearWriterQueued, 0x60), Some(0x40));

    type Small = CoopRwState<StateCell<AtomicU8, StrictOrderings>>;
    let st: Small = CoopRwState::new(StateCell::new(AtomicU8::new(0x0f)));
    assert!(!st.try_read_queued().is_succ());
    assert!(st.release_reader().is_succ());
    assert!(st.try_upgradable_read_fast().is_succ());
    assert_eq!(st.load_state().word(), 0x1f);
}
