use core::sync::atomic::{AtomicU32, AtomicU8, AtomicUsize};

use atomex::{CmpxchResult, LocksOrderings, StrictOrderings, TrAtomicFlags};
use atomic_sync::cancel::{CancelledToken, NonCancellableToken, TrCancellationToken};
use atomic_sync::cell::{StateCell, Step, WordCell};
use atomic_sync::mutex::ticketing::spinning::{
    Acquiring, MutexGuard, NoGuard, NotAcquired, SpinningMutex,
};
use atomic_sync::mutex::ticketing::state::{
    desire_report_flag_on, desire_ticket_inc, drawn_number, expect_can_get_ticket,
    expect_report_flag_off, expect_report_flag_on, expect_service_0, merge_service_and_ticket,
    number_of, split_service_and_ticket, word_is_acquired, MutexState, NoTicket, TicketStep, K_HALF_MAX,
    K_NON_FLAG_MASK, K_POISON_FLAG, K_REPORT_FLAG, K_SERVICE_MASK, K_TICKET_MASK,
};
use atomic_sync::mutex::ticketing::wait::{AcqSt, TicketCtx, WaitEnd, WaitState, REPORT_MAX_CHK};

type Cell = StateCell<AtomicUsize, StrictOrderings>;
type Cell8 = StateCell<AtomicU8, StrictOrderings>;
type Cell32 = StateCell<AtomicU32, StrictOrderings>;

fn new_lock() -> SpinningMutex<Cell> {
    SpinningMutex::new(StateCell::new(AtomicUsize::new(0)))
}

fn wait<C: WordCell>(lock: &SpinningMutex<C>) -> MutexGuard<'_, C> {
    let mut task = lock.acquire();
    loop {
        match task.wait(64) {
            Ok(g) => return g,
            Err(NotAcquired::Pending(t)) => task = t,
            Err(_) => panic!("nobody has given up"),
        }
    }
}

fn word8(report: bool, poison: bool, service: u8, ticket: u8) -> u8 {
    ((report as u8) << 7) | ((poison as u8) << 6) | (service << 3) | ticket
}

fn state8(word: u8) -> MutexState<Cell8> {
    MutexState::new(StateCell::new(AtomicU8::new(word)))
}

fn value8(s: &MutexState<Cell8>) -> u8 {
    WordCell::value(s.as_cell()).word()
}

#[test]
fn smoke_test() {
    const ANSWER: usize = 42;
    const SECRET: usize = 58;

    let mutex = new_lock();
    let mut data = ANSWER;
    {
        let m = wait(&mutex);
        assert_eq!(data, ANSWER);
        data = SECRET;
        assert!(m.release().is_ok());
    }
    let m = wait(&mutex);
    assert_eq!(data, SECRET);
    assert!(m.release().is_ok());
}

#[test]
fn spinning__try_acquired_smoke() {
    let mutex = new_lock();
    let data = 1usize;
    let guard = mutex.try_acquire(64).ok().unwrap();
    assert!(mutex.is_acquired());
    assert_eq!(data, 1);
    assert!(mutex.try_acquire(64).is_err());
    assert!(guard.release().is_ok());
    assert!(!mutex.is_acquired());
}

/// One try of a worker that counts the numbers it is to count.
fn work<C: WordCell>(
    mutex: &SpinningMutex<C>,
    data: &mut usize,
    max: usize,
    parity: usize,
    vec: &mut Vec<usize>,
) -> bool {
    let got = mutex.acquire().may_cancel_with(&CancelledToken, 64);
    let Ok(guard) = got else {
        return false;
    };
    let done = *data >= max;
    if !done && *data % 2 == parity {
        *data += 1;
        vec.push(*data);
    }
    assert!(guard.release().is_ok());
    done
}

/// Two workers take turns.
fn two_workers<C: WordCell>(mutex: &SpinningMutex<C>) {
    const TEST_MAX: usize = 16;
    let mut data = 0usize;
    let (mut v1, mut v2) = (Vec::new(), Vec::new());
    let (mut done1, mut done2) = (false, false);
    while !(done1 && done2) {
        done1 = done1 || work(mutex, &mut data, TEST_MAX, 1, &mut v1);
        done2 = done2 || work(mutex, &mut data, TEST_MAX, 0, &mut v2);
    }
    assert_eq!(v1.len(), TEST_MAX / 2);
    assert_eq!(v2.len(), TEST_MAX / 2);
    assert!(v1.into_iter().all(|u| u % 2 == 0));
    assert!(v2.into_iter().all(|u| u % 2 == 1));
}

#[test]
fn spinning__multithreaded_smoke_strict_orderings() {
    two_workers(&new_lock())
}

#[test]
fn spinning__multithreaded_smoke_locks_orderings() {
    let cell = StateCell::<AtomicUsize, LocksOrderings>::new(AtomicUsize::new(0));
    two_workers(&SpinningMutex::new(cell))
}

#[test]
fn mutex_state_mask_test() {
    let s: MutexState<Cell32> = MutexState::new(StateCell::new(AtomicU32::new(0)));
    let v = WordCell::value(s.as_cell()).word();
    assert_eq!(v, 0);
    assert!(expect_can_get_ticket(v));
    let v = desire_report_flag_on(v);
    assert!(!expect_can_get_ticket(v));

    assert_eq!(K_REPORT_FLAG::<u32>(), 1 << 31);
    assert_eq!(K_HALF_MAX::<u32>(), (1 << 15) - 1);
    assert_eq!(K_SERVICE_MASK::<u32>(), ((1 << 15) - 1) << 15);
    assert_eq!(K_SERVICE_MASK::<u32>(), K_TICKET_MASK::<u32>() << 15);
    {
        let (s, t) = split_service_and_ticket(v);
        assert!(s == 0 && t == 0);
        let v1 = merge_service_and_ticket(v, s, 1);
        assert!(expect_report_flag_on(v1));
        let (s1, t1) = split_service_and_ticket(v1);
        assert!(s1 == s && t1 == 1);
    }

    let r = TrAtomicFlags::try_spin_compare_exchange_weak(
        s.as_cell(),
        expect_report_flag_off,
        desire_report_flag_on,
    );
    assert!(r.is_succ());
    assert_eq!(WordCell::value(s.as_cell()).word(), v);

    let r = s.spin_get_ticket(&CancelledToken, 0, 64);
    assert!(r.is_err())
}

#[test]
fn mutex_state_update_test() {
    let m = 1u8;
    let expect = |v| {
        let (srv, _) = split_service_and_ticket(v);
        expect_report_flag_off(v) && srv < m
    };
    let desire = |v| {
        let u = desire_report_flag_on(v);
        let (s, _) = split_service_and_ticket(u);
        merge_service_and_ticket(u, s, m)
    };
    let s = state8(0);
    let r = TrAtomicFlags::try_spin_compare_exchange_weak(s.as_cell(), expect, desire);
    assert!(matches!(r, CmpxchResult::Succ(_)));
    let v = value8(&s);
    assert!(expect_report_flag_on(v));
    assert!(!expect_report_flag_off(v));
    assert!(s.spin_get_ticket(&CancelledToken, 0, 64).is_err());
}

#[test]
fn masks_of_a_small_word() {
    assert_eq!(K_REPORT_FLAG::<u8>(), 0x80);
    assert_eq!(K_POISON_FLAG::<u8>(), 0x40);
    assert_eq!(K_NON_FLAG_MASK::<u8>(), 0x3f);
    assert_eq!(K_HALF_MAX::<u8>(), 7);
    assert_eq!(split_service_and_ticket(word8(true, true, 5, 6)), (5, 6));
    assert_eq!(
        merge_service_and_ticket(word8(true, true, 5, 6), 1, 2),
        word8(true, true, 1, 2)
    );
    assert_eq!(desire_ticket_inc(word8(false, true, 3, 4)), word8(false, true, 3, 5));
    assert!(expect_service_0(word8(false, false, 0, 1)));
    assert!(!expect_service_0(word8(false, false, 0, 0)));
    assert!(word_is_acquired(word8(false, true, 0, 0)));
    assert!(!word_is_acquired(0u8));
    assert_eq!(drawn_number(word8(false, false, 2, 6)), 7);
}

#[test]
fn no_number_is_drawn_where_none_is_left() {
    let full = word8(false, false, 2, 7);
    assert!(!expect_can_get_ticket(full));
    assert!(!expect_can_get_ticket(word8(false, false, 3, 2)));
    let s = state8(full);
    assert!(matches!(
        s.spin_get_ticket(&NonCancellableToken, 0, 3),
        Err(NoTicket::Pending(v)) if v == full
    ));
    assert!(matches!(s.spin_get_ticket(&CancelledToken, 0, 3), Err(NoTicket::Cancelled)));
    assert_eq!(value8(&s), full);
}

#[test]
fn release_serves_the_next_number_or_starts_anew() {
    // Another number is out.
    let s = state8(word8(false, true, 2, 4));
    assert_eq!(s.try_release(2), Ok(word8(false, true, 2, 4)));
    assert_eq!(value8(&s), word8(false, true, 3, 4));
    // None is out: the numbers start anew, and the poison flag stays.
    let s = state8(word8(false, true, 4, 4));
    assert!(s.try_release(4).is_ok());
    assert_eq!(value8(&s), word8(false, true, 0, 0));
    // With the report flag on they do not.
    let s = state8(word8(true, false, 4, 4));
    assert!(s.try_release(4).is_ok());
    assert_eq!(value8(&s), word8(true, false, 5, 4));
    // The largest number leaves a word of zero.
    let s = state8(word8(false, true, 7, 7));
    assert!(s.try_release(7).is_ok());
    assert_eq!(value8(&s), 0);
    // A number that is not served is not given back.
    let s = state8(word8(false, false, 2, 4));
    assert_eq!(s.try_release(3), Err(word8(false, false, 2, 4)));
    let s = state8(word8(false, false, 7, 6));
    assert!(s.try_release(7).is_err());
    assert_eq!(value8(&s), word8(false, false, 7, 6));
}

fn turn(s: &MutexState<Cell8>, w: WaitState<u8>, cancelled: bool) -> WaitState<u8> {
    if cancelled {
        TicketCtx::new(s, &CancelledToken, w.m).take_turn_(w).next
    } else {
        TicketCtx::new(s, &NonCancellableToken, w.m).take_turn_(w).next
    }
}

#[test]
fn a_waiting_task_looks_and_decides() {
    let standby = WaitState::enter(AcqSt::TicketStandby, 3u8);
    // Its number is served.
    assert_eq!(turn(&state8(word8(false, false, 3, 4)), standby, true).a, AcqSt::AcqCompleted);
    // Nothing to do yet.
    assert_eq!(turn(&state8(word8(false, false, 2, 4)), standby, false).a, AcqSt::TicketStandby);
    // The token comes before the report flag.
    assert_eq!(turn(&state8(word8(true, false, 2, 4)), standby, true).a, AcqSt::ProactPrepare);
    assert_eq!(turn(&state8(word8(true, false, 2, 4)), standby, false).a, AcqSt::ReportStandby);
    assert_eq!(turn(&state8(word8(true, false, 1, 2)), standby, false).a, AcqSt::PassivePrepare);
    // The first number has itself served.
    let s = state8(word8(false, false, 0, 2));
    let first = WaitState::enter(AcqSt::TicketStandby, 1u8);
    assert_eq!(turn(&s, first, true).a, AcqSt::TicketStandby);
    assert_eq!(value8(&s), word8(false, false, 1, 2));
    assert_eq!(turn(&s, first, true).a, AcqSt::AcqCompleted);
}

#[test]
fn a_task_gives_up_its_number() {
    let s = state8(word8(false, false, 1, 3));
    let w = turn(&s, WaitState::enter(AcqSt::ProactPrepare, 2u8), true);
    assert_eq!(w.a, AcqSt::ProactSubmit);
    assert_eq!(value8(&s), word8(true, false, 1, 2));
    // Another one that gives up must wait.
    assert_eq!(
        turn(&s, WaitState::enter(AcqSt::ProactPrepare, 3u8), true).a,
        AcqSt::TicketStandby
    );
    // Nobody takes the number over: after so many looks the task is the last.
    let mut w = w;
    for i in 0..REPORT_MAX_CHK {
        assert_eq!((w.a, w.i), (AcqSt::ProactSubmit, i));
        w = turn(&s, w, true);
    }
    w = turn(&s, w, true);
    assert_eq!(w.a, AcqSt::ReportFlagRst);
    w = turn(&s, w, true);
    assert_eq!(w.a, AcqSt::AcqCancelled);
    assert_eq!(value8(&s), word8(false, false, 1, 2));
}

#[test]
fn a_task_moves_up_to_the_number_given_up() {
    let s = state8(word8(true, false, 1, 2));
    let w = turn(&s, WaitState::enter(AcqSt::PassivePrepare, 3u8), false);
    assert_eq!((w.a, w.m), (AcqSt::PassiveSubmit, 2));
    assert_eq!(value8(&s), word8(true, false, 1, 3));
    // Its former number is past its new one: there is nothing left to report.
    assert_eq!(turn(&s, w, false).a, AcqSt::ReportStandby);
    // The one whose number was given up sees that it was taken over.
    assert_eq!(
        turn(&s, WaitState::enter(AcqSt::ProactSubmit, 2u8), true).a,
        AcqSt::AcqCancelled
    );
    // A task that is not behind the number given up goes on with what it finds.
    let w = turn(&s, WaitState::enter(AcqSt::PassivePrepare, 3u8), false);
    assert_eq!((w.a, w.m), (AcqSt::ReportStandby, 3));
    let s = state8(word8(true, false, 1, 5));
    let w = turn(&s, WaitState::enter(AcqSt::PassivePrepare, 3u8), false);
    assert_eq!((w.a, w.m), (AcqSt::ReportStandby, 5));
    assert_eq!(value8(&s), word8(true, false, 1, 5));
}

#[test]
fn a_reporting_task_goes_on_or_is_overrun() {
    let standby = WaitState::enter(AcqSt::ReportStandby, 3u8);
    assert_eq!(turn(&state8(word8(true, false, 3, 4)), standby, false).a, AcqSt::AcqCompleted);
    assert_eq!(turn(&state8(word8(false, false, 2, 4)), standby, false).a, AcqSt::TicketStandby);
    assert_eq!(turn(&state8(word8(true, false, 2, 4)), standby, false).a, AcqSt::ReportStandby);
    assert_eq!(turn(&state8(word8(true, false, 4, 4)), standby, false).a, AcqSt::AcqOverrun);
    // Turning the flag off skips the number of a cancelled task that is served.
    let s = state8(word8(true, true, 3, 5));
    assert_eq!(
        turn(&s, WaitState::enter(AcqSt::ReportFlagRst, 3u8), true).a,
        AcqSt::AcqCancelled
    );
    assert_eq!(value8(&s), word8(false, true, 4, 5));
    let s = state8(word8(true, false, 7, 7));
    turn(&s, WaitState::enter(AcqSt::ReportFlagRst, 7u8), true);
    assert_eq!(value8(&s), word8(false, false, 0, 7));
    let s = state8(word8(true, false, 3, 5));
    assert_eq!(
        turn(&s, WaitState::enter(AcqSt::ReportFlagRst, 3u8), false).a,
        AcqSt::TicketStandby
    );
    assert_eq!(value8(&s), word8(false, false, 3, 5));
    // A task that has moved up looks as often as one that gives up.
    let s = state8(word8(true, false, 1, 2));
    let mut w = WaitState::enter(AcqSt::PassiveSubmit, 2u8);
    for _ in 0..REPORT_MAX_CHK {
        w = turn(&s, w, false);
        assert_eq!(w.a, AcqSt::PassiveSubmit);
    }
    assert_eq!(turn(&s, w, false).a, AcqSt::ReportFlagRst);
}

#[test]
fn a_wait_ends_as_its_last_turn_does() {
    let s = state8(word8(false, false, 2, 4));
    let x = TicketCtx::new(&s, &NonCancellableToken, 3u8);
    let r = x.spin_wait(x.start(), 5);
    assert!(matches!(r, Err(WaitEnd::Pending(w)) if w.a == AcqSt::TicketStandby && w.m == 3));
    assert!(s.try_release(2).is_ok());
    assert!(matches!(x.spin_wait(x.start(), 5), Ok(3)));
    let s = state8(word8(true, false, 4, 4));
    let x = TicketCtx::new(&s, &NonCancellableToken, 3u8);
    assert!(matches!(x.spin_wait(x.start(), 5), Err(WaitEnd::Overrun)));
}

#[test]
fn tasks_are_served_in_the_order_of_their_numbers() {
    let lock = new_lock();
    let g1 = wait(&lock);
    assert_eq!(g1.ticket_number(), 1);
    let Err(NotAcquired::Pending(t2)) = lock.acquire().wait(8) else {
        panic!("the lock is held")
    };
    let Err(NotAcquired::Pending(t3)) = lock.acquire().wait(8) else {
        panic!("the lock is held")
    };
    assert!(matches!(t2.progress(), Acquiring::Waiting(w) if w.m == 2));
    assert!(matches!(t3.progress(), Acquiring::Waiting(w) if w.m == 3));
    assert!(g1.release().is_ok());
    // The later one does not get the lock before the earlier one.
    let Err(NotAcquired::Pending(t3)) = t3.wait(8) else {
        panic!("another number is served")
    };
    let g2 = t2.wait(8).ok().unwrap();
    assert_eq!(g2.ticket_number(), 2);
    assert!(g2.release().is_ok());
    let g3 = t3.wait(8).ok().unwrap();
    assert!(g3.release().is_ok());
    assert!(!lock.is_acquired());
}

#[test]
fn a_cancelled_task_leaves_the_holder_alone() {
    let lock = new_lock();
    let g = wait(&lock);
    let mut p = lock.acquire().progress();
    loop {
        match lock.spin_acquire_with_cancel(&CancelledToken, p, 16) {
            Ok(_) => panic!("the lock is held"),
            Err(NoGuard::Cancelled) => break,
            Err(NoGuard::Overrun) => panic!("nothing overtakes the task"),
            Err(NoGuard::Pending(q)) => p = q,
        }
    }
    assert!(g.release().is_ok());
}

#[test]
fn a_number_is_held_until_it_is_given_back() {
    let s = state8(word8(false, false, 1, 2));
    assert_eq!(s.spin_get_ticket(&NonCancellableToken, 0, 4).ok(), Some(3));
    assert!(s.try_release(2).is_err());
    let (service, ticket) = split_service_and_ticket(value8(&s));
    assert_eq!((service, ticket), (1, 3));
    let t = s.draw_(word8(false, false, 1, 3));
    assert_eq!(number_of(&t), Some(4));
    let t = s.draw_(word8(false, false, 1, 3));
    assert_eq!(number_of(&t), None);
    assert!(s.release_(1).is_succ());
    assert_eq!(value8(&s), word8(false, false, 2, 4));
}

#[test]
fn steps_expect_and_desire_what_they_say() {
    let v = word8(false, false, 0, 3);
    assert!(TicketStep::<u8>::GetTicket.expect(v));
    assert_eq!(TicketStep::<u8>::GetTicket.desire(v), word8(false, false, 0, 4));
    assert_eq!(TicketStep::<u8>::ServeFirst.desire(v), word8(false, false, 1, 3));
    assert!(!TicketStep::MoveUp(4u8).expect(v));
    assert_eq!(TicketStep::GiveUp(2u8).desire(v), word8(true, false, 0, 2));
    assert!(!TicketStep::<u8>::ReportOff.expect(v));
    assert!(!NonCancellableToken.is_cancelled());
}

#[test]
fn the_nth_draw_gives_n_and_the_release_serves_the_next() {
    let s = state8(0);
    assert_eq!(s.spin_get_ticket(&NonCancellableToken, 0, 4).ok(), Some(1));
    assert_eq!(s.spin_get_ticket(&NonCancellableToken, 0, 4).ok(), Some(2));
    assert_eq!(s.spin_get_ticket(&NonCancellableToken, 0, 4).ok(), Some(3));
    assert_eq!(value8(&s), word8(false, false, 0, 3));
    let s = state8(word8(false, false, 1, 2));
    assert_eq!(s.try_release(1), Ok(word8(false, false, 1, 2)));
    assert_eq!(value8(&s), word8(false, false, 2, 2));
    assert_eq!(s.try_release(1), Err(word8(false, false, 2, 2)));
    assert_eq!(s.try_release(2), Ok(word8(false, false, 2, 2)));
    assert_eq!(value8(&s), 0);
    // A number that is given up keeps the numbers from starting anew.
    let s = state8(word8(true, false, 2, 2));
    assert!(s.try_release(2).is_ok());
    assert_eq!(value8(&s), word8(true, false, 3, 2));
}
