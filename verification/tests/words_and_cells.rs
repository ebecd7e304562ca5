use core::sync::atomic::{AtomicU16, AtomicU64, AtomicU8, AtomicUsize};

use atomex::{LocksOrderings, StrictOrderings};
use atomic_sync::cell::{StateCell, TrialEnd, WordCell};
use atomic_sync::rwlock::preemptive::state::RwStep;
use atomic_sync::rwlock::sequential::{guard_, next_guess, AcqLink, FollowEnd, LinkStep};
use atomic_sync::word::StateWord;

fn operations<D: StateWord>(top: u32) {
    assert_eq!(D::width(), top + 1);
    let one = D::single(0);
    let high = D::single(top);
    assert!(high.bit(top) && !high.bit(0) && one.bit(0));
    let both = high.with_bit(0);
    assert!(both.same(high.plus(one)));
    assert!(both.without_bit(top).same(one));
    assert!(both.minus(one).same(high));
    assert!(both.low(3).same(one));
    assert!(high.shr(top).same(one));
    assert!(one.shl(top).same(high));
    assert!(one.less(high) && !high.less(one) && !one.less(one));
    assert!(one.wrapping_dec().same(D::zero()));
    assert!(high.less(D::zero().wrapping_dec()));
    assert_eq!(both.low(top).to_usize(), Some(1));
}

#[test]
fn words_of_every_width() {
    operations::<u8>(7);
    operations::<u16>(15);
    operations::<u32>(31);
    operations::<u64>(63);
    operations::<usize>(usize::BITS - 1);
}

fn exchanges<C: WordCell>(cell: C) {
    let one = C::Word::single(0);
    let a = cell.try_spin(RwStep::Read);
    assert!(a.is_succ() && a.word().same(C::Word::zero()));
    assert!(cell.value().word().same(one));
    let a = cell.try_spin(RwStep::Write);
    assert!(!a.is_succ());
    assert!(a.into_result().err().unwrap().same(one));
    // A guess that does not meet the condition is handed back.
    let t = cell.try_once(one, RwStep::Write);
    assert_eq!(t.outcome(), TrialEnd::Unexpected);
    assert!(t.word().same(one));
    // A wrong guess brings the word back.
    let t = cell.try_once(C::Word::zero(), RwStep::Write);
    assert_eq!(t.outcome(), TrialEnd::Fail);
    assert!(t.word().same(one));
    let t = cell.try_once(one, RwStep::ReadDrop);
    assert_eq!(t.outcome(), TrialEnd::Succ);
    assert!(cell.value().word().same(C::Word::zero()));
}

#[test]
fn cells_of_every_kind() {
    exchanges(StateCell::<AtomicU8, StrictOrderings>::new(AtomicU8::new(0)));
    exchanges(StateCell::<AtomicU16, LocksOrderings>::new(AtomicU16::new(0)));
    exchanges(StateCell::<AtomicU64, StrictOrderings>::new(AtomicU64::new(0)));
    exchanges(StateCell::<AtomicUsize, LocksOrderings>::new(AtomicUsize::new(0)));
    let cell = StateCell::<AtomicUsize, StrictOrderings>::new(AtomicUsize::new(0));
    exchanges(&cell);
    assert_eq!(cell.into_inner().into_inner(), 0);
}

type Link = AcqLink<StateCell<AtomicUsize, StrictOrderings>>;

fn link(prev: usize, next: usize) -> Link {
    AcqLink::new(StateCell::new(AtomicUsize::new(prev)), StateCell::new(AtomicUsize::new(next)))
}

#[test]
fn a_link_is_followed_once() {
    let head = link(16, 0);
    let own = link(0, 0);
    let f = own.try_follow(64, &head, 32, 0, 4);
    assert_eq!(f.end, FollowEnd::Followed(16));
    // The next one finds it taken, and the link before it as it was.
    let other = link(0, 0);
    let f = other.try_follow(80, &head, 32, 0, 4);
    assert_eq!(f.end, FollowEnd::Taken(64));
    let f = other.try_follow(80, &own, 64, 0, 4);
    assert_eq!(f.end, FollowEnd::Followed(32));
}

#[test]
fn a_locked_link_is_waited_for() {
    let head = link(guard_(), 0);
    let own = link(0, 0);
    let f = own.try_follow(64, &head, 32, 0, 3);
    assert_eq!(f.end, FollowEnd::Pending(0));
    assert!(f.locked.is_none());
    assert_eq!(next_guess(3, 7), 7);
    assert_eq!(next_guess(3, usize::MAX), 3);
    let cell = StateCell::<AtomicUsize, StrictOrderings>::new(AtomicUsize::new(5));
    assert!(!cell.try_spin(LinkStep::Lock(4)).is_succ());
    assert!(cell.try_spin(LinkStep::Lock(5)).is_succ());
    assert_eq!(cell.value().word(), usize::MAX);
    assert!(cell.try_spin(LinkStep::Put(9)).is_succ());
    assert_eq!(cell.value().word(), 9);
}

#[test]
fn a_cell_lends_its_own_atomic() {
    let cell: StateCell<AtomicU16, StrictOrderings> = StateCell::new(AtomicU16::new(3));
    let atomic: &AtomicU16 = cell.as_ref();
    atomic.store(7, core::sync::atomic::Ordering::SeqCst);
    assert_eq!(cell.value().word(), 7);
    assert_eq!((&cell).value().word(), 7);
    assert_eq!(cell.into_inner().into_inner(), 7);
}
