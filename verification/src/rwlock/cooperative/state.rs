//! The state word of the cooperative reader-writer lock.
//!
//! This file says how the right to the lock passes between readers and writers,
//! and nothing of the queue in which they wait. From the top, the word holds
//! the flag of an active writer, the mark that somebody waits in the queue, the
//! mark that a writer waits there, the flag of an upgradable reader, and the
//! number of readers. An upgradable reader counts as a reader too. A word of
//! zero is a free lock.
//!
//! The two marks change only while the queue is locked. A writer or an
//! upgradable reader does not come in past anybody who waits; a reader does not
//! come in past a writer that waits.
//!
//! An upgradable reader that becomes a writer keeps its flag and its count:
//! it has its place back once the writer has left.

use vstd::arithmetic::mul::*;
use vstd::arithmetic::power2::*;
use vstd::prelude::*;

use crate::cell;
use crate::cell::{Attempt, Loaded, Step, WordCell};
use crate::fields;
use crate::word;
use crate::word::StateWord;

verus! {

/// The parts of a state word.
pub struct CoopFields {
    /// A writer holds the lock.
    pub writer: bool,
    /// Somebody waits in the queue.
    pub waiters: bool,
    /// A writer waits in the queue, or an upgradable reader that is to become
    /// one.
    pub writer_queued: bool,
    /// An upgradable reader holds the lock.
    pub upgrade: bool,
    /// How many readers hold the lock.
    pub readers: nat,
}

/// The place of the lowest flag.
pub open spec fn flags_at(bits: nat) -> nat {
    (bits - 4) as nat
}

/// The largest number of readers.
pub open spec fn max_readers(bits: nat) -> nat {
    (pow2(flags_at(bits)) - 1) as nat
}

/// The parts of the word that stands for `v`.
pub open spec fn fields_of(v: nat, bits: nat) -> CoopFields {
    CoopFields {
        writer: word::bit_at(v, (bits - 1) as nat),
        waiters: word::bit_at(v, (bits - 2) as nat),
        writer_queued: word::bit_at(v, (bits - 3) as nat),
        upgrade: word::bit_at(v, (bits - 4) as nat),
        readers: v % pow2(flags_at(bits)),
    }
}

/// The flags as the number that the four topmost bits hold.
pub open spec fn flags_of(f: CoopFields) -> nat {
    (if f.writer {
        8nat
    } else {
        0
    }) + (if f.waiters {
        4nat
    } else {
        0
    }) + (if f.writer_queued {
        2nat
    } else {
        0
    }) + (if f.upgrade {
        1nat
    } else {
        0
    })
}

/// The number of the word with the parts `f`.
pub open spec fn word_of(f: CoopFields, bits: nat) -> nat {
    flags_of(f) * pow2(flags_at(bits)) + f.readers
}

impl CoopFields {
    /// A lock that nobody holds or waits for.
    pub open spec fn free() -> CoopFields {
        CoopFields {
            writer: false,
            waiters: false,
            writer_queued: false,
            upgrade: false,
            readers: 0,
        }
    }
}

/// The parts of a state word.
pub open spec fn coop_view<D: StateWord>(w: D) -> CoopFields {
    fields_of(w.val(), D::bits())
}

/// A word is told by its parts.
pub proof fn lemma_fields(v: nat, bits: nat)
    requires
        8 <= bits,
        v < pow2(bits),
    ensures
        fields_of(v, bits).readers <= max_readers(bits),
        word_of(fields_of(v, bits), bits) == v,
        flags_of(fields_of(v, bits)) == v / pow2(flags_at(bits)),
        15 <= max_readers(bits),
        max_readers(bits) + 1 == pow2(flags_at(bits)),
        pow2(bits) == 16 * pow2(flags_at(bits)),
{
    let k = flags_at(bits);
    lemma2_to64();
    fields::lemma_top_bits(v, k);
    fields::lemma_top_bound(v, k, 4);
    if k > 4 {
        lemma_pow2_strictly_increases(4, k);
    }
    assert((bits - 3) as nat == k + 1);
    assert((bits - 2) as nat == k + 2);
    assert((bits - 1) as nat == k + 3);
}

/// Parts that fit are found again in their word.
pub proof fn lemma_word_of(f: CoopFields, bits: nat)
    requires
        8 <= bits,
        f.readers <= max_readers(bits),
    ensures
        word_of(f, bits) < pow2(bits),
        fields_of(word_of(f, bits), bits) == f,
{
    let k = flags_at(bits);
    let v = word_of(f, bits);
    lemma_pow2_pos(k);
    fields::lemma_rejoin(flags_of(f), f.readers, pow2(k));
    fields::lemma_top_bits(v, k);
    lemma_mul_inequality(flags_of(f) as int, 15, pow2(k) as int);
    assert((bits - 3) as nat == k + 1);
    assert((bits - 2) as nat == k + 2);
    assert((bits - 1) as nat == k + 3);
}

/// What setting and clearing the flags, and counting, do to the parts of a
/// word.
proof fn lemma_parts(v: nat, bits: nat)
    requires
        8 <= bits,
        v < pow2(bits),
    ensures
        ({
            let f = fields_of(v, bits);
            &&& fields_of(word::with_bit_at(v, (bits - 1) as nat), bits) == (CoopFields {
                writer: true,
                ..f
            })
            &&& word::with_bit_at(v, (bits - 1) as nat) < pow2(bits)
            &&& fields_of(word::without_bit_at(v, (bits - 1) as nat), bits) == (CoopFields {
                writer: false,
                ..f
            })
            &&& word::without_bit_at(v, (bits - 1) as nat) < pow2(bits)
            &&& fields_of(word::with_bit_at(v, (bits - 2) as nat), bits) == (CoopFields {
                waiters: true,
                ..f
            })
            &&& word::with_bit_at(v, (bits - 2) as nat) < pow2(bits)
            &&& fields_of(word::without_bit_at(v, (bits - 2) as nat), bits) == (CoopFields {
                waiters: false,
                ..f
            })
            &&& word::without_bit_at(v, (bits - 2) as nat) < pow2(bits)
            &&& fields_of(word::with_bit_at(v, (bits - 3) as nat), bits) == (CoopFields {
                writer_queued: true,
                ..f
            })
            &&& word::with_bit_at(v, (bits - 3) as nat) < pow2(bits)
            &&& fields_of(word::without_bit_at(v, (bits - 3) as nat), bits) == (CoopFields {
                writer_queued: false,
                ..f
            })
            &&& word::without_bit_at(v, (bits - 3) as nat) < pow2(bits)
            &&& fields_of(word::with_bit_at(v, (bits - 4) as nat), bits) == (CoopFields {
                upgrade: true,
                ..f
            })
            &&& word::with_bit_at(v, (bits - 4) as nat) < pow2(bits)
            &&& fields_of(word::without_bit_at(v, (bits - 4) as nat), bits) == (CoopFields {
                upgrade: false,
                ..f
            })
            &&& word::without_bit_at(v, (bits - 4) as nat) < pow2(bits)
            &&& f.readers < max_readers(bits) ==> v + 1 < pow2(bits) && fields_of(v + 1, bits) == (
            CoopFields { readers: f.readers + 1, ..f })
            &&& f.readers > 0 ==> v > 0 && fields_of((v - 1) as nat, bits) == (CoopFields {
                readers: (f.readers - 1) as nat,
                ..f
            })
            &&& !f.writer ==> v < 8 * pow2(flags_at(bits))
        }),
{
    let k = flags_at(bits);
    assert((bits - 4) as nat == k);
    assert((bits - 3) as nat == k + 1);
    assert((bits - 2) as nat == k + 2);
    assert((bits - 1) as nat == k + 3);
    lemma_flag_at(v, bits, 0);
    lemma_flag_at(v, bits, 1);
    lemma_flag_at(v, bits, 2);
    lemma_flag_at(v, bits, 3);
    lemma_count(v, bits);
}

/// The parts `f` with the flag at place `i`, from the lowest flag on, set so.
spec fn with_flag(f: CoopFields, i: nat, on: bool) -> CoopFields {
    if i == 0 {
        CoopFields { upgrade: on, ..f }
    } else if i == 1 {
        CoopFields { writer_queued: on, ..f }
    } else if i == 2 {
        CoopFields { waiters: on, ..f }
    } else {
        CoopFields { writer: on, ..f }
    }
}

/// What setting and clearing the flag at place `i`, from the lowest flag on,
/// does to the parts of a word.
proof fn lemma_flag_at(v: nat, bits: nat, i: nat)
    requires
        8 <= bits,
        v < pow2(bits),
        i < 4,
    ensures
        ({
            let f = fields_of(v, bits);
            let on = word::with_bit_at(v, flags_at(bits) + i);
            let off = word::without_bit_at(v, flags_at(bits) + i);
            &&& fields_of(on, bits) == with_flag(f, i, true)
            &&& fields_of(off, bits) == with_flag(f, i, false)
            &&& on < pow2(bits)
            &&& off < pow2(bits)
        }),
{
    let k = flags_at(bits);
    let m = pow2(k);
    let f = fields_of(v, bits);
    lemma_fields(v, bits);
    assert((bits - 4) as nat == k);
    assert((bits - 3) as nat == k + 1);
    assert((bits - 2) as nat == k + 2);
    assert((bits - 1) as nat == k + 3);
    let on = word::with_bit_at(v, k + i);
    let off = word::without_bit_at(v, k + i);
    fields::lemma_flag(v, k, i);
    assert(flags_of(with_flag(f, i, true)) == on / m);
    assert(flags_of(with_flag(f, i, false)) == off / m);
    lemma_from_flags(on, with_flag(f, i, true), bits);
    lemma_from_flags(off, with_flag(f, i, false), bits);
}

/// What counting does to the parts of a word.
proof fn lemma_count(v: nat, bits: nat)
    requires
        8 <= bits,
        v < pow2(bits),
    ensures
        ({
            let f = fields_of(v, bits);
            &&& f.readers < max_readers(bits) ==> v + 1 < pow2(bits) && fields_of(v + 1, bits) == (
            CoopFields { readers: f.readers + 1, ..f })
            &&& f.readers > 0 ==> v > 0 && fields_of((v - 1) as nat, bits) == (CoopFields {
                readers: (f.readers - 1) as nat,
                ..f
            })
            &&& !f.writer ==> v < 8 * pow2(flags_at(bits))
        }),
{
    let m = pow2(flags_at(bits));
    let f = fields_of(v, bits);
    lemma_fields(v, bits);
    lemma_mul_inequality(0, flags_of(f) as int, m as int);
    if f.readers < max_readers(bits) {
        fields::lemma_change(v, m, 0, 1);
        lemma_from_flags(v + 1, CoopFields { readers: f.readers + 1, ..f }, bits);
    }
    if f.readers > 0 {
        fields::lemma_change(v, m, 0, -1);
        lemma_from_flags(
            (v - 1) as nat,
            CoopFields { readers: (f.readers - 1) as nat, ..f },
            bits,
        );
    }
    if !f.writer {
        fields::lemma_below(v, m, 8);
    }
}

/// A number with these flags on top and this count below has these parts.
proof fn lemma_from_flags(v: nat, f: CoopFields, bits: nat)
    requires
        8 <= bits,
        f.readers <= max_readers(bits),
        v / pow2(flags_at(bits)) == flags_of(f),
        v % pow2(flags_at(bits)) == f.readers,
    ensures
        fields_of(v, bits) == f,
        v < pow2(bits),
{
    fields::lemma_top_bits(v, flags_at(bits));
    assert(v == word_of(f, bits));
    lemma_word_of(f, bits);
}

#[allow(non_snake_case)]
pub fn K_WRITER_ACTIVE<D: StateWord>() -> (r: D)
    ensures
        r.val() == pow2((D::bits() - 1) as nat),
    opens_invariants none
{
    D::single(D::width() - 1)
}

pub fn expect_writer_active_<D: StateWord>(s: D) -> (r: bool)
    ensures
        r == coop_view(s).writer,
    opens_invariants none
{
    s.bit(D::width() - 1)
}

pub fn expect_writer_inactive_<D: StateWord>(s: D) -> (r: bool)
    ensures
        r == !coop_view(s).writer,
    opens_invariants none
{
    !expect_writer_active_(s)
}

pub fn desire_writer_active_<D: StateWord>(s: D) -> (r: D)
    ensures
        r.val() == word::with_bit_at(s.val(), (D::bits() - 1) as nat),
        coop_view(r) == (CoopFields { writer: true, ..coop_view(s) }),
    opens_invariants none
{
    proof {
        D::lemma_width();
        s.lemma_word();
        lemma_parts(s.val(), D::bits());
    }
    s.with_bit(D::width() - 1)
}

pub fn desire_writer_inactive_<D: StateWord>(s: D) -> (r: D)
    ensures
        r.val() == word::without_bit_at(s.val(), (D::bits() - 1) as nat),
        coop_view(r) == (CoopFields { writer: false, ..coop_view(s) }),
    opens_invariants none
{
    proof {
        D::lemma_width();
        s.lemma_word();
        lemma_parts(s.val(), D::bits());
    }
    s.without_bit(D::width() - 1)
}

#[allow(non_snake_case)]
pub fn K_WAITERS_PRESENT<D: StateWord>() -> (r: D)
    ensures
        r.val() == pow2((D::bits() - 2) as nat),
    opens_invariants none
{
    D::single(D::width() - 2)
}

pub fn expect_waiters_present_<D: StateWord>(s: D) -> (r: bool)
    ensures
        r == coop_view(s).waiters,
    opens_invariants none
{
    s.bit(D::width() - 2)
}

pub fn expect_no_waiters_present_<D: StateWord>(s: D) -> (r: bool)
    ensures
        r == !coop_view(s).waiters,
    opens_invariants none
{
    !expect_waiters_present_(s)
}

pub fn desire_waiters_present_<D: StateWord>(s: D) -> (r: D)
    ensures
        r.val() == word::with_bit_at(s.val(), (D::bits() - 2) as nat),
        coop_view(r) == (CoopFields { waiters: true, ..coop_view(s) }),
    opens_invariants none
{
    proof {
        D::lemma_width();
        s.lemma_word();
        lemma_parts(s.val(), D::bits());
    }
    s.with_bit(D::width() - 2)
}

pub fn desire_no_waiters_present_<D: StateWord>(s: D) -> (r: D)
    ensures
        r.val() == word::without_bit_at(s.val(), (D::bits() - 2) as nat),
        coop_view(r) == (CoopFields { waiters: false, ..coop_view(s) }),
    opens_invariants none
{
    proof {
        D::lemma_width();
        s.lemma_word();
        lemma_parts(s.val(), D::bits());
    }
    s.without_bit(D::width() - 2)
}

#[allow(non_snake_case)]
pub fn K_WRITER_QUEUED<D: StateWord>() -> (r: D)
    ensures
        r.val() == pow2((D::bits() - 3) as nat),
    opens_invariants none
{
    D::single(D::width() - 3)
}

pub fn expect_writer_queued_<D: StateWord>(s: D) -> (r: bool)
    ensures
        r == coop_view(s).writer_queued,
    opens_invariants none
{
    s.bit(D::width() - 3)
}

pub fn expect_no_writer_queued_<D: StateWord>(s: D) -> (r: bool)
    ensures
        r == !coop_view(s).writer_queued,
    opens_invariants none
{
    !expect_writer_queued_(s)
}

pub fn desire_writer_queued_<D: StateWord>(s: D) -> (r: D)
    ensures
        r.val() == word::with_bit_at(s.val(), (D::bits() - 3) as nat),
        coop_view(r) == (CoopFields { writer_queued: true, ..coop_view(s) }),
    opens_invariants none
{
    proof {
        D::lemma_width();
        s.lemma_word();
        lemma_parts(s.val(), D::bits());
    }
    s.with_bit(D::width() - 3)
}

pub fn desire_no_writer_queued_<D: StateWord>(s: D) -> (r: D)
    ensures
        r.val() == word::without_bit_at(s.val(), (D::bits() - 3) as nat),
        coop_view(r) == (CoopFields { writer_queued: false, ..coop_view(s) }),
    opens_invariants none
{
    proof {
        D::lemma_width();
        s.lemma_word();
        lemma_parts(s.val(), D::bits());
    }
    s.without_bit(D::width() - 3)
}

#[allow(non_snake_case)]
pub fn K_UPGRADE_ACTIVE<D: StateWord>() -> (r: D)
    ensures
        r.val() == pow2((D::bits() - 4) as nat),
    opens_invariants none
{
    D::single(D::width() - 4)
}

pub fn expect_upgrade_active_<D: StateWord>(s: D) -> (r: bool)
    ensures
        r == coop_view(s).upgrade,
    opens_invariants none
{
    s.bit(D::width() - 4)
}

pub fn expect_upgrade_inactive_<D: StateWord>(s: D) -> (r: bool)
    ensures
        r == !coop_view(s).upgrade,
    opens_invariants none
{
    !expect_upgrade_active_(s)
}

pub fn desire_upgrade_active_<D: StateWord>(s: D) -> (r: D)
    ensures
        r.val() == word::with_bit_at(s.val(), (D::bits() - 4) as nat),
        coop_view(r) == (CoopFields { upgrade: true, ..coop_view(s) }),
    opens_invariants none
{
    proof {
        D::lemma_width();
        s.lemma_word();
        lemma_parts(s.val(), D::bits());
    }
    s.with_bit(D::width() - 4)
}

pub fn desire_upgrade_inactive_<D: StateWord>(s: D) -> (r: D)
    ensures
        r.val() == word::without_bit_at(s.val(), (D::bits() - 4) as nat),
        coop_view(r) == (CoopFields { upgrade: false, ..coop_view(s) }),
    opens_invariants none
{
    proof {
        D::lemma_width();
        s.lemma_word();
        lemma_parts(s.val(), D::bits());
    }
    s.without_bit(D::width() - 4)
}

#[allow(non_snake_case)]
pub fn K_MAX_READER_COUNT<D: StateWord>() -> (r: D)
    ensures
        r.val() == max_readers(D::bits()),
    opens_invariants none
{
    proof {
        D::lemma_width();
        lemma2_to64();
        lemma_pow2_pos(flags_at(D::bits()));
    }
    D::single(D::width() - 4).minus(D::single(0))
}

pub fn get_reader_count_<D: StateWord>(s: D) -> (r: D)
    ensures
        r.val() == coop_view(s).readers,
        r.val() <= max_readers(D::bits()),
    opens_invariants none
{
    proof {
        D::lemma_width();
        s.lemma_word();
        lemma_fields(s.val(), D::bits());
    }
    s.low(D::width() - 4)
}

pub fn expect_reader_lt_max_<D: StateWord>(s: D) -> (r: bool)
    ensures
        r == (coop_view(s).readers < max_readers(D::bits())),
    opens_invariants none
{
    get_reader_count_(s).less(K_MAX_READER_COUNT::<D>())
}

pub fn expect_reader_gt_min_<D: StateWord>(s: D) -> (r: bool)
    ensures
        r == (coop_view(s).readers > 0),
    opens_invariants none
{
    D::zero().less(get_reader_count_(s))
}

pub fn desire_inc_reader_<D: StateWord>(s: D) -> (r: D)
    requires
        s.val() + 1 < pow2(D::bits()),
    ensures
        r.val() == s.val() + 1,
        coop_view(s).readers < max_readers(D::bits()) ==> coop_view(r) == (CoopFields {
            readers: coop_view(s).readers + 1,
            ..coop_view(s)
        }),
    opens_invariants none
{
    proof {
        D::lemma_width();
        s.lemma_word();
        lemma2_to64();
        lemma_parts(s.val(), D::bits());
    }
    s.plus(D::single(0))
}

pub fn desire_dec_reader_<D: StateWord>(s: D) -> (r: D)
    requires
        s.val() > 0,
    ensures
        r.val() == s.val() - 1,
        coop_view(s).readers > 0 ==> coop_view(r) == (CoopFields {
            readers: (coop_view(s).readers - 1) as nat,
            ..coop_view(s)
        }),
    opens_invariants none
{
    proof {
        D::lemma_width();
        s.lemma_word();
        lemma2_to64();
        lemma_parts(s.val(), D::bits());
    }
    s.minus(D::single(0))
}

/// A change that a state word can go through.
#[derive(Clone, Copy, Debug, PartialEq, Eq, Structural)]
pub enum CoopStep {
    /// A reader comes in past those who wait, unless a writer waits.
    ReadFast,
    /// A writer comes in where nobody waits.
    WriteFast,
    /// An upgradable reader comes in where nobody waits.
    UpgradableReadFast,
    /// A reader that waited comes in.
    ReadQueued,
    /// A writer that waited comes in.
    WriteQueued,
    /// An upgradable reader that waited comes in.
    UpgradableReadQueued,
    /// A reader leaves.
    ReleaseReader,
    /// An upgradable reader leaves.
    ReleaseUpgradable,
    /// A writer leaves.
    ReleaseWriter,
    /// An upgradable reader becomes a writer.
    Upgrade,
    /// A writer becomes a reader.
    WriteToRead,
    /// A writer becomes an upgradable reader.
    WriteToUpgradable,
    /// An upgradable reader becomes a reader.
    UpgradableToRead,
    /// The queue is no longer empty.
    MarkWaiters,
    /// The queue is empty again.
    ClearWaiters,
    /// A writer waits in the queue.
    MarkWriterQueued,
    /// No writer waits in the queue any more.
    ClearWriterQueued,
    /// The queue is no longer empty, and a writer waits in it.
    MarkBoth,
    /// The queue is empty again, and no writer waits in it.
    ClearBoth,
}

/// Where a change can take place, the largest number of readers being `max`.
pub open spec fn step_enabled(step: CoopStep, f: CoopFields, max: nat) -> bool {
    match step {
        CoopStep::ReadFast => !f.writer && !f.writer_queued && f.readers < max,
        CoopStep::WriteFast => !f.writer && !f.waiters && f.readers == 0 && !f.upgrade,
        CoopStep::UpgradableReadFast => !f.writer && !f.waiters && !f.upgrade && f.readers < max,
        CoopStep::ReadQueued => !f.writer && f.readers < max,
        CoopStep::WriteQueued => !f.writer && f.readers == 0 && !f.upgrade,
        CoopStep::UpgradableReadQueued => !f.writer && !f.upgrade && f.readers < max,
        CoopStep::ReleaseReader => f.readers > 0,
        CoopStep::ReleaseUpgradable => f.upgrade && f.readers > 0,
        CoopStep::ReleaseWriter => f.writer,
        CoopStep::Upgrade => f.upgrade && f.readers == 1 && !f.writer,
        CoopStep::WriteToRead => f.writer,
        CoopStep::WriteToUpgradable => f.writer,
        CoopStep::UpgradableToRead => f.upgrade,
        CoopStep::MarkWaiters => true,
        CoopStep::ClearWaiters => true,
        CoopStep::MarkWriterQueued => true,
        CoopStep::ClearWriterQueued => true,
        CoopStep::MarkBoth => true,
        CoopStep::ClearBoth => true,
    }
}

/// Whether a change counts readers past the largest number, into the flags.
pub open spec fn carries(step: CoopStep, f: CoopFields, max: nat) -> bool {
    match step {
        CoopStep::WriteToRead => f.readers >= max,
        CoopStep::WriteToUpgradable => f.readers >= max && !f.upgrade,
        _ => false,
    }
}

/// What a change that does not count into the flags makes of the parts of the
/// word. A writer that becomes an upgradable reader is counted unless it has
/// kept its place as one.
pub open spec fn step_next(step: CoopStep, f: CoopFields) -> CoopFields {
    match step {
        CoopStep::ReadFast => CoopFields { readers: f.readers + 1, ..f },
        CoopStep::WriteFast => CoopFields { writer: true, ..f },
        CoopStep::UpgradableReadFast => CoopFields { upgrade: true, readers: f.readers + 1, ..f },
        CoopStep::ReadQueued => CoopFields { readers: f.readers + 1, ..f },
        CoopStep::WriteQueued => CoopFields { writer: true, ..f },
        CoopStep::UpgradableReadQueued => CoopFields {
            upgrade: true,
            readers: f.readers + 1,
            ..f
        },
        CoopStep::ReleaseReader => CoopFields { readers: (f.readers - 1) as nat, ..f },
        CoopStep::ReleaseUpgradable => CoopFields {
            upgrade: false,
            readers: (f.readers - 1) as nat,
            ..f
        },
        CoopStep::ReleaseWriter => CoopFields { writer: false, ..f },
        CoopStep::Upgrade => CoopFields { writer: true, ..f },
        CoopStep::WriteToRead => CoopFields { writer: false, readers: f.readers + 1, ..f },
        CoopStep::WriteToUpgradable => CoopFields {
            writer: false,
            upgrade: true,
            readers: if f.upgrade {
                f.readers
            } else {
                f.readers + 1
            },
            ..f
        },
        CoopStep::UpgradableToRead => CoopFields { upgrade: false, ..f },
        CoopStep::MarkWaiters => CoopFields { waiters: true, ..f },
        CoopStep::ClearWaiters => CoopFields { waiters: false, ..f },
        CoopStep::MarkWriterQueued => CoopFields { writer_queued: true, ..f },
        CoopStep::ClearWriterQueued => CoopFields { writer_queued: false, ..f },
        CoopStep::MarkBoth => CoopFields { waiters: true, writer_queued: true, ..f },
        CoopStep::ClearBoth => CoopFields { waiters: false, writer_queued: false, ..f },
    }
}

/// What a change makes of the number of the word: flags are set and cleared
/// bit by bit, and readers are counted on the whole word.
pub open spec fn number_next(step: CoopStep, v: nat, bits: nat) -> nat {
    let w = (bits - 1) as nat;
    let p = (bits - 2) as nat;
    let q = (bits - 3) as nat;
    let u = (bits - 4) as nat;
    match step {
        CoopStep::ReadFast => v + 1,
        CoopStep::WriteFast => word::with_bit_at(v, w),
        CoopStep::UpgradableReadFast => word::with_bit_at(v, u) + 1,
        CoopStep::ReadQueued => v + 1,
        CoopStep::WriteQueued => word::with_bit_at(v, w),
        CoopStep::UpgradableReadQueued => word::with_bit_at(v, u) + 1,
        CoopStep::ReleaseReader => (v - 1) as nat,
        CoopStep::ReleaseUpgradable => (word::without_bit_at(v, u) - 1) as nat,
        CoopStep::ReleaseWriter => word::without_bit_at(v, w),
        CoopStep::Upgrade => word::with_bit_at(v, w),
        CoopStep::WriteToRead => word::without_bit_at(v, w) + 1,
        CoopStep::WriteToUpgradable => {
            let n = word::with_bit_at(word::without_bit_at(v, w), u);
            if word::bit_at(v, u) {
                n
            } else {
                n + 1
            }
        },
        CoopStep::UpgradableToRead => word::without_bit_at(v, u),
        CoopStep::MarkWaiters => word::with_bit_at(v, p),
        CoopStep::ClearWaiters => word::without_bit_at(v, p),
        CoopStep::MarkWriterQueued => word::with_bit_at(v, q),
        CoopStep::ClearWriterQueued => word::without_bit_at(v, q),
        CoopStep::MarkBoth => word::with_bit_at(word::with_bit_at(v, p), q),
        CoopStep::ClearBoth => word::without_bit_at(word::without_bit_at(v, p), q),
    }
}

/// The name of a change.
pub open spec fn step_name(step: CoopStep) -> int {
    match step {
        CoopStep::ReadFast => 1,
        CoopStep::WriteFast => 2,
        CoopStep::UpgradableReadFast => 3,
        CoopStep::ReadQueued => 4,
        CoopStep::WriteQueued => 5,
        CoopStep::UpgradableReadQueued => 6,
        CoopStep::ReleaseReader => 7,
        CoopStep::ReleaseUpgradable => 8,
        CoopStep::ReleaseWriter => 9,
        CoopStep::Upgrade => 10,
        CoopStep::WriteToRead => 11,
        CoopStep::WriteToUpgradable => 12,
        CoopStep::UpgradableToRead => 13,
        CoopStep::MarkWaiters => 14,
        CoopStep::ClearWaiters => 15,
        CoopStep::MarkWriterQueued => 16,
        CoopStep::ClearWriterQueued => 17,
        CoopStep::MarkBoth => 18,
        CoopStep::ClearBoth => 19,
    }
}

impl<D: StateWord> Step<D> for CoopStep {
    open spec fn valid(self) -> bool {
        true
    }

    open spec fn enabled(self, v: nat) -> bool {
        step_enabled(self, fields_of(v, D::bits()), max_readers(D::bits()))
    }

    open spec fn name(self) -> int {
        step_name(self)
    }

    open spec fn next(self, v: nat) -> nat {
        number_next(self, v, D::bits())
    }

    fn expect(self, word: D) -> (r: bool) {
        match self {
            CoopStep::ReadFast => expect_can_read_fast_(word),
            CoopStep::WriteFast => expect_can_write_fast_(word),
            CoopStep::UpgradableReadFast => expect_can_upgradable_read_fast_(word),
            CoopStep::ReadQueued => expect_can_read_queued_(word),
            CoopStep::WriteQueued => expect_can_write_queued_(word),
            CoopStep::UpgradableReadQueued => expect_can_upgradable_read_queued_(word),
            CoopStep::ReleaseReader => expect_reader_gt_min_(word),
            CoopStep::ReleaseUpgradable => expect_upgrade_active_and_reader_gt_min_(word),
            CoopStep::ReleaseWriter => expect_writer_active_(word),
            CoopStep::Upgrade => expect_can_upgrade_to_write_(word),
            CoopStep::WriteToRead => expect_writer_active_(word),
            CoopStep::WriteToUpgradable => expect_writer_active_(word),
            CoopStep::UpgradableToRead => expect_upgrade_active_(word),
            _ => true,
        }
    }

    fn desire(self, word: D) -> (r: D) {
        proof {
            D::lemma_width();
            word.lemma_word();
            lemma_parts(word.val(), D::bits());
            lemma_fields(word.val(), D::bits());
        }
        match self {
            CoopStep::ReadFast => desire_inc_reader_(word),
            CoopStep::WriteFast => desire_writer_active_(word),
            CoopStep::UpgradableReadFast => desire_upgradable_read_(word),
            CoopStep::ReadQueued => desire_inc_reader_(word),
            CoopStep::WriteQueued => desire_writer_active_(word),
            CoopStep::UpgradableReadQueued => desire_upgradable_read_(word),
            CoopStep::ReleaseReader => desire_dec_reader_(word),
            CoopStep::ReleaseUpgradable => desire_release_upgradable_(word),
            CoopStep::ReleaseWriter => desire_writer_inactive_(word),
            CoopStep::Upgrade => desire_upgrade_to_write_(word),
            CoopStep::WriteToRead => desire_write_to_read_(word),
            CoopStep::WriteToUpgradable => desire_write_to_upgradable_(word),
            CoopStep::UpgradableToRead => desire_downgrade_upgradable_(word),
            CoopStep::MarkWaiters => desire_waiters_present_(word),
            CoopStep::ClearWaiters => desire_no_waiters_present_(word),
            CoopStep::MarkWriterQueued => desire_writer_queued_(word),
            CoopStep::ClearWriterQueued => desire_no_writer_queued_(word),
            CoopStep::MarkBoth => desire_writer_queued_(desire_waiters_present_(word)),
            CoopStep::ClearBoth => desire_no_writer_queued_(desire_no_waiters_present_(word)),
        }
    }
}

pub fn expect_can_read_fast_<D: StateWord>(s: D) -> (r: bool)
    ensures
        r == step_enabled(CoopStep::ReadFast, coop_view(s), max_readers(D::bits())),
    opens_invariants none
{
    expect_writer_inactive_(s) && expect_no_writer_queued_(s) && expect_reader_lt_max_(s)
}

pub fn expect_can_write_fast_<D: StateWord>(s: D) -> (r: bool)
    ensures
        r == step_enabled(CoopStep::WriteFast, coop_view(s), max_readers(D::bits())),
    opens_invariants none
{
    expect_writer_inactive_(s) && expect_no_waiters_present_(s) && !expect_reader_gt_min_(s)
        && expect_upgrade_inactive_(s)
}

pub fn expect_can_upgradable_read_fast_<D: StateWord>(s: D) -> (r: bool)
    ensures
        r == step_enabled(CoopStep::UpgradableReadFast, coop_view(s), max_readers(D::bits())),
    opens_invariants none
{
    expect_writer_inactive_(s) && expect_no_waiters_present_(s) && expect_upgrade_inactive_(s)
        && expect_reader_lt_max_(s)
}

pub fn expect_can_read_queued_<D: StateWord>(s: D) -> (r: bool)
    ensures
        r == step_enabled(CoopStep::ReadQueued, coop_view(s), max_readers(D::bits())),
    opens_invariants none
{
    expect_writer_inactive_(s) && expect_reader_lt_max_(s)
}

pub fn expect_can_write_queued_<D: StateWord>(s: D) -> (r: bool)
    ensures
        r == step_enabled(CoopStep::WriteQueued, coop_view(s), max_readers(D::bits())),
    opens_invariants none
{
    expect_writer_inactive_(s) && !expect_reader_gt_min_(s) && expect_upgrade_inactive_(s)
}

pub fn expect_can_upgradable_read_queued_<D: StateWord>(s: D) -> (r: bool)
    ensures
        r == step_enabled(CoopStep::UpgradableReadQueued, coop_view(s), max_readers(D::bits())),
    opens_invariants none
{
    expect_writer_inactive_(s) && expect_upgrade_inactive_(s) && expect_reader_lt_max_(s)
}

pub fn expect_upgrade_active_and_reader_gt_min_<D: StateWord>(s: D) -> (r: bool)
    ensures
        r == step_enabled(CoopStep::ReleaseUpgradable, coop_view(s), max_readers(D::bits())),
    opens_invariants none
{
    expect_upgrade_active_(s) && expect_reader_gt_min_(s)
}

/// Only the sole reader, if it is upgradable, can become a writer.
pub fn expect_can_upgrade_to_write_<D: StateWord>(s: D) -> (r: bool)
    ensures
        r == step_enabled(CoopStep::Upgrade, coop_view(s), max_readers(D::bits())),
    opens_invariants none
{
    proof {
        D::lemma_width();
        lemma2_to64();
    }
    expect_upgrade_active_(s) && get_reader_count_(s).same(D::single(0)) && expect_writer_inactive_(
        s,
    )
}

/// The flag and the count of the upgradable reader stay as they are.
pub fn desire_upgrade_to_write_<D: StateWord>(s: D) -> (r: D)
    ensures
        r.val() == number_next(CoopStep::Upgrade, s.val(), D::bits()),
        coop_view(r) == step_next(CoopStep::Upgrade, coop_view(s)),
    opens_invariants none
{
    desire_writer_active_(s)
}

pub fn desire_upgradable_read_<D: StateWord>(s: D) -> (r: D)
    requires
        coop_view(s).readers < max_readers(D::bits()),
    ensures
        r.val() == number_next(CoopStep::UpgradableReadQueued, s.val(), D::bits()),
        coop_view(r) == step_next(CoopStep::UpgradableReadQueued, coop_view(s)),
    opens_invariants none
{
    let t = desire_upgrade_active_(s);
    proof {
        D::lemma_width();
        t.lemma_word();
        lemma_parts(t.val(), D::bits());
    }
    desire_inc_reader_(t)
}

pub fn desire_release_upgradable_<D: StateWord>(s: D) -> (r: D)
    requires
        coop_view(s).readers > 0,
    ensures
        r.val() == number_next(CoopStep::ReleaseUpgradable, s.val(), D::bits()),
        coop_view(r) == step_next(CoopStep::ReleaseUpgradable, coop_view(s)),
    opens_invariants none
{
    let t = desire_upgrade_inactive_(s);
    proof {
        D::lemma_width();
        t.lemma_word();
        lemma_parts(t.val(), D::bits());
    }
    desire_dec_reader_(t)
}

pub fn desire_write_to_read_<D: StateWord>(s: D) -> (r: D)
    ensures
        r.val() == number_next(CoopStep::WriteToRead, s.val(), D::bits()),
        !carries(CoopStep::WriteToRead, coop_view(s), max_readers(D::bits())) ==> coop_view(r)
            == step_next(CoopStep::WriteToRead, coop_view(s)),
    opens_invariants none
{
    let t = desire_writer_inactive_(s);
    proof {
        D::lemma_width();
        t.lemma_word();
        lemma_parts(t.val(), D::bits());
        lemma_fields(t.val(), D::bits());
    }
    desire_inc_reader_(t)
}

pub fn desire_write_to_upgradable_<D: StateWord>(s: D) -> (r: D)
    ensures
        r.val() == number_next(CoopStep::WriteToUpgradable, s.val(), D::bits()),
        !carries(CoopStep::WriteToUpgradable, coop_view(s), max_readers(D::bits()))
            ==> coop_view(r) == step_next(CoopStep::WriteToUpgradable, coop_view(s)),
    opens_invariants none
{
    let t = desire_upgrade_active_(desire_writer_inactive_(s));
    proof {
        D::lemma_width();
        t.lemma_word();
        lemma_parts(t.val(), D::bits());
        lemma_fields(t.val(), D::bits());
    }
    if expect_upgrade_active_(s) {
        t
    } else {
        desire_inc_reader_(t)
    }
}

pub fn desire_downgrade_upgradable_<D: StateWord>(s: D) -> (r: D)
    ensures
        r.val() == number_next(CoopStep::UpgradableToRead, s.val(), D::bits()),
        coop_view(r) == step_next(CoopStep::UpgradableToRead, coop_view(s)),
    opens_invariants none
{
    desire_upgrade_inactive_(s)
}

/// A change that does not count into the flags makes of the parts of the word
/// what [`step_next`] says.
#[verifier::spinoff_prover]
#[verifier::rlimit(60)]
pub proof fn lemma_step(step: CoopStep, v: nat, bits: nat)
    requires
        8 <= bits,
        v < pow2(bits),
        step_enabled(step, fields_of(v, bits), max_readers(bits)),
        !carries(step, fields_of(v, bits), max_readers(bits)),
    ensures
        number_next(step, v, bits) < pow2(bits),
        fields_of(number_next(step, v, bits), bits) == step_next(step, fields_of(v, bits)),
        step_next(step, fields_of(v, bits)).readers <= max_readers(bits),
{
    let w = (bits - 1) as nat;
    let p = (bits - 2) as nat;
    let u = (bits - 4) as nat;
    lemma_fields(v, bits);
    lemma_parts(v, bits);
    match step {
        CoopStep::UpgradableReadFast => {
            lemma_parts(word::with_bit_at(v, u), bits);
        },
        CoopStep::UpgradableReadQueued => {
            lemma_parts(word::with_bit_at(v, u), bits);
        },
        CoopStep::ReleaseUpgradable => {
            lemma_parts(word::without_bit_at(v, u), bits);
        },
        CoopStep::WriteToRead => {
            lemma_parts(word::without_bit_at(v, w), bits);
        },
        CoopStep::WriteToUpgradable => {
            let n = word::without_bit_at(v, w);
            lemma_parts(n, bits);
            lemma_parts(word::with_bit_at(n, u), bits);
        },
        CoopStep::MarkBoth => {
            lemma_parts(word::with_bit_at(v, p), bits);
        },
        CoopStep::ClearBoth => {
            lemma_parts(word::without_bit_at(v, p), bits);
        },
        _ => {},
    }
}

/// What the queue needs to know of a state word, taken from one look at it.
#[derive(Clone, Copy, Debug)]
pub struct CoopRwStateSnapshot<D> {
    pub writer_active: bool,
    pub writer_queued: bool,
    pub upgrade_active: bool,
    pub reader_count: D,
}

impl<D: StateWord> CoopRwStateSnapshot<D> {
    /// Whether the snapshot is one of a word with the parts `f`.
    pub open spec fn shows(self, f: CoopFields) -> bool {
        &&& self.writer_active == f.writer
        &&& self.writer_queued == f.writer_queued
        &&& self.upgrade_active == f.upgrade
        &&& self.reader_count.val() == f.readers
    }
}

/// The snapshot of a word.
pub fn snapshot_of<D: StateWord>(s: D) -> (r: CoopRwStateSnapshot<D>)
    ensures
        r.shows(coop_view(s)),
    opens_invariants none
{
    CoopRwStateSnapshot {
        writer_active: expect_writer_active_(s),
        writer_queued: expect_writer_queued_(s),
        upgrade_active: expect_upgrade_active_(s),
        reader_count: get_reader_count_(s),
    }
}

/// The number of readers in a word, where a `usize` can hold it.
pub fn readers_in<D: StateWord>(s: D) -> (r: Option<usize>)
    ensures
        r is Some <==> coop_view(s).readers <= usize::MAX,
        r matches Some(n) ==> n == coop_view(s).readers,
    opens_invariants none
{
    get_reader_count_(s).to_usize()
}

/// The state of a lock: a cell that holds the state word.
pub struct CoopRwState<C: WordCell> {
    stat_: C,
}

impl<C: WordCell> CoopRwState<C> {
    /// The cell that holds the state word.
    pub closed spec fn cell(self) -> C {
        self.stat_
    }

    pub fn new(cell: C) -> (r: Self)
        ensures
            r.cell() == cell,
        opens_invariants none
    {
        CoopRwState { stat_: cell }
    }

    /// Loads the state word from the cell.
    pub fn load_state(&self) -> (r: Loaded<C::Word>)
        ensures
            r.source() == self.cell().source(),
        opens_invariants none
    {
        self.stat_.value()
    }

    /// The number of readers in the word that was loaded.
    pub fn reader_count(&self) -> (r: C::Word)
        ensures
            exists|l: Loaded<C::Word>| #[trigger]
                l.source() == self.cell().source() && r.val() == coop_view(l.seen()).readers,
            r.val() <= max_readers(C::Word::bits()),
        opens_invariants none
    {
        let s = self.load_state().word();
        get_reader_count_(s)
    }

    /// Whether the word that was loaded has the mark that somebody waits.
    pub fn waiters_present(&self) -> (r: bool)
        ensures
            exists|l: Loaded<C::Word>| #[trigger]
                l.source() == self.cell().source() && r == coop_view(l.seen()).waiters,
        opens_invariants none
    {
        let s = self.load_state().word();
        expect_waiters_present_(s)
    }

    /// Whether the word that was loaded has the mark that somebody waits.
    pub fn waiter_queued(&self) -> (r: bool)
        ensures
            exists|l: Loaded<C::Word>| #[trigger]
                l.source() == self.cell().source() && r == coop_view(l.seen()).waiters,
        opens_invariants none
    {
        self.waiters_present()
    }

    /// Whether the word that was loaded has the mark that a writer waits.
    pub fn writer_queued(&self) -> (r: bool)
        ensures
            exists|l: Loaded<C::Word>| #[trigger]
                l.source() == self.cell().source() && r == coop_view(l.seen()).writer_queued,
        opens_invariants none
    {
        let s = self.load_state().word();
        expect_writer_queued_(s)
    }

    /// All that the queue needs to know, from one look at the word. The word
    /// may change under the queue, so it must not look twice.
    pub fn snapshot(&self) -> (r: CoopRwStateSnapshot<C::Word>)
        ensures
            exists|l: Loaded<C::Word>| #[trigger]
                l.source() == self.cell().source() && r.shows(coop_view(l.seen())),
        opens_invariants none
    {
        let s = self.load_state().word();
        snapshot_of(s)
    }

    /// Sets the mark that somebody waits. The queue must be locked.
    pub fn mark_waiters_present(&self) -> (r: Attempt<C::Word, CoopStep>)
        ensures
            cell::attempt_on(r, self.cell().source(), CoopStep::MarkWaiters),
        opens_invariants [ step_name(CoopStep::MarkWaiters) ]
    {
        self.stat_.try_spin(CoopStep::MarkWaiters)
    }

    /// Clears the mark that somebody waits. The queue must be locked.
    pub fn clear_waiters_present(&self) -> (r: Attempt<C::Word, CoopStep>)
        ensures
            cell::attempt_on(r, self.cell().source(), CoopStep::ClearWaiters),
        opens_invariants [ step_name(CoopStep::ClearWaiters) ]
    {
        self.stat_.try_spin(CoopStep::ClearWaiters)
    }

    /// Sets the mark that a writer waits. The queue must be locked.
    pub fn mark_writer_queued(&self) -> (r: Attempt<C::Word, CoopStep>)
        ensures
            cell::attempt_on(r, self.cell().source(), CoopStep::MarkWriterQueued),
        opens_invariants [ step_name(CoopStep::MarkWriterQueued) ]
    {
        self.stat_.try_spin(CoopStep::MarkWriterQueued)
    }

    /// Clears the mark that a writer waits. The queue must be locked.
    pub fn clear_writer_queued(&self) -> (r: Attempt<C::Word, CoopStep>)
        ensures
            cell::attempt_on(r, self.cell().source(), CoopStep::ClearWriterQueued),
        opens_invariants [ step_name(CoopStep::ClearWriterQueued) ]
    {
        self.stat_.try_spin(CoopStep::ClearWriterQueued)
    }

    /// Sets both marks: a writer waits. The queue must be locked.
    pub fn mark_waiter_queued(&self) -> (r: Attempt<C::Word, CoopStep>)
        ensures
            cell::attempt_on(r, self.cell().source(), CoopStep::MarkBoth),
        opens_invariants [ step_name(CoopStep::MarkBoth) ]
    {
        self.stat_.try_spin(CoopStep::MarkBoth)
    }

    /// Clears both marks: nobody waits. The queue must be locked.
    pub fn clear_waiter_queued(&self) -> (r: Attempt<C::Word, CoopStep>)
        ensures
            cell::attempt_on(r, self.cell().source(), CoopStep::ClearBoth),
        opens_invariants [ step_name(CoopStep::ClearBoth) ]
    {
        self.stat_.try_spin(CoopStep::ClearBoth)
    }

    /// A reader tries to come in without waiting.
    pub fn try_read_fast(&self) -> (r: Attempt<C::Word, CoopStep>)
        ensures
            cell::attempt_on(r, self.cell().source(), CoopStep::ReadFast),
        opens_invariants [ step_name(CoopStep::ReadFast) ]
    {
        self.stat_.try_spin(CoopStep::ReadFast)
    }

    /// A writer tries to come in without waiting.
    pub fn try_write_fast(&self) -> (r: Attempt<C::Word, CoopStep>)
        ensures
            cell::attempt_on(r, self.cell().source(), CoopStep::WriteFast),
        opens_invariants [ step_name(CoopStep::WriteFast) ]
    {
        self.stat_.try_spin(CoopStep::WriteFast)
    }

    /// An upgradable reader tries to come in without waiting.
    pub fn try_upgradable_read_fast(&self) -> (r: Attempt<C::Word, CoopStep>)
        ensures
            cell::attempt_on(r, self.cell().source(), CoopStep::UpgradableReadFast),
        opens_invariants [ step_name(CoopStep::UpgradableReadFast) ]
    {
        self.stat_.try_spin(CoopStep::UpgradableReadFast)
    }

    /// A reader that waited tries to come in. The marks of the queue, which it
    /// is in itself, do not matter.
    pub fn try_read_queued(&self) -> (r: Attempt<C::Word, CoopStep>)
        ensures
            cell::attempt_on(r, self.cell().source(), CoopStep::ReadQueued),
        opens_invariants [ step_name(CoopStep::ReadQueued) ]
    {
        self.stat_.try_spin(CoopStep::ReadQueued)
    }

    /// A writer that waited tries to come in.
    pub fn try_write_queued(&self) -> (r: Attempt<C::Word, CoopStep>)
        ensures
            cell::attempt_on(r, self.cell().source(), CoopStep::WriteQueued),
        opens_invariants [ step_name(CoopStep::WriteQueued) ]
    {
        self.stat_.try_spin(CoopStep::WriteQueued)
    }

    /// An upgradable reader that waited tries to come in.
    pub fn try_upgradable_read_queued(&self) -> (r: Attempt<C::Word, CoopStep>)
        ensures
            cell::attempt_on(r, self.cell().source(), CoopStep::UpgradableReadQueued),
        opens_invariants [ step_name(CoopStep::UpgradableReadQueued) ]
    {
        self.stat_.try_spin(CoopStep::UpgradableReadQueued)
    }

    /// A reader leaves.
    pub fn release_reader(&self) -> (r: Attempt<C::Word, CoopStep>)
        ensures
            cell::attempt_on(r, self.cell().source(), CoopStep::ReleaseReader),
        opens_invariants [ step_name(CoopStep::ReleaseReader) ]
    {
        self.stat_.try_spin(CoopStep::ReleaseReader)
    }

    /// An upgradable reader leaves.
    pub fn release_upgradable_read(&self) -> (r: Attempt<C::Word, CoopStep>)
        ensures
            cell::attempt_on(r, self.cell().source(), CoopStep::ReleaseUpgradable),
        opens_invariants [ step_name(CoopStep::ReleaseUpgradable) ]
    {
        self.stat_.try_spin(CoopStep::ReleaseUpgradable)
    }

    /// A writer leaves. One that was an upgradable reader before is it again.
    pub fn release_writer(&self) -> (r: Attempt<C::Word, CoopStep>)
        ensures
            cell::attempt_on(r, self.cell().source(), CoopStep::ReleaseWriter),
        opens_invariants [ step_name(CoopStep::ReleaseWriter) ]
    {
        self.stat_.try_spin(CoopStep::ReleaseWriter)
    }

    /// An upgradable reader tries to become a writer.
    pub fn try_upgrade_to_write(&self) -> (r: Attempt<C::Word, CoopStep>)
        ensures
            cell::attempt_on(r, self.cell().source(), CoopStep::Upgrade),
        opens_invariants [ step_name(CoopStep::Upgrade) ]
    {
        self.stat_.try_spin(CoopStep::Upgrade)
    }

    /// A writer becomes a reader.
    pub fn downgrade_write_to_read(&self) -> (r: Attempt<C::Word, CoopStep>)
        ensures
            cell::attempt_on(r, self.cell().source(), CoopStep::WriteToRead),
        opens_invariants [ step_name(CoopStep::WriteToRead) ]
    {
        self.stat_.try_spin(CoopStep::WriteToRead)
    }

    /// A writer becomes an upgradable reader.
    pub fn downgrade_write_to_upgradable(&self) -> (r: Attempt<C::Word, CoopStep>)
        ensures
            cell::attempt_on(r, self.cell().source(), CoopStep::WriteToUpgradable),
        opens_invariants [ step_name(CoopStep::WriteToUpgradable) ]
    {
        self.stat_.try_spin(CoopStep::WriteToUpgradable)
    }

    /// An upgradable reader becomes a reader.
    pub fn downgrade_upgradable_to_read(&self) -> (r: Attempt<C::Word, CoopStep>)
        ensures
            cell::attempt_on(r, self.cell().source(), CoopStep::UpgradableToRead),
        opens_invariants [ step_name(CoopStep::UpgradableToRead) ]
    {
        self.stat_.try_spin(CoopStep::UpgradableToRead)
    }
}

} // verus!
