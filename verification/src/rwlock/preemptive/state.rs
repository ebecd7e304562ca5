//! The state word of the spinning reader-writer lock.
//!
//! From the top, the word holds the flag of an active writer, the flag of a
//! writer that waits, the flag of an upgradable reader, and the number of
//! readers. An upgradable reader counts as a reader too. A word of zero is a
//! free lock.

use vstd::arithmetic::mul::*;
use vstd::arithmetic::power2::*;
use vstd::prelude::*;

use crate::cell;
use crate::cell::{Attempt, Source, Step, WordCell};
use crate::fields;
use crate::word;
use crate::word::StateWord;

verus! {

/// The parts of a state word.
pub struct RwFields {
    /// A writer holds the lock.
    pub writer: bool,
    /// A writer waits for the lock.
    pub queued: bool,
    /// An upgradable reader holds the lock.
    pub upgrade: bool,
    /// How many readers hold the lock.
    pub readers: nat,
}

/// The place of the lowest flag.
pub open spec fn flags_at(bits: nat) -> nat {
    (bits - 3) as nat
}

/// The largest number of readers.
pub open spec fn max_readers(bits: nat) -> nat {
    (pow2(flags_at(bits)) - 1) as nat
}

/// The parts of the word that stands for `v`.
pub open spec fn fields_of(v: nat, bits: nat) -> RwFields {
    RwFields {
        writer: word::bit_at(v, (bits - 1) as nat),
        queued: word::bit_at(v, (bits - 2) as nat),
        upgrade: word::bit_at(v, (bits - 3) as nat),
        readers: v % pow2(flags_at(bits)),
    }
}

/// The flags as the number that the three topmost bits hold.
pub open spec fn flags_of(f: RwFields) -> nat {
    (if f.writer {
        4nat
    } else {
        0
    }) + (if f.queued {
        2nat
    } else {
        0
    }) + (if f.upgrade {
        1nat
    } else {
        0
    })
}

/// The number of the word with the parts `f`.
pub open spec fn word_of(f: RwFields, bits: nat) -> nat {
    flags_of(f) * pow2(flags_at(bits)) + f.readers
}

impl RwFields {
    /// A lock that nobody holds or waits for.
    pub open spec fn free() -> RwFields {
        RwFields { writer: false, queued: false, upgrade: false, readers: 0 }
    }
}

/// The parts of a state word.
pub open spec fn rw_view<D: StateWord>(w: D) -> RwFields {
    fields_of(w.val(), D::bits())
}

/// A word is told by its parts.
pub proof fn lemma_fields(v: nat, bits: nat)
    requires
        8 <= bits,
        v < pow2(bits),
    ensures
        fields_of(v, bits).readers <= max_readers(bits),
        word_of(fields_of(v, bits), bits) == v,
        flags_of(fields_of(v, bits)) == v / pow2(flags_at(bits)),
        31 <= max_readers(bits),
        max_readers(bits) + 1 == pow2(flags_at(bits)),
        pow2(bits) == 8 * pow2(flags_at(bits)),
{
    let k = flags_at(bits);
    lemma2_to64();
    fields::lemma_top_bits(v, k);
    fields::lemma_top_bound(v, k, 3);
    if k > 5 {
        lemma_pow2_strictly_increases(5, k);
    }
    assert((bits - 2) as nat == k + 1);
    assert((bits - 1) as nat == k + 2);
}

/// Parts that fit are found again in their word.
pub proof fn lemma_word_of(f: RwFields, bits: nat)
    requires
        8 <= bits,
        f.readers <= max_readers(bits),
    ensures
        word_of(f, bits) < pow2(bits),
        fields_of(word_of(f, bits), bits) == f,
{
    let k = flags_at(bits);
    let v = word_of(f, bits);
    lemma_pow2_pos(k);
    fields::lemma_rejoin(flags_of(f), f.readers, pow2(k));
    fields::lemma_top_bits(v, k);
    lemma_mul_inequality(flags_of(f) as int, 7, pow2(k) as int);
    assert((bits - 2) as nat == k + 1);
    assert((bits - 1) as nat == k + 2);
}

/// What setting and clearing the flags, and counting, do to the parts of a
/// word.
proof fn lemma_parts(v: nat, bits: nat)
    requires
        8 <= bits,
        v < pow2(bits),
    ensures
        ({
            let f = fields_of(v, bits);
            &&& fields_of(word::with_bit_at(v, (bits - 1) as nat), bits) == (RwFields {
                writer: true,
                ..f
            })
            &&& fields_of(word::without_bit_at(v, (bits - 1) as nat), bits) == (RwFields {
                writer: false,
                ..f
            })
            &&& fields_of(word::with_bit_at(v, (bits - 2) as nat), bits) == (RwFields {
                queued: true,
                ..f
            })
            &&& fields_of(word::without_bit_at(v, (bits - 2) as nat), bits) == (RwFields {
                queued: false,
                ..f
            })
            &&& fields_of(word::with_bit_at(v, (bits - 3) as nat), bits) == (RwFields {
                upgrade: true,
                ..f
            })
            &&& fields_of(word::without_bit_at(v, (bits - 3) as nat), bits) == (RwFields {
                upgrade: false,
                ..f
            })
            &&& f.readers < max_readers(bits) ==> fields_of(v + 1, bits) == (RwFields {
                readers: f.readers + 1,
                ..f
            })
            &&& f.readers > 0 ==> v > 0 && fields_of((v - 1) as nat, bits) == (RwFields {
                readers: (f.readers - 1) as nat,
                ..f
            })
            &&& !f.writer ==> v < 4 * pow2(flags_at(bits))
            &&& f.upgrade ==> v >= pow2(flags_at(bits))
            &&& word::with_bit_at(v, (bits - 1) as nat) < pow2(bits)
            &&& word::with_bit_at(v, (bits - 2) as nat) < pow2(bits)
            &&& word::with_bit_at(v, (bits - 3) as nat) < pow2(bits)
            &&& word::without_bit_at(v, (bits - 1) as nat) < pow2(bits)
            &&& word::without_bit_at(v, (bits - 2) as nat) < pow2(bits)
            &&& word::without_bit_at(v, (bits - 3) as nat) < pow2(bits)
            &&& f.readers < max_readers(bits) ==> v + 1 < pow2(bits)
        }),
{
    let k = flags_at(bits);
    let m = pow2(k);
    let f = fields_of(v, bits);
    lemma_fields(v, bits);
    assert((bits - 3) as nat == k + 0);
    assert((bits - 2) as nat == k + 1);
    assert((bits - 1) as nat == k + 2);
    fields::lemma_top_bits(v, k);
    fields::lemma_flag(v, k, 0);
    fields::lemma_flag(v, k, 1);
    fields::lemma_flag(v, k, 2);
    fields::lemma_top_bits(word::with_bit_at(v, k), k);
    fields::lemma_top_bits(word::without_bit_at(v, k), k);
    fields::lemma_top_bits(word::with_bit_at(v, k + 1), k);
    fields::lemma_top_bits(word::without_bit_at(v, k + 1), k);
    fields::lemma_top_bits(word::with_bit_at(v, k + 2), k);
    fields::lemma_top_bits(word::without_bit_at(v, k + 2), k);
    if f.readers < max_readers(bits) {
        fields::lemma_change(v, m, 0, 1);
        fields::lemma_top_bits(v + 1, k);
        fields::lemma_below(v + 1, m, 8);
    }
    if f.readers > 0 {
        fields::lemma_change(v, m, 0, -1);
        fields::lemma_top_bits((v - 1) as nat, k);
    }
    fields::lemma_below(word::with_bit_at(v, k), m, 8);
    fields::lemma_below(word::without_bit_at(v, k), m, 8);
    fields::lemma_below(word::with_bit_at(v, k + 1), m, 8);
    fields::lemma_below(word::without_bit_at(v, k + 1), m, 8);
    fields::lemma_below(word::with_bit_at(v, k + 2), m, 8);
    fields::lemma_below(word::without_bit_at(v, k + 2), m, 8);
    if !f.writer {
        fields::lemma_below(v, m, 4);
    }
    if f.upgrade {
        lemma_mul_inequality(1, flags_of(f) as int, m as int);
    }
}

#[allow(non_snake_case)]
pub fn K_WRITER_ACTIVE<D: StateWord>() -> (r: D)
    ensures
        r.val() == pow2((D::bits() - 1) as nat),
    opens_invariants none
{
    D::single(D::width() - 1)
}

pub fn expect_writer_active<D: StateWord>(s: D) -> (r: bool)
    ensures
        r == rw_view(s).writer,
    opens_invariants none
{
    s.bit(D::width() - 1)
}

pub fn expect_writer_inactive<D: StateWord>(s: D) -> (r: bool)
    ensures
        r == !rw_view(s).writer,
    opens_invariants none
{
    !expect_writer_active(s)
}

pub fn desire_writer_active<D: StateWord>(s: D) -> (r: D)
    ensures
        r.val() == word::with_bit_at(s.val(), (D::bits() - 1) as nat),
        rw_view(r) == (RwFields { writer: true, ..rw_view(s) }),
    opens_invariants none
{
    proof {
        D::lemma_width();
        s.lemma_word();
        lemma_parts(s.val(), D::bits());
    }
    s.with_bit(D::width() - 1)
}

pub fn desire_writer_inactive<D: StateWord>(s: D) -> (r: D)
    ensures
        r.val() == word::without_bit_at(s.val(), (D::bits() - 1) as nat),
        rw_view(r) == (RwFields { writer: false, ..rw_view(s) }),
    opens_invariants none
{
    proof {
        D::lemma_width();
        s.lemma_word();
        lemma_parts(s.val(), D::bits());
    }
    s.without_bit(D::width() - 1)
}

#[allow(non_snake_case)]
pub fn K_WRITER_QUEUED<D: StateWord>() -> (r: D)
    ensures
        r.val() == pow2((D::bits() - 2) as nat),
    opens_invariants none
{
    D::single(D::width() - 2)
}

pub fn expect_writer_queued<D: StateWord>(s: D) -> (r: bool)
    ensures
        r == rw_view(s).queued,
    opens_invariants none
{
    s.bit(D::width() - 2)
}

pub fn expect_writer_not_queued<D: StateWord>(s: D) -> (r: bool)
    ensures
        r == !rw_view(s).queued,
    opens_invariants none
{
    !expect_writer_queued(s)
}

pub fn desire_writer_queued<D: StateWord>(s: D) -> (r: D)
    ensures
        r.val() == word::with_bit_at(s.val(), (D::bits() - 2) as nat),
        rw_view(r) == (RwFields { queued: true, ..rw_view(s) }),
    opens_invariants none
{
    proof {
        D::lemma_width();
        s.lemma_word();
        lemma_parts(s.val(), D::bits());
    }
    s.with_bit(D::width() - 2)
}

pub fn desire_writer_not_queued<D: StateWord>(s: D) -> (r: D)
    ensures
        r.val() == word::without_bit_at(s.val(), (D::bits() - 2) as nat),
        rw_view(r) == (RwFields { queued: false, ..rw_view(s) }),
    opens_invariants none
{
    proof {
        D::lemma_width();
        s.lemma_word();
        lemma_parts(s.val(), D::bits());
    }
    s.without_bit(D::width() - 2)
}

#[allow(non_snake_case)]
pub fn K_UPGRADE_ACTIVE<D: StateWord>() -> (r: D)
    ensures
        r.val() == pow2((D::bits() - 3) as nat),
    opens_invariants none
{
    D::single(D::width() - 3)
}

pub fn expect_upgrade_active<D: StateWord>(s: D) -> (r: bool)
    ensures
        r == rw_view(s).upgrade,
    opens_invariants none
{
    s.bit(D::width() - 3)
}

pub fn expect_upgrade_inactive<D: StateWord>(s: D) -> (r: bool)
    ensures
        r == !rw_view(s).upgrade,
    opens_invariants none
{
    !expect_upgrade_active(s)
}

pub fn desire_upgrade_active<D: StateWord>(s: D) -> (r: D)
    ensures
        r.val() == word::with_bit_at(s.val(), (D::bits() - 3) as nat),
        rw_view(r) == (RwFields { upgrade: true, ..rw_view(s) }),
    opens_invariants none
{
    proof {
        D::lemma_width();
        s.lemma_word();
        lemma_parts(s.val(), D::bits());
    }
    s.with_bit(D::width() - 3)
}

pub fn desire_upgrade_inactive<D: StateWord>(s: D) -> (r: D)
    ensures
        r.val() == word::without_bit_at(s.val(), (D::bits() - 3) as nat),
        rw_view(r) == (RwFields { upgrade: false, ..rw_view(s) }),
    opens_invariants none
{
    proof {
        D::lemma_width();
        s.lemma_word();
        lemma_parts(s.val(), D::bits());
    }
    s.without_bit(D::width() - 3)
}

#[allow(non_snake_case)]
pub fn K_MAX_READER_COUNT<D: StateWord>() -> (r: D)
    ensures
        r.val() == max_readers(D::bits()),
    opens_invariants none
{
    proof {
        D::lemma_width();
        lemma2_to64();
        lemma_pow2_pos(flags_at(D::bits()));
    }
    D::single(D::width() - 3).minus(D::single(0))
}

pub fn get_reader_count<D: StateWord>(s: D) -> (r: D)
    ensures
        r.val() == rw_view(s).readers,
        r.val() <= max_readers(D::bits()),
    opens_invariants none
{
    proof {
        D::lemma_width();
        s.lemma_word();
        lemma_fields(s.val(), D::bits());
    }
    s.low(D::width() - 3)
}

pub fn expect_reader_lt_max<D: StateWord>(s: D) -> (r: bool)
    ensures
        r == (rw_view(s).readers < max_readers(D::bits())),
    opens_invariants none
{
    get_reader_count(s).less(K_MAX_READER_COUNT::<D>())
}

pub fn expect_reader_gt_min<D: StateWord>(s: D) -> (r: bool)
    ensures
        r == (rw_view(s).readers > 0),
    opens_invariants none
{
    D::zero().less(get_reader_count(s))
}

pub fn desire_inc_reader<D: StateWord>(s: D) -> (r: D)
    requires
        s.val() + 1 < pow2(D::bits()),
    ensures
        r.val() == s.val() + 1,
        rw_view(s).readers < max_readers(D::bits()) ==> rw_view(r) == (RwFields {
            readers: rw_view(s).readers + 1,
            ..rw_view(s)
        }),
    opens_invariants none
{
    proof {
        D::lemma_width();
        s.lemma_word();
        lemma2_to64();
        lemma_parts(s.val(), D::bits());
    }
    s.plus(D::single(0))
}

pub fn desire_dec_reader<D: StateWord>(s: D) -> (r: D)
    requires
        s.val() > 0,
    ensures
        r.val() == s.val() - 1,
        rw_view(s).readers > 0 ==> rw_view(r) == (RwFields {
            readers: (rw_view(s).readers - 1) as nat,
            ..rw_view(s)
        }),
    opens_invariants none
{
    proof {
        D::lemma_width();
        s.lemma_word();
        lemma2_to64();
        lemma_parts(s.val(), D::bits());
    }
    s.minus(D::single(0))
}

/// A change that a state word can go through.
#[derive(Clone, Copy, Debug, PartialEq, Eq, Structural)]
pub enum RwStep {
    /// A reader comes in.
    Read,
    /// A reader leaves.
    ReadDrop,
    /// A writer comes in.
    Write,
    /// A writer that is not let in announces itself.
    QueueWriter,
    /// A writer leaves.
    WriteDrop,
    /// An upgradable reader comes in.
    UpgradableRead,
    /// An upgradable reader leaves.
    UpgradableDrop,
    /// A writer becomes a reader.
    WriteToRead,
    /// A writer becomes an upgradable reader.
    WriteToUpgradable,
    /// An upgradable reader becomes a reader.
    UpgradableToRead,
    /// An upgradable reader becomes a writer.
    Upgrade,
}

/// Where a change can take place, the largest number of readers being `max`.
pub open spec fn step_enabled(step: RwStep, f: RwFields, max: nat) -> bool {
    match step {
        RwStep::Read => f.readers < max && !f.queued && !f.writer,
        RwStep::ReadDrop => f.readers > 0,
        RwStep::Write => f.readers == 0 && !f.writer,
        RwStep::QueueWriter => !f.queued,
        RwStep::WriteDrop => f.writer,
        RwStep::UpgradableRead => f.readers < max && !f.queued && !f.writer && !f.upgrade,
        RwStep::UpgradableDrop => f.upgrade,
        RwStep::WriteToRead => f.writer,
        RwStep::WriteToUpgradable => f.writer,
        RwStep::UpgradableToRead => f.upgrade && !f.writer && f.readers > 0,
        RwStep::Upgrade => f.upgrade && f.readers == 1,
    }
}

/// Whether a change counts readers past the largest number or below zero, into
/// the flags.
pub open spec fn carries(step: RwStep, f: RwFields, max: nat) -> bool {
    match step {
        RwStep::UpgradableDrop => f.readers == 0,
        RwStep::WriteToRead => f.readers >= max,
        RwStep::WriteToUpgradable => f.readers >= max && !f.upgrade,
        _ => false,
    }
}

/// What a change that does not count into the flags makes of the parts of the
/// word. A writer that becomes an upgradable reader is counted unless it has
/// kept its place as one.
pub open spec fn step_next(step: RwStep, f: RwFields) -> RwFields {
    match step {
        RwStep::Read => RwFields { readers: f.readers + 1, ..f },
        RwStep::ReadDrop => RwFields { readers: (f.readers - 1) as nat, ..f },
        RwStep::Write => RwFields { writer: true, ..f },
        RwStep::QueueWriter => RwFields { queued: true, ..f },
        RwStep::WriteDrop => RwFields { writer: false, queued: false, ..f },
        RwStep::UpgradableRead => RwFields { upgrade: true, readers: f.readers + 1, ..f },
        RwStep::UpgradableDrop => RwFields {
            upgrade: false,
            readers: (f.readers - 1) as nat,
            ..f
        },
        RwStep::WriteToRead => RwFields { writer: false, readers: f.readers + 1, ..f },
        RwStep::WriteToUpgradable => RwFields {
            writer: false,
            upgrade: true,
            readers: if f.upgrade {
                f.readers
            } else {
                f.readers + 1
            },
            ..f
        },
        RwStep::UpgradableToRead => RwFields { upgrade: false, ..f },
        RwStep::Upgrade => RwFields { writer: true, ..f },
    }
}

/// What a change makes of the number of the word: flags are set and cleared
/// bit by bit, and readers are counted on the whole word.
pub open spec fn number_next(step: RwStep, v: nat, bits: nat) -> nat {
    let w = (bits - 1) as nat;
    let q = (bits - 2) as nat;
    let u = (bits - 3) as nat;
    match step {
        RwStep::Read => v + 1,
        RwStep::ReadDrop => (v - 1) as nat,
        RwStep::Write => word::with_bit_at(v, w),
        RwStep::QueueWriter => word::with_bit_at(v, q),
        RwStep::WriteDrop => word::without_bit_at(word::without_bit_at(v, w), q),
        RwStep::UpgradableRead => word::with_bit_at(v, u) + 1,
        RwStep::UpgradableDrop => {
            let n = word::without_bit_at(v, u);
            if n == 0 {
                (pow2(bits) - 1) as nat
            } else {
                (n - 1) as nat
            }
        },
        RwStep::WriteToRead => word::without_bit_at(v, w) + 1,
        RwStep::WriteToUpgradable => {
            let n = word::with_bit_at(word::without_bit_at(v, w), u);
            if word::bit_at(v, u) {
                n
            } else {
                n + 1
            }
        },
        RwStep::UpgradableToRead => word::without_bit_at(v, u),
        RwStep::Upgrade => word::with_bit_at(v, w),
    }
}

/// The name of a change.
pub open spec fn step_name(step: RwStep) -> int {
    match step {
        RwStep::Read => 1,
        RwStep::ReadDrop => 2,
        RwStep::Write => 3,
        RwStep::QueueWriter => 4,
        RwStep::WriteDrop => 5,
        RwStep::UpgradableRead => 6,
        RwStep::UpgradableDrop => 7,
        RwStep::WriteToRead => 8,
        RwStep::WriteToUpgradable => 9,
        RwStep::UpgradableToRead => 10,
        RwStep::Upgrade => 11,
    }
}

impl<D: StateWord> Step<D> for RwStep {
    open spec fn valid(self) -> bool {
        true
    }

    open spec fn enabled(self, v: nat) -> bool {
        step_enabled(self, fields_of(v, D::bits()), max_readers(D::bits()))
    }

    open spec fn name(self) -> int {
        step_name(self)
    }

    open spec fn next(self, v: nat) -> nat {
        number_next(self, v, D::bits())
    }

    fn expect(self, word: D) -> (r: bool) {
        match self {
            RwStep::Read => expect_can_read(word),
            RwStep::ReadDrop => expect_reader_gt_min(word),
            RwStep::Write => expect_can_write(word),
            RwStep::QueueWriter => expect_writer_not_queued(word),
            RwStep::WriteDrop => expect_writer_active(word),
            RwStep::UpgradableRead => expect_reader_lt_max(word)
                && expect_write_not_queued_and_upgrade_inactive(word),
            RwStep::UpgradableDrop => expect_upgrade_active(word),
            RwStep::WriteToRead => expect_writer_active(word),
            RwStep::WriteToUpgradable => expect_writer_active(word),
            RwStep::UpgradableToRead => expect_can_downgrade_to_read_(word),
            RwStep::Upgrade => expect_can_upgrade_(word),
        }
    }

    fn desire(self, word: D) -> (r: D) {
        proof {
            D::lemma_width();
            word.lemma_word();
            lemma_parts(word.val(), D::bits());
            lemma_fields(word.val(), D::bits());
        }
        match self {
            RwStep::Read => desire_inc_reader(word),
            RwStep::ReadDrop => desire_dec_reader(word),
            RwStep::Write => desire_writer_active(word),
            RwStep::QueueWriter => desire_writer_queued(word),
            RwStep::WriteDrop => desire_writer_not_queued_inactive_(word),
            RwStep::UpgradableRead => desire_upgrade_active_and_reader_inc(word),
            RwStep::UpgradableDrop => desire_upgrade_inactive_and_reader_dec(word),
            RwStep::WriteToRead => desire_write_to_read_(word),
            RwStep::WriteToUpgradable => desire_write_to_upgradable_(word),
            RwStep::UpgradableToRead => desire_upgrade_inactive(word),
            RwStep::Upgrade => desire_writer_active(word),
        }
    }
}

pub fn expect_can_read<D: StateWord>(s: D) -> (r: bool)
    ensures
        r == step_enabled(RwStep::Read, rw_view(s), max_readers(D::bits())),
    opens_invariants none
{
    expect_reader_lt_max(s) && expect_writer_not_queued(s) && expect_writer_inactive(s)
}

pub fn expect_can_write<D: StateWord>(s: D) -> (r: bool)
    ensures
        r == step_enabled(RwStep::Write, rw_view(s), max_readers(D::bits())),
    opens_invariants none
{
    !expect_reader_gt_min(s) && expect_writer_inactive(s)
}

pub fn expect_write_not_queued_and_upgrade_inactive<D: StateWord>(s: D) -> (r: bool)
    ensures
        r == (!rw_view(s).queued && !rw_view(s).writer && !rw_view(s).upgrade),
    opens_invariants none
{
    expect_writer_not_queued(s) && expect_writer_inactive(s) && expect_upgrade_inactive(s)
}

pub fn expect_can_downgrade_to_read_<D: StateWord>(s: D) -> (r: bool)
    ensures
        r == step_enabled(RwStep::UpgradableToRead, rw_view(s), max_readers(D::bits())),
    opens_invariants none
{
    expect_upgrade_active(s) && expect_writer_inactive(s) && expect_reader_gt_min(s)
}

pub fn expect_can_upgrade_<D: StateWord>(s: D) -> (r: bool)
    ensures
        r == step_enabled(RwStep::Upgrade, rw_view(s), max_readers(D::bits())),
    opens_invariants none
{
    proof {
        D::lemma_width();
        lemma2_to64();
    }
    expect_upgrade_active(s) && get_reader_count(s).same(D::single(0))
}

pub fn desire_writer_not_queued_inactive_<D: StateWord>(s: D) -> (r: D)
    ensures
        r.val() == number_next(RwStep::WriteDrop, s.val(), D::bits()),
        rw_view(r) == step_next(RwStep::WriteDrop, rw_view(s)),
    opens_invariants none
{
    desire_writer_not_queued(desire_writer_inactive(s))
}

pub fn desire_upgrade_active_and_reader_inc<D: StateWord>(s: D) -> (r: D)
    requires
        word::with_bit_at(s.val(), (D::bits() - 3) as nat) + 1 < pow2(D::bits()),
    ensures
        r.val() == number_next(RwStep::UpgradableRead, s.val(), D::bits()),
        rw_view(s).readers < max_readers(D::bits()) ==> rw_view(r) == step_next(
            RwStep::UpgradableRead,
            rw_view(s),
        ),
    opens_invariants none
{
    desire_inc_reader(desire_upgrade_active(s))
}

/// An upgradable reader that leaves a word without readers, which no lock comes
/// to have, borrows from the flags above.
pub fn desire_upgrade_inactive_and_reader_dec<D: StateWord>(s: D) -> (r: D)
    ensures
        r.val() == number_next(RwStep::UpgradableDrop, s.val(), D::bits()),
        !carries(RwStep::UpgradableDrop, rw_view(s), max_readers(D::bits())) ==> rw_view(r)
            == step_next(RwStep::UpgradableDrop, rw_view(s)),
    opens_invariants none
{
    let t = desire_upgrade_inactive(s);
    proof {
        D::lemma_width();
        t.lemma_word();
        lemma_parts(t.val(), D::bits());
    }
    t.wrapping_dec()
}

pub fn desire_write_to_read_<D: StateWord>(s: D) -> (r: D)
    ensures
        r.val() == number_next(RwStep::WriteToRead, s.val(), D::bits()),
        !carries(RwStep::WriteToRead, rw_view(s), max_readers(D::bits())) ==> rw_view(r)
            == step_next(RwStep::WriteToRead, rw_view(s)),
    opens_invariants none
{
    let t = desire_writer_inactive(s);
    proof {
        D::lemma_width();
        t.lemma_word();
        lemma_parts(t.val(), D::bits());
        lemma_fields(t.val(), D::bits());
    }
    desire_inc_reader(t)
}

pub fn desire_write_to_upgradable_<D: StateWord>(s: D) -> (r: D)
    ensures
        r.val() == number_next(RwStep::WriteToUpgradable, s.val(), D::bits()),
        !carries(RwStep::WriteToUpgradable, rw_view(s), max_readers(D::bits())) ==> rw_view(r)
            == step_next(RwStep::WriteToUpgradable, rw_view(s)),
    opens_invariants none
{
    let t = desire_upgrade_active(desire_writer_inactive(s));
    proof {
        D::lemma_width();
        t.lemma_word();
        lemma_parts(t.val(), D::bits());
        lemma_fields(t.val(), D::bits());
    }
    if expect_upgrade_active(s) {
        t
    } else {
        desire_inc_reader(t)
    }
}

/// A change that does not count into the flags makes of the parts of the word
/// what [`step_next`] says.
#[verifier::spinoff_prover]
#[verifier::rlimit(60)]
pub proof fn lemma_step(step: RwStep, v: nat, bits: nat)
    requires
        8 <= bits,
        v < pow2(bits),
        step_enabled(step, fields_of(v, bits), max_readers(bits)),
        !carries(step, fields_of(v, bits), max_readers(bits)),
    ensures
        number_next(step, v, bits) < pow2(bits),
        fields_of(number_next(step, v, bits), bits) == step_next(step, fields_of(v, bits)),
        step_next(step, fields_of(v, bits)).readers <= max_readers(bits),
{
    let f = fields_of(v, bits);
    let w = (bits - 1) as nat;
    let q = (bits - 2) as nat;
    let u = (bits - 3) as nat;
    lemma_fields(v, bits);
    lemma_parts(v, bits);
    match step {
        RwStep::WriteDrop => {
            lemma_parts(word::without_bit_at(v, w), bits);
        },
        RwStep::UpgradableRead => {
            lemma_parts(word::with_bit_at(v, u), bits);
        },
        RwStep::UpgradableDrop => {
            lemma_parts(word::without_bit_at(v, u), bits);
        },
        RwStep::WriteToRead => {
            lemma_parts(word::without_bit_at(v, w), bits);
        },
        RwStep::WriteToUpgradable => {
            let n = word::without_bit_at(v, w);
            lemma_parts(n, bits);
            lemma_parts(word::with_bit_at(n, u), bits);
        },
        _ => {},
    }
}

/// The number of readers in a word, where a `usize` can hold it.
pub fn readers_in<D: StateWord>(s: D) -> (r: Option<usize>)
    ensures
        r is Some <==> rw_view(s).readers <= usize::MAX,
        r matches Some(n) ==> n == rw_view(s).readers,
    opens_invariants none
{
    get_reader_count(s).to_usize()
}

/// What became of a writer that tried to come in.
pub struct WriteTry<D> {
    /// The exchange by which it comes in.
    pub write: Attempt<D, RwStep>,
    /// The exchange by which it announces itself, if it did not come in.
    pub queue: Option<Attempt<D, RwStep>>,
}

impl<D: StateWord> WriteTry<D> {
    /// A writer tries to come in, and announces itself if it does not.
    pub open spec fn holds(self) -> bool {
        &&& cell::attempt_holds(self.write, RwStep::Write)
        &&& self.queue is Some <==> !self.write.swapped()
        &&& self.queue matches Some(q) ==> cell::attempt_holds(q, RwStep::QueueWriter)
    }

    /// Whether the exchanges were made on the atomic `source`.
    pub open spec fn on(self, source: Source) -> bool {
        &&& self.write.source() == source
        &&& self.queue matches Some(q) ==> q.source() == source
    }
}

/// The state of a lock: a cell that holds the state word.
pub struct RwLockState<C: WordCell> {
    stat_: C,
}

impl<C: WordCell> RwLockState<C> {
    /// The cell that holds the state word.
    pub closed spec fn cell(self) -> C {
        self.stat_
    }

    pub fn new(cell: C) -> (r: Self)
        ensures
            r.cell() == cell,
        opens_invariants none
    {
        RwLockState { stat_: cell }
    }

    /// Loads the state word from the cell.
    pub fn load_state(&self) -> (r: cell::Loaded<C::Word>)
        ensures
            r.source() == self.cell().source(),
        opens_invariants none
    {
        self.stat_.value()
    }

    /// The number of readers in the word that was loaded.
    pub fn reader_count(&self) -> (r: C::Word)
        ensures
            exists|l: cell::Loaded<C::Word>| #[trigger]
                l.source() == self.cell().source() && r.val() == rw_view(l.seen()).readers,
            r.val() <= max_readers(C::Word::bits()),
        opens_invariants none
    {
        let s = self.load_state().word();
        get_reader_count(s)
    }

    /// One reader leaves. The number of readers before comes back: `Ok` where
    /// there was one to leave.
    pub fn decrease_reader_count(&self) -> (r: Result<C::Word, C::Word>)
        ensures
            exists|a: Attempt<C::Word, RwStep>| #[trigger]
                cell::attempt_on(a, self.cell().source(), RwStep::ReadDrop) && match r {
                    Ok(n) => a.swapped() && n.val() == rw_view(a.seen()).readers,
                    Err(n) => !a.swapped() && n.val() == rw_view(a.seen()).readers,
                },
            r matches Ok(n) ==> 0 < n.val() <= max_readers(C::Word::bits()),
            r matches Err(n) ==> n.val() == 0,
        opens_invariants [ step_name(RwStep::ReadDrop) ]
    {
        let a = self.on_reader_guard_drop();
        match a.into_result() {
            Ok(s) => Ok(get_reader_count(s)),
            Err(s) => Err(get_reader_count(s)),
        }
    }

    /// A writer tries to come in. One that does not announces itself, which
    /// keeps further readers out until a writer has left.
    pub fn try_write(&self) -> (r: WriteTry<C::Word>)
        ensures
            r.holds(),
            r.on(self.cell().source()),
        opens_invariants [ step_name(RwStep::Write), step_name(RwStep::QueueWriter) ]
    {
        let write = self.stat_.try_spin(RwStep::Write);
        let queue = if write.is_succ() {
            None
        } else {
            Some(self.stat_.try_spin(RwStep::QueueWriter))
        };
        WriteTry { write, queue }
    }

    /// A reader tries to come in.
    pub fn try_read(&self) -> (r: Attempt<C::Word, RwStep>)
        ensures
            cell::attempt_on(r, self.cell().source(), RwStep::Read),
        opens_invariants [ step_name(RwStep::Read) ]
    {
        self.stat_.try_spin(RwStep::Read)
    }

    /// An upgradable reader tries to come in.
    pub fn try_upgradable_read(&self) -> (r: Attempt<C::Word, RwStep>)
        ensures
            cell::attempt_on(r, self.cell().source(), RwStep::UpgradableRead),
        opens_invariants [ step_name(RwStep::UpgradableRead) ]
    {
        self.stat_.try_spin(RwStep::UpgradableRead)
    }

    /// A reader leaves.
    pub fn on_reader_guard_drop(&self) -> (r: Attempt<C::Word, RwStep>)
        ensures
            cell::attempt_on(r, self.cell().source(), RwStep::ReadDrop),
        opens_invariants [ step_name(RwStep::ReadDrop) ]
    {
        self.stat_.try_spin(RwStep::ReadDrop)
    }

    /// A writer leaves, and lets readers in again.
    pub fn on_writer_guard_drop(&self) -> (r: Attempt<C::Word, RwStep>)
        ensures
            cell::attempt_on(r, self.cell().source(), RwStep::WriteDrop),
        opens_invariants [ step_name(RwStep::WriteDrop) ]
    {
        self.stat_.try_spin(RwStep::WriteDrop)
    }

    /// An upgradable reader leaves.
    pub fn on_upgradable_read_drop(&self) -> (r: Attempt<C::Word, RwStep>)
        ensures
            cell::attempt_on(r, self.cell().source(), RwStep::UpgradableDrop),
        opens_invariants [ step_name(RwStep::UpgradableDrop) ]
    {
        self.stat_.try_spin(RwStep::UpgradableDrop)
    }

    /// A writer becomes a reader.
    pub fn try_downgrade_write_to_read(&self) -> (r: Attempt<C::Word, RwStep>)
        ensures
            cell::attempt_on(r, self.cell().source(), RwStep::WriteToRead),
        opens_invariants [ step_name(RwStep::WriteToRead) ]
    {
        self.stat_.try_spin(RwStep::WriteToRead)
    }

    /// A writer becomes an upgradable reader.
    pub fn try_downgrade_write_to_upgradable(&self) -> (r: Attempt<C::Word, RwStep>)
        ensures
            cell::attempt_on(r, self.cell().source(), RwStep::WriteToUpgradable),
        opens_invariants [ step_name(RwStep::WriteToUpgradable) ]
    {
        self.stat_.try_spin(RwStep::WriteToUpgradable)
    }

    /// An upgradable reader becomes a reader.
    pub fn try_downgrade_upgradable_to_read(&self) -> (r: Attempt<C::Word, RwStep>)
        ensures
            cell::attempt_on(r, self.cell().source(), RwStep::UpgradableToRead),
        opens_invariants [ step_name(RwStep::UpgradableToRead) ]
    {
        self.stat_.try_spin(RwStep::UpgradableToRead)
    }

    /// An upgradable reader tries to become a writer, which it can as the only
    /// reader. It keeps its place as an upgradable reader.
    pub fn try_upgrade_upgradable_to_write(&self) -> (r: Attempt<C::Word, RwStep>)
        ensures
            cell::attempt_on(r, self.cell().source(), RwStep::Upgrade),
        opens_invariants [ step_name(RwStep::Upgrade) ]
    {
        self.stat_.try_spin(RwStep::Upgrade)
    }
}

} // verus!
