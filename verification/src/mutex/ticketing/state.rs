//! The state word of the ticket lock.
//!
//! From the top, the word holds the report flag, the poison flag, the number
//! that is served, and the last number that was drawn. A number takes up half
//! of the bits below the flags. A word of zero is a free lock. A task draws a
//! number by adding one to the last one drawn, and holds the lock while the
//! number served is its own.
//!
//! A task that gives up its number announces it by the report flag: it puts its
//! number where the last one drawn was, and the tasks behind it each move up
//! by one.

use vstd::arithmetic::mul::*;
use vstd::arithmetic::power2::*;
use vstd::prelude::*;

use crate::cancel::TrCancellationToken;
use crate::cell;
use crate::cell::{Attempt, Loaded, Source, Step, Trial, TrialEnd, WordCell};
use crate::fields;
use crate::word;
use crate::word::StateWord;

verus! {

/// The parts of a state word.
pub struct TicketFields {
    /// A task is giving up its number.
    pub report: bool,
    pub poison: bool,
    /// The number served, zero where none is.
    pub service: nat,
    /// The last number drawn, or, while the report flag is on, the last number
    /// given up.
    pub ticket: nat,
}

/// How many bits a number takes up in a word of `bits` bits.
pub open spec fn half(bits: nat) -> nat {
    ((bits - 2) / 2) as nat
}

/// The largest number that can be drawn.
pub open spec fn half_max(bits: nat) -> nat {
    (pow2(half(bits)) - 1) as nat
}

/// The parts of the word that stands for `v`.
pub open spec fn fields_of(v: nat, bits: nat) -> TicketFields {
    TicketFields {
        report: word::bit_at(v, (bits - 1) as nat),
        poison: word::bit_at(v, (bits - 2) as nat),
        service: (v / pow2(half(bits))) % pow2(half(bits)),
        ticket: v % pow2(half(bits)),
    }
}

/// The flags as the number that the two topmost bits hold.
pub open spec fn flags_of(f: TicketFields) -> nat {
    (if f.report {
        2nat
    } else {
        0
    }) + (if f.poison {
        1nat
    } else {
        0
    })
}

/// The number of the word with the parts `f`.
pub open spec fn word_of(f: TicketFields, bits: nat) -> nat {
    flags_of(f) * pow2(half(bits) + half(bits)) + f.service * pow2(half(bits)) + f.ticket
}

impl TicketFields {
    /// Whether the numbers fit where the largest one is `max`.
    pub open spec fn fits(self, max: nat) -> bool {
        self.service <= max && self.ticket <= max
    }

    /// A free lock.
    pub open spec fn free() -> TicketFields {
        TicketFields { report: false, poison: false, service: 0, ticket: 0 }
    }
}

/// A width that a state word can have.
pub open spec fn sound_width(bits: nat) -> bool {
    8 <= bits <= 64 && bits % 2 == 0
}

/// A number is drawn from at least seven.
pub proof fn lemma_half(bits: nat)
    requires
        sound_width(bits),
    ensures
        3 <= half(bits) < bits,
        bits == half(bits) + half(bits) + 2,
        half_max(bits) + 1 == pow2(half(bits)),
        7 <= half_max(bits),
        pow2((bits - 2) as nat) == pow2(half(bits) + half(bits)),
        pow2(bits) == 4 * pow2(half(bits) + half(bits)),
{
    lemma2_to64();
    lemma_pow2_pos(half(bits));
    if half(bits) > 3 {
        lemma_pow2_strictly_increases(3, half(bits));
    }
    fields::lemma_top_bits(0, (half(bits) + half(bits)) as nat);
}

/// A word is told by its parts.
pub proof fn lemma_fields(v: nat, bits: nat)
    requires
        sound_width(bits),
        v < pow2(bits),
    ensures
        fields_of(v, bits).fits(half_max(bits)),
        word_of(fields_of(v, bits), bits) == v,
        flags_of(fields_of(v, bits)) == v / pow2(half(bits) + half(bits)),
{
    let h = half(bits);
    lemma_half(bits);
    lemma2_to64();
    fields::lemma_top_bits(v, h + h);
    fields::lemma_top_bound(v, h + h, 2);
    fields::lemma_two_fields(v, h);
    assert((bits - 2) as nat == h + h);
    assert((bits - 1) as nat == h + h + 1);
}

/// Parts that fit are found again in their word.
pub proof fn lemma_word_of(f: TicketFields, bits: nat)
    requires
        sound_width(bits),
        f.fits(half_max(bits)),
    ensures
        word_of(f, bits) < pow2(bits),
        fields_of(word_of(f, bits), bits) == f,
{
    let h = half(bits);
    let v = word_of(f, bits);
    lemma_half(bits);
    fields::lemma_two_fields_join(flags_of(f), f.service, f.ticket, h);
    fields::lemma_top_bits(v, h + h);
    lemma_mul_inequality(flags_of(f) as int, 3, pow2(h + h) as int);
    assert((bits - 2) as nat == h + h);
    assert((bits - 1) as nat == h + h + 1);
}

/// A change that a state word can go through.
pub enum TicketMove {
    /// The next number is drawn.
    GetTicket,
    /// The first number is served.
    ServeFirst,
    /// The task that is served with this number is done.
    Release(nat),
    /// A task gives up this number.
    GiveUp(nat),
    /// The task with this number moves up to the number given up, and gives
    /// up its own.
    MoveUp(nat),
    /// No task is left to move up.
    ReportOff,
    /// No task is left to move up, and this number is skipped if it is
    /// served.
    SkipReportOff(nat),
}

/// Where a change can take place, the largest number being `max`.
pub open spec fn move_enabled(mv: TicketMove, f: TicketFields, max: nat) -> bool {
    match mv {
        TicketMove::GetTicket => !f.report && f.service <= f.ticket && f.ticket < max,
        TicketMove::ServeFirst => f.service == 0 && f.service < f.ticket,
        TicketMove::Release(n) => f.service == n && (if n < max {
            f.service <= f.ticket
        } else {
            f.service == f.ticket
        }),
        TicketMove::GiveUp(m) => !f.report && f.service < m,
        TicketMove::MoveUp(m) => f.report && f.ticket < m,
        TicketMove::ReportOff => f.report,
        TicketMove::SkipReportOff(_) => f.report,
    }
}

/// What a change makes of the parts of the word.
pub open spec fn move_next(mv: TicketMove, f: TicketFields, max: nat) -> TicketFields {
    match mv {
        TicketMove::GetTicket => TicketFields { ticket: f.ticket + 1, ..f },
        TicketMove::ServeFirst => TicketFields { service: 1, ..f },
        TicketMove::Release(n) => if n >= max {
            TicketFields::free()
        } else if !f.report && f.service == f.ticket {
            TicketFields { service: 0, ticket: 0, ..f }
        } else {
            TicketFields { service: f.service + 1, ..f }
        },
        TicketMove::GiveUp(m) => TicketFields { report: true, ticket: m, ..f },
        TicketMove::MoveUp(m) => TicketFields { ticket: m, ..f },
        TicketMove::ReportOff => TicketFields { report: false, ..f },
        TicketMove::SkipReportOff(m) => TicketFields {
            report: false,
            service: if f.service != m {
                f.service
            } else if m < max {
                f.service + 1
            } else {
                0
            },
            ..f
        },
    }
}

/// The name of a change. Giving the lock back has one for each number that it can
/// be held with. Otherwise the number in a change makes no difference.
pub open spec fn move_name(mv: TicketMove) -> int {
    match mv {
        TicketMove::GetTicket => 1,
        TicketMove::ServeFirst => 2,
        TicketMove::GiveUp(_) => 3,
        TicketMove::MoveUp(_) => 4,
        TicketMove::ReportOff => 5,
        TicketMove::SkipReportOff(_) => 6,
        TicketMove::Release(n) => n + 7int,
    }
}

/// Whether the number in a change, if any is to be written, can be drawn.
pub open spec fn move_valid(mv: TicketMove, max: nat) -> bool {
    match mv {
        TicketMove::GiveUp(m) => m <= max,
        TicketMove::MoveUp(m) => m <= max,
        _ => true,
    }
}

/// A [`TicketMove`] as it is tried on a cell.
#[derive(Clone, Copy)]
pub enum TicketStep<D> {
    GetTicket,
    ServeFirst,
    Release(D),
    GiveUp(D),
    MoveUp(D),
    ReportOff,
    SkipReportOff(D),
}

impl<D: StateWord> TicketStep<D> {
    pub open spec fn mv(self) -> TicketMove {
        match self {
            TicketStep::GetTicket => TicketMove::GetTicket,
            TicketStep::ServeFirst => TicketMove::ServeFirst,
            TicketStep::Release(n) => TicketMove::Release(n.val()),
            TicketStep::GiveUp(m) => TicketMove::GiveUp(m.val()),
            TicketStep::MoveUp(m) => TicketMove::MoveUp(m.val()),
            TicketStep::ReportOff => TicketMove::ReportOff,
            TicketStep::SkipReportOff(m) => TicketMove::SkipReportOff(m.val()),
        }
    }
}

/// The parts of a state word.
pub open spec fn ticket_view<D: StateWord>(w: D) -> TicketFields {
    fields_of(w.val(), D::bits())
}

/// How many bits a number takes up.
#[allow(non_snake_case)]
pub fn K_HALF_BITS<D: StateWord>() -> (r: u32)
    ensures
        r == half(D::bits()),
        3 <= r,
        r + r + 2 == D::bits(),
    opens_invariants none
{
    (D::width() - 2) / 2
}

/// The flag of a task that gives up its number. It is on for one such task
/// at a time. A task behind it takes over the number given up, and gives
/// up its own in turn; the last one finds that nobody follows, and turns
/// the flag off.
#[allow(non_snake_case)]
pub fn K_REPORT_FLAG<D: StateWord>() -> (r: D)
    ensures
        r.val() == pow2((D::bits() - 1) as nat),
    opens_invariants none
{
    D::single(D::width() - 1)
}

#[allow(non_snake_case)]
pub fn K_POISON_FLAG<D: StateWord>() -> (r: D)
    ensures
        r.val() == pow2((D::bits() - 2) as nat),
    opens_invariants none
{
    D::single(D::width() - 2)
}

/// The largest number that can be drawn.
#[allow(non_snake_case)]
pub fn K_HALF_MAX<D: StateWord>() -> (r: D)
    ensures
        r.val() == half_max(D::bits()),
    opens_invariants none
{
    let h: u32 = K_HALF_BITS::<D>();
    proof {
        D::lemma_width();
        lemma_half(D::bits());
        lemma_pow2_pos(0);
        lemma2_to64();
    }
    D::single(h).minus(D::single(0))
}

/// The bits of the last number drawn.
#[allow(non_snake_case)]
pub fn K_TICKET_MASK<D: StateWord>() -> (r: D)
    ensures
        r.val() == half_max(D::bits()),
    opens_invariants none
{
    K_HALF_MAX::<D>()
}

/// The bits of the number served.
#[allow(non_snake_case)]
pub fn K_SERVICE_MASK<D: StateWord>() -> (r: D)
    ensures
        r.val() == half_max(D::bits()) * pow2(half(D::bits())),
    opens_invariants none
{
    let h: u32 = K_HALF_BITS::<D>();
    proof {
        D::lemma_width();
        lemma_half(D::bits());
        fields::lemma_two_fields_join(0, half_max(D::bits()), 0, h as nat);
    }
    K_HALF_MAX::<D>().shl(h)
}

/// The bits below the flags.
#[allow(non_snake_case)]
pub fn K_NON_FLAG_MASK<D: StateWord>() -> (r: D)
    ensures
        r.val() == pow2((D::bits() - 2) as nat) - 1,
    opens_invariants none
{
    proof {
        D::lemma_width();
        lemma_pow2_pos((D::bits() - 2) as nat);
        lemma2_to64();
    }
    K_POISON_FLAG::<D>().minus(D::single(0))
}

/// The number served and the last number drawn.
pub fn split_service_and_ticket<D: StateWord>(v: D) -> (r: (D, D))
    ensures
        r.0.val() == ticket_view(v).service,
        r.1.val() == ticket_view(v).ticket,
        ticket_view(v).fits(half_max(D::bits())),
    opens_invariants none
{
    let h: u32 = K_HALF_BITS::<D>();
    proof {
        D::lemma_width();
        v.lemma_word();
        lemma_fields(v.val(), D::bits());
    }
    (v.shr(h).low(h), v.low(h))
}

/// The word `current` with other numbers and the same flags.
pub fn merge_service_and_ticket<D: StateWord>(current: D, service: D, ticket: D) -> (r: D)
    requires
        service.val() <= half_max(D::bits()),
        ticket.val() <= half_max(D::bits()),
    ensures
        ticket_view(r) == (TicketFields {
            service: service.val(),
            ticket: ticket.val(),
            ..ticket_view(current)
        }),
        r.val() == word_of(ticket_view(r), D::bits()),
    opens_invariants none
{
    let h: u32 = K_HALF_BITS::<D>();
    let ghost bits = D::bits();
    let ghost f = ticket_view(current);
    let ghost g = TicketFields { service: service.val(), ticket: ticket.val(), ..f };
    proof {
        D::lemma_width();
        current.lemma_word();
        lemma_half(bits);
        lemma_fields(current.val(), bits);
        lemma_mul_inequality(flags_of(f) as int, 3, pow2((h + h) as nat) as int);
        fields::lemma_two_fields_join(flags_of(f), service.val(), ticket.val(), h as nat);
        lemma_word_of(g, bits);
    }
    let vh = current.shr(h + h).shl(h + h);
    vh.plus(service.shl(h)).plus(ticket)
}

pub fn expect_report_flag_on<D: StateWord>(v: D) -> (r: bool)
    ensures
        r == ticket_view(v).report,
    opens_invariants none
{
    v.bit(D::width() - 1)
}

pub fn expect_report_flag_off<D: StateWord>(v: D) -> (r: bool)
    ensures
        r == !ticket_view(v).report,
    opens_invariants none
{
    !expect_report_flag_on(v)
}

pub fn desire_report_flag_on<D: StateWord>(v: D) -> (r: D)
    ensures
        ticket_view(r) == (TicketFields { report: true, ..ticket_view(v) }),
        r.val() == word_of(ticket_view(r), D::bits()),
    opens_invariants none
{
    let r = v.with_bit(D::width() - 1);
    proof {
        D::lemma_width();
        v.lemma_word();
        lemma_report_bit(v.val(), D::bits());
    }
    r
}

pub fn desire_report_flag_off<D: StateWord>(v: D) -> (r: D)
    ensures
        ticket_view(r) == (TicketFields { report: false, ..ticket_view(v) }),
        r.val() == word_of(ticket_view(r), D::bits()),
    opens_invariants none
{
    let r = v.without_bit(D::width() - 1);
    proof {
        D::lemma_width();
        v.lemma_word();
        lemma_report_bit(v.val(), D::bits());
    }
    r
}

/// A number can be drawn while nobody gives one up and numbers are left.
pub fn expect_can_get_ticket<D: StateWord>(v: D) -> (r: bool)
    ensures
        r == move_enabled(
            TicketMove::GetTicket,
            ticket_view(v),
            half_max(D::bits()),
        ),
    opens_invariants none
{
    if expect_report_flag_off(v) {
        let (s, t) = split_service_and_ticket(v);
        !t.less(s) && t.less(K_HALF_MAX::<D>())
    } else {
        false
    }
}

pub fn desire_ticket_inc<D: StateWord>(v: D) -> (r: D)
    requires
        ticket_view(v).ticket < half_max(D::bits()),
    ensures
        ticket_view(r) == (TicketFields {
            ticket: ticket_view(v).ticket + 1,
            ..ticket_view(v)
        }),
        r.val() == word_of(ticket_view(r), D::bits()),
    opens_invariants none
{
    let (s, t) = split_service_and_ticket(v);
    merge_service_and_ticket(v, s, succ_(t))
}

/// The number after `n`.
fn succ_<D: StateWord>(n: D) -> (r: D)
    requires
        n.val() < half_max(D::bits()),
    ensures
        r.val() == n.val() + 1,
    opens_invariants none
{
    proof {
        D::lemma_width();
        lemma_half(D::bits());
        lemma2_to64();
        lemma_pow2_strictly_increases(half(D::bits()), D::bits());
    }
    n.plus(D::single(0))
}

pub fn expect_service_0<D: StateWord>(v: D) -> (r: bool)
    ensures
        r == move_enabled(
            TicketMove::ServeFirst,
            ticket_view(v),
            half_max(D::bits()),
        ),
    opens_invariants none
{
    let (s, t) = split_service_and_ticket(v);
    s.same(D::zero()) && s.less(t)
}

pub fn desire_service_1<D: StateWord>(v: D) -> (r: D)
    ensures
        ticket_view(r) == (TicketFields { service: 1, ..ticket_view(v) }),
        r.val() == word_of(ticket_view(r), D::bits()),
    opens_invariants none
{
    proof {
        D::lemma_width();
        lemma_half(D::bits());
        lemma2_to64();
    }
    let (_, t) = split_service_and_ticket(v);
    merge_service_and_ticket(v, D::single(0), t)
}

/// What setting and clearing the topmost bit does to the parts of a word.
proof fn lemma_report_bit(v: nat, bits: nat)
    requires
        sound_width(bits),
        v < pow2(bits),
    ensures
        ({
            let on = word::with_bit_at(v, (bits - 1) as nat);
            let off = word::without_bit_at(v, (bits - 1) as nat);
            &&& fields_of(on, bits) == (TicketFields { report: true, ..fields_of(v, bits) })
            &&& fields_of(off, bits) == (TicketFields { report: false, ..fields_of(v, bits) })
            &&& word_of(fields_of(on, bits), bits) == on
            &&& word_of(fields_of(off, bits), bits) == off
        }),
{
    let h = half(bits);
    let f = fields_of(v, bits);
    let g = TicketFields { report: !f.report, ..f };
    lemma_half(bits);
    lemma_fields(v, bits);
    lemma_word_of(f, bits);
    lemma_word_of(g, bits);
    fields::lemma_top_bits(0, h + h);
    assert((bits - 1) as nat == h + h + 1);
    if f.report {
        lemma_mul_is_distributive_sub_other_way(pow2(h + h) as int, flags_of(f) as int, 2);
    } else {
        lemma_mul_is_distributive_add_other_way(pow2(h + h) as int, flags_of(f) as int, 2);
    }
}

/// Changes end in parts that fit.
pub proof fn lemma_move_fits(mv: TicketMove, f: TicketFields, max: nat)
    requires
        1 <= max,
        f.fits(max),
        move_valid(mv, max),
        move_enabled(mv, f, max),
    ensures
        move_next(mv, f, max).fits(max),
{
}

/// The poison flag stays as it is, except that the task with the largest number
/// leaves a word of zero behind.
pub proof fn law_poison_flag_stays(mv: TicketMove, f: TicketFields, max: nat)
    requires
        move_enabled(mv, f, max),
        !(mv matches TicketMove::Release(n) && n >= max),
    ensures
        move_next(mv, f, max).poison == f.poison,
{
}

impl<D: StateWord> Step<D> for TicketStep<D> {
    open spec fn valid(self) -> bool {
        move_valid(self.mv(), half_max(D::bits()))
    }

    open spec fn enabled(self, v: nat) -> bool {
        move_enabled(self.mv(), fields_of(v, D::bits()), half_max(D::bits()))
    }

    open spec fn name(self) -> int {
        move_name(self.mv())
    }

    open spec fn next(self, v: nat) -> nat {
        word_of(move_next(self.mv(), fields_of(v, D::bits()), half_max(D::bits())), D::bits())
    }

    fn expect(self, word: D) -> (r: bool) {
        let (s, t) = split_service_and_ticket(word);
        match self {
            TicketStep::GetTicket => expect_can_get_ticket(word),
            TicketStep::ServeFirst => expect_service_0(word),
            TicketStep::Release(n) => s.same(n) && (if n.less(K_HALF_MAX::<D>()) {
                !t.less(s)
            } else {
                s.same(t)
            }),
            TicketStep::GiveUp(m) => expect_report_flag_off(word) && s.less(m),
            TicketStep::MoveUp(m) => t.less(m) && expect_report_flag_on(word),
            TicketStep::ReportOff => expect_report_flag_on(word),
            TicketStep::SkipReportOff(_) => expect_report_flag_on(word),
        }
    }

    fn desire(self, word: D) -> (r: D) {
        proof {
            D::lemma_width();
            word.lemma_word();
            lemma_half(D::bits());
            lemma_fields(word.val(), D::bits());
            lemma_move_fits(self.mv(), ticket_view(word), half_max(D::bits()));
            lemma_word_of(
                move_next(self.mv(), ticket_view(word), half_max(D::bits())),
                D::bits(),
            );
        }
        let (s, t) = split_service_and_ticket(word);
        match self {
            TicketStep::GetTicket => desire_ticket_inc(word),
            TicketStep::ServeFirst => desire_service_1(word),
            TicketStep::Release(n) => if n.less(K_HALF_MAX::<D>()) {
                if expect_report_flag_off(word) && s.same(t) {
                    merge_service_and_ticket(word, D::zero(), D::zero())
                } else {
                    merge_service_and_ticket(word, succ_(s), t)
                }
            } else {
                proof {
                    lemma_mul_basics(pow2(half(D::bits()) + half(D::bits())) as int);
                    lemma_mul_basics(pow2(half(D::bits())) as int);
                }
                D::zero()
            },
            TicketStep::GiveUp(m) => {
                let u = desire_report_flag_on(word);
                let (s, _) = split_service_and_ticket(u);
                merge_service_and_ticket(u, s, m)
            },
            TicketStep::MoveUp(m) => merge_service_and_ticket(word, s, m),
            TicketStep::ReportOff => desire_report_flag_off(word),
            TicketStep::SkipReportOff(m) => {
                let n = if !s.same(m) {
                    s
                } else if m.less(K_HALF_MAX::<D>()) {
                    succ_(s)
                } else {
                    D::zero()
                };
                desire_report_flag_off(merge_service_and_ticket(word, n, t))
            },
        }
    }
}

/// The state of a ticket lock: a cell that holds the state word.
pub struct MutexState<C: WordCell> {
    state_: C,
}

/// Why no number was drawn.
#[derive(Clone, Copy, Debug)]
pub enum NoTicket<D> {
    /// The token was cancelled.
    Cancelled,
    /// The turns have run out. The word is the one to go on from.
    Pending(D),
}

/// Whether a word is that of an acquired lock.
pub fn word_is_acquired<D: StateWord>(v: D) -> (r: bool)
    ensures
        r == (v.val() != 0),
        r == (ticket_view(v) != TicketFields::free()),
    opens_invariants none
{
    proof {
        D::lemma_width();
        v.lemma_word();
        lemma_half(D::bits());
        lemma_fields(v.val(), D::bits());
        lemma_mul_basics(pow2(half(D::bits()) + half(D::bits())) as int);
        lemma_mul_basics(pow2(half(D::bits())) as int);
        lemma_word_of(TicketFields::free(), D::bits());
    }
    !v.same(D::zero())
}

/// The number that a task holds which has drawn it from the word `v`.
pub fn drawn_number<D: StateWord>(v: D) -> (r: D)
    requires
        move_enabled(TicketMove::GetTicket, ticket_view(v), half_max(D::bits())),
    ensures
        r.val() == ticket_view(v).ticket + 1,
        1 <= r.val() <= half_max(D::bits()),
        r.val() == move_next(
            TicketMove::GetTicket,
            ticket_view(v),
            half_max(D::bits()),
        ).ticket,
    opens_invariants none
{
    let (_, t) = split_service_and_ticket(v);
    succ_(t)
}

/// The number of a task whose exchange ended like this.
pub fn number_of<D: StateWord>(t: &Trial<D, TicketStep<D>>) -> (r: Option<D>)
    requires
        cell::trial_holds(*t, t.guess(), TicketStep::GetTicket),
    ensures
        r is Some <==> t.end() is Succ,
        r matches Some(n) ==> {
            &&& move_enabled(TicketMove::GetTicket, ticket_view(t.seen()), half_max(D::bits()))
            &&& n.val() == ticket_view(t.seen()).ticket + 1
            &&& 1 <= n.val() <= half_max(D::bits())
        },
    opens_invariants none
{
    match t.outcome() {
        TrialEnd::Succ => {
            assert(TicketStep::<D>::GetTicket.enabled(t.seen().val()));
            Some(drawn_number(t.word()))
        },
        _ => None,
    }
}

impl<C: WordCell> MutexState<C> {
    /// The cell that holds the state word.
    pub closed spec fn cell(self) -> C {
        self.state_
    }

    /// The state of a lock whose word is in `cell`. The lock is free where the
    /// word is zero.
    pub fn new(cell: C) -> (r: Self)
        ensures
            r.cell() == cell,
        opens_invariants none
    {
        MutexState { state_: cell }
    }

    /// A reference to the cell that holds the state word.
    pub fn as_cell(&self) -> (r: &C)
        ensures
            *r == self.cell(),
        opens_invariants none
    {
        &self.state_
    }

    /// Whether the word that was loaded is that of an acquired lock.
    pub fn is_acquired(&self) -> (r: bool)
        ensures
            exists|l: Loaded<C::Word>| #[trigger]
                l.source() == self.cell().source() && r == (ticket_view(l.seen())
                    != TicketFields::free()),
        opens_invariants none
    {
        let l = self.state_.value();
        word_is_acquired(l.word())
    }

    /// The exchange by which the lock is given back that is held with the number
    /// `ticket`.
    pub fn release_(&self, ticket: C::Word) -> (r: Attempt<C::Word, TicketStep<C::Word>>)
        ensures
            cell::attempt_on(r, self.cell().source(), TicketStep::Release(ticket)),
        opens_invariants [ move_name(TicketMove::Release(ticket.val())) ]
    {
        self.state_.try_spin(TicketStep::Release(ticket))
    }

    /// Gives back the lock that is held with the number `ticket`. The word that
    /// decided comes back: `Ok` where it was exchanged.
    pub fn try_release(&self, ticket: C::Word) -> (r: Result<C::Word, C::Word>)
        ensures
            released(self.cell().source(), ticket, r),
        opens_invariants [ move_name(TicketMove::Release(ticket.val())) ]
    {
        let a = self.release_(ticket);
        a.into_result()
    }

    /// One exchange that draws a number, from the word `guess`.
    pub fn draw_(&self, guess: C::Word) -> (r: Trial<C::Word, TicketStep<C::Word>>)
        ensures
            cell::trial_on(r, self.cell().source(), guess, TicketStep::GetTicket),
        opens_invariants [ move_name(TicketMove::GetTicket) ]
    {
        self.state_.try_once(guess, TicketStep::GetTicket)
    }

    /// Draws a number, from the word `guess` on, in at most `turns` turns. The
    /// token is asked after every turn that draws none.
    pub fn spin_get_ticket<K: TrCancellationToken>(
        &self,
        cancel: &K,
        guess: C::Word,
        turns: usize,
    ) -> (r: Result<C::Word, NoTicket<C::Word>>)
        ensures
            drew(self.cell().source(), guess, cancel.verdict(), turns, r),
            r matches Ok(n) ==> 1 <= n.val() <= half_max(C::Word::bits()),
        opens_invariants [ cell::name_if(turns > 0, move_name(TicketMove::GetTicket)) ]
    {
        let ghost source = self.cell().source();
        let ghost mut ts: Seq<Trial<C::Word, TicketStep<C::Word>>> = Seq::empty();
        let mut v = guess;
        let mut left: usize = turns;
        while left > 0
            invariant
                left <= turns,
                source == self.cell().source(),
                ts.len() == turns - left,
                drew_none(source, guess, ts),
                v == guess_at(guess, ts, ts.len() as int),
                left < turns ==> cancel.verdict() != Some(true),
            decreases left,
        {
            left = left - 1;
            let trial = self.draw_(v);
            match number_of(&trial) {
                Some(n) => {
                    assert(draws(source, v, n));
                    return Ok(n);
                },
                None => {
                    v = trial.word();
                },
            }
            proof {
                let before = ts;
                ts = ts.push(trial);
                assert forall|i: int| 0 <= i < ts.len() implies cell::trial_on(
                    #[trigger] ts[i],
                    source,
                    guess_at(guess, ts, i),
                    TicketStep::GetTicket,
                ) && !(ts[i].end() is Succ) by {
                    assert(guess_at(guess, ts, i) == guess_at(guess, before, i));
                    if i < before.len() {
                        assert(ts[i] == before[i]);
                    }
                }
                assert(drew_none(source, guess, ts));
            }
            if cancel.is_cancelled() {
                return Err(NoTicket::Cancelled);
            }
        }
        Err(NoTicket::Pending(v))
    }
}

/// Whether `r` can come of giving back the lock that is held with the number
/// `ticket`: the word that decided the exchange, `Ok` where it was swapped.
pub open spec fn released<D: StateWord>(source: Source, ticket: D, r: Result<D, D>) -> bool {
    exists|a: Attempt<D, TicketStep<D>>| #[trigger]
        cell::attempt_on(a, source, TicketStep::Release(ticket)) && r == (if a.swapped() {
            Ok::<D, D>(a.seen())
        } else {
            Err::<D, D>(a.seen())
        })
}

/// The word that the next number is drawn from, after the first `i` trials.
pub open spec fn guess_at<D: StateWord>(
    guess: D,
    ts: Seq<Trial<D, TicketStep<D>>>,
    i: int,
) -> D {
    if i <= 0 {
        guess
    } else {
        ts[i - 1].seen()
    }
}

/// Whether these are trials, one after the other and the first from the word
/// `guess`, that drew no number.
pub open spec fn drew_none<D: StateWord>(
    source: Source,
    guess: D,
    ts: Seq<Trial<D, TicketStep<D>>>,
) -> bool {
    forall|i: int|
        0 <= i < ts.len() ==> cell::trial_on(
            #[trigger] ts[i],
            source,
            guess_at(guess, ts, i),
            TicketStep::GetTicket,
        ) && !(ts[i].end() is Succ)
}

/// Whether an exchange from the word `guess` drew the number `n`.
pub open spec fn draws<D: StateWord>(source: Source, guess: D, n: D) -> bool {
    exists|t: Trial<D, TicketStep<D>>| #[trigger]
        cell::trial_on(t, source, guess, TicketStep::GetTicket) && t.end() is Succ && n.val()
            == ticket_view(t.seen()).ticket + 1
}

/// Whether a task that was to draw a number, from the word `guess` on and in at
/// most `turns` turns, can come to `r`. It asks its token, which has the given
/// verdict, after every trial that drew none, and only then.
pub open spec fn drew<D: StateWord>(
    source: Source,
    guess: D,
    verdict: Option<bool>,
    turns: usize,
    r: Result<D, NoTicket<D>>,
) -> bool {
    exists|ts: Seq<Trial<D, TicketStep<D>>>| #[trigger]
        drew_none(source, guess, ts) && match r {
            Ok(n) => {
                &&& ts.len() < turns
                &&& ts.len() > 0 ==> verdict != Some(true)
                &&& draws(source, guess_at(guess, ts, ts.len() as int), n)
            },
            Err(NoTicket::Cancelled) => {
                &&& 0 < ts.len() <= turns
                &&& verdict != Some(false)
                &&& ts.len() > 1 ==> verdict != Some(true)
            },
            Err(NoTicket::Pending(v)) => {
                &&& ts.len() == turns
                &&& v == guess_at(guess, ts, ts.len() as int)
                &&& turns > 0 ==> verdict != Some(true)
            },
        }
}

} // verus!
