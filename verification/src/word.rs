//! Unsigned machine words seen as numbers.
//!
//! Every lock of this library keeps its whole state in one unsigned word. The
//! word is cut into single-bit flags and a few number fields, and a contract
//! speaks of the number that the word stands for. [`StateWord`] names the
//! handful of bit operations that the locks need and states each of them on
//! that number.

use vstd::prelude::*;
use vstd::arithmetic::power2::*;
use vstd::bits::*;

verus! {

/// Whether bit `k` of the number `v` is set.
pub open spec fn bit_at(v: nat, k: nat) -> bool {
    (v / pow2(k)) % 2 == 1
}

/// The number `v` with bit `k` set.
pub open spec fn with_bit_at(v: nat, k: nat) -> nat {
    if bit_at(v, k) {
        v
    } else {
        v + pow2(k)
    }
}

/// The number `v` with bit `k` cleared.
pub open spec fn without_bit_at(v: nat, k: nat) -> nat {
    if bit_at(v, k) {
        (v - pow2(k)) as nat
    } else {
        v
    }
}

/// An unsigned word that can hold the state of a lock.
pub trait StateWord: Copy {
    /// The width of the word.
    spec fn bits() -> nat;

    /// The number that the word stands for.
    spec fn val(self) -> nat;

    /// The word that stands for the number `v`.
    spec fn of(v: nat) -> Self;

    /// A word is an even number of bits wide, at least eight of them.
    proof fn lemma_width()
        ensures
            8 <= Self::bits() <= 64,
            Self::bits() % 2 == 0,
    ;

    /// A word stands for a number that fits, and for no number stand two.
    proof fn lemma_word(self)
        ensures
            self.val() < pow2(Self::bits()),
            Self::of(self.val()) == self,
    ;

    /// Every number that fits is the number of a word.
    proof fn lemma_of(v: nat)
        requires
            v < pow2(Self::bits()),
        ensures
            Self::of(v).val() == v,
    ;

    fn width() -> (r: u32)
        ensures
            r == Self::bits(),
            8 <= r <= 64,
            r % 2 == 0,
        opens_invariants none
    ;

    fn zero() -> (r: Self)
        ensures
            r.val() == 0,
        opens_invariants none
    ;

    /// The word with bit `k` set and no other.
    fn single(k: u32) -> (r: Self)
        requires
            k < Self::bits(),
        ensures
            r.val() == pow2(k as nat),
        opens_invariants none
    ;

    fn bit(self, k: u32) -> (r: bool)
        requires
            k < Self::bits(),
        ensures
            r == bit_at(self.val(), k as nat),
        opens_invariants none
    ;

    fn with_bit(self, k: u32) -> (r: Self)
        requires
            k < Self::bits(),
        ensures
            r.val() == with_bit_at(self.val(), k as nat),
        opens_invariants none
    ;

    fn without_bit(self, k: u32) -> (r: Self)
        requires
            k < Self::bits(),
        ensures
            r.val() == without_bit_at(self.val(), k as nat),
        opens_invariants none
    ;

    /// The lowest `k` bits of the word.
    fn low(self, k: u32) -> (r: Self)
        requires
            k < Self::bits(),
        ensures
            r.val() == self.val() % pow2(k as nat),
        opens_invariants none
    ;

    /// The word without its lowest `k` bits, moved down.
    fn shr(self, k: u32) -> (r: Self)
        requires
            k < Self::bits(),
        ensures
            r.val() == self.val() / pow2(k as nat),
        opens_invariants none
    ;

    /// The word moved up by `k` bits, which must all be free.
    fn shl(self, k: u32) -> (r: Self)
        requires
            k < Self::bits(),
            self.val() * pow2(k as nat) < pow2(Self::bits()),
        ensures
            r.val() == self.val() * pow2(k as nat),
        opens_invariants none
    ;

    fn plus(self, other: Self) -> (r: Self)
        requires
            self.val() + other.val() < pow2(Self::bits()),
        ensures
            r.val() == self.val() + other.val(),
        opens_invariants none
    ;

    fn minus(self, other: Self) -> (r: Self)
        requires
            other.val() <= self.val(),
        ensures
            r.val() == self.val() - other.val(),
        opens_invariants none
    ;

    /// One less, from zero around to the largest word.
    fn wrapping_dec(self) -> (r: Self)
        ensures
            r.val() == if self.val() == 0 {
                (pow2(Self::bits()) - 1) as nat
            } else {
                (self.val() - 1) as nat
            },
        opens_invariants none
    ;

    fn same(self, other: Self) -> (r: bool)
        ensures
            r == (self.val() == other.val()),
            r == (self == other),
        opens_invariants none
    ;

    fn less(self, other: Self) -> (r: bool)
        ensures
            r == (self.val() < other.val()),
        opens_invariants none
    ;

    /// The number as a `usize`, where it fits.
    fn to_usize(self) -> (r: Option<usize>)
        ensures
            r is Some <==> self.val() <= usize::MAX,
            r matches Some(n) ==> n == self.val(),
        opens_invariants none
    ;
}

/// What the bit operations on a `u8` come to.
proof fn lemma_u8_bits(v: u8, k: u8)
    by (bit_vector)
    requires
        k < 8,
    ensures
        (v & (1u8 << k) == (1u8 << k)) <==> (v >> k) % 2 == 1,
        (v >> k) % 2 == 1 ==> v | (1u8 << k) == v,
        (v >> k) % 2 == 1 ==> (1u8 << k) <= v && v & !(1u8 << k) == v - (1u8 << k),
        (v >> k) % 2 != 1 ==> v | (1u8 << k) == v + (1u8 << k),
        (v >> k) % 2 != 1 ==> v & !(1u8 << k) == v,
{
}

/// The same on the numbers that the words stand for.
proof fn lemma_u8_flags(v: u8, k: u8)
    requires
        k < 8,
    ensures
        (1u8 << k) == pow2(k as nat),
        (v & (1u8 << k) == (1u8 << k)) <==> bit_at(v as nat, k as nat),
        v | (1u8 << k) == with_bit_at(v as nat, k as nat),
        v & !(1u8 << k) == without_bit_at(v as nat, k as nat),
{
    lemma_u8_bits(v, k);
    lemma_u8_shr_is_div(v, k);
    lemma_u8_pow2_no_overflow(k as nat);
    lemma_u8_shl_is_mul(1, k);
}

impl StateWord for u8 {
    open spec fn bits() -> nat {
        8
    }

    open spec fn val(self) -> nat {
        self as nat
    }

    open spec fn of(v: nat) -> Self {
        v as u8
    }

    proof fn lemma_width() {
    }

    proof fn lemma_word(self) {
        lemma_u8_top();
    }

    proof fn lemma_of(v: nat) {
        lemma_u8_top();
    }

    fn width() -> (r: u32) {
        u8::BITS
    }

    fn zero() -> (r: Self) {
        0
    }

    fn single(k: u32) -> (r: Self) {
        proof {
            lemma_u8_flags(0, k as u8);
        }
        1u8 << (k as u8)
    }

    fn bit(self, k: u32) -> (r: bool) {
        proof {
            lemma_u8_flags(self, k as u8);
        }
        let f: u8 = 1u8 << (k as u8);
        self & f == f
    }

    fn with_bit(self, k: u32) -> (r: Self) {
        proof {
            lemma_u8_flags(self, k as u8);
        }
        self | (1u8 << (k as u8))
    }

    fn without_bit(self, k: u32) -> (r: Self) {
        proof {
            lemma_u8_flags(self, k as u8);
        }
        self & !(1u8 << (k as u8))
    }

    fn low(self, k: u32) -> (r: Self) {
        proof {
            lemma_u8_flags(0, k as u8);
            lemma_u8_low_bits_mask_is_mod(self, k as nat);
            lemma_low_bits_mask_values();
            lemma_pow2_pos(k as nat);
        }
        self & ((1u8 << (k as u8)) - 1)
    }

    fn shr(self, k: u32) -> (r: Self) {
        proof {
            lemma_u8_shr_is_div(self, k as u8);
        }
        self >> (k as u8)
    }

    fn shl(self, k: u32) -> (r: Self) {
        proof {
            lemma_u8_top();
            lemma_u8_shl_is_mul(self, k as u8);
        }
        self << (k as u8)
    }

    fn plus(self, other: Self) -> (r: Self) {
        proof {
            lemma_u8_top();
        }
        self + other
    }

    fn minus(self, other: Self) -> (r: Self) {
        self - other
    }

    fn wrapping_dec(self) -> (r: Self) {
        proof {
            lemma_u8_top();
        }
        if self == 0 {
            u8::MAX
        } else {
            self - 1
        }
    }

    fn same(self, other: Self) -> (r: bool) {
        self == other
    }

    fn less(self, other: Self) -> (r: bool) {
        self < other
    }

    fn to_usize(self) -> (r: Option<usize>) {
        Some(self as usize)
    }
}

/// How many numbers a `u8` can stand for.
proof fn lemma_u8_top()
    ensures
        pow2(8) == u8::MAX + 1,
{
    lemma2_to64();
}

/// What the bit operations on a `u16` come to.
proof fn lemma_u16_bits(v: u16, k: u16)
    by (bit_vector)
    requires
        k < 16,
    ensures
        (v & (1u16 << k) == (1u16 << k)) <==> (v >> k) % 2 == 1,
        (v >> k) % 2 == 1 ==> v | (1u16 << k) == v,
        (v >> k) % 2 == 1 ==> (1u16 << k) <= v && v & !(1u16 << k) == v - (1u16 << k),
        (v >> k) % 2 != 1 ==> v | (1u16 << k) == v + (1u16 << k),
        (v >> k) % 2 != 1 ==> v & !(1u16 << k) == v,
{
}

/// The same on the numbers that the words stand for.
proof fn lemma_u16_flags(v: u16, k: u16)
    requires
        k < 16,
    ensures
        (1u16 << k) == pow2(k as nat),
        (v & (1u16 << k) == (1u16 << k)) <==> bit_at(v as nat, k as nat),
        v | (1u16 << k) == with_bit_at(v as nat, k as nat),
        v & !(1u16 << k) == without_bit_at(v as nat, k as nat),
{
    lemma_u16_bits(v, k);
    lemma_u16_shr_is_div(v, k);
    lemma_u16_pow2_no_overflow(k as nat);
    lemma_u16_shl_is_mul(1, k);
}

impl StateWord for u16 {
    open spec fn bits() -> nat {
        16
    }

    open spec fn val(self) -> nat {
        self as nat
    }

    open spec fn of(v: nat) -> Self {
        v as u16
    }

    proof fn lemma_width() {
    }

    proof fn lemma_word(self) {
        lemma_u16_top();
    }

    proof fn lemma_of(v: nat) {
        lemma_u16_top();
    }

    fn width() -> (r: u32) {
        u16::BITS
    }

    fn zero() -> (r: Self) {
        0
    }

    fn single(k: u32) -> (r: Self) {
        proof {
            lemma_u16_flags(0, k as u16);
        }
        1u16 << (k as u16)
    }

    fn bit(self, k: u32) -> (r: bool) {
        proof {
            lemma_u16_flags(self, k as u16);
        }
        let f: u16 = 1u16 << (k as u16);
        self & f == f
    }

    fn with_bit(self, k: u32) -> (r: Self) {
        proof {
            lemma_u16_flags(self, k as u16);
        }
        self | (1u16 << (k as u16))
    }

    fn without_bit(self, k: u32) -> (r: Self) {
        proof {
            lemma_u16_flags(self, k as u16);
        }
        self & !(1u16 << (k as u16))
    }

    fn low(self, k: u32) -> (r: Self) {
        proof {
            lemma_u16_flags(0, k as u16);
            lemma_u16_low_bits_mask_is_mod(self, k as nat);
            lemma_low_bits_mask_values();
            lemma_pow2_pos(k as nat);
        }
        self & ((1u16 << (k as u16)) - 1)
    }

    fn shr(self, k: u32) -> (r: Self) {
        proof {
            lemma_u16_shr_is_div(self, k as u16);
        }
        self >> (k as u16)
    }

    fn shl(self, k: u32) -> (r: Self) {
        proof {
            lemma_u16_top();
            lemma_u16_shl_is_mul(self, k as u16);
        }
        self << (k as u16)
    }

    fn plus(self, other: Self) -> (r: Self) {
        proof {
            lemma_u16_top();
        }
        self + other
    }

    fn minus(self, other: Self) -> (r: Self) {
        self - other
    }

    fn wrapping_dec(self) -> (r: Self) {
        proof {
            lemma_u16_top();
        }
        if self == 0 {
            u16::MAX
        } else {
            self - 1
        }
    }

    fn same(self, other: Self) -> (r: bool) {
        self == other
    }

    fn less(self, other: Self) -> (r: bool) {
        self < other
    }

    fn to_usize(self) -> (r: Option<usize>) {
        Some(self as usize)
    }
}

/// How many numbers a `u16` can stand for.
proof fn lemma_u16_top()
    ensures
        pow2(16) == u16::MAX + 1,
{
    lemma2_to64();
}

/// What the bit operations on a `u32` come to.
proof fn lemma_u32_bits(v: u32, k: u32)
    by (bit_vector)
    requires
        k < 32,
    ensures
        (v & (1u32 << k) == (1u32 << k)) <==> (v >> k) % 2 == 1,
        (v >> k) % 2 == 1 ==> v | (1u32 << k) == v,
        (v >> k) % 2 == 1 ==> (1u32 << k) <= v && v & !(1u32 << k) == v - (1u32 << k),
        (v >> k) % 2 != 1 ==> v | (1u32 << k) == v + (1u32 << k),
        (v >> k) % 2 != 1 ==> v & !(1u32 << k) == v,
{
}

/// The same on the numbers that the words stand for.
proof fn lemma_u32_flags(v: u32, k: u32)
    requires
        k < 32,
    ensures
        (1u32 << k) == pow2(k as nat),
        (v & (1u32 << k) == (1u32 << k)) <==> bit_at(v as nat, k as nat),
        v | (1u32 << k) == with_bit_at(v as nat, k as nat),
        v & !(1u32 << k) == without_bit_at(v as nat, k as nat),
{
    lemma_u32_bits(v, k);
    lemma_u32_shr_is_div(v, k);
    lemma_u32_pow2_no_overflow(k as nat);
    lemma_u32_shl_is_mul(1, k);
}

impl StateWord for u32 {
    open spec fn bits() -> nat {
        32
    }

    open spec fn val(self) -> nat {
        self as nat
    }

    open spec fn of(v: nat) -> Self {
        v as u32
    }

    proof fn lemma_width() {
    }

    proof fn lemma_word(self) {
        lemma_u32_top();
    }

    proof fn lemma_of(v: nat) {
        lemma_u32_top();
    }

    fn width() -> (r: u32) {
        u32::BITS
    }

    fn zero() -> (r: Self) {
        0
    }

    fn single(k: u32) -> (r: Self) {
        proof {
            lemma_u32_flags(0, k as u32);
        }
        1u32 << (k as u32)
    }

    fn bit(self, k: u32) -> (r: bool) {
        proof {
            lemma_u32_flags(self, k as u32);
        }
        let f: u32 = 1u32 << (k as u32);
        self & f == f
    }

    fn with_bit(self, k: u32) -> (r: Self) {
        proof {
            lemma_u32_flags(self, k as u32);
        }
        self | (1u32 << (k as u32))
    }

    fn without_bit(self, k: u32) -> (r: Self) {
        proof {
            lemma_u32_flags(self, k as u32);
        }
        self & !(1u32 << (k as u32))
    }

    fn low(self, k: u32) -> (r: Self) {
        proof {
            lemma_u32_flags(0, k as u32);
            lemma_u32_low_bits_mask_is_mod(self, k as nat);
            lemma_low_bits_mask_values();
            lemma_pow2_pos(k as nat);
        }
        self & ((1u32 << (k as u32)) - 1)
    }

    fn shr(self, k: u32) -> (r: Self) {
        proof {
            lemma_u32_shr_is_div(self, k as u32);
        }
        self >> (k as u32)
    }

    fn shl(self, k: u32) -> (r: Self) {
        proof {
            lemma_u32_top();
            lemma_u32_shl_is_mul(self, k as u32);
        }
        self << (k as u32)
    }

    fn plus(self, other: Self) -> (r: Self) {
        proof {
            lemma_u32_top();
        }
        self + other
    }

    fn minus(self, other: Self) -> (r: Self) {
        self - other
    }

    fn wrapping_dec(self) -> (r: Self) {
        proof {
            lemma_u32_top();
        }
        if self == 0 {
            u32::MAX
        } else {
            self - 1
        }
    }

    fn same(self, other: Self) -> (r: bool) {
        self == other
    }

    fn less(self, other: Self) -> (r: bool) {
        self < other
    }

    fn to_usize(self) -> (r: Option<usize>) {
        Some(self as usize)
    }
}

/// How many numbers a `u32` can stand for.
proof fn lemma_u32_top()
    ensures
        pow2(32) == u32::MAX + 1,
{
    lemma2_to64();
}

/// What the bit operations on a `u64` come to.
proof fn lemma_u64_bits(v: u64, k: u64)
    by (bit_vector)
    requires
        k < 64,
    ensures
        (v & (1u64 << k) == (1u64 << k)) <==> (v >> k) % 2 == 1,
        (v >> k) % 2 == 1 ==> v | (1u64 << k) == v,
        (v >> k) % 2 == 1 ==> (1u64 << k) <= v && v & !(1u64 << k) == v - (1u64 << k),
        (v >> k) % 2 != 1 ==> v | (1u64 << k) == v + (1u64 << k),
        (v >> k) % 2 != 1 ==> v & !(1u64 << k) == v,
{
}

/// The same on the numbers that the words stand for.
proof fn lemma_u64_flags(v: u64, k: u64)
    requires
        k < 64,
    ensures
        (1u64 << k) == pow2(k as nat),
        (v & (1u64 << k) == (1u64 << k)) <==> bit_at(v as nat, k as nat),
        v | (1u64 << k) == with_bit_at(v as nat, k as nat),
        v & !(1u64 << k) == without_bit_at(v as nat, k as nat),
{
    lemma_u64_bits(v, k);
    lemma_u64_shr_is_div(v, k);
    lemma_u64_pow2_no_overflow(k as nat);
    lemma_u64_shl_is_mul(1, k);
}

impl StateWord for u64 {
    open spec fn bits() -> nat {
        64
    }

    open spec fn val(self) -> nat {
        self as nat
    }

    open spec fn of(v: nat) -> Self {
        v as u64
    }

    proof fn lemma_width() {
    }

    proof fn lemma_word(self) {
        lemma_u64_top();
    }

    proof fn lemma_of(v: nat) {
        lemma_u64_top();
    }

    fn width() -> (r: u32) {
        u64::BITS
    }

    fn zero() -> (r: Self) {
        0
    }

    fn single(k: u32) -> (r: Self) {
        proof {
            lemma_u64_flags(0, k as u64);
        }
        1u64 << (k as u64)
    }

    fn bit(self, k: u32) -> (r: bool) {
        proof {
            lemma_u64_flags(self, k as u64);
        }
        let f: u64 = 1u64 << (k as u64);
        self & f == f
    }

    fn with_bit(self, k: u32) -> (r: Self) {
        proof {
            lemma_u64_flags(self, k as u64);
        }
        self | (1u64 << (k as u64))
    }

    fn without_bit(self, k: u32) -> (r: Self) {
        proof {
            lemma_u64_flags(self, k as u64);
        }
        self & !(1u64 << (k as u64))
    }

    fn low(self, k: u32) -> (r: Self) {
        proof {
            lemma_u64_flags(0, k as u64);
            lemma_u64_low_bits_mask_is_mod(self, k as nat);
            lemma_low_bits_mask_values();
            lemma_pow2_pos(k as nat);
        }
        self & ((1u64 << (k as u64)) - 1)
    }

    fn shr(self, k: u32) -> (r: Self) {
        proof {
            lemma_u64_shr_is_div(self, k as u64);
        }
        self >> (k as u64)
    }

    fn shl(self, k: u32) -> (r: Self) {
        proof {
            lemma_u64_top();
            lemma_u64_shl_is_mul(self, k as u64);
        }
        self << (k as u64)
    }

    fn plus(self, other: Self) -> (r: Self) {
        proof {
            lemma_u64_top();
        }
        self + other
    }

    fn minus(self, other: Self) -> (r: Self) {
        self - other
    }

    fn wrapping_dec(self) -> (r: Self) {
        proof {
            lemma_u64_top();
        }
        if self == 0 {
            u64::MAX
        } else {
            self - 1
        }
    }

    fn same(self, other: Self) -> (r: bool) {
        self == other
    }

    fn less(self, other: Self) -> (r: bool) {
        self < other
    }

    fn to_usize(self) -> (r: Option<usize>) {
        if self <= usize::MAX as u64 {
            Some(self as usize)
        } else {
            None
        }
    }
}

/// How many numbers a `u64` can stand for.
proof fn lemma_u64_top()
    ensures
        pow2(64) == u64::MAX + 1,
{
    lemma2_to64();lemma2_to64_rest();
}

/// What the bit operations on a `usize` come to.
proof fn lemma_usize_bits(v: usize, k: usize)
    by (bit_vector)
    requires
        k < usize::BITS,
    ensures
        (v & (1usize << k) == (1usize << k)) <==> (v >> k) % 2 == 1,
        (v >> k) % 2 == 1 ==> v | (1usize << k) == v,
        (v >> k) % 2 == 1 ==> (1usize << k) <= v && v & !(1usize << k) == v - (1usize << k),
        (v >> k) % 2 != 1 ==> v | (1usize << k) == v + (1usize << k),
        (v >> k) % 2 != 1 ==> v & !(1usize << k) == v,
{
}

/// The same on the numbers that the words stand for.
proof fn lemma_usize_flags(v: usize, k: usize)
    requires
        k < usize::BITS,
    ensures
        (1usize << k) == pow2(k as nat),
        (v & (1usize << k) == (1usize << k)) <==> bit_at(v as nat, k as nat),
        v | (1usize << k) == with_bit_at(v as nat, k as nat),
        v & !(1usize << k) == without_bit_at(v as nat, k as nat),
{
    lemma_usize_bits(v, k);
    lemma_usize_shr_is_div(v, k);
    lemma_usize_pow2_no_overflow(k as nat);
    lemma_usize_shl_is_mul(1, k);
}

impl StateWord for usize {
    open spec fn bits() -> nat {
        usize::BITS as nat
    }

    open spec fn val(self) -> nat {
        self as nat
    }

    open spec fn of(v: nat) -> Self {
        v as usize
    }

    proof fn lemma_width() {
    }

    proof fn lemma_word(self) {
        lemma_usize_top();
    }

    proof fn lemma_of(v: nat) {
        lemma_usize_top();
    }

    fn width() -> (r: u32) {
        usize::BITS
    }

    fn zero() -> (r: Self) {
        0
    }

    fn single(k: u32) -> (r: Self) {
        proof {
            lemma_usize_flags(0, k as usize);
        }
        1usize << (k as usize)
    }

    fn bit(self, k: u32) -> (r: bool) {
        proof {
            lemma_usize_flags(self, k as usize);
        }
        let f: usize = 1usize << (k as usize);
        self & f == f
    }

    fn with_bit(self, k: u32) -> (r: Self) {
        proof {
            lemma_usize_flags(self, k as usize);
        }
        self | (1usize << (k as usize))
    }

    fn without_bit(self, k: u32) -> (r: Self) {
        proof {
            lemma_usize_flags(self, k as usize);
        }
        self & !(1usize << (k as usize))
    }

    fn low(self, k: u32) -> (r: Self) {
        proof {
            lemma_usize_flags(0, k as usize);
            lemma_usize_low_bits_mask_is_mod(self, k as nat);
            lemma_low_bits_mask_values();
            lemma_pow2_pos(k as nat);
        }
        self & ((1usize << (k as usize)) - 1)
    }

    fn shr(self, k: u32) -> (r: Self) {
        proof {
            lemma_usize_shr_is_div(self, k as usize);
        }
        self >> (k as usize)
    }

    fn shl(self, k: u32) -> (r: Self) {
        proof {
            lemma_usize_top();
            lemma_usize_shl_is_mul(self, k as usize);
        }
        self << (k as usize)
    }

    fn plus(self, other: Self) -> (r: Self) {
        proof {
            lemma_usize_top();
        }
        self + other
    }

    fn minus(self, other: Self) -> (r: Self) {
        self - other
    }

    fn wrapping_dec(self) -> (r: Self) {
        proof {
            lemma_usize_top();
        }
        if self == 0 {
            usize::MAX
        } else {
            self - 1
        }
    }

    fn same(self, other: Self) -> (r: bool) {
        self == other
    }

    fn less(self, other: Self) -> (r: bool) {
        self < other
    }

    fn to_usize(self) -> (r: Option<usize>) {
        Some(self)
    }
}

/// How many numbers a `usize` can stand for.
proof fn lemma_usize_top()
    ensures
        pow2(usize::BITS as nat) == usize::MAX + 1,
{
    lemma_usize_pow2_no_overflow((usize::BITS - 1) as nat); vstd::layout::unsigned_int_max_values();lemma2_to64();lemma2_to64_rest();
}

} // verus!
