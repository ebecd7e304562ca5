//! Cutting a number into flag bits on top and number fields below.

use vstd::arithmetic::div_mod::*;
use vstd::arithmetic::mul::*;
use vstd::arithmetic::power2::*;
use vstd::prelude::*;

use crate::word;

verus! {

/// The bits of `v` from bit `k` upwards are those of the quotient by
/// `pow2(k)`.
pub proof fn lemma_top_bits(v: nat, k: nat)
    ensures
        pow2(k) > 0,
        pow2(k + 1) == 2 * pow2(k),
        pow2(k + 2) == 4 * pow2(k),
        pow2(k + 3) == 8 * pow2(k),
        pow2(k + 4) == 16 * pow2(k),
        v == (v / pow2(k)) * pow2(k) + v % pow2(k),
        v % pow2(k) < pow2(k),
        word::bit_at(v, k) <==> (v / pow2(k)) % 2 == 1,
        word::bit_at(v, k + 1) <==> ((v / pow2(k)) / 2) % 2 == 1,
        word::bit_at(v, k + 2) <==> ((v / pow2(k)) / 4) % 2 == 1,
        word::bit_at(v, k + 3) <==> ((v / pow2(k)) / 8) % 2 == 1,
{
    lemma2_to64();
    lemma_pow2_pos(k);
    lemma_pow2_adds(k, 1);
    lemma_pow2_adds(k, 2);
    lemma_pow2_adds(k, 3);
    lemma_pow2_adds(k, 4);
    lemma_mul_is_commutative(pow2(k) as int, 2);
    lemma_mul_is_commutative(pow2(k) as int, 4);
    lemma_mul_is_commutative(pow2(k) as int, 8);
    lemma_mul_is_commutative(pow2(k) as int, 16);
    lemma_fundamental_div_mod(v as int, pow2(k) as int);
    lemma_mul_is_commutative((v / pow2(k)) as int, pow2(k) as int);
    lemma_div_denominator(v as int, pow2(k) as int, 2);
    lemma_div_denominator(v as int, pow2(k) as int, 4);
    lemma_div_denominator(v as int, pow2(k) as int, 8);
}

/// A number below `pow2(k + j)` has a quotient below `pow2(j)`.
pub proof fn lemma_top_bound(v: nat, k: nat, j: nat)
    requires
        v < pow2(k + j),
    ensures
        v / pow2(k) < pow2(j),
{
    lemma_pow2_pos(k);
    lemma_pow2_adds(k, j);
    lemma_mul_is_commutative(pow2(k) as int, pow2(j) as int);
    lemma_multiply_divide_lt(v as int, pow2(k) as int, pow2(j) as int);
}

/// A number with a quotient below `n` is below `n` times the divisor.
pub proof fn lemma_below(v: nat, m: nat, n: nat)
    requires
        m > 0,
        v / m < n,
    ensures
        v < n * m,
{
    lemma_fundamental_div_mod(v as int, m as int);
    lemma_mul_is_commutative((v / m) as int, m as int);
    lemma_mul_inequality((v / m) as int, n - 1, m as int);
    lemma_mul_is_distributive_sub_other_way(m as int, n as int, 1);
}

/// A number is found again from its quotient and its remainder.
pub proof fn lemma_rejoin(f: nat, c: nat, m: nat)
    requires
        c < m,
    ensures
        (f * m + c) / m == f,
        (f * m + c) % m == c,
{
    lemma_fundamental_div_mod_converse((f * m + c) as int, m as int, f as int, c as int);
}

/// What a change of both parts that carries nothing over does to them.
pub proof fn lemma_change(v: nat, m: nat, df: int, dc: int)
    requires
        m > 0,
        0 <= v / m + df,
        0 <= v % m + dc < m,
    ensures
        0 <= v + df * m + dc,
        (v + df * m + dc) as nat / m == v / m + df,
        (v + df * m + dc) as nat % m == v % m + dc,
{
    let f = (v / m + df) as nat;
    let c = (v % m + dc) as nat;
    lemma_fundamental_div_mod(v as int, m as int);
    lemma_mul_is_commutative((v / m) as int, m as int);
    lemma_mul_is_distributive_add_other_way(m as int, (v / m) as int, df);
    assert(v + df * m + dc == f * m + c);
    lemma_mul_nonnegative(f as int, m as int);
    lemma_rejoin(f, c, m);
}

/// The number that the flag `j` places above bit `k` counts for in the
/// quotient by `pow2(k)`.
pub open spec fn flag_weight(j: nat) -> nat {
    if j == 0 {
        1
    } else if j == 1 {
        2
    } else if j == 2 {
        4
    } else {
        8
    }
}

/// Setting or clearing one of the four flags from bit `k` upwards changes the
/// quotient by that flag alone, and leaves the remainder.
pub proof fn lemma_flag(v: nat, k: nat, j: nat)
    requires
        j < 4,
    ensures
        ({
            let m = pow2(k);
            let on = word::with_bit_at(v, k + j);
            let off = word::without_bit_at(v, k + j);
            let set = word::bit_at(v, k + j);
            &&& set <==> ((v / m) / flag_weight(j)) % 2 == 1
            &&& on % m == v % m
            &&& off % m == v % m
            &&& on / m == v / m + (if set {
                0
            } else {
                flag_weight(j)
            })
            &&& off / m == v / m - (if set {
                flag_weight(j)
            } else {
                0
            })
        }),
{
    lemma_top_bits(v, k);
    let set = word::bit_at(v, k + j);
    if j == 0 {
        assert(k + j == k);
        lemma_change(v, pow2(k), if set { -1 } else { 1 }, 0);
    } else if j == 1 {
        lemma_change(v, pow2(k), if set { -2 } else { 2 }, 0);
    } else if j == 2 {
        lemma_change(v, pow2(k), if set { -4 } else { 4 }, 0);
    } else {
        lemma_change(v, pow2(k), if set { -8 } else { 8 }, 0);
    }
}

/// Two number fields of `h` bits each below the flag bits.
pub proof fn lemma_two_fields(v: nat, h: nat)
    ensures
        pow2(h) > 0,
        pow2(h + h) == pow2(h) * pow2(h),
        v % pow2(h) < pow2(h),
        (v / pow2(h)) % pow2(h) < pow2(h),
        v == (v / pow2(h + h)) * pow2(h + h) + ((v / pow2(h)) % pow2(h)) * pow2(h) + v % pow2(h),
{
    let p = pow2(h) as int;
    lemma_pow2_pos(h);
    lemma_pow2_adds(h, h);
    lemma_fundamental_div_mod(v as int, p);
    lemma_fundamental_div_mod(v as int / p, p);
    lemma_div_denominator(v as int, p, p);
    let f = (v as int / p) / p;
    let s = (v as int / p) % p;
    assert(v as int == f * (p * p) + s * p + v as int % p) by (nonlinear_arith)
        requires
            v as int == p * (v as int / p) + v as int % p,
            v as int / p == p * f + s,
    ;
}

/// Two number fields and the flags above them are found again.
pub proof fn lemma_two_fields_join(f: nat, s: nat, t: nat, h: nat)
    requires
        s < pow2(h),
        t < pow2(h),
    ensures
        (f * pow2(h + h) + s * pow2(h) + t) % pow2(h) == t,
        ((f * pow2(h + h) + s * pow2(h) + t) / pow2(h)) % pow2(h) == s,
        (f * pow2(h + h) + s * pow2(h) + t) / pow2(h + h) == f,
        s * pow2(h) + t < pow2(h + h),
{
    let p = pow2(h);
    let v = f * pow2(h + h) + s * p + t;
    lemma_pow2_pos(h);
    lemma_pow2_adds(h, h);
    assert(v == (f * p + s) * p + t) by (nonlinear_arith)
        requires
            v == f * (p * p) + s * p + t,
    ;
    lemma_rejoin(f * p + s, t, p);
    lemma_rejoin(f, s, p);
    lemma_div_denominator(v as int, p as int, p as int);
    assert(s * p + t < p * p) by (nonlinear_arith)
        requires
            s < p,
            t < p,
    ;
}

} // verus!
