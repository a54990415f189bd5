//! Two's-complement wraparound and directional shifts, as integer functions.

use vstd::arithmetic::div_mod::{
    lemma_fundamental_div_mod,
    lemma_fundamental_div_mod_converse,
    lemma_mod_multiples_vanish,
};
use vstd::arithmetic::power2::{
    lemma2_to64,
    lemma2_to64_rest,
    lemma_pow2_adds,
    lemma_pow2_pos,
    lemma_pow2_strictly_increases,
    lemma_pow2_unfold,
    pow2,
};
use vstd::prelude::*;

verus! {

/// `x` reduced into the signed 32-bit range, as two's-complement wraparound does.
pub open spec fn wrap32(x: int) -> int {
    (x + 0x8000_0000) % 0x1_0000_0000 - 0x8000_0000
}

/// `x` reduced into the signed 64-bit range, as two's-complement wraparound does.
pub open spec fn wrap64(x: int) -> int {
    (x + 0x8000_0000_0000_0000) % 0x1_0000_0000_0000_0000 - 0x8000_0000_0000_0000
}

/// `x` scaled by `2^-s`: multiplied by `2^-s` when `s` is negative, else divided by `2^s`
/// and rounded toward negative infinity.
pub open spec fn shift_spec(x: int, s: int) -> int {
    if s < 0 {
        x * pow2((-s) as nat)
    } else {
        x / (pow2(s as nat) as int)
    }
}

/// Adding a multiple of `2^32` does not change the wrapped value.
pub proof fn lemma_wrap32_add_multiple(x: int, k: int)
    ensures
        wrap32(x + k * 0x1_0000_0000) == wrap32(x),
{
    lemma_mod_multiples_vanish(k, x + 0x8000_0000, 0x1_0000_0000);
    assert(x + k * 0x1_0000_0000 + 0x8000_0000 == 0x1_0000_0000 * k + (x + 0x8000_0000));
}

/// Adding a multiple of `2^64` does not change the wrapped value.
pub proof fn lemma_wrap64_add_multiple(x: int, k: int)
    ensures
        wrap64(x + k * 0x1_0000_0000_0000_0000) == wrap64(x),
{
    lemma_mod_multiples_vanish(k, x + 0x8000_0000_0000_0000, 0x1_0000_0000_0000_0000);
    assert(x + k * 0x1_0000_0000_0000_0000 + 0x8000_0000_0000_0000 == 0x1_0000_0000_0000_0000
        * k + (x + 0x8000_0000_0000_0000));
}

/// `wrap32(x)` differs from `x` by a multiple of `2^32`.
pub proof fn lemma_wrap32_offset(x: int)
    ensures
        wrap32(x) == x - 0x1_0000_0000 * ((x + 0x8000_0000) / 0x1_0000_0000),
        i32::MIN <= wrap32(x) <= i32::MAX,
{
    lemma_fundamental_div_mod(x + 0x8000_0000, 0x1_0000_0000);
}

pub proof fn lemma_wrap64_offset(x: int)
    ensures
        wrap64(x) == x - 0x1_0000_0000_0000_0000 * ((x + 0x8000_0000_0000_0000)
            / 0x1_0000_0000_0000_0000),
        i64::MIN <= wrap64(x) <= i64::MAX,
{
    lemma_fundamental_div_mod(x + 0x8000_0000_0000_0000, 0x1_0000_0000_0000_0000);
}

/// A value already in the signed 32-bit range is its own wrap.
pub proof fn lemma_wrap32_small(x: int)
    requires
        i32::MIN <= x <= i32::MAX,
    ensures
        wrap32(x) == x,
{
    lemma_fundamental_div_mod_converse(x + 0x8000_0000, 0x1_0000_0000, 0, x + 0x8000_0000);
}

/// A value already in the signed 64-bit range is its own wrap.
pub proof fn lemma_wrap64_small(x: int)
    requires
        i64::MIN <= x <= i64::MAX,
    ensures
        wrap64(x) == x,
{
    lemma_fundamental_div_mod_converse(
        x + 0x8000_0000_0000_0000,
        0x1_0000_0000_0000_0000,
        0,
        x + 0x8000_0000_0000_0000,
    );
}

/// Wrapping an operand first does not change a wrapped sum.
pub proof fn lemma_wrap32_absorb(x: int, y: int)
    ensures
        wrap32(wrap32(x) + y) == wrap32(x + y),
{
    lemma_wrap32_offset(x);
    let k = (x + 0x8000_0000) / 0x1_0000_0000;
    lemma_wrap32_add_multiple(x + y, -k);
    assert(wrap32(x) + y == x + y + (-k) * 0x1_0000_0000);
}

/// Wrapping to 64 bits first does not change a wrap to 32 bits.
pub proof fn lemma_wrap32_of_wrap64(x: int)
    ensures
        wrap32(wrap64(x)) == wrap32(x),
{
    lemma_wrap64_offset(x);
    let k = (x + 0x8000_0000_0000_0000) / 0x1_0000_0000_0000_0000;
    lemma_wrap32_add_multiple(x, -k * 0x1_0000_0000);
    assert(wrap64(x) == x + (-k * 0x1_0000_0000) * 0x1_0000_0000);
}

/// Negating a wrapped value and wrapping again is wrapping the negation.
pub proof fn lemma_wrap32_neg_neg(x: int)
    ensures
        wrap32(-wrap32(x)) == wrap32(-x),
{
    lemma_wrap32_offset(x);
    let k = (x + 0x8000_0000) / 0x1_0000_0000;
    lemma_wrap32_add_multiple(-x, k);
}

/// The low 32 bits of a 64-bit integer, read as signed.
pub proof fn lemma_i64_as_i32(x: i64)
    ensures
        (x as i32) as int == wrap32(x as int),
{
    assert((x as i32) as int == (x as int + 0x8000_0000) % 0x1_0000_0000 - 0x8000_0000)
        by (bit_vector);
}

/// A `u32` read as `i32`.
pub proof fn lemma_u32_as_i32(x: u32)
    ensures
        (x as i32) as int == wrap32(x as int),
{
    assert((x as i32) as int == (x as int + 0x8000_0000) % 0x1_0000_0000 - 0x8000_0000)
        by (bit_vector);
}

/// `wrapping_add` on `i32` is the wrapped sum.
pub proof fn lemma_wrapping_add(a: i32, b: i32)
    ensures
        a.wrapping_add(b) as int == wrap32(a + b),
{
    if a + b > i32::MAX {
        lemma_wrap32_add_multiple(a + b - 0x1_0000_0000, 1);
        lemma_wrap32_small(a + b - 0x1_0000_0000);
    } else if a + b < i32::MIN {
        lemma_wrap32_add_multiple(a + b + 0x1_0000_0000, -1);
        lemma_wrap32_small(a + b + 0x1_0000_0000);
    } else {
        lemma_wrap32_small(a + b);
    }
}

/// `wrapping_sub` on `i32` is the wrapped difference.
pub proof fn lemma_wrapping_sub(a: i32, b: i32)
    ensures
        a.wrapping_sub(b) as int == wrap32(a - b),
{
    if a - b > i32::MAX {
        lemma_wrap32_add_multiple(a - b - 0x1_0000_0000, 1);
        lemma_wrap32_small(a - b - 0x1_0000_0000);
    } else if a - b < i32::MIN {
        lemma_wrap32_add_multiple(a - b + 0x1_0000_0000, -1);
        lemma_wrap32_small(a - b + 0x1_0000_0000);
    } else {
        lemma_wrap32_small(a - b);
    }
}

/// Flooring division by `2p` is flooring division by `p`, then by 2.
pub proof fn lemma_div_twice(x: int, p: int)
    requires
        p > 0,
    ensures
        x / (2 * p) == (x / p) / 2,
{
    let q = x / p;
    let r = x % p;
    lemma_fundamental_div_mod(x, p);
    lemma_fundamental_div_mod(q, 2);
    let q2 = q / 2;
    let r2 = q % 2;
    assert(x == q2 * (2 * p) + (p * r2 + r)) by (nonlinear_arith)
        requires
            x == p * q + r,
            q == 2 * q2 + r2,
    ;
    assert(0 <= p * r2 + r < 2 * p) by (nonlinear_arith)
        requires
            0 <= r < p,
            0 <= r2 < 2,
    ;
    lemma_fundamental_div_mod_converse(x, 2 * p, q2, p * r2 + r);
}

/// Powers of two grow with the exponent.
pub proof fn lemma_pow2_le(a: nat, b: nat)
    requires
        a <= b,
    ensures
        pow2(a) <= pow2(b),
{
    if a < b {
        lemma_pow2_strictly_increases(a, b);
    }
}

/// An arithmetic right shift is flooring division by a power of two.
pub proof fn lemma_shr_is_div(x: i64, s: u32)
    requires
        s < 64,
    ensures
        (x >> s) as int == x as int / (pow2(s as nat) as int),
    decreases s,
{
    if s == 0 {
        assert(x >> 0u32 == x) by (bit_vector);
        lemma2_to64();
        assert(x as int / 1 == x as int);
        assert(x >> s == x >> 0u32);
    } else {
        let p: u32 = (s - 1) as u32;
        lemma_shr_is_div(x, p);
        assert(x >> s == (x >> p) >> 1u32) by (bit_vector)
            requires
                s == p + 1,
                p < 63,
        ;
        let y: i64 = x >> p;
        assert(y >> 1u32 == y / 2) by (bit_vector);
        lemma_pow2_unfold(s as nat);
        lemma_pow2_pos(p as nat);
        lemma_div_twice(x as int, pow2(p as nat) as int);
        assert(pow2(s as nat) == 2 * pow2(p as nat));
        assert((x >> s) as int == (x as int / (pow2(p as nat) as int)) / 2);
        assert(pow2(s as nat) as int == 2 * (pow2(p as nat) as int));
        assert(x as int / (pow2(s as nat) as int) == x as int / (2 * (pow2(p as nat) as int)));
    }
}

/// A left shift is multiplication by a power of two, wrapped to 64 bits.
pub proof fn lemma_shl_is_mul(x: i64, s: u32)
    requires
        s < 64,
    ensures
        (x << s) as int == wrap64(x * pow2(s as nat)),
    decreases s,
{
    if s == 0 {
        assert(x << 0u32 == x) by (bit_vector);
        lemma2_to64();
        lemma_wrap64_small(x as int);
    } else {
        let p: u32 = (s - 1) as u32;
        lemma_shl_is_mul(x, p);
        assert(x << s == (x << p) << 1u32) by (bit_vector)
            requires
                s == p + 1,
                p < 63,
        ;
        let y: i64 = x << p;
        assert((y << 1u32) as int == (2 * y as int + 0x8000_0000_0000_0000)
            % 0x1_0000_0000_0000_0000 - 0x8000_0000_0000_0000) by (bit_vector);
        lemma_pow2_unfold(s as nat);
        let m = x * pow2(p as nat);
        lemma_wrap64_offset(m);
        let k = (m + 0x8000_0000_0000_0000) / 0x1_0000_0000_0000_0000;
        assert(2 * y == 2 * m + (-2 * k) * 0x1_0000_0000_0000_0000);
        lemma_wrap64_add_multiple(2 * m, -2 * k);
        assert(x * pow2(s as nat) == 2 * m) by (nonlinear_arith)
            requires
                pow2(s as nat) == 2 * pow2(p as nat),
                m == x * pow2(p as nat),
        ;
    }
}

/// Scales `x` by `2^-s` as a shift does: left for negative `s`, right otherwise.
/// Shifts of 64 places or more give what the unbounded shift would, wrapped to 64 bits.
pub fn shift(x: i64, s: i32) -> (r: i64)
    ensures
        r as int == wrap64(shift_spec(x as int, s as int)),
{
    if s <= -64 {
        proof {
            let k = (-s) as nat;
            lemma_pow2_adds((k - 64) as nat, 64);
            lemma2_to64();
            let m = x * pow2((k - 64) as nat);
            assert(x * pow2(k) == m * 0x1_0000_0000_0000_0000) by (nonlinear_arith)
                requires
                    pow2(k) == pow2((k - 64) as nat) * pow2(64),
                    pow2(64) == 0x1_0000_0000_0000_0000,
                    m == x * pow2((k - 64) as nat),
            ;
            lemma_wrap64_add_multiple(0, m);
            lemma_wrap64_small(0);
        }
        0
    } else if s < 0 {
        let k: u32 = (-s) as u32;
        proof {
            lemma_shl_is_mul(x, k);
        }
        x << k
    } else if s < 64 {
        let k: u32 = s as u32;
        proof {
            lemma_shr_is_div(x, k);
            lemma_pow2_pos(k as nat);
            lemma_wrap64_small(x as int / (pow2(k as nat) as int));
        }
        x >> k
    } else {
        proof {
            lemma_shr_is_div(x, 63);
            lemma2_to64_rest();
            lemma_pow2_strictly_increases(63, s as nat);
            let p = pow2(s as nat) as int;
            let q = pow2(63) as int;
            assert(q == 0x8000_0000_0000_0000);
            assert(p > q);
            if x < 0 {
                lemma_fundamental_div_mod_converse(x as int, p, -1, x + p);
                lemma_fundamental_div_mod_converse(x as int, q, -1, x + q);
            } else {
                lemma_fundamental_div_mod_converse(x as int, p, 0, x as int);
                lemma_fundamental_div_mod_converse(x as int, q, 0, x as int);
            }
            lemma_wrap64_small(x as int / p);
        }
        x >> 63u32
    }
}

} // verus!
