//! Laws that relate the library's operations to one another.

use crate::fixed::{from_i32_raw, HPI_RAW, ONE_RAW, PI_RAW, ZERO_RAW};
use crate::scale::{add_raw, fx_add, fx_mul, fx_sub, sub_raw};
use crate::reciprocal::{inv_i32_spec, inverse_spec};
use crate::sine::{sin_reduce, sin_series, sin_spec};
use crate::wrap::{lemma_wrap32_absorb, lemma_wrap32_small, shift_spec, wrap32};
use crate::fixed::FRAC_BITS;
use vstd::arithmetic::power2::{lemma2_to64, lemma_pow2_pos, pow2};
use vstd::prelude::*;

verus! {

proof fn lemma_shift_zero(x: int)
    ensures
        shift_spec(x, 0) == x,
{
    lemma2_to64();
    assert(pow2(0) == 1);
    assert(x / 1 == x);
}

proof fn lemma_fx_mul_value(a: int, b: int, c: int)
    requires
        (a * b) / 0x10_0000 == c,
        i32::MIN <= c <= i32::MAX,
    ensures
        fx_mul(a, b) == c,
{
    lemma2_to64();
    assert(shift_spec(a * b, 20) == (a * b) / 0x10_0000);
    lemma_wrap32_small(c);
}

proof fn lemma_fx_add_value(a: int, b: int)
    requires
        i32::MIN <= a + b <= i32::MAX,
    ensures
        fx_add(a, b) == a + b,
{
    lemma_shift_zero(a);
    lemma_shift_zero(b);
    lemma_wrap32_small(a + b);
}

/// The series at the two angles next to a quarter turn.
proof fn lemma_series_at_quarter_turn()
    ensures
        sin_series(1647099) == 1048578,
        sin_series(1647100) == 1048579,
{
    lemma_fx_mul_value(1647099, 1647099, 2587256);
    lemma_fx_mul_value(1647099, 2587256, 4064051);
    lemma_fx_mul_value(2587256, 52429, 129363);
    lemma_fx_mul_value(2587256, 24966, 61601);
    lemma_fx_mul_value(2587256, 14564, 35935);
    lemma_fx_mul_value(4064051, 174763, 677343);
    lemma_fx_mul_value(677343, 129363, 83563);
    lemma_fx_mul_value(83563, 61601, 4909);
    lemma_fx_mul_value(4909, 35935, 168);
    lemma_fx_sub_exact(1647099, 677343);
    lemma_fx_add_value(969756, 83563);
    lemma_fx_sub_exact(1053319, 4909);
    lemma_fx_add_value(1048410, 168);
    lemma_fx_mul_value(1647100, 1647100, 2587259);
    lemma_fx_mul_value(1647100, 2587259, 4064058);
    lemma_fx_mul_value(2587259, 52429, 129363);
    lemma_fx_mul_value(2587259, 24966, 61601);
    lemma_fx_mul_value(2587259, 14564, 35935);
    lemma_fx_mul_value(4064058, 174763, 677344);
    lemma_fx_mul_value(677344, 129363, 83564);
    lemma_fx_mul_value(83564, 61601, 4909);
    lemma_fx_sub_exact(1647100, 677344);
    lemma_fx_add_value(969756, 83564);
    lemma_fx_sub_exact(1053320, 4909);
    lemma_fx_add_value(1048411, 168);
}

proof fn lemma_fx_sub_exact(a: int, b: int)
    requires
        i32::MIN <= a - b <= i32::MAX,
    ensures
        fx_sub(a, b) == a - b,
{
    lemma_shift_zero(a);
    lemma_shift_zero(b);
    lemma_wrap32_small(a - b);
}

/// Converting an integer in the representable range `[-2048, 2047]` to the canonical scale
/// and back gives the integer: the raw value that `from_i32` builds, floored by `2^20` as
/// `to_i32` does, is `i`.
pub proof fn lemma_i32_round_trip(i: i32)
    requires
        -2048 <= i <= 2047,
    ensures
        from_i32_raw(i as int) / 0x10_0000 == i,
{
    lemma_wrap32_small(i * 0x10_0000);
    assert((i * 0x10_0000) / 0x10_0000 == i as int);
}

/// Adding zero leaves any value as it is.
pub proof fn lemma_add_zero(x: i32)
    ensures
        fx_add(x as int, ZERO_RAW as int) == x,
{
    lemma_shift_zero(x as int);
    lemma_shift_zero(0);
    lemma_wrap32_small(x as int);
}

/// A value plus its negation is zero, for every raw value, the most negative included.
pub proof fn lemma_add_negate(x: i32)
    ensures
        fx_add(x as int, wrap32(-x)) == ZERO_RAW,
{
    let n = wrap32(-x);
    crate::wrap::lemma_wrap32_offset(-x);
    lemma_shift_zero(x as int);
    lemma_shift_zero(n);
    lemma_wrap32_absorb(-x, x as int);
    lemma_wrap32_small(0);
    assert(n + x == x + n);
}

/// Multiplying by one leaves any value as it is.
pub proof fn lemma_mul_one(x: i32)
    ensures
        fx_mul(x as int, ONE_RAW as int) == x,
{
    lemma2_to64();
    assert(shift_spec(x * 0x10_0000, 20) == (x * 0x10_0000) / 0x10_0000);
    assert((x * 0x10_0000) / 0x10_0000 == x as int);
    lemma_wrap32_small(x as int);
}

/// `raw / 2^bits` and `canon / 2^20` are the same number.
pub open spec fn same_quantity(raw: int, bits: int, canon: int) -> bool {
    if bits <= FRAC_BITS {
        raw * pow2((FRAC_BITS - bits) as nat) == canon
    } else {
        raw == canon * pow2((bits - FRAC_BITS) as nat)
    }
}

proof fn lemma_align_same_quantity(raw: int, bits: int, canon: int)
    requires
        same_quantity(raw, bits, canon),
    ensures
        shift_spec(raw, bits - FRAC_BITS) == canon,
{
    if bits < FRAC_BITS {
    } else if bits == FRAC_BITS {
        lemma_shift_zero(raw);
        lemma2_to64();
        assert(pow2((FRAC_BITS - bits) as nat) == 1);
        assert(raw * 1 == raw);
    } else {
        let p = pow2((bits - FRAC_BITS) as nat) as int;
        lemma_pow2_pos((bits - FRAC_BITS) as nat);
        assert((canon * p) / p == canon) by (nonlinear_arith)
            requires
                p > 0,
        ;
    }
}

/// An operand at another scale that stands for the same number as a canonical one gives the
/// same sum and difference as that canonical operand, on either side: the implicit rescaling
/// is bit-exact with rescaling by hand.
pub proof fn lemma_cross_scale(c: i32, e_raw: i32, e_bits: i8, c2: i32)
    requires
        same_quantity(e_raw as int, e_bits as int, c2 as int),
    ensures
        add_raw(c as int, FRAC_BITS as int, e_raw as int, e_bits as int) == fx_add(c as int, c2 as int),
        add_raw(e_raw as int, e_bits as int, c as int, FRAC_BITS as int) == fx_add(c2 as int, c as int),
        sub_raw(c as int, FRAC_BITS as int, e_raw as int, e_bits as int) == fx_sub(c as int, c2 as int),
        sub_raw(e_raw as int, e_bits as int, c as int, FRAC_BITS as int) == fx_sub(c2 as int, c as int),
{
    lemma_align_same_quantity(e_raw as int, e_bits as int, c2 as int);
    lemma_shift_zero(c as int);
    lemma_shift_zero(c2 as int);
}

/// Reflecting an angle of `[0, pi]` about a quarter turn (`pi - t`) changes its sine by at
/// most one raw unit; it leaves it unchanged but at the two angles next to the quarter turn.
pub proof fn lemma_sin_reflect(t: i32)
    requires
        0 <= t <= PI_RAW,
    ensures
        -1 <= sin_spec(fx_sub(PI_RAW as int, t as int)) - sin_spec(t as int) <= 1,
        t != HPI_RAW && t != HPI_RAW + 1 ==> sin_spec(fx_sub(PI_RAW as int, t as int))
            == sin_spec(t as int),
{
    lemma_fx_sub_exact(PI_RAW as int, t as int);
    let u = PI_RAW - t;
    lemma_fx_sub_exact(PI_RAW as int, u);
    assert(sin_reduce(t as int) == if t >= HPI_RAW { u } else { t as int });
    assert(sin_reduce(u) == if u >= HPI_RAW { t as int } else { u });
    if t == HPI_RAW || t == HPI_RAW + 1 {
        lemma_series_at_quarter_turn();
    }
}

/// Past a half turn, up to a full one, the sine is the negated sine of the angle a half turn
/// back.
pub proof fn lemma_sin_half_turn(t: i32)
    requires
        PI_RAW < t <= 2 * PI_RAW,
    ensures
        sin_spec(t as int) == wrap32(-sin_spec(fx_sub(t as int, PI_RAW as int))),
{
    lemma_fx_sub_exact(t as int, PI_RAW as int);
}

/// The reciprocal is odd: negating the input negates the result, and Newton-Raphson fails
/// for both signs or for neither.
pub proof fn lemma_inverse_odd(v: i32)
    requires
        0 < v,
    ensures
        inverse_spec(-v) == match inverse_spec(v as int) {
            Some(m) => Some(wrap32(-m)),
            None => None::<int>,
        },
{
    lemma_wrap32_small(0x10_0000);
    lemma_wrap32_small(i32::MAX as int);
}

/// The integer reciprocal is odd: negating the denominator negates the result.
pub proof fn lemma_inv_i32_odd(d: i32)
    requires
        0 < d,
    ensures
        inv_i32_spec(-d) == wrap32(-inv_i32_spec(d as int)),
{
    lemma_wrap32_small(0x10_0000);
    lemma_wrap32_small(0);
}

} // verus!
