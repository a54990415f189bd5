//! Reciprocal by a power-of-two-centred series above one and Newton-Raphson below it.

use crate::fixed::{Fixed, FixedError, ONE_RAW};
use crate::scale::{add_raw, fixed_add, fixed_mul, fixed_sub, fx_add, fx_mul, mul_raw, sub_raw};
use crate::wrap::{lemma_div_twice, lemma_i64_as_i32, lemma_wrap32_small, shift, wrap32};
use vstd::arithmetic::power2::{lemma2_to64, lemma_pow2_pos, lemma_pow2_unfold, pow2};
use vstd::prelude::*;

verus! {

/// The number of binary digits of a positive `w`, one more than `floor(log2(w))`.
pub open spec fn bit_len(w: int) -> nat
    decreases w,
{
    if w <= 0 {
        0
    } else {
        1 + bit_len(w / 2)
    }
}

/// What the series loop leaves in its accumulator: while fewer than eleven terms are summed
/// and the current term exceeds 100 raw units, add the term and multiply it by `basis`.
pub open spec fn series_sum(acc: int, term: int, basis: int, k: nat) -> int
    decreases 11 - k,
{
    if k < 11 && term > 100 {
        series_sum(fx_add(acc, term), fx_mul(term, basis), basis, k + 1)
    } else {
        acc
    }
}

/// The series for `1 / x` centred at `2^n`, where `2^n` is the least power of two above the
/// integer part of `x` (`bit_len(x / 2^20)` digits): with `t = 2^-n`, the sum of
/// `t * (1 - t * x)^k`.
pub open spec fn series_inverse(x: int) -> int {
    let t = pow2((20 - bit_len(x / 0x10_0000)) as nat) as int;
    series_sum(0, t, add_raw(fx_mul(wrap32(-t), x), 20, 1, 0), 0)
}

/// The Newton-Raphson start: the guess and twice `x` doubled together until the latter
/// reaches one.
pub open spec fn newton_seed(guess: int, frac: int) -> int
    decreases (if frac < 0x10_0000 { 0x10_0000 - frac } else { 0 }),
{
    if 0 < frac < 0x10_0000 {
        newton_seed(wrap32(2 * guess), 2 * frac)
    } else {
        guess
    }
}

/// One Newton-Raphson step toward `1 / x`: `g * (2 - x * g)`.
pub open spec fn newton_step(x: int, g: int) -> int {
    fx_mul(g, sub_raw(2, 0, fx_mul(x, g), 20))
}

/// The first iterate, among steps `k` to 7, that differs from the one before by under
/// 100 raw units; `None` when no such step comes.
pub open spec fn newton_from(x: int, g: int, k: nat) -> Option<int>
    decreases 8 - k,
{
    if k >= 8 {
        None
    } else {
        let next = newton_step(x, g);
        if -100 < next - g < 100 {
            Some(next)
        } else {
            newton_from(x, next, k + 1)
        }
    }
}

/// `m` with the sign of the input put back: negated, wrapping, when `negative`.
pub open spec fn with_sign(negative: bool, m: int) -> int {
    if negative {
        wrap32(-m)
    } else {
        m
    }
}

/// The raw reciprocal of the raw value `v`, as [`Fixed::inverse`] computes it; `None` where
/// Newton-Raphson does not settle.
pub open spec fn inverse_spec(v: int) -> Option<int> {
    let x = if v < 0 { -v } else { v };
    if v == 0 {
        Some(0)
    } else if x == 0x10_0000 {
        Some(with_sign(v < 0, 0x10_0000))
    } else if x <= 256 {
        Some(with_sign(v < 0, i32::MAX as int))
    } else if x > 0x10_0000 {
        Some(with_sign(v < 0, series_inverse(x)))
    } else {
        match newton_from(x, newton_seed(0x10_0000, 2 * x), 0) {
            Some(m) => Some(with_sign(v < 0, m)),
            None => None,
        }
    }
}

/// The raw reciprocal of the integer `d`, as [`Fixed::inv_i32`] computes it.
pub open spec fn inv_i32_spec(d: int) -> int {
    let x = if d < 0 { -d } else { d };
    let n = bit_len(x);
    let t = pow2((20 - n) as nat) as int;
    if d == 0 {
        0
    } else if x == 1 {
        with_sign(d < 0, 0x10_0000)
    } else if n > 20 {
        0
    } else {
        with_sign(d < 0, series_sum(0, t, add_raw(mul_raw(wrap32(-t), 20, x, 0), 20, 1, 0), 0))
    }
}

proof fn lemma_bit_len_bound(w: int, k: nat)
    requires
        0 < w < pow2(k),
    ensures
        1 <= bit_len(w) <= k,
    decreases k,
{
    assert(bit_len(0) == 0);
    if k == 0 {
        lemma2_to64();
    } else {
        lemma_pow2_unfold(k);
        if w / 2 > 0 {
            lemma_bit_len_bound(w / 2, (k - 1) as nat);
        }
    }
}

proof fn lemma_bit_len_ge(w: int, k: nat)
    requires
        w >= pow2(k),
    ensures
        bit_len(w) >= k + 1,
    decreases k,
{
    lemma_pow2_pos(k);
    if k > 0 {
        lemma_pow2_unfold(k);
        lemma_bit_len_ge(w / 2, (k - 1) as nat);
    }
}

/// The number of binary digits of `w`.
fn bit_length(w: i64) -> (n: u32)
    requires
        1 <= w < 0x1_0000_0000,
    ensures
        n == bit_len(w as int),
        n <= 32,
{
    let mut n: u32 = 0;
    proof {
        lemma2_to64();
    }
    while shift(w, n as i32) > 1
        invariant
            n <= 32,
            w as int / (pow2(n as nat) as int) >= 1,
            bit_len(w as int) == n + bit_len(w as int / (pow2(n as nat) as int)),
            1 <= w < 0x1_0000_0000,
            pow2(32) == 0x1_0000_0000,
        decreases 32 - n,
    {
        let ghost q = w as int / (pow2(n as nat) as int);
        proof {
            lemma_pow2_pos(n as nat);
            crate::wrap::lemma_wrap64_small(q);
            lemma_div_twice(w as int, pow2(n as nat) as int);
            lemma_pow2_unfold((n + 1) as nat);
            assert(pow2((n + 1) as nat) as int == 2 * (pow2(n as nat) as int));
            if n >= 32 {
                crate::wrap::lemma_pow2_le(32, n as nat);
                assert(q < 1) by (nonlinear_arith)
                    requires
                        q == w as int / (pow2(n as nat) as int),
                        pow2(n as nat) >= 0x1_0000_0000,
                        1 <= w < 0x1_0000_0000,
                ;
            }
        }
        n = n + 1;
    }
    proof {
        let q = w as int / (pow2(n as nat) as int);
        lemma_pow2_pos(n as nat);
        crate::wrap::lemma_wrap64_small(q);
        assert(bit_len(1) == 1 + bit_len(0));
        if n >= 32 {
            crate::wrap::lemma_pow2_le(32, n as nat);
            assert(q < 1) by (nonlinear_arith)
                requires
                    q == w as int / (pow2(n as nat) as int),
                    pow2(n as nat) >= 0x1_0000_0000,
                    1 <= w < 0x1_0000_0000,
            ;
        }
    }
    // the exit test leaves the digits below the leading one; count that one too
    n + 1
}

/// The series sum of [`series_sum`], from term `taylor_i` with ratio `mul_basis`.
fn reciprocal_series(taylor_i: Fixed, mul_basis: Fixed) -> (r: Fixed)
    ensures
        r.value == series_sum(0, taylor_i.value as int, mul_basis.value as int, 0),
{
    let mut acc = Fixed::zero();
    let mut mul_acc = taylor_i;
    let mut k: u32 = 0;
    while k < 11 && mul_acc.value > 100
        invariant
            k <= 11,
            series_sum(acc.value as int, mul_acc.value as int, mul_basis.value as int, k as nat)
                == series_sum(0, taylor_i.value as int, mul_basis.value as int, 0),
        decreases 11 - k,
    {
        acc = fixed_add(acc, mul_acc);
        mul_acc = fixed_mul(mul_acc, mul_basis);
        k = k + 1;
    }
    acc
}

/// `2^-n` in the canonical scale.
fn power_of_half(n: u32) -> (r: Fixed)
    requires
        n <= 20,
    ensures
        r.value == pow2((20 - n) as nat),
{
    let w = shift(1, n as i32 - 20);
    proof {
        if n < 20 {
            assert(crate::wrap::shift_spec(1, n - 20) == pow2((20 - n) as nat));
        } else {
            lemma2_to64();
            assert(crate::wrap::shift_spec(1, n - 20) == 1);
        }
        crate::wrap::lemma_pow2_le((20 - n) as nat, 20);
        lemma2_to64();
        lemma_pow2_pos((20 - n) as nat);
        crate::wrap::lemma_wrap64_small(pow2((20 - n) as nat) as int);
        lemma_i64_as_i32(w);
        lemma_wrap32_small(w as int);
    }
    Fixed { value: w as i32 }
}

impl Fixed {
    /// `1 / self`. Zero maps to zero, and magnitudes of at most 256 raw units saturate to
    /// `i32::MAX` raw with the input's sign. Fails where Newton-Raphson does not settle.
    pub fn inverse(self) -> (r: Result<Fixed, FixedError>)
        requires
            self.value != i32::MIN,
        ensures
            inverse_spec(self.value as int) matches Some(m) ==> r == Ok::<Fixed, FixedError>(
                Fixed { value: m as i32 },
            ),
            inverse_spec(self.value as int) is None ==> r == Err::<Fixed, FixedError>(
                FixedError::ConvergenceFailure,
            ),
            self.value == 0 ==> r == Ok::<Fixed, FixedError>(Fixed { value: 0 }),
            self.value == ONE_RAW ==> r == Ok::<Fixed, FixedError>(Fixed { value: ONE_RAW }),
            self.value == -ONE_RAW ==> r == Ok::<Fixed, FixedError>(Fixed { value: -0x10_0000i32 }),
            r is Err ==> 256 < self.value < ONE_RAW || -ONE_RAW < self.value < -256,
    {
        if self.value == 0 {
            return Ok(Fixed::zero());
        }
        let negative = self.value < 0;
        let x = self.abs();
        proof {
            lemma_wrap32_small(-0x10_0000);
            lemma_wrap32_small(-(i32::MAX as int));
        }
        if x.value == ONE_RAW {
            return Ok(if negative { Fixed::one().negate() } else { Fixed::one() });
        }
        if x.value <= 256 {
            let max = Fixed::from_raw(i32::MAX);
            return Ok(if negative { max.negate() } else { max });
        }
        if x.value > ONE_RAW {
            let v = x.value;
            assert(v >> 20u32 == v / 0x10_0000) by (bit_vector);
            let whole: i32 = v >> 20u32;
            proof {
                lemma2_to64();
                lemma_bit_len_bound(whole as int, 11);
            }
            let n = bit_length(whole as i64);
            let taylor_i = power_of_half(n);
            let mul_basis = fixed_add(fixed_mul(taylor_i.negate(), x), 1i32);
            let acc = reciprocal_series(taylor_i, mul_basis);
            Ok(if negative { acc.negate() } else { acc })
        } else {
            let mut guess = Fixed::one();
            let mut fractional: i32 = x.value * 2;
            let ghost seed = newton_seed(0x10_0000, 2 * x.value);
            while fractional < ONE_RAW
                invariant
                    0 < fractional <= 0x20_0000,
                    256 < x.value < ONE_RAW,
                    newton_seed(guess.value as int, fractional as int) == seed,
                decreases (if fractional < ONE_RAW { ONE_RAW - fractional } else { 0 }),
            {
                let g = guess.value;
                assert((g << 1u32) as int == (2 * g as int + 0x8000_0000) % 0x1_0000_0000
                    - 0x8000_0000) by (bit_vector);
                guess = Fixed { value: g << 1u32 };
                fractional = fractional * 2;
            }
            let mut k: u32 = 0;
            while k < 8
                invariant
                    k <= 8,
                    256 < x.value < ONE_RAW,
                    x.value == if self.value < 0 { -self.value } else { self.value as int },
                    negative == (self.value < 0),
                    seed == newton_seed(0x10_0000, 2 * x.value),
                    newton_from(x.value as int, guess.value as int, k as nat) == newton_from(
                        x.value as int,
                        seed,
                        0,
                    ),
                decreases 8 - k,
            {
                let next = fixed_mul(guess, fixed_sub(2i32, fixed_mul(x, guess)));
                let diff: i64 = next.value as i64 - guess.value as i64;
                if -100 < diff && diff < 100 {
                    return Ok(if negative { next.negate() } else { next });
                }
                guess = next;
                k = k + 1;
            }
            Err(FixedError::ConvergenceFailure)
        }
    }

    /// `1 / denominator` in the canonical scale, by the series on the integer itself.
    /// Zero maps to zero, and so does every denominator beyond `2^20`.
    pub fn inv_i32(denominator: i32) -> (r: Fixed)
        ensures
            r.value == inv_i32_spec(denominator as int),
    {
        if denominator == 0 {
            return Fixed::zero();
        }
        let negative = denominator < 0;
        let x: i64 = if negative { -(denominator as i64) } else { denominator as i64 };
        proof {
            lemma_wrap32_small(-0x10_0000);
        }
        if x == 1 {
            return if negative { Fixed::one().negate() } else { Fixed::one() };
        }
        let n = bit_length(x);
        if n > 20 {
            return Fixed::zero();
        }
        proof {
            lemma2_to64();
            if x >= 0x10_0000 {
                lemma_bit_len_ge(x as int, 20);
            }
        }
        let xi: i32 = x as i32;
        let taylor_i = power_of_half(n);
        let mul_basis = fixed_add(fixed_mul(taylor_i.negate(), xi), 1i32);
        let acc = reciprocal_series(taylor_i, mul_basis);
        if negative {
            acc.negate()
        } else {
            acc
        }
    }
}

} // verus!
