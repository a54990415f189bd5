//! The canonical fixed-point type: construction, conversion, clamping and constants.

use crate::scale::trunc_div;
use crate::wrap::{
    lemma_i64_as_i32,
    lemma_wrap32_of_wrap64,
    lemma_wrap32_small,
    lemma_wrap64_small,
    lemma_wrapping_sub,
    shift,
    shift_spec,
    wrap32,
};
use vstd::arithmetic::div_mod::lemma_fundamental_div_mod_converse;
use vstd::arithmetic::power2::lemma2_to64;
use vstd::prelude::*;
use vstd::std_specs::convert::IntoSpec;

verus! {

/// Integer bits of the canonical scale, the sign included.
pub const SCALE_BITS: i32 = 12;

/// Fractional bits of the canonical scale, as the scale abstraction reports them.
pub const FRAC_BITS: i8 = 20;

/// Raw value of [`Fixed::zero`]: zero.
pub const ZERO_RAW: i32 = 0;

/// Raw value of [`Fixed::one`]: one.
pub const ONE_RAW: i32 = 0x10_0000;

/// Raw value of [`Fixed::half`]: one half.
pub const HALF_RAW: i32 = 524288;

/// Raw value of [`Fixed::hpi`]: a quarter turn, pi / 2.
pub const HPI_RAW: i32 = 1647099;

/// Raw value of [`Fixed::e`]: Euler's number.
pub const E_RAW: i32 = 2850325;

/// Raw value of [`Fixed::pi`]: a half turn, pi.
pub const PI_RAW: i32 = 3294199;

/// Raw value of [`Fixed::tau`]: a full turn, 2 pi.
pub const TAU_RAW: i32 = 6588397;

/// A real number `value / 2^20`, held as its raw 32-bit integer.
/// Equality and order are those of the raw integers.
#[derive(Clone, Copy, Debug, PartialEq, Eq, Structural, PartialOrd, Ord)]
pub struct Fixed {
    pub value: i32,
}

/// The failures that the library reports instead of panicking.
#[derive(Clone, Copy, Debug, PartialEq, Eq, Structural)]
pub enum FixedError {
    /// A clamp was asked for with `min > max`.
    InvalidRange,
    /// The Newton-Raphson reciprocal did not settle within its iteration budget.
    ConvergenceFailure,
    /// A division had a zero divisor.
    DivisionByZero,
}

/// Ten to the power `n`.
pub open spec fn pow10(n: nat) -> nat
    decreases n,
{
    if n == 0 {
        1
    } else {
        10 * pow10((n - 1) as nat)
    }
}

proof fn lemma_pow10_monotonic(n: nat, m: nat)
    requires
        n <= m,
    ensures
        1 <= pow10(n) <= pow10(m),
    decreases m,
{
    if n < m {
        lemma_pow10_monotonic(n, (m - 1) as nat);
    } else if n > 0 {
        lemma_pow10_monotonic((n - 1) as nat, (n - 1) as nat);
    }
}

/// The raw value of `i` in the canonical scale: `i * 2^20`, wrapped to 32 bits.
pub open spec fn from_i32_raw(i: int) -> int {
    wrap32(i * 0x10_0000)
}

/// What a clamp to `[from_i32(min), from_i32(max)]` returns, by raw comparison.
pub open spec fn clamp_spec(x: Fixed, min: i32, max: i32) -> Fixed {
    let lo = from_i32_raw(min as int);
    let hi = from_i32_raw(max as int);
    if lo > x.value {
        Fixed { value: lo as i32 }
    } else if hi < x.value {
        Fixed { value: hi as i32 }
    } else {
        x
    }
}

/// The raw value that `from_decimal(whole, points)` builds: `whole * 2^32` divided by
/// `10^points` toward zero, then by `2^12` toward negative infinity, wrapped to 32 bits.
pub open spec fn from_decimal_raw(whole: i32, points: nat) -> int {
    wrap32(trunc_div(whole * 0x1_0000_0000, pow10(points) as int) / 0x1000)
}

impl Fixed {
    /// Zero.
    pub fn zero() -> (r: Fixed)
        ensures
            r.value == ZERO_RAW,
    {
        Fixed { value: ZERO_RAW }
    }

    /// One.
    pub fn one() -> (r: Fixed)
        ensures
            r.value == ONE_RAW,
    {
        Fixed { value: ONE_RAW }
    }

    /// One half.
    pub fn half() -> (r: Fixed)
        ensures
            r.value == HALF_RAW,
    {
        Fixed { value: HALF_RAW }
    }

    /// A quarter turn, pi / 2.
    pub fn hpi() -> (r: Fixed)
        ensures
            r.value == HPI_RAW,
    {
        Fixed { value: HPI_RAW }
    }

    /// Euler's number.
    pub fn e() -> (r: Fixed)
        ensures
            r.value == E_RAW,
    {
        Fixed { value: E_RAW }
    }

    /// A half turn, pi.
    pub fn pi() -> (r: Fixed)
        ensures
            r.value == PI_RAW,
    {
        Fixed { value: PI_RAW }
    }

    /// A full turn, 2 pi.
    pub fn tau() -> (r: Fixed)
        ensures
            r.value == TAU_RAW,
    {
        Fixed { value: TAU_RAW }
    }

    /// The integer part, rounded toward negative infinity.
    pub fn to_i32(&self) -> (r: i32)
        ensures
            r as int == self.value as int / 0x10_0000,
    {
        let v = self.value;
        assert(v >> 20u32 == v / 0x10_0000) by (bit_vector);
        v >> 20u32
    }

    /// `i` in the canonical scale; wraps when `i` lies outside `[-2048, 2047]`.
    pub fn from_i32(i: i32) -> (r: Fixed)
        ensures
            r.value == from_i32_raw(i as int),
    {
        assert((i << 20u32) as int == (i as int * 0x10_0000 + 0x8000_0000) % 0x1_0000_0000
            - 0x8000_0000) by (bit_vector);
        Fixed { value: i << 20u32 }
    }

    /// Any integer that converts into `i32`, in the canonical scale.
    pub fn from_int<T: Into<i32>>(i: T) -> (r: Fixed)
        requires
            T::obeys_into_spec(),
        ensures
            r.value == from_i32_raw(i.into_spec() as int),
    {
        let v: i32 = i.into();
        Fixed::from_i32(v)
    }

    /// The value whose raw integer is `value`.
    pub fn from_raw(value: i32) -> (r: Fixed)
        ensures
            r.value == value,
    {
        Fixed { value }
    }

    /// `whole / 10^decimal_points`, computed on integers alone: `314159265, 8` gives pi.
    pub fn from_decimal(whole: i32, decimal_points: u16) -> (r: Fixed)
        ensures
            r.value == from_decimal_raw(whole, decimal_points as nat),
    {
        let numerator: i128 = whole as i128 * 0x1_0000_0000;
        if decimal_points > 19 {
            // |whole * 2^32| <= 2^63 < 10^19: every digit lies below the representable step
            proof {
                lemma_pow10_monotonic(19, decimal_points as nat);
                reveal_with_fuel(pow10, 20);
                let an = if numerator < 0 { -numerator } else { numerator as int };
                lemma_fundamental_div_mod_converse(an, pow10(decimal_points as nat) as int, 0, an);
                lemma_wrap32_small(0);
            }
            return Fixed::zero();
        }
        let mut decimal_div: i128 = 1;
        let mut i: u16 = 0;
        proof {
            lemma_pow10_monotonic(0, 19);
            reveal_with_fuel(pow10, 20);
            assert(pow10(19) == 10_000_000_000_000_000_000);
        }
        while i < decimal_points
            invariant
                i <= decimal_points <= 19,
                decimal_div == pow10(i as nat),
                pow10(19) == 10_000_000_000_000_000_000,
            decreases decimal_points - i,
        {
            proof {
                lemma_pow10_monotonic((i + 1) as nat, 19);
            }
            decimal_div = decimal_div * 10;
            i = i + 1;
        }
        proof {
            lemma_pow10_monotonic(i as nat, 19);
        }
        let ghost t = trunc_div(numerator as int, decimal_div as int);
        let q: i128 = match numerator.checked_div(decimal_div) {
            Some(q) => q,
            // the divisor is positive and the numerator far from i128::MIN
            None => 0,
        };
        proof {
            let an = if numerator < 0 { -numerator } else { numerator as int };
            assert(0 <= an / (decimal_div as int) <= an) by (nonlinear_arith)
                requires
                    an >= 0,
                    decimal_div >= 1,
            ;
            assert(q == t);
            lemma_wrap64_small(t);
        }
        let w = shift(q as i64, SCALE_BITS);
        proof {
            lemma_i64_as_i32(w);
            lemma_wrap32_of_wrap64(shift_spec(t, 12));
            lemma2_to64();
            assert(shift_spec(t, 12) == t / 0x1000);
        }
        Fixed { value: w as i32 }
    }

    /// `self` limited to `[from_i32(min), from_i32(max)]`; fails when `min > max`.
    pub fn clamp_i32(self, min: i32, max: i32) -> (r: Result<Fixed, FixedError>)
        ensures
            min > max ==> r == Err::<Fixed, FixedError>(FixedError::InvalidRange),
            min <= max ==> r == Ok::<Fixed, FixedError>(clamp_spec(self, min, max)),
    {
        if min > max {
            return Err(FixedError::InvalidRange);
        }
        let fmin = Fixed::from_i32(min);
        let fmax = Fixed::from_i32(max);
        if fmin.value > self.value {
            Ok(fmin)
        } else if fmax.value < self.value {
            Ok(fmax)
        } else {
            Ok(self)
        }
    }

    /// The raw integer negated, wrapping: the most negative value maps to itself.
    pub fn negate(self) -> (r: Fixed)
        ensures
            r.value == wrap32(-self.value),
    {
        proof {
            lemma_wrapping_sub(0, self.value);
        }
        Fixed { value: 0i32.wrapping_sub(self.value) }
    }

    /// The absolute value; the most negative raw value has none.
    pub fn abs(self) -> (r: Fixed)
        requires
            self.value != i32::MIN,
        ensures
            r.value == if self.value < 0 { -self.value } else { self.value as int },
    {
        if self.value < 0 {
            Fixed { value: -self.value }
        } else {
            self
        }
    }
}

} // verus!
