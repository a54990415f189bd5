//! Sine by range reduction and polynomial evaluation.

use crate::fixed::{Fixed, HALF_RAW, HPI_RAW, PI_RAW};
use crate::scale::{fixed_mul, fixed_sub, fx_mul, fx_sub, fx_add, fixed_add};
use crate::wrap::wrap32;
use vstd::prelude::*;

verus! {

/// Raw value of `1 / (2 * 3)`.
pub const I23_RAW: i32 = 174763;

/// Raw value of `1 / (4 * 5)`.
pub const I45_RAW: i32 = 52429;

/// Raw value of `1 / (6 * 7)`.
pub const I67_RAW: i32 = 24966;

/// Raw value of `1 / (8 * 9)`.
pub const I89_RAW: i32 = 14564;

/// Raw value of a quarter of a turn measured in turns.
pub const QUARTER_RAW: i32 = 262144;

/// Raw value of `pi - 3`, a coefficient of the closed form on the working domain `[0, 4]`.
pub const PIM3_RAW: i32 = 148471;

/// Raw value of `tau - 5`, a coefficient of the closed form on the working domain `[0, 4]`.
pub const TAUM5_RAW: i32 = 1345517;

/// The series `t - t^3/3! + t^5/5! - t^7/7! + t^9/9!` in canonical arithmetic, each odd term
/// taken from the one before it.
pub open spec fn sin_series(t: int) -> int {
    let t2 = fx_mul(t, t);
    let t3 = fx_mul(t, t2);
    let t2_45 = fx_mul(t2, I45_RAW as int);
    let t2_67 = fx_mul(t2, I67_RAW as int);
    let t2_89 = fx_mul(t2, I89_RAW as int);
    let t3i = fx_mul(t3, I23_RAW as int);
    let t5i = fx_mul(t3i, t2_45);
    let t7i = fx_mul(t5i, t2_67);
    let t9i = fx_mul(t7i, t2_89);
    fx_add(fx_sub(fx_add(fx_sub(t, t3i), t5i), t7i), t9i)
}

/// The angle at which the series is evaluated: past a half turn, the angle less a half turn;
/// then, from a quarter turn on, its reflection about a quarter turn.
pub open spec fn sin_reduce(x: int) -> int {
    let t = if x > PI_RAW { fx_sub(x, PI_RAW as int) } else { x };
    if t >= HPI_RAW { fx_sub(PI_RAW as int, t) } else { t }
}

/// The raw sine of the raw angle `x` (radians), as [`Fixed::sin`] computes it.
pub open spec fn sin_spec(x: int) -> int {
    let r = sin_series(sin_reduce(x));
    if x > PI_RAW { wrap32(-r) } else { r }
}

/// The low-order closed form on the working domain `[0, 4]`:
/// `(z / 2) * (pi - z^2 * ((tau - 5) - z^2 * (pi - 3)))`.
pub open spec fn sin_dimless_poly(z: int) -> int {
    let hz = z / 2;
    let zsq = fx_mul(z, z);
    fx_mul(hz, fx_sub(PI_RAW as int, fx_mul(zsq, fx_sub(TAUM5_RAW as int, fx_mul(zsq, PIM3_RAW as int)))))
}

/// The raw sine of the raw angle `x` measured in turns, as [`Fixed::sin_dimless`] computes it.
pub open spec fn sin_dimless_spec(x: int) -> int {
    let flip = x > HALF_RAW;
    let z = if flip { fx_sub(x, HALF_RAW as int) } else { x };
    let z = if z >= QUARTER_RAW { fx_sub(HALF_RAW as int, z) } else { z };
    let r = sin_dimless_poly(wrap32(4 * z));
    if flip { wrap32(-r) } else { r }
}

impl Fixed {
    /// Sine of `self` measured in turns, by the low-order closed form.
    pub fn sin_dimless(self) -> (r: Fixed)
        ensures
            r.value == sin_dimless_spec(self.value as int),
    {
        let flip = self.value > HALF_RAW;
        let z = if flip { fixed_sub(self, Fixed::half()) } else { self };
        let z = if z.value >= QUARTER_RAW { fixed_sub(Fixed::half(), z) } else { z };
        let v = z.value;
        assert((v << 2u32) as int == (4 * v as int + 0x8000_0000) % 0x1_0000_0000 - 0x8000_0000)
            by (bit_vector);
        let z = Fixed { value: v << 2u32 };
        let w = z.value;
        assert(w >> 1u32 == w / 2) by (bit_vector);
        let hz = Fixed { value: w >> 1u32 };
        let zsq = fixed_mul(z, z);
        let pim3 = Fixed { value: PIM3_RAW };
        let taum5 = Fixed { value: TAUM5_RAW };
        let ret = fixed_mul(hz, fixed_sub(Fixed::pi(), fixed_mul(zsq, fixed_sub(taum5, fixed_mul(zsq, pim3)))));
        if flip {
            ret.negate()
        } else {
            ret
        }
    }

    /// Sine of `self` in radians, by the series to the ninth order.
    pub fn sin(self) -> (r: Fixed)
        ensures
            r.value == sin_spec(self.value as int),
    {
        let flip = self.value > PI_RAW;
        let t = if flip { fixed_sub(self, Fixed::pi()) } else { self };
        let t = if t.value >= HPI_RAW { fixed_sub(Fixed::pi(), t) } else { t };
        let i23 = Fixed { value: I23_RAW };
        let i45 = Fixed { value: I45_RAW };
        let i67 = Fixed { value: I67_RAW };
        let i89 = Fixed { value: I89_RAW };
        let t2 = fixed_mul(t, t);
        let t3 = fixed_mul(t, t2);
        let t2_45 = fixed_mul(t2, i45);
        let t2_67 = fixed_mul(t2, i67);
        let t2_89 = fixed_mul(t2, i89);
        let t3i = fixed_mul(t3, i23);
        let t5i = fixed_mul(t3i, t2_45);
        let t7i = fixed_mul(t5i, t2_67);
        let t9i = fixed_mul(t7i, t2_89);
        let ret = fixed_add(fixed_sub(fixed_add(fixed_sub(t, t3i), t5i), t7i), t9i);
        if flip {
            ret.negate()
        } else {
            ret
        }
    }
}

} // verus!
