//! Operator syntax for the arithmetic of the scale abstraction: `+`, `-`, `*` and `/` with a
//! canonical or explicit-scale value on the left and any scaled operand on the right, and `%`
//! between canonical values.

use crate::fixed::{Fixed, FixedError};
use crate::scale::{
    add_raw,
    div_raw,
    fixed_add,
    fixed_div,
    fixed_mul,
    fixed_sub,
    mul_raw,
    sub_raw,
    trunc_rem,
    GivenScale,
    Scaled,
};
use vstd::prelude::*;
use vstd::std_specs::ops::{AddSpecImpl, DivSpecImpl, MulSpecImpl, RemSpecImpl, SubSpecImpl};

verus! {

impl<R: Scaled> core::ops::Add<R> for Fixed {
    type Output = Fixed;

    fn add(self, rhs: R) -> (res: Fixed) {
        fixed_add(self, rhs)
    }
}

impl<R: Scaled> AddSpecImpl<R> for Fixed {
    open spec fn obeys_add_spec() -> bool {
        true
    }

    open spec fn add_req(self, rhs: R) -> bool {
        true
    }

    open spec fn add_spec(self, rhs: R) -> Fixed {
        Fixed { value: add_raw(self.raw_of(), self.frac_of(), rhs.raw_of(), rhs.frac_of()) as i32 }
    }
}

impl<R: Scaled> core::ops::Sub<R> for Fixed {
    type Output = Fixed;

    fn sub(self, rhs: R) -> (res: Fixed) {
        fixed_sub(self, rhs)
    }
}

impl<R: Scaled> SubSpecImpl<R> for Fixed {
    open spec fn obeys_sub_spec() -> bool {
        true
    }

    open spec fn sub_req(self, rhs: R) -> bool {
        true
    }

    open spec fn sub_spec(self, rhs: R) -> Fixed {
        Fixed { value: sub_raw(self.raw_of(), self.frac_of(), rhs.raw_of(), rhs.frac_of()) as i32 }
    }
}

impl<R: Scaled> core::ops::Mul<R> for Fixed {
    type Output = Fixed;

    fn mul(self, rhs: R) -> (res: Fixed) {
        fixed_mul(self, rhs)
    }
}

impl<R: Scaled> MulSpecImpl<R> for Fixed {
    open spec fn obeys_mul_spec() -> bool {
        true
    }

    open spec fn mul_req(self, rhs: R) -> bool {
        true
    }

    open spec fn mul_spec(self, rhs: R) -> Fixed {
        Fixed { value: mul_raw(self.raw_of(), self.frac_of(), rhs.raw_of(), rhs.frac_of()) as i32 }
    }
}

impl<R: Scaled> core::ops::Div<R> for Fixed {
    type Output = Result<Fixed, FixedError>;

    fn div(self, rhs: R) -> (res: Result<Fixed, FixedError>) {
        fixed_div(self, rhs)
    }
}

impl<R: Scaled> DivSpecImpl<R> for Fixed {
    open spec fn obeys_div_spec() -> bool {
        true
    }

    open spec fn div_req(self, rhs: R) -> bool {
        true
    }

    open spec fn div_spec(self, rhs: R) -> Result<Fixed, FixedError> {
        if rhs.raw_of() == 0 {
            Err(FixedError::DivisionByZero)
        } else {
            Ok(Fixed { value: div_raw(self.raw_of(), self.frac_of(), rhs.raw_of(), rhs.frac_of()) as i32 })
        }
    }
}

impl<R: Scaled> core::ops::Add<R> for GivenScale {
    type Output = Fixed;

    fn add(self, rhs: R) -> (res: Fixed) {
        fixed_add(self, rhs)
    }
}

impl<R: Scaled> AddSpecImpl<R> for GivenScale {
    open spec fn obeys_add_spec() -> bool {
        true
    }

    open spec fn add_req(self, rhs: R) -> bool {
        true
    }

    open spec fn add_spec(self, rhs: R) -> Fixed {
        Fixed { value: add_raw(self.raw_of(), self.frac_of(), rhs.raw_of(), rhs.frac_of()) as i32 }
    }
}

impl<R: Scaled> core::ops::Sub<R> for GivenScale {
    type Output = Fixed;

    fn sub(self, rhs: R) -> (res: Fixed) {
        fixed_sub(self, rhs)
    }
}

impl<R: Scaled> SubSpecImpl<R> for GivenScale {
    open spec fn obeys_sub_spec() -> bool {
        true
    }

    open spec fn sub_req(self, rhs: R) -> bool {
        true
    }

    open spec fn sub_spec(self, rhs: R) -> Fixed {
        Fixed { value: sub_raw(self.raw_of(), self.frac_of(), rhs.raw_of(), rhs.frac_of()) as i32 }
    }
}

impl<R: Scaled> core::ops::Mul<R> for GivenScale {
    type Output = Fixed;

    fn mul(self, rhs: R) -> (res: Fixed) {
        fixed_mul(self, rhs)
    }
}

impl<R: Scaled> MulSpecImpl<R> for GivenScale {
    open spec fn obeys_mul_spec() -> bool {
        true
    }

    open spec fn mul_req(self, rhs: R) -> bool {
        true
    }

    open spec fn mul_spec(self, rhs: R) -> Fixed {
        Fixed { value: mul_raw(self.raw_of(), self.frac_of(), rhs.raw_of(), rhs.frac_of()) as i32 }
    }
}

impl<R: Scaled> core::ops::Div<R> for GivenScale {
    type Output = Result<Fixed, FixedError>;

    fn div(self, rhs: R) -> (res: Result<Fixed, FixedError>) {
        fixed_div(self, rhs)
    }
}

impl<R: Scaled> DivSpecImpl<R> for GivenScale {
    open spec fn obeys_div_spec() -> bool {
        true
    }

    open spec fn div_req(self, rhs: R) -> bool {
        true
    }

    open spec fn div_spec(self, rhs: R) -> Result<Fixed, FixedError> {
        if rhs.raw_of() == 0 {
            Err(FixedError::DivisionByZero)
        } else {
            Ok(Fixed { value: div_raw(self.raw_of(), self.frac_of(), rhs.raw_of(), rhs.frac_of()) as i32 })
        }
    }
}

impl core::ops::Rem for Fixed {
    type Output = Result<Fixed, FixedError>;

    /// The remainder of the raw values, with the sign of `self`; fails when `modulus` is zero.
    fn rem(self, modulus: Fixed) -> (res: Result<Fixed, FixedError>) {
        if modulus.value == 0 {
            return Err(FixedError::DivisionByZero);
        }
        match self.value.checked_rem(modulus.value) {
            Some(r) => Ok(Fixed { value: r }),
            None => Ok(Fixed { value: 0 }),
        }
    }
}

impl RemSpecImpl for Fixed {
    open spec fn obeys_rem_spec() -> bool {
        true
    }

    open spec fn rem_req(self, modulus: Fixed) -> bool {
        true
    }

    open spec fn rem_spec(self, modulus: Fixed) -> Result<Fixed, FixedError> {
        if modulus.value == 0 {
            Err(FixedError::DivisionByZero)
        } else {
            Ok(Fixed { value: trunc_rem(self.value as int, modulus.value as int) as i32 })
        }
    }
}

} // verus!
