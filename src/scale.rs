//! The scale abstraction and the four arithmetic operations over any pair of scaled operands.

use crate::fixed::{Fixed, FixedError, FRAC_BITS};
use crate::wrap::{
    lemma_i64_as_i32,
    lemma_shl_is_mul,
    lemma_u32_as_i32,
    lemma_wrap32_absorb,
    lemma_wrap32_of_wrap64,
    lemma_wrap64_add_multiple,
    lemma_wrap64_small,
    lemma_wrapping_add,
    lemma_wrapping_sub,
    shift,
    shift_spec,
    wrap32,
    wrap64,
};
use vstd::arithmetic::power2::lemma2_to64;
use vstd::prelude::*;

verus! {

/// A signed integer together with the number of fractional bits it carries.
pub trait Scaled {
    /// The raw integer that [`Scaled::value`] returns.
    spec fn raw_of(&self) -> int;

    /// The fractional-bit count that [`Scaled::frac_bits`] returns.
    spec fn frac_of(&self) -> int;

    fn value(&self) -> (r: i32)
        ensures
            r as int == self.raw_of(),
    ;

    fn frac_bits(&self) -> (r: i8)
        ensures
            r as int == self.frac_of(),
    ;
}

/// A raw integer at a scale chosen by the caller: `raw_value / 2^frac_bits`.
#[derive(Clone, Copy, Debug)]
pub struct GivenScale {
    pub raw_value: i32,
    pub frac_bits: i8,
}

impl Scaled for Fixed {
    open spec fn raw_of(&self) -> int {
        self.value as int
    }

    open spec fn frac_of(&self) -> int {
        FRAC_BITS as int
    }

    fn value(&self) -> (r: i32) {
        self.value
    }

    fn frac_bits(&self) -> (r: i8) {
        FRAC_BITS
    }
}

impl Scaled for GivenScale {
    open spec fn raw_of(&self) -> int {
        self.raw_value as int
    }

    open spec fn frac_of(&self) -> int {
        self.frac_bits as int
    }

    fn value(&self) -> (r: i32) {
        self.raw_value
    }

    fn frac_bits(&self) -> (r: i8) {
        self.frac_bits
    }
}

impl Scaled for i32 {
    open spec fn raw_of(&self) -> int {
        *self as int
    }

    open spec fn frac_of(&self) -> int {
        0
    }

    fn value(&self) -> (r: i32) {
        *self
    }

    fn frac_bits(&self) -> (r: i8) {
        0
    }
}

impl Scaled for u32 {
    /// Values above `i32::MAX` wrap, as the cast to `i32` does.
    open spec fn raw_of(&self) -> int {
        wrap32(*self as int)
    }

    open spec fn frac_of(&self) -> int {
        0
    }

    fn value(&self) -> (r: i32) {
        proof {
            lemma_u32_as_i32(*self);
        }
        *self as i32
    }

    fn frac_bits(&self) -> (r: i8) {
        0
    }
}

impl Scaled for i16 {
    open spec fn raw_of(&self) -> int {
        *self as int
    }

    open spec fn frac_of(&self) -> int {
        0
    }

    fn value(&self) -> (r: i32) {
        *self as i32
    }

    fn frac_bits(&self) -> (r: i8) {
        0
    }
}

impl Scaled for u16 {
    open spec fn raw_of(&self) -> int {
        *self as int
    }

    open spec fn frac_of(&self) -> int {
        0
    }

    fn value(&self) -> (r: i32) {
        *self as i32
    }

    fn frac_bits(&self) -> (r: i8) {
        0
    }
}

impl Scaled for i8 {
    open spec fn raw_of(&self) -> int {
        *self as int
    }

    open spec fn frac_of(&self) -> int {
        0
    }

    fn value(&self) -> (r: i32) {
        *self as i32
    }

    fn frac_bits(&self) -> (r: i8) {
        0
    }
}

impl Scaled for u8 {
    open spec fn raw_of(&self) -> int {
        *self as int
    }

    open spec fn frac_of(&self) -> int {
        0
    }

    fn value(&self) -> (r: i32) {
        *self as i32
    }

    fn frac_bits(&self) -> (r: i8) {
        0
    }
}

/// The raw sum in the canonical scale: each operand aligned to 20 fractional bits, then added,
/// wrapping to 32 bits.
pub open spec fn add_raw(l: int, lb: int, r: int, rb: int) -> int {
    wrap32(shift_spec(l, lb - FRAC_BITS) + shift_spec(r, rb - FRAC_BITS))
}

/// The raw difference in the canonical scale, aligned as for [`add_raw`].
pub open spec fn sub_raw(l: int, lb: int, r: int, rb: int) -> int {
    wrap32(shift_spec(l, lb - FRAC_BITS) - shift_spec(r, rb - FRAC_BITS))
}

/// The raw product in the canonical scale: the exact product, at `lb + rb` fractional bits,
/// brought to 20 and wrapped to 32 bits.
pub open spec fn mul_raw(l: int, lb: int, r: int, rb: int) -> int {
    wrap32(shift_spec(l * r, lb + rb - FRAC_BITS))
}

/// Integer division rounding toward zero, as Rust's `/` does.
pub open spec fn trunc_div(x: int, d: int) -> int {
    let q = (if x < 0 { -x } else { x }) / (if d < 0 { -d } else { d });
    if (x < 0) == (d < 0) { q } else { -q }
}

/// The remainder of integer division rounding toward zero, with the sign of `x`, as Rust's `%`
/// gives it.
pub open spec fn trunc_rem(x: int, d: int) -> int {
    let r = (if x < 0 { -x } else { x }) % (if d < 0 { -d } else { d });
    if x < 0 { -r } else { r }
}

/// The raw quotient in the canonical scale: `l * 2^32` divided by `r` toward zero, wrapped to
/// 64 bits, at `lb + 32 - rb` fractional bits brought to 20, wrapped to 32 bits.
pub open spec fn div_raw(l: int, lb: int, r: int, rb: int) -> int {
    wrap32(shift_spec(wrap64(trunc_div(l * 0x1_0000_0000, r)), lb + 32 - rb - FRAC_BITS))
}

/// `x` shifted as [`shift`] does, kept to its low 32 bits.
fn shift32(x: i32, s: i32) -> (r: i32)
    ensures
        r as int == wrap32(shift_spec(x as int, s as int)),
{
    let w = shift(x as i64, s);
    proof {
        lemma_i64_as_i32(w);
        lemma_wrap32_of_wrap64(shift_spec(x as int, s as int));
    }
    w as i32
}

fn add_0(l: i32, lb: i8, r: i32, rb: i8) -> (res: Fixed)
    ensures
        res.value == add_raw(l as int, lb as int, r as int, rb as int),
{
    let a = shift32(l, lb as i32 - FRAC_BITS as i32);
    let b = shift32(r, rb as i32 - FRAC_BITS as i32);
    proof {
        let x = shift_spec(l as int, lb - FRAC_BITS);
        let y = shift_spec(r as int, rb - FRAC_BITS);
        lemma_wrapping_add(a, b);
        lemma_wrap32_absorb(x, b as int);
        lemma_wrap32_absorb(y, x);
    }
    Fixed { value: a.wrapping_add(b) }
}

fn sub_0(l: i32, lb: i8, r: i32, rb: i8) -> (res: Fixed)
    ensures
        res.value == sub_raw(l as int, lb as int, r as int, rb as int),
{
    let a = shift32(l, lb as i32 - FRAC_BITS as i32);
    let b = shift32(r, rb as i32 - FRAC_BITS as i32);
    proof {
        let x = shift_spec(l as int, lb - FRAC_BITS);
        let y = shift_spec(r as int, rb - FRAC_BITS);
        lemma_wrapping_sub(a, b);
        lemma_wrap32_absorb(x, -b);
        lemma_wrap32_absorb(-y, x);
        crate::wrap::lemma_wrap32_neg_neg(y);
        lemma_wrap32_absorb(-wrap32(y), x);
    }
    Fixed { value: a.wrapping_sub(b) }
}

fn mul_0(l: i32, lb: i8, r: i32, rb: i8) -> (res: Fixed)
    ensures
        res.value == mul_raw(l as int, lb as int, r as int, rb as int),
{
    assert(-0x4000_0000_0000_0000 <= l as int * r as int <= 0x4000_0000_0000_0000)
        by (nonlinear_arith)
        requires
            i32::MIN <= l <= i32::MAX,
            i32::MIN <= r <= i32::MAX,
    ;
    let intermediate: i64 = l as i64 * r as i64;
    let w = shift(intermediate, lb as i32 + rb as i32 - FRAC_BITS as i32);
    proof {
        lemma_i64_as_i32(w);
        lemma_wrap32_of_wrap64(shift_spec(l * r, lb + rb - FRAC_BITS));
    }
    Fixed { value: w as i32 }
}

fn div_0(l: i32, lb: i8, r: i32, rb: i8) -> (res: Result<Fixed, FixedError>)
    ensures
        r == 0 ==> res == Err::<Fixed, FixedError>(FixedError::DivisionByZero),
        r != 0 ==> res == Ok::<Fixed, FixedError>(
            Fixed { value: div_raw(l as int, lb as int, r as int, rb as int) as i32 },
        ),
        r != 0 ==> i32::MIN <= div_raw(l as int, lb as int, r as int, rb as int) <= i32::MAX,
{
    if r == 0 {
        return Err(FixedError::DivisionByZero);
    }
    let n: i64 = l as i64;
    proof {
        lemma_shl_is_mul(n, 32);
        lemma2_to64();
        lemma_wrap64_small(l * 0x1_0000_0000);
    }
    let numerator: i64 = n << 32u32;
    let ghost t = trunc_div(numerator as int, r as int);
    let intermediate: i64 = match numerator.checked_div(r as i64) {
        Some(q) => q,
        None => i64::MIN,
    };
    proof {
        let an = if numerator < 0 { -numerator } else { numerator as int };
        let ad = if r < 0 { -r } else { r as int };
        assert(an / ad <= an) by (nonlinear_arith)
            requires
                an >= 0,
                ad >= 1,
        ;
        assert(an / ad >= 0) by (nonlinear_arith)
            requires
                an >= 0,
                ad >= 1,
        ;
        if i64::MIN <= t <= i64::MAX {
            lemma_wrap64_small(t);
        } else {
            assert(t == 0x8000_0000_0000_0000);
            lemma_wrap64_add_multiple(t - 0x1_0000_0000_0000_0000, 1);
            lemma_wrap64_small(t - 0x1_0000_0000_0000_0000);
        }
        assert(intermediate == wrap64(t));
    }
    let w = shift(intermediate, lb as i32 + 32 - rb as i32 - FRAC_BITS as i32);
    proof {
        lemma_i64_as_i32(w);
        lemma_wrap32_of_wrap64(shift_spec(intermediate as int, lb + 32 - rb - FRAC_BITS));
        crate::wrap::lemma_wrap32_offset(shift_spec(intermediate as int, lb + 32 - rb - FRAC_BITS));
    }
    Ok(Fixed { value: w as i32 })
}

/// `l + r` in the canonical scale, for operands at any scales.
pub fn fixed_add<L: Scaled, R: Scaled>(l: L, r: R) -> (res: Fixed)
    ensures
        res.value == add_raw(l.raw_of(), l.frac_of(), r.raw_of(), r.frac_of()),
{
    add_0(l.value(), l.frac_bits(), r.value(), r.frac_bits())
}

/// `l - r` in the canonical scale, for operands at any scales.
pub fn fixed_sub<L: Scaled, R: Scaled>(l: L, r: R) -> (res: Fixed)
    ensures
        res.value == sub_raw(l.raw_of(), l.frac_of(), r.raw_of(), r.frac_of()),
{
    sub_0(l.value(), l.frac_bits(), r.value(), r.frac_bits())
}

/// `l * r` in the canonical scale, for operands at any scales.
pub fn fixed_mul<L: Scaled, R: Scaled>(l: L, r: R) -> (res: Fixed)
    ensures
        res.value == mul_raw(l.raw_of(), l.frac_of(), r.raw_of(), r.frac_of()),
{
    mul_0(l.value(), l.frac_bits(), r.value(), r.frac_bits())
}

/// `l / r` in the canonical scale, for operands at any scales; fails when `r` is zero.
pub fn fixed_div<L: Scaled, R: Scaled>(l: L, r: R) -> (res: Result<Fixed, FixedError>)
    ensures
        r.raw_of() == 0 ==> res == Err::<Fixed, FixedError>(FixedError::DivisionByZero),
        r.raw_of() != 0 ==> res == Ok::<Fixed, FixedError>(
            Fixed { value: div_raw(l.raw_of(), l.frac_of(), r.raw_of(), r.frac_of()) as i32 },
        ),
        r.raw_of() != 0 ==> i32::MIN <= div_raw(l.raw_of(), l.frac_of(), r.raw_of(), r.frac_of())
            <= i32::MAX,
{
    div_0(l.value(), l.frac_bits(), r.value(), r.frac_bits())
}

} // verus!

verus! {

/// Raw sum of two canonical values.
pub open spec fn fx_add(a: int, b: int) -> int {
    add_raw(a, FRAC_BITS as int, b, FRAC_BITS as int)
}

/// Raw difference of two canonical values.
pub open spec fn fx_sub(a: int, b: int) -> int {
    sub_raw(a, FRAC_BITS as int, b, FRAC_BITS as int)
}

/// Raw product of two canonical values.
pub open spec fn fx_mul(a: int, b: int) -> int {
    mul_raw(a, FRAC_BITS as int, b, FRAC_BITS as int)
}

} // verus!
