use fixed_point::{fixed_add, fixed_div, fixed_mul, fixed_sub, Fixed, FixedError, GivenScale, Scaled};

const SAMPLES: [i32; 12] = [
    0, 1, -1, 100, -100, 0x10_0000, -0x10_0000, 3294199, -6588397, 123456789, i32::MAX, i32::MIN,
];

#[test]
fn integer_round_trip() {
    for i in -2048..=2047 {
        assert_eq!(Fixed::from_i32(i).to_i32(), i);
    }
}

#[test]
fn from_i32_wraps_outside_range() {
    assert_eq!(Fixed::from_i32(2048).value, i32::MIN);
    assert_eq!(Fixed::from_i32(3).value, 3 << 20);
}

#[test]
fn to_i32_floors() {
    assert_eq!(Fixed::from_raw(-(3 << 19)).to_i32(), -2);
    assert_eq!(Fixed::from_raw(3 << 19).to_i32(), 1);
}

#[test]
fn add_zero_is_identity() {
    for v in SAMPLES {
        let x = Fixed::from_raw(v);
        assert_eq!(fixed_add(x, Fixed::zero()), x);
    }
}

#[test]
fn add_negation_is_zero() {
    for v in SAMPLES {
        let x = Fixed::from_raw(v);
        assert_eq!(fixed_add(x, x.negate()), Fixed::zero());
    }
}

#[test]
fn mul_one_is_identity() {
    for v in SAMPLES {
        let x = Fixed::from_raw(v);
        assert_eq!(fixed_mul(x, Fixed::one()), x);
    }
}

#[test]
fn cross_scale_matches_manual_rescale() {
    let c = Fixed::from_raw(12345);
    let coarse = GivenScale { raw_value: 3, frac_bits: 4 };
    let coarse_canon = Fixed::from_raw(3 << 16);
    assert_eq!(fixed_add(c, coarse), fixed_add(c, coarse_canon));
    assert_eq!(fixed_add(coarse, c), fixed_add(coarse_canon, c));
    assert_eq!(fixed_sub(c, coarse), fixed_sub(c, coarse_canon));
    assert_eq!(fixed_add(c, coarse).value, 208953);
    let fine = GivenScale { raw_value: 40, frac_bits: 23 };
    let fine_canon = Fixed::from_raw(5);
    assert_eq!(fixed_add(c, fine), fixed_add(c, fine_canon));
    assert_eq!(fixed_sub(fine, c), fixed_sub(fine_canon, c));
    assert_eq!(fixed_add(c, fine).value, 12350);
}

#[test]
fn integer_operands() {
    assert_eq!(fixed_add(3i32, 4i32), Fixed::from_i32(7));
    assert_eq!(fixed_mul(3u8, 4i16), Fixed::from_i32(12));
    assert_eq!(fixed_sub(5u16, Fixed::half()).value, 4718592);
    assert_eq!(fixed_mul(Fixed::from_raw(3 << 19), -2i8).value, -3145728);
    assert_eq!(fixed_add(1u32, Fixed::one()), Fixed::from_i32(2));
}

#[test]
fn u32_operand_wraps() {
    assert_eq!(u32::MAX.value(), -1);
    assert_eq!(u32::MAX.frac_bits(), 0);
    assert_eq!(fixed_add(u32::MAX, Fixed::zero()), Fixed::from_i32(-1));
}

#[test]
fn division_values() {
    assert_eq!(fixed_div(Fixed::one(), 2i32), Ok(Fixed::half()));
    assert_eq!(fixed_div(Fixed::from_i32(3), Fixed::half()), Ok(Fixed::from_i32(6)));
    assert_eq!(fixed_div(1i32, 3i32), Ok(Fixed::from_raw(349525)));
    assert_eq!(fixed_div(Fixed::from_i32(-7), Fixed::from_i32(2)), Ok(Fixed::from_raw(-3670016)));
}

#[test]
fn division_by_zero_fails() {
    assert_eq!(fixed_div(Fixed::one(), 0i32), Err(FixedError::DivisionByZero));
    assert_eq!(fixed_div(Fixed::one(), Fixed::zero()), Err(FixedError::DivisionByZero));
    let z = GivenScale { raw_value: 0, frac_bits: 8 };
    assert_eq!(fixed_div(3u8, z), Err(FixedError::DivisionByZero));
}

#[test]
fn decimal_pi_and_doubling() {
    let pi = Fixed::from_decimal(314159265, 8);
    assert!((pi.value - Fixed::pi().value).abs() <= 1);
    assert_eq!(pi.value, 3294198);
    let tau = fixed_mul(Fixed::pi(), 2i32);
    assert!((tau.value - Fixed::tau().value).abs() <= 1);
}

#[test]
fn decimal_values() {
    assert_eq!(Fixed::from_decimal(25, 1), Fixed::from_raw(2621440));
    assert_eq!(Fixed::from_decimal(7, 0), Fixed::from_i32(7));
    assert_eq!(Fixed::from_decimal(5, 19), Fixed::zero());
    assert_eq!(Fixed::from_decimal(-15, 1), Fixed::from_raw(-1572864));
    assert_eq!(Fixed::from_decimal(-1, 3), Fixed::from_raw(-1049));
    assert_eq!(Fixed::from_decimal(i32::MAX, 20), Fixed::zero());
    assert_eq!(Fixed::from_decimal(i32::MIN, 400), Fixed::zero());
    assert_eq!(Fixed::from_decimal(i32::MIN, 19), Fixed::zero());
    assert_eq!(Fixed::from_decimal(i32::MIN, 18), Fixed::from_raw(-1));
}

#[test]
fn from_int_widths() {
    assert_eq!(Fixed::from_int(7u8), Fixed::from_i32(7));
    assert_eq!(Fixed::from_int(-300i16), Fixed::from_i32(-300));
    assert_eq!(Fixed::from_int(1000u16), Fixed::from_i32(1000));
}

#[test]
fn clamp_rejects_inverted_range() {
    for v in SAMPLES {
        assert_eq!(Fixed::from_raw(v).clamp_i32(5, 3), Err(FixedError::InvalidRange));
    }
}

#[test]
fn clamp_values() {
    assert_eq!(Fixed::from_i32(10).clamp_i32(-2, 3), Ok(Fixed::from_i32(3)));
    assert_eq!(Fixed::from_i32(-10).clamp_i32(-2, 3), Ok(Fixed::from_i32(-2)));
    assert_eq!(Fixed::half().clamp_i32(-2, 3), Ok(Fixed::half()));
    assert_eq!(Fixed::half().clamp_i32(1, 1), Ok(Fixed::one()));
}

#[test]
fn negate_and_abs() {
    assert_eq!(Fixed::half().negate().value, -524288);
    assert_eq!(Fixed::from_raw(i32::MIN).negate().value, i32::MIN);
    assert_eq!(Fixed::from_raw(-77).abs().value, 77);
    assert_eq!(Fixed::from_raw(77).abs().value, 77);
}

#[test]
fn constants_and_scale() {
    assert_eq!(Fixed::one().value, 1 << 20);
    assert_eq!(Fixed::zero().value, 0);
    assert_eq!(Fixed::half().value, 1 << 19);
    assert_eq!(Fixed::e().value, 2850325);
    assert_eq!(Fixed::hpi().value, 1647099);
    assert_eq!(Fixed::one().frac_bits(), 20);
    let g = GivenScale { raw_value: -9, frac_bits: 3 };
    assert_eq!(g.value(), -9);
    assert_eq!(g.frac_bits(), 3);
    assert!(Fixed::pi() < Fixed::tau());
}

#[test]
fn operators_match_functions() {
    let a = Fixed::from_raw(3 << 19);
    let b = Fixed::from_raw(-(5 << 18));
    assert_eq!(a + b, fixed_add(a, b));
    assert_eq!(a - b, fixed_sub(a, b));
    assert_eq!(a * b, fixed_mul(a, b));
    assert_eq!(a / b, fixed_div(a, b));
    assert_eq!(a + 2i32, Fixed::from_raw(7 << 19));
    assert_eq!((a * 4u8).value, 6 << 20);
    let g = GivenScale { raw_value: 3, frac_bits: 1 };
    assert_eq!(g + a, Fixed::from_i32(3));
    assert_eq!(g * 2u16, Fixed::from_i32(3));
    assert_eq!(g - 1i8, Fixed::half());
    assert_eq!(g / Fixed::half(), Ok(Fixed::from_i32(3)));
    assert_eq!(a / 0i16, Err(FixedError::DivisionByZero));
}

#[test]
fn remainder_values() {
    let seven = Fixed::from_i32(7);
    let two = Fixed::from_i32(2);
    assert_eq!(seven % two, Ok(Fixed::one()));
    assert_eq!(seven.negate() % two, Ok(Fixed::one().negate()));
    assert_eq!(Fixed::from_raw(i32::MIN) % Fixed::from_raw(-1), Ok(Fixed::zero()));
    assert_eq!(seven % Fixed::zero(), Err(FixedError::DivisionByZero));
}
