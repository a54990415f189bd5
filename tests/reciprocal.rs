use fixed_point::{fixed_mul, Fixed, FixedError};

#[test]
fn inverse_of_zero_is_zero() {
    assert_eq!(Fixed::zero().inverse(), Ok(Fixed::zero()));
}

#[test]
fn inverse_of_one_is_one() {
    assert_eq!(Fixed::one().inverse(), Ok(Fixed::one()));
    assert_eq!(Fixed::one().negate().inverse(), Ok(Fixed::one().negate()));
}

#[test]
fn inverse_saturates_near_zero() {
    assert_eq!(Fixed::from_raw(256).inverse(), Ok(Fixed::from_raw(i32::MAX)));
    assert_eq!(Fixed::from_raw(-1).inverse(), Ok(Fixed::from_raw(-i32::MAX)));
}

#[test]
fn inverse_fails_to_converge() {
    assert_eq!(Fixed::from_raw(300).inverse(), Err(FixedError::ConvergenceFailure));
    assert_eq!(Fixed::from_raw(-512).inverse(), Err(FixedError::ConvergenceFailure));
}

#[test]
fn inverse_round_trip_below_one() {
    let one = Fixed::one().value;
    let mut v = 513;
    while v < one {
        let x = Fixed::from_raw(v);
        let inv = x.inverse().unwrap();
        assert!((fixed_mul(x, inv).value - one).abs() < 256, "raw {}", v);
        let neg = x.negate().inverse().unwrap();
        assert_eq!(neg, inv.negate());
        v += 1031;
    }
}

#[test]
fn inverse_values() {
    assert_eq!(Fixed::half().negate().inverse(), Ok(Fixed::from_raw(-2097151)));
    assert_eq!(Fixed::from_i32(2).inverse(), Ok(Fixed::from_raw(524032)));
    assert_eq!(Fixed::from_i32(3).inverse(), Ok(Fixed::from_raw(349440)));
    assert_eq!(Fixed::from_i32(-3).inverse(), Ok(Fixed::from_raw(-349440)));
    assert_eq!(Fixed::from_raw(4096).inverse(), Ok(Fixed::from_raw(268435710)));
}

#[test]
fn inv_i32_values() {
    assert_eq!(Fixed::inv_i32(0), Fixed::zero());
    assert_eq!(Fixed::inv_i32(1), Fixed::one());
    assert_eq!(Fixed::inv_i32(-1), Fixed::one().negate());
    assert_eq!(Fixed::inv_i32(4).value, 262016);
    assert_eq!(Fixed::inv_i32(3).value, 349440);
    assert_eq!(Fixed::inv_i32(-2).value, -524032);
    assert_eq!(Fixed::inv_i32(1 << 21), Fixed::zero());
    assert_eq!(Fixed::inv_i32(i32::MIN), Fixed::zero());
}

#[test]
fn inv_i32_matches_inverse_of_integer() {
    for d in [2, 3, 5, 7, 100, 1000, -9] {
        assert_eq!(Ok(Fixed::inv_i32(d)), Fixed::from_i32(d).inverse());
    }
}
