use fixed_point::{fixed_sub, Fixed};

fn to_f32(x: Fixed) -> f32 {
    x.value as f32 / (1u32 << 20) as f32
}

#[test]
fn sine_accuracy_over_a_turn() {
    let tau = Fixed::tau().value as i64;
    for k in 0..=10_000i64 {
        let t = Fixed::from_raw((tau * k / 10_000) as i32);
        let err = (to_f32(t.sin()) - to_f32(t).sin()).abs();
        assert!(err < 1e-5, "angle {} error {}", t.value, err);
    }
}

#[test]
fn sine_values() {
    assert_eq!(Fixed::zero().sin(), Fixed::zero());
    assert_eq!(Fixed::pi().sin(), Fixed::zero());
    assert_eq!(Fixed::hpi().sin().value, 1048579);
    assert_eq!(fixed_sub(Fixed::tau(), Fixed::hpi()).sin().value, -1048579);
    assert_eq!(Fixed::one().sin().value, 882345);
}

#[test]
fn sine_reflection_about_quarter_turn() {
    let pi = Fixed::pi().value;
    let mut t = 0;
    while t <= pi {
        let x = Fixed::from_raw(t);
        let reflected = fixed_sub(Fixed::pi(), x).sin();
        assert!((reflected.value - x.sin().value).abs() <= 1);
        t += 997;
    }
    for t in [Fixed::hpi().value, Fixed::hpi().value + 1] {
        let x = Fixed::from_raw(t);
        assert!((fixed_sub(Fixed::pi(), x).sin().value - x.sin().value).abs() <= 1);
    }
}

#[test]
fn sine_half_turn_negates() {
    let pi = Fixed::pi().value;
    let mut t = pi + 1;
    while t <= 2 * pi {
        let x = Fixed::from_raw(t);
        assert_eq!(x.sin(), fixed_sub(x, Fixed::pi()).sin().negate());
        t += 1013;
    }
}

#[test]
fn sine_dimless_values() {
    assert_eq!(Fixed::zero().sin_dimless(), Fixed::zero());
    assert_eq!(Fixed::from_raw(262144).sin_dimless(), Fixed::one());
    assert_eq!(Fixed::from_raw(524288 + 262144).sin_dimless(), Fixed::one().negate());
    assert_eq!(Fixed::from_raw(131072).sin_dimless().value, 741774);
}
