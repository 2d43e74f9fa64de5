use bevy_ui_render::scalar::Scalar;

fn scalar(value: f32) -> Scalar {
    Scalar { bits: value.to_bits() }
}

fn samples() -> Vec<f32> {
    vec![
        f32::NEG_INFINITY,
        f32::MIN,
        -2.5,
        -1.0,
        -f32::MIN_POSITIVE,
        -f32::from_bits(1),
        -0.0,
        0.0,
        f32::from_bits(1),
        f32::from_bits(0x007f_ffff),
        f32::MIN_POSITIVE,
        0.1,
        1.0,
        1.0000001,
        16777216.0,
        f32::MAX,
        f32::INFINITY,
        f32::NAN,
        -f32::NAN,
    ]
}

#[test]
fn zero_of_either_sign_is_zero() {
    assert!(Scalar::zero().is_zero());
    assert!(scalar(-0.0).is_zero());
    assert!(!scalar(f32::from_bits(1)).is_zero());
    assert!(!scalar(f32::NAN).is_zero());
    for value in samples() {
        assert_eq!(scalar(value).is_zero(), value == 0.0);
    }
}

#[test]
fn abs_drops_the_sign() {
    for value in samples() {
        assert_eq!(scalar(value).abs().bits, value.abs().to_bits());
    }
    assert_eq!(scalar(-2.5).abs(), scalar(2.5));
    assert_eq!(scalar(2.5).abs(), scalar(2.5));
}

#[test]
fn numbers_below_zero() {
    for value in samples() {
        assert_eq!(scalar(value).is_below_zero(), value < 0.0);
    }
}

#[test]
fn one_is_one() {
    assert_eq!(Scalar::one(), scalar(1.0));
}

#[test]
fn order_key_orders_values() {
    for a in samples() {
        for b in samples() {
            assert_eq!(scalar(a).at_least(scalar(b)), a >= b);
        }
    }
}

#[test]
fn nothing_compares_with_what_is_no_number() {
    assert!(scalar(f32::NAN).is_nan());
    assert!(!scalar(f32::INFINITY).is_nan());
    assert!(!scalar(f32::NAN).at_least(scalar(0.0)));
    assert!(!scalar(0.0).at_least(scalar(f32::NAN)));
    assert!(!scalar(f32::NAN).at_least(scalar(f32::NAN)));
}

#[test]
fn parts_are_the_larger_and_the_smaller_of_a_number_and_zero() {
    for value in samples() {
        let positive = f32::from_bits(scalar(value).positive_part().bits);
        let negative = f32::from_bits(scalar(value).negative_part().bits);
        assert_eq!(positive, f32::max(value, 0.0));
        assert_eq!(negative, f32::min(value, 0.0));
    }
    assert_eq!(scalar(2.5).positive_part(), scalar(2.5));
    assert_eq!(scalar(2.5).negative_part(), scalar(0.0));
    assert_eq!(scalar(-2.5).positive_part(), scalar(0.0));
    assert_eq!(scalar(-2.5).negative_part(), scalar(-2.5));
}
