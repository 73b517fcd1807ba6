use earbuddy::single::Single;

fn values() -> Vec<f32> {
    vec![
        0.0,
        -0.0,
        1.0,
        -1.0,
        0.3,
        0.30000004,
        0.7,
        -0.7,
        f32::MIN_POSITIVE,
        1.0e-45,
        -1.0e-45,
        f32::MAX,
        f32::MIN,
        f32::INFINITY,
        f32::NEG_INFINITY,
        f32::NAN,
        -f32::NAN,
    ]
}

fn single(value: f32) -> Single {
    Single { bits: value.to_bits() }
}

#[test]
fn comparisons_are_those_of_floats() {
    for a in values() {
        for b in values() {
            assert_eq!(single(a).is_above(single(b)), a > b, "{} {}", a, b);
            assert_eq!(single(a).is_at_least(single(b)), a >= b, "{} {}", a, b);
            let larger = f32::from_bits(single(a).max(single(b)).bits);
            let expected = a.max(b);
            assert!(larger == expected || (larger.is_nan() && expected.is_nan()), "{} {}", a, b);
        }
        assert_eq!(single(a).is_nan(), a.is_nan());
    }
}

#[test]
fn being_above_is_an_order() {
    assert!(!single(1.0).is_above(single(1.0)));
    assert!(single(1.0).is_above(single(0.5)));
    assert!(single(0.5).is_above(single(-0.5)));
    assert!(single(1.0).is_above(single(-0.5)));
    assert!(!single(0.0).is_above(single(-0.0)));
    assert!(single(-0.0).is_at_least(single(0.0)));
}

#[test]
fn larger_of_two() {
    assert_eq!(single(0.25).max(single(0.5)), single(0.5));
    assert_eq!(single(0.5).max(single(0.25)), single(0.5));
    assert_eq!(single(f32::NAN).max(single(0.25)), single(0.25));
    assert_eq!(single(0.25).max(single(f32::NAN)), single(0.25));
}
