use resource_learner::binary64::{
    Binary64, HALF_BITS, INFINITY_BITS, NEG_INFINITY_BITS, ONE_BITS, SIGN_BIT, THREE_BITS,
    TWO_BITS, ZERO_BITS,
};
use resource_learner::daemon::FOLLOW_RATE_BITS;
use resource_learner::learner::{
    DISCOUNT_FACTOR_BITS, EXPLORATION_RATE_BITS, LEARNING_RATE_BITS,
};

fn num(v: f64) -> Binary64 {
    Binary64 { bits: v.to_bits() }
}

fn samples() -> Vec<f64> {
    vec![
        0.0,
        -0.0,
        f64::MIN_POSITIVE,
        -f64::MIN_POSITIVE,
        f64::from_bits(1),
        f64::from_bits(SIGN_BIT | 1),
        f64::from_bits(0x000F_FFFF_FFFF_FFFF),
        0.1,
        0.49999999999999994,
        0.5,
        0.5000000000000001,
        0.95,
        1.0,
        1.9999999999999998,
        2.0,
        2.0000000000000004,
        3.0,
        -1.0,
        -2.5,
        1e300,
        -1e300,
        f64::MAX,
        f64::MIN,
        f64::INFINITY,
        f64::NEG_INFINITY,
        f64::NAN,
        f64::from_bits(0xFFF8_0000_0000_0001),
        f64::from_bits(0x7FF0_0000_0000_0001),
    ]
}

#[test]
fn named_patterns_are_the_numbers() {
    assert_eq!(ZERO_BITS, (0.0f64).to_bits());
    assert_eq!(HALF_BITS, (0.5f64).to_bits());
    assert_eq!(ONE_BITS, (1.0f64).to_bits());
    assert_eq!(TWO_BITS, (2.0f64).to_bits());
    assert_eq!(THREE_BITS, (3.0f64).to_bits());
    assert_eq!(INFINITY_BITS, f64::INFINITY.to_bits());
    assert_eq!(NEG_INFINITY_BITS, f64::NEG_INFINITY.to_bits());
    assert_eq!(LEARNING_RATE_BITS, (0.1f64).to_bits());
    assert_eq!(DISCOUNT_FACTOR_BITS, (0.95f64).to_bits());
    assert_eq!(EXPLORATION_RATE_BITS, (0.1f64).to_bits());
    assert_eq!(FOLLOW_RATE_BITS, (0.7f64).to_bits());
}

#[test]
fn lt_agrees_with_the_hardware_on_every_pair() {
    let all = samples();
    for a in all.iter() {
        for b in all.iter() {
            assert_eq!(num(*a).lt(num(*b)), *a < *b, "{:?} < {:?}", a, b);
        }
    }
}

#[test]
fn gt_agrees_with_the_hardware_on_every_pair() {
    let all = samples();
    for a in all.iter() {
        for b in all.iter() {
            assert_eq!(num(*a).gt(num(*b)), *a > *b, "{:?} > {:?}", a, b);
        }
    }
}

#[test]
fn is_nan_agrees_with_the_hardware() {
    for a in samples() {
        assert_eq!(num(a).is_nan(), a.is_nan(), "{:?}", a);
    }
}

#[test]
fn the_two_zeros_are_neither_below_the_other() {
    assert!(!num(0.0).lt(num(-0.0)));
    assert!(!num(-0.0).lt(num(0.0)));
    assert_ne!(num(0.0), num(-0.0));
}

#[test]
fn a_nan_is_below_nothing_and_above_nothing() {
    let nan = num(f64::NAN);
    assert!(!nan.lt(num(1.0)));
    assert!(!num(1.0).lt(nan));
    assert!(!nan.gt(num(f64::NEG_INFINITY)));
    assert!(!nan.lt(nan));
}

#[test]
fn negative_infinity_is_below_every_other_number() {
    let low = num(f64::NEG_INFINITY);
    assert!(low.lt(num(f64::MIN)));
    assert!(low.lt(num(0.0)));
    assert!(low.lt(num(f64::INFINITY)));
    assert!(!low.lt(low));
}
