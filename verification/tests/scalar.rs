//! Scalars against the doubles they encode.

use ordered_float::OrderedFloat;
use roundness::scalar::{Scalar, BINADE, INFINITY_BITS, MAX_BITS, NAN_RANK, ONE_BITS, SIGN_BIT, TOP_POWER_BITS};

fn scalar(x: f64) -> Scalar {
    Scalar::from_bits(x.to_bits())
}

fn samples() -> Vec<f64> {
    vec![
        f64::NEG_INFINITY,
        -f64::MAX,
        -1.0e300,
        -2.5,
        -1.0,
        -0.5,
        -f64::MIN_POSITIVE,
        -5.0e-324,
        -0.0,
        0.0,
        5.0e-324,
        f64::MIN_POSITIVE,
        0.25,
        0.5,
        1.0,
        1.0000000000000002,
        2.0,
        1.0e300,
        f64::MAX,
        f64::INFINITY,
        f64::NAN,
        -f64::NAN,
        f64::from_bits(0x7FF0_0000_0000_0001),
        f64::from_bits(0xFFFF_FFFF_FFFF_FFFF),
    ]
}

#[test]
fn patterns_round_trip() {
    for x in samples() {
        assert_eq!(scalar(x).to_bits(), x.to_bits());
        assert_eq!(Scalar::from_bits(x.to_bits()).bits, x.to_bits());
    }
}

#[test]
fn constants_are_the_patterns_they_name() {
    assert_eq!(SIGN_BIT, (-0.0f64).to_bits());
    assert_eq!(INFINITY_BITS, f64::INFINITY.to_bits());
    assert_eq!(MAX_BITS, f64::MAX.to_bits());
    assert_eq!(ONE_BITS, 1.0f64.to_bits());
    assert_eq!(TOP_POWER_BITS, 2.0f64.powi(1023).to_bits());
    assert_eq!(BINADE, 2.0f64.to_bits() - 1.0f64.to_bits());
    assert_eq!(NAN_RANK, scalar(f64::INFINITY).key() + 1);
    assert_eq!(Scalar::zero().to_bits(), 0.0f64.to_bits());
    assert_eq!(Scalar::max_finite().to_bits(), f64::MAX.to_bits());
}

#[test]
fn keys_order_as_ordered_floats_do() {
    let all = samples();
    for &a in all.iter() {
        for &b in all.iter() {
            let by_key = scalar(a).key() < scalar(b).key();
            let by_float = OrderedFloat(a) < OrderedFloat(b);
            assert_eq!(by_key, by_float, "{:?} < {:?}", a, b);
            let same_key = scalar(a).key() == scalar(b).key();
            let same_float = OrderedFloat(a) == OrderedFloat(b);
            assert_eq!(same_key, same_float, "{:?} == {:?}", a, b);
        }
    }
}

#[test]
fn keys_order_arbitrary_patterns_as_ordered_floats_do() {
    // A fixed walk through the patterns: a linear congruential generator.
    let mut state: u64 = 0x9E37_79B9_7F4A_7C15;
    let mut last = f64::from_bits(state);
    for _ in 0..20000 {
        state = state.wrapping_mul(6364136223846793005).wrapping_add(1442695040888963407);
        let next = f64::from_bits(state);
        let by_key = scalar(last).key() < scalar(next).key();
        assert_eq!(by_key, OrderedFloat(last) < OrderedFloat(next), "{:?} < {:?}", last, next);
        let same_key = scalar(last).key() == scalar(next).key();
        assert_eq!(same_key, OrderedFloat(last) == OrderedFloat(next), "{:?} == {:?}", last, next);
        last = next;
    }
}

#[test]
fn both_zeros_have_key_zero() {
    assert_eq!(scalar(0.0).key(), 0);
    assert_eq!(scalar(-0.0).key(), 0);
}

#[test]
fn known_keys() {
    assert_eq!(scalar(1.0).key(), 0x3FF0_0000_0000_0000);
    assert_eq!(scalar(-1.0).key(), -0x3FF0_0000_0000_0000);
    assert_eq!(scalar(f64::INFINITY).key(), 0x7FF0_0000_0000_0000);
    assert_eq!(scalar(f64::NEG_INFINITY).key(), -0x7FF0_0000_0000_0000);
    assert_eq!(scalar(f64::NAN).key(), NAN_RANK);
    assert_eq!(scalar(-f64::NAN).key(), NAN_RANK);
    assert_eq!(scalar(5.0e-324).key(), 1);
}

#[test]
fn classes_are_those_of_the_double() {
    for x in samples() {
        let s = scalar(x);
        assert_eq!(s.is_nan(), x.is_nan(), "{:?}", x);
        assert_eq!(s.is_finite(), x.is_finite(), "{:?}", x);
        assert_eq!(s.is_zero(), x == 0.0, "{:?}", x);
        assert_eq!(s.is_distance(), x.is_finite() && x >= 0.0, "{:?}", x);
    }
}

#[test]
fn classes_of_arbitrary_patterns_are_those_of_the_double() {
    let mut state: u64 = 0x0123_4567_89AB_CDEF;
    for _ in 0..20000 {
        state = state.wrapping_mul(6364136223846793005).wrapping_add(1442695040888963407);
        let x = f64::from_bits(state);
        let s = Scalar::from_bits(state);
        assert_eq!(s.is_nan(), x.is_nan());
        assert_eq!(s.is_finite(), x.is_finite());
        assert_eq!(s.is_zero(), x == 0.0);
        assert_eq!(s.is_distance(), x.is_finite() && x >= 0.0);
    }
}
