//! The bit-level numeric model against real binary64 arithmetic.

use graphing_calculator::ieee::{
    abs_bits, bits_eq, bits_le, bits_lt, finite_bits, ge_zero_bits, int_bits, nan_bits,
    neg_bits, negate_bits, zero_bits, E_BITS, HALF_BITS, INF_BITS, NEG_ONE_BITS, NEG_TWO_BITS,
    ONE_BITS, PI_BITS, TWO_BITS, ZERO_BITS,
};
use graphing_calculator::sets::{compare_values, ComparisonOperator};

fn samples() -> Vec<f64> {
    vec![
        0.0,
        -0.0,
        1.0,
        -1.0,
        0.5,
        -0.5,
        2.0,
        -2.0,
        3.5,
        1e-308,
        -1e-308,
        5e-324,
        -5e-324,
        1e308,
        -1e308,
        f64::INFINITY,
        f64::NEG_INFINITY,
        f64::NAN,
        -f64::NAN,
        std::f64::consts::PI,
        std::f64::consts::E,
        123456789.0,
        -0.1,
        0.1,
    ]
}

#[test]
fn named_constants_encode_their_values() {
    assert_eq!(f64::from_bits(ZERO_BITS), 0.0);
    assert_eq!(f64::from_bits(ONE_BITS), 1.0);
    assert_eq!(f64::from_bits(NEG_ONE_BITS), -1.0);
    assert_eq!(f64::from_bits(TWO_BITS), 2.0);
    assert_eq!(f64::from_bits(NEG_TWO_BITS), -2.0);
    assert_eq!(f64::from_bits(HALF_BITS), 0.5);
    assert_eq!(f64::from_bits(PI_BITS), std::f64::consts::PI);
    assert_eq!(f64::from_bits(E_BITS), std::f64::consts::E);
    assert_eq!(f64::from_bits(INF_BITS), f64::INFINITY);
}

#[test]
fn classification_matches_ieee() {
    for x in samples() {
        let b = x.to_bits();
        assert_eq!(nan_bits(b), x.is_nan(), "is_nan at {x}");
        assert_eq!(zero_bits(b), x == 0.0, "is_zero at {x}");
        assert_eq!(finite_bits(b), x.is_finite(), "is_finite at {x}");
        assert_eq!(neg_bits(b), x < 0.0, "lt zero at {x}");
        assert_eq!(ge_zero_bits(b), x >= 0.0, "ge zero at {x}");
    }
}

#[test]
fn comparisons_match_ieee() {
    for a in samples() {
        for b in samples() {
            let (ba, bb) = (a.to_bits(), b.to_bits());
            assert_eq!(bits_eq(ba, bb), a == b, "eq at {a} {b}");
            assert_eq!(bits_lt(ba, bb), a < b, "lt at {a} {b}");
            assert_eq!(bits_le(ba, bb), a <= b, "le at {a} {b}");
        }
    }
}

#[test]
fn six_operators_match_ieee() {
    for a in samples() {
        for b in samples() {
            let (ba, bb) = (a.to_bits(), b.to_bits());
            assert_eq!(compare_values(ba, bb, ComparisonOperator::LessThan), a < b);
            assert_eq!(compare_values(ba, bb, ComparisonOperator::LessThanOrEqual), a <= b);
            assert_eq!(compare_values(ba, bb, ComparisonOperator::Equal), a == b);
            assert_eq!(compare_values(ba, bb, ComparisonOperator::GreaterThanOrEqual), a >= b);
            assert_eq!(compare_values(ba, bb, ComparisonOperator::GreaterThan), a > b);
            assert_eq!(compare_values(ba, bb, ComparisonOperator::NotEqual), a != b);
        }
    }
}

#[test]
fn negation_and_absolute_value_are_bit_operations() {
    for x in samples() {
        let b = x.to_bits();
        assert_eq!(negate_bits(b), (-x).to_bits(), "negate at {x}");
        assert_eq!(abs_bits(b), x.abs().to_bits(), "abs at {x}");
    }
}

#[test]
fn integer_detection_matches_fract() {
    for x in samples() {
        let b = x.to_bits();
        let expected = x.is_finite() && x.fract() == 0.0;
        assert_eq!(int_bits(b), expected, "is_int at {x}");
    }
    // The even-denominator boundary cases of the power domain rule.
    assert!(int_bits(3.0f64.to_bits()));
    assert!(int_bits((-7.0f64).to_bits()));
    assert!(int_bits(9.007199254740992e15f64.to_bits()));
    assert!(!int_bits(0.5f64.to_bits()));
    assert!(!int_bits(1.5f64.to_bits()));
    assert!(!int_bits((1.0f64 / 3.0).to_bits()));
    assert!(!int_bits(f64::NAN.to_bits()));
    assert!(!int_bits(f64::INFINITY.to_bits()));
}
