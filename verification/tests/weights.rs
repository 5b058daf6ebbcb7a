use num::complex::Complex64;
use qmdd::weight::{
    is_exactly_zero, is_negligible, one, weights_match, zero, INFINITY_BITS, TOLERANCE_SQUARED,
};

fn c(re: f64, im: f64) -> Complex64 {
    Complex64::new(re, im)
}

#[test]
fn one_and_zero_are_the_constants() {
    assert_eq!(one(), c(1.0, 0.0));
    assert_eq!(zero(), c(0.0, 0.0));
    assert_ne!(one(), zero());
}

#[test]
fn tolerance_squared_is_the_bit_pattern_of_ten_to_the_minus_twenty() {
    assert_eq!(TOLERANCE_SQUARED, 1e-20f64.to_bits());
    assert_eq!(f64::from_bits(TOLERANCE_SQUARED), 1e-20);
    assert_eq!(INFINITY_BITS, f64::INFINITY.to_bits());
    assert!(f64::NAN.to_bits() > INFINITY_BITS);
    assert!(TOLERANCE_SQUARED < INFINITY_BITS);
}

#[test]
fn weights_within_tolerance_match() {
    assert!(weights_match(c(1.0, 0.0), c(1.0, 0.0)));
    assert!(weights_match(c(1.0, 0.0), c(1.0 + 5e-11, 0.0)));
    assert!(weights_match(c(1.0, 2.0), c(1.0, 2.0 - 5e-11)));
    assert!(weights_match(c(0.0, 0.0), c(3e-11, 4e-11)));
}

#[test]
fn weights_beyond_tolerance_differ() {
    assert!(!weights_match(c(1.0, 0.0), c(1.0 + 2e-10, 0.0)));
    assert!(!weights_match(c(1.0, 0.0), c(1.0, 2e-10)));
    assert!(!weights_match(c(1.0, 0.0), c(-1.0, 0.0)));
    assert!(!weights_match(c(0.0, 0.0), c(8e-11, 8e-11)));
}

#[test]
fn tolerance_itself_is_not_below_tolerance() {
    assert!(!weights_match(c(1e-10, 0.0), c(0.0, 0.0)));
    assert!(weights_match(c(0.99e-10, 0.0), c(0.0, 0.0)));
}

#[test]
fn weights_match_takes_the_difference_not_the_operand() {
    // A comparison that looked at the first operand alone would accept this pair.
    assert!(!weights_match(c(0.0, 0.0), c(1.0, 0.0)));
    // And one that looked at magnitudes alone would accept this one.
    assert!(!weights_match(c(1.0, 0.0), c(0.0, 1.0)));
}

#[test]
fn not_a_number_matches_nothing() {
    let nan = c(f64::NAN, 0.0);
    assert!(!weights_match(nan, nan));
    assert!(!weights_match(nan, c(0.0, 0.0)));
    let inf = c(f64::INFINITY, 0.0);
    assert!(!weights_match(inf, inf));
    assert!(!is_negligible(nan));
    assert!(!is_exactly_zero(nan));
}

#[test]
fn weights_match_agrees_with_the_squared_magnitude_of_the_difference() {
    let samples = [
        0.0, -0.0, 1e-300, 5e-324, 9.9e-11, 1e-10, 1.0000000000000002e-10, 1.1e-10, 1e-9, 0.5,
        1.0, -1.0, 1.0 + 1e-10, 1.0 - 1e-10, 1e10, 1e300, f64::MAX,
    ];
    for &a in samples.iter() {
        for &b in samples.iter() {
            for &x in samples.iter() {
                let p = c(a, x);
                let q = c(b, 0.0);
                assert_eq!(weights_match(p, q), (p - q).norm_sqr() < 1e-20, "{:?} {:?}", p, q);
            }
        }
    }
}

#[test]
fn negligible_weights() {
    assert!(is_negligible(c(0.0, 0.0)));
    assert!(is_negligible(c(1e-11, 0.0)));
    assert!(is_negligible(c(0.0, -5e-11)));
    assert!(!is_negligible(c(1e-9, 0.0)));
    assert!(!is_negligible(c(1.0, 0.0)));
}

#[test]
fn exactly_zero_weights() {
    assert!(is_exactly_zero(c(0.0, 0.0)));
    assert!(is_exactly_zero(c(-0.0, 0.0)));
    assert!(is_exactly_zero(c(0.0, -0.0)));
    assert!(!is_exactly_zero(c(5e-324, 0.0)));
    assert!(!is_exactly_zero(c(0.0, 1e-300)));
    assert!(!is_exactly_zero(c(1e-11, 0.0)));
}

#[test]
fn weights_match_agrees_with_the_magnitude_away_from_the_boundary() {
    let samples = [0.0, 1e-300, 9e-11, 1.1e-10, 1e-9, 0.5, 1.0, -1.0, 1e10];
    for &a in samples.iter() {
        for &b in samples.iter() {
            let p = c(a, b);
            let q = c(b, 0.25);
            assert_eq!(weights_match(p, q), (p - q).norm() < 1e-10, "{:?} {:?}", p, q);
        }
    }
}

#[test]
fn tiny_weights_are_negligible_but_not_exactly_zero() {
    // The square of this weight underflows to zero; the weight itself is not zero.
    let tiny = c(1e-200, 0.0);
    assert!(is_negligible(tiny));
    assert!(!is_exactly_zero(tiny));
}
