//! Exact rational arithmetic: construction, reduction, comparison, and
//! the overflow report.

use simplex_lp::error::LpError;
use simplex_lp::rational::Rat;

fn r(n: i64, d: i64) -> Rat {
    Rat::new(n, d)
}

#[test]
fn construction_reduces() {
    let x = Rat::new(2, 4);
    assert_eq!(x.num(), 1);
    assert_eq!(x.den(), 2);
    let y = Rat::new(-6, 9);
    assert_eq!(y.num(), -2);
    assert_eq!(y.den(), 3);
}

#[test]
fn negative_denominator_normalizes() {
    let x = Rat::new(1, -2);
    assert_eq!(x.num(), -1);
    assert_eq!(x.den(), 2);
    let y = Rat::new(-3, -6);
    assert_eq!(y.num(), 1);
    assert_eq!(y.den(), 2);
}

#[test]
fn from_int_and_zero() {
    let x = Rat::from_int(7);
    assert_eq!(x.num(), 7);
    assert_eq!(x.den(), 1);
    assert!(Rat::zero().is_zero());
    assert!(!Rat::one().is_zero());
}

#[test]
fn every_zero_representation_is_zero() {
    assert!(Rat::new(0, 5).is_zero());
    assert!(Rat::new(0, -5).is_zero());
    assert_eq!(Rat::new(0, -5), Rat::zero());
    assert_eq!(Rat::new(0, 3), Rat::new(0, 17));
}

#[test]
fn equality_is_by_value() {
    assert_eq!(r(1, 2), r(2, 4));
    assert_eq!(r(-1, 2), r(1, -2));
    assert_ne!(r(1, 2), r(1, 3));
}

#[test]
fn addition_exact() {
    let s = r(1, 2).add(r(1, 3)).unwrap();
    assert_eq!(s.num(), 5);
    assert_eq!(s.den(), 6);
    let z = r(1, 2).add(r(-1, 2)).unwrap();
    assert!(z.is_zero());
}

#[test]
fn subtraction_exact() {
    let d = r(3, 4).sub(r(1, 4)).unwrap();
    assert_eq!(d.num(), 1);
    assert_eq!(d.den(), 2);
}

#[test]
fn multiplication_reduces() {
    let p = r(2, 3).mul(r(3, 4)).unwrap();
    assert_eq!(p.num(), 1);
    assert_eq!(p.den(), 2);
}

#[test]
fn division_exact() {
    let q = r(1, 2).div(r(3, 4)).unwrap();
    assert_eq!(q.num(), 2);
    assert_eq!(q.den(), 3);
    let qn = r(1, 2).div(r(-3, 4)).unwrap();
    assert_eq!(qn.num(), -2);
    assert_eq!(qn.den(), 3);
}

#[test]
fn negation_and_abs() {
    let x = r(-3, 7);
    assert_eq!(x.neg().num(), 3);
    assert_eq!(x.abs().num(), 3);
    assert_eq!(x.abs().den(), 7);
}

#[test]
fn comparison() {
    assert!(r(1, 3).lt(r(1, 2)));
    assert!(!r(1, 2).lt(r(1, 3)));
    assert!(r(-1, 2).lt(Rat::zero()));
    assert!(r(1, 2).le(r(2, 4)));
    assert!(!r(2, 3).le(r(1, 2)));
}

#[test]
fn addition_overflow_reported() {
    let big = Rat::from_int(i64::MAX);
    assert_eq!(big.add(big), Err(LpError::ArithmeticOverflow));
}

#[test]
fn near_limit_sums_that_reduce_still_fit() {
    // 1/2 + 1/2 has a wide intermediate but reduces to 1.
    let s = r(1, 2).add(r(1, 2)).unwrap();
    assert_eq!(s, Rat::one());
}
