//! The exact-fraction element type: arithmetic, comparisons and the
//! saturation edge.

use dfdx::Ratio;

#[test]
fn test_exact_fraction_arithmetic() {
    let third = Ratio::new(1, 3);
    let sixth = Ratio::new(1, 6);
    assert_eq!(third.add(sixth), Ratio::new(1, 2));
    assert_eq!(third.sub(sixth), Ratio::new(1, 6));
    assert_eq!(third.mul(sixth), Ratio::new(1, 18));
    assert_eq!(Ratio::from_int(2).mul(Ratio::new(3, 2)), Ratio::from_int(3));
}

#[test]
fn test_value_equality_ignores_representation() {
    assert_eq!(Ratio::new(2, 6), Ratio::new(1, 3));
    assert_eq!(Ratio::new(0, 5), Ratio::zero());
    assert_ne!(Ratio::new(1, 3), Ratio::new(1, 4));
    assert_eq!(Ratio::new(-2, 4), Ratio::new(-1, 2));
}

#[test]
fn test_ordering_and_extremes() {
    let a = Ratio::new(1, 3);
    let b = Ratio::new(1, 2);
    assert!(a.le(b));
    assert!(!b.le(a));
    assert_eq!(a.max(b), b);
    assert_eq!(a.min(b), a);
    assert!(Ratio::most_negative().le(a));
    assert!(a.le(Ratio::most_positive()));
}

#[test]
fn test_addition_saturates_at_the_range_edge() {
    let top = Ratio::from_int(i64::MAX);
    assert_eq!(top.add(Ratio::one()), Ratio::new(i64::MAX, 1));
    let bottom = Ratio::from_int(i64::MIN);
    assert_eq!(bottom.sub(Ratio::one()), Ratio::new(i64::MIN, 1));
}

#[test]
fn test_zero_and_one_are_identities() {
    let v = Ratio::new(-7, 3);
    assert_eq!(v.add(Ratio::zero()), v);
    assert_eq!(v.mul(Ratio::one()), v);
    assert_eq!(v.mul(Ratio::zero()), Ratio::zero());
}
