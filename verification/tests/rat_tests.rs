use cubic_spline::error::SplineError;
use cubic_spline::rat::Rat;

#[test]
fn exact_arithmetic() {
    let a = Rat::new(1, 3);
    let b = Rat::new(1, 6);
    assert!(a.add(&b).unwrap().equals(&Rat::new(1, 2)));
    assert!(a.sub(&b).unwrap().equals(&Rat::new(1, 6)));
    assert!(a.mul(&b).unwrap().equals(&Rat::new(1, 18)));
    assert!(a.div(&b).unwrap().equals(&Rat::from_int(2)));
    assert!(a.neg().equals(&Rat::new(-1, 3)));
    assert!(b.lt(&a));
    assert!(!a.lt(&b));
    assert!(Rat::from_int(0).is_zero());
    assert!(!a.is_zero());
}

#[test]
fn results_are_reduced() {
    let (n, d) = Rat::new(4, 8).num_den();
    assert_eq!(n, 1);
    assert_eq!(d, 2);
    let (n2, d2) = Rat::new(-6, 4).num_den();
    assert_eq!(n2, -3);
    assert_eq!(d2, 2);
}

#[test]
fn division_by_negative_keeps_denominator_positive() {
    let q = Rat::from_int(3).div(&Rat::from_int(-2)).unwrap();
    let (n, d) = q.num_den();
    assert_eq!(n, -3);
    assert_eq!(d, 2);
}

#[test]
fn overflow_reported() {
    let big = Rat::from_int(9_000_000_000_000_000_000);
    assert_eq!(big.add(&big).err().unwrap(), SplineError::Overflow);
    assert_eq!(big.mul(&big).err().unwrap(), SplineError::Overflow);
}
