use cubic_spline::grid::linspace;
use cubic_spline::rat::Rat;

#[test]
fn it_works() {
}

#[test]
fn linspace_endpoints_and_spacing() {
    let pts = linspace(&Rat::from_int(0), &Rat::from_int(1), 5).unwrap();
    assert_eq!(pts.len(), 5);
    assert!(pts[0].equals(&Rat::from_int(0)));
    assert!(pts[1].equals(&Rat::new(1, 4)));
    assert!(pts[2].equals(&Rat::new(1, 2)));
    assert!(pts[3].equals(&Rat::new(3, 4)));
    assert!(pts[4].equals(&Rat::from_int(1)));
}

#[test]
fn linspace_descending_range() {
    let pts = linspace(&Rat::from_int(1), &Rat::from_int(-1), 3).unwrap();
    assert_eq!(pts.len(), 3);
    assert!(pts[0].equals(&Rat::from_int(1)));
    assert!(pts[1].equals(&Rat::from_int(0)));
    assert!(pts[2].equals(&Rat::from_int(-1)));
}
