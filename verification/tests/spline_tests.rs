use cubic_spline::error::SplineError;
use cubic_spline::rat::Rat;
use cubic_spline::spline::{
    build, create_cubic_spline_clamped, create_cubic_spline_natural, BoundaryMode,
};

fn pts_int(data: &[(i64, i64)]) -> Vec<(Rat, Rat)> {
    data.iter().map(|&(t, y)| (Rat::from_int(t), Rat::from_int(y))).collect()
}

#[test]
fn interpolates_samples_natural() {
    let data = pts_int(&[(0, 0), (1, 3), (2, 1), (3, 2), (4, 2)]);
    let s = create_cubic_spline_natural(&data).unwrap();
    for (t, y) in data.iter() {
        assert!(s.calc(t).unwrap().equals(y));
    }
}

#[test]
fn concrete_scenario_endpoints() {
    let data = pts_int(&[(0, 0), (1, 3), (2, 1), (3, 2), (4, 2)]);
    let s = create_cubic_spline_natural(&data).unwrap();
    assert!(s.calc(&Rat::from_int(0)).unwrap().equals(&Rat::from_int(0)));
    assert!(s.calc(&Rat::from_int(4)).unwrap().equals(&Rat::from_int(2)));
    assert!(s.calc(&Rat::from_int(1)).unwrap().equals(&Rat::from_int(3)));
    assert!(s.calc(&Rat::from_int(2)).unwrap().equals(&Rat::from_int(1)));
    assert!(s.calc(&Rat::from_int(3)).unwrap().equals(&Rat::from_int(2)));
}

#[test]
fn c2_continuity_at_interior_breakpoints() {
    let data = pts_int(&[(0, 0), (1, 3), (2, 1), (3, 2), (4, 2)]);
    let s = create_cubic_spline_natural(&data).unwrap();
    for i in 1..data.len() - 1 {
        let t = &data[i].0;
        let left = s.section(i - 1);
        let right = s.section(i);
        assert!(left.calc(t).unwrap().equals(&right.calc(t).unwrap()));
        assert!(left.calc_der(t).unwrap().equals(&right.calc_der(t).unwrap()));
        assert!(left.calc_der2(t).unwrap().equals(&right.calc_der2(t).unwrap()));
    }
}

#[test]
fn natural_boundary_second_derivative_zero() {
    let data = pts_int(&[(0, 0), (1, 3), (2, 1), (3, 2), (4, 2)]);
    let s = create_cubic_spline_natural(&data).unwrap();
    assert!(s.calc_der2(&Rat::from_int(0)).unwrap().is_zero());
    assert!(s.calc_der2(&Rat::from_int(4)).unwrap().is_zero());
}

#[test]
fn clamped_boundary_first_derivative_pinned() {
    let data = pts_int(&[(0, 0), (1, 3), (2, 1), (3, 2), (4, 2)]);
    let d0 = Rat::new(-3, 2);
    let d1 = Rat::from_int(2);
    let s = create_cubic_spline_clamped(&data, d0, d1).unwrap();
    assert!(s.calc_der(&Rat::from_int(0)).unwrap().equals(&d0));
    assert!(s.calc_der(&Rat::from_int(4)).unwrap().equals(&d1));
}

#[test]
fn clamped_interpolates_samples() {
    let data = pts_int(&[(0, 5), (2, 1), (3, 4), (7, 0)]);
    let s = create_cubic_spline_clamped(&data, Rat::from_int(0), Rat::from_int(0)).unwrap();
    for (t, y) in data.iter() {
        assert!(s.calc(t).unwrap().equals(y));
    }
}

#[test]
fn colinear_points_reduce_to_line() {
    let data = pts_int(&[(0, 0), (1, 1), (2, 2), (3, 3)]);
    let s = create_cubic_spline_natural(&data).unwrap();
    let x = Rat::new(3, 2);
    assert!(s.calc(&x).unwrap().equals(&x));
    for q in [Rat::new(1, 2), Rat::new(5, 2), Rat::from_int(-1), Rat::from_int(7)] {
        assert!(s.calc_der2(&q).unwrap().is_zero());
        assert!(s.calc_der(&q).unwrap().equals(&Rat::from_int(1)));
        let v = s.calc(&q).unwrap();
        assert!(v.equals(&q));
    }
}

#[test]
fn fractional_samples_interpolated() {
    let data = vec![
        (Rat::new(1, 2), Rat::new(-7, 3)),
        (Rat::new(5, 4), Rat::new(2, 5)),
        (Rat::new(9, 4), Rat::new(1, 7)),
        (Rat::from_int(3), Rat::new(11, 2)),
    ];
    let s = create_cubic_spline_natural(&data).unwrap();
    for (t, y) in data.iter() {
        assert!(s.calc(t).unwrap().equals(y));
    }
}

#[test]
fn rejects_two_points() {
    let data = pts_int(&[(0, 0), (1, 1)]);
    assert_eq!(
        build(&data, BoundaryMode::Natural).err().unwrap(),
        SplineError::InsufficientPoints
    );
}

#[test]
fn rejects_non_monotonic_abscissas() {
    let data = pts_int(&[(0, 0), (1, 1), (1, 2), (2, 3)]);
    assert_eq!(
        build(&data, BoundaryMode::Natural).err().unwrap(),
        SplineError::NonMonotonicInput
    );
    assert_eq!(
        build(&data, BoundaryMode::Clamped(Rat::from_int(0), Rat::from_int(1))).err().unwrap(),
        SplineError::NonMonotonicInput
    );
}

#[test]
fn extrapolation_uses_outermost_segments() {
    let data = pts_int(&[(0, 0), (1, 1), (2, 2), (3, 3)]);
    let s = create_cubic_spline_natural(&data).unwrap();
    // co-linear data keeps even the extrapolated values on the line
    assert!(s.calc(&Rat::from_int(-2)).unwrap().equals(&Rat::from_int(-2)));
    assert!(s.calc(&Rat::from_int(10)).unwrap().equals(&Rat::from_int(10)));
}

#[test]
fn three_point_natural_middle_second_derivative() {
    // h0 = 1, h1 = 2, slopes 2 and -1/2: the single interior unknown is
    // 6*(b1 - b0) / (2*(h0 + h1)) = -5/2
    let data = pts_int(&[(0, 0), (1, 2), (3, 1)]);
    let s = create_cubic_spline_natural(&data).unwrap();
    assert!(s.calc_der2(&Rat::from_int(1)).unwrap().equals(&Rat::new(-5, 2)));
    assert!(s.calc_der2(&Rat::from_int(0)).unwrap().is_zero());
    assert!(s.calc_der2(&Rat::from_int(3)).unwrap().is_zero());
    for (t, y) in data.iter() {
        assert!(s.calc(t).unwrap().equals(y));
    }
}
