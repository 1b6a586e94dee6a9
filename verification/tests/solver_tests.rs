use cubic_spline::error::SplineError;
use cubic_spline::rat::Rat;
use cubic_spline::tridiagonal::solve_tridiagonal;

/// A small deterministic linear-congruential generator, enough to vary
/// the test systems.
fn lcg_next(state: &mut u64) -> i64 {
    *state = state.wrapping_mul(6364136223846793005).wrapping_add(1442695040888963407);
    ((*state >> 33) % 9) as i64 - 4
}

#[test]
fn solver_round_trip_random_diagonally_dominant() {
    let mut state: u64 = 0x5eed;
    for trial in 0..6 {
        let m = 3 + (trial % 4);
        let mut a: Vec<Rat> = Vec::new();
        let mut b: Vec<Rat> = Vec::new();
        let mut c: Vec<Rat> = Vec::new();
        let mut d: Vec<Rat> = Vec::new();
        for i in 0..m {
            if i + 1 < m {
                a.push(Rat::from_int(lcg_next(&mut state)));
                c.push(Rat::from_int(lcg_next(&mut state)));
            }
            // main diagonal clearly dominates the off-diagonal entries
            b.push(Rat::from_int(12 + lcg_next(&mut state).abs()));
            d.push(Rat::from_int(lcg_next(&mut state)));
        }
        let z = solve_tridiagonal(&a, &b, &c, &d).unwrap();
        assert_eq!(z.len(), m);
        for i in 0..m {
            let mut row = b[i].mul(&z[i]).unwrap();
            if i > 0 {
                row = row.add(&a[i - 1].mul(&z[i - 1]).unwrap()).unwrap();
            }
            if i + 1 < m {
                row = row.add(&c[i].mul(&z[i + 1]).unwrap()).unwrap();
            }
            assert!(row.equals(&d[i]));
        }
    }
}

#[test]
fn solver_single_row_system() {
    let a: Vec<Rat> = Vec::new();
    let c: Vec<Rat> = Vec::new();
    let b = vec![Rat::from_int(4)];
    let d = vec![Rat::from_int(6)];
    let z = solve_tridiagonal(&a, &b, &c, &d).unwrap();
    assert_eq!(z.len(), 1);
    assert!(z[0].equals(&Rat::new(3, 2)));
}

#[test]
fn solver_zero_pivot_reported() {
    let a = vec![Rat::from_int(1)];
    let c = vec![Rat::from_int(1)];
    let b = vec![Rat::from_int(0), Rat::from_int(2)];
    let d = vec![Rat::from_int(1), Rat::from_int(1)];
    assert_eq!(
        solve_tridiagonal(&a, &b, &c, &d).err().unwrap(),
        SplineError::NumericalInstability
    );
}
