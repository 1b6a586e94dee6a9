//! Thomas algorithm for tridiagonal linear systems over exact rationals.
//!
//! The system has `m` rows. `b` and `d` hold the main diagonal and the
//! right-hand side (length `m`); `a` and `c` hold the sub- and
//! super-diagonal (length `m - 1`), so row `i` reads
//! `a[i-1]*z[i-1] + b[i]*z[i] + c[i]*z[i+1] == d[i]` with the out-of-range
//! terms absent. The solver's contract states exactly that: substituting
//! the returned vector back into every row reproduces the right-hand side.

use vstd::prelude::*;

use crate::error::SplineError;
use crate::frac::{
    feq, fis_zero, fvalid, fadd, fdiv, fmul, fsub, Frac, lemma_add_congr, lemma_add_assoc,
    lemma_add_comm, lemma_div_congr_right_nz, lemma_div_mul, lemma_feq_refl, lemma_feq_sym,
    lemma_feq_trans, lemma_feq_sign, lemma_feq_zero, lemma_nz_den,
    lemma_mul_assoc, lemma_mul_comm, lemma_mul_congr, lemma_mul_distrib_sub,
    lemma_mul_distrib_sub_right, lemma_pos_den,
    lemma_shuffle_sub, lemma_sub_add_cancel, lemma_sub_congr, lemma_valid_div, lemma_zero_ops,
};
use crate::rat::Rat;

verus! {

/// Every entry is a well-formed rational.
pub open spec fn all_wf(v: Seq<Rat>) -> bool {
    forall|i: int| 0 <= i < v.len() ==> (#[trigger] v[i]).wf()
}

/// Every entry denotes zero.
pub open spec fn all_zero(v: Seq<Rat>) -> bool {
    forall|i: int| 0 <= i < v.len() ==> (#[trigger] v[i])@.n == 0
}

/// The left-hand side of row `i` of the system, applied to `z`.
pub open spec fn row_value(a: Seq<Rat>, b: Seq<Rat>, c: Seq<Rat>, z: Seq<Rat>, i: int) -> Frac
    recommends
        b.len() >= 1,
        a.len() == b.len() - 1,
        c.len() == b.len() - 1,
        z.len() == b.len(),
        0 <= i < b.len(),
{
    let m = b.len() as int;
    if m == 1 {
        fmul(b[0]@, z[0]@)
    } else if i == 0 {
        fadd(fmul(b[0]@, z[0]@), fmul(c[0]@, z[1]@))
    } else if i == m - 1 {
        fadd(fmul(a[i - 1]@, z[i - 1]@), fmul(b[i]@, z[i]@))
    } else {
        fadd(fadd(fmul(a[i - 1]@, z[i - 1]@), fmul(b[i]@, z[i]@)), fmul(c[i]@, z[i + 1]@))
    }
}

/// `z` solves the tridiagonal system: every row reproduces its
/// right-hand side.
pub open spec fn solves_tridiagonal(
    a: Seq<Rat>,
    b: Seq<Rat>,
    c: Seq<Rat>,
    d: Seq<Rat>,
    z: Seq<Rat>,
) -> bool
    recommends
        b.len() >= 1,
        a.len() == b.len() - 1,
        c.len() == b.len() - 1,
        d.len() == b.len(),
{
    &&& z.len() == b.len()
    &&& forall|i: int| 0 <= i < b.len() ==> feq(#[trigger] row_value(a, b, c, z, i), d[i]@)
}

/// The pivot of the forward sweep at row `j`, in terms of the modified
/// super-diagonal entries `cm` already computed.
pub open spec fn fw_pivot(a: Seq<Rat>, b: Seq<Rat>, cm: Seq<Rat>, j: int) -> Frac {
    if j == 0 {
        b[0]@
    } else {
        fsub(b[j]@, fmul(a[j - 1]@, cm[j - 1]@))
    }
}

/// `cm[j]` is the modified super-diagonal entry: `c[j]` divided by the
/// pivot of row `j`.
pub open spec fn cm_ok(a: Seq<Rat>, b: Seq<Rat>, c: Seq<Rat>, cm: Seq<Rat>, j: int) -> bool {
    feq(fmul(cm[j]@, fw_pivot(a, b, cm, j)), c[j]@)
}

/// `dm[j]` is the modified right-hand side: `d[j]` less the eliminated
/// multiple of the previous modified right-hand side, divided by the pivot.
pub open spec fn dm_ok(
    a: Seq<Rat>,
    b: Seq<Rat>,
    d: Seq<Rat>,
    cm: Seq<Rat>,
    dm: Seq<Rat>,
    j: int,
) -> bool {
    feq(
        fmul(dm[j]@, fw_pivot(a, b, cm, j)),
        if j == 0 {
            d[0]@
        } else {
            fsub(d[j]@, fmul(a[j - 1]@, dm[j - 1]@))
        },
    )
}

/// The modified super-diagonal entries of the forward sweep, defined
/// directly over the system's entries.
pub open spec fn sweep_cm(a: Seq<Rat>, b: Seq<Rat>, c: Seq<Rat>, j: int) -> Frac
    decreases j,
{
    if j <= 0 {
        fdiv(c[0]@, b[0]@)
    } else {
        fdiv(c[j]@, fsub(b[j]@, fmul(a[j - 1]@, sweep_cm(a, b, c, j - 1))))
    }
}

/// The pivot of the forward sweep at row `j`, defined directly over the
/// system's entries.
pub open spec fn sweep_pivot(a: Seq<Rat>, b: Seq<Rat>, c: Seq<Rat>, j: int) -> Frac {
    if j <= 0 {
        b[0]@
    } else {
        fsub(b[j]@, fmul(a[j - 1]@, sweep_cm(a, b, c, j - 1)))
    }
}

/// Solve the tridiagonal system `A z == d` by the Thomas algorithm:
/// a forward sweep divides each row by its pivot, a backward sweep
/// substitutes the already-known unknowns.
///
/// On success, substituting the result into every row of the system
/// reproduces the right-hand side exactly; a homogeneous right-hand side
/// yields the zero vector. A zero pivot is reported as
/// `NumericalInstability`, and an intermediate value that no longer fits
/// the machine words as `Overflow`.
pub fn solve_tridiagonal(a: &Vec<Rat>, b: &Vec<Rat>, c: &Vec<Rat>, d: &Vec<Rat>) -> (r: Result<
    Vec<Rat>,
    SplineError,
>)
    requires
        b.len() >= 1,
        a.len() == b.len() - 1,
        c.len() == b.len() - 1,
        d.len() == b.len(),
        all_wf(a@),
        all_wf(b@),
        all_wf(c@),
        all_wf(d@),
    ensures
        r matches Ok(z) ==> {
            &&& z.len() == b.len()
            &&& all_wf(z@)
            &&& solves_tridiagonal(a@, b@, c@, d@, z@)
            &&& (all_zero(d@) ==> all_zero(z@))
        },
        r matches Err(e) ==> e == SplineError::NumericalInstability || e == SplineError::Overflow,
        b@[0]@.n == 0 ==> r == Err::<Vec<Rat>, SplineError>(SplineError::NumericalInstability),
        r == Err::<Vec<Rat>, SplineError>(SplineError::NumericalInstability) ==> exists|j: int|
            0 <= j < b.len() && fis_zero(#[trigger] sweep_pivot(a@, b@, c@, j)),
{
    let m = b.len();
    if b[0].is_zero() {
        proof {
            assert(fis_zero(sweep_pivot(a@, b@, c@, 0)));
        }
        return Err(SplineError::NumericalInstability);
    }
    let mut cm: Vec<Rat> = Vec::new();
    let mut dm: Vec<Rat> = Vec::new();
    let dm0 = d[0].div(&b[0])?;
    proof {
        lemma_div_mul(dm0@, d[0]@, b[0]@);
        lemma_valid_div(d[0]@, b[0]@);
        if all_zero(d@) {
            lemma_zero_ops(d[0]@, b[0]@);
            lemma_feq_zero(dm0@, fdiv(d[0]@, b[0]@));
        }
    }
    dm.push(dm0);
    if m > 1 {
        let cm0 = c[0].div(&b[0])?;
        proof {
            lemma_div_mul(cm0@, c[0]@, b[0]@);
            lemma_valid_div(c[0]@, b[0]@);
        }
        cm.push(cm0);
    }
    let mut i: usize = 1;
    while i < m
        invariant
            1 <= i <= m,
            m == b.len(),
            a.len() == m - 1,
            c.len() == m - 1,
            d.len() == m,
            all_wf(a@),
            all_wf(b@),
            all_wf(c@),
            all_wf(d@),
            b@[0]@.n != 0,
            dm.len() == i,
            cm.len() == (if i < m {
                i as int
            } else {
                i - 1
            }),
            all_wf(cm@),
            all_wf(dm@),
            forall|j: int| 0 <= j < cm.len() ==> cm_ok(a@, b@, c@, cm@, j),
            forall|j: int| 0 <= j < dm.len() ==> dm_ok(a@, b@, d@, cm@, dm@, j),
            forall|j: int| 0 <= j < dm.len() ==> (#[trigger] fw_pivot(a@, b@, cm@, j)).n != 0,
            forall|j: int|
                0 <= j < cm.len() ==> feq((#[trigger] cm@[j])@, sweep_cm(a@, b@, c@, j))
                    && fvalid(sweep_cm(a@, b@, c@, j)) && fvalid(sweep_pivot(a@, b@, c@, j))
                    && !fis_zero(sweep_pivot(a@, b@, c@, j)),
            all_zero(d@) ==> all_zero(dm@),
        decreases m - i,
    {
        let t = a[i - 1].mul(&cm[i - 1])?;
        let piv = b[i].sub(&t)?;
        proof {
            let av = a@[i - 1]@;
            let scm = sweep_cm(a@, b@, c@, i - 1);
            let sp = sweep_pivot(a@, b@, c@, i as int);
            lemma_feq_refl(b@[i as int]@);
            lemma_pos_den(av, cm@[i - 1]@);
            lemma_sub_congr(b@[i as int]@, b@[i as int]@, t@, fmul(av, cm@[i - 1]@));
            lemma_pos_den(b@[i as int]@, t@);
            lemma_feq_trans(
                piv@,
                fsub(b@[i as int]@, t@),
                fsub(b@[i as int]@, fmul(av, cm@[i - 1]@)),
            );
            lemma_feq_refl(av);
            lemma_mul_congr(av, av, cm@[i - 1]@, scm);
            lemma_sub_congr(
                b@[i as int]@,
                b@[i as int]@,
                fmul(av, cm@[i - 1]@),
                fmul(av, scm),
            );
            lemma_pos_den(b@[i as int]@, fmul(av, cm@[i - 1]@));
            lemma_feq_trans(piv@, fsub(b@[i as int]@, fmul(av, cm@[i - 1]@)), sp);
            lemma_nz_den(av, scm);
            lemma_nz_den(b@[i as int]@, fmul(av, scm));
            if piv@.n == 0 {
                lemma_feq_sym(piv@, sp);
                lemma_feq_zero(sp, piv@);
            } else {
                if sp.n == 0 {
                    lemma_feq_zero(piv@, sp);
                }
                assert(!fis_zero(sp));
            }
        }
        if piv.is_zero() {
            proof {
                assert(fis_zero(sweep_pivot(a@, b@, c@, i as int)));
            }
            return Err(SplineError::NumericalInstability);
        }
        let t2 = a[i - 1].mul(&dm[i - 1])?;
        let num = d[i].sub(&t2)?;
        let dmv = num.div(&piv)?;
        let ghost cm_snap = cm@;
        let ghost dm_snap = dm@;
        let ghost fwp = fw_pivot(a@, b@, cm@, i as int);
        proof {
            let av = a@[i - 1]@;
            let cv = cm@[i - 1]@;
            let dv = dm@[i - 1]@;
            lemma_pos_den(av, cv);
            lemma_pos_den(b@[i as int]@, fmul(av, cv));
            lemma_pos_den(av, dv);
            lemma_pos_den(d@[i as int]@, fmul(av, dv));
            // piv denotes the pivot of row i
            lemma_feq_refl(b@[i as int]@);
            lemma_sub_congr(b@[i as int]@, b@[i as int]@, t@, fmul(av, cv));
            lemma_pos_den(b@[i as int]@, t@);
            lemma_feq_trans(piv@, fsub(b@[i as int]@, t@), fwp);
            lemma_feq_sign(piv@, fwp);
            // num denotes d[i] - a[i-1] * dm[i-1]
            lemma_feq_refl(d@[i as int]@);
            lemma_sub_congr(d@[i as int]@, d@[i as int]@, t2@, fmul(av, dv));
            lemma_pos_den(d@[i as int]@, t2@);
            lemma_feq_trans(num@, fsub(d@[i as int]@, t2@), fsub(d@[i as int]@, fmul(av, dv)));
            // dmv * pivot denotes d[i] - a[i-1] * dm[i-1]
            lemma_div_mul(dmv@, num@, piv@);
            lemma_feq_refl(dmv@);
            lemma_mul_congr(dmv@, dmv@, piv@, fwp);
            lemma_feq_sym(fmul(dmv@, piv@), fmul(dmv@, fwp));
            lemma_pos_den(dmv@, piv@);
            lemma_feq_trans(fmul(dmv@, fwp), fmul(dmv@, piv@), num@);
            lemma_feq_trans(fmul(dmv@, fwp), num@, fsub(d@[i as int]@, fmul(av, dv)));
            // a homogeneous right-hand side keeps the sweep at zero
            if all_zero(d@) {
                lemma_zero_ops(av, dv);
                lemma_feq_zero(t2@, fmul(av, dv));
                lemma_zero_ops(d@[i as int]@, t2@);
                lemma_feq_zero(num@, fsub(d@[i as int]@, t2@));
                lemma_zero_ops(num@, piv@);
                lemma_valid_div(num@, piv@);
                lemma_feq_zero(dmv@, fdiv(num@, piv@));
            }
        }
        dm.push(dmv);
        proof {
            assert forall|j: int| 0 <= j < dm.len() implies dm_ok(a@, b@, d@, cm@, dm@, j) by {
                if j < dm.len() - 1 {
                    assert(dm_ok(a@, b@, d@, cm_snap, dm_snap, j));
                    assert(dm@[j] == dm_snap[j]);
                } else {
                    assert(dm@[j] == dmv);
                    assert(dm@[j - 1] == dm_snap[j - 1]);
                }
            }
            assert(fw_pivot(a@, b@, cm@, i as int).n != 0);
        }
        if i < m - 1 {
            let cmv = c[i].div(&piv)?;
            let ghost dm_snap2 = dm@;
            proof {
                lemma_div_mul(cmv@, c@[i as int]@, piv@);
                lemma_feq_refl(cmv@);
                lemma_mul_congr(cmv@, cmv@, piv@, fwp);
                lemma_feq_sym(fmul(cmv@, piv@), fmul(cmv@, fwp));
                lemma_pos_den(cmv@, piv@);
                lemma_feq_trans(fmul(cmv@, fwp), fmul(cmv@, piv@), c@[i as int]@);
                lemma_div_congr_right_nz(
                    cmv@,
                    c@[i as int]@,
                    piv@,
                    sweep_pivot(a@, b@, c@, i as int),
                );
                lemma_valid_div(c@[i as int]@, sweep_pivot(a@, b@, c@, i as int));
            }
            cm.push(cmv);
            proof {
                assert forall|j: int| 0 <= j < cm.len() implies cm_ok(a@, b@, c@, cm@, j) by {
                    if j < cm.len() - 1 {
                        assert(cm_ok(a@, b@, c@, cm_snap, j));
                        assert(cm@[j] == cm_snap[j]);
                        if j > 0 {
                            assert(cm@[j - 1] == cm_snap[j - 1]);
                        }
                    } else {
                        assert(cm@[j] == cmv);
                        assert(cm@[j - 1] == cm_snap[j - 1]);
                    }
                }
                assert forall|j: int| 0 <= j < dm.len() implies dm_ok(a@, b@, d@, cm@, dm@, j) by {
                    assert(dm_ok(a@, b@, d@, cm_snap, dm_snap2, j));
                    assert(dm@[j] == dm_snap2[j]);
                    if j > 0 {
                        assert(cm@[j - 1] == cm_snap[j - 1]);
                        assert(dm@[j - 1] == dm_snap2[j - 1]);
                    }
                }
                assert forall|j: int| 0 <= j < dm.len() implies (#[trigger] fw_pivot(
                    a@,
                    b@,
                    cm@,
                    j,
                )).n != 0 by {
                    assert(fw_pivot(a@, b@, cm_snap, j).n != 0);
                    if j > 0 {
                        assert(cm@[j - 1] == cm_snap[j - 1]);
                    }
                }
                assert forall|j: int|
                    0 <= j < cm.len() implies feq(
                    (#[trigger] cm@[j])@,
                    sweep_cm(a@, b@, c@, j),
                ) && fvalid(sweep_cm(a@, b@, c@, j)) && fvalid(sweep_pivot(a@, b@, c@, j))
                    && !fis_zero(sweep_pivot(a@, b@, c@, j)) by {
                    if j < cm.len() - 1 {
                        assert(cm@[j] == cm_snap[j]);
                    } else {
                        assert(cm@[j] == cmv);
                    }
                }
            }
        }
        proof {
            assert(forall|j: int|
                0 <= j < cm.len() ==> feq((#[trigger] cm@[j])@, sweep_cm(a@, b@, c@, j))
                    && fvalid(sweep_cm(a@, b@, c@, j)) && fvalid(sweep_pivot(a@, b@, c@, j))
                    && !fis_zero(sweep_pivot(a@, b@, c@, j)));
        }
        i += 1;
    }
    // backward sweep, most recent unknown first
    let mut rev: Vec<Rat> = Vec::new();
    rev.push(dm[m - 1]);
    let mut k: usize = 1;
    while k < m
        invariant
            1 <= k <= m,
            m == b.len(),
            a.len() == m - 1,
            c.len() == m - 1,
            d.len() == m,
            all_wf(a@),
            all_wf(b@),
            all_wf(c@),
            all_wf(d@),
            b@[0]@.n != 0,
            dm.len() == m,
            cm.len() == m - 1,
            all_wf(cm@),
            all_wf(dm@),
            forall|j: int| 0 <= j < cm.len() ==> cm_ok(a@, b@, c@, cm@, j),
            forall|j: int| 0 <= j < dm.len() ==> dm_ok(a@, b@, d@, cm@, dm@, j),
            all_zero(d@) ==> all_zero(dm@),
            rev.len() == k,
            all_wf(rev@),
            rev@[0] == dm@[m - 1],
            forall|t: int|
                1 <= t < rev.len() ==> feq(
                    (#[trigger] rev@[t])@,
                    fsub(dm@[m - 1 - t]@, fmul(cm@[m - 1 - t]@, rev@[t - 1]@)),
                ),
            all_zero(d@) ==> all_zero(rev@),
        decreases m - k,
    {
        let t = cm[m - 1 - k].mul(&rev[k - 1])?;
        let zv = dm[m - 1 - k].sub(&t)?;
        let ghost rev_snap = rev@;
        proof {
            let cv = cm@[m - 1 - k]@;
            let pv = rev@[k - 1]@;
            let dv = dm@[m - 1 - k]@;
            lemma_pos_den(cv, pv);
            lemma_pos_den(dv, fmul(cv, pv));
            lemma_feq_refl(dv);
            lemma_sub_congr(dv, dv, t@, fmul(cv, pv));
            lemma_pos_den(dv, t@);
            lemma_feq_trans(zv@, fsub(dv, t@), fsub(dv, fmul(cv, pv)));
            if all_zero(d@) {
                lemma_zero_ops(cv, pv);
                lemma_feq_zero(t@, fmul(cv, pv));
                lemma_zero_ops(dv, t@);
                lemma_feq_zero(zv@, fsub(dv, t@));
            }
        }
        rev.push(zv);
        proof {
            assert forall|t: int|
                1 <= t < rev.len() implies feq(
                (#[trigger] rev@[t])@,
                fsub(dm@[m - 1 - t]@, fmul(cm@[m - 1 - t]@, rev@[t - 1]@)),
            ) by {
                if t < rev.len() - 1 {
                    assert(rev@[t] == rev_snap[t]);
                    assert(rev@[t - 1] == rev_snap[t - 1]);
                } else {
                    assert(rev@[t] == zv);
                    assert(rev@[t - 1] == rev_snap[t - 1]);
                }
            }
        }
        k += 1;
    }
    // reverse into natural order
    let mut z: Vec<Rat> = Vec::new();
    let mut k2: usize = 0;
    while k2 < m
        invariant
            0 <= k2 <= m,
            m == b.len(),
            rev.len() == m,
            all_wf(rev@),
            z.len() == k2,
            forall|j: int| 0 <= j < z.len() ==> #[trigger] z@[j] == rev@[m - 1 - j],
        decreases m - k2,
    {
        z.push(rev[m - 1 - k2]);
        k2 += 1;
    }
    proof {
        assert forall|j: int| 0 <= j < z.len() implies (#[trigger] z@[j]).wf() by {
            assert(z@[j] == rev@[m - 1 - j]);
        }
        if all_zero(d@) {
            assert forall|j: int| 0 <= j < z.len() implies (#[trigger] z@[j])@.n == 0 by {
                assert(z@[j] == rev@[m - 1 - j]);
            }
        }
        assert forall|row: int| 0 <= row < b.len() implies feq(
            #[trigger] row_value(a@, b@, c@, z@, row),
            d@[row]@,
        ) by {
            lemma_solution_row(a@, b@, c@, d@, cm@, dm@, rev@, z@, row);
        }
    }
    Ok(z)
}

/// After both sweeps, every row of the system is satisfied: the backward
/// relations turn the per-row pivot equations into the row equations.
proof fn lemma_solution_row(
    a: Seq<Rat>,
    b: Seq<Rat>,
    c: Seq<Rat>,
    d: Seq<Rat>,
    cm: Seq<Rat>,
    dm: Seq<Rat>,
    rev: Seq<Rat>,
    z: Seq<Rat>,
    row: int,
)
    requires
        b.len() >= 1,
        a.len() == b.len() - 1,
        c.len() == b.len() - 1,
        d.len() == b.len(),
        all_wf(a),
        all_wf(b),
        all_wf(c),
        all_wf(d),
        dm.len() == b.len(),
        cm.len() == b.len() - 1,
        all_wf(cm),
        all_wf(dm),
        forall|j: int| 0 <= j < cm.len() ==> cm_ok(a, b, c, cm, j),
        forall|j: int| 0 <= j < dm.len() ==> dm_ok(a, b, d, cm, dm, j),
        rev.len() == b.len(),
        all_wf(rev),
        rev[0] == dm[b.len() - 1],
        forall|t: int|
            1 <= t < rev.len() ==> feq(
                (#[trigger] rev[t])@,
                fsub(dm[b.len() - 1 - t]@, fmul(cm[b.len() - 1 - t]@, rev[t - 1]@)),
            ),
        z.len() == b.len(),
        forall|j: int| 0 <= j < z.len() ==> #[trigger] z[j] == rev[b.len() - 1 - j],
        0 <= row < b.len(),
    ensures
        feq(row_value(a, b, c, z, row), d[row]@),
{
    let m = b.len() as int;
    assert forall|j: int| 0 <= j < m - 1 implies feq(
        (#[trigger] z[j])@,
        fsub(dm[j]@, fmul(cm[j]@, z[j + 1]@)),
    ) by {
        let t = m - 1 - j;
        assert(z[j] == rev[t]);
        assert(z[j + 1] == rev[t - 1]);
        assert(feq(rev[t]@, fsub(dm[m - 1 - t]@, fmul(cm[m - 1 - t]@, rev[t - 1]@))));
    }
    assert(z[m - 1] == dm[m - 1]);
    lemma_feq_refl(z[m - 1]@);
    if m == 1 {
        assert(dm_ok(a, b, d, cm, dm, 0));
        lemma_row_single(b[0]@, d[0]@, dm[0]@, z[0]@);
    } else if row == 0 {
        assert(cm_ok(a, b, c, cm, 0));
        assert(dm_ok(a, b, d, cm, dm, 0));
        lemma_row_start(b[0]@, c[0]@, d[0]@, dm[0]@, cm[0]@, z[0]@, z[1]@);
    } else if row == m - 1 {
        assert(dm_ok(a, b, d, cm, dm, m - 1));
        lemma_row_last(
            a[m - 2]@,
            b[m - 1]@,
            d[m - 1]@,
            cm[m - 2]@,
            dm[m - 2]@,
            dm[m - 1]@,
            z[m - 2]@,
            z[m - 1]@,
        );
    } else {
        assert(cm_ok(a, b, c, cm, row));
        assert(dm_ok(a, b, d, cm, dm, row));
        lemma_row_interior(
            a[row - 1]@,
            b[row]@,
            c[row]@,
            d[row]@,
            cm[row - 1]@,
            dm[row - 1]@,
            cm[row]@,
            dm[row]@,
            z[row - 1]@,
            z[row]@,
            z[row + 1]@,
        );
    }
}

/// Multiplying the eliminated row by `a`: from
/// `z1 == dm1 - cm1 * z2` follows `a * z1 == a * dm1 - (a * cm1) * z2`.
proof fn lemma_elim_prev(a: Frac, dm1: Frac, cm1: Frac, z1: Frac, z2: Frac)
    requires
        a.d > 0,
        dm1.d > 0,
        cm1.d > 0,
        z1.d > 0,
        z2.d > 0,
        feq(z1, fsub(dm1, fmul(cm1, z2))),
    ensures
        feq(fmul(a, z1), fsub(fmul(a, dm1), fmul(fmul(a, cm1), z2))),
{
    let t1 = fmul(a, fsub(dm1, fmul(cm1, z2)));
    let t2 = fsub(fmul(a, dm1), fmul(a, fmul(cm1, z2)));
    lemma_feq_refl(a);
    lemma_mul_congr(a, a, z1, fsub(dm1, fmul(cm1, z2)));
    lemma_mul_distrib_sub(a, dm1, fmul(cm1, z2));
    lemma_mul_assoc(a, cm1, z2);
    lemma_feq_sym(fmul(fmul(a, cm1), z2), fmul(a, fmul(cm1, z2)));
    lemma_feq_refl(fmul(a, dm1));
    lemma_sub_congr(fmul(a, dm1), fmul(a, dm1), fmul(a, fmul(cm1, z2)), fmul(fmul(a, cm1), z2));
    lemma_pos_den(cm1, z2);
    lemma_pos_den(dm1, fmul(cm1, z2));
    lemma_pos_den(a, fsub(dm1, fmul(cm1, z2)));
    lemma_pos_den(a, dm1);
    lemma_pos_den(a, fmul(cm1, z2));
    lemma_pos_den(fmul(a, dm1), fmul(a, fmul(cm1, z2)));
    lemma_feq_trans(fmul(a, z1), t1, t2);
    lemma_feq_trans(
        fmul(a, z1),
        t2,
        fsub(fmul(a, dm1), fmul(fmul(a, cm1), z2)),
    );
}

/// Row of a one-row system: from `dm0 * b0 == d0` and `z0 == dm0` follows
/// `b0 * z0 == d0`.
proof fn lemma_row_single(b0: Frac, d0: Frac, dm0: Frac, z0: Frac)
    requires
        b0.d > 0,
        d0.d > 0,
        dm0.d > 0,
        z0.d > 0,
        feq(fmul(dm0, b0), d0),
        feq(z0, dm0),
    ensures
        feq(fmul(b0, z0), d0),
{
    lemma_feq_refl(b0);
    lemma_mul_congr(b0, b0, z0, dm0);
    lemma_mul_comm(b0, dm0);
    lemma_pos_den(b0, dm0);
    lemma_pos_den(dm0, b0);
    lemma_feq_trans(fmul(b0, z0), fmul(b0, dm0), fmul(dm0, b0));
    lemma_feq_trans(fmul(b0, z0), fmul(dm0, b0), d0);
}

/// First row of a multi-row system.
proof fn lemma_row_start(b0: Frac, c0: Frac, d0: Frac, dm0: Frac, cm0: Frac, z0: Frac, z1: Frac)
    requires
        b0.d > 0,
        c0.d > 0,
        d0.d > 0,
        dm0.d > 0,
        cm0.d > 0,
        z0.d > 0,
        z1.d > 0,
        feq(fmul(dm0, b0), d0),
        feq(fmul(cm0, b0), c0),
        feq(z0, fsub(dm0, fmul(cm0, z1))),
    ensures
        feq(fadd(fmul(b0, z0), fmul(c0, z1)), d0),
{
    // b0 * z0 == b0 * dm0 - (b0 * cm0) * z1
    lemma_elim_prev(b0, dm0, cm0, z0, z1);
    // b0 * dm0 == d0
    lemma_mul_comm(b0, dm0);
    lemma_pos_den(b0, dm0);
    lemma_pos_den(dm0, b0);
    lemma_feq_trans(fmul(b0, dm0), fmul(dm0, b0), d0);
    // (b0 * cm0) * z1 == c0 * z1
    lemma_mul_comm(b0, cm0);
    lemma_pos_den(b0, cm0);
    lemma_pos_den(cm0, b0);
    lemma_feq_trans(fmul(b0, cm0), fmul(cm0, b0), c0);
    lemma_feq_refl(z1);
    lemma_mul_congr(fmul(b0, cm0), c0, z1, z1);
    // so b0 * z0 == d0 - c0 * z1
    lemma_sub_congr(fmul(b0, dm0), d0, fmul(fmul(b0, cm0), z1), fmul(c0, z1));
    lemma_pos_den(fmul(b0, cm0), z1);
    lemma_pos_den(fmul(b0, dm0), fmul(fmul(b0, cm0), z1));
    lemma_pos_den(c0, z1);
    lemma_feq_trans(
        fmul(b0, z0),
        fsub(fmul(b0, dm0), fmul(fmul(b0, cm0), z1)),
        fsub(d0, fmul(c0, z1)),
    );
    // add c0 * z1 back on both sides
    lemma_feq_refl(fmul(c0, z1));
    lemma_add_congr(fmul(b0, z0), fsub(d0, fmul(c0, z1)), fmul(c0, z1), fmul(c0, z1));
    lemma_sub_add_cancel(d0, fmul(c0, z1));
    lemma_pos_den(b0, z0);
    lemma_pos_den(d0, fmul(c0, z1));
    lemma_pos_den(fsub(d0, fmul(c0, z1)), fmul(c0, z1));
    lemma_feq_trans(
        fadd(fmul(b0, z0), fmul(c0, z1)),
        fadd(fsub(d0, fmul(c0, z1)), fmul(c0, z1)),
        d0,
    );
}

/// Last row of a multi-row system.
proof fn lemma_row_last(
    a: Frac,
    b: Frac,
    d: Frac,
    cm1: Frac,
    dm1: Frac,
    dm2: Frac,
    z1: Frac,
    z2: Frac,
)
    requires
        a.d > 0,
        b.d > 0,
        d.d > 0,
        cm1.d > 0,
        dm1.d > 0,
        dm2.d > 0,
        z1.d > 0,
        z2.d > 0,
        feq(fmul(dm2, fsub(b, fmul(a, cm1))), fsub(d, fmul(a, dm1))),
        feq(z1, fsub(dm1, fmul(cm1, z2))),
        feq(z2, dm2),
    ensures
        feq(fadd(fmul(a, z1), fmul(b, z2)), d),
{
    let p = fmul(a, cm1);
    let piv = fsub(b, p);
    let x = fmul(a, dm1);
    lemma_pos_den(a, cm1);
    lemma_pos_den(b, p);
    lemma_pos_den(a, dm1);
    lemma_pos_den(a, z1);
    lemma_pos_den(b, z2);
    lemma_pos_den(p, z2);
    lemma_pos_den(piv, z2);
    lemma_pos_den(piv, dm2);
    lemma_pos_den(dm2, piv);
    lemma_pos_den(x, fmul(p, z2));
    lemma_pos_den(fmul(b, z2), fmul(p, z2));
    lemma_pos_den(d, x);
    // a * z1 == x - p * z2
    lemma_elim_prev(a, dm1, cm1, z1, z2);
    // (a*z1) + (b*z2) == (x - p*z2) + b*z2 == x + (b*z2 - p*z2)
    lemma_feq_refl(fmul(b, z2));
    lemma_add_congr(fmul(a, z1), fsub(x, fmul(p, z2)), fmul(b, z2), fmul(b, z2));
    lemma_shuffle_sub(x, fmul(p, z2), fmul(b, z2));
    lemma_pos_den(fsub(x, fmul(p, z2)), fmul(b, z2));
    lemma_feq_trans(
        fadd(fmul(a, z1), fmul(b, z2)),
        fadd(fsub(x, fmul(p, z2)), fmul(b, z2)),
        fadd(x, fsub(fmul(b, z2), fmul(p, z2))),
    );
    // b*z2 - p*z2 == piv * z2 == piv * dm2 == dm2 * piv == d - x
    lemma_mul_distrib_sub_right(b, p, z2);
    lemma_feq_sym(fmul(piv, z2), fsub(fmul(b, z2), fmul(p, z2)));
    lemma_feq_refl(piv);
    lemma_mul_congr(piv, piv, z2, dm2);
    lemma_mul_comm(piv, dm2);
    lemma_feq_trans(fmul(piv, z2), fmul(piv, dm2), fmul(dm2, piv));
    lemma_feq_trans(fmul(piv, z2), fmul(dm2, piv), fsub(d, x));
    lemma_feq_trans(fsub(fmul(b, z2), fmul(p, z2)), fmul(piv, z2), fsub(d, x));
    // so the sum is x + (d - x) == d
    lemma_feq_refl(x);
    lemma_add_congr(x, x, fsub(fmul(b, z2), fmul(p, z2)), fsub(d, x));
    lemma_pos_den(x, fsub(fmul(b, z2), fmul(p, z2)));
    lemma_feq_trans(
        fadd(fmul(a, z1), fmul(b, z2)),
        fadd(x, fsub(fmul(b, z2), fmul(p, z2))),
        fadd(x, fsub(d, x)),
    );
    lemma_add_comm(x, fsub(d, x));
    lemma_sub_add_cancel(d, x);
    lemma_pos_den(x, fsub(d, x));
    lemma_pos_den(fsub(d, x), x);
    lemma_feq_trans(fadd(x, fsub(d, x)), fadd(fsub(d, x), x), d);
    lemma_feq_trans(fadd(fmul(a, z1), fmul(b, z2)), fadd(x, fsub(d, x)), d);
}

/// Interior row of a multi-row system.
proof fn lemma_row_interior(
    a: Frac,
    b: Frac,
    c: Frac,
    d: Frac,
    cm1: Frac,
    dm1: Frac,
    cm2: Frac,
    dm2: Frac,
    z1: Frac,
    z2: Frac,
    z3: Frac,
)
    requires
        a.d > 0,
        b.d > 0,
        c.d > 0,
        d.d > 0,
        cm1.d > 0,
        dm1.d > 0,
        cm2.d > 0,
        dm2.d > 0,
        z1.d > 0,
        z2.d > 0,
        z3.d > 0,
        feq(fmul(cm2, fsub(b, fmul(a, cm1))), c),
        feq(fmul(dm2, fsub(b, fmul(a, cm1))), fsub(d, fmul(a, dm1))),
        feq(z1, fsub(dm1, fmul(cm1, z2))),
        feq(z2, fsub(dm2, fmul(cm2, z3))),
    ensures
        feq(fadd(fadd(fmul(a, z1), fmul(b, z2)), fmul(c, z3)), d),
{
    let p = fmul(a, cm1);
    let piv = fsub(b, p);
    let x = fmul(a, dm1);
    let y3 = fmul(c, z3);
    lemma_pos_den(a, cm1);
    lemma_pos_den(b, p);
    lemma_pos_den(a, dm1);
    lemma_pos_den(a, z1);
    lemma_pos_den(b, z2);
    lemma_pos_den(c, z3);
    lemma_pos_den(p, z2);
    lemma_pos_den(piv, z2);
    lemma_pos_den(x, fmul(p, z2));
    lemma_pos_den(fmul(b, z2), fmul(p, z2));
    lemma_pos_den(fmul(a, z1), fmul(b, z2));
    lemma_pos_den(d, x);
    // a * z1 == x - p * z2, so the two left terms regroup around the pivot:
    // (a*z1 + b*z2) == x + (b*z2 - p*z2)
    lemma_elim_prev(a, dm1, cm1, z1, z2);
    lemma_feq_refl(fmul(b, z2));
    lemma_add_congr(fmul(a, z1), fsub(x, fmul(p, z2)), fmul(b, z2), fmul(b, z2));
    lemma_shuffle_sub(x, fmul(p, z2), fmul(b, z2));
    lemma_pos_den(fsub(x, fmul(p, z2)), fmul(b, z2));
    lemma_feq_trans(
        fadd(fmul(a, z1), fmul(b, z2)),
        fadd(fsub(x, fmul(p, z2)), fmul(b, z2)),
        fadd(x, fsub(fmul(b, z2), fmul(p, z2))),
    );
    // b*z2 - p*z2 == piv * z2
    lemma_mul_distrib_sub_right(b, p, z2);
    lemma_feq_sym(fmul(piv, z2), fsub(fmul(b, z2), fmul(p, z2)));
    // piv * z2 == piv*dm2 - piv*(cm2*z3) == (d - x) - c*z3
    lemma_elim_prev(piv, dm2, cm2, z2, z3);
    lemma_pos_den(piv, dm2);
    lemma_pos_den(dm2, piv);
    lemma_pos_den(piv, cm2);
    lemma_pos_den(cm2, piv);
    lemma_pos_den(fmul(piv, cm2), z3);
    lemma_pos_den(fmul(piv, dm2), fmul(fmul(piv, cm2), z3));
    lemma_mul_comm(piv, dm2);
    lemma_feq_trans(fmul(piv, dm2), fmul(dm2, piv), fsub(d, x));
    lemma_mul_comm(piv, cm2);
    lemma_feq_trans(fmul(piv, cm2), fmul(cm2, piv), c);
    lemma_feq_refl(z3);
    lemma_mul_congr(fmul(piv, cm2), c, z3, z3);
    lemma_sub_congr(fmul(piv, dm2), fsub(d, x), fmul(fmul(piv, cm2), z3), y3);
    lemma_pos_den(d, x);
    lemma_pos_den(fsub(d, x), y3);
    lemma_feq_trans(
        fmul(piv, z2),
        fsub(fmul(piv, dm2), fmul(fmul(piv, cm2), z3)),
        fsub(fsub(d, x), y3),
    );
    lemma_feq_trans(fsub(fmul(b, z2), fmul(p, z2)), fmul(piv, z2), fsub(fsub(d, x), y3));
    // (a*z1 + b*z2) == x + ((d - x) - c*z3)
    lemma_feq_refl(x);
    lemma_add_congr(x, x, fsub(fmul(b, z2), fmul(p, z2)), fsub(fsub(d, x), y3));
    lemma_pos_den(x, fsub(fmul(b, z2), fmul(p, z2)));
    lemma_feq_trans(
        fadd(fmul(a, z1), fmul(b, z2)),
        fadd(x, fsub(fmul(b, z2), fmul(p, z2))),
        fadd(x, fsub(fsub(d, x), y3)),
    );
    // whole row: (x + ((d-x) - c*z3)) + c*z3 == d
    let s1 = fsub(d, x);
    lemma_feq_refl(y3);
    lemma_add_congr(
        fadd(fmul(a, z1), fmul(b, z2)),
        fadd(x, fsub(s1, y3)),
        y3,
        y3,
    );
    lemma_add_comm(x, fsub(s1, y3));
    lemma_pos_den(s1, y3);
    lemma_pos_den(x, fsub(s1, y3));
    lemma_pos_den(fsub(s1, y3), x);
    lemma_shuffle_sub(s1, y3, x);
    lemma_feq_trans(fadd(x, fsub(s1, y3)), fadd(fsub(s1, y3), x), fadd(s1, fsub(x, y3)));
    lemma_pos_den(x, y3);
    lemma_pos_den(s1, fsub(x, y3));
    lemma_add_congr(fadd(x, fsub(s1, y3)), fadd(s1, fsub(x, y3)), y3, y3);
    lemma_add_assoc(s1, fsub(x, y3), y3);
    lemma_pos_den(fadd(x, fsub(s1, y3)), y3);
    lemma_pos_den(fadd(s1, fsub(x, y3)), y3);
    lemma_pos_den(fsub(x, y3), y3);
    lemma_pos_den(s1, fadd(fsub(x, y3), y3));
    lemma_feq_trans(
        fadd(fadd(x, fsub(s1, y3)), y3),
        fadd(fadd(s1, fsub(x, y3)), y3),
        fadd(s1, fadd(fsub(x, y3), y3)),
    );
    lemma_sub_add_cancel(x, y3);
    lemma_feq_refl(s1);
    lemma_add_congr(s1, s1, fadd(fsub(x, y3), y3), x);
    lemma_feq_trans(
        fadd(fadd(x, fsub(s1, y3)), y3),
        fadd(s1, fadd(fsub(x, y3), y3)),
        fadd(s1, x),
    );
    lemma_add_comm(s1, x);
    lemma_pos_den(s1, x);
    lemma_pos_den(x, s1);
    lemma_feq_trans(fadd(fadd(x, fsub(s1, y3)), y3), fadd(s1, x), fadd(x, s1));
    lemma_add_comm(x, s1);
    lemma_sub_add_cancel(d, x);
    lemma_feq_trans(fadd(x, s1), fadd(s1, x), d);
    lemma_feq_trans(fadd(fadd(x, fsub(s1, y3)), y3), fadd(x, s1), d);
    lemma_pos_den(fadd(fmul(a, z1), fmul(b, z2)), y3);
    lemma_feq_trans(
        fadd(fadd(fmul(a, z1), fmul(b, z2)), y3),
        fadd(fadd(x, fsub(s1, y3)), y3),
        d,
    );
}

} // verus!
