//! One piece of a piecewise cubic: a polynomial on `[t_begin, t_end]`.
//!
//! The polynomial is kept in the Hermite-like form
//! `c_begin*(x - t_begin)^3 + c_end*(t_end - x)^3
//!  + l_begin*(x - t_begin) + l_end*(t_end - x)`;
//! value, first and second derivative are evaluated exactly, and the
//! specification functions below state the same three formulas over the
//! fraction model.

use vstd::prelude::*;

use crate::error::SplineError;
use crate::frac::{
    feq, fadd, fcube, fint, fmul, fsq, fsub, Frac, lemma_add_assoc, lemma_add_comm,
    lemma_add_congr, lemma_add_neg, lemma_add_then_sub,
    lemma_add_zero_left, lemma_add_zero_right, lemma_cube_congr, lemma_feq_refl, lemma_feq_sym,
    lemma_feq_trans, lemma_mul_assoc, lemma_mul_cancel, lemma_mul_comm, lemma_mul_congr,
    lemma_feq_zero, lemma_mul_zero_factor, lemma_nz_den, lemma_telescope,
    lemma_mul_distrib_add, lemma_mul_distrib_sub, lemma_mul_distrib_add_right,
    lemma_mul_distrib_sub_right, lemma_mul_neg_left, lemma_mul_shuffle3, lemma_pos_den,
    lemma_shuffle_sub, lemma_sub_add_cancel, lemma_sub_congr, lemma_sub_from_add, lemma_sub_of_sub,
    lemma_sub_swap, lemma_sub_zero_left, lemma_sub_zero_right, lemma_zero_ops,
};
use crate::rat::Rat;

verus! {

/// A cubic segment between two breakpoints.
#[derive(Clone, Copy, Debug)]
pub struct CubicSection {
    pub c_begin: Rat,
    pub c_end: Rat,
    pub l_begin: Rat,
    pub l_end: Rat,
    pub t_begin: Rat,
    pub t_end: Rat,
}

/// The value of the segment polynomial at `x`.
pub open spec fn sec_value(s: CubicSection, x: Frac) -> Frac {
    let u = fsub(x, s.t_begin@);
    let w = fsub(s.t_end@, x);
    fadd(
        fadd(fadd(fmul(s.c_begin@, fcube(u)), fmul(s.c_end@, fcube(w))), fmul(s.l_begin@, u)),
        fmul(s.l_end@, w),
    )
}

/// The first derivative of the segment polynomial at `x`.
pub open spec fn sec_der(s: CubicSection, x: Frac) -> Frac {
    let u = fsub(x, s.t_begin@);
    let w = fsub(s.t_end@, x);
    fsub(
        fadd(
            fsub(fmul(fint(3), fmul(s.c_begin@, fsq(u))), fmul(fint(3), fmul(s.c_end@, fsq(w)))),
            s.l_begin@,
        ),
        s.l_end@,
    )
}

/// The second derivative of the segment polynomial at `x`.
pub open spec fn sec_der2(s: CubicSection, x: Frac) -> Frac {
    let u = fsub(x, s.t_begin@);
    let w = fsub(s.t_end@, x);
    fadd(fmul(fint(6), fmul(s.c_begin@, u)), fmul(fint(6), fmul(s.c_end@, w)))
}

impl CubicSection {
    /// All six stored rationals are well-formed.
    pub open spec fn wf(&self) -> bool {
        &&& self.c_begin.wf()
        &&& self.c_end.wf()
        &&& self.l_begin.wf()
        &&& self.l_end.wf()
        &&& self.t_begin.wf()
        &&& self.t_end.wf()
    }

    /// Evaluate the segment polynomial at `x`, exactly.
    pub fn calc(&self, x: &Rat) -> (r: Result<Rat, SplineError>)
        requires
            self.wf(),
            x.wf(),
        ensures
            r matches Ok(v) ==> v.wf() && feq(v@, sec_value(*self, x@)),
            r is Err ==> r == Err::<Rat, SplineError>(SplineError::Overflow),
    {
        let u = x.sub(&self.t_begin)?;
        let w = self.t_end.sub(&x)?;
        let u2 = u.mul(&u)?;
        let u3 = u.mul(&u2)?;
        let w2 = w.mul(&w)?;
        let w3 = w.mul(&w2)?;
        let t1 = self.c_begin.mul(&u3)?;
        let t2 = self.c_end.mul(&w3)?;
        let t3 = self.l_begin.mul(&u)?;
        let t4 = self.l_end.mul(&w)?;
        let s1 = t1.add(&t2)?;
        let s2 = s1.add(&t3)?;
        let res = s2.add(&t4)?;
        proof {
            let uu = fsub(x@, self.t_begin@);
            let ww = fsub(self.t_end@, x@);
            lemma_pos_den(x@, self.t_begin@);
            lemma_pos_den(self.t_end@, x@);
            lemma_cube_chain(u, u2, u3, uu);
            lemma_cube_chain(w, w2, w3, ww);
            // the four terms
            lemma_feq_refl(self.c_begin@);
            lemma_mul_congr(self.c_begin@, self.c_begin@, u3@, fcube(uu));
            lemma_pos_den(self.c_begin@, u3@);
            lemma_feq_trans(t1@, fmul(self.c_begin@, u3@), fmul(self.c_begin@, fcube(uu)));
            lemma_feq_refl(self.c_end@);
            lemma_mul_congr(self.c_end@, self.c_end@, w3@, fcube(ww));
            lemma_pos_den(self.c_end@, w3@);
            lemma_feq_trans(t2@, fmul(self.c_end@, w3@), fmul(self.c_end@, fcube(ww)));
            lemma_feq_refl(self.l_begin@);
            lemma_mul_congr(self.l_begin@, self.l_begin@, u@, uu);
            lemma_pos_den(self.l_begin@, u@);
            lemma_feq_trans(t3@, fmul(self.l_begin@, u@), fmul(self.l_begin@, uu));
            lemma_feq_refl(self.l_end@);
            lemma_mul_congr(self.l_end@, self.l_end@, w@, ww);
            lemma_pos_den(self.l_end@, w@);
            lemma_feq_trans(t4@, fmul(self.l_end@, w@), fmul(self.l_end@, ww));
            // the three sums
            lemma_add_congr(t1@, fmul(self.c_begin@, fcube(uu)), t2@, fmul(self.c_end@, fcube(ww)));
            lemma_pos_den(t1@, t2@);
            lemma_feq_trans(
                s1@,
                fadd(t1@, t2@),
                fadd(fmul(self.c_begin@, fcube(uu)), fmul(self.c_end@, fcube(ww))),
            );
            lemma_add_congr(
                s1@,
                fadd(fmul(self.c_begin@, fcube(uu)), fmul(self.c_end@, fcube(ww))),
                t3@,
                fmul(self.l_begin@, uu),
            );
            lemma_pos_den(s1@, t3@);
            lemma_feq_trans(
                s2@,
                fadd(s1@, t3@),
                fadd(
                    fadd(fmul(self.c_begin@, fcube(uu)), fmul(self.c_end@, fcube(ww))),
                    fmul(self.l_begin@, uu),
                ),
            );
            lemma_add_congr(
                s2@,
                fadd(
                    fadd(fmul(self.c_begin@, fcube(uu)), fmul(self.c_end@, fcube(ww))),
                    fmul(self.l_begin@, uu),
                ),
                t4@,
                fmul(self.l_end@, ww),
            );
            lemma_pos_den(s2@, t4@);
            lemma_feq_trans(res@, fadd(s2@, t4@), sec_value(*self, x@));
        }
        Ok(res)
    }

    /// Evaluate the first derivative of the segment polynomial at `x`,
    /// exactly.
    pub fn calc_der(&self, x: &Rat) -> (r: Result<Rat, SplineError>)
        requires
            self.wf(),
            x.wf(),
        ensures
            r matches Ok(v) ==> v.wf() && feq(v@, sec_der(*self, x@)),
            r is Err ==> r == Err::<Rat, SplineError>(SplineError::Overflow),
    {
        let three = Rat::from_int(3);
        let u = x.sub(&self.t_begin)?;
        let w = self.t_end.sub(&x)?;
        let u2 = u.mul(&u)?;
        let w2 = w.mul(&w)?;
        let p1 = self.c_begin.mul(&u2)?;
        let a1 = three.mul(&p1)?;
        let p2 = self.c_end.mul(&w2)?;
        let a2 = three.mul(&p2)?;
        let s1 = a1.sub(&a2)?;
        let s2 = s1.add(&self.l_begin)?;
        let res = s2.sub(&self.l_end)?;
        proof {
            let uu = fsub(x@, self.t_begin@);
            let ww = fsub(self.t_end@, x@);
            lemma_pos_den(x@, self.t_begin@);
            lemma_pos_den(self.t_end@, x@);
            lemma_sq_chain(u, u2, uu);
            lemma_sq_chain(w, w2, ww);
            lemma_feq_refl(self.c_begin@);
            lemma_mul_congr(self.c_begin@, self.c_begin@, u2@, fsq(uu));
            lemma_pos_den(self.c_begin@, u2@);
            lemma_feq_trans(p1@, fmul(self.c_begin@, u2@), fmul(self.c_begin@, fsq(uu)));
            lemma_feq_refl(fint(3));
            lemma_mul_congr(fint(3), fint(3), p1@, fmul(self.c_begin@, fsq(uu)));
            lemma_pos_den(fint(3), p1@);
            lemma_feq_trans(a1@, fmul(fint(3), p1@), fmul(fint(3), fmul(self.c_begin@, fsq(uu))));
            lemma_feq_refl(self.c_end@);
            lemma_mul_congr(self.c_end@, self.c_end@, w2@, fsq(ww));
            lemma_pos_den(self.c_end@, w2@);
            lemma_feq_trans(p2@, fmul(self.c_end@, w2@), fmul(self.c_end@, fsq(ww)));
            lemma_mul_congr(fint(3), fint(3), p2@, fmul(self.c_end@, fsq(ww)));
            lemma_pos_den(fint(3), p2@);
            lemma_feq_trans(a2@, fmul(fint(3), p2@), fmul(fint(3), fmul(self.c_end@, fsq(ww))));
            lemma_sub_congr(
                a1@,
                fmul(fint(3), fmul(self.c_begin@, fsq(uu))),
                a2@,
                fmul(fint(3), fmul(self.c_end@, fsq(ww))),
            );
            lemma_pos_den(a1@, a2@);
            lemma_feq_trans(
                s1@,
                fsub(a1@, a2@),
                fsub(
                    fmul(fint(3), fmul(self.c_begin@, fsq(uu))),
                    fmul(fint(3), fmul(self.c_end@, fsq(ww))),
                ),
            );
            lemma_feq_refl(self.l_begin@);
            lemma_add_congr(
                s1@,
                fsub(
                    fmul(fint(3), fmul(self.c_begin@, fsq(uu))),
                    fmul(fint(3), fmul(self.c_end@, fsq(ww))),
                ),
                self.l_begin@,
                self.l_begin@,
            );
            lemma_pos_den(s1@, self.l_begin@);
            lemma_feq_trans(
                s2@,
                fadd(s1@, self.l_begin@),
                fadd(
                    fsub(
                        fmul(fint(3), fmul(self.c_begin@, fsq(uu))),
                        fmul(fint(3), fmul(self.c_end@, fsq(ww))),
                    ),
                    self.l_begin@,
                ),
            );
            lemma_feq_refl(self.l_end@);
            lemma_sub_congr(
                s2@,
                fadd(
                    fsub(
                        fmul(fint(3), fmul(self.c_begin@, fsq(uu))),
                        fmul(fint(3), fmul(self.c_end@, fsq(ww))),
                    ),
                    self.l_begin@,
                ),
                self.l_end@,
                self.l_end@,
            );
            lemma_pos_den(s2@, self.l_end@);
            lemma_feq_trans(res@, fsub(s2@, self.l_end@), sec_der(*self, x@));
        }
        Ok(res)
    }

    /// Evaluate the second derivative of the segment polynomial at `x`,
    /// exactly.
    pub fn calc_der2(&self, x: &Rat) -> (r: Result<Rat, SplineError>)
        requires
            self.wf(),
            x.wf(),
        ensures
            r matches Ok(v) ==> v.wf() && feq(v@, sec_der2(*self, x@)),
            r is Err ==> r == Err::<Rat, SplineError>(SplineError::Overflow),
    {
        let six = Rat::from_int(6);
        let u = x.sub(&self.t_begin)?;
        let w = self.t_end.sub(&x)?;
        let p1 = self.c_begin.mul(&u)?;
        let a1 = six.mul(&p1)?;
        let p2 = self.c_end.mul(&w)?;
        let a2 = six.mul(&p2)?;
        let res = a1.add(&a2)?;
        proof {
            let uu = fsub(x@, self.t_begin@);
            let ww = fsub(self.t_end@, x@);
            lemma_pos_den(x@, self.t_begin@);
            lemma_pos_den(self.t_end@, x@);
            lemma_feq_refl(self.c_begin@);
            lemma_mul_congr(self.c_begin@, self.c_begin@, u@, uu);
            lemma_pos_den(self.c_begin@, u@);
            lemma_feq_trans(p1@, fmul(self.c_begin@, u@), fmul(self.c_begin@, uu));
            lemma_feq_refl(fint(6));
            lemma_mul_congr(fint(6), fint(6), p1@, fmul(self.c_begin@, uu));
            lemma_pos_den(fint(6), p1@);
            lemma_feq_trans(a1@, fmul(fint(6), p1@), fmul(fint(6), fmul(self.c_begin@, uu)));
            lemma_feq_refl(self.c_end@);
            lemma_mul_congr(self.c_end@, self.c_end@, w@, ww);
            lemma_pos_den(self.c_end@, w@);
            lemma_feq_trans(p2@, fmul(self.c_end@, w@), fmul(self.c_end@, ww));
            lemma_mul_congr(fint(6), fint(6), p2@, fmul(self.c_end@, ww));
            lemma_pos_den(fint(6), p2@);
            lemma_feq_trans(a2@, fmul(fint(6), p2@), fmul(fint(6), fmul(self.c_end@, ww)));
            lemma_add_congr(
                a1@,
                fmul(fint(6), fmul(self.c_begin@, uu)),
                a2@,
                fmul(fint(6), fmul(self.c_end@, ww)),
            );
            lemma_pos_den(a1@, a2@);
            lemma_feq_trans(res@, fadd(a1@, a2@), sec_der2(*self, x@));
        }
        Ok(res)
    }
}

/// The stored coefficients of a segment, characterised multiplicatively
/// against the data it was built from: the width `h` of the segment, the
/// end ordinates `y0`, `y1` and the end second derivatives `z0`, `z1`.
/// These encode `c_begin == z1/(6h)`, `c_end == z0/(6h)`,
/// `l_begin == y1/h - z1*h/6` and `l_end == y0/h - z0*h/6` without
/// quotients.
pub open spec fn sec_coeffs(
    s: CubicSection,
    h: Frac,
    z0: Frac,
    z1: Frac,
    y0: Frac,
    y1: Frac,
) -> bool {
    &&& feq(h, fsub(s.t_end@, s.t_begin@))
    &&& h.d > 0
    &&& h.n != 0
    &&& feq(fmul(s.c_begin@, fmul(fint(6), h)), z1)
    &&& feq(fmul(s.c_end@, fmul(fint(6), h)), z0)
    &&& feq(fmul(s.l_begin@, fmul(fint(6), h)), fsub(fmul(fint(6), y1), fmul(z1, fsq(h))))
    &&& feq(fmul(s.l_end@, fmul(fint(6), h)), fsub(fmul(fint(6), y0), fmul(z0, fsq(h))))
}

/// Shared hypotheses of the endpoint lemmas below.
pub open spec fn sec_data_wf(
    s: CubicSection,
    h: Frac,
    z0: Frac,
    z1: Frac,
    y0: Frac,
    y1: Frac,
) -> bool {
    &&& s.wf()
    &&& z0.d > 0
    &&& z1.d > 0
    &&& y0.d > 0
    &&& y1.d > 0
    &&& sec_coeffs(s, h, z0, z1, y0, y1)
}

/// The heart of the endpoint evaluations: with `cc*(6h) == z` and
/// `ll*(6h) == 6y - z*h^2`, the combination `cc*h^3 + ll*h` collapses
/// to `y`.
proof fn lemma_combo(cc: Frac, ll: Frac, h: Frac, z: Frac, y: Frac)
    requires
        cc.d > 0,
        ll.d > 0,
        h.d > 0,
        z.d > 0,
        y.d > 0,
        h.n != 0,
        feq(fmul(cc, fmul(fint(6), h)), z),
        feq(fmul(ll, fmul(fint(6), h)), fsub(fmul(fint(6), y), fmul(z, fsq(h)))),
    ensures
        feq(fadd(fmul(cc, fcube(h)), fmul(ll, h)), y),
{
    let k = fmul(fint(6), h);
    let s = fadd(fmul(cc, fcube(h)), fmul(ll, h));
    let hc = fcube(h);
    let s6y = fmul(fint(6), y);
    let zh2 = fmul(z, fsq(h));
    let rl = fsub(s6y, zh2);
    lemma_pos_den(fint(6), h);
    lemma_pos_den(h, h);
    lemma_pos_den(h, fsq(h));
    lemma_pos_den(cc, hc);
    lemma_pos_den(ll, h);
    lemma_pos_den(fmul(cc, hc), fmul(ll, h));
    lemma_pos_den(fint(6), y);
    lemma_pos_den(z, fsq(h));
    lemma_pos_den(s6y, zh2);
    lemma_pos_den(k, cc);
    lemma_pos_den(cc, k);
    lemma_pos_den(k, ll);
    lemma_pos_den(ll, k);
    lemma_pos_den(hc, fmul(k, cc));
    lemma_pos_den(hc, fmul(cc, k));
    lemma_pos_den(hc, z);
    lemma_pos_den(z, hc);
    lemma_pos_den(h, fmul(k, ll));
    lemma_pos_den(h, fmul(ll, k));
    lemma_pos_den(h, rl);
    lemma_pos_den(h, s6y);
    lemma_pos_den(h, y);
    lemma_pos_den(fint(6), fmul(h, y));
    lemma_pos_den(k, y);
    lemma_pos_den(h, zh2);
    lemma_pos_den(fmul(h, s6y), fmul(h, zh2));
    lemma_pos_den(fmul(k, y), fmul(z, hc));
    lemma_pos_den(k, fmul(cc, hc));
    lemma_pos_den(k, fmul(ll, h));
    lemma_pos_den(fmul(k, fmul(cc, hc)), fmul(k, fmul(ll, h)));
    lemma_pos_den(fmul(z, hc), fsub(fmul(k, y), fmul(z, hc)));
    lemma_pos_den(fsub(fmul(k, y), fmul(z, hc)), fmul(z, hc));
    // k * s == k*(cc*h^3) + k*(ll*h)
    lemma_mul_distrib_add(k, fmul(cc, hc), fmul(ll, h));
    // k*(cc*h^3) == h^3*(k*cc) == h^3*(cc*k) == h^3*z == z*h^3
    lemma_mul_shuffle3(k, cc, hc);
    lemma_mul_comm(k, cc);
    lemma_feq_refl(hc);
    lemma_mul_congr(hc, hc, fmul(k, cc), fmul(cc, k));
    lemma_mul_congr(hc, hc, fmul(cc, k), z);
    lemma_mul_comm(hc, z);
    lemma_feq_trans(fmul(k, fmul(cc, hc)), fmul(hc, fmul(k, cc)), fmul(hc, fmul(cc, k)));
    lemma_feq_trans(fmul(k, fmul(cc, hc)), fmul(hc, fmul(cc, k)), fmul(hc, z));
    lemma_feq_trans(fmul(k, fmul(cc, hc)), fmul(hc, z), fmul(z, hc));
    // k*(ll*h) == h*(k*ll) == h*(ll*k) == h*rl
    lemma_mul_shuffle3(k, ll, h);
    lemma_mul_comm(k, ll);
    lemma_feq_refl(h);
    lemma_mul_congr(h, h, fmul(k, ll), fmul(ll, k));
    lemma_mul_congr(h, h, fmul(ll, k), rl);
    lemma_feq_trans(fmul(k, fmul(ll, h)), fmul(h, fmul(k, ll)), fmul(h, fmul(ll, k)));
    lemma_feq_trans(fmul(k, fmul(ll, h)), fmul(h, fmul(ll, k)), fmul(h, rl));
    // h*rl == h*(6y) - h*(z*h^2) == k*y - z*h^3
    lemma_mul_distrib_sub(h, s6y, zh2);
    lemma_mul_shuffle3(h, fint(6), y);
    lemma_mul_assoc(fint(6), h, y);
    lemma_feq_sym(fmul(k, y), fmul(fint(6), fmul(h, y)));
    lemma_feq_trans(fmul(h, s6y), fmul(fint(6), fmul(h, y)), fmul(k, y));
    lemma_mul_shuffle3(h, z, fsq(h));
    lemma_sub_congr(fmul(h, s6y), fmul(k, y), fmul(h, zh2), fmul(z, hc));
    lemma_feq_trans(fmul(h, rl), fsub(fmul(h, s6y), fmul(h, zh2)), fsub(fmul(k, y), fmul(z, hc)));
    lemma_feq_trans(fmul(k, fmul(ll, h)), fmul(h, rl), fsub(fmul(k, y), fmul(z, hc)));
    // so k*s == z*h^3 + (k*y - z*h^3) == k*y, and the factor k cancels
    lemma_add_congr(
        fmul(k, fmul(cc, hc)),
        fmul(z, hc),
        fmul(k, fmul(ll, h)),
        fsub(fmul(k, y), fmul(z, hc)),
    );
    lemma_feq_trans(
        fmul(k, s),
        fadd(fmul(k, fmul(cc, hc)), fmul(k, fmul(ll, h))),
        fadd(fmul(z, hc), fsub(fmul(k, y), fmul(z, hc))),
    );
    lemma_add_comm(fmul(z, hc), fsub(fmul(k, y), fmul(z, hc)));
    lemma_sub_add_cancel(fmul(k, y), fmul(z, hc));
    lemma_feq_trans(
        fadd(fmul(z, hc), fsub(fmul(k, y), fmul(z, hc))),
        fadd(fsub(fmul(k, y), fmul(z, hc)), fmul(z, hc)),
        fmul(k, y),
    );
    lemma_feq_trans(
        fmul(k, s),
        fadd(fmul(z, hc), fsub(fmul(k, y), fmul(z, hc))),
        fmul(k, y),
    );
    lemma_mul_cancel(k, s, y);
}

/// At the left breakpoint the segment takes the left ordinate.
pub proof fn lemma_sec_value_begin(s: CubicSection, h: Frac, z0: Frac, z1: Frac, y0: Frac, y1: Frac)
    requires
        sec_data_wf(s, h, z0, z1, y0, y1),
    ensures
        feq(sec_value(s, s.t_begin@), y0),
{
    let tb = s.t_begin@;
    let te = s.t_end@;
    let u = fsub(tb, tb);
    let w = fsub(te, tb);
    let t1 = fmul(s.c_begin@, fcube(u));
    let t2 = fmul(s.c_end@, fcube(w));
    let t3 = fmul(s.l_begin@, u);
    let t4 = fmul(s.l_end@, w);
    lemma_pos_den(tb, tb);
    lemma_pos_den(te, tb);
    lemma_pos_den(u, u);
    lemma_pos_den(u, fmul(u, u));
    lemma_pos_den(w, w);
    lemma_pos_den(w, fmul(w, w));
    lemma_pos_den(s.c_begin@, fcube(u));
    lemma_pos_den(s.c_end@, fcube(w));
    lemma_pos_den(s.l_begin@, u);
    lemma_pos_den(s.l_end@, w);
    lemma_pos_den(t1, t2);
    lemma_pos_den(fadd(t1, t2), t3);
    lemma_pos_den(t2, t4);
    lemma_pos_den(h, h);
    lemma_pos_den(h, fmul(h, h));
    lemma_pos_den(s.c_end@, fcube(h));
    lemma_pos_den(s.l_end@, h);
    lemma_pos_den(fmul(s.c_end@, fcube(h)), fmul(s.l_end@, h));
    // the two terms in (x - t_begin) vanish at x == t_begin
    lemma_zero_ops(u, fmul(u, u));
    lemma_zero_ops(s.c_begin@, fcube(u));
    lemma_zero_ops(s.l_begin@, u);
    lemma_add_zero_left(t1, t2);
    lemma_add_zero_right(fadd(t1, t2), t3);
    lemma_feq_trans(fadd(fadd(t1, t2), t3), fadd(t1, t2), t2);
    lemma_feq_refl(t4);
    lemma_add_congr(fadd(fadd(t1, t2), t3), t2, t4, t4);
    // the remaining terms are the combination in h
    lemma_feq_sym(h, w);
    lemma_cube_congr(w, h);
    lemma_feq_refl(s.c_end@);
    lemma_mul_congr(s.c_end@, s.c_end@, fcube(w), fcube(h));
    lemma_feq_refl(s.l_end@);
    lemma_mul_congr(s.l_end@, s.l_end@, w, h);
    lemma_add_congr(t2, fmul(s.c_end@, fcube(h)), t4, fmul(s.l_end@, h));
    lemma_combo(s.c_end@, s.l_end@, h, z0, y0);
    lemma_feq_trans(
        sec_value(s, tb),
        fadd(t2, t4),
        fadd(fmul(s.c_end@, fcube(h)), fmul(s.l_end@, h)),
    );
    lemma_feq_trans(
        sec_value(s, tb),
        fadd(fmul(s.c_end@, fcube(h)), fmul(s.l_end@, h)),
        y0,
    );
}

/// At the right breakpoint the segment takes the right ordinate.
pub proof fn lemma_sec_value_end(s: CubicSection, h: Frac, z0: Frac, z1: Frac, y0: Frac, y1: Frac)
    requires
        sec_data_wf(s, h, z0, z1, y0, y1),
    ensures
        feq(sec_value(s, s.t_end@), y1),
{
    let tb = s.t_begin@;
    let te = s.t_end@;
    let u = fsub(te, tb);
    let w = fsub(te, te);
    let t1 = fmul(s.c_begin@, fcube(u));
    let t2 = fmul(s.c_end@, fcube(w));
    let t3 = fmul(s.l_begin@, u);
    let t4 = fmul(s.l_end@, w);
    lemma_pos_den(te, tb);
    lemma_pos_den(te, te);
    lemma_pos_den(u, u);
    lemma_pos_den(u, fmul(u, u));
    lemma_pos_den(w, w);
    lemma_pos_den(w, fmul(w, w));
    lemma_pos_den(s.c_begin@, fcube(u));
    lemma_pos_den(s.c_end@, fcube(w));
    lemma_pos_den(s.l_begin@, u);
    lemma_pos_den(s.l_end@, w);
    lemma_pos_den(t1, t2);
    lemma_pos_den(fadd(t1, t2), t3);
    lemma_pos_den(t1, t3);
    lemma_pos_den(h, h);
    lemma_pos_den(h, fmul(h, h));
    lemma_pos_den(s.c_begin@, fcube(h));
    lemma_pos_den(s.l_begin@, h);
    lemma_pos_den(fmul(s.c_begin@, fcube(h)), fmul(s.l_begin@, h));
    // the two terms in (t_end - x) vanish at x == t_end
    lemma_zero_ops(w, fmul(w, w));
    lemma_zero_ops(s.c_end@, fcube(w));
    lemma_zero_ops(s.l_end@, w);
    lemma_add_zero_right(t1, t2);
    lemma_feq_refl(t3);
    lemma_add_congr(fadd(t1, t2), t1, t3, t3);
    lemma_add_zero_right(fadd(fadd(t1, t2), t3), t4);
    lemma_feq_trans(
        sec_value(s, te),
        fadd(fadd(t1, t2), t3),
        fadd(t1, t3),
    );
    // the remaining terms are the combination in h
    lemma_feq_sym(h, u);
    lemma_cube_congr(u, h);
    lemma_feq_refl(s.c_begin@);
    lemma_mul_congr(s.c_begin@, s.c_begin@, fcube(u), fcube(h));
    lemma_feq_refl(s.l_begin@);
    lemma_mul_congr(s.l_begin@, s.l_begin@, u, h);
    lemma_add_congr(t1, fmul(s.c_begin@, fcube(h)), t3, fmul(s.l_begin@, h));
    lemma_combo(s.c_begin@, s.l_begin@, h, z1, y1);
    lemma_feq_trans(
        sec_value(s, te),
        fadd(t1, t3),
        fadd(fmul(s.c_begin@, fcube(h)), fmul(s.l_begin@, h)),
    );
    lemma_feq_trans(
        sec_value(s, te),
        fadd(fmul(s.c_begin@, fcube(h)), fmul(s.l_begin@, h)),
        y1,
    );
}

/// At the left breakpoint the second derivative takes the left
/// second-derivative unknown.
pub proof fn lemma_sec_der2_begin(s: CubicSection, h: Frac, z0: Frac, z1: Frac, y0: Frac, y1: Frac)
    requires
        sec_data_wf(s, h, z0, z1, y0, y1),
    ensures
        feq(sec_der2(s, s.t_begin@), z0),
{
    let tb = s.t_begin@;
    let te = s.t_end@;
    let u = fsub(tb, tb);
    let w = fsub(te, tb);
    let t1 = fmul(fint(6), fmul(s.c_begin@, u));
    let t2 = fmul(fint(6), fmul(s.c_end@, w));
    lemma_pos_den(tb, tb);
    lemma_pos_den(te, tb);
    lemma_pos_den(s.c_begin@, u);
    lemma_pos_den(s.c_end@, w);
    lemma_pos_den(fint(6), fmul(s.c_begin@, u));
    lemma_pos_den(fint(6), fmul(s.c_end@, w));
    lemma_pos_den(s.c_end@, h);
    lemma_pos_den(fint(6), fmul(s.c_end@, h));
    lemma_pos_den(s.c_end@, fmul(fint(6), h));
    lemma_zero_ops(s.c_begin@, u);
    lemma_zero_ops(fint(6), fmul(s.c_begin@, u));
    lemma_add_zero_left(t1, t2);
    lemma_feq_sym(h, w);
    lemma_feq_refl(s.c_end@);
    lemma_mul_congr(s.c_end@, s.c_end@, w, h);
    lemma_feq_refl(fint(6));
    lemma_mul_congr(fint(6), fint(6), fmul(s.c_end@, w), fmul(s.c_end@, h));
    lemma_feq_trans(sec_der2(s, tb), t2, fmul(fint(6), fmul(s.c_end@, h)));
    lemma_mul_shuffle3(fint(6), s.c_end@, h);
    lemma_feq_trans(
        sec_der2(s, tb),
        fmul(fint(6), fmul(s.c_end@, h)),
        fmul(s.c_end@, fmul(fint(6), h)),
    );
    lemma_feq_trans(sec_der2(s, tb), fmul(s.c_end@, fmul(fint(6), h)), z0);
}

/// At the right breakpoint the second derivative takes the right
/// second-derivative unknown.
pub proof fn lemma_sec_der2_end(s: CubicSection, h: Frac, z0: Frac, z1: Frac, y0: Frac, y1: Frac)
    requires
        sec_data_wf(s, h, z0, z1, y0, y1),
    ensures
        feq(sec_der2(s, s.t_end@), z1),
{
    let tb = s.t_begin@;
    let te = s.t_end@;
    let u = fsub(te, tb);
    let w = fsub(te, te);
    let t1 = fmul(fint(6), fmul(s.c_begin@, u));
    let t2 = fmul(fint(6), fmul(s.c_end@, w));
    lemma_pos_den(te, tb);
    lemma_pos_den(te, te);
    lemma_pos_den(s.c_begin@, u);
    lemma_pos_den(s.c_end@, w);
    lemma_pos_den(fint(6), fmul(s.c_begin@, u));
    lemma_pos_den(fint(6), fmul(s.c_end@, w));
    lemma_pos_den(s.c_begin@, h);
    lemma_pos_den(fint(6), fmul(s.c_begin@, h));
    lemma_pos_den(s.c_begin@, fmul(fint(6), h));
    lemma_zero_ops(s.c_end@, w);
    lemma_zero_ops(fint(6), fmul(s.c_end@, w));
    lemma_add_zero_right(t1, t2);
    lemma_feq_sym(h, u);
    lemma_feq_refl(s.c_begin@);
    lemma_mul_congr(s.c_begin@, s.c_begin@, u, h);
    lemma_feq_refl(fint(6));
    lemma_mul_congr(fint(6), fint(6), fmul(s.c_begin@, u), fmul(s.c_begin@, h));
    lemma_feq_trans(sec_der2(s, te), t1, fmul(fint(6), fmul(s.c_begin@, h)));
    lemma_mul_shuffle3(fint(6), s.c_begin@, h);
    lemma_feq_trans(
        sec_der2(s, te),
        fmul(fint(6), fmul(s.c_begin@, h)),
        fmul(s.c_begin@, fmul(fint(6), h)),
    );
    lemma_feq_trans(sec_der2(s, te), fmul(s.c_begin@, fmul(fint(6), h)), z1);
}

/// Product permutation used for the derivative endpoint lemmas:
/// `(6h) * (3*(c*h^2)) == (3h^2) * (c*(6h))`.
proof fn lemma_perm_k_a(h: Frac, c: Frac)
    ensures
        feq(
            fmul(fmul(fint(6), h), fmul(fint(3), fmul(c, fmul(h, h)))),
            fmul(fmul(fint(3), fmul(h, h)), fmul(c, fmul(fint(6), h))),
        ),
{
    assert((6 * h.n) * (3 * (c.n * (h.n * h.n))) == (3 * (h.n * h.n)) * (c.n * (6
        * h.n))) by (nonlinear_arith);
    assert((1 * h.d) * (1 * (c.d * (h.d * h.d))) == (1 * (h.d * h.d)) * (c.d * (1
        * h.d))) by (nonlinear_arith);
}

/// `(3p) * q == (3q) * p` with the constant factor kept outermost.
proof fn lemma_perm_3swap(p: Frac, q: Frac)
    ensures
        feq(fmul(fmul(fint(3), p), q), fmul(fmul(fint(3), q), p)),
{
    assert((3 * p.n) * q.n == (3 * q.n) * p.n) by (nonlinear_arith);
    assert((1 * p.d) * q.d == (1 * q.d) * p.d) by (nonlinear_arith);
}

/// `(z0 - z1) - 3*z0` denotes `-(2*z0 + z1)`.
proof fn lemma_combo_neg(z0: Frac, z1: Frac)
    requires
        z0.d > 0,
        z1.d > 0,
    ensures
        feq(
            fsub(fsub(z0, z1), fmul(fint(3), z0)),
            crate::frac::fneg(fadd(fmul(fint(2), z0), z1)),
        ),
{
    assert((z0.n * z1.d - z1.n * z0.d) * (1 * z0.d) - (3 * z0.n) * (z0.d * z1.d) == (-((2 * z0.n)
        * z1.d + z1.n * (1 * z0.d))) * z0.d) by (nonlinear_arith);
    assert(((-((2 * z0.n) * z1.d + z1.n * (1 * z0.d))) * z0.d) * ((1 * z0.d) * z1.d) == (-((2
        * z0.n) * z1.d + z1.n * (1 * z0.d))) * ((z0.d * z1.d) * (1 * z0.d))) by (nonlinear_arith);
}

/// `3*z1 + (z0 - z1)` denotes `z0 + 2*z1`.
proof fn lemma_combo_pos(z0: Frac, z1: Frac)
    requires
        z0.d > 0,
        z1.d > 0,
    ensures
        feq(fadd(fmul(fint(3), z1), fsub(z0, z1)), fadd(z0, fmul(fint(2), z1))),
{
    assert((3 * z1.n) * (z0.d * z1.d) + (z0.n * z1.d - z1.n * z0.d) * (1 * z1.d) == (z0.n * (1
        * z1.d) + (2 * z1.n) * z0.d) * z1.d) by (nonlinear_arith);
    assert(((z0.n * (1 * z1.d) + (2 * z1.n) * z0.d) * z1.d) * (z0.d * (1 * z1.d)) == (z0.n * (1
        * z1.d) + (2 * z1.n) * z0.d) * ((1 * z1.d) * (z0.d * z1.d))) by (nonlinear_arith);
}

/// The difference of the two `l`-coefficient right-hand sides:
/// `(6y1 - z1*hh) - (6y0 - z0*hh) == 6*(y1 - y0) + (z0*hh - z1*hh)`.
proof fn lemma_l_diff(y0: Frac, y1: Frac, z0: Frac, z1: Frac, hh: Frac)
    requires
        y0.d > 0,
        y1.d > 0,
        z0.d > 0,
        z1.d > 0,
        hh.d > 0,
    ensures
        feq(
            fsub(fsub(fmul(fint(6), y1), fmul(z1, hh)), fsub(fmul(fint(6), y0), fmul(z0, hh))),
            fadd(fmul(fint(6), fsub(y1, y0)), fsub(fmul(z0, hh), fmul(z1, hh))),
        ),
{
    let p1 = fmul(fint(6), y1);
    let q1 = fmul(z1, hh);
    let p0 = fmul(fint(6), y0);
    let q0 = fmul(z0, hh);
    let sy = fmul(fint(6), fsub(y1, y0));
    lemma_pos_den(fint(6), y1);
    lemma_pos_den(fint(6), y0);
    lemma_pos_den(z1, hh);
    lemma_pos_den(z0, hh);
    lemma_pos_den(p1, q1);
    lemma_pos_den(p0, q0);
    lemma_pos_den(fsub(p1, q1), p0);
    lemma_pos_den(fsub(fsub(p1, q1), p0), q0);
    lemma_pos_den(p1, p0);
    lemma_pos_den(fsub(p1, p0), q1);
    lemma_pos_den(fsub(fsub(p1, p0), q1), q0);
    lemma_pos_den(y1, y0);
    lemma_pos_den(fint(6), fsub(y1, y0));
    lemma_pos_den(sy, q1);
    lemma_pos_den(fsub(sy, q1), q0);
    lemma_sub_of_sub(fsub(p1, q1), p0, q0);
    lemma_sub_swap(p1, q1, p0);
    lemma_feq_refl(q0);
    lemma_add_congr(fsub(fsub(p1, q1), p0), fsub(fsub(p1, p0), q1), q0, q0);
    lemma_mul_distrib_sub(fint(6), y1, y0);
    lemma_feq_sym(sy, fsub(p1, p0));
    lemma_feq_refl(q1);
    lemma_sub_congr(fsub(p1, p0), sy, q1, q1);
    lemma_add_congr(fsub(fsub(p1, p0), q1), fsub(sy, q1), q0, q0);
    lemma_shuffle_sub(sy, q1, q0);
    lemma_feq_trans(
        fsub(fsub(p1, q1), fsub(p0, q0)),
        fadd(fsub(fsub(p1, q1), p0), q0),
        fadd(fsub(fsub(p1, p0), q1), q0),
    );
    lemma_feq_trans(
        fsub(fsub(p1, q1), fsub(p0, q0)),
        fadd(fsub(fsub(p1, p0), q1), q0),
        fadd(fsub(sy, q1), q0),
    );
    lemma_feq_trans(
        fsub(fsub(p1, q1), fsub(p0, q0)),
        fadd(fsub(sy, q1), q0),
        fadd(sy, fsub(q0, q1)),
    );
}

/// At the left breakpoint, six times the width times the first derivative
/// denotes `6*(y1 - y0) - h^2*(2*z0 + z1)`.
pub proof fn lemma_sec_der_begin(s: CubicSection, h: Frac, z0: Frac, z1: Frac, y0: Frac, y1: Frac)
    requires
        sec_data_wf(s, h, z0, z1, y0, y1),
    ensures
        feq(
            fmul(fmul(fint(6), h), sec_der(s, s.t_begin@)),
            fsub(fmul(fint(6), fsub(y1, y0)), fmul(fsq(h), fadd(fmul(fint(2), z0), z1))),
        ),
{
    let tb = s.t_begin@;
    let te = s.t_end@;
    let u = fsub(tb, tb);
    let w = fsub(te, tb);
    let cb = s.c_begin@;
    let ce = s.c_end@;
    let lb = s.l_begin@;
    let le = s.l_end@;
    let a1 = fmul(fint(3), fmul(cb, fsq(u)));
    let a2 = fmul(fint(3), fmul(ce, fsq(w)));
    let hh = fsq(h);
    let a2h = fmul(fint(3), fmul(ce, hh));
    let k = fmul(fint(6), h);
    let l1 = fsub(fmul(fint(6), y1), fmul(z1, hh));
    let l0 = fsub(fmul(fint(6), y0), fmul(z0, hh));
    let a2k = fmul(fmul(fint(3), hh), z0);
    let sy = fmul(fint(6), fsub(y1, y0));
    let zz = fadd(fmul(fint(2), z0), z1);
    let dd = sec_der(s, tb);
    lemma_pos_den(tb, tb);
    lemma_pos_den(te, tb);
    lemma_pos_den(h, h);
    lemma_pos_den(w, w);
    lemma_pos_den(ce, fsq(w));
    lemma_pos_den(fint(3), fmul(ce, fsq(w)));
    lemma_pos_den(ce, hh);
    lemma_pos_den(fint(3), fmul(ce, hh));
    lemma_pos_den(fint(6), h);
    lemma_pos_den(fint(6), y1);
    lemma_pos_den(fint(6), y0);
    lemma_pos_den(z1, hh);
    lemma_pos_den(z0, hh);
    lemma_pos_den(fmul(fint(6), y1), fmul(z1, hh));
    lemma_pos_den(fmul(fint(6), y0), fmul(z0, hh));
    lemma_pos_den(fint(3), hh);
    lemma_pos_den(fmul(fint(3), hh), z0);
    lemma_pos_den(y1, y0);
    lemma_pos_den(fint(6), fsub(y1, y0));
    lemma_pos_den(fint(2), z0);
    lemma_pos_den(fmul(fint(2), z0), z1);
    lemma_pos_den(hh, zz);
    lemma_pos_den(lb, a2);
    lemma_pos_den(lb, a2h);
    lemma_pos_den(fsub(lb, a2), le);
    lemma_pos_den(fsub(lb, a2h), le);
    lemma_pos_den(k, fsub(lb, a2h));
    lemma_pos_den(k, lb);
    lemma_pos_den(k, a2h);
    lemma_pos_den(k, le);
    lemma_pos_den(fmul(k, lb), fmul(k, a2h));
    lemma_pos_den(fsub(fmul(k, lb), fmul(k, a2h)), fmul(k, le));
    lemma_pos_den(k, fsub(fsub(lb, a2h), le));
    lemma_pos_den(l1, a2k);
    lemma_pos_den(fsub(l1, a2k), l0);
    lemma_pos_den(l1, l0);
    lemma_pos_den(fsub(l1, l0), a2k);
    lemma_pos_den(fmul(z0, hh), fmul(z1, hh));
    lemma_pos_den(sy, fsub(fmul(z0, hh), fmul(z1, hh)));
    lemma_pos_den(fadd(sy, fsub(fmul(z0, hh), fmul(z1, hh))), a2k);
    lemma_pos_den(z0, z1);
    lemma_pos_den(fsub(z0, z1), hh);
    lemma_pos_den(fint(3), z0);
    lemma_pos_den(fmul(fint(3), z0), hh);
    lemma_pos_den(fsub(z0, z1), fmul(fint(3), z0));
    lemma_pos_den(fsub(fsub(z0, z1), fmul(fint(3), z0)), hh);
    lemma_pos_den(u, u);
    lemma_pos_den(cb, fsq(u));
    lemma_pos_den(fint(3), fmul(cb, fsq(u)));
    // the begin-side quadratic term vanishes at x == t_begin
    lemma_zero_ops(u, u);
    lemma_zero_ops(cb, fsq(u));
    lemma_zero_ops(fint(3), fmul(cb, fsq(u)));
    lemma_sub_zero_left(a1, a2);
    lemma_feq_refl(lb);
    lemma_add_congr(fsub(a1, a2), crate::frac::fneg(a2), lb, lb);
    lemma_add_neg(a2, lb);
    lemma_pos_den(a1, a2);
    lemma_pos_den(crate::frac::fneg(a2), lb);
    lemma_feq_trans(fadd(fsub(a1, a2), lb), fadd(crate::frac::fneg(a2), lb), fsub(lb, a2));
    lemma_feq_refl(le);
    lemma_sub_congr(fadd(fsub(a1, a2), lb), fsub(lb, a2), le, le);
    lemma_pos_den(fsub(a1, a2), lb);
    lemma_pos_den(fadd(fsub(a1, a2), lb), le);
    // substitute the width for (t_end - x)
    lemma_feq_sym(h, w);
    lemma_mul_congr(w, h, w, h);
    lemma_feq_refl(ce);
    lemma_mul_congr(ce, ce, fsq(w), hh);
    lemma_feq_refl(fint(3));
    lemma_mul_congr(fint(3), fint(3), fmul(ce, fsq(w)), fmul(ce, hh));
    lemma_feq_refl(lb);
    lemma_sub_congr(lb, lb, a2, a2h);
    lemma_sub_congr(fsub(lb, a2), fsub(lb, a2h), le, le);
    lemma_feq_trans(dd, fsub(fsub(lb, a2), le), fsub(fsub(lb, a2h), le));
    // multiply by 6h and distribute
    lemma_feq_refl(k);
    lemma_mul_congr(k, k, dd, fsub(fsub(lb, a2h), le));
    lemma_mul_distrib_sub(k, fsub(lb, a2h), le);
    lemma_mul_distrib_sub(k, lb, a2h);
    lemma_feq_refl(fmul(k, le));
    lemma_sub_congr(
        fmul(k, fsub(lb, a2h)),
        fsub(fmul(k, lb), fmul(k, a2h)),
        fmul(k, le),
        fmul(k, le),
    );
    lemma_pos_den(k, dd);
    lemma_pos_den(fmul(k, fsub(lb, a2h)), fmul(k, le));
    lemma_feq_trans(
        fmul(k, dd),
        fmul(k, fsub(fsub(lb, a2h), le)),
        fsub(fmul(k, fsub(lb, a2h)), fmul(k, le)),
    );
    lemma_feq_trans(
        fmul(k, dd),
        fsub(fmul(k, fsub(lb, a2h)), fmul(k, le)),
        fsub(fsub(fmul(k, lb), fmul(k, a2h)), fmul(k, le)),
    );
    // the three products against the coefficient facts
    lemma_mul_comm(k, lb);
    lemma_pos_den(lb, k);
    lemma_feq_trans(fmul(k, lb), fmul(lb, k), l1);
    lemma_mul_comm(k, le);
    lemma_pos_den(le, k);
    lemma_feq_trans(fmul(k, le), fmul(le, k), l0);
    lemma_perm_k_a(h, ce);
    lemma_feq_refl(fmul(fint(3), hh));
    lemma_pos_den(ce, k);
    lemma_mul_congr(fmul(fint(3), hh), fmul(fint(3), hh), fmul(ce, k), z0);
    lemma_pos_den(fmul(fint(3), hh), fmul(ce, k));
    lemma_feq_trans(fmul(k, a2h), fmul(fmul(fint(3), hh), fmul(ce, k)), a2k);
    lemma_sub_congr(fmul(k, lb), l1, fmul(k, a2h), a2k);
    lemma_sub_congr(fsub(fmul(k, lb), fmul(k, a2h)), fsub(l1, a2k), fmul(k, le), l0);
    lemma_feq_trans(
        fmul(k, dd),
        fsub(fsub(fmul(k, lb), fmul(k, a2h)), fmul(k, le)),
        fsub(fsub(l1, a2k), l0),
    );
    // the closing identity over the construction data
    lemma_sub_swap(l1, a2k, l0);
    lemma_l_diff(y0, y1, z0, z1, hh);
    lemma_feq_refl(a2k);
    lemma_sub_congr(
        fsub(l1, l0),
        fadd(sy, fsub(fmul(z0, hh), fmul(z1, hh))),
        a2k,
        a2k,
    );
    lemma_sub_from_add(sy, fsub(fmul(z0, hh), fmul(z1, hh)), a2k);
    lemma_mul_distrib_sub_right(z0, z1, hh);
    lemma_feq_sym(fmul(fsub(z0, z1), hh), fsub(fmul(z0, hh), fmul(z1, hh)));
    lemma_perm_3swap(hh, z0);
    lemma_sub_congr(
        fsub(fmul(z0, hh), fmul(z1, hh)),
        fmul(fsub(z0, z1), hh),
        a2k,
        fmul(fmul(fint(3), z0), hh),
    );
    lemma_mul_distrib_sub_right(fsub(z0, z1), fmul(fint(3), z0), hh);
    lemma_feq_sym(
        fmul(fsub(fsub(z0, z1), fmul(fint(3), z0)), hh),
        fsub(fmul(fsub(z0, z1), hh), fmul(fmul(fint(3), z0), hh)),
    );
    lemma_combo_neg(z0, z1);
    lemma_feq_refl(hh);
    lemma_mul_congr(
        fsub(fsub(z0, z1), fmul(fint(3), z0)),
        crate::frac::fneg(zz),
        hh,
        hh,
    );
    lemma_mul_neg_left(zz, hh);
    lemma_pos_den(fmul(fsub(z0, z1), hh), fmul(fmul(fint(3), z0), hh));
    lemma_pos_den(crate::frac::fneg(zz), hh);
    lemma_feq_trans(
        fsub(fsub(fmul(z0, hh), fmul(z1, hh)), a2k),
        fsub(fmul(fsub(z0, z1), hh), fmul(fmul(fint(3), z0), hh)),
        fmul(fsub(fsub(z0, z1), fmul(fint(3), z0)), hh),
    );
    lemma_feq_trans(
        fsub(fsub(fmul(z0, hh), fmul(z1, hh)), a2k),
        fmul(fsub(fsub(z0, z1), fmul(fint(3), z0)), hh),
        fmul(crate::frac::fneg(zz), hh),
    );
    lemma_feq_trans(
        fsub(fsub(fmul(z0, hh), fmul(z1, hh)), a2k),
        fmul(crate::frac::fneg(zz), hh),
        crate::frac::fneg(fmul(hh, zz)),
    );
    lemma_feq_refl(sy);
    lemma_add_congr(
        sy,
        sy,
        fsub(fsub(fmul(z0, hh), fmul(z1, hh)), a2k),
        crate::frac::fneg(fmul(hh, zz)),
    );
    lemma_add_neg(sy, fmul(hh, zz));
    lemma_pos_den(fsub(fmul(z0, hh), fmul(z1, hh)), a2k);
    lemma_pos_den(sy, fsub(fsub(fmul(z0, hh), fmul(z1, hh)), a2k));
    lemma_pos_den(sy, crate::frac::fneg(fmul(hh, zz)));
    lemma_feq_trans(
        fsub(fsub(l1, a2k), l0),
        fsub(fsub(l1, l0), a2k),
        fsub(fadd(sy, fsub(fmul(z0, hh), fmul(z1, hh))), a2k),
    );
    lemma_feq_trans(
        fsub(fsub(l1, a2k), l0),
        fsub(fadd(sy, fsub(fmul(z0, hh), fmul(z1, hh))), a2k),
        fadd(sy, fsub(fsub(fmul(z0, hh), fmul(z1, hh)), a2k)),
    );
    lemma_feq_trans(
        fsub(fsub(l1, a2k), l0),
        fadd(sy, fsub(fsub(fmul(z0, hh), fmul(z1, hh)), a2k)),
        fadd(sy, crate::frac::fneg(fmul(hh, zz))),
    );
    lemma_feq_trans(
        fsub(fsub(l1, a2k), l0),
        fadd(sy, crate::frac::fneg(fmul(hh, zz))),
        fsub(sy, fmul(hh, zz)),
    );
    lemma_feq_trans(fmul(k, dd), fsub(fsub(l1, a2k), l0), fsub(sy, fmul(hh, zz)));
}

/// At the right breakpoint, six times the width times the first
/// derivative denotes `6*(y1 - y0) + h^2*(z0 + 2*z1)`.
pub proof fn lemma_sec_der_end(s: CubicSection, h: Frac, z0: Frac, z1: Frac, y0: Frac, y1: Frac)
    requires
        sec_data_wf(s, h, z0, z1, y0, y1),
    ensures
        feq(
            fmul(fmul(fint(6), h), sec_der(s, s.t_end@)),
            fadd(fmul(fint(6), fsub(y1, y0)), fmul(fsq(h), fadd(z0, fmul(fint(2), z1)))),
        ),
{
    let tb = s.t_begin@;
    let te = s.t_end@;
    let u = fsub(te, tb);
    let w = fsub(te, te);
    let cb = s.c_begin@;
    let ce = s.c_end@;
    let lb = s.l_begin@;
    let le = s.l_end@;
    let a1 = fmul(fint(3), fmul(cb, fsq(u)));
    let a2 = fmul(fint(3), fmul(ce, fsq(w)));
    let hh = fsq(h);
    let a1h = fmul(fint(3), fmul(cb, hh));
    let k = fmul(fint(6), h);
    let l1 = fsub(fmul(fint(6), y1), fmul(z1, hh));
    let l0 = fsub(fmul(fint(6), y0), fmul(z0, hh));
    let a1k = fmul(fmul(fint(3), hh), z1);
    let sy = fmul(fint(6), fsub(y1, y0));
    let xq = fsub(fmul(z0, hh), fmul(z1, hh));
    let zz2 = fadd(z0, fmul(fint(2), z1));
    let dd = sec_der(s, te);
    lemma_pos_den(te, tb);
    lemma_pos_den(te, te);
    lemma_pos_den(h, h);
    lemma_pos_den(u, u);
    lemma_pos_den(w, w);
    lemma_pos_den(cb, fsq(u));
    lemma_pos_den(fint(3), fmul(cb, fsq(u)));
    lemma_pos_den(ce, fsq(w));
    lemma_pos_den(fint(3), fmul(ce, fsq(w)));
    lemma_pos_den(cb, hh);
    lemma_pos_den(fint(3), fmul(cb, hh));
    lemma_pos_den(fint(6), h);
    lemma_pos_den(fint(6), y1);
    lemma_pos_den(fint(6), y0);
    lemma_pos_den(z1, hh);
    lemma_pos_den(z0, hh);
    lemma_pos_den(fmul(fint(6), y1), fmul(z1, hh));
    lemma_pos_den(fmul(fint(6), y0), fmul(z0, hh));
    lemma_pos_den(fint(3), hh);
    lemma_pos_den(fmul(fint(3), hh), z1);
    lemma_pos_den(y1, y0);
    lemma_pos_den(fint(6), fsub(y1, y0));
    lemma_pos_den(fint(2), z1);
    lemma_pos_den(z0, fmul(fint(2), z1));
    lemma_pos_den(hh, zz2);
    lemma_pos_den(a1, a2);
    lemma_pos_den(fsub(a1, a2), lb);
    lemma_pos_den(a1, lb);
    lemma_pos_den(a1h, lb);
    lemma_pos_den(fadd(fsub(a1, a2), lb), le);
    lemma_pos_den(fadd(a1, lb), le);
    lemma_pos_den(fadd(a1h, lb), le);
    lemma_pos_den(k, fadd(a1h, lb));
    lemma_pos_den(k, lb);
    lemma_pos_den(k, le);
    lemma_pos_den(k, a1h);
    lemma_pos_den(k, fsub(fadd(a1h, lb), le));
    lemma_pos_den(fmul(k, fadd(a1h, lb)), fmul(k, le));
    lemma_pos_den(fmul(k, a1h), fmul(k, lb));
    lemma_pos_den(fadd(fmul(k, a1h), fmul(k, lb)), fmul(k, le));
    lemma_pos_den(a1k, l1);
    lemma_pos_den(fadd(a1k, l1), l0);
    lemma_pos_den(l1, l0);
    lemma_pos_den(a1k, fsub(l1, l0));
    lemma_pos_den(fmul(z0, hh), fmul(z1, hh));
    lemma_pos_den(sy, xq);
    lemma_pos_den(a1k, fadd(sy, xq));
    lemma_pos_den(a1k, sy);
    lemma_pos_den(fadd(a1k, sy), xq);
    lemma_pos_den(sy, a1k);
    lemma_pos_den(fadd(sy, a1k), xq);
    lemma_pos_den(a1k, xq);
    lemma_pos_den(sy, fadd(a1k, xq));
    lemma_pos_den(fint(3), z1);
    lemma_pos_den(fmul(fint(3), z1), hh);
    lemma_pos_den(z0, z1);
    lemma_pos_den(fsub(z0, z1), hh);
    lemma_pos_den(fmul(fint(3), z1), fsub(z0, z1));
    lemma_pos_den(fmul(fmul(fint(3), z1), hh), fmul(fsub(z0, z1), hh));
    lemma_pos_den(fadd(fmul(fint(3), z1), fsub(z0, z1)), hh);
    lemma_pos_den(zz2, hh);
    // the end-side quadratic term vanishes at x == t_end
    lemma_zero_ops(w, w);
    lemma_zero_ops(ce, fsq(w));
    lemma_zero_ops(fint(3), fmul(ce, fsq(w)));
    lemma_sub_zero_right(a1, a2);
    lemma_feq_refl(lb);
    lemma_add_congr(fsub(a1, a2), a1, lb, lb);
    // substitute the width for (x - t_begin)
    lemma_feq_sym(h, u);
    lemma_mul_congr(u, h, u, h);
    lemma_feq_refl(cb);
    lemma_mul_congr(cb, cb, fsq(u), hh);
    lemma_feq_refl(fint(3));
    lemma_mul_congr(fint(3), fint(3), fmul(cb, fsq(u)), fmul(cb, hh));
    lemma_add_congr(a1, a1h, lb, lb);
    lemma_feq_trans(fadd(fsub(a1, a2), lb), fadd(a1, lb), fadd(a1h, lb));
    lemma_feq_refl(le);
    lemma_sub_congr(fadd(fsub(a1, a2), lb), fadd(a1h, lb), le, le);
    // multiply by 6h and distribute
    lemma_feq_refl(k);
    lemma_mul_congr(k, k, dd, fsub(fadd(a1h, lb), le));
    lemma_mul_distrib_sub(k, fadd(a1h, lb), le);
    lemma_mul_distrib_add(k, a1h, lb);
    lemma_feq_refl(fmul(k, le));
    lemma_sub_congr(
        fmul(k, fadd(a1h, lb)),
        fadd(fmul(k, a1h), fmul(k, lb)),
        fmul(k, le),
        fmul(k, le),
    );
    lemma_pos_den(k, dd);
    lemma_feq_trans(
        fmul(k, dd),
        fmul(k, fsub(fadd(a1h, lb), le)),
        fsub(fmul(k, fadd(a1h, lb)), fmul(k, le)),
    );
    lemma_feq_trans(
        fmul(k, dd),
        fsub(fmul(k, fadd(a1h, lb)), fmul(k, le)),
        fsub(fadd(fmul(k, a1h), fmul(k, lb)), fmul(k, le)),
    );
    // the three products against the coefficient facts
    lemma_mul_comm(k, lb);
    lemma_pos_den(lb, k);
    lemma_feq_trans(fmul(k, lb), fmul(lb, k), l1);
    lemma_mul_comm(k, le);
    lemma_pos_den(le, k);
    lemma_feq_trans(fmul(k, le), fmul(le, k), l0);
    lemma_perm_k_a(h, cb);
    lemma_feq_refl(fmul(fint(3), hh));
    lemma_pos_den(cb, k);
    lemma_mul_congr(fmul(fint(3), hh), fmul(fint(3), hh), fmul(cb, k), z1);
    lemma_pos_den(fmul(fint(3), hh), fmul(cb, k));
    lemma_feq_trans(fmul(k, a1h), fmul(fmul(fint(3), hh), fmul(cb, k)), a1k);
    lemma_add_congr(fmul(k, a1h), a1k, fmul(k, lb), l1);
    lemma_sub_congr(fadd(fmul(k, a1h), fmul(k, lb)), fadd(a1k, l1), fmul(k, le), l0);
    lemma_feq_trans(
        fmul(k, dd),
        fsub(fadd(fmul(k, a1h), fmul(k, lb)), fmul(k, le)),
        fsub(fadd(a1k, l1), l0),
    );
    // the closing identity over the construction data
    lemma_sub_from_add(a1k, l1, l0);
    lemma_l_diff(y0, y1, z0, z1, hh);
    lemma_feq_refl(a1k);
    lemma_add_congr(a1k, a1k, fsub(l1, l0), fadd(sy, xq));
    lemma_add_assoc(a1k, sy, xq);
    lemma_feq_sym(fadd(fadd(a1k, sy), xq), fadd(a1k, fadd(sy, xq)));
    lemma_add_comm(a1k, sy);
    lemma_feq_refl(xq);
    lemma_add_congr(fadd(a1k, sy), fadd(sy, a1k), xq, xq);
    lemma_add_assoc(sy, a1k, xq);
    lemma_feq_trans(fadd(a1k, fadd(sy, xq)), fadd(fadd(a1k, sy), xq), fadd(fadd(sy, a1k), xq));
    lemma_feq_trans(fadd(a1k, fadd(sy, xq)), fadd(fadd(sy, a1k), xq), fadd(sy, fadd(a1k, xq)));
    // inner combination: a1k + (z0*hh - z1*hh) == hh * (z0 + 2*z1)
    lemma_perm_3swap(hh, z1);
    lemma_mul_distrib_sub_right(z0, z1, hh);
    lemma_feq_sym(fmul(fsub(z0, z1), hh), xq);
    lemma_add_congr(a1k, fmul(fmul(fint(3), z1), hh), xq, fmul(fsub(z0, z1), hh));
    lemma_mul_distrib_add_right(fmul(fint(3), z1), fsub(z0, z1), hh);
    lemma_feq_sym(
        fmul(fadd(fmul(fint(3), z1), fsub(z0, z1)), hh),
        fadd(fmul(fmul(fint(3), z1), hh), fmul(fsub(z0, z1), hh)),
    );
    lemma_combo_pos(z0, z1);
    lemma_feq_refl(hh);
    lemma_mul_congr(fadd(fmul(fint(3), z1), fsub(z0, z1)), zz2, hh, hh);
    lemma_mul_comm(zz2, hh);
    lemma_feq_trans(
        fadd(a1k, xq),
        fadd(fmul(fmul(fint(3), z1), hh), fmul(fsub(z0, z1), hh)),
        fmul(fadd(fmul(fint(3), z1), fsub(z0, z1)), hh),
    );
    lemma_feq_trans(
        fadd(a1k, xq),
        fmul(fadd(fmul(fint(3), z1), fsub(z0, z1)), hh),
        fmul(zz2, hh),
    );
    lemma_feq_trans(fadd(a1k, xq), fmul(zz2, hh), fmul(hh, zz2));
    lemma_feq_refl(sy);
    lemma_add_congr(sy, sy, fadd(a1k, xq), fmul(hh, zz2));
    // assemble
    lemma_feq_trans(
        fsub(fadd(a1k, l1), l0),
        fadd(a1k, fsub(l1, l0)),
        fadd(a1k, fadd(sy, xq)),
    );
    lemma_feq_trans(
        fsub(fadd(a1k, l1), l0),
        fadd(a1k, fadd(sy, xq)),
        fadd(sy, fadd(a1k, xq)),
    );
    lemma_feq_trans(
        fsub(fadd(a1k, l1), l0),
        fadd(sy, fadd(a1k, xq)),
        fadd(sy, fmul(hh, zz2)),
    );
    lemma_feq_trans(fmul(k, dd), fsub(fadd(a1k, l1), l0), fadd(sy, fmul(hh, zz2)));
}


/// The denominator of a segment derivative is positive for a query with
/// positive denominator.
pub proof fn lemma_sec_der_pos(s: CubicSection, x: Frac)
    requires
        s.wf(),
        x.d > 0,
    ensures
        sec_der(s, x).d > 0,
{
    let u = fsub(x, s.t_begin@);
    let w = fsub(s.t_end@, x);
    lemma_pos_den(x, s.t_begin@);
    lemma_pos_den(s.t_end@, x);
    lemma_pos_den(u, u);
    lemma_pos_den(w, w);
    lemma_pos_den(s.c_begin@, fsq(u));
    lemma_pos_den(fint(3), fmul(s.c_begin@, fsq(u)));
    lemma_pos_den(s.c_end@, fsq(w));
    lemma_pos_den(fint(3), fmul(s.c_end@, fsq(w)));
    lemma_pos_den(
        fmul(fint(3), fmul(s.c_begin@, fsq(u))),
        fmul(fint(3), fmul(s.c_end@, fsq(w))),
    );
    lemma_pos_den(
        fsub(fmul(fint(3), fmul(s.c_begin@, fsq(u))), fmul(fint(3), fmul(s.c_end@, fsq(w)))),
        s.l_begin@,
    );
    lemma_pos_den(
        fadd(
            fsub(fmul(fint(3), fmul(s.c_begin@, fsq(u))), fmul(fint(3), fmul(s.c_end@, fsq(w)))),
            s.l_begin@,
        ),
        s.l_end@,
    );
}

/// Product permutations used by the junction lemma; `m` stands for
/// `(6*h1)*h2` throughout.
proof fn lemma_perm_j1(h1: Frac, h2: Frac, q: Frac)
    ensures
        feq(
            fmul(fmul(fint(6), h2), fmul(fmul(h1, h1), q)),
            fmul(fmul(fmul(fint(6), h1), h2), fmul(h1, q)),
        ),
{
    assert((6 * h2.n) * ((h1.n * h1.n) * q.n) == ((6 * h1.n) * h2.n) * (h1.n
        * q.n)) by (nonlinear_arith);
    assert((1 * h2.d) * ((h1.d * h1.d) * q.d) == ((1 * h1.d) * h2.d) * (h1.d
        * q.d)) by (nonlinear_arith);
}

proof fn lemma_perm_j2(h1: Frac, h2: Frac, q: Frac)
    ensures
        feq(
            fmul(fmul(fint(6), h2), fmul(fmul(h1, h1), fmul(fint(2), q))),
            fmul(fmul(fmul(fint(6), h1), h2), fmul(fmul(fint(2), h1), q)),
        ),
{
    assert((6 * h2.n) * ((h1.n * h1.n) * (2 * q.n)) == ((6 * h1.n) * h2.n) * ((2 * h1.n)
        * q.n)) by (nonlinear_arith);
    assert((1 * h2.d) * ((h1.d * h1.d) * (1 * q.d)) == ((1 * h1.d) * h2.d) * ((1 * h1.d)
        * q.d)) by (nonlinear_arith);
}

proof fn lemma_perm_j3(h1: Frac, h2: Frac, q: Frac)
    ensures
        feq(
            fmul(fmul(fint(6), h1), fmul(fmul(h2, h2), q)),
            fmul(fmul(fmul(fint(6), h1), h2), fmul(h2, q)),
        ),
{
    assert((6 * h1.n) * ((h2.n * h2.n) * q.n) == ((6 * h1.n) * h2.n) * (h2.n
        * q.n)) by (nonlinear_arith);
    assert((1 * h1.d) * ((h2.d * h2.d) * q.d) == ((1 * h1.d) * h2.d) * (h2.d
        * q.d)) by (nonlinear_arith);
}

proof fn lemma_perm_j4(h1: Frac, h2: Frac, q: Frac)
    ensures
        feq(
            fmul(fmul(fint(6), h1), fmul(fmul(h2, h2), fmul(fint(2), q))),
            fmul(fmul(fmul(fint(6), h1), h2), fmul(fmul(fint(2), h2), q)),
        ),
{
    assert((6 * h1.n) * ((h2.n * h2.n) * (2 * q.n)) == ((6 * h1.n) * h2.n) * ((2 * h2.n)
        * q.n)) by (nonlinear_arith);
    assert((1 * h1.d) * ((h2.d * h2.d) * (1 * q.d)) == ((1 * h1.d) * h2.d) * ((1 * h2.d)
        * q.d)) by (nonlinear_arith);
}

proof fn lemma_perm_j5(h1: Frac, h2: Frac, q: Frac)
    ensures
        feq(
            fmul(fmul(fmul(fint(6), h1), h2), fmul(fint(6), q)),
            fmul(fmul(fint(6), h1), fmul(fint(6), fmul(q, h2))),
        ),
{
    assert(((6 * h1.n) * h2.n) * (6 * q.n) == (6 * h1.n) * (6 * (q.n
        * h2.n))) by (nonlinear_arith);
    assert(((1 * h1.d) * h2.d) * (1 * q.d) == (1 * h1.d) * (1 * (q.d
        * h2.d))) by (nonlinear_arith);
}

proof fn lemma_perm_j6(h1: Frac, h2: Frac, q: Frac)
    ensures
        feq(
            fmul(fmul(fmul(fint(6), h1), h2), fmul(fint(6), q)),
            fmul(fmul(fint(6), h2), fmul(fint(6), fmul(q, h1))),
        ),
{
    assert(((6 * h1.n) * h2.n) * (6 * q.n) == (6 * h2.n) * (6 * (q.n
        * h1.n))) by (nonlinear_arith);
    assert(((1 * h1.d) * h2.d) * (1 * q.d) == (1 * h2.d) * (1 * (q.d
        * h1.d))) by (nonlinear_arith);
}

/// First derivatives of two adjacent segments agree at their shared
/// breakpoint, given the interior equation of the spline system there.
pub proof fn lemma_sec_der_junction(
    secl: CubicSection,
    secr: CubicSection,
    h1: Frac,
    h2: Frac,
    z1: Frac,
    z2: Frac,
    z3: Frac,
    ya: Frac,
    yb: Frac,
    yc: Frac,
    sll: Frac,
    slr: Frac,
)
    requires
        sec_data_wf(secl, h1, z1, z2, ya, yb),
        sec_data_wf(secr, h2, z2, z3, yb, yc),
        sll.d > 0,
        slr.d > 0,
        feq(fmul(sll, h1), fsub(yb, ya)),
        feq(fmul(slr, h2), fsub(yc, yb)),
        feq(
            fadd(fadd(fmul(h1, z1), fmul(fmul(fint(2), fadd(h1, h2)), z2)), fmul(h2, z3)),
            fmul(fint(6), fsub(slr, sll)),
        ),
    ensures
        feq(sec_der(secl, secl.t_end@), sec_der(secr, secr.t_begin@)),
{
    let dl = sec_der(secl, secl.t_end@);
    let dr = sec_der(secr, secr.t_begin@);
    let k1 = fmul(fint(6), h1);
    let k2 = fmul(fint(6), h2);
    let kk = fmul(k1, k2);
    let mm = fmul(fmul(fint(6), h1), h2);
    let hh1 = fsq(h1);
    let hh2 = fsq(h2);
    let syl = fmul(fint(6), fsub(yb, ya));
    let syr = fmul(fint(6), fsub(yc, yb));
    let p1 = fmul(hh1, fadd(z1, fmul(fint(2), z2)));
    let p2 = fmul(hh2, fadd(fmul(fint(2), z2), z3));
    let fr = fadd(syl, p1);
    let er = fsub(syr, p2);
    let ta = fmul(k2, syl);
    let tb2 = fmul(k1, syr);
    let q1 = fmul(k2, p1);
    let q2 = fmul(k1, p2);
    let vv = fmul(fint(2), fadd(h1, h2));
    let rl = fadd(fadd(fmul(h1, z1), fmul(vv, z2)), fmul(h2, z3));
    let ru = fmul(fint(6), fsub(slr, sll));
    let p1e = fadd(fmul(hh1, z1), fmul(hh1, fmul(fint(2), z2)));
    let p2e = fadd(fmul(hh2, fmul(fint(2), z2)), fmul(hh2, z3));
    let t1t = fmul(mm, fmul(h1, z1));
    let t2t = fmul(mm, fmul(fmul(fint(2), h1), z2));
    let t3t = fmul(mm, fmul(fmul(fint(2), h2), z2));
    let t4t = fmul(mm, fmul(h2, z3));
    let vv2 = fadd(fmul(fint(2), h1), fmul(fint(2), h2));
    let bb = fmul(vv, z2);
    let bbd = fadd(fmul(fmul(fint(2), h1), z2), fmul(fmul(fint(2), h2), z2));
    let rue = fsub(fmul(fint(6), slr), fmul(fint(6), sll));
    // positive denominators of everything the chains pass through
    lemma_pos_den(fint(6), h1);
    lemma_pos_den(fint(6), h2);
    lemma_pos_den(k1, k2);
    lemma_pos_den(k1, h2);
    lemma_pos_den(h1, h1);
    lemma_pos_den(h2, h2);
    lemma_pos_den(yb, ya);
    lemma_pos_den(yc, yb);
    lemma_pos_den(fint(6), fsub(yb, ya));
    lemma_pos_den(fint(6), fsub(yc, yb));
    lemma_pos_den(fint(2), z2);
    lemma_pos_den(z1, fmul(fint(2), z2));
    lemma_pos_den(fmul(fint(2), z2), z3);
    lemma_pos_den(hh1, fadd(z1, fmul(fint(2), z2)));
    lemma_pos_den(hh2, fadd(fmul(fint(2), z2), z3));
    lemma_pos_den(syl, p1);
    lemma_pos_den(syr, p2);
    lemma_pos_den(k2, syl);
    lemma_pos_den(k1, syr);
    lemma_pos_den(k2, p1);
    lemma_pos_den(k1, p2);
    lemma_pos_den(h1, h2);
    lemma_pos_den(fint(2), fadd(h1, h2));
    lemma_pos_den(h1, z1);
    lemma_pos_den(vv, z2);
    lemma_pos_den(h2, z3);
    lemma_pos_den(fmul(h1, z1), fmul(vv, z2));
    lemma_pos_den(fadd(fmul(h1, z1), fmul(vv, z2)), fmul(h2, z3));
    lemma_pos_den(slr, sll);
    lemma_pos_den(fint(6), fsub(slr, sll));
    lemma_pos_den(hh1, z1);
    lemma_pos_den(hh1, fmul(fint(2), z2));
    lemma_pos_den(fmul(hh1, z1), fmul(hh1, fmul(fint(2), z2)));
    lemma_pos_den(hh2, fmul(fint(2), z2));
    lemma_pos_den(hh2, z3);
    lemma_pos_den(fmul(hh2, fmul(fint(2), z2)), fmul(hh2, z3));
    lemma_pos_den(k2, p1e);
    lemma_pos_den(k1, p2e);
    lemma_pos_den(k2, fmul(hh1, z1));
    lemma_pos_den(k2, fmul(hh1, fmul(fint(2), z2)));
    lemma_pos_den(fmul(k2, fmul(hh1, z1)), fmul(k2, fmul(hh1, fmul(fint(2), z2))));
    lemma_pos_den(k1, fmul(hh2, fmul(fint(2), z2)));
    lemma_pos_den(k1, fmul(hh2, z3));
    lemma_pos_den(fmul(k1, fmul(hh2, fmul(fint(2), z2))), fmul(k1, fmul(hh2, z3)));
    lemma_pos_den(fint(2), h1);
    lemma_pos_den(fint(2), h2);
    lemma_pos_den(fmul(fint(2), h1), z2);
    lemma_pos_den(fmul(fint(2), h2), z2);
    lemma_pos_den(mm, fmul(h1, z1));
    lemma_pos_den(mm, fmul(fmul(fint(2), h1), z2));
    lemma_pos_den(mm, fmul(fmul(fint(2), h2), z2));
    lemma_pos_den(mm, fmul(h2, z3));
    lemma_pos_den(t1t, t2t);
    lemma_pos_den(t3t, t4t);
    lemma_pos_den(fadd(t1t, t2t), fadd(t3t, t4t));
    lemma_pos_den(fadd(t1t, t2t), t3t);
    lemma_pos_den(fadd(fadd(t1t, t2t), t3t), t4t);
    lemma_pos_den(t2t, t3t);
    lemma_pos_den(t1t, fadd(t2t, t3t));
    lemma_pos_den(fadd(t1t, fadd(t2t, t3t)), t4t);
    lemma_pos_den(fmul(fint(2), h1), fmul(fint(2), h2));
    lemma_pos_den(fmul(fmul(fint(2), h1), z2), fmul(fmul(fint(2), h2), z2));
    lemma_pos_den(vv2, z2);
    lemma_pos_den(mm, bb);
    lemma_pos_den(mm, fmul(vv2, z2));
    lemma_pos_den(mm, bbd);
    lemma_pos_den(t1t, fmul(mm, bb));
    lemma_pos_den(mm, fadd(fmul(h1, z1), fmul(vv, z2)));
    lemma_pos_den(fmul(mm, fadd(fmul(h1, z1), fmul(vv, z2))), t4t);
    lemma_pos_den(q1, q2);
    lemma_pos_den(mm, rl);
    lemma_pos_den(mm, ru);
    lemma_pos_den(fint(6), slr);
    lemma_pos_den(fint(6), sll);
    lemma_pos_den(fmul(fint(6), slr), fmul(fint(6), sll));
    lemma_pos_den(mm, rue);
    lemma_pos_den(mm, fmul(fint(6), slr));
    lemma_pos_den(mm, fmul(fint(6), sll));
    lemma_pos_den(fmul(mm, fmul(fint(6), slr)), fmul(mm, fmul(fint(6), sll)));
    lemma_pos_den(slr, h2);
    lemma_pos_den(sll, h1);
    lemma_pos_den(fint(6), fmul(slr, h2));
    lemma_pos_den(fint(6), fmul(sll, h1));
    lemma_pos_den(k1, fmul(fint(6), fmul(slr, h2)));
    lemma_pos_den(k2, fmul(fint(6), fmul(sll, h1)));
    lemma_pos_den(tb2, ta);
    lemma_pos_den(fadd(q1, q2), q2);
    lemma_pos_den(fsub(tb2, ta), q2);
    lemma_pos_den(tb2, q2);
    lemma_pos_den(fsub(tb2, q2), ta);
    lemma_pos_den(ta, q1);
    lemma_pos_den(ta, fsub(fsub(tb2, q2), ta));
    lemma_pos_den(fsub(fsub(tb2, q2), ta), ta);
    lemma_pos_den(k2, fr);
    lemma_pos_den(k1, er);
    lemma_sec_der_pos(secl, secl.t_end@);
    lemma_sec_der_pos(secr, secr.t_begin@);
    lemma_pos_den(k2, k1);
    lemma_pos_den(k1, dl);
    lemma_pos_den(k2, fmul(k1, dl));
    lemma_pos_den(fmul(k2, k1), dl);
    lemma_pos_den(k2, dr);
    lemma_pos_den(k1, fmul(k2, dr));
    // the two endpoint identities
    lemma_sec_der_end(secl, h1, z1, z2, ya, yb);
    lemma_sec_der_begin(secr, h2, z2, z3, yb, yc);
    // q1 == (m * h1*z1) + (m * (2h1)*z2)
    lemma_mul_distrib_add(hh1, z1, fmul(fint(2), z2));
    lemma_feq_refl(k2);
    lemma_mul_congr(k2, k2, p1, p1e);
    lemma_mul_distrib_add(k2, fmul(hh1, z1), fmul(hh1, fmul(fint(2), z2)));
    lemma_perm_j1(h1, h2, z1);
    lemma_perm_j2(h1, h2, z2);
    lemma_add_congr(fmul(k2, fmul(hh1, z1)), t1t, fmul(k2, fmul(hh1, fmul(fint(2), z2))), t2t);
    lemma_feq_trans(q1, fmul(k2, p1e), fadd(fmul(k2, fmul(hh1, z1)), fmul(k2, fmul(hh1, fmul(fint(2), z2)))));
    lemma_feq_trans(q1, fadd(fmul(k2, fmul(hh1, z1)), fmul(k2, fmul(hh1, fmul(fint(2), z2)))), fadd(t1t, t2t));
    // q2 == (m * (2h2)*z2) + (m * h2*z3)
    lemma_mul_distrib_add(hh2, fmul(fint(2), z2), z3);
    lemma_feq_refl(k1);
    lemma_mul_congr(k1, k1, p2, p2e);
    lemma_mul_distrib_add(k1, fmul(hh2, fmul(fint(2), z2)), fmul(hh2, z3));
    lemma_perm_j4(h1, h2, z2);
    lemma_perm_j3(h1, h2, z3);
    lemma_add_congr(fmul(k1, fmul(hh2, fmul(fint(2), z2))), t3t, fmul(k1, fmul(hh2, z3)), t4t);
    lemma_feq_trans(q2, fmul(k1, p2e), fadd(fmul(k1, fmul(hh2, fmul(fint(2), z2))), fmul(k1, fmul(hh2, z3))));
    lemma_feq_trans(q2, fadd(fmul(k1, fmul(hh2, fmul(fint(2), z2))), fmul(k1, fmul(hh2, z3))), fadd(t3t, t4t));
    // m * rl == t1 + ((t2 + t3) ...) + t4, grouped as the q-sum
    lemma_mul_distrib_add(mm, fadd(fmul(h1, z1), fmul(vv, z2)), fmul(h2, z3));
    lemma_mul_distrib_add(mm, fmul(h1, z1), fmul(vv, z2));
    lemma_mul_distrib_add(fint(2), h1, h2);
    lemma_feq_refl(z2);
    lemma_mul_congr(vv, vv2, z2, z2);
    lemma_mul_distrib_add_right(fmul(fint(2), h1), fmul(fint(2), h2), z2);
    lemma_pos_den(vv, z2);
    lemma_feq_trans(bb, fmul(vv2, z2), bbd);
    lemma_feq_refl(mm);
    lemma_mul_congr(mm, mm, bb, bbd);
    lemma_mul_distrib_add(mm, fmul(fmul(fint(2), h1), z2), fmul(fmul(fint(2), h2), z2));
    lemma_feq_trans(fmul(mm, bb), fmul(mm, bbd), fadd(t2t, t3t));
    lemma_feq_refl(t1t);
    lemma_add_congr(t1t, t1t, fmul(mm, bb), fadd(t2t, t3t));
    lemma_feq_trans(
        fmul(mm, fadd(fmul(h1, z1), fmul(vv, z2))),
        fadd(t1t, fmul(mm, bb)),
        fadd(t1t, fadd(t2t, t3t)),
    );
    lemma_feq_refl(t4t);
    lemma_add_congr(
        fmul(mm, fadd(fmul(h1, z1), fmul(vv, z2))),
        fadd(t1t, fadd(t2t, t3t)),
        t4t,
        t4t,
    );
    lemma_feq_trans(
        fmul(mm, rl),
        fadd(fmul(mm, fadd(fmul(h1, z1), fmul(vv, z2))), t4t),
        fadd(fadd(t1t, fadd(t2t, t3t)), t4t),
    );
    // the q-sum equals the same grouping
    lemma_add_congr(q1, fadd(t1t, t2t), q2, fadd(t3t, t4t));
    lemma_add_assoc(fadd(t1t, t2t), t3t, t4t);
    lemma_feq_sym(fadd(fadd(fadd(t1t, t2t), t3t), t4t), fadd(fadd(t1t, t2t), fadd(t3t, t4t)));
    lemma_add_assoc(t1t, t2t, t3t);
    lemma_add_congr(fadd(fadd(t1t, t2t), t3t), fadd(t1t, fadd(t2t, t3t)), t4t, t4t);
    lemma_feq_trans(
        fadd(q1, q2),
        fadd(fadd(t1t, t2t), fadd(t3t, t4t)),
        fadd(fadd(fadd(t1t, t2t), t3t), t4t),
    );
    lemma_feq_trans(
        fadd(q1, q2),
        fadd(fadd(fadd(t1t, t2t), t3t), t4t),
        fadd(fadd(t1t, fadd(t2t, t3t)), t4t),
    );
    lemma_feq_sym(fmul(mm, rl), fadd(fadd(t1t, fadd(t2t, t3t)), t4t));
    lemma_feq_trans(fadd(q1, q2), fadd(fadd(t1t, fadd(t2t, t3t)), t4t), fmul(mm, rl));
    // the row carries the sum over to tb - ta
    lemma_mul_congr(mm, mm, rl, ru);
    lemma_mul_distrib_sub(fint(6), slr, sll);
    lemma_mul_congr(mm, mm, ru, rue);
    lemma_mul_distrib_sub(mm, fmul(fint(6), slr), fmul(fint(6), sll));
    lemma_perm_j5(h1, h2, slr);
    lemma_feq_refl(fint(6));
    lemma_mul_congr(fint(6), fint(6), fmul(slr, h2), fsub(yc, yb));
    lemma_mul_congr(k1, k1, fmul(fint(6), fmul(slr, h2)), syr);
    lemma_feq_trans(
        fmul(mm, fmul(fint(6), slr)),
        fmul(k1, fmul(fint(6), fmul(slr, h2))),
        tb2,
    );
    lemma_perm_j6(h1, h2, sll);
    lemma_mul_congr(fint(6), fint(6), fmul(sll, h1), fsub(yb, ya));
    lemma_mul_congr(k2, k2, fmul(fint(6), fmul(sll, h1)), syl);
    lemma_feq_trans(
        fmul(mm, fmul(fint(6), sll)),
        fmul(k2, fmul(fint(6), fmul(sll, h1))),
        ta,
    );
    lemma_sub_congr(fmul(mm, fmul(fint(6), slr)), tb2, fmul(mm, fmul(fint(6), sll)), ta);
    lemma_feq_trans(
        fmul(mm, ru),
        fmul(mm, rue),
        fsub(fmul(mm, fmul(fint(6), slr)), fmul(mm, fmul(fint(6), sll))),
    );
    lemma_feq_trans(
        fmul(mm, ru),
        fsub(fmul(mm, fmul(fint(6), slr)), fmul(mm, fmul(fint(6), sll))),
        fsub(tb2, ta),
    );
    lemma_feq_trans(fadd(q1, q2), fmul(mm, rl), fmul(mm, ru));
    lemma_feq_trans(fadd(q1, q2), fmul(mm, ru), fsub(tb2, ta));
    // isolate q1 and close the central identity
    lemma_add_then_sub(q1, q2);
    lemma_feq_sym(fsub(fadd(q1, q2), q2), q1);
    lemma_feq_refl(q2);
    lemma_sub_congr(fadd(q1, q2), fsub(tb2, ta), q2, q2);
    lemma_feq_trans(q1, fsub(fadd(q1, q2), q2), fsub(fsub(tb2, ta), q2));
    lemma_sub_swap(tb2, ta, q2);
    lemma_feq_trans(q1, fsub(fsub(tb2, ta), q2), fsub(fsub(tb2, q2), ta));
    lemma_mul_distrib_add(k2, syl, p1);
    lemma_feq_refl(ta);
    lemma_add_congr(ta, ta, q1, fsub(fsub(tb2, q2), ta));
    lemma_add_comm(ta, fsub(fsub(tb2, q2), ta));
    lemma_sub_add_cancel(fsub(tb2, q2), ta);
    lemma_feq_trans(fmul(k2, fr), fadd(ta, q1), fadd(ta, fsub(fsub(tb2, q2), ta)));
    lemma_feq_trans(
        fmul(k2, fr),
        fadd(ta, fsub(fsub(tb2, q2), ta)),
        fadd(fsub(fsub(tb2, q2), ta), ta),
    );
    lemma_feq_trans(fmul(k2, fr), fadd(fsub(fsub(tb2, q2), ta), ta), fsub(tb2, q2));
    lemma_mul_distrib_sub(k1, syr, p2);
    lemma_feq_sym(fmul(k1, er), fsub(tb2, q2));
    lemma_feq_trans(fmul(k2, fr), fsub(tb2, q2), fmul(k1, er));
    // cancel the common factor (6h1)*(6h2)
    lemma_mul_comm(k1, k2);
    lemma_feq_refl(dl);
    lemma_mul_congr(kk, fmul(k2, k1), dl, dl);
    lemma_mul_assoc(k2, k1, dl);
    lemma_mul_congr(k2, k2, fmul(k1, dl), fr);
    lemma_feq_trans(fmul(kk, dl), fmul(fmul(k2, k1), dl), fmul(k2, fmul(k1, dl)));
    lemma_feq_trans(fmul(kk, dl), fmul(k2, fmul(k1, dl)), fmul(k2, fr));
    lemma_mul_assoc(k1, k2, dr);
    lemma_mul_congr(k1, k1, fmul(k2, dr), er);
    lemma_feq_trans(fmul(kk, dr), fmul(k1, fmul(k2, dr)), fmul(k1, er));
    lemma_feq_trans(fmul(kk, dl), fmul(k2, fr), fmul(k1, er));
    lemma_feq_sym(fmul(kk, dr), fmul(k1, er));
    lemma_feq_trans(fmul(kk, dl), fmul(k1, er), fmul(kk, dr));
    assert(kk.n != 0) by (nonlinear_arith)
        requires
            h1.n != 0,
            h2.n != 0,
            kk.n == (6 * h1.n) * (6 * h2.n),
    ;
    lemma_mul_cancel(kk, dl, dr);
}

/// A segment whose cubic coefficients denote zero has an identically
/// zero second derivative, at every abscissa.
pub proof fn lemma_sec_der2_zero(s: CubicSection, x: Frac)
    requires
        s.c_begin@.n == 0,
        s.c_end@.n == 0,
    ensures
        feq(sec_der2(s, x), crate::frac::fzero()),
{
    let u = fsub(x, s.t_begin@);
    let w = fsub(s.t_end@, x);
    lemma_zero_ops(s.c_begin@, u);
    lemma_zero_ops(fint(6), fmul(s.c_begin@, u));
    lemma_zero_ops(s.c_end@, w);
    lemma_zero_ops(fint(6), fmul(s.c_end@, w));
    lemma_zero_ops(fmul(fint(6), fmul(s.c_begin@, u)), fmul(fint(6), fmul(s.c_end@, w)));
    crate::frac::lemma_zero_feq(sec_der2(s, x));
}


/// With vanishing second-derivative unknowns the segment polynomial is
/// the chord line: its value at any abscissa is the left ordinate plus
/// the chord slope times the distance from the left breakpoint.
pub proof fn lemma_sec_value_line(
    s: CubicSection,
    h: Frac,
    z0: Frac,
    z1: Frac,
    y0: Frac,
    y1: Frac,
    sv: Frac,
    x: Frac,
)
    requires
        sec_data_wf(s, h, z0, z1, y0, y1),
        z0.n == 0,
        z1.n == 0,
        sv.d != 0,
        x.d != 0,
        feq(fmul(sv, h), fsub(y1, y0)),
    ensures
        feq(sec_value(s, x), fadd(y0, fmul(sv, fsub(x, s.t_begin@)))),
{
    let tb = s.t_begin@;
    let te = s.t_end@;
    let u = fsub(x, tb);
    let w = fsub(te, x);
    let cb = s.c_begin@;
    let ce = s.c_end@;
    let lb = s.l_begin@;
    let le = s.l_end@;
    let k = fmul(fint(6), h);
    let hh = fsq(h);
    let t1 = fmul(cb, fcube(u));
    let t2 = fmul(ce, fcube(w));
    let t3 = fmul(lb, u);
    let t4 = fmul(le, w);
    let v2 = fadd(t3, t4);
    let s6y1 = fmul(fint(6), y1);
    let s6y0 = fmul(fint(6), y0);
    let y1u = fmul(y1, u);
    let y0w = fmul(y0, w);
    let y0u = fmul(y0, u);
    let shu = fmul(fmul(sv, h), u);
    let ys = fadd(y0, fmul(sv, h));
    let ll = fadd(y0, fmul(sv, u));
    let vv = sec_value(s, x);
    // denominators stay nonzero throughout
    lemma_nz_den(x, tb);
    lemma_nz_den(te, x);
    lemma_pos_den(fint(6), h);
    lemma_pos_den(h, h);
    lemma_pos_den(fint(6), y1);
    lemma_pos_den(fint(6), y0);
    lemma_pos_den(z1, hh);
    lemma_pos_den(z0, hh);
    lemma_pos_den(s6y1, fmul(z1, hh));
    lemma_pos_den(s6y0, fmul(z0, hh));
    lemma_pos_den(cb, k);
    lemma_pos_den(ce, k);
    lemma_pos_den(lb, k);
    lemma_pos_den(le, k);
    lemma_nz_den(lb, u);
    lemma_nz_den(le, w);
    lemma_nz_den(t3, t4);
    lemma_nz_den(k, v2);
    lemma_nz_den(k, t3);
    lemma_nz_den(k, t4);
    lemma_nz_den(fmul(k, t3), fmul(k, t4));
    lemma_nz_den(k, lb);
    lemma_nz_den(u, fmul(k, lb));
    lemma_nz_den(u, s6y1);
    lemma_nz_den(u, y1);
    lemma_nz_den(fint(6), fmul(u, y1));
    lemma_nz_den(y1, u);
    lemma_nz_den(fint(6), y1u);
    lemma_nz_den(k, le);
    lemma_nz_den(w, fmul(k, le));
    lemma_nz_den(w, s6y0);
    lemma_nz_den(w, y0);
    lemma_nz_den(fint(6), fmul(w, y0));
    lemma_nz_den(y0, w);
    lemma_nz_den(fint(6), y0w);
    lemma_nz_den(y1u, y0w);
    lemma_nz_den(fint(6), fadd(y1u, y0w));
    lemma_nz_den(sv, h);
    lemma_nz_den(y0, fmul(sv, h));
    lemma_nz_den(ys, u);
    lemma_nz_den(fmul(sv, h), u);
    lemma_nz_den(y0, u);
    lemma_nz_den(y0u, shu);
    lemma_nz_den(fadd(y0u, shu), y0w);
    lemma_nz_den(shu, y0w);
    lemma_nz_den(y0w, shu);
    lemma_nz_den(y0u, fadd(shu, y0w));
    lemma_nz_den(y0u, fadd(y0w, shu));
    lemma_nz_den(y0u, y0w);
    lemma_nz_den(fadd(y0u, y0w), shu);
    lemma_nz_den(u, w);
    lemma_nz_den(y0, fadd(u, w));
    lemma_nz_den(te, tb);
    lemma_nz_den(y0, fsub(te, tb));
    lemma_nz_den(y0, h);
    lemma_nz_den(h, y0);
    lemma_nz_den(sv, u);
    lemma_nz_den(h, fmul(sv, u));
    lemma_nz_den(h, u);
    lemma_nz_den(sv, fmul(h, u));
    lemma_nz_den(fmul(h, y0), fmul(h, fmul(sv, u)));
    lemma_nz_den(y0, fmul(sv, u));
    lemma_nz_den(h, ll);
    lemma_nz_den(fint(6), fmul(h, ll));
    lemma_nz_den(k, ll);
    lemma_nz_den(u, u);
    lemma_nz_den(u, fmul(u, u));
    lemma_nz_den(w, w);
    lemma_nz_den(w, fmul(w, w));
    lemma_nz_den(cb, fcube(u));
    lemma_nz_den(ce, fcube(w));
    lemma_nz_den(t1, t2);
    lemma_nz_den(fadd(t1, t2), t3);
    lemma_nz_den(fadd(fadd(t1, t2), t3), t4);
    lemma_nz_den(k, vv);
    // the cubic terms vanish
    lemma_feq_zero(fmul(cb, k), z1);
    lemma_mul_zero_factor(cb, k);
    lemma_feq_zero(fmul(ce, k), z0);
    lemma_mul_zero_factor(ce, k);
    lemma_zero_ops(cb, fcube(u));
    lemma_zero_ops(ce, fcube(w));
    lemma_zero_ops(t1, t2);
    lemma_add_zero_left(fadd(t1, t2), t3);
    lemma_feq_refl(t4);
    lemma_nz_den(cb, fcube(u));
    lemma_nz_den(ce, fcube(w));
    lemma_nz_den(t1, t2);
    lemma_nz_den(fadd(t1, t2), t3);
    lemma_add_congr(fadd(fadd(t1, t2), t3), t3, t4, t4);
    // the linear coefficients collapse to the ordinates
    lemma_zero_ops(z1, hh);
    lemma_sub_zero_right(s6y1, fmul(z1, hh));
    lemma_feq_trans(fmul(lb, k), fsub(s6y1, fmul(z1, hh)), s6y1);
    lemma_zero_ops(z0, hh);
    lemma_sub_zero_right(s6y0, fmul(z0, hh));
    lemma_feq_trans(fmul(le, k), fsub(s6y0, fmul(z0, hh)), s6y0);
    // multiply the remaining sum by 6h
    lemma_feq_refl(k);
    lemma_mul_congr(k, k, vv, v2);
    lemma_mul_distrib_add(k, t3, t4);
    lemma_mul_shuffle3(k, lb, u);
    lemma_mul_comm(k, lb);
    lemma_feq_refl(u);
    lemma_mul_congr(u, u, fmul(k, lb), fmul(lb, k));
    lemma_mul_congr(u, u, fmul(lb, k), s6y1);
    lemma_mul_shuffle3(u, fint(6), y1);
    lemma_mul_comm(u, y1);
    lemma_feq_refl(fint(6));
    lemma_mul_congr(fint(6), fint(6), fmul(u, y1), y1u);
    lemma_nz_den(lb, k);
    lemma_feq_trans(fmul(k, t3), fmul(u, fmul(k, lb)), fmul(u, fmul(lb, k)));
    lemma_nz_den(u, fmul(lb, k));
    lemma_feq_trans(fmul(k, t3), fmul(u, fmul(lb, k)), fmul(u, s6y1));
    lemma_feq_trans(fmul(k, t3), fmul(u, s6y1), fmul(fint(6), fmul(u, y1)));
    lemma_feq_trans(fmul(k, t3), fmul(fint(6), fmul(u, y1)), fmul(fint(6), y1u));
    lemma_mul_shuffle3(k, le, w);
    lemma_mul_comm(k, le);
    lemma_feq_refl(w);
    lemma_mul_congr(w, w, fmul(k, le), fmul(le, k));
    lemma_mul_congr(w, w, fmul(le, k), s6y0);
    lemma_mul_shuffle3(w, fint(6), y0);
    lemma_mul_comm(w, y0);
    lemma_mul_congr(fint(6), fint(6), fmul(w, y0), y0w);
    lemma_nz_den(le, k);
    lemma_feq_trans(fmul(k, t4), fmul(w, fmul(k, le)), fmul(w, fmul(le, k)));
    lemma_nz_den(w, fmul(le, k));
    lemma_feq_trans(fmul(k, t4), fmul(w, fmul(le, k)), fmul(w, s6y0));
    lemma_feq_trans(fmul(k, t4), fmul(w, s6y0), fmul(fint(6), fmul(w, y0)));
    lemma_feq_trans(fmul(k, t4), fmul(fint(6), fmul(w, y0)), fmul(fint(6), y0w));
    lemma_add_congr(fmul(k, t3), fmul(fint(6), y1u), fmul(k, t4), fmul(fint(6), y0w));
    lemma_mul_distrib_add(fint(6), y1u, y0w);
    lemma_feq_sym(fmul(fint(6), fadd(y1u, y0w)), fadd(fmul(fint(6), y1u), fmul(fint(6), y0w)));
    lemma_nz_den(fmul(fint(6), y1u), fmul(fint(6), y0w));
    lemma_feq_trans(
        fmul(k, v2),
        fadd(fmul(k, t3), fmul(k, t4)),
        fadd(fmul(fint(6), y1u), fmul(fint(6), y0w)),
    );
    lemma_feq_trans(
        fmul(k, v2),
        fadd(fmul(fint(6), y1u), fmul(fint(6), y0w)),
        fmul(fint(6), fadd(y1u, y0w)),
    );
    // the chord line: y1 == y0 + sv*h
    lemma_add_comm(y0, fsub(y1, y0));
    lemma_sub_add_cancel(y1, y0);
    lemma_nz_den(y1, y0);
    lemma_nz_den(y0, fsub(y1, y0));
    lemma_nz_den(fsub(y1, y0), y0);
    lemma_feq_trans(fadd(y0, fsub(y1, y0)), fadd(fsub(y1, y0), y0), y1);
    lemma_feq_sym(fmul(sv, h), fsub(y1, y0));
    lemma_feq_refl(y0);
    lemma_add_congr(y0, y0, fmul(sv, h), fsub(y1, y0));
    lemma_feq_trans(ys, fadd(y0, fsub(y1, y0)), y1);
    lemma_feq_sym(ys, y1);
    // y1*u + y0*w == h * (y0 + sv*u)
    lemma_mul_congr(y1, ys, u, u);
    lemma_mul_comm(ys, u);
    lemma_mul_distrib_add(u, y0, fmul(sv, h));
    lemma_mul_comm(u, y0);
    lemma_mul_comm(u, fmul(sv, h));
    lemma_add_congr(fmul(u, y0), y0u, fmul(u, fmul(sv, h)), shu);
    lemma_nz_den(u, ys);
    lemma_nz_den(u, y0);
    lemma_nz_den(u, fmul(sv, h));
    lemma_nz_den(fmul(u, y0), fmul(u, fmul(sv, h)));
    lemma_feq_trans(fmul(ys, u), fmul(u, ys), fadd(fmul(u, y0), fmul(u, fmul(sv, h))));
    lemma_feq_trans(
        fmul(ys, u),
        fadd(fmul(u, y0), fmul(u, fmul(sv, h))),
        fadd(y0u, shu),
    );
    lemma_nz_den(ys, u);
    lemma_feq_trans(y1u, fmul(ys, u), fadd(y0u, shu));
    lemma_add_congr(y1u, fadd(y0u, shu), y0w, y0w);
    lemma_add_assoc(y0u, shu, y0w);
    lemma_add_comm(shu, y0w);
    lemma_add_congr(y0u, y0u, fadd(shu, y0w), fadd(y0w, shu));
    lemma_add_assoc(y0u, y0w, shu);
    lemma_feq_sym(fadd(fadd(y0u, y0w), shu), fadd(y0u, fadd(y0w, shu)));
    lemma_feq_trans(
        fadd(y1u, y0w),
        fadd(fadd(y0u, shu), y0w),
        fadd(y0u, fadd(shu, y0w)),
    );
    lemma_feq_trans(
        fadd(y1u, y0w),
        fadd(y0u, fadd(shu, y0w)),
        fadd(y0u, fadd(y0w, shu)),
    );
    lemma_feq_trans(
        fadd(y1u, y0w),
        fadd(y0u, fadd(y0w, shu)),
        fadd(fadd(y0u, y0w), shu),
    );
    lemma_mul_distrib_add(y0, u, w);
    lemma_feq_sym(fmul(y0, fadd(u, w)), fadd(y0u, y0w));
    lemma_telescope(x, te, tb);
    lemma_mul_congr(y0, y0, fadd(u, w), fsub(te, tb));
    lemma_feq_sym(h, fsub(te, tb));
    lemma_feq_sym(fsub(te, tb), h);
    lemma_mul_congr(y0, y0, fsub(te, tb), h);
    lemma_mul_comm(y0, h);
    lemma_nz_den(y0, fadd(u, w));
    lemma_feq_trans(fadd(y0u, y0w), fmul(y0, fadd(u, w)), fmul(y0, fsub(te, tb)));
    lemma_feq_trans(fadd(y0u, y0w), fmul(y0, fsub(te, tb)), fmul(y0, h));
    lemma_feq_trans(fadd(y0u, y0w), fmul(y0, h), fmul(h, y0));
    lemma_mul_assoc(sv, h, u);
    lemma_mul_shuffle3(h, sv, u);
    lemma_feq_sym(fmul(h, fmul(sv, u)), fmul(sv, fmul(h, u)));
    lemma_feq_trans(shu, fmul(sv, fmul(h, u)), fmul(h, fmul(sv, u)));
    lemma_add_congr(fadd(y0u, y0w), fmul(h, y0), shu, fmul(h, fmul(sv, u)));
    lemma_mul_distrib_add(h, y0, fmul(sv, u));
    lemma_feq_sym(fmul(h, ll), fadd(fmul(h, y0), fmul(h, fmul(sv, u))));
    lemma_feq_trans(
        fadd(y1u, y0w),
        fadd(fadd(y0u, y0w), shu),
        fadd(fmul(h, y0), fmul(h, fmul(sv, u))),
    );
    lemma_feq_trans(
        fadd(y1u, y0w),
        fadd(fmul(h, y0), fmul(h, fmul(sv, u))),
        fmul(h, ll),
    );
    // reassemble and cancel 6h
    lemma_mul_congr(fint(6), fint(6), fadd(y1u, y0w), fmul(h, ll));
    lemma_mul_assoc(fint(6), h, ll);
    lemma_feq_sym(fmul(k, ll), fmul(fint(6), fmul(h, ll)));
    lemma_feq_trans(fmul(k, v2), fmul(fint(6), fadd(y1u, y0w)), fmul(fint(6), fmul(h, ll)));
    lemma_feq_trans(fmul(k, v2), fmul(fint(6), fmul(h, ll)), fmul(k, ll));
    lemma_feq_trans(fmul(k, vv), fmul(k, v2), fmul(k, ll));
    lemma_mul_cancel(k, vv, ll);
}

/// Chain the exec square and cube, built out of single multiplications,
/// back to the model: from `u == t`, `u2 == u*u` and `u3 == u*u2` follow
/// `u2 == t^2` and `u3 == t^3`.
proof fn lemma_cube_chain(u: Rat, u2: Rat, u3: Rat, t: Frac)
    requires
        u.wf(),
        u2.wf(),
        u3.wf(),
        t.d > 0,
        feq(u@, t),
        feq(u2@, fmul(u@, u@)),
        feq(u3@, fmul(u@, u2@)),
    ensures
        feq(u2@, fsq(t)),
        feq(u3@, fcube(t)),
{
    lemma_mul_congr(u@, t, u@, t);
    lemma_pos_den(u@, u@);
    lemma_feq_trans(u2@, fmul(u@, u@), fmul(t, t));
    lemma_mul_congr(u@, t, u2@, fmul(t, t));
    lemma_pos_den(u@, u2@);
    lemma_feq_trans(u3@, fmul(u@, u2@), fcube(t));
}

/// From `u == t` and `u2 == u*u` follows `u2 == t^2`.
proof fn lemma_sq_chain(u: Rat, u2: Rat, t: Frac)
    requires
        u.wf(),
        u2.wf(),
        t.d > 0,
        feq(u@, t),
        feq(u2@, fmul(u@, u@)),
    ensures
        feq(u2@, fsq(t)),
{
    lemma_mul_congr(u@, t, u@, t);
    lemma_pos_den(u@, u@);
    lemma_feq_trans(u2@, fmul(u@, u@), fmul(t, t));
}

} // verus!
