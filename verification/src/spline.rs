//! The piecewise cubic itself: an ordered list of segments between
//! ordered breakpoints, with value / first derivative / second derivative
//! evaluation at an arbitrary abscissa.
//!
//! Segment lookup scans the breakpoints in ascending order and selects
//! the first segment whose upper breakpoint lies strictly above the
//! query, so a query exactly on an interior breakpoint falls in the
//! later segment; queries beyond the support clamp to the outermost
//! segment and extrapolate its polynomial.

use vstd::prelude::*;

use crate::error::SplineError;
use crate::frac::{
    feq, fint, flt, fvalid, fzero, fadd, fdiv, fmul, fsq, fsub, Frac, lemma_add_comm,
    lemma_add_congr,
    lemma_add_zero_left, lemma_add_zero_right,
    lemma_div_congr_left, lemma_div_congr_right, lemma_div_mul, lemma_feq_refl, lemma_feq_sign,
    lemma_feq_sym, lemma_feq_trans, lemma_feq_zero, lemma_flt_trans, lemma_mul_assoc,
    lemma_line_step, lemma_mul_cancel, lemma_mul_comm, lemma_mul_congr, lemma_mul_div,
    lemma_nz_den,
    lemma_mul_distrib_sub,
    lemma_mul_distrib_sub_right, lemma_mul_one, lemma_mul_shuffle3, lemma_mul_zero_factor,
    lemma_pos_den, lemma_pos_den_div, lemma_sub_add_cancel, lemma_sub_congr, lemma_sub_sub_cancel,
    lemma_zero_ops,
};
use crate::rat::Rat;
use crate::section::{
    lemma_sec_der_begin, lemma_sec_der_end, lemma_sec_der_junction, lemma_sec_der2_begin,
    lemma_sec_der2_end,
    lemma_sec_der2_zero, lemma_sec_value_begin, lemma_sec_value_end, lemma_sec_value_line,
    sec_coeffs, sec_data_wf,
    sec_der, sec_der2, sec_value, CubicSection,
};
use crate::tridiagonal::{all_wf, all_zero, solve_tridiagonal};

verus! {

/// The boundary condition a spline is built with: vanishing second
/// derivative at both ends, or first derivatives pinned to two given
/// values.
#[derive(Clone, Copy)]
pub enum BoundaryMode {
    Natural,
    Clamped(Rat, Rat),
}

/// Every abscissa and ordinate is a well-formed rational.
pub open spec fn pts_wf(ps: Seq<(Rat, Rat)>) -> bool {
    forall|i: int| 0 <= i < ps.len() ==> (#[trigger] ps[i]).0.wf() && ps[i].1.wf()
}

/// The abscissas are strictly increasing.
pub open spec fn strictly_increasing(ps: Seq<(Rat, Rat)>) -> bool {
    forall|i: int| 0 <= i < ps.len() - 1 ==> flt((#[trigger] ps[i]).0@, ps[i + 1].0@)
}

/// The slope of the chord between samples `i` and `i + 1`.
pub open spec fn slope_of(ps: Seq<(Rat, Rat)>, i: int) -> Frac {
    fdiv(fsub(ps[i + 1].1@, ps[i].1@), fsub(ps[i + 1].0@, ps[i].0@))
}

/// All samples lie on one line: consecutive chord slopes agree.
pub open spec fn colinear(ps: Seq<(Rat, Rat)>) -> bool {
    forall|i: int| 0 <= i < ps.len() - 2 ==> feq(#[trigger] slope_of(ps, i), slope_of(ps, i + 1))
}

/// A cubic spline: `n - 1` segments over `n` strictly increasing
/// breakpoints, read-only once built.
pub struct CubicSpline {
    sections: Vec<CubicSection>,
    section_bounds: Vec<Rat>,
}

/// The index of the segment that the lookup scan selects for `x`,
/// starting the scan at segment `j`.
pub open spec fn find_from(bounds: Seq<Rat>, x: Frac, j: int) -> int
    recommends
        bounds.len() >= 2,
        0 <= j <= bounds.len() - 2,
    decreases bounds.len() - j,
{
    if j >= bounds.len() - 2 {
        bounds.len() - 2
    } else if flt(x, bounds[j + 1]@) {
        j
    } else {
        find_from(bounds, x, j + 1)
    }
}

/// The scan starting within range stays within range and never moves
/// backwards.
pub proof fn lemma_find_from_range(bounds: Seq<Rat>, x: Frac, j: int)
    requires
        bounds.len() >= 2,
        0 <= j <= bounds.len() - 2,
    ensures
        j <= find_from(bounds, x, j) <= bounds.len() - 2,
    decreases bounds.len() - j,
{
    if j < bounds.len() - 2 && !flt(x, bounds[j + 1]@) {
        lemma_find_from_range(bounds, x, j + 1);
    }
}

impl CubicSpline {
    pub closed spec fn spec_sections(&self) -> Seq<CubicSection> {
        self.sections@
    }

    pub closed spec fn spec_bounds(&self) -> Seq<Rat> {
        self.section_bounds@
    }

    /// Well-formed: matching lengths, well-formed entries, strictly
    /// increasing breakpoints, and each segment spanning exactly its two
    /// breakpoints.
    pub open spec fn wf(&self) -> bool {
        &&& self.spec_bounds().len() >= 2
        &&& self.spec_sections().len() == self.spec_bounds().len() - 1
        &&& forall|i: int|
            0 <= i < self.spec_bounds().len() ==> (#[trigger] self.spec_bounds()[i]).wf()
        &&& forall|i: int|
            0 <= i < self.spec_sections().len() ==> (#[trigger] self.spec_sections()[i]).wf()
        &&& forall|i: int|
            0 <= i < self.spec_sections().len() ==> (#[trigger] self.spec_sections()[i]).t_begin
                == self.spec_bounds()[i] && self.spec_sections()[i].t_end == self.spec_bounds()[i
                + 1]
        &&& forall|i: int|
            0 <= i < self.spec_bounds().len() - 1 ==> flt(
                (#[trigger] self.spec_bounds()[i])@,
                self.spec_bounds()[i + 1]@,
            )
    }

    /// Construct from parts; the builder uses this.
    pub(crate) fn from_parts(sections: Vec<CubicSection>, section_bounds: Vec<Rat>) -> (s:
        CubicSpline)
        ensures
            s.spec_sections() == sections@,
            s.spec_bounds() == section_bounds@,
    {
        CubicSpline { sections, section_bounds }
    }

    /// How many segments the spline has.
    pub fn section_count(&self) -> (n: usize)
        ensures
            n == self.spec_sections().len(),
    {
        self.sections.len()
    }

    /// How many breakpoints the spline has.
    pub fn bound_count(&self) -> (n: usize)
        ensures
            n == self.spec_bounds().len(),
    {
        self.section_bounds.len()
    }

    /// The `i`-th segment.
    pub fn section(&self, i: usize) -> (s: CubicSection)
        requires
            i < self.spec_sections().len(),
        ensures
            s == self.spec_sections()[i as int],
    {
        self.sections[i]
    }

    /// The `i`-th breakpoint.
    pub fn bound(&self, i: usize) -> (b: Rat)
        requires
            i < self.spec_bounds().len(),
        ensures
            b == self.spec_bounds()[i as int],
    {
        self.section_bounds[i]
    }

    /// The index of the segment responsible for `x`: the first whose
    /// upper breakpoint lies strictly above `x`, or the last segment.
    pub fn find_section(&self, x: &Rat) -> (idx: usize)
        requires
            self.wf(),
            x.wf(),
        ensures
            idx < self.spec_sections().len(),
            idx == find_from(self.spec_bounds(), x@, 0),
    {
        let n = self.section_bounds.len();
        let mut i: usize = 0;
        while i < n - 2
            invariant
                self.wf(),
                x.wf(),
                n == self.spec_bounds().len(),
                0 <= i <= n - 2,
                find_from(self.spec_bounds(), x@, 0) == find_from(self.spec_bounds(), x@, i as int),
            decreases n - i,
        {
            if x.lt(&self.section_bounds[i + 1]) {
                return i;
            }
            i += 1;
        }
        proof {
            lemma_find_from_range(self.spec_bounds(), x@, 0);
        }
        i
    }

    /// The spline's value at `x`, exactly.
    pub fn calc(&self, x: &Rat) -> (r: Result<Rat, SplineError>)
        requires
            self.wf(),
            x.wf(),
        ensures
            r matches Ok(v) ==> v.wf() && feq(v@, spline_value(self, x@)),
            r is Err ==> r == Err::<Rat, SplineError>(SplineError::Overflow),
    {
        let idx = self.find_section(x);
        let s = self.sections[idx];
        s.calc(x)
    }

    /// The spline's first derivative at `x`, exactly.
    pub fn calc_der(&self, x: &Rat) -> (r: Result<Rat, SplineError>)
        requires
            self.wf(),
            x.wf(),
        ensures
            r matches Ok(v) ==> v.wf() && feq(v@, spline_der(self, x@)),
            r is Err ==> r == Err::<Rat, SplineError>(SplineError::Overflow),
    {
        let idx = self.find_section(x);
        let s = self.sections[idx];
        s.calc_der(x)
    }

    /// The spline's second derivative at `x`, exactly.
    pub fn calc_der2(&self, x: &Rat) -> (r: Result<Rat, SplineError>)
        requires
            self.wf(),
            x.wf(),
        ensures
            r matches Ok(v) ==> v.wf() && feq(v@, spline_der2(self, x@)),
            r is Err ==> r == Err::<Rat, SplineError>(SplineError::Overflow),
    {
        let idx = self.find_section(x);
        let s = self.sections[idx];
        s.calc_der2(x)
    }
}

/// The segment the lookup selects for `x`.
pub open spec fn spline_section(s: &CubicSpline, x: Frac) -> CubicSection {
    s.spec_sections()[find_from(s.spec_bounds(), x, 0)]
}

/// The spline's value at `x`: the selected segment's polynomial there.
pub open spec fn spline_value(s: &CubicSpline, x: Frac) -> Frac {
    sec_value(spline_section(s, x), x)
}

/// The spline's first derivative at `x`.
pub open spec fn spline_der(s: &CubicSpline, x: Frac) -> Frac {
    sec_der(spline_section(s, x), x)
}

/// The spline's second derivative at `x`.
pub open spec fn spline_der2(s: &CubicSpline, x: Frac) -> Frac {
    sec_der2(spline_section(s, x), x)
}

/// The interior equation of the spline system at interior breakpoint
/// `i`: `h[i-1]*z[i-1] + 2*(h[i-1]+h[i])*z[i] + h[i]*z[i+1]` denotes
/// `6*(sl[i] - sl[i-1])`.
pub open spec fn interior_row(h: Seq<Rat>, sl: Seq<Rat>, z: Seq<Rat>, i: int) -> bool {
    feq(
        fadd(
            fadd(fmul(h[i - 1]@, z[i - 1]@), fmul(fmul(fint(2), fadd(h[i - 1]@, h[i]@)), z[i]@)),
            fmul(h[i]@, z[i + 1]@),
        ),
        fmul(fint(6), fsub(sl[i]@, sl[i - 1]@)),
    )
}

/// Substitute equal coefficients and unknowns into a satisfied
/// three-term row.
proof fn lemma_row_subst(
    a1: Frac,
    b1: Frac,
    c1: Frac,
    d1: Frac,
    x1: Frac,
    x2: Frac,
    x3: Frac,
    a2: Frac,
    b2: Frac,
    c2: Frac,
    d2: Frac,
    w1: Frac,
    w2: Frac,
    w3: Frac,
)
    requires
        a1.d > 0,
        b1.d > 0,
        c1.d > 0,
        d1.d > 0,
        x1.d > 0,
        x2.d > 0,
        x3.d > 0,
        feq(a1, a2),
        feq(b1, b2),
        feq(c1, c2),
        feq(d1, d2),
        feq(x1, w1),
        feq(x2, w2),
        feq(x3, w3),
        feq(fadd(fadd(fmul(a1, x1), fmul(b1, x2)), fmul(c1, x3)), d1),
    ensures
        feq(fadd(fadd(fmul(a2, w1), fmul(b2, w2)), fmul(c2, w3)), d2),
{
    lemma_feq_sym(a1, a2);
    lemma_feq_sym(b1, b2);
    lemma_feq_sym(c1, c2);
    lemma_feq_sym(x1, w1);
    lemma_feq_sym(x2, w2);
    lemma_feq_sym(x3, w3);
    lemma_mul_congr(a2, a1, w1, x1);
    lemma_mul_congr(b2, b1, w2, x2);
    lemma_mul_congr(c2, c1, w3, x3);
    lemma_add_congr(fmul(a2, w1), fmul(a1, x1), fmul(b2, w2), fmul(b1, x2));
    lemma_add_congr(
        fadd(fmul(a2, w1), fmul(b2, w2)),
        fadd(fmul(a1, x1), fmul(b1, x2)),
        fmul(c2, w3),
        fmul(c1, x3),
    );
    lemma_pos_den(a1, x1);
    lemma_pos_den(b1, x2);
    lemma_pos_den(c1, x3);
    lemma_pos_den(fmul(a1, x1), fmul(b1, x2));
    lemma_pos_den(fadd(fmul(a1, x1), fmul(b1, x2)), fmul(c1, x3));
    lemma_feq_trans(
        fadd(fadd(fmul(a2, w1), fmul(b2, w2)), fmul(c2, w3)),
        fadd(fadd(fmul(a1, x1), fmul(b1, x2)), fmul(c1, x3)),
        d1,
    );
    lemma_feq_trans(fadd(fadd(fmul(a2, w1), fmul(b2, w2)), fmul(c2, w3)), d1, d2);
}

/// Prepend a zero-denoting term to a satisfied two-term row.
proof fn lemma_row_pad_left(t0: Frac, x: Frac, y: Frac, u: Frac)
    requires
        t0.n == 0,
        t0.d > 0,
        x.d > 0,
        y.d > 0,
        feq(fadd(x, y), u),
    ensures
        feq(fadd(fadd(t0, x), y), u),
{
    lemma_add_zero_left(t0, x);
    lemma_feq_refl(y);
    lemma_add_congr(fadd(t0, x), x, y, y);
    lemma_pos_den(x, y);
    lemma_feq_trans(fadd(fadd(t0, x), y), fadd(x, y), u);
}

/// Append a zero-denoting term to a satisfied sum.
proof fn lemma_row_pad_right(x: Frac, t: Frac, u: Frac)
    requires
        t.n == 0,
        x.d > 0,
        feq(x, u),
    ensures
        feq(fadd(x, t), u),
{
    lemma_add_zero_right(x, t);
    lemma_feq_trans(fadd(x, t), x, u);
}

/// Segment widths `h[i] == t[i+1] - t[i]`; positive for strictly
/// increasing abscissas.
fn compute_widths(points: &Vec<(Rat, Rat)>) -> (r: Result<Vec<Rat>, SplineError>)
    requires
        pts_wf(points@),
        strictly_increasing(points@),
        points.len() >= 2,
    ensures
        r matches Ok(h) ==> {
            &&& h.len() == points.len() - 1
            &&& forall|j: int|
                0 <= j < h.len() ==> (#[trigger] h@[j]).wf() && h@[j]@.n > 0 && feq(
                    h@[j]@,
                    fsub(points@[j + 1].0@, points@[j].0@),
                )
        },
        r is Err ==> r == Err::<Vec<Rat>, SplineError>(SplineError::Overflow),
{
    let n = points.len();
    let mut h: Vec<Rat> = Vec::new();
    let mut i: usize = 0;
    while i + 1 < n
        invariant
            pts_wf(points@),
            strictly_increasing(points@),
            n == points.len(),
            n >= 2,
            i <= n - 1,
            h.len() == i,
            forall|j: int|
                0 <= j < h.len() ==> (#[trigger] h@[j]).wf() && h@[j]@.n > 0 && feq(
                    h@[j]@,
                    fsub(points@[j + 1].0@, points@[j].0@),
                ),
        decreases n - i,
    {
        let hv = points[i + 1].0.sub(&points[i].0)?;
        proof {
            let a = points@[i as int].0@;
            let b = points@[i + 1].0@;
            lemma_pos_den(b, a);
            lemma_feq_sign(hv@, fsub(b, a));
        }
        h.push(hv);
        i += 1;
    }
    Ok(h)
}

/// Segment slopes: `sl[i] * h[i] == y[i+1] - y[i]`.
fn compute_slopes(points: &Vec<(Rat, Rat)>, h: &Vec<Rat>) -> (r: Result<Vec<Rat>, SplineError>)
    requires
        pts_wf(points@),
        points.len() >= 2,
        h.len() == points.len() - 1,
        forall|j: int|
            0 <= j < h.len() ==> (#[trigger] h@[j]).wf() && h@[j]@.n > 0 && feq(
                h@[j]@,
                fsub(points@[j + 1].0@, points@[j].0@),
            ),
    ensures
        r matches Ok(sl) ==> {
            &&& sl.len() == points.len() - 1
            &&& forall|j: int|
                0 <= j < sl.len() ==> (#[trigger] sl@[j]).wf() && feq(
                    fmul(sl@[j]@, h@[j]@),
                    fsub(points@[j + 1].1@, points@[j].1@),
                )
        },
        r is Err ==> r == Err::<Vec<Rat>, SplineError>(SplineError::Overflow),
{
    let n = points.len();
    let mut sl: Vec<Rat> = Vec::new();
    let mut i: usize = 0;
    while i + 1 < n
        invariant
            pts_wf(points@),
            n == points.len(),
            n >= 2,
            i <= n - 1,
            h.len() == n - 1,
            forall|j: int|
                0 <= j < h.len() ==> (#[trigger] h@[j]).wf() && h@[j]@.n > 0 && feq(
                    h@[j]@,
                    fsub(points@[j + 1].0@, points@[j].0@),
                ),
            sl.len() == i,
            forall|j: int|
                0 <= j < sl.len() ==> (#[trigger] sl@[j]).wf() && feq(
                    fmul(sl@[j]@, h@[j]@),
                    fsub(points@[j + 1].1@, points@[j].1@),
                ),
        decreases n - i,
    {
        let dy = points[i + 1].1.sub(&points[i].1)?;
        let slv = dy.div(&h[i])?;
        proof {
            lemma_div_mul(slv@, dy@, h@[i as int]@);
            lemma_feq_refl(slv@);
            lemma_mul_congr(slv@, slv@, h@[i as int]@, h@[i as int]@);
            lemma_pos_den(slv@, h@[i as int]@);
            lemma_feq_trans(
                fmul(slv@, h@[i as int]@),
                dy@,
                fsub(points@[i + 1].1@, points@[i as int].1@),
            );
        }
        sl.push(slv);
        i += 1;
    }
    Ok(sl)
}

/// Main diagonal and right-hand side of the interior system:
/// `v[j] == 2*(h[j] + h[j+1])` and `u[j] == 6*(sl[j+1] - sl[j])`,
/// one row for each interior breakpoint `j + 1`.
fn compute_interior(h: &Vec<Rat>, sl: &Vec<Rat>) -> (r: Result<
    (Vec<Rat>, Vec<Rat>),
    SplineError,
>)
    requires
        h.len() >= 2,
        sl.len() == h.len(),
        forall|j: int| 0 <= j < h.len() ==> (#[trigger] h@[j]).wf(),
        forall|j: int| 0 <= j < sl.len() ==> (#[trigger] sl@[j]).wf(),
    ensures
        r matches Ok(vu) ==> {
            &&& vu.0.len() == h.len() - 1
            &&& vu.1.len() == h.len() - 1
            &&& forall|j: int|
                0 <= j < vu.0.len() ==> (#[trigger] vu.0@[j]).wf() && feq(
                    vu.0@[j]@,
                    fmul(fint(2), fadd(h@[j]@, h@[j + 1]@)),
                )
            &&& forall|j: int|
                0 <= j < vu.1.len() ==> (#[trigger] vu.1@[j]).wf() && feq(
                    vu.1@[j]@,
                    fmul(fint(6), fsub(sl@[j + 1]@, sl@[j]@)),
                )
        },
        r is Err ==> r == Err::<(Vec<Rat>, Vec<Rat>), SplineError>(SplineError::Overflow),
{
    let two = Rat::from_int(2);
    let six = Rat::from_int(6);
    let m = h.len();
    let mut v: Vec<Rat> = Vec::new();
    let mut u: Vec<Rat> = Vec::new();
    let mut i: usize = 1;
    while i < m
        invariant
            two@ == fint(2),
            six@ == fint(6),
            two.wf(),
            six.wf(),
            m == h.len(),
            m >= 2,
            sl.len() == m,
            1 <= i <= m,
            forall|j: int| 0 <= j < h.len() ==> (#[trigger] h@[j]).wf(),
            forall|j: int| 0 <= j < sl.len() ==> (#[trigger] sl@[j]).wf(),
            v.len() == i - 1,
            u.len() == i - 1,
            forall|j: int|
                0 <= j < v.len() ==> (#[trigger] v@[j]).wf() && feq(
                    v@[j]@,
                    fmul(fint(2), fadd(h@[j]@, h@[j + 1]@)),
                ),
            forall|j: int|
                0 <= j < u.len() ==> (#[trigger] u@[j]).wf() && feq(
                    u@[j]@,
                    fmul(fint(6), fsub(sl@[j + 1]@, sl@[j]@)),
                ),
        decreases m - i,
    {
        let hs = h[i - 1].add(&h[i])?;
        let vv = two.mul(&hs)?;
        let ds = sl[i].sub(&sl[i - 1])?;
        let uv = six.mul(&ds)?;
        proof {
            lemma_feq_refl(fint(2));
            lemma_mul_congr(fint(2), fint(2), hs@, fadd(h@[i - 1]@, h@[i as int]@));
            lemma_pos_den(fint(2), hs@);
            lemma_feq_trans(
                vv@,
                fmul(fint(2), hs@),
                fmul(fint(2), fadd(h@[i - 1]@, h@[i as int]@)),
            );
            lemma_feq_refl(fint(6));
            lemma_mul_congr(fint(6), fint(6), ds@, fsub(sl@[i as int]@, sl@[i - 1]@));
            lemma_pos_den(fint(6), ds@);
            lemma_feq_trans(
                uv@,
                fmul(fint(6), ds@),
                fmul(fint(6), fsub(sl@[i as int]@, sl@[i - 1]@)),
            );
        }
        v.push(vv);
        u.push(uv);
        i += 1;
    }
    Ok((v, u))
}

/// Second-derivative unknowns under the natural boundary condition: the
/// interior system is solved and the two end unknowns are zero.
fn solve_natural(points: &Vec<(Rat, Rat)>, h: &Vec<Rat>, sl: &Vec<Rat>) -> (r: Result<
    Vec<Rat>,
    SplineError,
>)
    requires
        points.len() >= 3,
        h.len() == points.len() - 1,
        sl.len() == points.len() - 1,
        forall|j: int| 0 <= j < h.len() ==> (#[trigger] h@[j]).wf(),
        forall|j: int| 0 <= j < sl.len() ==> (#[trigger] sl@[j]).wf(),
    ensures
        r matches Ok(z) ==> {
            &&& z.len() == points.len()
            &&& forall|j: int| 0 <= j < z.len() ==> (#[trigger] z@[j]).wf()
            &&& z@[0]@ == fint(0)
            &&& z@[points.len() - 1]@ == fint(0)
            &&& (forall|i: int| 1 <= i < points.len() - 1 ==> #[trigger] interior_row(h@, sl@, z@, i))
            &&& (forall|j: int| 0 <= j < sl.len() - 1 ==> feq((#[trigger] sl@[j])@, sl@[j + 1]@))
                ==> (forall|j: int| 0 <= j < z.len() ==> (#[trigger] z@[j])@.n == 0)
        },
        r matches Err(e) ==> e == SplineError::NumericalInstability || e == SplineError::Overflow,
{
    let n = points.len();
    let vu = compute_interior(h, sl)?;
    let (v, u) = vu;
    proof {
        if forall|j: int| 0 <= j < sl.len() - 1 ==> feq((#[trigger] sl@[j])@, sl@[j + 1]@) {
            assert forall|j: int| 0 <= j < u.len() implies (#[trigger] u@[j])@.n == 0 by {
                let sj = sl@[j]@;
                let sj1 = sl@[j + 1]@;
                assert(feq(sj, sj1));
                lemma_zero_ops(fint(6), fsub(sj1, sj));
                lemma_pos_den(sj1, sj);
                lemma_pos_den(fint(6), fsub(sj1, sj));
                lemma_feq_zero(u@[j]@, fmul(fint(6), fsub(sj1, sj)));
            }
            assert(all_zero(u@));
        }
    }
    let mut a_sys: Vec<Rat> = Vec::new();
    let mut k: usize = 1;
    while k + 1 < n - 1
        invariant
            n == points.len(),
            n >= 3,
            h.len() == n - 1,
            forall|j: int| 0 <= j < h.len() ==> (#[trigger] h@[j]).wf(),
            1 <= k <= n - 2,
            a_sys.len() == k - 1,
            forall|j: int| 0 <= j < a_sys.len() ==> #[trigger] a_sys@[j] == h@[j + 1],
        decreases n - k,
    {
        a_sys.push(h[k]);
        k += 1;
    }
    proof {
        assert forall|j: int| 0 <= j < a_sys.len() implies (#[trigger] a_sys@[j]).wf() by {
            assert(a_sys@[j] == h@[j + 1]);
        }
        assert(all_wf(a_sys@));
        assert(all_wf(v@));
        assert(all_wf(u@));
    }
    let res = solve_tridiagonal(&a_sys, &v, &a_sys, &u)?;
    let zero = Rat::from_int(0);
    let mut z: Vec<Rat> = Vec::new();
    z.push(zero);
    let mut k2: usize = 0;
    while k2 < n - 2
        invariant
            n >= 3,
            res.len() == n - 2,
            forall|j: int| 0 <= j < res.len() ==> (#[trigger] res@[j]).wf(),
            k2 <= n - 2,
            z.len() == k2 + 1,
            z@[0]@ == fint(0),
            z@[0].wf(),
            forall|j: int| 1 <= j < z.len() ==> #[trigger] z@[j] == res@[j - 1],
        decreases n - k2,
    {
        z.push(res[k2]);
        k2 += 1;
    }
    z.push(zero);
    proof {
        assert forall|j: int| 0 <= j < z.len() implies (#[trigger] z@[j]).wf() by {
            if 1 <= j < z.len() - 1 {
                assert(z@[j] == res@[j - 1]);
            }
        }
        if forall|j: int| 0 <= j < sl.len() - 1 ==> feq((#[trigger] sl@[j])@, sl@[j + 1]@) {
            assert(all_zero(res@));
            assert forall|j: int| 0 <= j < z.len() implies (#[trigger] z@[j])@.n == 0 by {
                if 1 <= j < z.len() - 1 {
                    assert(z@[j] == res@[j - 1]);
                    assert(res@[j - 1]@.n == 0);
                }
            }
        }
        let m = n - 2;
        assert forall|i: int| 1 <= i < n - 1 implies #[trigger] interior_row(h@, sl@, z@, i) by {
            let j = i - 1;
            assert(feq(crate::tridiagonal::row_value(a_sys@, v@, a_sys@, res@, j), u@[j]@));
            let ha = h@[i - 1]@;
            let hb = h@[i]@;
            let vs = fmul(fint(2), fadd(ha, hb));
            let us = fmul(fint(6), fsub(sl@[i]@, sl@[i - 1]@));
            let z1f = z@[i - 1]@;
            let z2f = z@[i]@;
            let z3f = z@[i + 1]@;
            lemma_pos_den(ha, z1f);
            lemma_pos_den(hb, z3f);
            if m == 1 {
                assert(z@[1] == res@[0]);
                lemma_zero_ops(ha, z1f);
                lemma_zero_ops(hb, z3f);
                lemma_add_zero_left(fmul(ha, z1f), fmul(v@[0]@, z2f));
                lemma_feq_refl(fmul(hb, z3f));
                lemma_add_congr(
                    fadd(fmul(ha, z1f), fmul(v@[0]@, z2f)),
                    fmul(v@[0]@, z2f),
                    fmul(hb, z3f),
                    fmul(hb, z3f),
                );
                lemma_add_zero_right(fmul(v@[0]@, z2f), fmul(hb, z3f));
                lemma_pos_den(v@[0]@, z2f);
                lemma_pos_den(fmul(v@[0]@, z2f), fmul(hb, z3f));
                lemma_feq_trans(
                    fadd(fadd(fmul(ha, z1f), fmul(v@[0]@, z2f)), fmul(hb, z3f)),
                    fadd(fmul(v@[0]@, z2f), fmul(hb, z3f)),
                    fmul(v@[0]@, z2f),
                );
                lemma_feq_trans(
                    fadd(fadd(fmul(ha, z1f), fmul(v@[0]@, z2f)), fmul(hb, z3f)),
                    fmul(v@[0]@, z2f),
                    u@[0]@,
                );
                lemma_row_subst(
                    ha, v@[0]@, hb, u@[0]@, z1f, z2f, z3f,
                    ha, vs, hb, us, z1f, z2f, z3f,
                );
            } else if j == 0 {
                assert(z@[1] == res@[0]);
                assert(z@[2] == res@[1]);
                assert(a_sys@[0] == h@[1]);
                lemma_zero_ops(ha, z1f);
                lemma_pos_den(v@[0]@, z2f);
                lemma_row_pad_left(fmul(ha, z1f), fmul(v@[0]@, z2f), fmul(hb, z3f), u@[0]@);
                lemma_row_subst(
                    ha, v@[0]@, hb, u@[0]@, z1f, z2f, z3f,
                    ha, vs, hb, us, z1f, z2f, z3f,
                );
            } else if j == m - 1 {
                assert(a_sys@[m - 2] == h@[m - 1]);
                assert(z@[i - 1] == res@[m - 2]);
                assert(z@[i] == res@[m - 1]);
                lemma_zero_ops(hb, z3f);
                lemma_pos_den(v@[j]@, z2f);
                lemma_pos_den(fmul(ha, z1f), fmul(v@[j]@, z2f));
                lemma_row_pad_right(fadd(fmul(ha, z1f), fmul(v@[j]@, z2f)), fmul(hb, z3f), u@[j]@);
                lemma_row_subst(
                    ha, v@[j]@, hb, u@[j]@, z1f, z2f, z3f,
                    ha, vs, hb, us, z1f, z2f, z3f,
                );
            } else {
                assert(a_sys@[j - 1] == h@[j]);
                assert(a_sys@[j] == h@[j + 1]);
                assert(z@[i - 1] == res@[j - 1]);
                assert(z@[i] == res@[j]);
                assert(z@[i + 1] == res@[j + 1]);
                lemma_row_subst(
                    ha, v@[j]@, hb, u@[j]@, z1f, z2f, z3f,
                    ha, vs, hb, us, z1f, z2f, z3f,
                );
            }
        }
    }
    Ok(z)
}

/// Second-derivative unknowns under the clamped boundary condition: the
/// full system, including the two derivative-matching boundary rows, is
/// solved for all unknowns at once.
fn solve_clamped(
    points: &Vec<(Rat, Rat)>,
    h: &Vec<Rat>,
    sl: &Vec<Rat>,
    d0: &Rat,
    d1: &Rat,
) -> (r: Result<Vec<Rat>, SplineError>)
    requires
        points.len() >= 3,
        h.len() == points.len() - 1,
        sl.len() == points.len() - 1,
        forall|j: int| 0 <= j < h.len() ==> (#[trigger] h@[j]).wf() && h@[j]@.n > 0,
        forall|j: int| 0 <= j < sl.len() ==> (#[trigger] sl@[j]).wf(),
        d0.wf(),
        d1.wf(),
    ensures
        r matches Ok(z) ==> {
            &&& z.len() == points.len()
            &&& forall|j: int| 0 <= j < z.len() ==> (#[trigger] z@[j]).wf()
            &&& feq(
                fmul(fadd(fmul(fint(2), z@[0]@), z@[1]@), h@[0]@),
                fmul(fint(6), fsub(sl@[0]@, d0@)),
            )
            &&& feq(
                fmul(
                    fadd(z@[points.len() - 2]@, fmul(fint(2), z@[points.len() - 1]@)),
                    h@[points.len() - 2]@,
                ),
                fmul(fint(6), fsub(d1@, sl@[points.len() - 2]@)),
            )
            &&& (forall|i: int| 1 <= i < points.len() - 1 ==> #[trigger] interior_row(h@, sl@, z@, i))
        },
        r matches Err(e) ==> e == SplineError::NumericalInstability || e == SplineError::Overflow,
{
    let n = points.len();
    let vu = compute_interior(h, sl)?;
    let (v, u) = vu;
    let two = Rat::from_int(2);
    let one = Rat::from_int(1);
    let six = Rat::from_int(6);
    // sub-diagonal: h[0], .., h[n-3], then 1 for the last boundary row
    let mut a_full: Vec<Rat> = Vec::new();
    let mut k: usize = 0;
    while k + 2 < n
        invariant
            n == points.len(),
            n >= 3,
            h.len() == n - 1,
            forall|j: int| 0 <= j < h.len() ==> (#[trigger] h@[j]).wf(),
            k <= n - 2,
            a_full.len() == k,
            forall|j: int| 0 <= j < a_full.len() ==> #[trigger] a_full@[j] == h@[j],
            forall|j: int| 0 <= j < a_full.len() ==> (#[trigger] a_full@[j]).wf(),
        decreases n - k,
    {
        a_full.push(h[k]);
        k += 1;
    }
    a_full.push(one);
    // super-diagonal: 1 for the first boundary row, then h[1], .., h[n-2]
    let mut c_full: Vec<Rat> = Vec::new();
    c_full.push(one);
    let mut k2: usize = 1;
    while k2 + 1 < n
        invariant
            n == points.len(),
            n >= 3,
            h.len() == n - 1,
            forall|j: int| 0 <= j < h.len() ==> (#[trigger] h@[j]).wf(),
            1 <= k2 <= n - 1,
            c_full.len() == k2,
            c_full@[0] == one,
            one.wf(),
            forall|j: int| 1 <= j < c_full.len() ==> #[trigger] c_full@[j] == h@[j],
            forall|j: int| 0 <= j < c_full.len() ==> (#[trigger] c_full@[j]).wf(),
        decreases n - k2,
    {
        c_full.push(h[k2]);
        k2 += 1;
    }
    // main diagonal: 2, v.., 2
    let mut b_full: Vec<Rat> = Vec::new();
    b_full.push(two);
    let mut k3: usize = 0;
    while k3 < n - 2
        invariant
            n >= 3,
            v.len() == n - 2,
            forall|j: int| 0 <= j < v.len() ==> (#[trigger] v@[j]).wf(),
            two.wf(),
            two@ == fint(2),
            k3 <= n - 2,
            b_full.len() == k3 + 1,
            b_full@[0] == two,
            forall|j: int| 1 <= j < b_full.len() ==> #[trigger] b_full@[j] == v@[j - 1],
            forall|j: int| 0 <= j < b_full.len() ==> (#[trigger] b_full@[j]).wf(),
        decreases n - k3,
    {
        b_full.push(v[k3]);
        k3 += 1;
    }
    b_full.push(two);
    // right-hand side: 6*(sl[0] - d0)/h[0], u.., 6*(d1 - sl[n-2])/h[n-2]
    let e0 = sl[0].sub(d0)?;
    let e06 = six.mul(&e0)?;
    let r0 = e06.div(&h[0])?;
    let e1 = d1.sub(&sl[n - 2])?;
    let e16 = six.mul(&e1)?;
    let r1 = e16.div(&h[n - 2])?;
    let mut d_full: Vec<Rat> = Vec::new();
    d_full.push(r0);
    let mut k4: usize = 0;
    while k4 < n - 2
        invariant
            n >= 3,
            u.len() == n - 2,
            forall|j: int| 0 <= j < u.len() ==> (#[trigger] u@[j]).wf(),
            r0.wf(),
            k4 <= n - 2,
            d_full.len() == k4 + 1,
            d_full@[0] == r0,
            forall|j: int| 1 <= j < d_full.len() ==> #[trigger] d_full@[j] == u@[j - 1],
            forall|j: int| 0 <= j < d_full.len() ==> (#[trigger] d_full@[j]).wf(),
        decreases n - k4,
    {
        d_full.push(u[k4]);
        k4 += 1;
    }
    d_full.push(r1);
    proof {
        assert(all_wf(a_full@));
        assert(all_wf(b_full@));
        assert(all_wf(c_full@));
        assert(all_wf(d_full@));
    }
    let z = solve_tridiagonal(&a_full, &b_full, &c_full, &d_full)?;
    proof {
        let z0f = z@[0]@;
        let z1f = z@[1]@;
        let zpf = z@[n - 2]@;
        let zlf = z@[n - 1]@;
        let h0f = h@[0]@;
        let hlf = h@[n - 2]@;
        let sl0f = sl@[0]@;
        let sllf = sl@[n - 2]@;
        let rl0 = fadd(fmul(fint(2), z0f), z1f);
        let rl1 = fadd(zpf, fmul(fint(2), zlf));
        lemma_pos_den(fint(2), z0f);
        lemma_pos_den(fmul(fint(2), z0f), z1f);
        lemma_pos_den(fint(2), zlf);
        lemma_pos_den(zpf, fmul(fint(2), zlf));
        lemma_pos_den(fint(1), z1f);
        lemma_pos_den(fmul(fint(2), z0f), fmul(fint(1), z1f));
        lemma_pos_den(fmul(fint(1), zpf), fmul(fint(2), zlf));
        lemma_pos_den(sl0f, d0@);
        lemma_pos_den(d1@, sllf);
        lemma_pos_den(fint(6), fsub(sl0f, d0@));
        lemma_pos_den(fint(6), fsub(d1@, sllf));
        // first boundary row: (2*z0 + z1) == r0, then multiplied by h[0]
        assert(feq(
            crate::tridiagonal::row_value(a_full@, b_full@, c_full@, z@, 0),
            d_full@[0]@,
        ));
        lemma_mul_one(z1f);
        lemma_feq_refl(fmul(fint(2), z0f));
        lemma_add_congr(fmul(fint(2), z0f), fmul(fint(2), z0f), z1f, fmul(fint(1), z1f));
        lemma_feq_trans(rl0, fadd(fmul(fint(2), z0f), fmul(fint(1), z1f)), r0@);
        lemma_feq_refl(h0f);
        lemma_mul_congr(rl0, r0@, h0f, h0f);
        lemma_div_mul(r0@, e06@, h0f);
        lemma_feq_refl(fint(6));
        lemma_mul_congr(fint(6), fint(6), e0@, fsub(sl0f, d0@));
        lemma_pos_den(rl0, h0f);
        lemma_pos_den(r0@, h0f);
        lemma_pos_den(fint(6), e0@);
        lemma_feq_trans(fmul(rl0, h0f), fmul(r0@, h0f), e06@);
        lemma_feq_trans(fmul(rl0, h0f), e06@, fmul(fint(6), e0@));
        lemma_feq_trans(fmul(rl0, h0f), fmul(fint(6), e0@), fmul(fint(6), fsub(sl0f, d0@)));
        // last boundary row: (z[n-2] + 2*z[n-1]) == r1, then multiplied by h[n-2]
        assert(feq(
            crate::tridiagonal::row_value(a_full@, b_full@, c_full@, z@, n - 1),
            d_full@[n - 1]@,
        ));
        lemma_mul_one(zpf);
        lemma_feq_refl(fmul(fint(2), zlf));
        lemma_add_congr(fmul(fint(1), zpf), zpf, fmul(fint(2), zlf), fmul(fint(2), zlf));
        lemma_feq_sym(
            fadd(fmul(fint(1), zpf), fmul(fint(2), zlf)),
            fadd(zpf, fmul(fint(2), zlf)),
        );
        lemma_feq_trans(rl1, fadd(fmul(fint(1), zpf), fmul(fint(2), zlf)), r1@);
        lemma_feq_refl(hlf);
        lemma_mul_congr(rl1, r1@, hlf, hlf);
        lemma_div_mul(r1@, e16@, hlf);
        lemma_mul_congr(fint(6), fint(6), e1@, fsub(d1@, sllf));
        lemma_pos_den(rl1, hlf);
        lemma_pos_den(r1@, hlf);
        lemma_pos_den(fint(6), e1@);
        lemma_feq_trans(fmul(rl1, hlf), fmul(r1@, hlf), e16@);
        lemma_feq_trans(fmul(rl1, hlf), e16@, fmul(fint(6), e1@));
        lemma_feq_trans(fmul(rl1, hlf), fmul(fint(6), e1@), fmul(fint(6), fsub(d1@, sllf)));
        assert forall|i: int| 1 <= i < n - 1 implies #[trigger] interior_row(h@, sl@, z@, i) by {
            assert(feq(
                crate::tridiagonal::row_value(a_full@, b_full@, c_full@, z@, i),
                d_full@[i]@,
            ));
            assert(a_full@[i - 1] == h@[i - 1]);
            assert(b_full@[i] == v@[i - 1]);
            assert(c_full@[i] == h@[i]);
            assert(d_full@[i] == u@[i - 1]);
            let ha = h@[i - 1]@;
            let hb = h@[i]@;
            let vs = fmul(fint(2), fadd(ha, hb));
            let us = fmul(fint(6), fsub(sl@[i]@, sl@[i - 1]@));
            lemma_row_subst(
                ha,
                v@[i - 1]@,
                hb,
                u@[i - 1]@,
                z@[i - 1]@,
                z@[i]@,
                z@[i + 1]@,
                ha,
                vs,
                hb,
                us,
                z@[i - 1]@,
                z@[i]@,
                z@[i + 1]@,
            );
        }
    }
    Ok(z)
}

/// The `l`-coefficients in multiplicative form: from
/// `lv == y/h - (z*h)/6` follows `lv*(6h) == 6y - z*h^2`.
proof fn lemma_lform(lv: Frac, q1: Frac, q2: Frac, y: Frac, z: Frac, h: Frac)
    requires
        lv.d > 0,
        q1.d > 0,
        q2.d > 0,
        y.d > 0,
        z.d > 0,
        h.d > 0,
        h.n > 0,
        feq(lv, fsub(q1, q2)),
        feq(q1, fdiv(y, h)),
        feq(q2, fdiv(fmul(z, h), fint(6))),
    ensures
        feq(fmul(lv, fmul(fint(6), h)), fsub(fmul(fint(6), y), fmul(z, fsq(h)))),
{
    let k = fmul(fint(6), h);
    lemma_pos_den(fint(6), h);
    lemma_pos_den(q1, q2);
    lemma_pos_den(fsub(q1, q2), k);
    lemma_pos_den(q1, k);
    lemma_pos_den(q2, k);
    lemma_pos_den(fmul(q1, k), fmul(q2, k));
    lemma_pos_den(q1, h);
    lemma_pos_den(fint(6), fmul(q1, h));
    lemma_pos_den(fint(6), y);
    lemma_pos_den(q2, fint(6));
    lemma_pos_den(z, h);
    lemma_pos_den(fmul(q2, fint(6)), h);
    lemma_pos_den(fmul(z, h), h);
    lemma_pos_den(h, h);
    lemma_pos_den(z, fsq(h));
    // lv*k == (q1 - q2)*k == q1*k - q2*k
    lemma_feq_refl(k);
    lemma_mul_congr(lv, fsub(q1, q2), k, k);
    lemma_mul_distrib_sub_right(q1, q2, k);
    lemma_feq_trans(fmul(lv, k), fmul(fsub(q1, q2), k), fsub(fmul(q1, k), fmul(q2, k)));
    // q1*k == 6*(q1*h) == 6*y
    lemma_div_mul(q1, y, h);
    lemma_mul_shuffle3(q1, fint(6), h);
    lemma_feq_refl(fint(6));
    lemma_mul_congr(fint(6), fint(6), fmul(q1, h), y);
    lemma_feq_trans(fmul(q1, k), fmul(fint(6), fmul(q1, h)), fmul(fint(6), y));
    // q2*k == (q2*6)*h == (z*h)*h == z*h^2
    lemma_div_mul(q2, fmul(z, h), fint(6));
    lemma_mul_assoc(q2, fint(6), h);
    lemma_feq_sym(fmul(fmul(q2, fint(6)), h), fmul(q2, fmul(fint(6), h)));
    lemma_feq_refl(h);
    lemma_mul_congr(fmul(q2, fint(6)), fmul(z, h), h, h);
    lemma_feq_trans(fmul(q2, k), fmul(fmul(q2, fint(6)), h), fmul(fmul(z, h), h));
    lemma_mul_assoc(z, h, h);
    lemma_feq_trans(fmul(q2, k), fmul(fmul(z, h), h), fmul(z, fsq(h)));
    // assemble
    lemma_sub_congr(fmul(q1, k), fmul(fint(6), y), fmul(q2, k), fmul(z, fsq(h)));
    lemma_feq_trans(
        fmul(lv, k),
        fsub(fmul(q1, k), fmul(q2, k)),
        fsub(fmul(fint(6), y), fmul(z, fsq(h))),
    );
}

/// Build the per-segment coefficient records from the solved
/// second-derivative unknowns.
fn build_sections(points: &Vec<(Rat, Rat)>, h: &Vec<Rat>, z: &Vec<Rat>) -> (r: Result<
    Vec<CubicSection>,
    SplineError,
>)
    requires
        pts_wf(points@),
        points.len() >= 3,
        h.len() == points.len() - 1,
        z.len() == points.len(),
        forall|j: int|
            0 <= j < h.len() ==> (#[trigger] h@[j]).wf() && h@[j]@.n > 0 && feq(
                h@[j]@,
                fsub(points@[j + 1].0@, points@[j].0@),
            ),
        forall|j: int| 0 <= j < z.len() ==> (#[trigger] z@[j]).wf(),
    ensures
        r matches Ok(secs) ==> {
            &&& secs.len() == points.len() - 1
            &&& forall|j: int|
                0 <= j < secs.len() ==> (#[trigger] secs@[j]).wf() && secs@[j].t_begin
                    == points@[j].0 && secs@[j].t_end == points@[j + 1].0 && sec_coeffs(
                    secs@[j],
                    h@[j]@,
                    z@[j]@,
                    z@[j + 1]@,
                    points@[j].1@,
                    points@[j + 1].1@,
                )
        },
        r is Err ==> r == Err::<Vec<CubicSection>, SplineError>(SplineError::Overflow),
{
    let n = points.len();
    let six = Rat::from_int(6);
    let mut secs: Vec<CubicSection> = Vec::new();
    let mut i: usize = 0;
    while i + 1 < n
        invariant
            pts_wf(points@),
            n == points.len(),
            n >= 3,
            six@ == fint(6),
            six.wf(),
            h.len() == n - 1,
            z.len() == n,
            forall|j: int|
                0 <= j < h.len() ==> (#[trigger] h@[j]).wf() && h@[j]@.n > 0 && feq(
                    h@[j]@,
                    fsub(points@[j + 1].0@, points@[j].0@),
                ),
            forall|j: int| 0 <= j < z.len() ==> (#[trigger] z@[j]).wf(),
            i <= n - 1,
            secs.len() == i,
            forall|j: int|
                0 <= j < secs.len() ==> (#[trigger] secs@[j]).wf() && secs@[j].t_begin
                    == points@[j].0 && secs@[j].t_end == points@[j + 1].0 && sec_coeffs(
                    secs@[j],
                    h@[j]@,
                    z@[j]@,
                    z@[j + 1]@,
                    points@[j].1@,
                    points@[j + 1].1@,
                ),
        decreases n - i,
    {
        let hv = h[i];
        let shi = six.mul(&hv)?;
        proof {
            lemma_pos_den(fint(6), hv@);
            lemma_feq_sign(shi@, fmul(fint(6), hv@));
        }
        let cb = z[i + 1].div(&shi)?;
        let ce = z[i].div(&shi)?;
        let q1b = points[i + 1].1.div(&hv)?;
        let q2bp = z[i + 1].mul(&hv)?;
        let q2b = q2bp.div(&six)?;
        let lb = q1b.sub(&q2b)?;
        let q1e = points[i].1.div(&hv)?;
        let q2ep = z[i].mul(&hv)?;
        let q2e = q2ep.div(&six)?;
        let le = q1e.sub(&q2e)?;
        let sec = CubicSection {
            c_begin: cb,
            c_end: ce,
            l_begin: lb,
            l_end: le,
            t_begin: points[i].0,
            t_end: points[i + 1].0,
        };
        proof {
            let hf = hv@;
            let z0 = z@[i as int]@;
            let z1 = z@[i + 1]@;
            let y0 = points@[i as int].1@;
            let y1 = points@[i + 1].1@;
            let k = fmul(fint(6), hf);
            lemma_pos_den(fint(6), hf);
            // cb * (6h) == z1, ce * (6h) == z0
            lemma_div_mul(cb@, z1, shi@);
            lemma_feq_refl(cb@);
            lemma_feq_sym(shi@, k);
            lemma_mul_congr(cb@, cb@, k, shi@);
            lemma_pos_den(cb@, k);
            lemma_pos_den(cb@, shi@);
            lemma_feq_trans(fmul(cb@, k), fmul(cb@, shi@), z1);
            lemma_div_mul(ce@, z0, shi@);
            lemma_feq_refl(ce@);
            lemma_mul_congr(ce@, ce@, k, shi@);
            lemma_pos_den(ce@, shi@);
            lemma_feq_trans(fmul(ce@, k), fmul(ce@, shi@), z0);
            // lb and le in multiplicative form
            lemma_pos_den(z1, hf);
            lemma_div_congr_left(q2b@, q2bp@, fmul(z1, hf), fint(6));
            lemma_lform(lb@, q1b@, q2b@, y1, z1, hf);
            lemma_pos_den(z0, hf);
            lemma_div_congr_left(q2e@, q2ep@, fmul(z0, hf), fint(6));
            lemma_lform(le@, q1e@, q2e@, y0, z0, hf);
        }
        secs.push(sec);
        i += 1;
    }
    Ok(secs)
}

/// Breakpoints that increase pairwise: adjacent order extends to any two
/// indices.
proof fn lemma_sorted_pairwise(bounds: Seq<Rat>, a: int, b: int)
    requires
        forall|i: int| 0 <= i < bounds.len() ==> (#[trigger] bounds[i]).wf(),
        forall|i: int|
            0 <= i < bounds.len() - 1 ==> flt((#[trigger] bounds[i])@, bounds[i + 1]@),
        0 <= a < b < bounds.len(),
    ensures
        flt(bounds[a]@, bounds[b]@),
    decreases b - a,
{
    if a + 1 < b {
        lemma_sorted_pairwise(bounds, a, b - 1);
        lemma_flt_trans(bounds[a]@, bounds[b - 1]@, bounds[b]@);
    }
}

/// What the lookup scan finds for a query exactly on breakpoint `i`:
/// segment `i` for an interior or first breakpoint, the last segment for
/// the last breakpoint.
proof fn lemma_find_knot_from(bounds: Seq<Rat>, i: int, j: int)
    requires
        bounds.len() >= 2,
        forall|k: int| 0 <= k < bounds.len() ==> (#[trigger] bounds[k]).wf(),
        forall|k: int|
            0 <= k < bounds.len() - 1 ==> flt((#[trigger] bounds[k])@, bounds[k + 1]@),
        0 <= j <= i,
        i < bounds.len(),
        j <= bounds.len() - 2,
    ensures
        find_from(bounds, bounds[i]@, j) == if i <= bounds.len() - 2 {
            i
        } else {
            bounds.len() - 2
        },
    decreases i - j,
{
    let x = bounds[i]@;
    if j < bounds.len() - 2 {
        if j == i {
            assert(flt(x, bounds[j + 1]@));
        } else {
            if j + 1 < i {
                lemma_sorted_pairwise(bounds, j + 1, i);
            }
            assert(!flt(x, bounds[j + 1]@));
            lemma_find_knot_from(bounds, i, j + 1);
        }
    }
}

/// Everything the final assembly knows about a freshly built spline:
/// the breakpoints are the input abscissas, and each segment's
/// coefficients are characterised against the widths, the solved
/// second-derivative unknowns and the input ordinates.
pub(crate) open spec fn assembled(
    sp: &CubicSpline,
    ps: Seq<(Rat, Rat)>,
    h: Seq<Rat>,
    z: Seq<Rat>,
) -> bool {
    &&& ps.len() >= 3
    &&& pts_wf(ps)
    &&& sp.wf()
    &&& sp.spec_bounds().len() == ps.len()
    &&& forall|k: int| 0 <= k < ps.len() ==> #[trigger] sp.spec_bounds()[k] == ps[k].0
    &&& h.len() == ps.len() - 1
    &&& z.len() == ps.len()
    &&& forall|j: int| 0 <= j < h.len() ==> (#[trigger] h[j]).wf()
    &&& forall|j: int| 0 <= j < z.len() ==> (#[trigger] z[j]).wf()
    &&& forall|j: int|
        0 <= j < sp.spec_sections().len() ==> sec_coeffs(
            #[trigger] sp.spec_sections()[j],
            h[j]@,
            z[j]@,
            z[j + 1]@,
            ps[j].1@,
            ps[j + 1].1@,
        )
}

/// At breakpoint `i` the spline takes the sample ordinate, and its second
/// derivative takes the solved unknown `z[i]`.
proof fn lemma_knot_eval(sp: &CubicSpline, ps: Seq<(Rat, Rat)>, h: Seq<Rat>, z: Seq<Rat>, i: int)
    requires
        assembled(sp, ps, h, z),
        0 <= i < ps.len(),
    ensures
        feq(spline_value(sp, ps[i].0@), ps[i].1@),
        feq(spline_der2(sp, ps[i].0@), z[i]@),
{
    let n = ps.len() as int;
    let x = ps[i].0@;
    lemma_find_knot_from(sp.spec_bounds(), i, 0);
    if i < n - 1 {
        let sec = sp.spec_sections()[i];
        assert(sec.t_begin == ps[i].0);
        lemma_sec_value_begin(sec, h[i]@, z[i]@, z[i + 1]@, ps[i].1@, ps[i + 1].1@);
        lemma_sec_der2_begin(sec, h[i]@, z[i]@, z[i + 1]@, ps[i].1@, ps[i + 1].1@);
    } else {
        let sec = sp.spec_sections()[n - 2];
        assert(sec.t_end == ps[i].0);
        lemma_sec_value_end(sec, h[n - 2]@, z[n - 2]@, z[n - 1]@, ps[n - 2].1@, ps[n - 1].1@);
        lemma_sec_der2_end(sec, h[n - 2]@, z[n - 2]@, z[n - 1]@, ps[n - 2].1@, ps[n - 1].1@);
    }
}

/// At an interior breakpoint the two adjacent segments agree in value and
/// in second derivative.
proof fn lemma_knot_continuity(
    sp: &CubicSpline,
    ps: Seq<(Rat, Rat)>,
    h: Seq<Rat>,
    z: Seq<Rat>,
    i: int,
)
    requires
        assembled(sp, ps, h, z),
        1 <= i < ps.len() - 1,
    ensures
        feq(
            sec_value(sp.spec_sections()[i - 1], ps[i].0@),
            sec_value(sp.spec_sections()[i], ps[i].0@),
        ),
        feq(
            sec_der2(sp.spec_sections()[i - 1], ps[i].0@),
            sec_der2(sp.spec_sections()[i], ps[i].0@),
        ),
{
    let secl = sp.spec_sections()[i - 1];
    let secr = sp.spec_sections()[i];
    let x = ps[i].0@;
    assert(secl.t_end == ps[i].0);
    assert(secr.t_begin == ps[i].0);
    lemma_sec_value_end(secl, h[i - 1]@, z[i - 1]@, z[i]@, ps[i - 1].1@, ps[i].1@);
    lemma_sec_value_begin(secr, h[i]@, z[i]@, z[i + 1]@, ps[i].1@, ps[i + 1].1@);
    lemma_feq_sym(sec_value(secr, x), ps[i].1@);
    lemma_feq_trans(sec_value(secl, x), ps[i].1@, sec_value(secr, x));
    lemma_sec_der2_end(secl, h[i - 1]@, z[i - 1]@, z[i]@, ps[i - 1].1@, ps[i].1@);
    lemma_sec_der2_begin(secr, h[i]@, z[i]@, z[i + 1]@, ps[i].1@, ps[i + 1].1@);
    lemma_feq_sym(sec_der2(secr, x), z[i]@);
    lemma_feq_trans(sec_der2(secl, x), z[i]@, sec_der2(secr, x));
}

/// The computed slope at `t` denotes the chord slope of the samples.
proof fn lemma_exec_slope(ps: Seq<(Rat, Rat)>, h: Seq<Rat>, sl: Seq<Rat>, t: int)
    requires
        pts_wf(ps),
        strictly_increasing(ps),
        h.len() == ps.len() - 1,
        sl.len() == ps.len() - 1,
        forall|j: int|
            0 <= j < h.len() ==> (#[trigger] h[j]).wf() && h[j]@.n > 0 && feq(
                h[j]@,
                fsub(ps[j + 1].0@, ps[j].0@),
            ),
        forall|j: int|
            0 <= j < sl.len() ==> (#[trigger] sl[j]).wf() && feq(
                fmul(sl[j]@, h[j]@),
                fsub(ps[j + 1].1@, ps[j].1@),
            ),
        0 <= t < sl.len(),
    ensures
        feq(sl[t]@, slope_of(ps, t)),
{
    let dy = fsub(ps[t + 1].1@, ps[t].1@);
    let dt = fsub(ps[t + 1].0@, ps[t].0@);
    lemma_pos_den(ps[t + 1].1@, ps[t].1@);
    lemma_pos_den(ps[t + 1].0@, ps[t].0@);
    lemma_mul_div(sl[t]@, dy, h[t]@);
    lemma_div_congr_right(sl[t]@, dy, h[t]@, dt);
}

/// For co-linear samples the computed slopes agree pairwise.
proof fn lemma_slope_chain(ps: Seq<(Rat, Rat)>, h: Seq<Rat>, sl: Seq<Rat>, j: int)
    requires
        pts_wf(ps),
        strictly_increasing(ps),
        colinear(ps),
        h.len() == ps.len() - 1,
        sl.len() == ps.len() - 1,
        forall|k: int|
            0 <= k < h.len() ==> (#[trigger] h[k]).wf() && h[k]@.n > 0 && feq(
                h[k]@,
                fsub(ps[k + 1].0@, ps[k].0@),
            ),
        forall|k: int|
            0 <= k < sl.len() ==> (#[trigger] sl[k]).wf() && feq(
                fmul(sl[k]@, h[k]@),
                fsub(ps[k + 1].1@, ps[k].1@),
            ),
        0 <= j < sl.len() - 1,
    ensures
        feq(sl[j]@, sl[j + 1]@),
{
    lemma_exec_slope(ps, h, sl, j);
    lemma_exec_slope(ps, h, sl, j + 1);
    let s0 = slope_of(ps, j);
    let s1 = slope_of(ps, j + 1);
    lemma_pos_den(ps[j + 1].1@, ps[j].1@);
    lemma_pos_den(ps[j + 1].0@, ps[j].0@);
    lemma_pos_den(ps[j + 2].1@, ps[j + 1].1@);
    lemma_pos_den(ps[j + 2].0@, ps[j + 1].0@);
    lemma_pos_den_div(fsub(ps[j + 1].1@, ps[j].1@), fsub(ps[j + 1].0@, ps[j].0@));
    lemma_pos_den_div(fsub(ps[j + 2].1@, ps[j + 1].1@), fsub(ps[j + 2].0@, ps[j + 1].0@));
    lemma_feq_trans(sl[j]@, s0, s1);
    lemma_feq_sym(sl[j + 1]@, s1);
    lemma_feq_trans(sl[j]@, s1, sl[j + 1]@);
}

/// For co-linear samples every chord slope is the first one.
proof fn lemma_slope_all(ps: Seq<(Rat, Rat)>, j: int)
    requires
        pts_wf(ps),
        strictly_increasing(ps),
        colinear(ps),
        ps.len() >= 2,
        0 <= j < ps.len() - 1,
    ensures
        feq(slope_of(ps, j), slope_of(ps, 0)),
    decreases j,
{
    if j > 0 {
        lemma_slope_all(ps, j - 1);
        assert(feq(slope_of(ps, j - 1), slope_of(ps, j)));
        lemma_feq_sym(slope_of(ps, j - 1), slope_of(ps, j));
        lemma_pos_den(ps[j].1@, ps[j - 1].1@);
        lemma_pos_den(ps[j].0@, ps[j - 1].0@);
        lemma_pos_den_div(fsub(ps[j].1@, ps[j - 1].1@), fsub(ps[j].0@, ps[j - 1].0@));
        lemma_feq_trans(slope_of(ps, j), slope_of(ps, j - 1), slope_of(ps, 0));
    }
}

/// For co-linear samples every ordinate lies on the line through the
/// first sample with the first chord slope.
proof fn lemma_colinear_y(ps: Seq<(Rat, Rat)>, j: int)
    requires
        pts_wf(ps),
        strictly_increasing(ps),
        colinear(ps),
        ps.len() >= 2,
        0 <= j < ps.len(),
    ensures
        feq(
            ps[j].1@,
            fadd(ps[0].1@, fmul(slope_of(ps, 0), fsub(ps[j].0@, ps[0].0@))),
        ),
    decreases j,
{
    let y0g = ps[0].1@;
    let t0g = ps[0].0@;
    let s0 = slope_of(ps, 0);
    lemma_pos_den(ps[1].1@, ps[0].1@);
    lemma_pos_den(ps[1].0@, ps[0].0@);
    lemma_pos_den_div(fsub(ps[1].1@, ps[0].1@), fsub(ps[1].0@, ps[0].0@));
    if j == 0 {
        lemma_zero_ops(s0, fsub(t0g, t0g));
        lemma_add_zero_right(y0g, fmul(s0, fsub(t0g, t0g)));
        lemma_feq_sym(fadd(y0g, fmul(s0, fsub(t0g, t0g))), y0g);
    } else {
        lemma_colinear_y(ps, j - 1);
        let tp = ps[j - 1].0@;
        let yp = ps[j - 1].1@;
        let tj = ps[j].0@;
        let yj = ps[j].1@;
        let dy = fsub(yj, yp);
        let dt = fsub(tj, tp);
        let lp = fadd(y0g, fmul(s0, fsub(tp, t0g)));
        let lj = fadd(y0g, fmul(s0, fsub(tj, t0g)));
        lemma_pos_den(yj, yp);
        lemma_pos_den(tj, tp);
        lemma_pos_den_div(dy, dt);
        // the chord at j-1, with the global slope
        lemma_div_mul(slope_of(ps, j - 1), dy, dt);
        lemma_slope_all(ps, j - 1);
        lemma_feq_sym(slope_of(ps, j - 1), s0);
        lemma_feq_refl(dt);
        lemma_mul_congr(s0, slope_of(ps, j - 1), dt, dt);
        lemma_pos_den(slope_of(ps, j - 1), dt);
        lemma_pos_den(s0, dt);
        lemma_feq_trans(fmul(s0, dt), fmul(slope_of(ps, j - 1), dt), dy);
        lemma_feq_sym(fmul(s0, dt), dy);
        // y_j == y_{j-1} + dy, then substitute the line and step along it
        lemma_add_comm(yp, dy);
        lemma_sub_add_cancel(yj, yp);
        lemma_pos_den(yp, dy);
        lemma_pos_den(dy, yp);
        lemma_feq_trans(fadd(yp, dy), fadd(dy, yp), yj);
        lemma_feq_sym(fadd(yp, dy), yj);
        lemma_add_congr(yp, lp, dy, fmul(s0, dt));
        lemma_line_step(y0g, s0, t0g, tp, tj);
        lemma_pos_den(tp, t0g);
        lemma_pos_den(s0, fsub(tp, t0g));
        lemma_pos_den(y0g, fmul(s0, fsub(tp, t0g)));
        lemma_pos_den(lp, fmul(s0, dt));
        lemma_feq_trans(yj, fadd(yp, dy), fadd(lp, fmul(s0, dt)));
        lemma_feq_trans(yj, fadd(lp, fmul(s0, dt)), lj);
    }
}

/// Zero second-derivative unknowns make the cubic coefficients of a
/// segment denote zero.
proof fn lemma_coeff_zero(s: CubicSection, h: Frac, z0: Frac, z1: Frac, y0: Frac, y1: Frac)
    requires
        s.wf(),
        z0.d > 0,
        z1.d > 0,
        sec_coeffs(s, h, z0, z1, y0, y1),
        z0.n == 0,
        z1.n == 0,
    ensures
        s.c_begin@.n == 0,
        s.c_end@.n == 0,
{
    let k = fmul(fint(6), h);
    lemma_pos_den(fint(6), h);
    lemma_pos_den(s.c_begin@, k);
    lemma_pos_den(s.c_end@, k);
    lemma_feq_zero(fmul(s.c_begin@, k), z1);
    lemma_mul_zero_factor(s.c_begin@, k);
    lemma_feq_zero(fmul(s.c_end@, k), z0);
    lemma_mul_zero_factor(s.c_end@, k);
}

/// `h^2 * q == h * (q * h)`.
proof fn lemma_perm_hhq(h: Frac, q: Frac)
    ensures
        feq(fmul(fmul(h, h), q), fmul(h, fmul(q, h))),
{
    assert((h.n * h.n) * q.n == h.n * (q.n * h.n)) by (nonlinear_arith);
    assert((h.d * h.d) * q.d == h.d * (q.d * h.d)) by (nonlinear_arith);
}

/// The common step of the clamped endpoint proofs: with the boundary-row
/// fact `q * h == 6*(p - r)` and the slope fact `sl * h == dy`, the term
/// `h^2 * q` rewrites through `h * (q * h)`.
proof fn lemma_hh_row(h: Frac, q: Frac, p: Frac, r: Frac)
    requires
        h.d > 0,
        q.d > 0,
        p.d > 0,
        r.d > 0,
        feq(fmul(q, h), fmul(fint(6), fsub(p, r))),
    ensures
        feq(
            fmul(fsq(h), q),
            fsub(fmul(h, fmul(fint(6), p)), fmul(h, fmul(fint(6), r))),
        ),
{
    lemma_perm_hhq(h, q);
    lemma_feq_refl(h);
    lemma_pos_den(p, r);
    lemma_pos_den(fint(6), fsub(p, r));
    lemma_pos_den(q, h);
    lemma_mul_congr(h, h, fmul(q, h), fmul(fint(6), fsub(p, r)));
    lemma_mul_distrib_sub(fint(6), p, r);
    lemma_pos_den(fint(6), p);
    lemma_pos_den(fint(6), r);
    lemma_pos_den(fmul(fint(6), p), fmul(fint(6), r));
    lemma_mul_congr(
        h,
        h,
        fmul(fint(6), fsub(p, r)),
        fsub(fmul(fint(6), p), fmul(fint(6), r)),
    );
    lemma_mul_distrib_sub(h, fmul(fint(6), p), fmul(fint(6), r));
    lemma_pos_den(h, fmul(q, h));
    lemma_pos_den(h, fmul(fint(6), fsub(p, r)));
    lemma_pos_den(h, fsub(fmul(fint(6), p), fmul(fint(6), r)));
    lemma_feq_trans(fmul(fsq(h), q), fmul(h, fmul(q, h)), fmul(h, fmul(fint(6), fsub(p, r))));
    lemma_feq_trans(
        fmul(fsq(h), q),
        fmul(h, fmul(fint(6), fsub(p, r))),
        fmul(h, fsub(fmul(fint(6), p), fmul(fint(6), r))),
    );
    lemma_feq_trans(
        fmul(fsq(h), q),
        fmul(h, fsub(fmul(fint(6), p), fmul(fint(6), r))),
        fsub(fmul(h, fmul(fint(6), p)), fmul(h, fmul(fint(6), r))),
    );
}

/// `h * (6*sl)` denotes `6*dy` when `sl*h == dy`, and `h * (6*d)` denotes
/// `(6h)*d`.
proof fn lemma_h6_terms(h: Frac, sl: Frac, dy: Frac, dv: Frac)
    requires
        h.d > 0,
        sl.d > 0,
        dy.d > 0,
        dv.d > 0,
        feq(fmul(sl, h), dy),
    ensures
        feq(fmul(h, fmul(fint(6), sl)), fmul(fint(6), dy)),
        feq(fmul(h, fmul(fint(6), dv)), fmul(fmul(fint(6), h), dv)),
{
    lemma_mul_shuffle3(h, fint(6), sl);
    lemma_mul_comm(h, sl);
    lemma_feq_refl(fint(6));
    lemma_mul_congr(fint(6), fint(6), fmul(h, sl), fmul(sl, h));
    lemma_mul_congr(fint(6), fint(6), fmul(sl, h), dy);
    lemma_pos_den(fint(6), sl);
    lemma_pos_den(h, fmul(fint(6), sl));
    lemma_pos_den(h, sl);
    lemma_pos_den(fint(6), fmul(h, sl));
    lemma_pos_den(sl, h);
    lemma_pos_den(fint(6), fmul(sl, h));
    lemma_feq_trans(fmul(h, fmul(fint(6), sl)), fmul(fint(6), fmul(h, sl)), fmul(
        fint(6),
        fmul(sl, h),
    ));
    lemma_feq_trans(fmul(h, fmul(fint(6), sl)), fmul(fint(6), fmul(sl, h)), fmul(fint(6), dy));
    lemma_mul_shuffle3(h, fint(6), dv);
    lemma_mul_assoc(fint(6), h, dv);
    lemma_feq_sym(fmul(fmul(fint(6), h), dv), fmul(fint(6), fmul(h, dv)));
    lemma_pos_den(fint(6), dv);
    lemma_pos_den(h, dv);
    lemma_pos_den(fint(6), fmul(h, dv));
    lemma_feq_trans(
        fmul(h, fmul(fint(6), dv)),
        fmul(fint(6), fmul(h, dv)),
        fmul(fmul(fint(6), h), dv),
    );
}

/// With the first clamped boundary row satisfied, the first segment's
/// derivative at its left breakpoint denotes the requested `d0`.
proof fn lemma_clamped_begin(
    s: CubicSection,
    h: Frac,
    z0: Frac,
    z1: Frac,
    y0: Frac,
    y1: Frac,
    sl: Frac,
    d0: Frac,
)
    requires
        sec_data_wf(s, h, z0, z1, y0, y1),
        sl.d > 0,
        d0.d > 0,
        feq(fmul(fadd(fmul(fint(2), z0), z1), h), fmul(fint(6), fsub(sl, d0))),
        feq(fmul(sl, h), fsub(y1, y0)),
    ensures
        feq(sec_der(s, s.t_begin@), d0),
{
    let zz = fadd(fmul(fint(2), z0), z1);
    let k = fmul(fint(6), h);
    let sy = fmul(fint(6), fsub(y1, y0));
    let dd = sec_der(s, s.t_begin@);
    lemma_pos_den(fint(2), z0);
    lemma_pos_den(fmul(fint(2), z0), z1);
    lemma_pos_den(fint(6), h);
    lemma_pos_den(y1, y0);
    lemma_pos_den(fint(6), fsub(y1, y0));
    lemma_pos_den(h, h);
    lemma_pos_den(fsq(h), zz);
    lemma_pos_den(k, d0);
    lemma_pos_den(sy, fmul(k, d0));
    lemma_pos_den(h, fmul(fint(6), sl));
    lemma_pos_den(h, fmul(fint(6), d0));
    lemma_pos_den(fmul(h, fmul(fint(6), sl)), fmul(h, fmul(fint(6), d0)));
    lemma_sec_der_begin(s, h, z0, z1, y0, y1);
    lemma_hh_row(h, zz, sl, d0);
    lemma_h6_terms(h, sl, fsub(y1, y0), d0);
    lemma_sub_congr(
        fmul(h, fmul(fint(6), sl)),
        sy,
        fmul(h, fmul(fint(6), d0)),
        fmul(k, d0),
    );
    lemma_feq_trans(
        fmul(fsq(h), zz),
        fsub(fmul(h, fmul(fint(6), sl)), fmul(h, fmul(fint(6), d0))),
        fsub(sy, fmul(k, d0)),
    );
    lemma_feq_refl(sy);
    lemma_sub_congr(sy, sy, fmul(fsq(h), zz), fsub(sy, fmul(k, d0)));
    lemma_sub_sub_cancel(sy, fmul(k, d0));
    lemma_pos_den(sy, fmul(fsq(h), zz));
    lemma_pos_den(sy, fsub(sy, fmul(k, d0)));
    lemma_feq_trans(
        fmul(k, dd),
        fsub(sy, fmul(fsq(h), zz)),
        fsub(sy, fsub(sy, fmul(k, d0))),
    );
    lemma_feq_trans(fmul(k, dd), fsub(sy, fsub(sy, fmul(k, d0))), fmul(k, d0));
    lemma_mul_cancel(k, dd, d0);
}

/// With the last clamped boundary row satisfied, the last segment's
/// derivative at its right breakpoint denotes the requested `d1`.
proof fn lemma_clamped_end(
    s: CubicSection,
    h: Frac,
    z0: Frac,
    z1: Frac,
    y0: Frac,
    y1: Frac,
    sl: Frac,
    d1: Frac,
)
    requires
        sec_data_wf(s, h, z0, z1, y0, y1),
        sl.d > 0,
        d1.d > 0,
        feq(fmul(fadd(z0, fmul(fint(2), z1)), h), fmul(fint(6), fsub(d1, sl))),
        feq(fmul(sl, h), fsub(y1, y0)),
    ensures
        feq(sec_der(s, s.t_end@), d1),
{
    let zz = fadd(z0, fmul(fint(2), z1));
    let k = fmul(fint(6), h);
    let sy = fmul(fint(6), fsub(y1, y0));
    let dd = sec_der(s, s.t_end@);
    lemma_pos_den(fint(2), z1);
    lemma_pos_den(z0, fmul(fint(2), z1));
    lemma_pos_den(fint(6), h);
    lemma_pos_den(y1, y0);
    lemma_pos_den(fint(6), fsub(y1, y0));
    lemma_pos_den(h, h);
    lemma_pos_den(fsq(h), zz);
    lemma_pos_den(k, d1);
    lemma_pos_den(fmul(k, d1), sy);
    lemma_pos_den(h, fmul(fint(6), d1));
    lemma_pos_den(h, fmul(fint(6), sl));
    lemma_pos_den(fmul(h, fmul(fint(6), d1)), fmul(h, fmul(fint(6), sl)));
    lemma_sec_der_end(s, h, z0, z1, y0, y1);
    lemma_hh_row(h, zz, d1, sl);
    lemma_h6_terms(h, sl, fsub(y1, y0), d1);
    lemma_sub_congr(
        fmul(h, fmul(fint(6), d1)),
        fmul(k, d1),
        fmul(h, fmul(fint(6), sl)),
        sy,
    );
    lemma_feq_trans(
        fmul(fsq(h), zz),
        fsub(fmul(h, fmul(fint(6), d1)), fmul(h, fmul(fint(6), sl))),
        fsub(fmul(k, d1), sy),
    );
    lemma_feq_refl(sy);
    lemma_add_congr(sy, sy, fmul(fsq(h), zz), fsub(fmul(k, d1), sy));
    lemma_add_comm(sy, fsub(fmul(k, d1), sy));
    lemma_sub_add_cancel(fmul(k, d1), sy);
    lemma_pos_den(sy, fmul(fsq(h), zz));
    lemma_pos_den(sy, fsub(fmul(k, d1), sy));
    lemma_pos_den(fsub(fmul(k, d1), sy), sy);
    lemma_feq_trans(
        fmul(k, dd),
        fadd(sy, fmul(fsq(h), zz)),
        fadd(sy, fsub(fmul(k, d1), sy)),
    );
    lemma_feq_trans(
        fadd(sy, fsub(fmul(k, d1), sy)),
        fadd(fsub(fmul(k, d1), sy), sy),
        fmul(k, d1),
    );
    lemma_feq_trans(fmul(k, dd), fadd(sy, fsub(fmul(k, d1), sy)), fmul(k, d1));
    lemma_mul_cancel(k, dd, d1);
}

/// Build a cubic spline from at least three samples with strictly
/// increasing abscissas, under the given boundary condition.
///
/// On success the spline interpolates every sample, its segments agree in
/// value and second derivative at every interior breakpoint, and under
/// the natural boundary condition its second derivative vanishes at both
/// end breakpoints. Too few points and non-monotonic abscissas are
/// rejected exactly; a zero pivot in the elimination and a rational that
/// no longer fits the machine words are reported as
/// `NumericalInstability` and `Overflow`.
pub fn build(points: &Vec<(Rat, Rat)>, mode: BoundaryMode) -> (r: Result<CubicSpline, SplineError>)
    requires
        pts_wf(points@),
        mode matches BoundaryMode::Clamped(d0, d1) ==> d0.wf() && d1.wf(),
    ensures
        (r == Err::<CubicSpline, SplineError>(SplineError::InsufficientPoints)) <==> points.len()
            < 3,
        (r == Err::<CubicSpline, SplineError>(SplineError::NonMonotonicInput)) <==> (points.len()
            >= 3 && !strictly_increasing(points@)),
        r matches Err(e) ==> (e == SplineError::InsufficientPoints || e
            == SplineError::NonMonotonicInput || e == SplineError::NumericalInstability || e
            == SplineError::Overflow),
        r matches Ok(s) ==> {
            &&& points.len() >= 3
            &&& strictly_increasing(points@)
            &&& s.wf()
            &&& s.spec_bounds().len() == points.len()
            &&& forall|i: int|
                0 <= i < points.len() ==> #[trigger] s.spec_bounds()[i] == points@[i].0
            &&& forall|i: int|
                0 <= i < points.len() ==> feq(
                    spline_value(&s, (#[trigger] points@[i]).0@),
                    points@[i].1@,
                )
            &&& forall|i: int|
                1 <= i < points.len() - 1 ==> feq(
                    sec_value(#[trigger] s.spec_sections()[i - 1], points@[i].0@),
                    sec_value(s.spec_sections()[i], points@[i].0@),
                )
            &&& forall|i: int|
                1 <= i < points.len() - 1 ==> feq(
                    sec_der2(#[trigger] s.spec_sections()[i - 1], points@[i].0@),
                    sec_der2(s.spec_sections()[i], points@[i].0@),
                )
            &&& forall|i: int|
                1 <= i < points.len() - 1 ==> feq(
                    sec_der(#[trigger] s.spec_sections()[i - 1], points@[i].0@),
                    sec_der(s.spec_sections()[i], points@[i].0@),
                )
            &&& forall|i: int|
                1 <= i < points.len() - 1 ==> feq(
                    fadd(
                        fadd(
                            fmul(
                                fsub((#[trigger] points@[i]).0@, points@[i - 1].0@),
                                spline_der2(&s, points@[i - 1].0@),
                            ),
                            fmul(
                                fmul(
                                    fint(2),
                                    fadd(
                                        fsub(points@[i].0@, points@[i - 1].0@),
                                        fsub(points@[i + 1].0@, points@[i].0@),
                                    ),
                                ),
                                spline_der2(&s, points@[i].0@),
                            ),
                        ),
                        fmul(
                            fsub(points@[i + 1].0@, points@[i].0@),
                            spline_der2(&s, points@[i + 1].0@),
                        ),
                    ),
                    fmul(fint(6), fsub(slope_of(points@, i), slope_of(points@, i - 1))),
                )
            &&& (mode is Natural ==> feq(spline_der2(&s, points@[0].0@), fzero()) && feq(
                spline_der2(&s, points@[points.len() - 1].0@),
                fzero(),
            ))
            &&& (mode is Natural && colinear(points@) ==> forall|x: Frac|
                feq(#[trigger] spline_der2(&s, x), fzero()))
            &&& (mode is Natural && colinear(points@) ==> forall|x: Frac|
                fvalid(x) ==> feq(
                    #[trigger] spline_value(&s, x),
                    fadd(points@[0].1@, fmul(slope_of(points@, 0), fsub(x, points@[0].0@))),
                ))
            &&& (mode matches BoundaryMode::Clamped(d0, d1) ==> feq(
                spline_der(&s, points@[0].0@),
                d0@,
            ) && feq(spline_der(&s, points@[points.len() - 1].0@), d1@))
        },
{
    let n = points.len();
    if n < 3 {
        return Err(SplineError::InsufficientPoints);
    }
    let mut i: usize = 0;
    while i + 1 < n
        invariant
            pts_wf(points@),
            n == points.len(),
            n >= 3,
            i <= n - 1,
            forall|j: int| 0 <= j < i ==> flt((#[trigger] points@[j]).0@, points@[j + 1].0@),
        decreases n - i,
    {
        if !points[i].0.lt(&points[i + 1].0) {
            proof {
                assert(!flt(points@[i as int].0@, points@[i + 1].0@));
                assert(!strictly_increasing(points@));
            }
            return Err(SplineError::NonMonotonicInput);
        }
        i += 1;
    }
    assert(strictly_increasing(points@));
    let h = compute_widths(points)?;
    let sl = compute_slopes(points, &h)?;
    let z = match mode {
        BoundaryMode::Natural => solve_natural(points, &h, &sl)?,
        BoundaryMode::Clamped(d0, d1) => solve_clamped(points, &h, &sl, &d0, &d1)?,
    };
    let secs = build_sections(points, &h, &z)?;
    let mut bounds: Vec<Rat> = Vec::new();
    let mut k: usize = 0;
    while k < n
        invariant
            n == points.len(),
            k <= n,
            bounds.len() == k,
            forall|j: int| 0 <= j < bounds.len() ==> #[trigger] bounds@[j] == points@[j].0,
        decreases n - k,
    {
        bounds.push(points[k].0);
        k += 1;
    }
    let sp = CubicSpline::from_parts(secs, bounds);
    proof {
        assert forall|j: int| 0 <= j < sp.spec_bounds().len() implies (
        #[trigger] sp.spec_bounds()[j]).wf() by {
            assert(sp.spec_bounds()[j] == points@[j].0);
        }
        assert forall|j: int|
            0 <= j < sp.spec_bounds().len() - 1 implies flt(
            (#[trigger] sp.spec_bounds()[j])@,
            sp.spec_bounds()[j + 1]@,
        ) by {
            assert(sp.spec_bounds()[j] == points@[j].0);
            assert(sp.spec_bounds()[j + 1] == points@[j + 1].0);
            assert(flt(points@[j].0@, points@[j + 1].0@));
        }
        assert(sp.wf());
        assert(assembled(&sp, points@, h@, z@));
        assert forall|i2: int|
            0 <= i2 < points.len() implies feq(
            spline_value(&sp, (#[trigger] points@[i2]).0@),
            points@[i2].1@,
        ) by {
            lemma_knot_eval(&sp, points@, h@, z@, i2);
        }
        assert forall|i2: int|
            1 <= i2 < points.len() - 1 implies feq(
            sec_value(#[trigger] sp.spec_sections()[i2 - 1], points@[i2].0@),
            sec_value(sp.spec_sections()[i2], points@[i2].0@),
        ) by {
            lemma_knot_continuity(&sp, points@, h@, z@, i2);
        }
        assert forall|i2: int|
            1 <= i2 < points.len() - 1 implies feq(
            sec_der2(#[trigger] sp.spec_sections()[i2 - 1], points@[i2].0@),
            sec_der2(sp.spec_sections()[i2], points@[i2].0@),
        ) by {
            lemma_knot_continuity(&sp, points@, h@, z@, i2);
        }
        assert forall|i2: int|
            1 <= i2 < points.len() - 1 implies feq(
            sec_der(#[trigger] sp.spec_sections()[i2 - 1], points@[i2].0@),
            sec_der(sp.spec_sections()[i2], points@[i2].0@),
        ) by {
            assert(interior_row(h@, sl@, z@, i2));
            let secl = sp.spec_sections()[i2 - 1];
            let secr = sp.spec_sections()[i2];
            assert(secl.t_end == points@[i2].0);
            assert(secr.t_begin == points@[i2].0);
            lemma_sec_der_junction(
                secl,
                secr,
                h@[i2 - 1]@,
                h@[i2]@,
                z@[i2 - 1]@,
                z@[i2]@,
                z@[i2 + 1]@,
                points@[i2 - 1].1@,
                points@[i2].1@,
                points@[i2 + 1].1@,
                sl@[i2 - 1]@,
                sl@[i2]@,
            );
        }
        assert forall|i2: int|
            1 <= i2 < points.len() - 1 implies feq(
            fadd(
                fadd(
                    fmul(
                        fsub((#[trigger] points@[i2]).0@, points@[i2 - 1].0@),
                        spline_der2(&sp, points@[i2 - 1].0@),
                    ),
                    fmul(
                        fmul(
                            fint(2),
                            fadd(
                                fsub(points@[i2].0@, points@[i2 - 1].0@),
                                fsub(points@[i2 + 1].0@, points@[i2].0@),
                            ),
                        ),
                        spline_der2(&sp, points@[i2].0@),
                    ),
                ),
                fmul(fsub(points@[i2 + 1].0@, points@[i2].0@), spline_der2(&sp, points@[i2 + 1].0@)),
            ),
            fmul(fint(6), fsub(slope_of(points@, i2), slope_of(points@, i2 - 1))),
        ) by {
            assert(interior_row(h@, sl@, z@, i2));
            let ha = h@[i2 - 1]@;
            let hb = h@[i2]@;
            let ha2 = fsub(points@[i2].0@, points@[i2 - 1].0@);
            let hb2 = fsub(points@[i2 + 1].0@, points@[i2].0@);
            let vs = fmul(fint(2), fadd(ha, hb));
            let vs2 = fmul(fint(2), fadd(ha2, hb2));
            let us = fmul(fint(6), fsub(sl@[i2]@, sl@[i2 - 1]@));
            let us2 = fmul(fint(6), fsub(slope_of(points@, i2), slope_of(points@, i2 - 1)));
            let w1 = spline_der2(&sp, points@[i2 - 1].0@);
            let w2 = spline_der2(&sp, points@[i2].0@);
            let w3 = spline_der2(&sp, points@[i2 + 1].0@);
            lemma_knot_eval(&sp, points@, h@, z@, i2 - 1);
            lemma_knot_eval(&sp, points@, h@, z@, i2);
            lemma_knot_eval(&sp, points@, h@, z@, i2 + 1);
            lemma_feq_sym(w1, z@[i2 - 1]@);
            lemma_feq_sym(w2, z@[i2]@);
            lemma_feq_sym(w3, z@[i2 + 1]@);
            lemma_feq_sym(z@[i2 - 1]@, w1);
            lemma_feq_sym(z@[i2]@, w2);
            lemma_feq_sym(z@[i2 + 1]@, w3);
            lemma_add_congr(ha, ha2, hb, hb2);
            lemma_feq_refl(fint(2));
            lemma_mul_congr(fint(2), fint(2), fadd(ha, hb), fadd(ha2, hb2));
            lemma_exec_slope(points@, h@, sl@, i2 - 1);
            lemma_exec_slope(points@, h@, sl@, i2);
            lemma_sub_congr(
                sl@[i2]@,
                slope_of(points@, i2),
                sl@[i2 - 1]@,
                slope_of(points@, i2 - 1),
            );
            lemma_feq_refl(fint(6));
            lemma_mul_congr(
                fint(6),
                fint(6),
                fsub(sl@[i2]@, sl@[i2 - 1]@),
                fsub(slope_of(points@, i2), slope_of(points@, i2 - 1)),
            );
            lemma_pos_den(ha, hb);
            lemma_pos_den(fint(2), fadd(ha, hb));
            lemma_pos_den(sl@[i2]@, sl@[i2 - 1]@);
            lemma_pos_den(fint(6), fsub(sl@[i2]@, sl@[i2 - 1]@));
            lemma_row_subst(
                ha,
                vs,
                hb,
                us,
                z@[i2 - 1]@,
                z@[i2]@,
                z@[i2 + 1]@,
                ha2,
                vs2,
                hb2,
                us2,
                w1,
                w2,
                w3,
            );
        }
        if let BoundaryMode::Clamped(d0c, d1c) = mode {
            lemma_find_knot_from(sp.spec_bounds(), 0, 0);
            lemma_find_knot_from(sp.spec_bounds(), n as int - 1, 0);
            let sec0 = sp.spec_sections()[0];
            let secl = sp.spec_sections()[n - 2];
            assert(sec0.t_begin == points@[0].0);
            assert(secl.t_end == points@[n - 1].0);
            lemma_clamped_begin(
                sec0,
                h@[0]@,
                z@[0]@,
                z@[1]@,
                points@[0].1@,
                points@[1].1@,
                sl@[0]@,
                d0c@,
            );
            lemma_clamped_end(
                secl,
                h@[n - 2]@,
                z@[n - 2]@,
                z@[n - 1]@,
                points@[n - 2].1@,
                points@[n - 1].1@,
                sl@[n - 2]@,
                d1c@,
            );
        }
        if mode is Natural {
            lemma_knot_eval(&sp, points@, h@, z@, 0);
            lemma_knot_eval(&sp, points@, h@, z@, n as int - 1);
            if colinear(points@) {
                assert forall|j: int|
                    0 <= j < sl.len() - 1 implies feq((#[trigger] sl@[j])@, sl@[j + 1]@) by {
                    lemma_slope_chain(points@, h@, sl@, j);
                }
                assert forall|x: Frac| feq(#[trigger] spline_der2(&sp, x), fzero()) by {
                    lemma_find_from_range(sp.spec_bounds(), x, 0);
                    let idx = find_from(sp.spec_bounds(), x, 0);
                    let sec = sp.spec_sections()[idx];
                    assert(z@[idx]@.n == 0);
                    assert(z@[idx + 1]@.n == 0);
                    lemma_coeff_zero(
                        sec,
                        h@[idx]@,
                        z@[idx]@,
                        z@[idx + 1]@,
                        points@[idx].1@,
                        points@[idx + 1].1@,
                    );
                    lemma_sec_der2_zero(sec, x);
                }
                assert forall|x: Frac| fvalid(x) implies feq(
                    #[trigger] spline_value(&sp, x),
                    fadd(points@[0].1@, fmul(slope_of(points@, 0), fsub(x, points@[0].0@))),
                ) by {
                    lemma_find_from_range(sp.spec_bounds(), x, 0);
                    let idx = find_from(sp.spec_bounds(), x, 0);
                    let sec = sp.spec_sections()[idx];
                    let s0 = slope_of(points@, 0);
                    let sloc = slope_of(points@, idx);
                    let t0g = points@[0].0@;
                    let y0g = points@[0].1@;
                    let tbv = points@[idx].0@;
                    let yl = points@[idx].1@;
                    let yr = points@[idx + 1].1@;
                    let hfr = h@[idx]@;
                    let dy = fsub(points@[idx + 1].1@, points@[idx].1@);
                    let dt = fsub(points@[idx + 1].0@, points@[idx].0@);
                    assert(sec.t_begin == points@[idx].0);
                    assert(z@[idx]@.n == 0);
                    assert(z@[idx + 1]@.n == 0);
                    lemma_pos_den(points@[idx + 1].1@, points@[idx].1@);
                    lemma_pos_den(points@[idx + 1].0@, points@[idx].0@);
                    lemma_pos_den_div(dy, dt);
                    lemma_pos_den(points@[1].1@, points@[0].1@);
                    lemma_pos_den(points@[1].0@, points@[0].0@);
                    lemma_pos_den_div(
                        fsub(points@[1].1@, points@[0].1@),
                        fsub(points@[1].0@, points@[0].0@),
                    );
                    // the global slope is this segment's chord slope over its width
                    lemma_div_mul(sloc, dy, dt);
                    lemma_slope_all(points@, idx);
                    lemma_feq_sym(sloc, s0);
                    lemma_feq_refl(hfr);
                    lemma_mul_congr(s0, sloc, hfr, hfr);
                    lemma_feq_refl(sloc);
                    lemma_mul_congr(sloc, sloc, hfr, dt);
                    lemma_pos_den(sloc, hfr);
                    lemma_pos_den(sloc, dt);
                    lemma_feq_trans(fmul(s0, hfr), fmul(sloc, hfr), fmul(sloc, dt));
                    lemma_feq_trans(fmul(s0, hfr), fmul(sloc, dt), dy);
                    lemma_sec_value_line(sec, hfr, z@[idx]@, z@[idx + 1]@, yl, yr, s0, x);
                    // the local chord line lies on the global line
                    lemma_colinear_y(points@, idx);
                    lemma_feq_refl(fmul(s0, fsub(x, tbv)));
                    lemma_add_congr(
                        yl,
                        fadd(y0g, fmul(s0, fsub(tbv, t0g))),
                        fmul(s0, fsub(x, tbv)),
                        fmul(s0, fsub(x, tbv)),
                    );
                    lemma_line_step(y0g, s0, t0g, tbv, x);
                    lemma_nz_den(x, tbv);
                    lemma_nz_den(s0, fsub(x, tbv));
                    lemma_nz_den(yl, fmul(s0, fsub(x, tbv)));
                    lemma_pos_den(tbv, t0g);
                    lemma_pos_den(s0, fsub(tbv, t0g));
                    lemma_pos_den(y0g, fmul(s0, fsub(tbv, t0g)));
                    lemma_nz_den(
                        fadd(y0g, fmul(s0, fsub(tbv, t0g))),
                        fmul(s0, fsub(x, tbv)),
                    );
                    lemma_feq_trans(
                        spline_value(&sp, x),
                        fadd(yl, fmul(s0, fsub(x, tbv))),
                        fadd(fadd(y0g, fmul(s0, fsub(tbv, t0g))), fmul(s0, fsub(x, tbv))),
                    );
                    lemma_feq_trans(
                        spline_value(&sp, x),
                        fadd(fadd(y0g, fmul(s0, fsub(tbv, t0g))), fmul(s0, fsub(x, tbv))),
                        fadd(y0g, fmul(s0, fsub(x, t0g))),
                    );
                }
            }
        }
    }
    Ok(sp)
}

/// Natural-mode spline construction: the second derivative vanishes at
/// both end breakpoints.
pub fn create_cubic_spline_natural(points: &Vec<(Rat, Rat)>) -> (r: Result<
    CubicSpline,
    SplineError,
>)
    requires
        pts_wf(points@),
    ensures
        (r == Err::<CubicSpline, SplineError>(SplineError::InsufficientPoints)) <==> points.len()
            < 3,
        (r == Err::<CubicSpline, SplineError>(SplineError::NonMonotonicInput)) <==> (points.len()
            >= 3 && !strictly_increasing(points@)),
        r matches Err(e) ==> (e == SplineError::InsufficientPoints || e
            == SplineError::NonMonotonicInput || e == SplineError::NumericalInstability || e
            == SplineError::Overflow),
        r matches Ok(s) ==> {
            &&& points.len() >= 3
            &&& strictly_increasing(points@)
            &&& s.wf()
            &&& s.spec_bounds().len() == points.len()
            &&& forall|i: int|
                0 <= i < points.len() ==> #[trigger] s.spec_bounds()[i] == points@[i].0
            &&& forall|i: int|
                0 <= i < points.len() ==> feq(
                    spline_value(&s, (#[trigger] points@[i]).0@),
                    points@[i].1@,
                )
            &&& forall|i: int|
                1 <= i < points.len() - 1 ==> feq(
                    sec_value(#[trigger] s.spec_sections()[i - 1], points@[i].0@),
                    sec_value(s.spec_sections()[i], points@[i].0@),
                )
            &&& forall|i: int|
                1 <= i < points.len() - 1 ==> feq(
                    sec_der2(#[trigger] s.spec_sections()[i - 1], points@[i].0@),
                    sec_der2(s.spec_sections()[i], points@[i].0@),
                )
            &&& forall|i: int|
                1 <= i < points.len() - 1 ==> feq(
                    sec_der(#[trigger] s.spec_sections()[i - 1], points@[i].0@),
                    sec_der(s.spec_sections()[i], points@[i].0@),
                )
            &&& forall|i: int|
                1 <= i < points.len() - 1 ==> feq(
                    fadd(
                        fadd(
                            fmul(
                                fsub((#[trigger] points@[i]).0@, points@[i - 1].0@),
                                spline_der2(&s, points@[i - 1].0@),
                            ),
                            fmul(
                                fmul(
                                    fint(2),
                                    fadd(
                                        fsub(points@[i].0@, points@[i - 1].0@),
                                        fsub(points@[i + 1].0@, points@[i].0@),
                                    ),
                                ),
                                spline_der2(&s, points@[i].0@),
                            ),
                        ),
                        fmul(
                            fsub(points@[i + 1].0@, points@[i].0@),
                            spline_der2(&s, points@[i + 1].0@),
                        ),
                    ),
                    fmul(fint(6), fsub(slope_of(points@, i), slope_of(points@, i - 1))),
                )
            &&& feq(spline_der2(&s, points@[0].0@), fzero())
            &&& feq(spline_der2(&s, points@[points.len() - 1].0@), fzero())
            &&& (colinear(points@) ==> forall|x: Frac|
                feq(#[trigger] spline_der2(&s, x), fzero()))
            &&& (colinear(points@) ==> forall|x: Frac|
                fvalid(x) ==> feq(
                    #[trigger] spline_value(&s, x),
                    fadd(points@[0].1@, fmul(slope_of(points@, 0), fsub(x, points@[0].0@))),
                ))
        },
{
    build(points, BoundaryMode::Natural)
}

/// Clamped-mode spline construction: the first derivative is pinned to
/// `d0` at the first breakpoint and to `d1` at the last.
pub fn create_cubic_spline_clamped(points: &Vec<(Rat, Rat)>, d0: Rat, d1: Rat) -> (r: Result<
    CubicSpline,
    SplineError,
>)
    requires
        pts_wf(points@),
        d0.wf(),
        d1.wf(),
    ensures
        (r == Err::<CubicSpline, SplineError>(SplineError::InsufficientPoints)) <==> points.len()
            < 3,
        (r == Err::<CubicSpline, SplineError>(SplineError::NonMonotonicInput)) <==> (points.len()
            >= 3 && !strictly_increasing(points@)),
        r matches Err(e) ==> (e == SplineError::InsufficientPoints || e
            == SplineError::NonMonotonicInput || e == SplineError::NumericalInstability || e
            == SplineError::Overflow),
        r matches Ok(s) ==> {
            &&& points.len() >= 3
            &&& strictly_increasing(points@)
            &&& s.wf()
            &&& s.spec_bounds().len() == points.len()
            &&& forall|i: int|
                0 <= i < points.len() ==> #[trigger] s.spec_bounds()[i] == points@[i].0
            &&& forall|i: int|
                0 <= i < points.len() ==> feq(
                    spline_value(&s, (#[trigger] points@[i]).0@),
                    points@[i].1@,
                )
            &&& forall|i: int|
                1 <= i < points.len() - 1 ==> feq(
                    sec_value(#[trigger] s.spec_sections()[i - 1], points@[i].0@),
                    sec_value(s.spec_sections()[i], points@[i].0@),
                )
            &&& forall|i: int|
                1 <= i < points.len() - 1 ==> feq(
                    sec_der2(#[trigger] s.spec_sections()[i - 1], points@[i].0@),
                    sec_der2(s.spec_sections()[i], points@[i].0@),
                )
            &&& forall|i: int|
                1 <= i < points.len() - 1 ==> feq(
                    sec_der(#[trigger] s.spec_sections()[i - 1], points@[i].0@),
                    sec_der(s.spec_sections()[i], points@[i].0@),
                )
            &&& forall|i: int|
                1 <= i < points.len() - 1 ==> feq(
                    fadd(
                        fadd(
                            fmul(
                                fsub((#[trigger] points@[i]).0@, points@[i - 1].0@),
                                spline_der2(&s, points@[i - 1].0@),
                            ),
                            fmul(
                                fmul(
                                    fint(2),
                                    fadd(
                                        fsub(points@[i].0@, points@[i - 1].0@),
                                        fsub(points@[i + 1].0@, points@[i].0@),
                                    ),
                                ),
                                spline_der2(&s, points@[i].0@),
                            ),
                        ),
                        fmul(
                            fsub(points@[i + 1].0@, points@[i].0@),
                            spline_der2(&s, points@[i + 1].0@),
                        ),
                    ),
                    fmul(fint(6), fsub(slope_of(points@, i), slope_of(points@, i - 1))),
                )
            &&& feq(spline_der(&s, points@[0].0@), d0@)
            &&& feq(spline_der(&s, points@[points.len() - 1].0@), d1@)
        },
{
    build(points, BoundaryMode::Clamped(d0, d1))
}



} // verus!
