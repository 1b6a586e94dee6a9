//! Evenly spaced grids of rational abscissas, for sampling a spline.

use vstd::prelude::*;

use crate::error::SplineError;
use crate::frac::{
    feq, fint, fadd, fdiv, fmul, fsub, Frac, lemma_add_congr, lemma_div_congr_left,
    lemma_feq_refl, lemma_feq_trans, lemma_mul_congr, lemma_pos_den, lemma_pos_den_div,
};
use crate::rat::Rat;

verus! {

/// The spacing of a grid of `num` points from `min` to `max`:
/// `(max - min) / (num - 1)`.
pub open spec fn grid_step(min: Frac, max: Frac, num: int) -> Frac {
    fdiv(fsub(max, min), fint(num - 1))
}

/// `num` evenly spaced rationals from `min` to `max` inclusive: the
/// `i`-th point denotes `min + i * (max - min) / (num - 1)`.
pub fn linspace(min: &Rat, max: &Rat, num: usize) -> (r: Result<Vec<Rat>, SplineError>)
    requires
        min.wf(),
        max.wf(),
        2 <= num <= 0x7fffffff,
    ensures
        r matches Ok(v) ==> {
            &&& v.len() == num
            &&& forall|i: int|
                0 <= i < v.len() ==> (#[trigger] v@[i]).wf() && feq(
                    v@[i]@,
                    fadd(min@, fmul(grid_step(min@, max@, num as int), fint(i))),
                )
        },
        r is Err ==> r == Err::<Vec<Rat>, SplineError>(SplineError::Overflow),
{
    let count = Rat::from_int((num - 1) as i64);
    let span = max.sub(min)?;
    let dt = span.div(&count)?;
    proof {
        lemma_pos_den(max@, min@);
        lemma_div_congr_left(dt@, span@, fsub(max@, min@), fint(num as int - 1));
    }
    let mut pts: Vec<Rat> = Vec::new();
    let mut i: usize = 0;
    while i < num
        invariant
            min.wf(),
            max.wf(),
            dt.wf(),
            2 <= num <= 0x7fffffff,
            feq(dt@, grid_step(min@, max@, num as int)),
            i <= num,
            pts.len() == i,
            forall|j: int|
                0 <= j < pts.len() ==> (#[trigger] pts@[j]).wf() && feq(
                    pts@[j]@,
                    fadd(min@, fmul(grid_step(min@, max@, num as int), fint(j))),
                ),
        decreases num - i,
    {
        let step = Rat::from_int(i as i64);
        let off = dt.mul(&step)?;
        let val = min.add(&off)?;
        proof {
            let gs = grid_step(min@, max@, num as int);
            lemma_pos_den(max@, min@);
            lemma_mul_congr(dt@, gs, step@, fint(i as int));
            lemma_pos_den(dt@, step@);
            lemma_pos_den(fsub(max@, min@), fint(num as int - 1));
            lemma_pos_den_div(fsub(max@, min@), fint(num as int - 1));
            lemma_feq_trans(off@, fmul(dt@, step@), fmul(gs, fint(i as int)));
            lemma_feq_refl(min@);
            lemma_add_congr(min@, min@, off@, fmul(gs, fint(i as int)));
            lemma_pos_den(min@, off@);
            lemma_feq_trans(val@, fadd(min@, off@), fadd(min@, fmul(gs, fint(i as int))));
        }
        pts.push(val);
        i += 1;
    }
    Ok(pts)
}

} // verus!
