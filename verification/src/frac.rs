//! Mathematical fractions: the specification-level model of the crate's
//! exact rational numbers.
//!
//! A `Frac` is a pair of unbounded integers read as the fraction `n / d`.
//! Two fractions are equal as rational numbers (`feq`) when they
//! cross-multiply to the same product. All contracts of the crate are
//! stated over `Frac` values and these operations.

use vstd::prelude::*;

verus! {

/// A rational number `n / d`, meaningful whenever `d != 0`.
pub ghost struct Frac {
    pub n: int,
    pub d: int,
}

/// A fraction denotes a rational number only when its denominator is nonzero.
pub open spec fn fvalid(p: Frac) -> bool {
    p.d != 0
}

/// Equality of the denoted rational numbers, by cross-multiplication.
pub open spec fn feq(p: Frac, q: Frac) -> bool {
    p.n * q.d == q.n * p.d
}

/// Strict order of the denoted rationals; meaningful when both
/// denominators are positive.
pub open spec fn flt(p: Frac, q: Frac) -> bool {
    p.n * q.d < q.n * p.d
}

pub open spec fn fadd(p: Frac, q: Frac) -> Frac {
    Frac { n: p.n * q.d + q.n * p.d, d: p.d * q.d }
}

pub open spec fn fsub(p: Frac, q: Frac) -> Frac {
    Frac { n: p.n * q.d - q.n * p.d, d: p.d * q.d }
}

pub open spec fn fmul(p: Frac, q: Frac) -> Frac {
    Frac { n: p.n * q.n, d: p.d * q.d }
}

pub open spec fn fdiv(p: Frac, q: Frac) -> Frac {
    Frac { n: p.n * q.d, d: p.d * q.n }
}

pub open spec fn fneg(p: Frac) -> Frac {
    Frac { n: -p.n, d: p.d }
}

pub open spec fn fint(i: int) -> Frac {
    Frac { n: i, d: 1 }
}

pub open spec fn fzero() -> Frac {
    fint(0)
}

/// `p` denotes zero exactly when its numerator is zero.
pub open spec fn fis_zero(p: Frac) -> bool {
    p.n == 0
}

pub open spec fn fsq(p: Frac) -> Frac {
    fmul(p, p)
}

pub open spec fn fcube(p: Frac) -> Frac {
    fmul(p, fmul(p, p))
}

// ---------------------------------------------------------------------
// The equality `feq` is an equivalence relation on valid fractions and a
// congruence for the arithmetic operations.
// ---------------------------------------------------------------------

pub proof fn lemma_feq_refl(p: Frac)
    ensures
        feq(p, p),
{
}

pub proof fn lemma_feq_sym(p: Frac, q: Frac)
    requires
        feq(p, q),
    ensures
        feq(q, p),
{
}

pub proof fn lemma_feq_trans(p: Frac, q: Frac, r: Frac) by (nonlinear_arith)
    requires
        fvalid(q),
        feq(p, q),
        feq(q, r),
    ensures
        feq(p, r),
{
}

pub proof fn lemma_add_congr(p: Frac, p2: Frac, q: Frac, q2: Frac)
    requires
        feq(p, p2),
        feq(q, q2),
    ensures
        feq(fadd(p, q), fadd(p2, q2)),
{
    assert((p.n * q.d + q.n * p.d) * (p2.d * q2.d) == (p.n * q.d) * (p2.d * q2.d) + (q.n * p.d) * (
    p2.d * q2.d)) by (nonlinear_arith);
    assert((p.n * q.d) * (p2.d * q2.d) == (p.n * p2.d) * (q.d * q2.d)) by (nonlinear_arith);
    assert((q.n * p.d) * (p2.d * q2.d) == (q.n * q2.d) * (p.d * p2.d)) by (nonlinear_arith);
    assert((p2.n * q2.d + q2.n * p2.d) * (p.d * q.d) == (p2.n * q2.d) * (p.d * q.d) + (q2.n * p2.d)
        * (p.d * q.d)) by (nonlinear_arith);
    assert((p2.n * q2.d) * (p.d * q.d) == (p2.n * p.d) * (q.d * q2.d)) by (nonlinear_arith);
    assert((q2.n * p2.d) * (p.d * q.d) == (q2.n * q.d) * (p.d * p2.d)) by (nonlinear_arith);
}

pub proof fn lemma_sub_congr(p: Frac, p2: Frac, q: Frac, q2: Frac)
    requires
        feq(p, p2),
        feq(q, q2),
    ensures
        feq(fsub(p, q), fsub(p2, q2)),
{
    assert((p.n * q.d - q.n * p.d) * (p2.d * q2.d) == (p.n * q.d) * (p2.d * q2.d) - (q.n * p.d) * (
    p2.d * q2.d)) by (nonlinear_arith);
    assert((p.n * q.d) * (p2.d * q2.d) == (p.n * p2.d) * (q.d * q2.d)) by (nonlinear_arith);
    assert((q.n * p.d) * (p2.d * q2.d) == (q.n * q2.d) * (p.d * p2.d)) by (nonlinear_arith);
    assert((p2.n * q2.d - q2.n * p2.d) * (p.d * q.d) == (p2.n * q2.d) * (p.d * q.d) - (q2.n * p2.d)
        * (p.d * q.d)) by (nonlinear_arith);
    assert((p2.n * q2.d) * (p.d * q.d) == (p2.n * p.d) * (q.d * q2.d)) by (nonlinear_arith);
    assert((q2.n * p2.d) * (p.d * q.d) == (q2.n * q.d) * (p.d * p2.d)) by (nonlinear_arith);
}

pub proof fn lemma_mul_congr(p: Frac, p2: Frac, q: Frac, q2: Frac)
    requires
        feq(p, p2),
        feq(q, q2),
    ensures
        feq(fmul(p, q), fmul(p2, q2)),
{
    assert((p.n * q.n) * (p2.d * q2.d) == (p.n * p2.d) * (q.n * q2.d)) by (nonlinear_arith);
    assert((p2.n * q2.n) * (p.d * q.d) == (p2.n * p.d) * (q2.n * q.d)) by (nonlinear_arith);
}

// ---------------------------------------------------------------------
// Ring identities, up to `feq`.
// ---------------------------------------------------------------------

pub proof fn lemma_add_comm(p: Frac, q: Frac)
    ensures
        feq(fadd(p, q), fadd(q, p)),
{
}

pub proof fn lemma_add_assoc(p: Frac, q: Frac, r: Frac)
    ensures
        feq(fadd(fadd(p, q), r), fadd(p, fadd(q, r))),
{
    assert((p.n * q.d + q.n * p.d) * r.d + r.n * (p.d * q.d) == p.n * (q.d * r.d) + (q.n * r.d
        + r.n * q.d) * p.d) by (nonlinear_arith);
    assert((p.d * q.d) * r.d == p.d * (q.d * r.d)) by (nonlinear_arith);
}

pub proof fn lemma_mul_comm(p: Frac, q: Frac)
    ensures
        feq(fmul(p, q), fmul(q, p)),
{
}

pub proof fn lemma_mul_assoc(p: Frac, q: Frac, r: Frac) by (nonlinear_arith)
    ensures
        feq(fmul(fmul(p, q), r), fmul(p, fmul(q, r))),
{
}

/// Small integer facts that the fraction lemmas instantiate.
proof fn lemma_int_mul_reassoc(x: int, y: int, z: int) by (nonlinear_arith)
    ensures
        x * (y * z) == (y * x) * z,
{
}

proof fn lemma_int_distrib(x: int, u: int, v: int) by (nonlinear_arith)
    ensures
        x * (u + v) == x * u + x * v,
        x * (u - v) == x * u - x * v,
{
}

proof fn lemma_int_reassoc4(a: int, b: int, c: int, d: int) by (nonlinear_arith)
    ensures
        (a * b) * (c * d) == c * (a * (b * d)),
{
}

pub proof fn lemma_mul_distrib_add(a: Frac, p: Frac, q: Frac)
    ensures
        feq(fmul(a, fadd(p, q)), fadd(fmul(a, p), fmul(a, q))),
{
    lemma_int_reassoc4(a.n, p.n, a.d, q.d);
    lemma_int_reassoc4(a.n, q.n, a.d, p.d);
    lemma_int_distrib(a.n, p.n * q.d, q.n * p.d);
    lemma_int_distrib(a.d, a.n * (p.n * q.d), a.n * (q.n * p.d));
    lemma_int_reassoc4(a.d, p.d, a.d, q.d);
    lemma_int_mul_reassoc(a.n * (p.n * q.d + q.n * p.d), a.d, a.d * (p.d * q.d));
}

pub proof fn lemma_mul_distrib_sub(a: Frac, p: Frac, q: Frac)
    ensures
        feq(fmul(a, fsub(p, q)), fsub(fmul(a, p), fmul(a, q))),
{
    lemma_int_reassoc4(a.n, p.n, a.d, q.d);
    lemma_int_reassoc4(a.n, q.n, a.d, p.d);
    lemma_int_distrib(a.n, p.n * q.d, q.n * p.d);
    lemma_int_distrib(a.d, a.n * (p.n * q.d), a.n * (q.n * p.d));
    lemma_int_reassoc4(a.d, p.d, a.d, q.d);
    lemma_int_mul_reassoc(a.n * (p.n * q.d - q.n * p.d), a.d, a.d * (p.d * q.d));
}

/// `(x - y) + y` denotes `x`.
pub proof fn lemma_sub_add_cancel(x: Frac, y: Frac) by (nonlinear_arith)
    ensures
        feq(fadd(fsub(x, y), y), x),
{
}

/// Adding a zero fraction on the left changes nothing.
pub proof fn lemma_add_zero_left(p: Frac, q: Frac) by (nonlinear_arith)
    requires
        fis_zero(p),
    ensures
        feq(fadd(p, q), q),
{
}

/// Adding a zero fraction on the right changes nothing.
pub proof fn lemma_add_zero_right(p: Frac, q: Frac) by (nonlinear_arith)
    requires
        fis_zero(q),
    ensures
        feq(fadd(p, q), p),
{
}


/// Equal valid fractions are zero together.
pub proof fn lemma_feq_zero(p: Frac, q: Frac) by (nonlinear_arith)
    requires
        fvalid(p),
        fvalid(q),
        feq(p, q),
        fis_zero(q),
    ensures
        fis_zero(p),
{
}

/// A common nonzero factor cancels on the left of both sides.
pub proof fn lemma_mul_cancel(k: Frac, x: Frac, y: Frac)
    requires
        k.n != 0,
        k.d != 0,
        feq(fmul(k, x), fmul(k, y)),
    ensures
        feq(x, y),
{
    assert((k.n * k.d) * (x.n * y.d) == (k.n * x.n) * (k.d * y.d)) by (nonlinear_arith);
    assert((k.n * k.d) * (y.n * x.d) == (k.n * y.n) * (k.d * x.d)) by (nonlinear_arith);
    assert(k.n * k.d != 0) by (nonlinear_arith)
        requires
            k.n != 0,
            k.d != 0,
    ;
    lemma_int_mul_cancel(k.n * k.d, x.n * y.d, y.n * x.d);
}

/// A nonzero integer factor cancels from an equation.
proof fn lemma_int_mul_cancel(c: int, a: int, b: int) by (nonlinear_arith)
    requires
        c != 0,
        c * a == c * b,
    ensures
        a == b,
{
}


/// A quotient, characterised multiplicatively: if `x` denotes `s / q`
/// then `x * q` denotes `s`.
pub proof fn lemma_div_mul(x: Frac, s: Frac, q: Frac) by (nonlinear_arith)
    requires
        feq(x, fdiv(s, q)),
    ensures
        feq(fmul(x, q), s),
{
}


pub proof fn lemma_valid_div(p: Frac, q: Frac) by (nonlinear_arith)
    requires
        fvalid(p),
        fvalid(q),
        q.n != 0,
    ensures
        fvalid(fdiv(p, q)),
{
}

/// Composites of fractions with positive denominators again have positive
/// denominators.
pub proof fn lemma_pos_den(p: Frac, q: Frac) by (nonlinear_arith)
    requires
        p.d > 0,
        q.d > 0,
    ensures
        fadd(p, q).d > 0,
        fsub(p, q).d > 0,
        fmul(p, q).d > 0,
{
}

/// Zero numerators propagate through sums, differences, products and
/// quotients.
pub proof fn lemma_zero_ops(p: Frac, q: Frac) by (nonlinear_arith)
    ensures
        p.n == 0 && q.n == 0 ==> fadd(p, q).n == 0 && fsub(p, q).n == 0,
        q.n == 0 ==> fmul(p, q).n == 0,
        p.n == 0 ==> fmul(p, q).n == 0 && fdiv(p, q).n == 0,
{
}

/// Rearrangement: `(x - y) + w` denotes `x + (w - y)`.
pub proof fn lemma_shuffle_sub(x: Frac, y: Frac, w: Frac)
    ensures
        feq(fadd(fsub(x, y), w), fadd(x, fsub(w, y))),
{
    assert((x.n * y.d - y.n * x.d) * w.d + w.n * (x.d * y.d) == x.n * (w.d * y.d) + (w.n * y.d - y.n
        * w.d) * x.d) by (nonlinear_arith);
    assert((x.d * y.d) * w.d == x.d * (w.d * y.d)) by (nonlinear_arith);
}

/// Distributivity from the right: `(b - p) * z == b*z - p*z`.
pub proof fn lemma_mul_distrib_sub_right(b: Frac, p: Frac, z: Frac)
    requires
        b.d > 0,
        p.d > 0,
        z.d > 0,
    ensures
        feq(fmul(fsub(b, p), z), fsub(fmul(b, z), fmul(p, z))),
{
    lemma_mul_comm(fsub(b, p), z);
    lemma_mul_distrib_sub(z, b, p);
    lemma_mul_comm(z, b);
    lemma_mul_comm(z, p);
    lemma_sub_congr(fmul(z, b), fmul(b, z), fmul(z, p), fmul(p, z));
    lemma_pos_den(b, p);
    lemma_pos_den(z, fsub(b, p));
    lemma_pos_den(z, b);
    lemma_pos_den(z, p);
    lemma_pos_den(fmul(z, b), fmul(z, p));
    lemma_feq_trans(fmul(fsub(b, p), z), fmul(z, fsub(b, p)), fsub(fmul(z, b), fmul(z, p)));
    lemma_feq_trans(
        fmul(fsub(b, p), z),
        fsub(fmul(z, b), fmul(z, p)),
        fsub(fmul(b, z), fmul(p, z)),
    );
}

/// Distributivity from the right: `(b + p) * z == b*z + p*z`.
pub proof fn lemma_mul_distrib_add_right(b: Frac, p: Frac, z: Frac)
    requires
        b.d > 0,
        p.d > 0,
        z.d > 0,
    ensures
        feq(fmul(fadd(b, p), z), fadd(fmul(b, z), fmul(p, z))),
{
    lemma_mul_comm(fadd(b, p), z);
    lemma_mul_distrib_add(z, b, p);
    lemma_mul_comm(z, b);
    lemma_mul_comm(z, p);
    lemma_add_congr(fmul(z, b), fmul(b, z), fmul(z, p), fmul(p, z));
    lemma_pos_den(b, p);
    lemma_pos_den(z, fadd(b, p));
    lemma_pos_den(z, b);
    lemma_pos_den(z, p);
    lemma_pos_den(fmul(z, b), fmul(z, p));
    lemma_feq_trans(fmul(fadd(b, p), z), fmul(z, fadd(b, p)), fadd(fmul(z, b), fmul(z, p)));
    lemma_feq_trans(
        fmul(fadd(b, p), z),
        fadd(fmul(z, b), fmul(z, p)),
        fadd(fmul(b, z), fmul(p, z)),
    );
}

/// From `x == s / q` and `q == q2` follows `x == s / q2`, for any valid
/// nonzero divisors.
pub proof fn lemma_div_congr_right_nz(x: Frac, s: Frac, q: Frac, q2: Frac)
    requires
        s.d != 0,
        q.d != 0,
        q2.d != 0,
        q.n != 0,
        q2.n != 0,
        feq(x, fdiv(s, q)),
        feq(q, q2),
    ensures
        feq(x, fdiv(s, q2)),
{
    assert(feq(fdiv(s, q), fdiv(s, q2))) by (nonlinear_arith)
        requires
            feq(q, q2),
    ;
    assert(fdiv(s, q).d != 0) by (nonlinear_arith)
        requires
            s.d != 0,
            q.n != 0,
            fdiv(s, q).d == s.d * q.n,
    ;
    lemma_feq_trans(x, fdiv(s, q), fdiv(s, q2));
}

/// Subtracting from a zero fraction denotes the negation.
pub proof fn lemma_sub_zero_left(p: Frac, q: Frac) by (nonlinear_arith)
    requires
        fis_zero(p),
    ensures
        feq(fsub(p, q), fneg(q)),
{
}

/// Subtracting a zero fraction changes nothing.
pub proof fn lemma_sub_zero_right(p: Frac, q: Frac) by (nonlinear_arith)
    requires
        fis_zero(q),
    ensures
        feq(fsub(p, q), p),
{
}

/// Adding a negation is subtraction.
pub proof fn lemma_add_neg(p: Frac, q: Frac) by (nonlinear_arith)
    ensures
        feq(fadd(fneg(p), q), fsub(q, p)),
        feq(fadd(p, fneg(q)), fsub(p, q)),
{
}

/// A negated left factor negates the commuted product.
pub proof fn lemma_mul_neg_left(p: Frac, q: Frac)
    ensures
        feq(fmul(fneg(p), q), fneg(fmul(q, p))),
{
    assert(((-p.n) * q.n) * (q.d * p.d) == (-(q.n * p.n)) * (p.d * q.d)) by (nonlinear_arith);
}

/// Multiplying by one changes nothing.
pub proof fn lemma_mul_one(q: Frac) by (nonlinear_arith)
    ensures
        feq(fmul(fint(1), q), q),
{
}

/// `x - (r - s)` denotes `(x - r) + s`.
pub proof fn lemma_sub_of_sub(x: Frac, r: Frac, s: Frac)
    ensures
        feq(fsub(x, fsub(r, s)), fadd(fsub(x, r), s)),
{
    assert((r.n * s.d - s.n * r.d) * x.d == (r.n * s.d) * x.d - (s.n * r.d) * x.d)
        by (nonlinear_arith);
    assert((x.n * r.d - r.n * x.d) * s.d == (x.n * r.d) * s.d - (r.n * x.d) * s.d)
        by (nonlinear_arith);
    assert(x.n * (r.d * s.d) == (x.n * r.d) * s.d) by (nonlinear_arith);
    assert((r.n * s.d) * x.d == (r.n * x.d) * s.d) by (nonlinear_arith);
    assert((s.n * r.d) * x.d == s.n * (x.d * r.d)) by (nonlinear_arith);
    assert(x.d * (r.d * s.d) == (x.d * r.d) * s.d) by (nonlinear_arith);
}

/// The order of two subtractions can be swapped.
pub proof fn lemma_sub_swap(x: Frac, a: Frac, b: Frac)
    ensures
        feq(fsub(fsub(x, a), b), fsub(fsub(x, b), a)),
{
    assert((x.n * a.d - a.n * x.d) * b.d - b.n * (x.d * a.d) == (x.n * a.d) * b.d - (a.n * x.d)
        * b.d - b.n * (x.d * a.d)) by (nonlinear_arith);
    assert((x.n * b.d - b.n * x.d) * a.d - a.n * (x.d * b.d) == (x.n * b.d) * a.d - (b.n * x.d)
        * a.d - a.n * (x.d * b.d)) by (nonlinear_arith);
    assert((x.n * a.d) * b.d == (x.n * b.d) * a.d) by (nonlinear_arith);
    assert((a.n * x.d) * b.d == a.n * (x.d * b.d)) by (nonlinear_arith);
    assert(b.n * (x.d * a.d) == (b.n * x.d) * a.d) by (nonlinear_arith);
    assert((x.d * a.d) * b.d == (x.d * b.d) * a.d) by (nonlinear_arith);
}

/// `(x + y) - a` denotes `x + (y - a)`.
pub proof fn lemma_sub_from_add(x: Frac, y: Frac, a: Frac)
    ensures
        feq(fsub(fadd(x, y), a), fadd(x, fsub(y, a))),
{
    assert((x.n * y.d + y.n * x.d) * a.d - a.n * (x.d * y.d) == x.n * (y.d * a.d) + (y.n * a.d - a.n
        * y.d) * x.d) by (nonlinear_arith);
    assert((x.d * y.d) * a.d == x.d * (y.d * a.d)) by (nonlinear_arith);
}

/// `(x + y) - y` denotes `x`.
pub proof fn lemma_add_then_sub(x: Frac, y: Frac) by (nonlinear_arith)
    ensures
        feq(fsub(fadd(x, y), y), x),
{
}

/// `x - (x - y)` denotes `y`.
pub proof fn lemma_sub_sub_cancel(x: Frac, y: Frac) by (nonlinear_arith)
    ensures
        feq(fsub(x, fsub(x, y)), y),
{
}

/// Composites of valid fractions stay valid.
pub proof fn lemma_nz_den(p: Frac, q: Frac) by (nonlinear_arith)
    requires
        p.d != 0,
        q.d != 0,
    ensures
        fadd(p, q).d != 0,
        fsub(p, q).d != 0,
        fmul(p, q).d != 0,
{
}

/// Telescoping differences: `(a - c) + (b - a)` denotes `b - c`.
pub proof fn lemma_telescope(a: Frac, b: Frac, c: Frac)
    requires
        a.d != 0,
        b.d != 0,
        c.d != 0,
    ensures
        feq(fadd(fsub(a, c), fsub(b, a)), fsub(b, c)),
{
    lemma_shuffle_sub(a, c, fsub(b, a));
    lemma_sub_swap(b, a, c);
    lemma_feq_refl(a);
    lemma_add_congr(a, a, fsub(fsub(b, a), c), fsub(fsub(b, c), a));
    lemma_add_comm(a, fsub(fsub(b, c), a));
    lemma_sub_add_cancel(fsub(b, c), a);
    lemma_nz_den(b, a);
    lemma_nz_den(fsub(b, a), c);
    lemma_nz_den(a, fsub(fsub(b, a), c));
    lemma_nz_den(b, c);
    lemma_nz_den(fsub(b, c), a);
    lemma_nz_den(a, fsub(fsub(b, c), a));
    lemma_nz_den(fsub(fsub(b, c), a), a);
    lemma_feq_trans(
        fadd(fsub(a, c), fsub(b, a)),
        fadd(a, fsub(fsub(b, a), c)),
        fadd(a, fsub(fsub(b, c), a)),
    );
    lemma_feq_trans(
        fadd(fsub(a, c), fsub(b, a)),
        fadd(a, fsub(fsub(b, c), a)),
        fadd(fsub(fsub(b, c), a), a),
    );
    lemma_feq_trans(fadd(fsub(a, c), fsub(b, a)), fadd(fsub(fsub(b, c), a), a), fsub(b, c));
}

/// One step along an affine map: the value at `tj` plus the slope times
/// the remaining distance is the value at `x`.
pub proof fn lemma_line_step(y0: Frac, s0: Frac, t0: Frac, tj: Frac, x: Frac)
    requires
        y0.d != 0,
        s0.d != 0,
        t0.d != 0,
        tj.d != 0,
        x.d != 0,
    ensures
        feq(
            fadd(fadd(y0, fmul(s0, fsub(tj, t0))), fmul(s0, fsub(x, tj))),
            fadd(y0, fmul(s0, fsub(x, t0))),
        ),
{
    let pa = fmul(s0, fsub(tj, t0));
    let pb = fmul(s0, fsub(x, tj));
    lemma_add_assoc(y0, pa, pb);
    lemma_mul_distrib_add(s0, fsub(tj, t0), fsub(x, tj));
    lemma_feq_sym(fmul(s0, fadd(fsub(tj, t0), fsub(x, tj))), fadd(pa, pb));
    lemma_telescope(tj, x, t0);
    lemma_feq_refl(s0);
    lemma_mul_congr(s0, s0, fadd(fsub(tj, t0), fsub(x, tj)), fsub(x, t0));
    lemma_feq_refl(y0);
    lemma_add_congr(y0, y0, fadd(pa, pb), fmul(s0, fadd(fsub(tj, t0), fsub(x, tj))));
    lemma_add_congr(y0, y0, fmul(s0, fadd(fsub(tj, t0), fsub(x, tj))), fmul(s0, fsub(x, t0)));
    lemma_nz_den(tj, t0);
    lemma_nz_den(x, tj);
    lemma_nz_den(s0, fsub(tj, t0));
    lemma_nz_den(s0, fsub(x, tj));
    lemma_nz_den(pa, pb);
    lemma_nz_den(y0, fadd(pa, pb));
    lemma_nz_den(fsub(tj, t0), fsub(x, tj));
    lemma_nz_den(s0, fadd(fsub(tj, t0), fsub(x, tj)));
    lemma_nz_den(y0, fmul(s0, fadd(fsub(tj, t0), fsub(x, tj))));
    lemma_feq_trans(
        fadd(fadd(y0, pa), pb),
        fadd(y0, fadd(pa, pb)),
        fadd(y0, fmul(s0, fadd(fsub(tj, t0), fsub(x, tj)))),
    );
    lemma_feq_trans(
        fadd(fadd(y0, pa), pb),
        fadd(y0, fmul(s0, fadd(fsub(tj, t0), fsub(x, tj)))),
        fadd(y0, fmul(s0, fsub(x, t0))),
    );
}

/// Strict order of fractions with positive denominators is transitive.
pub proof fn lemma_flt_trans(p: Frac, q: Frac, r: Frac) by (nonlinear_arith)
    requires
        p.d > 0,
        q.d > 0,
        r.d > 0,
        flt(p, q),
        flt(q, r),
    ensures
        flt(p, r),
{
}

/// A quotient by a fraction with positive numerator keeps a positive
/// denominator.
pub proof fn lemma_pos_den_div(p: Frac, q: Frac) by (nonlinear_arith)
    requires
        p.d > 0,
        q.n > 0,
    ensures
        fdiv(p, q).d > 0,
{
}

/// From `x == p / k` and `p == p2` follows `x == p2 / k`: congruence of
/// the quotient in its left argument.
pub proof fn lemma_div_congr_left(x: Frac, p: Frac, p2: Frac, k: Frac)
    requires
        x.d > 0,
        p.d > 0,
        p2.d > 0,
        k.d > 0,
        k.n > 0,
        feq(x, fdiv(p, k)),
        feq(p, p2),
    ensures
        feq(x, fdiv(p2, k)),
{
    assert(feq(fdiv(p, k), fdiv(p2, k))) by (nonlinear_arith)
        requires
            feq(p, p2),
            p.d > 0,
            p2.d > 0,
            k.d > 0,
            k.n > 0,
    ;
    lemma_pos_den_div(p, k);
    lemma_feq_trans(x, fdiv(p, k), fdiv(p2, k));
}

/// A fraction with zero numerator denotes zero.
pub proof fn lemma_zero_feq(p: Frac) by (nonlinear_arith)
    requires
        fis_zero(p),
    ensures
        feq(p, fzero()),
        feq(fzero(), p),
{
}

/// The converse of `lemma_div_mul`: from `x * q == s` follows
/// `x == s / q`.
pub proof fn lemma_mul_div(x: Frac, s: Frac, q: Frac) by (nonlinear_arith)
    requires
        feq(fmul(x, q), s),
    ensures
        feq(x, fdiv(s, q)),
{
}

/// From `x == s / k` and `k == k2` follows `x == s / k2`: congruence of
/// the quotient in its right argument, for positive divisors.
pub proof fn lemma_div_congr_right(x: Frac, s: Frac, k: Frac, k2: Frac)
    requires
        x.d > 0,
        s.d > 0,
        k.d > 0,
        k2.d > 0,
        k.n > 0,
        k2.n > 0,
        feq(x, fdiv(s, k)),
        feq(k, k2),
    ensures
        feq(x, fdiv(s, k2)),
{
    assert(feq(fdiv(s, k), fdiv(s, k2))) by (nonlinear_arith)
        requires
            feq(k, k2),
            s.d > 0,
            k.d > 0,
            k2.d > 0,
    ;
    lemma_pos_den_div(s, k);
    lemma_feq_trans(x, fdiv(s, k), fdiv(s, k2));
}






/// If a product denotes zero and one factor does not, the other factor
/// denotes zero.
pub proof fn lemma_mul_zero_factor(p: Frac, q: Frac) by (nonlinear_arith)
    requires
        fis_zero(fmul(p, q)),
        q.n != 0,
    ensures
        fis_zero(p),
{
}

/// Rearrangement of a three-fold product.
pub proof fn lemma_mul_shuffle3(a: Frac, b: Frac, c: Frac)
    ensures
        feq(fmul(a, fmul(b, c)), fmul(b, fmul(a, c))),
        feq(fmul(a, fmul(b, c)), fmul(c, fmul(a, b))),
{
    assert((a.n * (b.n * c.n)) * (b.d * (a.d * c.d)) == (b.n * (a.n * c.n)) * (a.d * (b.d
        * c.d))) by (nonlinear_arith);
    assert((a.n * (b.n * c.n)) * (c.d * (a.d * b.d)) == (c.n * (a.n * b.n)) * (a.d * (b.d
        * c.d))) by (nonlinear_arith);
}


pub proof fn lemma_cube_congr(p: Frac, q: Frac)
    requires
        feq(p, q),
    ensures
        feq(fcube(p), fcube(q)),
{
    lemma_mul_congr(p, q, p, q);
    lemma_mul_congr(p, q, fmul(p, p), fmul(q, q));
}

/// Equal valid fractions with positive denominators have numerators of the
/// same sign.
pub proof fn lemma_feq_sign(p: Frac, q: Frac) by (nonlinear_arith)
    requires
        p.d > 0,
        q.d > 0,
        feq(p, q),
    ensures
        p.n > 0 <==> q.n > 0,
        p.n == 0 <==> q.n == 0,
        p.n < 0 <==> q.n < 0,
{
}

} // verus!
