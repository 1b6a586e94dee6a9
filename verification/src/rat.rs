//! Exact rational arithmetic on machine words.
//!
//! A `Rat` stores a numerator and a positive denominator in `i128` words,
//! both strictly below `2^63` in magnitude, so that every product or
//! cross-product of two well-formed values fits in an `i128`. Results are
//! reduced by their greatest common divisor; a result that still does not
//! fit is reported as an arithmetic overflow rather than computed wrongly.

use vstd::prelude::*;

use crate::error::SplineError;
use crate::frac::{feq, fint, flt, fvalid, fadd, fdiv, fmul, fneg, fsub, Frac};

verus! {

/// Magnitude bound on stored numerators and denominators: `2^63`.
pub const RAT_BOUND: i128 = 9223372036854775808;

/// Euclid's greatest common divisor, at the specification level.
pub open spec fn spec_gcd(a: int, b: int) -> int
    recommends
        a >= 1,
        b >= 0,
    decreases b,
{
    if b <= 0 {
        a
    } else {
        proof {
            vstd::arithmetic::div_mod::lemma_mod_bound(a, b);
        }
        spec_gcd(b, a % b)
    }
}

/// Whether the fraction `n / d` (with `d > 0`) still fits the machine
/// words once reduced by its greatest common divisor. This decides
/// exactly which exact results the arithmetic operations can represent.
pub open spec fn norm_fits(n: int, d: int) -> bool
    recommends
        d > 0,
{
    if n == 0 {
        true
    } else {
        let m = if n < 0 {
            -n
        } else {
            n
        };
        let g = spec_gcd(m, d);
        m / g < RAT_BOUND && d / g < RAT_BOUND
    }
}

/// `norm_fits` of a fraction of either denominator sign, read as its
/// sign-normalised form.
pub open spec fn frac_fits(p: Frac) -> bool
    recommends
        fvalid(p),
{
    if p.d > 0 {
        norm_fits(p.n, p.d)
    } else {
        norm_fits(-p.n, -p.d)
    }
}

/// An exact rational number.
#[derive(Clone, Copy, Debug)]
pub struct Rat {
    num: i128,
    den: i128,
}

impl View for Rat {
    type V = Frac;

    closed spec fn view(&self) -> Frac {
        Frac { n: self.num as int, d: self.den as int }
    }
}

impl Rat {
    /// Well-formed: positive denominator, both words strictly below `2^63`
    /// in magnitude.
    pub open spec fn wf(&self) -> bool {
        &&& -RAT_BOUND < self@.n < RAT_BOUND
        &&& 0 < self@.d < RAT_BOUND
    }

    /// The rational `v / 1`.
    pub fn from_int(v: i64) -> (r: Rat)
        requires
            v > i64::MIN,
        ensures
            r.wf(),
            r@ == fint(v as int),
    {
        Rat { num: v as i128, den: 1 }
    }

    /// The rational `num / den`, reduced.
    pub fn new(num: i64, den: i64) -> (r: Rat)
        requires
            den > 0,
            num > i64::MIN,
        ensures
            r.wf(),
            feq(r@, Frac { n: num as int, d: den as int }),
    {
        match normalize(num as i128, den as i128) {
            Ok(v) => v,
            Err(_) => {
                proof {
                    assert(false);
                }
                Rat { num: 0, den: 1 }
            },
        }
    }

    /// The stored numerator and positive denominator, with no common
    /// factor left by the reducing constructors and operations.
    pub fn num_den(&self) -> (r: (i128, i128))
        ensures
            r.0 == self@.n,
            r.1 == self@.d,
    {
        (self.num, self.den)
    }

    /// Negation; exact and always representable.
    pub fn neg(&self) -> (r: Rat)
        requires
            self.wf(),
        ensures
            r.wf(),
            r@ == fneg(self@),
    {
        Rat { num: -self.num, den: self.den }
    }

    /// Whether the denoted rational is zero.
    pub fn is_zero(&self) -> (b: bool)
        requires
            self.wf(),
        ensures
            b == (self@.n == 0),
    {
        self.num == 0
    }

    /// Equality of the denoted rationals.
    pub fn equals(&self, other: &Rat) -> (b: bool)
        requires
            self.wf(),
            other.wf(),
        ensures
            b == feq(self@, other@),
    {
        proof {
            lemma_cross_products_fit(*self, *other);
        }
        self.num * other.den == other.num * self.den
    }

    /// Strict order of the denoted rationals.
    pub fn lt(&self, other: &Rat) -> (b: bool)
        requires
            self.wf(),
            other.wf(),
        ensures
            b == flt(self@, other@),
    {
        proof {
            lemma_cross_products_fit(*self, *other);
        }
        self.num * other.den < other.num * self.den
    }

    /// Exact sum, or an overflow report.
    pub fn add(&self, other: &Rat) -> (r: Result<Rat, SplineError>)
        requires
            self.wf(),
            other.wf(),
        ensures
            r matches Ok(v) ==> v.wf() && feq(v@, fadd(self@, other@)),
            r is Err ==> r == Err::<Rat, SplineError>(SplineError::Overflow),
            -RAT_BOUND < fadd(self@, other@).n < RAT_BOUND && fadd(self@, other@).d < RAT_BOUND
                ==> r is Ok,
            r is Ok <==> frac_fits(fadd(self@, other@)),
    {
        proof {
            lemma_cross_products_fit(*self, *other);
        }
        let n = self.num * other.den + other.num * self.den;
        let d = self.den * other.den;
        normalize(n, d)
    }

    /// Exact difference, or an overflow report.
    pub fn sub(&self, other: &Rat) -> (r: Result<Rat, SplineError>)
        requires
            self.wf(),
            other.wf(),
        ensures
            r matches Ok(v) ==> v.wf() && feq(v@, fsub(self@, other@)),
            r is Err ==> r == Err::<Rat, SplineError>(SplineError::Overflow),
            -RAT_BOUND < fsub(self@, other@).n < RAT_BOUND && fsub(self@, other@).d < RAT_BOUND
                ==> r is Ok,
            r is Ok <==> frac_fits(fsub(self@, other@)),
    {
        proof {
            lemma_cross_products_fit(*self, *other);
        }
        let n = self.num * other.den - other.num * self.den;
        let d = self.den * other.den;
        normalize(n, d)
    }

    /// Exact product, or an overflow report.
    pub fn mul(&self, other: &Rat) -> (r: Result<Rat, SplineError>)
        requires
            self.wf(),
            other.wf(),
        ensures
            r matches Ok(v) ==> v.wf() && feq(v@, fmul(self@, other@)),
            r is Err ==> r == Err::<Rat, SplineError>(SplineError::Overflow),
            -RAT_BOUND < fmul(self@, other@).n < RAT_BOUND && fmul(self@, other@).d < RAT_BOUND
                ==> r is Ok,
            r is Ok <==> frac_fits(fmul(self@, other@)),
    {
        proof {
            lemma_cross_products_fit(*self, *other);
        }
        let n = self.num * other.num;
        let d = self.den * other.den;
        normalize(n, d)
    }

    /// Exact quotient by a nonzero rational, or an overflow report.
    pub fn div(&self, other: &Rat) -> (r: Result<Rat, SplineError>)
        requires
            self.wf(),
            other.wf(),
            other@.n != 0,
        ensures
            r matches Ok(v) ==> v.wf() && feq(v@, fdiv(self@, other@)),
            r is Err ==> r == Err::<Rat, SplineError>(SplineError::Overflow),
            -RAT_BOUND < fdiv(self@, other@).n < RAT_BOUND && -RAT_BOUND < fdiv(self@, other@).d
                < RAT_BOUND ==> r is Ok,
            r is Ok <==> frac_fits(fdiv(self@, other@)),
    {
        proof {
            lemma_cross_products_fit(*self, *other);
        }
        let n = self.num * other.den;
        let d = self.den * other.num;
        proof {
            assert(d != 0) by (nonlinear_arith)
                requires
                    d == self@.d * other@.n,
                    self@.d > 0,
                    other@.n != 0,
            ;
        }
        let r = if d < 0 {
            normalize(-n, -d)
        } else {
            normalize(n, d)
        };
        proof {
            if r is Ok {
                let v = r->Ok_0;
                assert(feq(v@, fdiv(self@, other@))) by (nonlinear_arith)
                    requires
                        feq(
                            v@,
                            Frac {
                                n: if d < 0 { -n as int } else { n as int },
                                d: if d < 0 { -d as int } else { d as int },
                            },
                        ),
                        d != 0,
                        n == self@.n * other@.d,
                        d == self@.d * other@.n,
                ;
            }
        }
        r
    }
}

/// Cross products of two well-formed rationals, and their sums and
/// differences, fit comfortably in `i128`.
proof fn lemma_cross_products_fit(a: Rat, b: Rat) by (nonlinear_arith)
    requires
        a.wf(),
        b.wf(),
    ensures
        -(RAT_BOUND * RAT_BOUND) < a@.n * b@.n < RAT_BOUND * RAT_BOUND,
        -(RAT_BOUND * RAT_BOUND) < a@.n * b@.d < RAT_BOUND * RAT_BOUND,
        -(RAT_BOUND * RAT_BOUND) < b@.n * a@.d < RAT_BOUND * RAT_BOUND,
        -(RAT_BOUND * RAT_BOUND) < a@.d * b@.n < RAT_BOUND * RAT_BOUND,
        0 < a@.d * b@.d < RAT_BOUND * RAT_BOUND,
        i128::MIN < a@.n * b@.d + b@.n * a@.d < i128::MAX,
        i128::MIN < a@.n * b@.d - b@.n * a@.d < i128::MAX,
        RAT_BOUND * RAT_BOUND < i128::MAX,
{
}

/// Greatest common divisor by Euclid's algorithm; what matters for the
/// callers is that the result divides both arguments and is positive.
fn gcd128(a: i128, b: i128) -> (g: i128)
    requires
        a > 0,
        b >= 0,
    ensures
        1 <= g,
        a as int % g as int == 0,
        b as int % g as int == 0,
        g as int == spec_gcd(a as int, b as int),
    decreases b,
{
    if b == 0 {
        proof {
            vstd::arithmetic::div_mod::lemma_mod_multiples_basic(1, a as int);
            vstd::arithmetic::div_mod::lemma_mod_multiples_basic(0, a as int);
        }
        a
    } else {
        proof {
            vstd::arithmetic::div_mod::lemma_mod_bound(a as int, b as int);
        }
        let r = a % b;
        let g = gcd128(b, r);
        proof {
            lemma_divides_combination(a as int, b as int, r as int, g as int);
        }
        g
    }
}

/// If `g` divides `b` and the remainder `r` of `a` by `b`, it divides `a`.
proof fn lemma_divides_combination(a: int, b: int, r: int, g: int)
    requires
        b > 0,
        g >= 1,
        r == a % b,
        b % g == 0,
        r % g == 0,
    ensures
        a % g == 0,
{
    vstd::arithmetic::div_mod::lemma_fundamental_div_mod(a, b);
    vstd::arithmetic::div_mod::lemma_fundamental_div_mod(b, g);
    vstd::arithmetic::div_mod::lemma_fundamental_div_mod(r, g);
    let q = a / b;
    let kb = b / g;
    let kr = r / g;
    assert(a == g * (kb * q + kr)) by (nonlinear_arith)
        requires
            a == b * q + r,
            b == g * kb,
            r == g * kr,
    ;
    vstd::arithmetic::div_mod::lemma_mod_multiples_basic(kb * q + kr, g);
}

/// Reduce `n / d` by its greatest common divisor and re-check the word
/// bounds; `Err` reports that the reduced value still does not fit.
fn normalize(n: i128, d: i128) -> (r: Result<Rat, SplineError>)
    requires
        d > 0,
        n > i128::MIN,
    ensures
        r matches Ok(v) ==> v.wf() && feq(v@, Frac { n: n as int, d: d as int }),
        r is Err ==> r == Err::<Rat, SplineError>(SplineError::Overflow),
        -RAT_BOUND < n < RAT_BOUND && d < RAT_BOUND ==> r is Ok,
        r is Ok <==> norm_fits(n as int, d as int),
{
    if n == 0 {
        let v = Rat { num: 0, den: 1 };
        assert(v@.n == 0 && v@.d == 1);
        assert(v@.n * d as int == 0) by (nonlinear_arith)
            requires
                v@.n == 0,
        ;
        assert(feq(v@, Frac { n: n as int, d: d as int }));
        return Ok(v);
    }
    let m = if n < 0 {
        -n
    } else {
        n
    };
    let g = gcd128(m, d);
    let rm = m / g;
    let rd = d / g;
    proof {
        vstd::arithmetic::div_mod::lemma_fundamental_div_mod(m as int, g as int);
        vstd::arithmetic::div_mod::lemma_fundamental_div_mod(d as int, g as int);
        assert(rm as int == m as int / g as int);
        assert(m as int % g as int == 0);
        assert(m as int == g as int * (m as int / g as int));
        assert(m as int == g as int * (rm as int));
        assert(d as int == g as int * (rd as int));
        lemma_exact_div_bounds(m as int, g as int, rm as int);
        lemma_exact_div_bounds(d as int, g as int, rd as int);
    }
    if rm >= RAT_BOUND || rd >= RAT_BOUND {
        return Err(SplineError::Overflow);
    }
    let rn = if n < 0 {
        -rm
    } else {
        rm
    };
    let v = Rat { num: rn, den: rd };
    proof {
        assert(feq(v@, Frac { n: n as int, d: d as int })) by (nonlinear_arith)
            requires
                rm as int * (g as int) == m as int,
                rd as int * (g as int) == d as int,
                g >= 1,
                m == if n < 0 { -n as int } else { n as int },
                rn == if n < 0 { -rm as int } else { rm as int },
                v@ == (Frac { n: rn as int, d: rd as int }),
        ;
    }
    Ok(v)
}

/// Bounds of an exact quotient: with `m == g * q`, `m > 0`, `g >= 1`,
/// the quotient lies in `[1, m]`.
proof fn lemma_exact_div_bounds(m: int, g: int, q: int) by (nonlinear_arith)
    requires
        m > 0,
        g >= 1,
        m == g * q,
    ensures
        1 <= q <= m,
        q * g == m,
{
}

} // verus!
