//! Exact rational arithmetic.
//!
//! Every physical quantity of the panel design (letter width, spacing,
//! document size, shape coordinates) is an exact rational number.  The
//! executable type [`Rat`] keeps a numerator and a positive denominator in
//! `i64`; all intermediate products are taken in `i128`, where they cannot
//! wrap, and results are brought back to `i64` after dividing out a common
//! divisor.  An operation returns `None` only when even the reduced result
//! does not fit; the contracts below guarantee success whenever the
//! unreduced result already fits.

use vstd::prelude::*;

verus! {

use vstd::arithmetic::div_mod::{
    lemma_fundamental_div_mod,
    lemma_mod_multiples_vanish,
    lemma_mod_self_0,
    lemma_small_mod,
};
use vstd::arithmetic::mul::{
    lemma_mul_is_associative,
    lemma_mul_is_commutative,
    lemma_mul_is_distributive_add,
    lemma_mul_is_distributive_sub,
    lemma_mul_is_distributive_add_other_way,
    lemma_mul_is_distributive_sub_other_way,
    lemma_mul_strictly_positive,
};
use vstd::math::abs;

/// Mathematical model of a rational number: the quotient `n / d` of two
/// unbounded integers.  Well-formed fractions keep `d > 0`.
pub ghost struct Frac {
    pub n: int,
    pub d: int,
}

/// A fraction is well formed when its denominator is positive.
pub open spec fn frac_wf(f: Frac) -> bool {
    f.d > 0
}

/// Two fractions denote the same rational number (cross multiplication).
pub open spec fn frac_eq(a: Frac, b: Frac) -> bool {
    a.n * b.d == b.n * a.d
}

/// The fraction denoting the integer `i`.
pub open spec fn frac_int(i: int) -> Frac {
    Frac { n: i, d: 1 }
}

pub open spec fn frac_add(a: Frac, b: Frac) -> Frac {
    Frac { n: a.n * b.d + b.n * a.d, d: a.d * b.d }
}

pub open spec fn frac_sub(a: Frac, b: Frac) -> Frac {
    Frac { n: a.n * b.d - b.n * a.d, d: a.d * b.d }
}

pub open spec fn frac_mul(a: Frac, b: Frac) -> Frac {
    Frac { n: a.n * b.n, d: a.d * b.d }
}

/// Division, with the sign moved into the numerator so that the result is
/// well formed whenever `b.n != 0` and both inputs are well formed.
pub open spec fn frac_div(a: Frac, b: Frac) -> Frac {
    if b.n >= 0 {
        Frac { n: a.n * b.d, d: a.d * b.n }
    } else {
        Frac { n: -(a.n * b.d), d: -(a.d * b.n) }
    }
}

pub open spec fn frac_neg(a: Frac) -> Frac {
    Frac { n: -a.n, d: a.d }
}

/// For a well-formed fraction the sign of the value is the sign of `n`.
pub open spec fn frac_pos(a: Frac) -> bool {
    a.n > 0
}

/// `a < b`, for well-formed fractions.
pub open spec fn frac_lt(a: Frac, b: Frac) -> bool {
    a.n * b.d < b.n * a.d
}

/// The fraction fits the executable representation as it stands.
pub open spec fn frac_fits(f: Frac) -> bool {
    &&& -(i64::MAX as int) <= f.n <= i64::MAX as int
    &&& 0 < f.d <= i64::MAX as int
}

/// `a` is no larger than `b` in numerator magnitude and denominator.
pub open spec fn frac_mag_le(a: Frac, b: Frac) -> bool {
    abs(a.n) <= abs(b.n) && a.d <= b.d
}

/// An exact rational number with a positive `i64` denominator.  The
/// numerator stays strictly above `i64::MIN`, so negation never overflows.
#[derive(Clone, Copy, Debug, PartialEq, Eq, Structural)]
pub struct Rat {
    num: i64,
    den: i64,
}

impl View for Rat {
    type V = Frac;

    closed spec fn view(&self) -> Frac {
        Frac { n: self.num as int, d: self.den as int }
    }
}

/// Greatest common divisor by Euclid's algorithm.  The contract claims only
/// what reduction needs: the result is positive and divides both arguments.
fn gcd128(a: u128, b: u128) -> (g: u128)
    requires
        a > 0 || b > 0,
    ensures
        1 <= g,
        a as int % g as int == 0,
        b as int % g as int == 0,
    decreases b,
{
    if b == 0 {
        proof {
            lemma_mod_self_0(a as int);
            lemma_small_mod(0, a as nat);
        }
        a
    } else {
        let g = gcd128(b, a % b);
        proof {
            lemma_fundamental_div_mod(a as int, b as int);
            lemma_fundamental_div_mod(b as int, g as int);
            // a == b * (a / b) + a % b and b == g * (b / g), so a is
            // g * ((b / g) * (a / b)) plus a remainder that g divides.
            assert(a as int == g as int * ((b as int / g as int) * (a as int / b as int)) + (
            a as int % b as int)) by (nonlinear_arith)
                requires
                    a as int == b as int * (a as int / b as int) + a as int % b as int,
                    b as int == g as int * (b as int / g as int),
            ;
            lemma_mod_multiples_vanish(
                (b as int / g as int) * (a as int / b as int),
                a as int % b as int,
                g as int,
            );
        }
        g
    }
}

/// Bounds `a * b` by `m * m` when both factors lie in `[-m, m]`.
proof fn lemma_mul_abs_bound(a: int, b: int, m: int)
    requires
        -m <= a <= m,
        -m <= b <= m,
        0 <= m,
    ensures
        -(m * m) <= a * b <= m * m,
{
    assert(-(m * m) <= a * b <= m * m) by (nonlinear_arith)
        requires
            -m <= a <= m,
            -m <= b <= m,
            0 <= m,
    ;
}

/// Divides a common divisor out of `n / d` and stores the result in `i64`.
/// Fails only when even the reduced fraction does not fit.
fn reduce128(n: i128, d: i128) -> (r: Option<Rat>)
    requires
        0 < d,
        i128::MIN < n,
    ensures
        r is Some ==> r->Some_0.inv(),
        r is Some ==> frac_eq(r->Some_0@, Frac { n: n as int, d: d as int }),
        r is Some ==> frac_mag_le(r->Some_0@, Frac { n: n as int, d: d as int }),
        -(i64::MAX as int) <= n as int <= i64::MAX as int && d <= i64::MAX as int ==> r is Some,
{
    if n == 0 {
        proof {
            assert(0 * (d as int) == 0) by (nonlinear_arith);
        }
        Some(Rat { num: 0, den: 1 })
    } else {
        let un: u128 = if n < 0 {
            (-n) as u128
        } else {
            n as u128
        };
        let ud: u128 = d as u128;
        let g = gcd128(un, ud);
        let rn = un / g;
        let rd = ud / g;
        proof {
            lemma_fundamental_div_mod(un as int, g as int);
            lemma_fundamental_div_mod(ud as int, g as int);
            // un == g * rn and ud == g * rd, with g >= 1.
            assert(rn <= un && rd <= ud && rd >= 1 && rn >= 1) by (nonlinear_arith)
                requires
                    un as int == g as int * (rn as int),
                    ud as int == g as int * (rd as int),
                    g >= 1,
                    un >= 1,
                    ud >= 1,
            ;
            assert(rn as int * (ud as int) == un as int * (rd as int)) by (nonlinear_arith)
                requires
                    un as int == g as int * (rn as int),
                    ud as int == g as int * (rd as int),
            ;
        }
        if rn <= i64::MAX as u128 && rd <= i64::MAX as u128 {
            let den = rd as i64;
            if n < 0 {
                proof {
                    assert(un as int == -(n as int));
                    assert((-(rn as int)) * (d as int) == (n as int) * (rd as int))
                        by (nonlinear_arith)
                        requires
                            (rn as int) * (ud as int) == (un as int) * (rd as int),
                            un as int == -(n as int),
                            ud as int == d as int,
                    ;
                }
                Some(Rat { num: -(rn as i64), den })
            } else {
                proof {
                    assert(un as int == n as int);
                    assert((rn as int) * (d as int) == (n as int) * (rd as int));
                }
                Some(Rat { num: rn as i64, den })
            }
        } else {
            None
        }
    }
}

impl Rat {
    /// The representation invariant: positive denominator, numerator above
    /// `i64::MIN`.
    pub open spec fn inv(self) -> bool {
        frac_wf(self@) && -(i64::MAX as int) <= self@.n
    }

    /// The rational `num / den`.
    pub fn new(num: i64, den: i64) -> (r: Rat)
        requires
            den > 0,
            num > i64::MIN,
        ensures
            r.inv(),
            r@ == (Frac { n: num as int, d: den as int }),
    {
        Rat { num, den }
    }

    /// The rational denoting the integer `i`.
    pub fn from_int(i: i64) -> (r: Rat)
        requires
            i > i64::MIN,
        ensures
            r.inv(),
            r@ == frac_int(i as int),
    {
        Rat { num: i, den: 1 }
    }

    /// Exact sum.
    pub fn add(self, other: Rat) -> (r: Option<Rat>)
        requires
            self.inv(),
            other.inv(),
        ensures
            r is Some ==> r->Some_0.inv(),
            r is Some ==> frac_eq(r->Some_0@, frac_add(self@, other@)),
            r is Some ==> frac_mag_le(r->Some_0@, frac_add(self@, other@)),
            frac_fits(frac_add(self@, other@)) ==> r is Some,
    {
        let an = self.num as i128;
        let ad = self.den as i128;
        let bn = other.num as i128;
        let bd = other.den as i128;
        proof {
            let m = i64::MAX as int;
            lemma_mul_abs_bound(an as int, bd as int, m);
            lemma_mul_abs_bound(bn as int, ad as int, m);
            lemma_mul_strictly_positive(ad as int, bd as int);
            lemma_mul_abs_bound(ad as int, bd as int, m);
        }
        let n = an * bd + bn * ad;
        let d = ad * bd;
        reduce128(n, d)
    }

    /// Exact difference.
    pub fn sub(self, other: Rat) -> (r: Option<Rat>)
        requires
            self.inv(),
            other.inv(),
        ensures
            r is Some ==> r->Some_0.inv(),
            r is Some ==> frac_eq(r->Some_0@, frac_sub(self@, other@)),
            r is Some ==> frac_mag_le(r->Some_0@, frac_sub(self@, other@)),
            frac_fits(frac_sub(self@, other@)) ==> r is Some,
    {
        let an = self.num as i128;
        let ad = self.den as i128;
        let bn = other.num as i128;
        let bd = other.den as i128;
        proof {
            let m = i64::MAX as int;
            lemma_mul_abs_bound(an as int, bd as int, m);
            lemma_mul_abs_bound(bn as int, ad as int, m);
            lemma_mul_strictly_positive(ad as int, bd as int);
            lemma_mul_abs_bound(ad as int, bd as int, m);
        }
        let n = an * bd - bn * ad;
        let d = ad * bd;
        reduce128(n, d)
    }

    /// Exact product.
    pub fn mul(self, other: Rat) -> (r: Option<Rat>)
        requires
            self.inv(),
            other.inv(),
        ensures
            r is Some ==> r->Some_0.inv(),
            r is Some ==> frac_eq(r->Some_0@, frac_mul(self@, other@)),
            r is Some ==> frac_mag_le(r->Some_0@, frac_mul(self@, other@)),
            frac_fits(frac_mul(self@, other@)) ==> r is Some,
    {
        let an = self.num as i128;
        let ad = self.den as i128;
        let bn = other.num as i128;
        let bd = other.den as i128;
        proof {
            let m = i64::MAX as int;
            lemma_mul_abs_bound(an as int, bn as int, m);
            lemma_mul_strictly_positive(ad as int, bd as int);
            lemma_mul_abs_bound(ad as int, bd as int, m);
        }
        let n = an * bn;
        let d = ad * bd;
        reduce128(n, d)
    }

    /// Exact quotient.  `None` when `other` is zero or the reduced result
    /// does not fit.
    pub fn div(self, other: Rat) -> (r: Option<Rat>)
        requires
            self.inv(),
            other.inv(),
        ensures
            other@.n == 0 ==> r is None,
            r is Some ==> r->Some_0.inv(),
            r is Some ==> frac_eq(r->Some_0@, frac_div(self@, other@)),
            r is Some ==> frac_mag_le(r->Some_0@, frac_div(self@, other@)),
            other@.n != 0 && frac_fits(frac_div(self@, other@)) ==> r is Some,
    {
        if other.num == 0 {
            None
        } else {
            let an = self.num as i128;
            let ad = self.den as i128;
            let bn = other.num as i128;
            let bd = other.den as i128;
            proof {
                let m = i64::MAX as int;
                lemma_mul_abs_bound(an as int, bd as int, m);
                lemma_mul_abs_bound(ad as int, bn as int, m);
            }
            let n0 = an * bd;
            let d0 = ad * bn;
            if other.num < 0 {
                proof {
                    assert((ad as int) * (bn as int) < 0) by (nonlinear_arith)
                        requires
                            ad as int > 0,
                            (bn as int) < 0,
                    ;
                }
                reduce128(-n0, -d0)
            } else {
                proof {
                    lemma_mul_strictly_positive(ad as int, bn as int);
                }
                reduce128(n0, d0)
            }
        }
    }

    /// Exact negation; never fails.
    pub fn neg(self) -> (r: Rat)
        requires
            self.inv(),
        ensures
            r.inv(),
            r@ == frac_neg(self@),
    {
        Rat { num: -self.num, den: self.den }
    }

    /// Whether the value is strictly positive.
    pub fn is_pos(&self) -> (r: bool)
        requires
            self.inv(),
        ensures
            r == frac_pos(self@),
    {
        self.num > 0
    }

    /// Whether the value is zero.
    pub fn is_zero(&self) -> (r: bool)
        requires
            self.inv(),
        ensures
            r == (self@.n == 0),
    {
        self.num == 0
    }

    /// Exact comparison: `self < other`.
    pub fn lt(&self, other: &Rat) -> (r: bool)
        requires
            self.inv(),
            other.inv(),
        ensures
            r == frac_lt(self@, other@),
    {
        let an = self.num as i128;
        let ad = self.den as i128;
        let bn = other.num as i128;
        let bd = other.den as i128;
        proof {
            let m = i64::MAX as int;
            lemma_mul_abs_bound(an as int, bd as int, m);
            lemma_mul_abs_bound(bn as int, ad as int, m);
        }
        an * bd < bn * ad
    }

    /// The numerator, for rendering.
    pub fn numerator(&self) -> (r: i64)
        ensures
            r as int == self@.n,
    {
        self.num
    }

    /// The denominator, for rendering.
    pub fn denominator(&self) -> (r: i64)
        ensures
            r as int == self@.d,
    {
        self.den
    }
}

/// Bounds `a * b` by `ma * mb` when the factors lie in `[-ma, ma]` and
/// `[-mb, mb]`.
pub proof fn lemma_mul_bound2(a: int, b: int, ma: int, mb: int)
    requires
        -ma <= a <= ma,
        -mb <= b <= mb,
        0 <= ma,
        0 <= mb,
    ensures
        -(ma * mb) <= a * b <= ma * mb,
{
    assert(-(ma * mb) <= a * b <= ma * mb) by (nonlinear_arith)
        requires
            -ma <= a <= ma,
            -mb <= b <= mb,
            0 <= ma,
            0 <= mb,
    ;
}

/// The product of two positive integers is positive.
pub proof fn lemma_mul_pos(a: int, b: int)
    requires
        a > 0,
        b > 0,
    ensures
        a * b > 0,
{
    lemma_mul_strictly_positive(a, b);
}

/// Sums, differences and products of well-formed fractions are well formed.
pub broadcast proof fn lemma_add_wf(a: Frac, b: Frac)
    ensures
        frac_wf(a) && frac_wf(b) ==> #[trigger] frac_wf(frac_add(a, b)),
{
    if frac_wf(a) && frac_wf(b) {
        lemma_mul_strictly_positive(a.d, b.d);
    }
}

pub broadcast proof fn lemma_sub_wf(a: Frac, b: Frac)
    ensures
        frac_wf(a) && frac_wf(b) ==> #[trigger] frac_wf(frac_sub(a, b)),
{
    if frac_wf(a) && frac_wf(b) {
        lemma_mul_strictly_positive(a.d, b.d);
    }
}

pub broadcast proof fn lemma_mul_wf(a: Frac, b: Frac)
    ensures
        frac_wf(a) && frac_wf(b) ==> #[trigger] frac_wf(frac_mul(a, b)),
{
    if frac_wf(a) && frac_wf(b) {
        lemma_mul_strictly_positive(a.d, b.d);
    }
}

/// A quotient by a non-zero fraction is well formed.
pub broadcast proof fn lemma_div_wf(a: Frac, b: Frac)
    ensures
        frac_wf(a) && frac_wf(b) && b.n != 0 ==> #[trigger] frac_wf(frac_div(a, b)),
{
    if frac_wf(a) && frac_wf(b) && b.n != 0 {
        if b.n > 0 {
            lemma_mul_strictly_positive(a.d, b.n);
        } else {
            assert(a.d * b.n < 0) by (nonlinear_arith)
                requires
                    a.d > 0,
                    b.n < 0,
            ;
        }
    }
}

pub broadcast group group_frac_wf {
    lemma_add_wf,
    lemma_sub_wf,
    lemma_mul_wf,
    lemma_div_wf,
}

/// Rearranges a product of four factors; every listed grouping is equal.
proof fn lemma_mul_ac4(p: int, q: int, r: int, s: int)
    ensures
        (p * q) * (r * s) == (p * r) * (q * s),
        (p * q) * (r * s) == (p * s) * (q * r),
        (p * q) * (r * s) == (p * s) * (r * q),
        (p * q) * (r * s) == (q * r) * (p * s),
        (p * q) * (r * s) == (q * s) * (p * r),
{
    assert((p * q) * (r * s) == (p * r) * (q * s) && (p * q) * (r * s) == (p * s) * (q * r) && (p
        * q) * (r * s) == (p * s) * (r * q) && (p * q) * (r * s) == (q * r) * (p * s) && (p * q) * (
    r * s) == (q * s) * (p * r)) by (nonlinear_arith);
}

/// With equal values and a no-larger denominator, the numerator is no
/// larger in magnitude either.
pub proof fn lemma_eq_mag(a: Frac, b: Frac)
    requires
        frac_wf(a),
        frac_wf(b),
        frac_eq(a, b),
        a.d <= b.d,
    ensures
        abs(a.n) <= abs(b.n),
{
    lemma_frac_eq_sign(a, b);
    if a.n >= 0 {
        assert(a.n <= b.n) by (nonlinear_arith)
            requires
                a.n * b.d == b.n * a.d,
                0 < a.d <= b.d,
                a.n >= 0,
                b.n >= 0,
        ;
    } else {
        assert(b.n <= a.n) by (nonlinear_arith)
            requires
                a.n * b.d == b.n * a.d,
                0 < a.d <= b.d,
                a.n < 0,
                b.n < 0,
        ;
    }
}

/// Denominator comparison for sums, differences and products.
pub proof fn lemma_den_prod_le(a: Frac, aa: Frac, b: Frac, bb: Frac)
    requires
        frac_wf(a),
        frac_wf(aa),
        frac_wf(b),
        frac_wf(bb),
        a.d <= aa.d,
        b.d <= bb.d,
    ensures
        a.d * b.d <= aa.d * bb.d,
{
    assert(a.d * b.d <= aa.d * bb.d) by (nonlinear_arith)
        requires
            0 < a.d <= aa.d,
            0 < b.d <= bb.d,
    ;
}

/// Denominator comparison for quotients.
pub proof fn lemma_div_den_le(a: Frac, aa: Frac, b: Frac, bb: Frac)
    requires
        frac_wf(a),
        frac_wf(aa),
        frac_wf(b),
        frac_wf(bb),
        frac_eq(b, bb),
        a.d <= aa.d,
        abs(b.n) <= abs(bb.n),
        b.n != 0,
    ensures
        frac_div(a, b).d <= frac_div(aa, bb).d,
{
    lemma_frac_eq_sign(b, bb);
    if b.n > 0 {
        assert(a.d * b.n <= aa.d * bb.n) by (nonlinear_arith)
            requires
                0 < a.d <= aa.d,
                0 < b.n <= bb.n,
        ;
    } else {
        assert(-(a.d * b.n) <= -(aa.d * bb.n)) by (nonlinear_arith)
            requires
                0 < a.d <= aa.d,
                b.n < 0,
                bb.n <= b.n,
        ;
    }
}

/// Success transport for addition: when both operands denote spec-level
/// fractions with no larger denominators and the spec-level sum fits the
/// representation, the operands' sum fits too.
pub proof fn lemma_add_fits(a: Frac, aa: Frac, b: Frac, bb: Frac)
    requires
        frac_wf(a),
        frac_wf(aa),
        frac_wf(b),
        frac_wf(bb),
        frac_eq(a, aa),
        frac_eq(b, bb),
        a.d <= aa.d,
        b.d <= bb.d,
        frac_fits(frac_add(aa, bb)),
    ensures
        frac_fits(frac_add(a, b)),
        frac_add(a, b).d <= frac_add(aa, bb).d,
{
    lemma_add_cong(a, aa, b, bb);
    assert(0 < a.d * b.d <= aa.d * bb.d) by (nonlinear_arith)
        requires
            0 < a.d <= aa.d,
            0 < b.d <= bb.d,
    ;
    lemma_eq_mag(frac_add(a, b), frac_add(aa, bb));
}

/// Success transport for subtraction.
pub proof fn lemma_sub_fits(a: Frac, aa: Frac, b: Frac, bb: Frac)
    requires
        frac_wf(a),
        frac_wf(aa),
        frac_wf(b),
        frac_wf(bb),
        frac_eq(a, aa),
        frac_eq(b, bb),
        a.d <= aa.d,
        b.d <= bb.d,
        frac_fits(frac_sub(aa, bb)),
    ensures
        frac_fits(frac_sub(a, b)),
        frac_sub(a, b).d <= frac_sub(aa, bb).d,
{
    lemma_sub_cong(a, aa, b, bb);
    assert(0 < a.d * b.d <= aa.d * bb.d) by (nonlinear_arith)
        requires
            0 < a.d <= aa.d,
            0 < b.d <= bb.d,
    ;
    lemma_eq_mag(frac_sub(a, b), frac_sub(aa, bb));
}

/// Success transport for multiplication.
pub proof fn lemma_mul_fits(a: Frac, aa: Frac, b: Frac, bb: Frac)
    requires
        frac_wf(a),
        frac_wf(aa),
        frac_wf(b),
        frac_wf(bb),
        frac_eq(a, aa),
        frac_eq(b, bb),
        a.d <= aa.d,
        b.d <= bb.d,
        frac_fits(frac_mul(aa, bb)),
    ensures
        frac_fits(frac_mul(a, b)),
        frac_mul(a, b).d <= frac_mul(aa, bb).d,
{
    lemma_mul_cong(a, aa, b, bb);
    assert(0 < a.d * b.d <= aa.d * bb.d) by (nonlinear_arith)
        requires
            0 < a.d <= aa.d,
            0 < b.d <= bb.d,
    ;
    lemma_eq_mag(frac_mul(a, b), frac_mul(aa, bb));
}

/// Success transport for division by a non-zero fraction.
pub proof fn lemma_div_fits(a: Frac, aa: Frac, b: Frac, bb: Frac)
    requires
        frac_wf(a),
        frac_wf(aa),
        frac_wf(b),
        frac_wf(bb),
        frac_eq(a, aa),
        frac_eq(b, bb),
        a.d <= aa.d,
        b.d <= bb.d,
        abs(b.n) <= abs(bb.n),
        b.n != 0,
        frac_fits(frac_div(aa, bb)),
    ensures
        frac_fits(frac_div(a, b)),
        frac_div(a, b).d <= frac_div(aa, bb).d,
{
    lemma_frac_eq_sign(b, bb);
    lemma_div_cong(a, aa, b, bb);
    lemma_div_wf(a, b);
    lemma_div_wf(aa, bb);
    if b.n > 0 {
        assert(0 < a.d * b.n <= aa.d * bb.n) by (nonlinear_arith)
            requires
                0 < a.d <= aa.d,
                0 < b.n <= bb.n,
        ;
    } else {
        assert(0 < -(a.d * b.n) <= -(aa.d * bb.n)) by (nonlinear_arith)
            requires
                0 < a.d <= aa.d,
                b.n < 0,
                bb.n <= b.n,
        ;
    }
    lemma_eq_mag(frac_div(a, b), frac_div(aa, bb));
}

/// Multiplication of fractions is commutative, as representations.
pub proof fn lemma_frac_mul_comm(a: Frac, b: Frac)
    ensures
        frac_mul(a, b) == frac_mul(b, a),
{
    lemma_mul_is_commutative(a.n, b.n);
    lemma_mul_is_commutative(a.d, b.d);
}

/// Multiplication of fractions is associative, as representations.
pub proof fn lemma_frac_mul_assoc(a: Frac, b: Frac, c: Frac)
    ensures
        frac_mul(frac_mul(a, b), c) == frac_mul(a, frac_mul(b, c)),
{
    assert((a.n * b.n) * c.n == a.n * (b.n * c.n) && (a.d * b.d) * c.d == a.d * (b.d * c.d))
        by (nonlinear_arith);
}

/// Multiplication distributes over subtraction of fractions.
pub proof fn lemma_frac_dist_sub(a: Frac, b: Frac, c: Frac)
    requires
        frac_wf(a),
        frac_wf(b),
        frac_wf(c),
    ensures
        frac_eq(frac_mul(a, frac_sub(b, c)), frac_sub(frac_mul(a, b), frac_mul(a, c))),
{
    let s = b.n * c.d - c.n * b.d;
    let t = a.d * (b.d * c.d);
    lemma_mul_ac4(a.n, b.n, a.d, c.d);
    lemma_mul_ac4(a.n, c.n, a.d, b.d);
    lemma_mul_is_distributive_sub(a.n * a.d, b.n * c.d, c.n * b.d);
    assert((a.n * b.n) * (a.d * c.d) - (a.n * c.n) * (a.d * b.d) == (a.n * a.d) * s);
    lemma_mul_ac4(a.d, b.d, a.d, c.d);
    lemma_mul_is_associative(a.d, a.d, b.d * c.d);
    assert((a.d * b.d) * (a.d * c.d) == a.d * t);
    lemma_mul_ac4(a.n, s, a.d, t);
    lemma_mul_is_associative(a.n * a.d, s, t);
    assert((a.n * s) * (a.d * t) == ((a.n * a.d) * s) * t);
}

/// Addition of fractions is commutative, as representations.
pub proof fn lemma_frac_add_comm(a: Frac, b: Frac)
    ensures
        frac_add(a, b) == frac_add(b, a),
{
    lemma_mul_is_commutative(a.d, b.d);
}

/// Multiplication distributes over addition of fractions.
pub proof fn lemma_frac_dist_add(a: Frac, b: Frac, c: Frac)
    requires
        frac_wf(a),
        frac_wf(b),
        frac_wf(c),
    ensures
        frac_eq(frac_mul(a, frac_add(b, c)), frac_add(frac_mul(a, b), frac_mul(a, c))),
{
    let s = b.n * c.d + c.n * b.d;
    let t = a.d * (b.d * c.d);
    lemma_mul_ac4(a.n, b.n, a.d, c.d);
    lemma_mul_ac4(a.n, c.n, a.d, b.d);
    lemma_mul_is_distributive_add(a.n * a.d, b.n * c.d, c.n * b.d);
    assert((a.n * b.n) * (a.d * c.d) + (a.n * c.n) * (a.d * b.d) == (a.n * a.d) * s);
    lemma_mul_ac4(a.d, b.d, a.d, c.d);
    lemma_mul_is_associative(a.d, a.d, b.d * c.d);
    assert((a.d * b.d) * (a.d * c.d) == a.d * t);
    lemma_mul_ac4(a.n, s, a.d, t);
    lemma_mul_is_associative(a.n * a.d, s, t);
    assert((a.n * s) * (a.d * t) == ((a.n * a.d) * s) * t);
}

/// Addition of fractions is associative.
pub proof fn lemma_frac_add_assoc(a: Frac, b: Frac, c: Frac)
    requires
        frac_wf(a),
        frac_wf(b),
        frac_wf(c),
    ensures
        frac_eq(frac_add(frac_add(a, b), c), frac_add(a, frac_add(b, c))),
{
    lemma_mul_is_associative(a.d, b.d, c.d);
    assert((a.d * b.d) * c.d == a.d * (b.d * c.d));
    lemma_mul_is_distributive_add_other_way(c.d, a.n * b.d, b.n * a.d);
    lemma_mul_is_distributive_add_other_way(a.d, b.n * c.d, c.n * b.d);
    lemma_mul_is_associative(a.n, b.d, c.d);
    assert((a.n * b.d) * c.d == a.n * (b.d * c.d));
    lemma_mul_is_associative(b.n, a.d, c.d);
    lemma_mul_is_commutative(a.d, c.d);
    lemma_mul_is_associative(b.n, c.d, a.d);
    assert((b.n * a.d) * c.d == (b.n * c.d) * a.d);
    lemma_mul_is_associative(c.n, b.d, a.d);
    lemma_mul_is_commutative(b.d, a.d);
    lemma_mul_is_associative(c.n, a.d, b.d);
    assert((c.n * b.d) * a.d == c.n * (a.d * b.d));
    assert((a.n * b.d + b.n * a.d) * c.d + c.n * ((a.d * b.d))
        == a.n * (b.d * c.d) + (b.n * c.d + c.n * b.d) * a.d);
}

/// `x + (y - z)` equals `(x - z) + y`.
pub proof fn lemma_frac_add_sub_shuffle(x: Frac, y: Frac, z: Frac)
    requires
        frac_wf(x),
        frac_wf(y),
        frac_wf(z),
    ensures
        frac_eq(frac_add(x, frac_sub(y, z)), frac_add(frac_sub(x, z), y)),
{
    lemma_mul_is_associative(x.d, z.d, y.d);
    lemma_mul_is_commutative(z.d, y.d);
    assert((x.d * z.d) * y.d == x.d * (y.d * z.d));
    lemma_mul_is_distributive_sub_other_way(x.d, y.n * z.d, z.n * y.d);
    lemma_mul_is_distributive_sub_other_way(y.d, x.n * z.d, z.n * x.d);
    lemma_mul_is_associative(x.n, z.d, y.d);
    lemma_mul_is_commutative(z.d, y.d);
    lemma_mul_is_commutative(x.n, z.d * y.d);
    assert((x.n * z.d) * y.d == x.n * (y.d * z.d));
    lemma_mul_is_associative(y.n, z.d, x.d);
    lemma_mul_is_commutative(z.d, x.d);
    lemma_mul_is_associative(y.n, x.d, z.d);
    assert((y.n * z.d) * x.d == y.n * (x.d * z.d));
    lemma_mul_is_associative(z.n, y.d, x.d);
    lemma_mul_is_commutative(y.d, x.d);
    lemma_mul_is_associative(z.n, x.d, y.d);
    assert((z.n * y.d) * x.d == (z.n * x.d) * y.d);
    assert(x.n * (y.d * z.d) + (y.n * z.d - z.n * y.d) * x.d == (x.n * z.d - z.n * x.d) * y.d
        + y.n * (x.d * z.d));
}

/// `(y - x) + x` equals `y`.
pub proof fn lemma_frac_add_sub_cancel(y: Frac, x: Frac)
    requires
        frac_wf(y),
        frac_wf(x),
    ensures
        frac_eq(frac_add(frac_sub(y, x), x), y),
{
    assert(((y.n * x.d - x.n * y.d) * x.d + x.n * (y.d * x.d)) * y.d == y.n * ((y.d * x.d) * x.d))
        by (nonlinear_arith);
}

/// Dividing by `b` and multiplying by `b` again gives the value back.
pub proof fn lemma_frac_div_mul_cancel(a: Frac, b: Frac)
    requires
        frac_wf(a),
        frac_wf(b),
        b.n != 0,
    ensures
        frac_eq(frac_mul(frac_div(a, b), b), a),
{
    if b.n > 0 {
        assert(((a.n * b.d) * b.n) * a.d == a.n * ((a.d * b.n) * b.d)) by (nonlinear_arith);
    } else {
        assert(((-(a.n * b.d)) * b.n) * a.d == a.n * ((-(a.d * b.n)) * b.d)) by (nonlinear_arith);
    }
}

/// `frac_eq` is symmetric.
pub proof fn lemma_frac_eq_sym(a: Frac, b: Frac)
    requires
        frac_eq(a, b),
    ensures
        frac_eq(b, a),
{
}

/// `frac_eq` is transitive on well-formed fractions.
pub proof fn lemma_frac_eq_trans(a: Frac, b: Frac, c: Frac)
    requires
        frac_wf(a),
        frac_wf(b),
        frac_wf(c),
        frac_eq(a, b),
        frac_eq(b, c),
    ensures
        frac_eq(a, c),
{
    assert(a.n * c.d == c.n * a.d) by (nonlinear_arith)
        requires
            a.n * b.d == b.n * a.d,
            b.n * c.d == c.n * b.d,
            a.d > 0,
            b.d > 0,
            c.d > 0,
    ;
}

/// Equal fractions have the same sign.
pub proof fn lemma_frac_eq_sign(a: Frac, b: Frac)
    requires
        frac_wf(a),
        frac_wf(b),
        frac_eq(a, b),
    ensures
        frac_pos(a) == frac_pos(b),
        (a.n == 0) == (b.n == 0),
{
    assert(((a.n > 0) == (b.n > 0)) && ((a.n == 0) == (b.n == 0))) by (nonlinear_arith)
        requires
            a.n * b.d == b.n * a.d,
            a.d > 0,
            b.d > 0,
    ;
}

/// Addition respects `frac_eq`.
pub proof fn lemma_add_cong(a: Frac, a2: Frac, b: Frac, b2: Frac)
    requires
        frac_wf(a),
        frac_wf(a2),
        frac_wf(b),
        frac_wf(b2),
        frac_eq(a, a2),
        frac_eq(b, b2),
    ensures
        frac_eq(frac_add(a, b), frac_add(a2, b2)),
{
    let x = a2.d * b2.d;
    let y = a.d * b.d;
    lemma_mul_is_distributive_add_other_way(x, a.n * b.d, b.n * a.d);
    lemma_mul_is_distributive_add_other_way(y, a2.n * b2.d, b2.n * a2.d);
    lemma_mul_ac4(a.n, b.d, a2.d, b2.d);
    assert((a.n * a2.d) * (b.d * b2.d) == (a2.n * a.d) * (b.d * b2.d));
    lemma_mul_ac4(a2.n, a.d, b.d, b2.d);
    assert((a.n * b.d) * x == (a2.n * b2.d) * y);
    lemma_mul_ac4(b.n, a.d, a2.d, b2.d);
    assert((b.n * b2.d) * (a.d * a2.d) == (b2.n * b.d) * (a.d * a2.d));
    lemma_mul_ac4(b2.n, b.d, a.d, a2.d);
    assert((b.n * a.d) * x == (b2.n * a2.d) * y);
}

/// Subtraction respects `frac_eq`.
pub proof fn lemma_sub_cong(a: Frac, a2: Frac, b: Frac, b2: Frac)
    requires
        frac_wf(a),
        frac_wf(a2),
        frac_wf(b),
        frac_wf(b2),
        frac_eq(a, a2),
        frac_eq(b, b2),
    ensures
        frac_eq(frac_sub(a, b), frac_sub(a2, b2)),
{
    let x = a2.d * b2.d;
    let y = a.d * b.d;
    lemma_mul_is_distributive_sub_other_way(x, a.n * b.d, b.n * a.d);
    lemma_mul_is_distributive_sub_other_way(y, a2.n * b2.d, b2.n * a2.d);
    lemma_mul_ac4(a.n, b.d, a2.d, b2.d);
    assert((a.n * a2.d) * (b.d * b2.d) == (a2.n * a.d) * (b.d * b2.d));
    lemma_mul_ac4(a2.n, a.d, b.d, b2.d);
    assert((a.n * b.d) * x == (a2.n * b2.d) * y);
    lemma_mul_ac4(b.n, a.d, a2.d, b2.d);
    assert((b.n * b2.d) * (a.d * a2.d) == (b2.n * b.d) * (a.d * a2.d));
    lemma_mul_ac4(b2.n, b.d, a.d, a2.d);
    assert((b.n * a.d) * x == (b2.n * a2.d) * y);
}

/// Multiplication respects `frac_eq`.
pub proof fn lemma_mul_cong(a: Frac, a2: Frac, b: Frac, b2: Frac)
    requires
        frac_wf(a),
        frac_wf(a2),
        frac_wf(b),
        frac_wf(b2),
        frac_eq(a, a2),
        frac_eq(b, b2),
    ensures
        frac_eq(frac_mul(a, b), frac_mul(a2, b2)),
{
    lemma_mul_ac4(a.n, b.n, a2.d, b2.d);
    assert((a.n * a2.d) * (b.n * b2.d) == (a2.n * a.d) * (b2.n * b.d));
    lemma_mul_ac4(a2.n, a.d, b2.n, b.d);
}

/// Division respects `frac_eq` as long as the divisor is not zero.
pub proof fn lemma_div_cong(a: Frac, a2: Frac, b: Frac, b2: Frac)
    requires
        frac_wf(a),
        frac_wf(a2),
        frac_wf(b),
        frac_wf(b2),
        frac_eq(a, a2),
        frac_eq(b, b2),
        b.n != 0,
    ensures
        frac_eq(frac_div(a, b), frac_div(a2, b2)),
{
    lemma_frac_eq_sign(b, b2);
    lemma_mul_ac4(a.n, b.d, a2.d, b2.n);
    lemma_mul_is_commutative(b.d, b2.n);
    assert((a.n * a2.d) * (b.d * b2.n) == (a2.n * a.d) * (b.n * b2.d));
    lemma_mul_ac4(a2.n, a.d, b.n, b2.d);
    assert((a.n * b.d) * (a2.d * b2.n) == (a2.n * b2.d) * (a.d * b.n));
    let u = a.n * b.d;
    let v = a2.d * b2.n;
    let w = a2.n * b2.d;
    let t = a.d * b.n;
    assert(u * v == w * t ==> (-u) * (-v) == (-w) * (-t)) by (nonlinear_arith);
}

} // verus!
