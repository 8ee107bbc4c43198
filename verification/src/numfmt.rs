//! Verified decimal rendering of integers and rationals.
//!
//! The exporters print every coordinate with these functions, so the whole
//! document text is pinned down, character for character, by the spec
//! functions of this module.  A rational with an integral value prints as
//! a plain integer; any other value prints with exactly six fractional
//! digits, truncated toward zero.

use vstd::prelude::*;

verus! {

use vstd::arithmetic::div_mod::lemma_fundamental_div_mod;
use vstd::math::abs;
use vstd::string::StringExecFns;
use crate::rat::{Frac, Rat, frac_wf};

/// The single decimal digit character for `d`.
pub open spec fn digit_str(d: int) -> Seq<char> {
    if d == 0 {
        "0"@
    } else if d == 1 {
        "1"@
    } else if d == 2 {
        "2"@
    } else if d == 3 {
        "3"@
    } else if d == 4 {
        "4"@
    } else if d == 5 {
        "5"@
    } else if d == 6 {
        "6"@
    } else if d == 7 {
        "7"@
    } else if d == 8 {
        "8"@
    } else {
        "9"@
    }
}

/// The decimal digit string of `n`, most significant digit first, with no
/// leading zeros (except for `n == 0`, which is `"0"`).
pub open spec fn dec_digits(n: nat) -> Seq<char>
    decreases n,
{
    if n < 10 {
        digit_str(n as int)
    } else {
        dec_digits(n / 10) + digit_str((n % 10) as int)
    }
}

/// `n`, zero-padded on the left to six digits.  Meaningful for `n < 10^6`.
pub open spec fn pad6(n: nat) -> Seq<char> {
    (if n < 10 {
        "00000"@
    } else if n < 100 {
        "0000"@
    } else if n < 1000 {
        "000"@
    } else if n < 10000 {
        "00"@
    } else if n < 100000 {
        "0"@
    } else {
        Seq::<char>::empty()
    }) + dec_digits(n)
}

/// The rendered text of the well-formed fraction `f`: optional minus sign,
/// integer part, and, unless the value is integral, a dot and the first
/// six fractional digits (truncated toward zero).
pub open spec fn rat_text(f: Frac) -> Seq<char> {
    let sign = if f.n < 0 {
        "-"@
    } else {
        Seq::<char>::empty()
    };
    let m = abs(f.n) as nat;
    let d = f.d as nat;
    let whole = dec_digits(m / d);
    let fract = if m % d == 0 {
        Seq::<char>::empty()
    } else {
        "."@ + pad6((m % d) * 1000000 / d)
    };
    sign + whole + fract
}

/// Quotient and scaled remainder agree across equal fractions.
proof fn lemma_div_mod_scale(m: int, d: int, m2: int, d2: int)
    requires
        m >= 0,
        m2 >= 0,
        d > 0,
        d2 > 0,
        m * d2 == m2 * d,
    ensures
        m / d == m2 / d2,
        (m % d) * d2 == (m2 % d2) * d,
{
    lemma_fundamental_div_mod(m, d);
    lemma_fundamental_div_mod(m2, d2);
    vstd::arithmetic::div_mod::lemma_mod_bound(m, d);
    vstd::arithmetic::div_mod::lemma_mod_bound(m2, d2);
    assert(m / d == m2 / d2 && (m % d) * d2 == (m2 % d2) * d) by (nonlinear_arith)
        requires
            m == d * (m / d) + m % d,
            m2 == d2 * (m2 / d2) + m2 % d2,
            0 <= m % d < d,
            0 <= m2 % d2 < d2,
            m * d2 == m2 * d,
            d > 0,
            d2 > 0,
            m >= 0,
            m2 >= 0,
    ;
}

/// The rendered text depends only on the rational value, not on the
/// representation: equal well-formed fractions print identically.
pub proof fn lemma_rat_text_eq(a: Frac, b: Frac)
    requires
        frac_wf(a),
        frac_wf(b),
        crate::rat::frac_eq(a, b),
    ensures
        rat_text(a) == rat_text(b),
{
    crate::rat::lemma_frac_eq_sign(a, b);
    let ma = abs(a.n) as int;
    let mb = abs(b.n) as int;
    assert(ma * b.d == mb * a.d) by (nonlinear_arith)
        requires
            a.n * b.d == b.n * a.d,
            a.d > 0,
            b.d > 0,
            ma == abs(a.n),
            mb == abs(b.n),
    ;
    lemma_div_mod_scale(ma, a.d, mb, b.d);
    let ra = ma % a.d;
    let rb = mb % b.d;
    assert((ra == 0) == (rb == 0)) by (nonlinear_arith)
        requires
            ra * b.d == rb * a.d,
            a.d > 0,
            b.d > 0,
            ra >= 0,
            rb >= 0,
    ;
    if ra != 0 {
        assert((ra * 1000000) * b.d == (rb * 1000000) * a.d) by (nonlinear_arith)
            requires
                ra * b.d == rb * a.d,
        ;
        vstd::arithmetic::div_mod::lemma_mod_bound(ma, a.d);
        vstd::arithmetic::div_mod::lemma_mod_bound(mb, b.d);
        lemma_div_mod_scale(ra * 1000000, a.d, rb * 1000000, b.d);
    }
}

/// Appends one decimal digit.
fn push_digit(s: &mut String, d: u64)
    requires
        d < 10,
    ensures
        final(s)@ == old(s)@ + digit_str(d as int),
{
    if d == 0 {
        s.append("0");
    } else if d == 1 {
        s.append("1");
    } else if d == 2 {
        s.append("2");
    } else if d == 3 {
        s.append("3");
    } else if d == 4 {
        s.append("4");
    } else if d == 5 {
        s.append("5");
    } else if d == 6 {
        s.append("6");
    } else if d == 7 {
        s.append("7");
    } else if d == 8 {
        s.append("8");
    } else {
        s.append("9");
    }
}

/// Appends the decimal digits of `n`.
pub fn append_u64(s: &mut String, n: u64)
    ensures
        final(s)@ == old(s)@ + dec_digits(n as nat),
    decreases n,
{
    if n < 10 {
        push_digit(s, n);
    } else {
        append_u64(s, n / 10);
        push_digit(s, n % 10);
        proof {
            assert(final(s)@ =~= old(s)@ + dec_digits(n as nat));
        }
    }
}

/// Appends the decimal digits of `n` (a `usize` count).
pub fn append_usize(s: &mut String, n: usize)
    ensures
        final(s)@ == old(s)@ + dec_digits(n as nat),
{
    append_u64(s, n as u64);
}

/// Appends `n` zero-padded on the left to six digits.
fn append_pad6(s: &mut String, n: u64)
    requires
        n < 1000000,
    ensures
        final(s)@ == old(s)@ + pad6(n as nat),
{
    if n < 10 {
        s.append("00000");
    } else if n < 100 {
        s.append("0000");
    } else if n < 1000 {
        s.append("000");
    } else if n < 10000 {
        s.append("00");
    } else if n < 100000 {
        s.append("0");
    }
    append_u64(s, n);
    proof {
        assert(final(s)@ =~= old(s)@ + pad6(n as nat));
    }
}

/// Appends the rendered text of the rational `r`.
pub fn append_rat(s: &mut String, r: &Rat)
    requires
        r.inv(),
    ensures
        final(s)@ == old(s)@ + rat_text(r@),
{
    let num = r.numerator();
    let den = r.denominator();
    let m: u64 = if num < 0 {
        s.append("-");
        (-num) as u64
    } else {
        num as u64
    };
    let d = den as u64;
    let q = m / d;
    let rem = m % d;
    append_u64(s, q);
    if rem != 0 {
        s.append(".");
        let scaled: u128 = (rem as u128) * 1000000;
        let fr128 = scaled / (d as u128);
        proof {
            lemma_fundamental_div_mod(scaled as int, d as int);
            assert(fr128 < 1000000) by (nonlinear_arith)
                requires
                    scaled as int == d as int * (fr128 as int) + scaled as int % (d as int),
                    scaled as int % (d as int) >= 0,
                    scaled as int == (rem as int) * 1000000,
                    (rem as int) < d as int,
                    d as int >= 1,
            ;
        }
        let fr = fr128 as u64;
        append_pad6(s, fr);
    }
    proof {
        assert(final(s)@ =~= old(s)@ + rat_text(r@));
    }
}

} // verus!
