//! Exact rational arithmetic and decimal rendering.

use gen_front::numfmt::{append_rat, append_u64};
use gen_front::rat::Rat;

fn rat(n: i64, d: i64) -> Rat {
    Rat::new(n, d)
}

fn rendered(r: &Rat) -> String {
    let mut s = String::new();
    append_rat(&mut s, r);
    s
}

#[test]
fn add_reduces_to_canonical_form() {
    let a = rat(1, 3);
    let b = rat(1, 6);
    let c = a.add(b).unwrap();
    assert_eq!(c.numerator(), 1);
    assert_eq!(c.denominator(), 2);
}

#[test]
fn sub_crosses_zero() {
    let a = rat(1, 4);
    let b = rat(3, 4);
    let c = a.sub(b).unwrap();
    assert_eq!(c.numerator(), -1);
    assert_eq!(c.denominator(), 2);
}

#[test]
fn mul_and_div_are_inverse() {
    let a = rat(7, 5);
    let b = rat(3, 2);
    let p = a.mul(b).unwrap();
    assert_eq!(p.numerator(), 21);
    assert_eq!(p.denominator(), 10);
    let q = p.div(b).unwrap();
    assert_eq!(q.numerator(), 7);
    assert_eq!(q.denominator(), 5);
}

#[test]
fn div_by_zero_is_none() {
    let a = rat(1, 2);
    let z = Rat::from_int(0);
    assert!(a.div(z).is_none());
}

#[test]
fn neg_and_signs() {
    let a = rat(3, 4);
    let n = a.neg();
    assert_eq!(n.numerator(), -3);
    assert_eq!(n.denominator(), 4);
    assert!(a.is_pos());
    assert!(!n.is_pos());
    assert!(Rat::from_int(0).is_zero());
    assert!(rat(1, 7).lt(&rat(1, 6)));
    assert!(!rat(1, 6).lt(&rat(1, 7)));
}

#[test]
fn product_outside_range_is_none() {
    let big = Rat::new(i64::MAX, 1);
    assert!(big.mul(big).is_none());
    assert!(big.add(Rat::new(1, i64::MAX)).is_none());
}

#[test]
fn digits_render() {
    let mut s = String::new();
    append_u64(&mut s, 0);
    s.push(' ');
    append_u64(&mut s, 907);
    assert_eq!(s, "0 907");
}

#[test]
fn rational_rendering() {
    assert_eq!(rendered(&Rat::from_int(7)), "7");
    assert_eq!(rendered(&rat(1, 2)), "0.500000");
    assert_eq!(rendered(&rat(-3, 2)), "-1.500000");
    assert_eq!(rendered(&rat(1, 3)), "0.333333");
    assert_eq!(rendered(&rat(525, 2)), "262.500000");
    assert_eq!(rendered(&rat(-7, 1)), "-7");
    assert_eq!(rendered(&rat(10, 4)), "2.500000");
}

#[test]
fn rendering_depends_only_on_value() {
    // 4/2 and 2/1 denote the same rational and must print identically.
    assert_eq!(rendered(&rat(4, 2)), "2");
    assert_eq!(rendered(&rat(2, 1)), "2");
    assert_eq!(rendered(&rat(3, 6)), rendered(&rat(1, 2)));
}
