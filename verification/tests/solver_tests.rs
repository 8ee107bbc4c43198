//! The layout solver: squareness, the scale relation, and degeneracy.

use gen_front::cover::{Config, Sizes};
use gen_front::font::{Error, FontAnalysis};
use gen_front::rat::Rat;

fn rat(n: i64, d: i64) -> Rat {
    Rat::new(n, d)
}

fn grid(rows: usize, cols: usize) -> Vec<Vec<char>> {
    vec![vec!['A'; cols]; rows]
}

fn config(rows: usize, cols: usize) -> Config {
    Config {
        led_size: rat(5, 1),
        led_spacing: rat(17, 1),
        hole_diameter: rat(33, 10),
        margin: rat(20, 1),
        grid: grid(rows, cols),
    }
}

fn font(y_max: i16, avg_num: i64, avg_den: i64) -> FontAnalysis {
    FontAnalysis {
        descender: -400,
        ascender: 1600,
        y_max,
        glyph_width_avg: rat(avg_num, avg_den),
        glyphs: Vec::new(),
    }
}

fn values_equal(a: &Rat, b: &Rat) -> bool {
    (a.numerator() as i128) * (b.denominator() as i128) == (b.numerator() as i128) * (a.denominator()
        as i128)
}

#[test]
fn square_for_golden_ratio_like_aspect() {
    // W = 11, H = 10, d = 17, k = 1618/1000.
    let f = font(1618, 1000, 1);
    let cfg = config(10, 11);
    let sizes = Sizes::compute(&f, &cfg).unwrap();
    assert!(values_equal(&sizes.width, &sizes.height));
}

#[test]
fn exact_solution_for_aspect_two() {
    // k = 2, W = 11, H = 10, d = 17: l = 187/29, and the document is
    // 5117/29 + 40 = 6277/29 on both sides; scale = 187/29000.
    let f = font(2000, 1000, 1);
    let cfg = config(10, 11);
    let sizes = Sizes::compute(&f, &cfg).unwrap();
    assert_eq!(sizes.width.numerator(), 6277);
    assert_eq!(sizes.width.denominator(), 29);
    assert_eq!(sizes.height.numerator(), 6277);
    assert_eq!(sizes.height.denominator(), 29);
    assert_eq!(sizes.scale.numerator(), 187);
    assert_eq!(sizes.scale.denominator(), 29000);
}

#[test]
fn scale_times_ymax_is_letter_height() {
    // With k = 2: l = 187/29, letter height l*k = 374/29, and
    // scale * y_max = (187/29000) * 2000 = 374/29 exactly.
    let f = font(2000, 1000, 1);
    let cfg = config(10, 11);
    let sizes = Sizes::compute(&f, &cfg).unwrap();
    let y_max = Rat::from_int(2000);
    let height = sizes.scale.mul(y_max).unwrap();
    assert_eq!(height.numerator(), 374);
    assert_eq!(height.denominator(), 29);
}

#[test]
fn aspect_one_denominator_vanishes() {
    // k = 1 with H = 10, W = 11 makes H*k - (H-1)/k - 1 == 0.
    let f = font(1000, 1000, 1);
    let cfg = config(10, 11);
    assert_eq!(Sizes::compute(&f, &cfg).err(), Some(Error::DegenerateLayout));
}

#[test]
fn nonpositive_aspect_is_degenerate() {
    let f = font(-100, 1000, 1);
    let cfg = config(10, 11);
    assert_eq!(Sizes::compute(&f, &cfg).err(), Some(Error::DegenerateLayout));
}

#[test]
fn zero_average_width_is_degenerate() {
    let f = font(1000, 0, 1);
    let cfg = config(10, 11);
    assert_eq!(Sizes::compute(&f, &cfg).err(), Some(Error::DegenerateLayout));
}

#[test]
fn tiny_grid_is_degenerate() {
    let f = font(1618, 1000, 1);
    assert_eq!(Sizes::compute(&f, &config(1, 11)).err(), Some(Error::DegenerateLayout));
    assert_eq!(Sizes::compute(&f, &config(10, 1)).err(), Some(Error::DegenerateLayout));
}

#[test]
fn negative_letter_width_is_degenerate() {
    // An aspect ratio just under one (k = 19/20) makes the closed-form
    // letter width negative for this grid, which the solver must reject.
    let f = font(1900, 2000, 1);
    let cfg = config(10, 11);
    assert_eq!(Sizes::compute(&f, &cfg).err(), Some(Error::DegenerateLayout));
}
