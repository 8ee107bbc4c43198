//! Layout solver and shape composition for the panel cover.
//!
//! The solver takes the LED pitch, the grid dimensions and the letter
//! aspect ratio `k = y_max / glyph_width_avg` and finds the letter width
//! `l` that makes the rendered grid square:
//!
//! ```text
//! l = d * (W - 1 - (H-1)/k) / (H*k - (H-1)/k - 1)
//! ```
//!
//! with horizontal spacing `d - l`, vertical spacing `(d - l) / k`, and a
//! scale factor `l * k / y_max` from font units to document units.  All of
//! it is exact rational arithmetic, so the squareness of the grid is an
//! equality, not an approximation.

use vstd::prelude::*;

verus! {

use crate::font::{cmds_inv, copy_cmds, Error, FontAnalysis, PathCmd, FLOWER};
broadcast use crate::rat::group_frac_wf;

use crate::rat::{
    Frac,
    Rat,
    frac_add,
    frac_div,
    frac_eq,
    frac_fits,
    frac_int,
    frac_mul,
    frac_pos,
    frac_sub,
    frac_wf,
    lemma_add_cong,
    lemma_add_fits,
    lemma_den_prod_le,
    lemma_div_cong,
    lemma_div_den_le,
    lemma_div_fits,
    lemma_eq_mag,
    lemma_mul_fits,
    lemma_sub_fits,
    lemma_frac_eq_sign,
    lemma_frac_eq_sym,
    lemma_frac_eq_trans,
    lemma_mul_bound2,
    lemma_mul_cong,
    lemma_mul_pos,
    lemma_sub_cong,
};

/// The representation of a configured length stays within these bounds, so
/// the solver's intermediate products provably fit.
pub open spec fn rat_small(r: Rat) -> bool {
    -0x100000 <= r@.n <= 0x100000 && 0 < r@.d <= 0x100000
}

/// External configuration: physical grid parameters and the character
/// matrix.  The grid content is supplied by the caller, not compiled in.
#[derive(Debug)]
pub struct Config {
    /// Side length of one LED aperture.
    pub led_size: Rat,
    /// Center-to-center spacing of grid cells (the LED pitch `d`).
    pub led_spacing: Rat,
    /// Diameter of the corner mounting holes.
    pub hole_diameter: Rat,
    /// Margin around the letter grid on every side.
    pub margin: Rat,
    /// The character matrix, row-major; all rows have the same length.
    pub grid: Vec<Vec<char>>,
}

impl Config {
    /// Number of grid rows `H`.
    pub open spec fn rows(&self) -> int {
        self.grid@.len() as int
    }

    /// Number of grid columns `W`.
    pub open spec fn cols(&self) -> int {
        if self.grid@.len() == 0 {
            0
        } else {
            self.grid@[0]@.len() as int
        }
    }

    /// Well-formedness: rational lengths within the solver's bounds, and a
    /// rectangular grid of at most 256 x 256 cells.
    pub open spec fn wf(&self) -> bool {
        &&& self.led_size.inv() && rat_small(self.led_size)
        &&& self.led_spacing.inv() && rat_small(self.led_spacing)
        &&& self.hole_diameter.inv() && rat_small(self.hole_diameter)
        &&& self.margin.inv() && rat_small(self.margin)
        &&& self.grid@.len() <= 256
        &&& forall|i: int|
            0 <= i < self.grid@.len() ==> (#[trigger] self.grid@[i])@.len() == self.cols()
        &&& self.cols() <= 256
    }

    /// Checks well-formedness at run time, for callers that assemble a
    /// configuration from external input.
    pub fn check(&self) -> (r: bool)
        ensures
            r == self.wf(),
    {
        let ls = rat_small_check(&self.led_size) && self.led_size.numerator() > i64::MIN;
        let lp = rat_small_check(&self.led_spacing) && self.led_spacing.numerator() > i64::MIN;
        let hd = rat_small_check(&self.hole_diameter) && self.hole_diameter.numerator() > i64::MIN;
        let mg = rat_small_check(&self.margin) && self.margin.numerator() > i64::MIN;
        if !(ls && lp && hd && mg) {
            return false;
        }
        let h = self.grid.len();
        if h > 256 {
            return false;
        }
        let w = if h == 0 {
            0
        } else {
            self.grid[0].len()
        };
        if w > 256 {
            return false;
        }
        let mut i: usize = 0;
        while i < h
            invariant
                h == self.grid@.len(),
                i <= h,
                w as int == self.cols(),
                forall|j: int| 0 <= j < i ==> (#[trigger] self.grid@[j])@.len() == self.cols(),
            decreases h - i,
        {
            if self.grid[i].len() != w {
                return false;
            }
            i = i + 1;
        }
        true
    }
}

/// Checks the representation bounds of a configured length.
fn rat_small_check(r: &Rat) -> (b: bool)
    ensures
        b == (rat_small(*r) && frac_wf(r@)),
{
    let n = r.numerator();
    let d = r.denominator();
    -0x100000 <= n && n <= 0x100000 && 0 < d && d <= 0x100000
}

/// The aspect ratio `k = y_max / glyph_width_avg`.
pub open spec fn k_spec(y: int, avg: Frac) -> Frac {
    frac_div(frac_int(y), avg)
}

/// `(H - 1) / k`.
pub open spec fn hm1k_spec(y: int, avg: Frac, hh: int) -> Frac {
    frac_div(frac_int(hh - 1), k_spec(y, avg))
}

/// The solver denominator `H*k - (H-1)/k - 1`.
pub open spec fn denom_spec(y: int, avg: Frac, hh: int) -> Frac {
    frac_sub(frac_sub(frac_mul(frac_int(hh), k_spec(y, avg)), hm1k_spec(y, avg, hh)), frac_int(1))
}

/// The solver numerator `d * (W - 1 - (H-1)/k)`.
pub open spec fn numer_spec(y: int, avg: Frac, d: Frac, hh: int, ww: int) -> Frac {
    frac_mul(d, frac_sub(frac_int(ww - 1), hm1k_spec(y, avg, hh)))
}

/// The letter width `l`.
pub open spec fn l_spec(y: int, avg: Frac, d: Frac, hh: int, ww: int) -> Frac {
    frac_div(numer_spec(y, avg, d, hh, ww), denom_spec(y, avg, hh))
}

/// The horizontal spacing `d - l`.
pub open spec fn hspace_spec(y: int, avg: Frac, d: Frac, hh: int, ww: int) -> Frac {
    frac_sub(d, l_spec(y, avg, d, hh, ww))
}

/// The vertical spacing `(d - l) / k`.
pub open spec fn vspace_spec(y: int, avg: Frac, d: Frac, hh: int, ww: int) -> Frac {
    frac_div(hspace_spec(y, avg, d, hh, ww), k_spec(y, avg))
}

/// Width of the letter square: `W*l + (W-1)*(d-l)`.
pub open spec fn sq_width_spec(y: int, avg: Frac, d: Frac, hh: int, ww: int) -> Frac {
    frac_add(
        frac_mul(frac_int(ww), l_spec(y, avg, d, hh, ww)),
        frac_mul(frac_int(ww - 1), hspace_spec(y, avg, d, hh, ww)),
    )
}

/// Height of the letter square: `H*(l*k) + (H-1)*(d-l)/k`.
pub open spec fn sq_height_spec(y: int, avg: Frac, d: Frac, hh: int, ww: int) -> Frac {
    frac_add(
        frac_mul(frac_int(hh), frac_mul(l_spec(y, avg, d, hh, ww), k_spec(y, avg))),
        frac_mul(frac_int(hh - 1), vspace_spec(y, avg, d, hh, ww)),
    )
}

/// Document width: the letter square plus a margin on both sides.
pub open spec fn width_spec(y: int, avg: Frac, d: Frac, m: Frac, hh: int, ww: int) -> Frac {
    frac_add(sq_width_spec(y, avg, d, hh, ww), frac_mul(frac_int(2), m))
}

/// Document height: the letter square plus a margin on both sides.
pub open spec fn height_spec(y: int, avg: Frac, d: Frac, m: Frac, hh: int, ww: int) -> Frac {
    frac_add(sq_height_spec(y, avg, d, hh, ww), frac_mul(frac_int(2), m))
}

/// The scale from font design units to document units: `l * k / y_max`.
pub open spec fn scale_spec(y: int, avg: Frac, d: Frac, hh: int, ww: int) -> Frac {
    frac_div(frac_mul(l_spec(y, avg, d, hh, ww), k_spec(y, avg)), frac_int(y))
}

/// The solver's preconditions fail outright: zero average width, a
/// non-positive aspect ratio, too small a grid, or a zero denominator.
pub open spec fn solver_ill_posed(y: int, avg: Frac, hh: int, ww: int) -> bool {
    ||| avg.n == 0
    ||| !frac_pos(k_spec(y, avg))
    ||| hh <= 1
    ||| ww <= 1
    ||| denom_spec(y, avg, hh).n == 0
}

/// The solved layout violates the positivity invariant: letter width,
/// horizontal spacing and vertical spacing must all be strictly positive.
pub open spec fn layout_nonpositive(y: int, avg: Frac, d: Frac, hh: int, ww: int) -> bool {
    ||| !frac_pos(l_spec(y, avg, d, hh, ww))
    ||| !frac_pos(hspace_spec(y, avg, d, hh, ww))
    ||| !frac_pos(vspace_spec(y, avg, d, hh, ww))
}

/// Every value the solver must represent fits the executable range.  On a
/// well-posed layout with positive sizes that satisfies this bound,
/// `Sizes::compute` owes success: it cannot report an overflow that did
/// not happen.
pub open spec fn solver_fits(y: int, avg: Frac, d: Frac, m: Frac, hh: int, ww: int) -> bool {
    let k = k_spec(y, avg);
    let l = l_spec(y, avg, d, hh, ww);
    let hs = hspace_spec(y, avg, d, hh, ww);
    let vs = vspace_spec(y, avg, d, hh, ww);
    let lk = frac_mul(l, k);
    &&& frac_fits(l)
    &&& frac_fits(hs)
    &&& frac_fits(vs)
    &&& frac_fits(frac_mul(frac_int(ww), l))
    &&& frac_fits(frac_mul(frac_int(ww - 1), hs))
    &&& frac_fits(sq_width_spec(y, avg, d, hh, ww))
    &&& frac_fits(lk)
    &&& frac_fits(frac_mul(frac_int(hh), lk))
    &&& frac_fits(frac_mul(frac_int(hh - 1), vs))
    &&& frac_fits(sq_height_spec(y, avg, d, hh, ww))
    &&& frac_fits(frac_mul(frac_int(2), m))
    &&& frac_fits(width_spec(y, avg, d, m, hh, ww))
    &&& frac_fits(height_spec(y, avg, d, m, hh, ww))
    &&& frac_fits(scale_spec(y, avg, d, hh, ww))
}

/// The solved document dimensions and the font-to-document scale.
#[derive(Clone, Copy, Debug)]
pub struct Sizes {
    /// Document width, margins included.
    pub width: Rat,
    /// Document height, margins included.
    pub height: Rat,
    /// Scale from font design units to document units.
    pub scale: Rat,
}

impl Sizes {
    pub open spec fn inv(&self) -> bool {
        self.width.inv() && self.height.inv() && self.scale.inv()
    }

    /// Solves the layout.  An ill-posed input (non-positive aspect ratio,
    /// too small a grid, or a vanishing denominator) always fails with
    /// `DegenerateLayout`; so does a solution whose letter width or
    /// spacing is not strictly positive.  `ArithmeticOverflow` is reported
    /// only when an intermediate value of a well-posed solution falls
    /// outside the representable range, which can preempt the positivity
    /// checks.
    pub fn compute(font: &FontAnalysis, cfg: &Config) -> (r: Result<Sizes, Error>)
        requires
            font.wf(),
            cfg.wf(),
        ensures
            ({
                let y = font.y_max as int;
                let avg = font.glyph_width_avg@;
                let d = cfg.led_spacing@;
                let m = cfg.margin@;
                let hh = cfg.rows();
                let ww = cfg.cols();
                &&& (solver_ill_posed(y, avg, hh, ww) ==> r == Err::<Sizes, Error>(
                    Error::DegenerateLayout,
                ))
                &&& (r == Err::<Sizes, Error>(Error::DegenerateLayout) ==> solver_ill_posed(
                    y,
                    avg,
                    hh,
                    ww,
                ) || layout_nonpositive(y, avg, d, hh, ww))
                &&& (r == Err::<Sizes, Error>(Error::ArithmeticOverflow) ==> !solver_ill_posed(
                    y,
                    avg,
                    hh,
                    ww,
                ))
                &&& (r is Err ==> r == Err::<Sizes, Error>(Error::DegenerateLayout) || r == Err::<
                    Sizes,
                    Error,
                >(Error::ArithmeticOverflow))
                &&& (r is Ok ==> {
                    let s = r->Ok_0;
                    &&& !solver_ill_posed(y, avg, hh, ww)
                    &&& !layout_nonpositive(y, avg, d, hh, ww)
                    &&& s.inv()
                    &&& frac_eq(s.width@, width_spec(y, avg, d, m, hh, ww))
                    &&& frac_eq(s.height@, height_spec(y, avg, d, m, hh, ww))
                    &&& frac_eq(s.scale@, scale_spec(y, avg, d, hh, ww))
                    &&& frac_eq(s.width@, s.height@)
                    &&& s.width@.d <= width_spec(y, avg, d, m, hh, ww).d
                    &&& s.height@.d <= height_spec(y, avg, d, m, hh, ww).d
                    &&& s.scale@.d <= scale_spec(y, avg, d, hh, ww).d
                })
                &&& (!solver_ill_posed(y, avg, hh, ww) && !layout_nonpositive(y, avg, d, hh, ww)
                    && solver_fits(y, avg, d, m, hh, ww) ==> r is Ok)
            }),
    {
        let ghost y = font.y_max as int;
        let ghost avg_g = font.glyph_width_avg@;
        let ghost d_g = cfg.led_spacing@;
        let ghost m_g = cfg.margin@;
        let avg = font.glyph_width_avg;
        // k = y_max / glyph_width_avg
        if avg.is_zero() {
            return Err(Error::DegenerateLayout);
        }
        let ymax_rat = Rat::from_int(font.y_max as i64);
        proof {
            lemma_mul_bound2(y, avg_g.d, 0x8000, 0x400);
            assert(-0x2000000 <= frac_div(frac_int(y), avg_g).n <= 0x2000000);
            assert(0 < frac_div(frac_int(y), avg_g).d <= 0x8000000);
        }
        let k = ymax_rat.div(avg).unwrap();
        proof {
            assert(frac_eq(k@, k_spec(y, avg_g)));
            assert(-0x2000000 <= k@.n <= 0x2000000 && 0 < k@.d <= 0x8000000);
            assert(frac_div(ymax_rat@, avg@) == k_spec(y, avg_g));
            assert(k@.d <= k_spec(y, avg_g).d);
        }
        if !k.is_pos() {
            proof {
                lemma_frac_eq_sign(k@, k_spec(y, avg_g));
            }
            return Err(Error::DegenerateLayout);
        }
        proof {
            lemma_frac_eq_sign(k@, k_spec(y, avg_g));
            lemma_eq_mag(k@, k_spec(y, avg_g));
        }
        let hh = cfg.grid.len();
        if hh <= 1 {
            return Err(Error::DegenerateLayout);
        }
        let ww = cfg.grid[0].len();
        if ww <= 1 {
            return Err(Error::DegenerateLayout);
        }
        let ghost hh_g = cfg.rows();
        let ghost ww_g = cfg.cols();
        let h_rat = Rat::from_int(hh as i64);
        let hm1_rat = Rat::from_int(hh as i64 - 1);
        let w_rat = Rat::from_int(ww as i64);
        let wm1_rat = Rat::from_int(ww as i64 - 1);
        let one = Rat::from_int(1);
        // H * k
        proof {
            lemma_mul_bound2(h_rat@.n, k@.n, 256, 0x2000000);
            lemma_mul_pos(h_rat@.d, k@.d);
            lemma_mul_bound2(h_rat@.d, k@.d, 1, 0x8000000);
        }
        let hk = h_rat.mul(k).unwrap();
        proof {
            lemma_mul_cong(h_rat@, frac_int(hh_g), k@, k_spec(y, avg_g));
            lemma_frac_eq_trans(
                hk@,
                frac_mul(h_rat@, k@),
                frac_mul(frac_int(hh_g), k_spec(y, avg_g)),
            );
            assert(-0x200000000 <= hk@.n <= 0x200000000 && 0 < hk@.d <= 0x8000000);
            lemma_den_prod_le(h_rat@, frac_int(hh_g), k@, k_spec(y, avg_g));
            assert(hk@.d <= frac_mul(frac_int(hh_g), k_spec(y, avg_g)).d);
        }
        // (H - 1) / k
        proof {
            lemma_mul_bound2(hm1_rat@.n, k@.d, 256, 0x8000000);
            assert(-0x800000000 <= frac_div(hm1_rat@, k@).n <= 0x800000000);
            assert(0 < frac_div(hm1_rat@, k@).d <= 0x2000000);
        }
        let hm1k = hm1_rat.div(k).unwrap();
        proof {
            lemma_div_cong(hm1_rat@, frac_int(hh_g - 1), k@, k_spec(y, avg_g));
            lemma_frac_eq_trans(
                hm1k@,
                frac_div(hm1_rat@, k@),
                frac_div(frac_int(hh_g - 1), k_spec(y, avg_g)),
            );
            assert(-0x800000000 <= hm1k@.n <= 0x800000000 && 0 < hm1k@.d <= 0x2000000);
            lemma_div_den_le(hm1_rat@, frac_int(hh_g - 1), k@, k_spec(y, avg_g));
            assert(hm1k@.d <= hm1k_spec(y, avg_g, hh_g).d);
        }
        // H*k - (H-1)/k
        proof {
            lemma_mul_bound2(hk@.n, hm1k@.d, 0x200000000, 0x2000000);
            lemma_mul_bound2(hm1k@.n, hk@.d, 0x800000000, 0x8000000);
            lemma_mul_pos(hk@.d, hm1k@.d);
            lemma_mul_bound2(hk@.d, hm1k@.d, 0x8000000, 0x2000000);
        }
        let denom_a = hk.sub(hm1k).unwrap();
        proof {
            lemma_sub_cong(
                hk@,
                frac_mul(frac_int(hh_g), k_spec(y, avg_g)),
                hm1k@,
                hm1k_spec(y, avg_g, hh_g),
            );
            lemma_frac_eq_trans(
                denom_a@,
                frac_sub(hk@, hm1k@),
                frac_sub(frac_mul(frac_int(hh_g), k_spec(y, avg_g)), hm1k_spec(y, avg_g, hh_g)),
            );
            assert(-0x4400000000000000 <= denom_a@.n <= 0x4400000000000000 && 0 < denom_a@.d
                <= 0x10000000000000);
            lemma_den_prod_le(
                hk@,
                frac_mul(frac_int(hh_g), k_spec(y, avg_g)),
                hm1k@,
                hm1k_spec(y, avg_g, hh_g),
            );
            assert(denom_a@.d <= frac_sub(
                frac_mul(frac_int(hh_g), k_spec(y, avg_g)),
                hm1k_spec(y, avg_g, hh_g),
            ).d);
        }
        // H*k - (H-1)/k - 1
        proof {
            lemma_mul_bound2(denom_a@.n, one@.d, 0x4400000000000000, 1);
            lemma_mul_bound2(one@.n, denom_a@.d, 1, 0x10000000000000);
            lemma_mul_pos(denom_a@.d, one@.d);
            lemma_mul_bound2(denom_a@.d, one@.d, 0x10000000000000, 1);
        }
        let denom = denom_a.sub(one).unwrap();
        proof {
            lemma_sub_cong(
                denom_a@,
                frac_sub(frac_mul(frac_int(hh_g), k_spec(y, avg_g)), hm1k_spec(y, avg_g, hh_g)),
                one@,
                frac_int(1),
            );
            lemma_frac_eq_trans(
                denom@,
                frac_sub(denom_a@, one@),
                denom_spec(y, avg_g, hh_g),
            );
            lemma_den_prod_le(
                denom_a@,
                frac_sub(
                    frac_mul(frac_int(hh_g), k_spec(y, avg_g)),
                    hm1k_spec(y, avg_g, hh_g),
                ),
                one@,
                frac_int(1),
            );
            assert(denom@.d <= denom_spec(y, avg_g, hh_g).d);
        }
        if denom.is_zero() {
            proof {
                lemma_frac_eq_sign(denom@, denom_spec(y, avg_g, hh_g));
            }
            return Err(Error::DegenerateLayout);
        }
        proof {
            lemma_frac_eq_sign(denom@, denom_spec(y, avg_g, hh_g));
        }
        // W - 1 - (H-1)/k
        proof {
            lemma_mul_bound2(wm1_rat@.n, hm1k@.d, 256, 0x2000000);
            lemma_mul_bound2(hm1k@.n, wm1_rat@.d, 0x800000000, 1);
            lemma_mul_pos(wm1_rat@.d, hm1k@.d);
            lemma_mul_bound2(wm1_rat@.d, hm1k@.d, 1, 0x2000000);
        }
        let inner = wm1_rat.sub(hm1k).unwrap();
        proof {
            lemma_sub_cong(wm1_rat@, frac_int(ww_g - 1), hm1k@, hm1k_spec(y, avg_g, hh_g));
            lemma_frac_eq_trans(
                inner@,
                frac_sub(wm1_rat@, hm1k@),
                frac_sub(frac_int(ww_g - 1), hm1k_spec(y, avg_g, hh_g)),
            );
            assert(-0x1000000000 <= inner@.n <= 0x1000000000 && 0 < inner@.d <= 0x2000000);
            lemma_den_prod_le(wm1_rat@, frac_int(ww_g - 1), hm1k@, hm1k_spec(y, avg_g, hh_g));
            assert(inner@.d <= frac_sub(frac_int(ww_g - 1), hm1k_spec(y, avg_g, hh_g)).d);
        }
        // numerator = d * (W - 1 - (H-1)/k)
        let dpitch = cfg.led_spacing;
        proof {
            lemma_mul_bound2(dpitch@.n, inner@.n, 0x100000, 0x1000000000);
            lemma_mul_pos(dpitch@.d, inner@.d);
            lemma_mul_bound2(dpitch@.d, inner@.d, 0x100000, 0x2000000);
        }
        let numer = dpitch.mul(inner).unwrap();
        proof {
            lemma_mul_cong(
                dpitch@,
                d_g,
                inner@,
                frac_sub(frac_int(ww_g - 1), hm1k_spec(y, avg_g, hh_g)),
            );
            lemma_frac_eq_trans(
                numer@,
                frac_mul(dpitch@, inner@),
                numer_spec(y, avg_g, d_g, hh_g, ww_g),
            );
            lemma_den_prod_le(
                dpitch@,
                d_g,
                inner@,
                frac_sub(frac_int(ww_g - 1), hm1k_spec(y, avg_g, hh_g)),
            );
            assert(numer@.d <= numer_spec(y, avg_g, d_g, hh_g, ww_g).d);
        }
        let ghost ks = k_spec(y, avg_g);
        let ghost ns = numer_spec(y, avg_g, d_g, hh_g, ww_g);
        let ghost dens = denom_spec(y, avg_g, hh_g);
        let ghost ls = l_spec(y, avg_g, d_g, hh_g, ww_g);
        let ghost hss = hspace_spec(y, avg_g, d_g, hh_g, ww_g);
        let ghost vss = vspace_spec(y, avg_g, d_g, hh_g, ww_g);
        let ghost wls = frac_mul(frac_int(ww_g), ls);
        let ghost whs = frac_mul(frac_int(ww_g - 1), hss);
        let ghost sqws = sq_width_spec(y, avg_g, d_g, hh_g, ww_g);
        let ghost lks = frac_mul(ls, ks);
        let ghost hlks = frac_mul(frac_int(hh_g), lks);
        let ghost hvs = frac_mul(frac_int(hh_g - 1), vss);
        let ghost sqhs = sq_height_spec(y, avg_g, d_g, hh_g, ww_g);
        let ghost m2s = frac_mul(frac_int(2), m_g);
        // l = numerator / denominator
        let l = match numer.div(denom) {
            Some(v) => v,
            None => {
                proof {
                    if solver_fits(y, avg_g, d_g, m_g, hh_g, ww_g) {
                        lemma_eq_mag(denom@, dens);
                        lemma_div_fits(numer@, ns, denom@, dens);
                        assert(false);
                    }
                }
                return Err(Error::ArithmeticOverflow);
            },
        };
        proof {
            lemma_div_cong(numer@, ns, denom@, dens);
            lemma_frac_eq_trans(l@, frac_div(numer@, denom@), ls);
            lemma_eq_mag(denom@, dens);
            lemma_div_den_le(numer@, ns, denom@, dens);
            assert(l@.d <= ls.d);
        }
        if !l.is_pos() {
            proof {
                lemma_frac_eq_sign(l@, ls);
            }
            return Err(Error::DegenerateLayout);
        }
        proof {
            lemma_frac_eq_sign(l@, ls);
        }
        // hspace = d - l
        let hspace = match dpitch.sub(l) {
            Some(v) => v,
            None => {
                proof {
                    if solver_fits(y, avg_g, d_g, m_g, hh_g, ww_g) {
                        lemma_sub_fits(dpitch@, d_g, l@, ls);
                        assert(false);
                    }
                }
                return Err(Error::ArithmeticOverflow);
            },
        };
        proof {
            lemma_sub_cong(dpitch@, d_g, l@, ls);
            lemma_frac_eq_trans(hspace@, frac_sub(dpitch@, l@), hss);
            lemma_den_prod_le(dpitch@, d_g, l@, ls);
            assert(hspace@.d <= hss.d);
        }
        if !hspace.is_pos() {
            proof {
                lemma_frac_eq_sign(hspace@, hss);
            }
            return Err(Error::DegenerateLayout);
        }
        proof {
            lemma_frac_eq_sign(hspace@, hss);
        }
        // vspace = hspace / k
        let vspace = match hspace.div(k) {
            Some(v) => v,
            None => {
                proof {
                    if solver_fits(y, avg_g, d_g, m_g, hh_g, ww_g) {
                        lemma_div_fits(hspace@, hss, k@, ks);
                        assert(false);
                    }
                }
                return Err(Error::ArithmeticOverflow);
            },
        };
        proof {
            lemma_div_cong(hspace@, hss, k@, ks);
            lemma_frac_eq_trans(vspace@, frac_div(hspace@, k@), vss);
            lemma_div_den_le(hspace@, hss, k@, ks);
            assert(vspace@.d <= vss.d);
        }
        if !vspace.is_pos() {
            proof {
                lemma_frac_eq_sign(vspace@, vss);
            }
            return Err(Error::DegenerateLayout);
        }
        proof {
            lemma_frac_eq_sign(vspace@, vss);
        }
        // square width = W*l + (W-1)*hspace
        let wl = match w_rat.mul(l) {
            Some(v) => v,
            None => {
                proof {
                    if solver_fits(y, avg_g, d_g, m_g, hh_g, ww_g) {
                        lemma_mul_fits(w_rat@, frac_int(ww_g), l@, ls);
                        assert(false);
                    }
                }
                return Err(Error::ArithmeticOverflow);
            },
        };
        proof {
            lemma_mul_cong(w_rat@, frac_int(ww_g), l@, ls);
            lemma_frac_eq_trans(wl@, frac_mul(w_rat@, l@), wls);
            lemma_den_prod_le(w_rat@, frac_int(ww_g), l@, ls);
            assert(wl@.d <= wls.d);
        }
        let wm1h = match wm1_rat.mul(hspace) {
            Some(v) => v,
            None => {
                proof {
                    if solver_fits(y, avg_g, d_g, m_g, hh_g, ww_g) {
                        lemma_mul_fits(wm1_rat@, frac_int(ww_g - 1), hspace@, hss);
                        assert(false);
                    }
                }
                return Err(Error::ArithmeticOverflow);
            },
        };
        proof {
            lemma_mul_cong(wm1_rat@, frac_int(ww_g - 1), hspace@, hss);
            lemma_frac_eq_trans(wm1h@, frac_mul(wm1_rat@, hspace@), whs);
            lemma_den_prod_le(wm1_rat@, frac_int(ww_g - 1), hspace@, hss);
            assert(wm1h@.d <= whs.d);
        }
        let sq_width = match wl.add(wm1h) {
            Some(v) => v,
            None => {
                proof {
                    if solver_fits(y, avg_g, d_g, m_g, hh_g, ww_g) {
                        lemma_add_fits(wl@, wls, wm1h@, whs);
                        assert(false);
                    }
                }
                return Err(Error::ArithmeticOverflow);
            },
        };
        proof {
            lemma_add_cong(wl@, wls, wm1h@, whs);
            lemma_frac_eq_trans(sq_width@, frac_add(wl@, wm1h@), sqws);
            lemma_den_prod_le(wl@, wls, wm1h@, whs);
            assert(sq_width@.d <= sqws.d);
        }
        // square height = H*(l*k) + (H-1)*vspace
        let lk = match l.mul(k) {
            Some(v) => v,
            None => {
                proof {
                    if solver_fits(y, avg_g, d_g, m_g, hh_g, ww_g) {
                        lemma_mul_fits(l@, ls, k@, ks);
                        assert(false);
                    }
                }
                return Err(Error::ArithmeticOverflow);
            },
        };
        proof {
            lemma_mul_cong(l@, ls, k@, ks);
            lemma_frac_eq_trans(lk@, frac_mul(l@, k@), lks);
            lemma_den_prod_le(l@, ls, k@, ks);
            assert(lk@.d <= lks.d);
        }
        let hlk = match h_rat.mul(lk) {
            Some(v) => v,
            None => {
                proof {
                    if solver_fits(y, avg_g, d_g, m_g, hh_g, ww_g) {
                        lemma_mul_fits(h_rat@, frac_int(hh_g), lk@, lks);
                        assert(false);
                    }
                }
                return Err(Error::ArithmeticOverflow);
            },
        };
        proof {
            lemma_mul_cong(h_rat@, frac_int(hh_g), lk@, lks);
            lemma_frac_eq_trans(hlk@, frac_mul(h_rat@, lk@), hlks);
            lemma_den_prod_le(h_rat@, frac_int(hh_g), lk@, lks);
            assert(hlk@.d <= hlks.d);
        }
        let hm1v = match hm1_rat.mul(vspace) {
            Some(v) => v,
            None => {
                proof {
                    if solver_fits(y, avg_g, d_g, m_g, hh_g, ww_g) {
                        lemma_mul_fits(hm1_rat@, frac_int(hh_g - 1), vspace@, vss);
                        assert(false);
                    }
                }
                return Err(Error::ArithmeticOverflow);
            },
        };
        proof {
            lemma_mul_cong(hm1_rat@, frac_int(hh_g - 1), vspace@, vss);
            lemma_frac_eq_trans(hm1v@, frac_mul(hm1_rat@, vspace@), hvs);
            lemma_den_prod_le(hm1_rat@, frac_int(hh_g - 1), vspace@, vss);
            assert(hm1v@.d <= hvs.d);
        }
        let sq_height = match hlk.add(hm1v) {
            Some(v) => v,
            None => {
                proof {
                    if solver_fits(y, avg_g, d_g, m_g, hh_g, ww_g) {
                        lemma_add_fits(hlk@, hlks, hm1v@, hvs);
                        assert(false);
                    }
                }
                return Err(Error::ArithmeticOverflow);
            },
        };
        proof {
            lemma_add_cong(hlk@, hlks, hm1v@, hvs);
            lemma_frac_eq_trans(sq_height@, frac_add(hlk@, hm1v@), sqhs);
            lemma_den_prod_le(hlk@, hlks, hm1v@, hvs);
            assert(sq_height@.d <= sqhs.d);
        }
        // document size = square + 2 * margin
        let two = Rat::from_int(2);
        let margin2 = match two.mul(cfg.margin) {
            Some(v) => v,
            None => {
                proof {
                    if solver_fits(y, avg_g, d_g, m_g, hh_g, ww_g) {
                        assert(frac_mul(two@, cfg.margin@) == m2s);
                        assert(false);
                    }
                }
                return Err(Error::ArithmeticOverflow);
            },
        };
        proof {
            lemma_mul_cong(two@, frac_int(2), cfg.margin@, m_g);
            lemma_frac_eq_trans(margin2@, frac_mul(two@, cfg.margin@), m2s);
            lemma_den_prod_le(two@, frac_int(2), cfg.margin@, m_g);
            assert(margin2@.d <= m2s.d);
        }
        let width = match sq_width.add(margin2) {
            Some(v) => v,
            None => {
                proof {
                    if solver_fits(y, avg_g, d_g, m_g, hh_g, ww_g) {
                        lemma_add_fits(sq_width@, sqws, margin2@, m2s);
                        assert(false);
                    }
                }
                return Err(Error::ArithmeticOverflow);
            },
        };
        let height = match sq_height.add(margin2) {
            Some(v) => v,
            None => {
                proof {
                    if solver_fits(y, avg_g, d_g, m_g, hh_g, ww_g) {
                        lemma_add_fits(sq_height@, sqhs, margin2@, m2s);
                        assert(false);
                    }
                }
                return Err(Error::ArithmeticOverflow);
            },
        };
        proof {
            lemma_add_cong(sq_width@, sqws, margin2@, m2s);
            lemma_frac_eq_trans(
                width@,
                frac_add(sq_width@, margin2@),
                width_spec(y, avg_g, d_g, m_g, hh_g, ww_g),
            );
            lemma_add_cong(sq_height@, sqhs, margin2@, m2s);
            lemma_frac_eq_trans(
                height@,
                frac_add(sq_height@, margin2@),
                height_spec(y, avg_g, d_g, m_g, hh_g, ww_g),
            );
        }
        // scale = l * k / y_max
        let scale = match lk.div(ymax_rat) {
            Some(v) => v,
            None => {
                proof {
                    if solver_fits(y, avg_g, d_g, m_g, hh_g, ww_g) {
                        lemma_div_fits(lk@, lks, ymax_rat@, frac_int(y));
                        assert(false);
                    }
                }
                return Err(Error::ArithmeticOverflow);
            },
        };
        proof {
            lemma_div_cong(lk@, lks, ymax_rat@, frac_int(y));
            lemma_frac_eq_trans(
                scale@,
                frac_div(lk@, ymax_rat@),
                scale_spec(y, avg_g, d_g, hh_g, ww_g),
            );
        }
        proof {
            lemma_den_prod_le(sq_width@, sqws, margin2@, m2s);
            assert(width@.d <= width_spec(y, avg_g, d_g, m_g, hh_g, ww_g).d);
            lemma_den_prod_le(sq_height@, sqhs, margin2@, m2s);
            assert(height@.d <= height_spec(y, avg_g, d_g, m_g, hh_g, ww_g).d);
            lemma_eq_mag(lk@, lks);
            lemma_div_den_le(lk@, lks, ymax_rat@, frac_int(y));
            assert(scale@.d <= scale_spec(y, avg_g, d_g, hh_g, ww_g).d);
            lemma_document_square(y, avg_g, d_g, m_g, hh_g, ww_g);
            lemma_frac_eq_trans(
                width@,
                width_spec(y, avg_g, d_g, m_g, hh_g, ww_g),
                height_spec(y, avg_g, d_g, m_g, hh_g, ww_g),
            );
            lemma_frac_eq_sym(height@, height_spec(y, avg_g, d_g, m_g, hh_g, ww_g));
            lemma_frac_eq_trans(
                width@,
                height_spec(y, avg_g, d_g, m_g, hh_g, ww_g),
                height@,
            );
        }
        Ok(Sizes { width, height, scale })
    }
}

/// `w*l - (w-1)*l` is `l`.
proof fn lemma_frac_mul_int_sub_one(l: Frac, w: int)
    requires
        frac_wf(l),
    ensures
        frac_eq(frac_sub(frac_mul(frac_int(w), l), frac_mul(frac_int(w - 1), l)), l),
{
    assert(((w * l.n) * (1 * l.d) - ((w - 1) * l.n) * (1 * l.d)) * l.d == l.n * ((1 * l.d) * (1
        * l.d))) by (nonlinear_arith);
}

/// Law: the scale factor converts the font's maximum glyph height `y_max`
/// to exactly the computed letter height `l * k`.
pub proof fn lemma_scale_times_ymax(y: int, avg: Frac, d: Frac, hh: int, ww: int)
    requires
        frac_wf(avg),
        frac_wf(d),
        avg.n != 0,
        y != 0,
        frac_pos(k_spec(y, avg)),
        denom_spec(y, avg, hh).n != 0,
    ensures
        frac_eq(
            frac_mul(scale_spec(y, avg, d, hh, ww), frac_int(y)),
            frac_mul(l_spec(y, avg, d, hh, ww), k_spec(y, avg)),
        ),
{
    crate::rat::lemma_div_wf(frac_int(y), avg);
    crate::rat::lemma_div_wf(frac_int(hh - 1), k_spec(y, avg));
    crate::rat::lemma_frac_div_mul_cancel(
        frac_mul(l_spec(y, avg, d, hh, ww), k_spec(y, avg)),
        frac_int(y),
    );
}

/// Law: with the solved letter width `l`, the rendered grid is exactly
/// square: `W*l + (W-1)*(d-l)` equals `H*(l*k) + (H-1)*((d-l)/k)`.
pub proof fn lemma_grid_square(y: int, avg: Frac, d: Frac, hh: int, ww: int)
    requires
        frac_wf(avg),
        frac_wf(d),
        avg.n != 0,
        frac_pos(k_spec(y, avg)),
        denom_spec(y, avg, hh).n != 0,
    ensures
        frac_eq(sq_width_spec(y, avg, d, hh, ww), sq_height_spec(y, avg, d, hh, ww)),
{
    let kk = k_spec(y, avg);
    let ki = Frac { n: kk.d, d: kk.n };
    let hm1k = hm1k_spec(y, avg, hh);
    let nn = numer_spec(y, avg, d, hh, ww);
    let dd0 = denom_spec(y, avg, hh);
    let hp = frac_int(hh);
    let h1 = frac_int(hh - 1);
    let wp = frac_int(ww);
    let w1 = frac_int(ww - 1);
    let da = frac_sub(frac_mul(hp, kk), hm1k);
    let l = l_spec(y, avg, d, hh, ww);
    let s = frac_sub(d, l);
    let one = frac_int(1);
    crate::rat::lemma_div_wf(frac_int(y), avg);
    assert(frac_wf(kk) && frac_wf(ki));
    crate::rat::lemma_div_wf(h1, kk);
    crate::rat::lemma_div_wf(nn, dd0);
    assert(frac_wf(l));
    assert(hm1k == frac_mul(h1, ki));
    assert(frac_div(s, kk) == frac_mul(s, ki));
    // Width side: W*l + (W-1)*(d-l) ~ l + (W-1)*d.
    let a_side = sq_width_spec(y, avg, d, hh, ww);
    let wl = frac_mul(wp, l);
    let w1d = frac_mul(w1, d);
    let w1l = frac_mul(w1, l);
    let a2 = frac_add(wl, frac_sub(w1d, w1l));
    let a3 = frac_add(frac_sub(wl, w1l), w1d);
    let ra = frac_add(l, w1d);
    crate::rat::lemma_frac_dist_sub(w1, d, l);
    lemma_add_cong(wl, wl, frac_mul(w1, s), frac_sub(w1d, w1l));
    crate::rat::lemma_frac_add_sub_shuffle(wl, w1d, w1l);
    lemma_frac_mul_int_sub_one(l, ww);
    lemma_add_cong(frac_sub(wl, w1l), l, w1d, w1d);
    lemma_frac_eq_trans(a_side, a2, a3);
    lemma_frac_eq_trans(a_side, a3, ra);
    // Height side: H*(l*k) + (H-1)*((d-l)/k) ~ (d*(W-1)) + l.
    let b_side = sq_height_spec(y, avg, d, hh, ww);
    let hlk = frac_mul(hp, frac_mul(l, kk));
    let h1kid = frac_mul(h1, frac_mul(ki, d));
    let h1kil = frac_mul(h1, frac_mul(ki, l));
    let vv = frac_mul(d, w1);
    assert(b_side == frac_add(hlk, frac_mul(h1, frac_mul(s, ki))));
    // (H-1)*((d-l)*ki) ~ (H-1)*(ki*d) - (H-1)*(ki*l)
    crate::rat::lemma_frac_mul_comm(s, ki);
    crate::rat::lemma_frac_dist_sub(ki, d, l);
    lemma_mul_cong(h1, h1, frac_mul(s, ki), frac_sub(frac_mul(ki, d), frac_mul(ki, l)));
    crate::rat::lemma_frac_dist_sub(h1, frac_mul(ki, d), frac_mul(ki, l));
    lemma_frac_eq_trans(
        frac_mul(h1, frac_mul(s, ki)),
        frac_mul(h1, frac_sub(frac_mul(ki, d), frac_mul(ki, l))),
        frac_sub(h1kid, h1kil),
    );
    let b2 = frac_add(hlk, frac_sub(h1kid, h1kil));
    let b3 = frac_add(frac_sub(hlk, h1kil), h1kid);
    lemma_add_cong(hlk, hlk, frac_mul(h1, frac_mul(s, ki)), frac_sub(h1kid, h1kil));
    crate::rat::lemma_frac_add_sub_shuffle(hlk, h1kid, h1kil);
    // hlk == l*(H*k) and h1kil == l*((H-1)*ki)
    crate::rat::lemma_frac_mul_assoc(hp, l, kk);
    crate::rat::lemma_frac_mul_comm(hp, l);
    crate::rat::lemma_frac_mul_assoc(l, hp, kk);
    assert(hlk == frac_mul(l, frac_mul(hp, kk)));
    crate::rat::lemma_frac_mul_assoc(h1, ki, l);
    crate::rat::lemma_frac_mul_comm(frac_mul(h1, ki), l);
    assert(h1kil == frac_mul(l, frac_mul(h1, ki)));
    // so hlk - h1kil ~ l*da
    crate::rat::lemma_frac_dist_sub(l, frac_mul(hp, kk), frac_mul(h1, ki));
    lemma_frac_eq_sym(
        frac_mul(l, frac_sub(frac_mul(hp, kk), frac_mul(h1, ki))),
        frac_sub(frac_mul(l, frac_mul(hp, kk)), frac_mul(l, frac_mul(h1, ki))),
    );
    assert(da == frac_sub(frac_mul(hp, kk), frac_mul(h1, ki)));
    assert(frac_eq(frac_sub(hlk, h1kil), frac_mul(l, da)));
    // l*da ~ nn + l
    crate::rat::lemma_frac_add_sub_cancel(da, one);
    lemma_frac_eq_sym(frac_add(dd0, one), da);
    lemma_mul_cong(l, l, da, frac_add(dd0, one));
    crate::rat::lemma_frac_dist_add(l, dd0, one);
    assert(frac_mul(l, one) == l);
    crate::rat::lemma_frac_div_mul_cancel(nn, dd0);
    lemma_add_cong(frac_mul(l, dd0), nn, l, l);
    lemma_frac_eq_trans(frac_mul(l, da), frac_mul(l, frac_add(dd0, one)), frac_add(
        frac_mul(l, dd0),
        l,
    ));
    lemma_frac_eq_trans(frac_mul(l, da), frac_add(frac_mul(l, dd0), l), frac_add(nn, l));
    // nn ~ d*(W-1) - (H-1)*(ki*d)
    crate::rat::lemma_frac_dist_sub(d, w1, hm1k);
    crate::rat::lemma_frac_mul_assoc(d, h1, ki);
    crate::rat::lemma_frac_mul_comm(d, h1);
    crate::rat::lemma_frac_mul_assoc(h1, d, ki);
    crate::rat::lemma_frac_mul_comm(d, ki);
    assert(frac_mul(d, hm1k) == h1kid);
    assert(frac_eq(nn, frac_sub(vv, h1kid)));
    // assemble: b_side ~ b2 ~ b3 ~ (l*da + h1kid) ~ ((nn + l) + h1kid)
    //   ~ (((vv - h1kid) + l) + h1kid) ~ vv + l
    let b4 = frac_add(frac_mul(l, da), h1kid);
    let b5 = frac_add(frac_add(nn, l), h1kid);
    let b6 = frac_add(frac_add(frac_sub(vv, h1kid), l), h1kid);
    let b7 = frac_add(vv, l);
    lemma_add_cong(frac_sub(hlk, h1kil), frac_mul(l, da), h1kid, h1kid);
    lemma_add_cong(frac_mul(l, da), frac_add(nn, l), h1kid, h1kid);
    lemma_add_cong(nn, frac_sub(vv, h1kid), l, l);
    lemma_add_cong(frac_add(nn, l), frac_add(frac_sub(vv, h1kid), l), h1kid, h1kid);
    crate::rat::lemma_frac_add_assoc(frac_sub(vv, h1kid), l, h1kid);
    crate::rat::lemma_frac_add_comm(l, h1kid);
    crate::rat::lemma_frac_add_assoc(frac_sub(vv, h1kid), h1kid, l);
    lemma_frac_eq_sym(
        frac_add(frac_add(frac_sub(vv, h1kid), h1kid), l),
        frac_add(frac_sub(vv, h1kid), frac_add(h1kid, l)),
    );
    crate::rat::lemma_frac_add_sub_cancel(vv, h1kid);
    lemma_add_cong(frac_add(frac_sub(vv, h1kid), h1kid), vv, l, l);
    lemma_frac_eq_trans(
        b6,
        frac_add(frac_sub(vv, h1kid), frac_add(l, h1kid)),
        frac_add(frac_add(frac_sub(vv, h1kid), h1kid), l),
    );
    lemma_frac_eq_trans(b6, frac_add(frac_add(frac_sub(vv, h1kid), h1kid), l), b7);
    lemma_frac_eq_trans(b_side, b2, b3);
    lemma_frac_eq_trans(b_side, b3, b4);
    lemma_frac_eq_trans(b_side, b4, b5);
    lemma_frac_eq_trans(b_side, b5, b6);
    lemma_frac_eq_trans(b_side, b6, b7);
    // b7 == (W-1)*d + l == l + (W-1)*d == ra, so both sides meet.
    crate::rat::lemma_frac_mul_comm(d, w1);
    crate::rat::lemma_frac_add_comm(vv, l);
    assert(b7 == ra);
    lemma_frac_eq_sym(b_side, ra);
    lemma_frac_eq_trans(a_side, ra, b_side);
}

/// Law: the document itself is square as well, since both dimensions add
/// the same margins to the equal square sides.
pub proof fn lemma_document_square(y: int, avg: Frac, d: Frac, m: Frac, hh: int, ww: int)
    requires
        frac_wf(avg),
        frac_wf(d),
        frac_wf(m),
        avg.n != 0,
        frac_pos(k_spec(y, avg)),
        denom_spec(y, avg, hh).n != 0,
    ensures
        frac_eq(width_spec(y, avg, d, m, hh, ww), height_spec(y, avg, d, m, hh, ww)),
{
    lemma_grid_square(y, avg, d, hh, ww);
    crate::rat::lemma_div_wf(frac_int(y), avg);
    crate::rat::lemma_div_wf(frac_int(hh - 1), k_spec(y, avg));
    crate::rat::lemma_div_wf(
        numer_spec(y, avg, d, hh, ww),
        denom_spec(y, avg, hh),
    );
    lemma_add_cong(
        sq_width_spec(y, avg, d, hh, ww),
        sq_height_spec(y, avg, d, hh, ww),
        frac_mul(frac_int(2), m),
        frac_mul(frac_int(2), m),
    );
}

/// A circular cut-out in document coordinates.
#[derive(Clone, Copy, Debug)]
pub struct Circle {
    pub cx: Rat,
    pub cy: Rat,
    pub r: Rat,
}

/// A glyph outline positioned at an anchor point, in document coordinates.
/// The affine font-to-document mapping (scale, vertical flip, translation
/// to the anchor) is applied by each exporter, not baked in here.
#[derive(Clone, Debug)]
pub struct Path {
    /// The outline's typed drawing commands, in font design units.
    pub cmds: Vec<PathCmd>,
    /// Anchor X, in document units.
    pub x: Rat,
    /// Anchor Y, in document units.
    pub y: Rat,
}

/// The closed set of shape kinds every exporter matches over.
#[derive(Clone, Debug)]
pub enum Shape {
    Circle(Circle),
    Path(Path),
}

pub open spec fn shape_inv(s: Shape) -> bool {
    match s {
        Shape::Circle(c) => c.cx.inv() && c.cy.inv() && c.r.inv(),
        Shape::Path(p) => p.x.inv() && p.y.inv() && cmds_inv(p.cmds@) && p.cmds@.len()
            <= 0x100000,
    }
}

pub open spec fn shapes_inv(s: Seq<Shape>) -> bool {
    forall|i: int| 0 <= i < s.len() ==> shape_inv(#[trigger] s[i])
}

/// Radius of a mounting hole: half the configured diameter.
pub open spec fn hole_r_spec(cfg: Config) -> Frac {
    frac_div(cfg.hole_diameter@, frac_int(2))
}

/// Half the configured margin.
pub open spec fn mhalf_spec(cfg: Config) -> Frac {
    frac_div(cfg.margin@, frac_int(2))
}

pub open spec fn hole_x_left_spec(cfg: Config) -> Frac {
    frac_sub(mhalf_spec(cfg), hole_r_spec(cfg))
}

pub open spec fn hole_x_right_spec(cfg: Config, w: Frac) -> Frac {
    frac_sub(frac_sub(w, mhalf_spec(cfg)), hole_r_spec(cfg))
}

pub open spec fn hole_y_top_spec(cfg: Config) -> Frac {
    frac_add(mhalf_spec(cfg), hole_r_spec(cfg))
}

pub open spec fn hole_y_bottom_spec(cfg: Config, h: Frac) -> Frac {
    frac_sub(frac_sub(h, hole_r_spec(cfg)), mhalf_spec(cfg))
}

/// One mounting hole circle with the given center.
pub open spec fn is_hole_at(s: Shape, cfg: Config, x: Frac, y: Frac) -> bool {
    &&& s is Circle
    &&& frac_eq(s->Circle_0.cx@, x)
    &&& frac_eq(s->Circle_0.cy@, y)
    &&& frac_eq(s->Circle_0.r@, hole_r_spec(cfg))
}

/// Every hole coordinate fits the representation.  Over such inputs the
/// generator owes success.
pub open spec fn holes_fits(cfg: Config, w: Frac, h: Frac) -> bool {
    &&& frac_fits(hole_r_spec(cfg))
    &&& frac_fits(mhalf_spec(cfg))
    &&& frac_fits(hole_x_left_spec(cfg))
    &&& frac_fits(frac_sub(w, mhalf_spec(cfg)))
    &&& frac_fits(hole_x_right_spec(cfg, w))
    &&& frac_fits(hole_y_top_spec(cfg))
    &&& frac_fits(frac_sub(h, hole_r_spec(cfg)))
    &&& frac_fits(hole_y_bottom_spec(cfg, h))
}

/// Draws the four mounting holes, one near each document corner, in the
/// order top-left, top-right, bottom-right, bottom-left.
pub fn generate_holes(cfg: &Config, doc: &Sizes) -> (r: Result<Vec<Shape>, Error>)
    requires
        cfg.wf(),
        doc.inv(),
    ensures
        r is Err ==> r == Err::<Vec<Shape>, Error>(Error::ArithmeticOverflow),
        r is Ok ==> ({
            let v = r->Ok_0;
            &&& v@.len() == 4
            &&& shapes_inv(v@)
            &&& is_hole_at(v@[0], *cfg, hole_x_left_spec(*cfg), hole_y_top_spec(*cfg))
            &&& is_hole_at(v@[1], *cfg, hole_x_right_spec(*cfg, doc.width@), hole_y_top_spec(*cfg))
            &&& is_hole_at(
                v@[2],
                *cfg,
                hole_x_right_spec(*cfg, doc.width@),
                hole_y_bottom_spec(*cfg, doc.height@),
            )
            &&& is_hole_at(v@[3], *cfg, hole_x_left_spec(*cfg), hole_y_bottom_spec(*cfg, doc.height@))
        }),
        holes_fits(*cfg, doc.width@, doc.height@) ==> r is Ok,
{
    let two = Rat::from_int(2);
    let ghost fits = holes_fits(*cfg, doc.width@, doc.height@);
    let hr = match cfg.hole_diameter.div(two) {
        Some(v) => v,
        None => {
            proof {
                if fits {
                    assert(frac_div(cfg.hole_diameter@, two@) == hole_r_spec(*cfg));
                    assert(false);
                }
            }
            return Err(Error::ArithmeticOverflow);
        },
    };
    proof {
        assert(frac_div(cfg.hole_diameter@, two@) == hole_r_spec(*cfg));
        assert(frac_eq(hr@, hole_r_spec(*cfg)) && hr@.d <= hole_r_spec(*cfg).d);
    }
    let mh = match cfg.margin.div(two) {
        Some(v) => v,
        None => {
            proof {
                if fits {
                    assert(frac_div(cfg.margin@, two@) == mhalf_spec(*cfg));
                    assert(false);
                }
            }
            return Err(Error::ArithmeticOverflow);
        },
    };
    proof {
        assert(frac_div(cfg.margin@, two@) == mhalf_spec(*cfg));
        assert(frac_eq(mh@, mhalf_spec(*cfg)) && mh@.d <= mhalf_spec(*cfg).d);
    }
    let xl = match mh.sub(hr) {
        Some(v) => v,
        None => {
            proof {
                if fits {
                    lemma_sub_fits(mh@, mhalf_spec(*cfg), hr@, hole_r_spec(*cfg));
                    assert(false);
                }
            }
            return Err(Error::ArithmeticOverflow);
        },
    };
    let t1 = match doc.width.sub(mh) {
        Some(v) => v,
        None => {
            proof {
                if fits {
                    lemma_sub_fits(doc.width@, doc.width@, mh@, mhalf_spec(*cfg));
                    assert(false);
                }
            }
            return Err(Error::ArithmeticOverflow);
        },
    };
    proof {
        lemma_sub_cong(doc.width@, doc.width@, mh@, mhalf_spec(*cfg));
        lemma_frac_eq_trans(t1@, frac_sub(doc.width@, mh@), frac_sub(doc.width@, mhalf_spec(*cfg)));
        lemma_den_prod_le(doc.width@, doc.width@, mh@, mhalf_spec(*cfg));
        assert(t1@.d <= frac_sub(doc.width@, mhalf_spec(*cfg)).d);
    }
    let xr = match t1.sub(hr) {
        Some(v) => v,
        None => {
            proof {
                if fits {
                    lemma_sub_fits(
                        t1@,
                        frac_sub(doc.width@, mhalf_spec(*cfg)),
                        hr@,
                        hole_r_spec(*cfg),
                    );
                    assert(false);
                }
            }
            return Err(Error::ArithmeticOverflow);
        },
    };
    let yt = match mh.add(hr) {
        Some(v) => v,
        None => {
            proof {
                if fits {
                    lemma_add_fits(mh@, mhalf_spec(*cfg), hr@, hole_r_spec(*cfg));
                    assert(false);
                }
            }
            return Err(Error::ArithmeticOverflow);
        },
    };
    let t2 = match doc.height.sub(hr) {
        Some(v) => v,
        None => {
            proof {
                if fits {
                    lemma_sub_fits(doc.height@, doc.height@, hr@, hole_r_spec(*cfg));
                    assert(false);
                }
            }
            return Err(Error::ArithmeticOverflow);
        },
    };
    proof {
        lemma_sub_cong(doc.height@, doc.height@, hr@, hole_r_spec(*cfg));
        lemma_frac_eq_trans(
            t2@,
            frac_sub(doc.height@, hr@),
            frac_sub(doc.height@, hole_r_spec(*cfg)),
        );
        lemma_den_prod_le(doc.height@, doc.height@, hr@, hole_r_spec(*cfg));
        assert(t2@.d <= frac_sub(doc.height@, hole_r_spec(*cfg)).d);
    }
    let yb = match t2.sub(mh) {
        Some(v) => v,
        None => {
            proof {
                if fits {
                    lemma_sub_fits(
                        t2@,
                        frac_sub(doc.height@, hole_r_spec(*cfg)),
                        mh@,
                        mhalf_spec(*cfg),
                    );
                    assert(false);
                }
            }
            return Err(Error::ArithmeticOverflow);
        },
    };
    proof {
        lemma_sub_cong(mh@, mhalf_spec(*cfg), hr@, hole_r_spec(*cfg));
        lemma_frac_eq_trans(xl@, frac_sub(mh@, hr@), hole_x_left_spec(*cfg));
        lemma_sub_cong(doc.width@, doc.width@, mh@, mhalf_spec(*cfg));
        lemma_frac_eq_trans(t1@, frac_sub(doc.width@, mh@), frac_sub(doc.width@, mhalf_spec(*cfg)));
        lemma_sub_cong(t1@, frac_sub(doc.width@, mhalf_spec(*cfg)), hr@, hole_r_spec(*cfg));
        lemma_frac_eq_trans(xr@, frac_sub(t1@, hr@), hole_x_right_spec(*cfg, doc.width@));
        lemma_add_cong(mh@, mhalf_spec(*cfg), hr@, hole_r_spec(*cfg));
        lemma_frac_eq_trans(yt@, frac_add(mh@, hr@), hole_y_top_spec(*cfg));
        lemma_sub_cong(doc.height@, doc.height@, hr@, hole_r_spec(*cfg));
        lemma_frac_eq_trans(
            t2@,
            frac_sub(doc.height@, hr@),
            frac_sub(doc.height@, hole_r_spec(*cfg)),
        );
        lemma_sub_cong(t2@, frac_sub(doc.height@, hole_r_spec(*cfg)), mh@, mhalf_spec(*cfg));
        lemma_frac_eq_trans(yb@, frac_sub(t2@, mh@), hole_y_bottom_spec(*cfg, doc.height@));
    }
    let mut v: Vec<Shape> = Vec::new();
    v.push(Shape::Circle(Circle { cx: xl, cy: yt, r: hr }));
    v.push(Shape::Circle(Circle { cx: xr, cy: yt, r: hr }));
    v.push(Shape::Circle(Circle { cx: xr, cy: yb, r: hr }));
    v.push(Shape::Circle(Circle { cx: xl, cy: yb, r: hr }));
    Ok(v)
}

/// A positioned outline shape with the given commands and anchor.
pub open spec fn is_path_at(s: Shape, cmds: Seq<PathCmd>, x: Frac, y: Frac) -> bool {
    &&& s is Path
    &&& s->Path_0.cmds@ == cmds
    &&& frac_eq(s->Path_0.x@, x)
    &&& frac_eq(s->Path_0.y@, y)
}

/// Scaled X of the marker glyph's own bounding-box center:
/// `((x_min + x_max) / 2) * scale`.
pub open spec fn marker_mid_x_spec(bb: crate::font::BoundingBox, sc: Frac) -> Frac {
    frac_mul(Frac { n: bb.x_max + bb.x_min, d: 2 }, sc)
}

/// Scaled Y of the marker glyph's own bounding-box center:
/// `((y_min + y_max) / 2) * scale`.  Together with the exporters' vertical
/// flip, adding this to the target Y puts the box center on the target, in
/// the same way the X side does.
pub open spec fn marker_mid_y_spec(bb: crate::font::BoundingBox, sc: Frac) -> Frac {
    frac_mul(Frac { n: bb.y_min + bb.y_max, d: 2 }, sc)
}

pub open spec fn minute_x_left_spec(cfg: Config, bb: crate::font::BoundingBox, sc: Frac) -> Frac {
    frac_sub(mhalf_spec(cfg), marker_mid_x_spec(bb, sc))
}

pub open spec fn minute_x_mid_spec(w: Frac, bb: crate::font::BoundingBox, sc: Frac) -> Frac {
    frac_sub(frac_div(w, frac_int(2)), marker_mid_x_spec(bb, sc))
}

pub open spec fn minute_x_right_spec(
    cfg: Config,
    w: Frac,
    bb: crate::font::BoundingBox,
    sc: Frac,
) -> Frac {
    frac_sub(frac_sub(w, mhalf_spec(cfg)), marker_mid_x_spec(bb, sc))
}

pub open spec fn minute_y_top_spec(cfg: Config, bb: crate::font::BoundingBox, sc: Frac) -> Frac {
    frac_add(mhalf_spec(cfg), marker_mid_y_spec(bb, sc))
}

pub open spec fn minute_y_mid_spec(h: Frac, bb: crate::font::BoundingBox, sc: Frac) -> Frac {
    frac_add(frac_div(h, frac_int(2)), marker_mid_y_spec(bb, sc))
}

pub open spec fn minute_y_bottom_spec(
    cfg: Config,
    h: Frac,
    bb: crate::font::BoundingBox,
    sc: Frac,
) -> Frac {
    frac_add(frac_sub(h, mhalf_spec(cfg)), marker_mid_y_spec(bb, sc))
}

/// Every marker coordinate fits the representation.  Over such inputs
/// the generator owes success.
pub open spec fn minutes_fits(
    cfg: Config,
    w: Frac,
    h: Frac,
    sc: Frac,
    bb: crate::font::BoundingBox,
) -> bool {
    &&& frac_fits(mhalf_spec(cfg))
    &&& frac_fits(marker_mid_x_spec(bb, sc))
    &&& frac_fits(marker_mid_y_spec(bb, sc))
    &&& frac_fits(minute_x_left_spec(cfg, bb, sc))
    &&& frac_fits(frac_div(w, frac_int(2)))
    &&& frac_fits(minute_x_mid_spec(w, bb, sc))
    &&& frac_fits(frac_sub(w, mhalf_spec(cfg)))
    &&& frac_fits(minute_x_right_spec(cfg, w, bb, sc))
    &&& frac_fits(minute_y_top_spec(cfg, bb, sc))
    &&& frac_fits(frac_div(h, frac_int(2)))
    &&& frac_fits(minute_y_mid_spec(h, bb, sc))
    &&& frac_fits(frac_sub(h, mhalf_spec(cfg)))
    &&& frac_fits(minute_y_bottom_spec(cfg, h, bb, sc))
}

/// Draws the four marker glyphs, one centered on each document edge
/// midpoint, in the order top, right, bottom, left.
pub fn generate_minutes(font: &FontAnalysis, cfg: &Config, doc: &Sizes) -> (r: Result<
    Vec<Shape>,
    Error,
>)
    requires
        font.wf(),
        cfg.wf(),
        doc.inv(),
        font.has_glyph(FLOWER),
    ensures
        r is Err ==> r == Err::<Vec<Shape>, Error>(Error::ArithmeticOverflow),
        r is Ok ==> ({
            let v = r->Ok_0;
            let g = font.glyph_at(FLOWER);
            let sc = doc.scale@;
            &&& v@.len() == 4
            &&& shapes_inv(v@)
            &&& is_path_at(
                v@[0],
                g.cmds@,
                minute_x_mid_spec(doc.width@, g.bbox, sc),
                minute_y_top_spec(*cfg, g.bbox, sc),
            )
            &&& is_path_at(
                v@[1],
                g.cmds@,
                minute_x_right_spec(*cfg, doc.width@, g.bbox, sc),
                minute_y_mid_spec(doc.height@, g.bbox, sc),
            )
            &&& is_path_at(
                v@[2],
                g.cmds@,
                minute_x_mid_spec(doc.width@, g.bbox, sc),
                minute_y_bottom_spec(*cfg, doc.height@, g.bbox, sc),
            )
            &&& is_path_at(
                v@[3],
                g.cmds@,
                minute_x_left_spec(*cfg, g.bbox, sc),
                minute_y_mid_spec(doc.height@, g.bbox, sc),
            )
        }),
        minutes_fits(
            *cfg,
            doc.width@,
            doc.height@,
            doc.scale@,
            font.glyph_at(FLOWER).bbox,
        ) ==> r is Ok,
{
    let glyph = match font.get(FLOWER) {
        Some(g) => g,
        None => {
            return unreached();
        },
    };
    proof {
        let i = choose|i: int|
            0 <= i < font.glyphs@.len() && (#[trigger] font.glyphs@[i].0) == FLOWER;
        assert(crate::font::glyph_inv(font.glyphs@[i].1));
    }
    let two = Rat::from_int(2);
    let ghost bbg = font.glyph_at(FLOWER).bbox;
    let ghost scg = doc.scale@;
    let ghost fits = minutes_fits(*cfg, doc.width@, doc.height@, scg, bbg);
    let mh = match cfg.margin.div(two) {
        Some(v) => v,
        None => {
            proof {
                if fits {
                    assert(frac_div(cfg.margin@, two@) == mhalf_spec(*cfg));
                    assert(false);
                }
            }
            return Err(Error::ArithmeticOverflow);
        },
    };
    proof {
        assert(frac_div(cfg.margin@, two@) == mhalf_spec(*cfg));
        assert(frac_eq(mh@, mhalf_spec(*cfg)) && mh@.d <= mhalf_spec(*cfg).d);
    }
    let mxh = Rat::new(glyph.bbox.x_max as i64 + glyph.bbox.x_min as i64, 2);
    let myh = Rat::new(glyph.bbox.y_min as i64 + glyph.bbox.y_max as i64, 2);
    let midx = match mxh.mul(doc.scale) {
        Some(v) => v,
        None => {
            proof {
                if fits {
                    assert(frac_mul(mxh@, doc.scale@) == marker_mid_x_spec(bbg, scg));
                    assert(false);
                }
            }
            return Err(Error::ArithmeticOverflow);
        },
    };
    proof {
        assert(frac_mul(mxh@, doc.scale@) == marker_mid_x_spec(bbg, scg));
        assert(frac_eq(midx@, marker_mid_x_spec(bbg, scg)) && midx@.d <= marker_mid_x_spec(
            bbg,
            scg,
        ).d);
    }
    let midy = match myh.mul(doc.scale) {
        Some(v) => v,
        None => {
            proof {
                if fits {
                    assert(frac_mul(myh@, doc.scale@) == marker_mid_y_spec(bbg, scg));
                    assert(false);
                }
            }
            return Err(Error::ArithmeticOverflow);
        },
    };
    proof {
        assert(frac_mul(myh@, doc.scale@) == marker_mid_y_spec(bbg, scg));
        assert(frac_eq(midy@, marker_mid_y_spec(bbg, scg)) && midy@.d <= marker_mid_y_spec(
            bbg,
            scg,
        ).d);
    }
    let xl = match mh.sub(midx) {
        Some(v) => v,
        None => {
            proof {
                if fits {
                    lemma_sub_fits(mh@, mhalf_spec(*cfg), midx@, marker_mid_x_spec(bbg, scg));
                    assert(false);
                }
            }
            return Err(Error::ArithmeticOverflow);
        },
    };
    let wh = match doc.width.div(two) {
        Some(v) => v,
        None => {
            proof {
                if fits {
                    assert(frac_div(doc.width@, two@) == frac_div(doc.width@, frac_int(2)));
                    assert(false);
                }
            }
            return Err(Error::ArithmeticOverflow);
        },
    };
    proof {
        assert(frac_div(doc.width@, two@) == frac_div(doc.width@, frac_int(2)));
        assert(frac_eq(wh@, frac_div(doc.width@, frac_int(2))) && wh@.d <= frac_div(
            doc.width@,
            frac_int(2),
        ).d);
    }
    let xm = match wh.sub(midx) {
        Some(v) => v,
        None => {
            proof {
                if fits {
                    lemma_sub_fits(
                        wh@,
                        frac_div(doc.width@, frac_int(2)),
                        midx@,
                        marker_mid_x_spec(bbg, scg),
                    );
                    assert(false);
                }
            }
            return Err(Error::ArithmeticOverflow);
        },
    };
    let t1 = match doc.width.sub(mh) {
        Some(v) => v,
        None => {
            proof {
                if fits {
                    lemma_sub_fits(doc.width@, doc.width@, mh@, mhalf_spec(*cfg));
                    assert(false);
                }
            }
            return Err(Error::ArithmeticOverflow);
        },
    };
    proof {
        lemma_sub_cong(doc.width@, doc.width@, mh@, mhalf_spec(*cfg));
        lemma_frac_eq_trans(t1@, frac_sub(doc.width@, mh@), frac_sub(doc.width@, mhalf_spec(*cfg)));
        lemma_den_prod_le(doc.width@, doc.width@, mh@, mhalf_spec(*cfg));
        assert(t1@.d <= frac_sub(doc.width@, mhalf_spec(*cfg)).d);
    }
    let xr = match t1.sub(midx) {
        Some(v) => v,
        None => {
            proof {
                if fits {
                    lemma_sub_fits(
                        t1@,
                        frac_sub(doc.width@, mhalf_spec(*cfg)),
                        midx@,
                        marker_mid_x_spec(bbg, scg),
                    );
                    assert(false);
                }
            }
            return Err(Error::ArithmeticOverflow);
        },
    };
    let yt = match mh.add(midy) {
        Some(v) => v,
        None => {
            proof {
                if fits {
                    lemma_add_fits(mh@, mhalf_spec(*cfg), midy@, marker_mid_y_spec(bbg, scg));
                    assert(false);
                }
            }
            return Err(Error::ArithmeticOverflow);
        },
    };
    let hh = match doc.height.div(two) {
        Some(v) => v,
        None => {
            proof {
                if fits {
                    assert(frac_div(doc.height@, two@) == frac_div(doc.height@, frac_int(2)));
                    assert(false);
                }
            }
            return Err(Error::ArithmeticOverflow);
        },
    };
    proof {
        assert(frac_div(doc.height@, two@) == frac_div(doc.height@, frac_int(2)));
        assert(frac_eq(hh@, frac_div(doc.height@, frac_int(2))) && hh@.d <= frac_div(
            doc.height@,
            frac_int(2),
        ).d);
    }
    let ym = match hh.add(midy) {
        Some(v) => v,
        None => {
            proof {
                if fits {
                    lemma_add_fits(
                        hh@,
                        frac_div(doc.height@, frac_int(2)),
                        midy@,
                        marker_mid_y_spec(bbg, scg),
                    );
                    assert(false);
                }
            }
            return Err(Error::ArithmeticOverflow);
        },
    };
    let t2 = match doc.height.sub(mh) {
        Some(v) => v,
        None => {
            proof {
                if fits {
                    lemma_sub_fits(doc.height@, doc.height@, mh@, mhalf_spec(*cfg));
                    assert(false);
                }
            }
            return Err(Error::ArithmeticOverflow);
        },
    };
    proof {
        lemma_sub_cong(doc.height@, doc.height@, mh@, mhalf_spec(*cfg));
        lemma_frac_eq_trans(
            t2@,
            frac_sub(doc.height@, mh@),
            frac_sub(doc.height@, mhalf_spec(*cfg)),
        );
        lemma_den_prod_le(doc.height@, doc.height@, mh@, mhalf_spec(*cfg));
        assert(t2@.d <= frac_sub(doc.height@, mhalf_spec(*cfg)).d);
    }
    let yb = match t2.add(midy) {
        Some(v) => v,
        None => {
            proof {
                if fits {
                    lemma_add_fits(
                        t2@,
                        frac_sub(doc.height@, mhalf_spec(*cfg)),
                        midy@,
                        marker_mid_y_spec(bbg, scg),
                    );
                    assert(false);
                }
            }
            return Err(Error::ArithmeticOverflow);
        },
    };
    proof {
        let ghost g = font.glyph_at(FLOWER);
        let ghost sc = doc.scale@;
        let ghost mids = marker_mid_x_spec(g.bbox, sc);
        let ghost midys = marker_mid_y_spec(g.bbox, sc);
        lemma_sub_cong(mh@, mhalf_spec(*cfg), midx@, mids);
        lemma_frac_eq_trans(xl@, frac_sub(mh@, midx@), minute_x_left_spec(*cfg, g.bbox, sc));
        lemma_sub_cong(wh@, frac_div(doc.width@, frac_int(2)), midx@, mids);
        lemma_frac_eq_trans(xm@, frac_sub(wh@, midx@), minute_x_mid_spec(doc.width@, g.bbox, sc));
        lemma_sub_cong(doc.width@, doc.width@, mh@, mhalf_spec(*cfg));
        lemma_frac_eq_trans(t1@, frac_sub(doc.width@, mh@), frac_sub(doc.width@, mhalf_spec(*cfg)));
        lemma_sub_cong(t1@, frac_sub(doc.width@, mhalf_spec(*cfg)), midx@, mids);
        lemma_frac_eq_trans(
            xr@,
            frac_sub(t1@, midx@),
            minute_x_right_spec(*cfg, doc.width@, g.bbox, sc),
        );
        lemma_add_cong(mh@, mhalf_spec(*cfg), midy@, midys);
        lemma_frac_eq_trans(yt@, frac_add(mh@, midy@), minute_y_top_spec(*cfg, g.bbox, sc));
        lemma_add_cong(hh@, frac_div(doc.height@, frac_int(2)), midy@, midys);
        lemma_frac_eq_trans(ym@, frac_add(hh@, midy@), minute_y_mid_spec(doc.height@, g.bbox, sc));
        lemma_sub_cong(doc.height@, doc.height@, mh@, mhalf_spec(*cfg));
        lemma_frac_eq_trans(
            t2@,
            frac_sub(doc.height@, mh@),
            frac_sub(doc.height@, mhalf_spec(*cfg)),
        );
        lemma_add_cong(t2@, frac_sub(doc.height@, mhalf_spec(*cfg)), midy@, midys);
        lemma_frac_eq_trans(
            yb@,
            frac_add(t2@, midy@),
            minute_y_bottom_spec(*cfg, doc.height@, g.bbox, sc),
        );
    }
    let mut v: Vec<Shape> = Vec::new();
    v.push(Shape::Path(Path { cmds: copy_cmds(&glyph.cmds), x: xm, y: yt }));
    v.push(Shape::Path(Path { cmds: copy_cmds(&glyph.cmds), x: xr, y: ym }));
    v.push(Shape::Path(Path { cmds: copy_cmds(&glyph.cmds), x: xm, y: yb }));
    v.push(Shape::Path(Path { cmds: copy_cmds(&glyph.cmds), x: xl, y: ym }));
    Ok(v)
}

/// Twice the configured margin.
pub open spec fn two_margin_spec(cfg: Config) -> Frac {
    frac_mul(frac_int(2), cfg.margin@)
}

/// Vertical spacing between grid rows: `(height - 2*margin) / H`.
pub open spec fn vert_spacing_spec(cfg: Config, h: Frac) -> Frac {
    frac_div(frac_sub(h, two_margin_spec(cfg)), frac_int(cfg.rows()))
}

/// Horizontal offset centering the LED columns inside the letter square.
pub open spec fn right_offset_spec(cfg: Config, w: Frac) -> Frac {
    frac_div(
        frac_sub(
            frac_sub(
                frac_sub(w, two_margin_spec(cfg)),
                frac_mul(frac_int(cfg.cols() - 1), cfg.led_spacing@),
            ),
            cfg.led_size@,
        ),
        frac_int(2),
    )
}

pub open spec fn base_x_spec(cfg: Config, w: Frac) -> Frac {
    frac_add(cfg.margin@, right_offset_spec(cfg, w))
}

pub open spec fn base_y_spec(cfg: Config, h: Frac) -> Frac {
    frac_sub(
        frac_add(cfg.margin@, frac_div(vert_spacing_spec(cfg, h), frac_int(2))),
        frac_div(cfg.led_size@, frac_int(2)),
    )
}

/// Center X of the LED in column `j`.
pub open spec fn led_x_mid_spec(cfg: Config, w: Frac, j: int) -> Frac {
    frac_add(
        frac_add(frac_mul(frac_int(j), cfg.led_spacing@), base_x_spec(cfg, w)),
        frac_div(cfg.led_size@, frac_int(2)),
    )
}

/// Center Y of the LED in row `i`.
pub open spec fn led_y_mid_spec(cfg: Config, h: Frac, i: int) -> Frac {
    frac_add(
        frac_add(frac_mul(frac_int(i), vert_spacing_spec(cfg, h)), base_y_spec(cfg, h)),
        frac_div(cfg.led_size@, frac_int(2)),
    )
}

/// Anchor X for the glyph of cell `(i, j)`: the cell center, corrected so
/// the glyph's own bounding box is centered.
pub open spec fn cell_x_spec(
    cfg: Config,
    w: Frac,
    sc: Frac,
    bb: crate::font::BoundingBox,
    j: int,
) -> Frac {
    frac_sub(led_x_mid_spec(cfg, w, j), marker_mid_x_spec(bb, sc))
}

/// Anchor Y for the glyphs of row `i`.
pub open spec fn cell_y_spec(font: FontAnalysis, cfg: Config, h: Frac, sc: Frac, i: int) -> Frac {
    frac_add(
        led_y_mid_spec(cfg, h, i),
        frac_mul(Frac { n: font.y_max as int, d: 2 }, sc),
    )
}

/// The shape drawn for grid cell `(i, j)`: the outline of the cell's
/// character, anchored at the centered cell position.
pub open spec fn grid_cell_ok(
    font: FontAnalysis,
    cfg: Config,
    w: Frac,
    h: Frac,
    sc: Frac,
    s: Shape,
    i: int,
    j: int,
) -> bool {
    is_path_at(
        s,
        font.glyph_at(cfg.grid@[i]@[j]).cmds@,
        cell_x_spec(cfg, w, sc, font.glyph_at(cfg.grid@[i]@[j]).bbox, j),
        cell_y_spec(font, cfg, h, sc, i),
    )
}

/// Every character of the grid has an extracted glyph.
pub open spec fn grid_covered(font: FontAnalysis, cfg: Config) -> bool {
    forall|i: int, j: int|
        0 <= i < cfg.rows() && 0 <= j < cfg.cols() ==> #[trigger] font.has_glyph(cfg.grid@[i]@[j])
}

/// The per-column X chain of the grid fits the representation.
pub open spec fn col_fits(cfg: Config, w: Frac, j: int) -> bool {
    &&& frac_fits(frac_mul(frac_int(j), cfg.led_spacing@))
    &&& frac_fits(frac_add(frac_mul(frac_int(j), cfg.led_spacing@), base_x_spec(cfg, w)))
    &&& frac_fits(led_x_mid_spec(cfg, w, j))
}

/// The per-row Y chain of the grid fits the representation.
pub open spec fn row_fits(font: FontAnalysis, cfg: Config, h: Frac, sc: Frac, i: int) -> bool {
    &&& frac_fits(frac_mul(frac_int(i), vert_spacing_spec(cfg, h)))
    &&& frac_fits(frac_add(frac_mul(frac_int(i), vert_spacing_spec(cfg, h)), base_y_spec(cfg, h)))
    &&& frac_fits(led_y_mid_spec(cfg, h, i))
    &&& frac_fits(cell_y_spec(font, cfg, h, sc, i))
}

/// The per-cell X correction of the grid fits the representation.
pub open spec fn cell_fits(
    font: FontAnalysis,
    cfg: Config,
    w: Frac,
    sc: Frac,
    i: int,
    j: int,
) -> bool {
    &&& frac_fits(marker_mid_x_spec(font.glyph_at(cfg.grid@[i]@[j]).bbox, sc))
    &&& frac_fits(cell_x_spec(cfg, w, sc, font.glyph_at(cfg.grid@[i]@[j]).bbox, j))
}

/// Every grid coordinate fits the representation.  Over such inputs the
/// generator owes success.
pub open spec fn grid_fits(font: FontAnalysis, cfg: Config, w: Frac, h: Frac, sc: Frac) -> bool {
    &&& frac_fits(two_margin_spec(cfg))
    &&& frac_fits(frac_sub(w, two_margin_spec(cfg)))
    &&& frac_fits(frac_sub(h, two_margin_spec(cfg)))
    &&& frac_fits(vert_spacing_spec(cfg, h))
    &&& frac_fits(frac_mul(frac_int(cfg.cols() - 1), cfg.led_spacing@))
    &&& frac_fits(
        frac_sub(
            frac_sub(w, two_margin_spec(cfg)),
            frac_mul(frac_int(cfg.cols() - 1), cfg.led_spacing@),
        ),
    )
    &&& frac_fits(
        frac_sub(
            frac_sub(
                frac_sub(w, two_margin_spec(cfg)),
                frac_mul(frac_int(cfg.cols() - 1), cfg.led_spacing@),
            ),
            cfg.led_size@,
        ),
    )
    &&& frac_fits(right_offset_spec(cfg, w))
    &&& frac_fits(base_x_spec(cfg, w))
    &&& frac_fits(frac_div(vert_spacing_spec(cfg, h), frac_int(2)))
    &&& frac_fits(frac_div(cfg.led_size@, frac_int(2)))
    &&& frac_fits(frac_add(cfg.margin@, frac_div(vert_spacing_spec(cfg, h), frac_int(2))))
    &&& frac_fits(base_y_spec(cfg, h))
    &&& frac_fits(frac_mul(Frac { n: font.y_max as int, d: 2 }, sc))
    &&& forall|j: int| 0 <= j < cfg.cols() ==> #[trigger] col_fits(cfg, w, j)
    &&& forall|i: int| 0 <= i < cfg.rows() ==> #[trigger] row_fits(font, cfg, h, sc, i)
    &&& forall|i: int, j: int|
        0 <= i < cfg.rows() && 0 <= j < cfg.cols() ==> #[trigger] cell_fits(font, cfg, w, sc, i, j)
}

/// Draws the letter grid, row-major: row 0 first, column 0 first within a
/// row, each glyph centered in its cell.
pub fn generate_grid(font: &FontAnalysis, cfg: &Config, doc: &Sizes) -> (r: Result<
    Vec<Shape>,
    Error,
>)
    requires
        font.wf(),
        cfg.wf(),
        doc.inv(),
        cfg.rows() > 1,
        cfg.cols() > 1,
        grid_covered(*font, *cfg),
    ensures
        r is Err ==> r == Err::<Vec<Shape>, Error>(Error::ArithmeticOverflow),
        r is Ok ==> ({
            let v = r->Ok_0;
            &&& v@.len() == cfg.rows() * cfg.cols()
            &&& shapes_inv(v@)
            &&& forall|i: int, j: int|
                0 <= i < cfg.rows() && 0 <= j < cfg.cols() ==> grid_cell_ok(
                    *font,
                    *cfg,
                    doc.width@,
                    doc.height@,
                    doc.scale@,
                    #[trigger] v@[i * cfg.cols() + j],
                    i,
                    j,
                )
        }),
        grid_fits(*font, *cfg, doc.width@, doc.height@, doc.scale@) ==> r is Ok,
{
    let ghost w_g = doc.width@;
    let ghost h_g = doc.height@;
    let ghost sc_g = doc.scale@;
    let rows = cfg.grid.len();
    let cols = cfg.grid[0].len();
    let two = Rat::from_int(2);
    let ghost gf = grid_fits(*font, *cfg, w_g, h_g, sc_g);
    let m2 = match two.mul(cfg.margin) {
        Some(v) => v,
        None => {
            proof {
                if gf {
                    assert(frac_mul(two@, cfg.margin@) == two_margin_spec(*cfg));
                    assert(false);
                }
            }
            return Err(Error::ArithmeticOverflow);
        },
    };
    proof {
        lemma_mul_cong(two@, frac_int(2), cfg.margin@, cfg.margin@);
        lemma_frac_eq_trans(m2@, frac_mul(two@, cfg.margin@), two_margin_spec(*cfg));
        assert(frac_mul(two@, cfg.margin@) == two_margin_spec(*cfg));
        assert(m2@.d <= two_margin_spec(*cfg).d);
    }
    let sqw = match doc.width.sub(m2) {
        Some(v) => v,
        None => {
            proof {
                if gf {
                    lemma_sub_fits(doc.width@, w_g, m2@, two_margin_spec(*cfg));
                    assert(false);
                }
            }
            return Err(Error::ArithmeticOverflow);
        },
    };
    let sqh = match doc.height.sub(m2) {
        Some(v) => v,
        None => {
            proof {
                if gf {
                    lemma_sub_fits(doc.height@, h_g, m2@, two_margin_spec(*cfg));
                    assert(false);
                }
            }
            return Err(Error::ArithmeticOverflow);
        },
    };
    proof {
        lemma_sub_cong(doc.width@, w_g, m2@, two_margin_spec(*cfg));
        lemma_frac_eq_trans(sqw@, frac_sub(doc.width@, m2@), frac_sub(w_g, two_margin_spec(*cfg)));
        lemma_sub_cong(doc.height@, h_g, m2@, two_margin_spec(*cfg));
        lemma_frac_eq_trans(sqh@, frac_sub(doc.height@, m2@), frac_sub(h_g, two_margin_spec(*cfg)));
        lemma_den_prod_le(doc.width@, w_g, m2@, two_margin_spec(*cfg));
        assert(sqw@.d <= frac_sub(w_g, two_margin_spec(*cfg)).d);
        lemma_den_prod_le(doc.height@, h_g, m2@, two_margin_spec(*cfg));
        assert(sqh@.d <= frac_sub(h_g, two_margin_spec(*cfg)).d);
    }
    let hrat = Rat::from_int(rows as i64);
    let vs = match sqh.div(hrat) {
        Some(v) => v,
        None => {
            proof {
                if gf {
                    lemma_div_fits(
                        sqh@,
                        frac_sub(h_g, two_margin_spec(*cfg)),
                        hrat@,
                        frac_int(cfg.rows()),
                    );
                    assert(false);
                }
            }
            return Err(Error::ArithmeticOverflow);
        },
    };
    proof {
        lemma_div_cong(sqh@, frac_sub(h_g, two_margin_spec(*cfg)), hrat@, frac_int(cfg.rows()));
        lemma_frac_eq_trans(vs@, frac_div(sqh@, hrat@), vert_spacing_spec(*cfg, h_g));
        lemma_div_den_le(sqh@, frac_sub(h_g, two_margin_spec(*cfg)), hrat@, frac_int(cfg.rows()));
        assert(vs@.d <= vert_spacing_spec(*cfg, h_g).d);
    }
    let wm1 = Rat::from_int(cols as i64 - 1);
    let wm1d = match wm1.mul(cfg.led_spacing) {
        Some(v) => v,
        None => {
            proof {
                if gf {
                    assert(frac_mul(wm1@, cfg.led_spacing@) == frac_mul(
                        frac_int(cfg.cols() - 1),
                        cfg.led_spacing@,
                    ));
                    assert(false);
                }
            }
            return Err(Error::ArithmeticOverflow);
        },
    };
    proof {
        assert(frac_mul(wm1@, cfg.led_spacing@) == frac_mul(
            frac_int(cfg.cols() - 1),
            cfg.led_spacing@,
        ));
        assert(frac_eq(wm1d@, frac_mul(frac_int(cfg.cols() - 1), cfg.led_spacing@)) && wm1d@.d
            <= frac_mul(frac_int(cfg.cols() - 1), cfg.led_spacing@).d);
    }
    let t1 = match sqw.sub(wm1d) {
        Some(v) => v,
        None => {
            proof {
                if gf {
                    lemma_sub_fits(
                        sqw@,
                        frac_sub(w_g, two_margin_spec(*cfg)),
                        wm1d@,
                        frac_mul(frac_int(cfg.cols() - 1), cfg.led_spacing@),
                    );
                    assert(false);
                }
            }
            return Err(Error::ArithmeticOverflow);
        },
    };
    proof {
        lemma_sub_cong(
            sqw@,
            frac_sub(w_g, two_margin_spec(*cfg)),
            wm1d@,
            frac_mul(frac_int(cfg.cols() - 1), cfg.led_spacing@),
        );
        lemma_frac_eq_trans(
            t1@,
            frac_sub(sqw@, wm1d@),
            frac_sub(
                frac_sub(w_g, two_margin_spec(*cfg)),
                frac_mul(frac_int(cfg.cols() - 1), cfg.led_spacing@),
            ),
        );
        lemma_den_prod_le(
            sqw@,
            frac_sub(w_g, two_margin_spec(*cfg)),
            wm1d@,
            frac_mul(frac_int(cfg.cols() - 1), cfg.led_spacing@),
        );
        assert(t1@.d <= frac_sub(
            frac_sub(w_g, two_margin_spec(*cfg)),
            frac_mul(frac_int(cfg.cols() - 1), cfg.led_spacing@),
        ).d);
    }
    let t2 = match t1.sub(cfg.led_size) {
        Some(v) => v,
        None => {
            proof {
                if gf {
                    lemma_sub_fits(
                        t1@,
                        frac_sub(
                            frac_sub(w_g, two_margin_spec(*cfg)),
                            frac_mul(frac_int(cfg.cols() - 1), cfg.led_spacing@),
                        ),
                        cfg.led_size@,
                        cfg.led_size@,
                    );
                    assert(false);
                }
            }
            return Err(Error::ArithmeticOverflow);
        },
    };
    proof {
        lemma_sub_cong(
            t1@,
            frac_sub(
                frac_sub(w_g, two_margin_spec(*cfg)),
                frac_mul(frac_int(cfg.cols() - 1), cfg.led_spacing@),
            ),
            cfg.led_size@,
            cfg.led_size@,
        );
        lemma_frac_eq_trans(
            t2@,
            frac_sub(t1@, cfg.led_size@),
            frac_sub(
                frac_sub(
                    frac_sub(w_g, two_margin_spec(*cfg)),
                    frac_mul(frac_int(cfg.cols() - 1), cfg.led_spacing@),
                ),
                cfg.led_size@,
            ),
        );
        lemma_den_prod_le(
            t1@,
            frac_sub(
                frac_sub(w_g, two_margin_spec(*cfg)),
                frac_mul(frac_int(cfg.cols() - 1), cfg.led_spacing@),
            ),
            cfg.led_size@,
            cfg.led_size@,
        );
        assert(t2@.d <= frac_sub(
            frac_sub(
                frac_sub(w_g, two_margin_spec(*cfg)),
                frac_mul(frac_int(cfg.cols() - 1), cfg.led_spacing@),
            ),
            cfg.led_size@,
        ).d);
    }
    let ro = match t2.div(two) {
        Some(v) => v,
        None => {
            proof {
                if gf {
                    lemma_div_fits(
                        t2@,
                        frac_sub(
                            frac_sub(
                                frac_sub(w_g, two_margin_spec(*cfg)),
                                frac_mul(frac_int(cfg.cols() - 1), cfg.led_spacing@),
                            ),
                            cfg.led_size@,
                        ),
                        two@,
                        frac_int(2),
                    );
                    assert(false);
                }
            }
            return Err(Error::ArithmeticOverflow);
        },
    };
    proof {
        lemma_mul_cong(wm1@, frac_int(cfg.cols() - 1), cfg.led_spacing@, cfg.led_spacing@);
        lemma_frac_eq_trans(
            wm1d@,
            frac_mul(wm1@, cfg.led_spacing@),
            frac_mul(frac_int(cfg.cols() - 1), cfg.led_spacing@),
        );
        lemma_sub_cong(
            sqw@,
            frac_sub(w_g, two_margin_spec(*cfg)),
            wm1d@,
            frac_mul(frac_int(cfg.cols() - 1), cfg.led_spacing@),
        );
        lemma_frac_eq_trans(
            t1@,
            frac_sub(sqw@, wm1d@),
            frac_sub(
                frac_sub(w_g, two_margin_spec(*cfg)),
                frac_mul(frac_int(cfg.cols() - 1), cfg.led_spacing@),
            ),
        );
        lemma_sub_cong(
            t1@,
            frac_sub(
                frac_sub(w_g, two_margin_spec(*cfg)),
                frac_mul(frac_int(cfg.cols() - 1), cfg.led_spacing@),
            ),
            cfg.led_size@,
            cfg.led_size@,
        );
        lemma_frac_eq_trans(
            t2@,
            frac_sub(t1@, cfg.led_size@),
            frac_sub(
                frac_sub(
                    frac_sub(w_g, two_margin_spec(*cfg)),
                    frac_mul(frac_int(cfg.cols() - 1), cfg.led_spacing@),
                ),
                cfg.led_size@,
            ),
        );
        lemma_div_cong(
            t2@,
            frac_sub(
                frac_sub(
                    frac_sub(w_g, two_margin_spec(*cfg)),
                    frac_mul(frac_int(cfg.cols() - 1), cfg.led_spacing@),
                ),
                cfg.led_size@,
            ),
            two@,
            frac_int(2),
        );
        lemma_frac_eq_trans(ro@, frac_div(t2@, two@), right_offset_spec(*cfg, w_g));
        lemma_div_den_le(
            t2@,
            frac_sub(
                frac_sub(
                    frac_sub(w_g, two_margin_spec(*cfg)),
                    frac_mul(frac_int(cfg.cols() - 1), cfg.led_spacing@),
                ),
                cfg.led_size@,
            ),
            two@,
            frac_int(2),
        );
        assert(ro@.d <= right_offset_spec(*cfg, w_g).d);
    }
    let base_x = match cfg.margin.add(ro) {
        Some(v) => v,
        None => {
            proof {
                if gf {
                    lemma_add_fits(cfg.margin@, cfg.margin@, ro@, right_offset_spec(*cfg, w_g));
                    assert(false);
                }
            }
            return Err(Error::ArithmeticOverflow);
        },
    };
    proof {
        lemma_add_cong(cfg.margin@, cfg.margin@, ro@, right_offset_spec(*cfg, w_g));
        lemma_frac_eq_trans(base_x@, frac_add(cfg.margin@, ro@), base_x_spec(*cfg, w_g));
        lemma_den_prod_le(cfg.margin@, cfg.margin@, ro@, right_offset_spec(*cfg, w_g));
        assert(base_x@.d <= base_x_spec(*cfg, w_g).d);
    }
    let vs2 = match vs.div(two) {
        Some(v) => v,
        None => {
            proof {
                if gf {
                    lemma_div_fits(vs@, vert_spacing_spec(*cfg, h_g), two@, frac_int(2));
                    assert(false);
                }
            }
            return Err(Error::ArithmeticOverflow);
        },
    };
    proof {
        lemma_div_cong(vs@, vert_spacing_spec(*cfg, h_g), two@, frac_int(2));
        lemma_frac_eq_trans(
            vs2@,
            frac_div(vs@, two@),
            frac_div(vert_spacing_spec(*cfg, h_g), frac_int(2)),
        );
        lemma_div_den_le(vs@, vert_spacing_spec(*cfg, h_g), two@, frac_int(2));
        assert(vs2@.d <= frac_div(vert_spacing_spec(*cfg, h_g), frac_int(2)).d);
    }
    let led2 = match cfg.led_size.div(two) {
        Some(v) => v,
        None => {
            proof {
                if gf {
                    assert(frac_div(cfg.led_size@, two@) == frac_div(cfg.led_size@, frac_int(2)));
                    assert(false);
                }
            }
            return Err(Error::ArithmeticOverflow);
        },
    };
    proof {
        assert(frac_div(cfg.led_size@, two@) == frac_div(cfg.led_size@, frac_int(2)));
        assert(frac_eq(led2@, frac_div(cfg.led_size@, frac_int(2))) && led2@.d <= frac_div(
            cfg.led_size@,
            frac_int(2),
        ).d);
    }
    let t3 = match cfg.margin.add(vs2) {
        Some(v) => v,
        None => {
            proof {
                if gf {
                    lemma_add_fits(
                        cfg.margin@,
                        cfg.margin@,
                        vs2@,
                        frac_div(vert_spacing_spec(*cfg, h_g), frac_int(2)),
                    );
                    assert(false);
                }
            }
            return Err(Error::ArithmeticOverflow);
        },
    };
    proof {
        lemma_add_cong(
            cfg.margin@,
            cfg.margin@,
            vs2@,
            frac_div(vert_spacing_spec(*cfg, h_g), frac_int(2)),
        );
        lemma_frac_eq_trans(
            t3@,
            frac_add(cfg.margin@, vs2@),
            frac_add(cfg.margin@, frac_div(vert_spacing_spec(*cfg, h_g), frac_int(2))),
        );
        lemma_den_prod_le(
            cfg.margin@,
            cfg.margin@,
            vs2@,
            frac_div(vert_spacing_spec(*cfg, h_g), frac_int(2)),
        );
        assert(t3@.d <= frac_add(
            cfg.margin@,
            frac_div(vert_spacing_spec(*cfg, h_g), frac_int(2)),
        ).d);
    }
    let base_y = match t3.sub(led2) {
        Some(v) => v,
        None => {
            proof {
                if gf {
                    lemma_sub_fits(
                        t3@,
                        frac_add(cfg.margin@, frac_div(vert_spacing_spec(*cfg, h_g), frac_int(2))),
                        led2@,
                        frac_div(cfg.led_size@, frac_int(2)),
                    );
                    assert(false);
                }
            }
            return Err(Error::ArithmeticOverflow);
        },
    };
    proof {
        lemma_div_cong(vs@, vert_spacing_spec(*cfg, h_g), two@, frac_int(2));
        lemma_frac_eq_trans(
            vs2@,
            frac_div(vs@, two@),
            frac_div(vert_spacing_spec(*cfg, h_g), frac_int(2)),
        );
        lemma_add_cong(
            cfg.margin@,
            cfg.margin@,
            vs2@,
            frac_div(vert_spacing_spec(*cfg, h_g), frac_int(2)),
        );
        lemma_frac_eq_trans(
            t3@,
            frac_add(cfg.margin@, vs2@),
            frac_add(cfg.margin@, frac_div(vert_spacing_spec(*cfg, h_g), frac_int(2))),
        );
        lemma_sub_cong(
            t3@,
            frac_add(cfg.margin@, frac_div(vert_spacing_spec(*cfg, h_g), frac_int(2))),
            led2@,
            frac_div(cfg.led_size@, frac_int(2)),
        );
        lemma_frac_eq_trans(base_y@, frac_sub(t3@, led2@), base_y_spec(*cfg, h_g));
        lemma_den_prod_le(
            t3@,
            frac_add(cfg.margin@, frac_div(vert_spacing_spec(*cfg, h_g), frac_int(2))),
            led2@,
            frac_div(cfg.led_size@, frac_int(2)),
        );
        assert(base_y@.d <= base_y_spec(*cfg, h_g).d);
    }
    let ymaxh = Rat::new(font.y_max as i64, 2);
    let ymax_sc = match ymaxh.mul(doc.scale) {
        Some(v) => v,
        None => {
            proof {
                if gf {
                    assert(frac_mul(ymaxh@, doc.scale@) == frac_mul(
                        Frac { n: font.y_max as int, d: 2 },
                        sc_g,
                    ));
                    assert(false);
                }
            }
            return Err(Error::ArithmeticOverflow);
        },
    };
    proof {
        assert(frac_mul(ymaxh@, doc.scale@) == frac_mul(Frac { n: font.y_max as int, d: 2 }, sc_g));
        assert(ymax_sc@.d <= frac_mul(Frac { n: font.y_max as int, d: 2 }, sc_g).d);
    }
    let mut v: Vec<Shape> = Vec::new();
    let mut i: usize = 0;
    while i < rows
        invariant
            font.wf(),
            cfg.wf(),
            doc.inv(),
            grid_covered(*font, *cfg),
            rows == cfg.rows(),
            cols == cfg.cols(),
            rows > 1,
            cols > 1,
            i <= rows,
            w_g == doc.width@,
            h_g == doc.height@,
            sc_g == doc.scale@,
            two@ == frac_int(2),
            base_x.inv(),
            base_y.inv(),
            vs.inv(),
            led2.inv(),
            ymax_sc.inv(),
            frac_eq(base_x@, base_x_spec(*cfg, w_g)),
            frac_eq(base_y@, base_y_spec(*cfg, h_g)),
            frac_eq(vs@, vert_spacing_spec(*cfg, h_g)),
            frac_eq(led2@, frac_div(cfg.led_size@, frac_int(2))),
            frac_eq(ymax_sc@, frac_mul(Frac { n: font.y_max as int, d: 2 }, sc_g)),
            base_x@.d <= base_x_spec(*cfg, w_g).d,
            base_y@.d <= base_y_spec(*cfg, h_g).d,
            vs@.d <= vert_spacing_spec(*cfg, h_g).d,
            led2@.d <= frac_div(cfg.led_size@, frac_int(2)).d,
            ymax_sc@.d <= frac_mul(Frac { n: font.y_max as int, d: 2 }, sc_g).d,
            v@.len() == i * cols,
            shapes_inv(v@),
            forall|r: int, c: int|
                0 <= r < i && 0 <= c < cols ==> grid_cell_ok(
                    *font,
                    *cfg,
                    w_g,
                    h_g,
                    sc_g,
                    #[trigger] v@[r * cfg.cols() + c],
                    r,
                    c,
                ),
        decreases rows - i,
    {
        let irat = Rat::from_int(i as i64);
        let a2 = match irat.mul(vs) {
            Some(x) => x,
            None => {
                proof {
                    if grid_fits(*font, *cfg, w_g, h_g, sc_g) {
                        assert(row_fits(*font, *cfg, h_g, sc_g, i as int));
                        lemma_mul_fits(
                            irat@,
                            frac_int(i as int),
                            vs@,
                            vert_spacing_spec(*cfg, h_g),
                        );
                        assert(false);
                    }
                }
                return Err(Error::ArithmeticOverflow);
            },
        };
        proof {
            lemma_mul_cong(irat@, frac_int(i as int), vs@, vert_spacing_spec(*cfg, h_g));
            lemma_frac_eq_trans(
                a2@,
                frac_mul(irat@, vs@),
                frac_mul(frac_int(i as int), vert_spacing_spec(*cfg, h_g)),
            );
            lemma_den_prod_le(irat@, frac_int(i as int), vs@, vert_spacing_spec(*cfg, h_g));
            assert(a2@.d <= frac_mul(frac_int(i as int), vert_spacing_spec(*cfg, h_g)).d);
        }
        let b2 = match a2.add(base_y) {
            Some(x) => x,
            None => {
                proof {
                    if grid_fits(*font, *cfg, w_g, h_g, sc_g) {
                        assert(row_fits(*font, *cfg, h_g, sc_g, i as int));
                        lemma_add_fits(
                            a2@,
                            frac_mul(frac_int(i as int), vert_spacing_spec(*cfg, h_g)),
                            base_y@,
                            base_y_spec(*cfg, h_g),
                        );
                        assert(false);
                    }
                }
                return Err(Error::ArithmeticOverflow);
            },
        };
        proof {
            lemma_add_cong(
                a2@,
                frac_mul(frac_int(i as int), vert_spacing_spec(*cfg, h_g)),
                base_y@,
                base_y_spec(*cfg, h_g),
            );
            lemma_frac_eq_trans(
                b2@,
                frac_add(a2@, base_y@),
                frac_add(
                    frac_mul(frac_int(i as int), vert_spacing_spec(*cfg, h_g)),
                    base_y_spec(*cfg, h_g),
                ),
            );
            lemma_den_prod_le(
                a2@,
                frac_mul(frac_int(i as int), vert_spacing_spec(*cfg, h_g)),
                base_y@,
                base_y_spec(*cfg, h_g),
            );
            assert(b2@.d <= frac_add(
                frac_mul(frac_int(i as int), vert_spacing_spec(*cfg, h_g)),
                base_y_spec(*cfg, h_g),
            ).d);
        }
        let c2 = match b2.add(led2) {
            Some(x) => x,
            None => {
                proof {
                    if grid_fits(*font, *cfg, w_g, h_g, sc_g) {
                        assert(row_fits(*font, *cfg, h_g, sc_g, i as int));
                        lemma_add_fits(
                            b2@,
                            frac_add(
                                frac_mul(frac_int(i as int), vert_spacing_spec(*cfg, h_g)),
                                base_y_spec(*cfg, h_g),
                            ),
                            led2@,
                            frac_div(cfg.led_size@, frac_int(2)),
                        );
                        assert(false);
                    }
                }
                return Err(Error::ArithmeticOverflow);
            },
        };
        proof {
            lemma_add_cong(
                b2@,
                frac_add(
                    frac_mul(frac_int(i as int), vert_spacing_spec(*cfg, h_g)),
                    base_y_spec(*cfg, h_g),
                ),
                led2@,
                frac_div(cfg.led_size@, frac_int(2)),
            );
            lemma_frac_eq_trans(c2@, frac_add(b2@, led2@), led_y_mid_spec(*cfg, h_g, i as int));
            lemma_den_prod_le(
                b2@,
                frac_add(
                    frac_mul(frac_int(i as int), vert_spacing_spec(*cfg, h_g)),
                    base_y_spec(*cfg, h_g),
                ),
                led2@,
                frac_div(cfg.led_size@, frac_int(2)),
            );
            assert(c2@.d <= led_y_mid_spec(*cfg, h_g, i as int).d);
        }
        let ycell = match c2.add(ymax_sc) {
            Some(x) => x,
            None => {
                proof {
                    if grid_fits(*font, *cfg, w_g, h_g, sc_g) {
                        assert(row_fits(*font, *cfg, h_g, sc_g, i as int));
                        lemma_add_fits(
                            c2@,
                            led_y_mid_spec(*cfg, h_g, i as int),
                            ymax_sc@,
                            frac_mul(Frac { n: font.y_max as int, d: 2 }, sc_g),
                        );
                        assert(false);
                    }
                }
                return Err(Error::ArithmeticOverflow);
            },
        };
        proof {
            lemma_mul_cong(irat@, frac_int(i as int), vs@, vert_spacing_spec(*cfg, h_g));
            lemma_frac_eq_trans(
                a2@,
                frac_mul(irat@, vs@),
                frac_mul(frac_int(i as int), vert_spacing_spec(*cfg, h_g)),
            );
            lemma_add_cong(
                a2@,
                frac_mul(frac_int(i as int), vert_spacing_spec(*cfg, h_g)),
                base_y@,
                base_y_spec(*cfg, h_g),
            );
            lemma_frac_eq_trans(
                b2@,
                frac_add(a2@, base_y@),
                frac_add(
                    frac_mul(frac_int(i as int), vert_spacing_spec(*cfg, h_g)),
                    base_y_spec(*cfg, h_g),
                ),
            );
            lemma_add_cong(
                b2@,
                frac_add(
                    frac_mul(frac_int(i as int), vert_spacing_spec(*cfg, h_g)),
                    base_y_spec(*cfg, h_g),
                ),
                led2@,
                frac_div(cfg.led_size@, frac_int(2)),
            );
            lemma_frac_eq_trans(c2@, frac_add(b2@, led2@), led_y_mid_spec(*cfg, h_g, i as int));
            lemma_add_cong(
                c2@,
                led_y_mid_spec(*cfg, h_g, i as int),
                ymax_sc@,
                frac_mul(Frac { n: font.y_max as int, d: 2 }, sc_g),
            );
            lemma_frac_eq_trans(
                ycell@,
                frac_add(c2@, ymax_sc@),
                cell_y_spec(*font, *cfg, h_g, sc_g, i as int),
            );
        }
        let mut j: usize = 0;
        while j < cols
            invariant
                font.wf(),
                cfg.wf(),
                doc.inv(),
                grid_covered(*font, *cfg),
                rows == cfg.rows(),
                cols == cfg.cols(),
                rows > 1,
                cols > 1,
                i < rows,
                j <= cols,
                w_g == doc.width@,
                h_g == doc.height@,
                sc_g == doc.scale@,
                two@ == frac_int(2),
                base_x.inv(),
                led2.inv(),
                ycell.inv(),
                frac_eq(base_x@, base_x_spec(*cfg, w_g)),
                frac_eq(led2@, frac_div(cfg.led_size@, frac_int(2))),
                frac_eq(ycell@, cell_y_spec(*font, *cfg, h_g, sc_g, i as int)),
                base_x@.d <= base_x_spec(*cfg, w_g).d,
                led2@.d <= frac_div(cfg.led_size@, frac_int(2)).d,
                v@.len() == i * cols + j,
                shapes_inv(v@),
                forall|r: int, c: int|
                    0 <= r < i && 0 <= c < cols ==> grid_cell_ok(
                        *font,
                        *cfg,
                        w_g,
                        h_g,
                        sc_g,
                        #[trigger] v@[r * cfg.cols() + c],
                        r,
                        c,
                    ),
                forall|c: int|
                    0 <= c < j ==> grid_cell_ok(
                        *font,
                        *cfg,
                        w_g,
                        h_g,
                        sc_g,
                        #[trigger] v@[i as int * cfg.cols() + c],
                        i as int,
                        c,
                    ),
            decreases cols - j,
        {
            let ch = cfg.grid[i][j];
            proof {
                assert(font.has_glyph(cfg.grid@[i as int]@[j as int]));
            }
            let glyph = match font.get(ch) {
                Some(g) => g,
                None => {
                    return unreached();
                },
            };
            proof {
                crate::font::lemma_glyph_at_inv(*font, ch);
            }
            let jrat = Rat::from_int(j as i64);
            let a1 = match jrat.mul(cfg.led_spacing) {
                Some(x) => x,
                None => {
                    proof {
                        if grid_fits(*font, *cfg, w_g, h_g, sc_g) {
                            assert(col_fits(*cfg, w_g, j as int));
                            assert(frac_mul(jrat@, cfg.led_spacing@) == frac_mul(
                                frac_int(j as int),
                                cfg.led_spacing@,
                            ));
                            assert(false);
                        }
                    }
                    return Err(Error::ArithmeticOverflow);
                },
            };
            proof {
                assert(frac_mul(jrat@, cfg.led_spacing@) == frac_mul(
                    frac_int(j as int),
                    cfg.led_spacing@,
                ));
                assert(frac_eq(a1@, frac_mul(frac_int(j as int), cfg.led_spacing@)) && a1@.d
                    <= frac_mul(frac_int(j as int), cfg.led_spacing@).d);
            }
            let b1 = match a1.add(base_x) {
                Some(x) => x,
                None => {
                    proof {
                        if grid_fits(*font, *cfg, w_g, h_g, sc_g) {
                            assert(col_fits(*cfg, w_g, j as int));
                            lemma_add_fits(
                                a1@,
                                frac_mul(frac_int(j as int), cfg.led_spacing@),
                                base_x@,
                                base_x_spec(*cfg, w_g),
                            );
                            assert(false);
                        }
                    }
                    return Err(Error::ArithmeticOverflow);
                },
            };
            proof {
                lemma_add_cong(
                    a1@,
                    frac_mul(frac_int(j as int), cfg.led_spacing@),
                    base_x@,
                    base_x_spec(*cfg, w_g),
                );
                lemma_frac_eq_trans(
                    b1@,
                    frac_add(a1@, base_x@),
                    frac_add(frac_mul(frac_int(j as int), cfg.led_spacing@), base_x_spec(*cfg, w_g)),
                );
                lemma_den_prod_le(
                    a1@,
                    frac_mul(frac_int(j as int), cfg.led_spacing@),
                    base_x@,
                    base_x_spec(*cfg, w_g),
                );
                assert(b1@.d <= frac_add(
                    frac_mul(frac_int(j as int), cfg.led_spacing@),
                    base_x_spec(*cfg, w_g),
                ).d);
            }
            let c1 = match b1.add(led2) {
                Some(x) => x,
                None => {
                    proof {
                        if grid_fits(*font, *cfg, w_g, h_g, sc_g) {
                            assert(col_fits(*cfg, w_g, j as int));
                            lemma_add_fits(
                                b1@,
                                frac_add(
                                    frac_mul(frac_int(j as int), cfg.led_spacing@),
                                    base_x_spec(*cfg, w_g),
                                ),
                                led2@,
                                frac_div(cfg.led_size@, frac_int(2)),
                            );
                            assert(false);
                        }
                    }
                    return Err(Error::ArithmeticOverflow);
                },
            };
            proof {
                lemma_add_cong(
                    b1@,
                    frac_add(
                        frac_mul(frac_int(j as int), cfg.led_spacing@),
                        base_x_spec(*cfg, w_g),
                    ),
                    led2@,
                    frac_div(cfg.led_size@, frac_int(2)),
                );
                lemma_frac_eq_trans(c1@, frac_add(b1@, led2@), led_x_mid_spec(*cfg, w_g, j as int));
                lemma_den_prod_le(
                    b1@,
                    frac_add(
                        frac_mul(frac_int(j as int), cfg.led_spacing@),
                        base_x_spec(*cfg, w_g),
                    ),
                    led2@,
                    frac_div(cfg.led_size@, frac_int(2)),
                );
                assert(c1@.d <= led_x_mid_spec(*cfg, w_g, j as int).d);
            }
            let mxh = Rat::new(glyph.bbox.x_max as i64 + glyph.bbox.x_min as i64, 2);
            let midsc = match mxh.mul(doc.scale) {
                Some(x) => x,
                None => {
                    proof {
                        if grid_fits(*font, *cfg, w_g, h_g, sc_g) {
                            assert(cell_fits(*font, *cfg, w_g, sc_g, i as int, j as int));
                            assert(frac_mul(mxh@, doc.scale@) == marker_mid_x_spec(
                                font.glyph_at(cfg.grid@[i as int]@[j as int]).bbox,
                                sc_g,
                            ));
                            assert(false);
                        }
                    }
                    return Err(Error::ArithmeticOverflow);
                },
            };
            proof {
                assert(frac_mul(mxh@, doc.scale@) == marker_mid_x_spec(
                    font.glyph_at(cfg.grid@[i as int]@[j as int]).bbox,
                    sc_g,
                ));
                assert(midsc@.d <= marker_mid_x_spec(
                    font.glyph_at(cfg.grid@[i as int]@[j as int]).bbox,
                    sc_g,
                ).d);
            }
            let xcell = match c1.sub(midsc) {
                Some(x) => x,
                None => {
                    proof {
                        if grid_fits(*font, *cfg, w_g, h_g, sc_g) {
                            assert(cell_fits(*font, *cfg, w_g, sc_g, i as int, j as int));
                            lemma_sub_fits(
                                c1@,
                                led_x_mid_spec(*cfg, w_g, j as int),
                                midsc@,
                                marker_mid_x_spec(
                                    font.glyph_at(cfg.grid@[i as int]@[j as int]).bbox,
                                    sc_g,
                                ),
                            );
                            assert(false);
                        }
                    }
                    return Err(Error::ArithmeticOverflow);
                },
            };
            proof {
                let ghost bb = font.glyph_at(cfg.grid@[i as int]@[j as int]).bbox;
                lemma_mul_cong(jrat@, frac_int(j as int), cfg.led_spacing@, cfg.led_spacing@);
                lemma_frac_eq_trans(
                    a1@,
                    frac_mul(jrat@, cfg.led_spacing@),
                    frac_mul(frac_int(j as int), cfg.led_spacing@),
                );
                lemma_add_cong(
                    a1@,
                    frac_mul(frac_int(j as int), cfg.led_spacing@),
                    base_x@,
                    base_x_spec(*cfg, w_g),
                );
                lemma_frac_eq_trans(
                    b1@,
                    frac_add(a1@, base_x@),
                    frac_add(frac_mul(frac_int(j as int), cfg.led_spacing@), base_x_spec(*cfg, w_g)),
                );
                lemma_add_cong(
                    b1@,
                    frac_add(frac_mul(frac_int(j as int), cfg.led_spacing@), base_x_spec(*cfg, w_g)),
                    led2@,
                    frac_div(cfg.led_size@, frac_int(2)),
                );
                lemma_frac_eq_trans(c1@, frac_add(b1@, led2@), led_x_mid_spec(*cfg, w_g, j as int));
                lemma_sub_cong(
                    c1@,
                    led_x_mid_spec(*cfg, w_g, j as int),
                    midsc@,
                    marker_mid_x_spec(bb, sc_g),
                );
                lemma_frac_eq_trans(
                    xcell@,
                    frac_sub(c1@, midsc@),
                    cell_x_spec(*cfg, w_g, sc_g, bb, j as int),
                );
            }
            let pcmds = copy_cmds(&glyph.cmds);
            let ghost pc = pcmds@;
            let ghost vpre = v@;
            v.push(Shape::Path(Path { cmds: pcmds, x: xcell, y: ycell }));
            proof {
                let ghost cc = cols as int;
                let ghost ii = i as int;
                let ghost jj = j as int;
                assert(grid_cell_ok(
                    *font,
                    *cfg,
                    w_g,
                    h_g,
                    sc_g,
                    v@[ii * cfg.cols() + jj],
                    ii,
                    jj,
                ));
                assert forall|r: int, c: int| 0 <= r < ii && 0 <= c < cc implies grid_cell_ok(
                    *font,
                    *cfg,
                    w_g,
                    h_g,
                    sc_g,
                    #[trigger] v@[r * cfg.cols() + c],
                    r,
                    c,
                ) by {
                    assert(0 <= r * cc + c < ii * cc) by (nonlinear_arith)
                        requires
                            0 <= r <= ii - 1,
                            0 <= c < cc,
                            cc >= 1,
                    ;
                    assert(v@[r * cfg.cols() + c] == vpre[r * cfg.cols() + c]);
                }
                assert forall|c: int| 0 <= c < jj + 1 implies grid_cell_ok(
                    *font,
                    *cfg,
                    w_g,
                    h_g,
                    sc_g,
                    #[trigger] v@[ii * cfg.cols() + c],
                    ii,
                    c,
                ) by {
                    if c < jj {
                        assert(v@[ii * cfg.cols() + c] == vpre[ii * cfg.cols() + c]);
                    }
                }
            }
            j = j + 1;
        }
        proof {
            assert(i as int * cols as int + cols as int == (i as int + 1) * cols as int)
                by (nonlinear_arith);
        }
        i = i + 1;
    }
    Ok(v)
}

/// The composer's coordinates all fit in one given representation of the
/// solved dimensions.
pub open spec fn compose_fits_at(
    font: FontAnalysis,
    cfg: Config,
    w2: Frac,
    h2: Frac,
    sc2: Frac,
) -> bool {
    &&& holes_fits(cfg, w2, h2)
    &&& minutes_fits(cfg, w2, h2, sc2, font.glyph_at(FLOWER).bbox)
    &&& grid_fits(font, cfg, w2, h2, sc2)
}

/// The composer's coordinates fit the representation, for every
/// representation of the solved dimensions the solver can hand over (any
/// value-equal form with no larger denominators than the spec-level
/// forms).  Together with `solver_fits`, such inputs oblige the composer
/// to succeed.
pub open spec fn compose_fits(font: FontAnalysis, cfg: Config) -> bool {
    let y = font.y_max as int;
    let avg = font.glyph_width_avg@;
    let d = cfg.led_spacing@;
    let m = cfg.margin@;
    let hh = cfg.rows();
    let ww = cfg.cols();
    let ws = width_spec(y, avg, d, m, hh, ww);
    let hs = height_spec(y, avg, d, m, hh, ww);
    let scs = scale_spec(y, avg, d, hh, ww);
    forall|w2: Frac, h2: Frac, sc2: Frac|
        (frac_wf(w2) && frac_wf(h2) && frac_wf(sc2) && frac_eq(w2, ws) && frac_eq(h2, hs)
            && frac_eq(sc2, scs) && w2.d <= ws.d && h2.d <= hs.d && sc2.d
            <= scs.d) ==> #[trigger] compose_fits_at(font, cfg, w2, h2, sc2)
}

/// Hole fitting transports to every value-equal representation of the
/// document dimensions with no larger denominators.
pub proof fn lemma_holes_fits_transport(cfg: Config, w: Frac, ws2: Frac, h: Frac, hs2: Frac)
    requires
        cfg.wf(),
        frac_wf(w),
        frac_wf(ws2),
        frac_wf(h),
        frac_wf(hs2),
        frac_eq(w, ws2),
        frac_eq(h, hs2),
        w.d <= ws2.d,
        h.d <= hs2.d,
        holes_fits(cfg, ws2, hs2),
    ensures
        holes_fits(cfg, w, h),
{
    let mh = mhalf_spec(cfg);
    let hr = hole_r_spec(cfg);
    lemma_sub_fits(w, ws2, mh, mh);
    lemma_sub_cong(w, ws2, mh, mh);
    lemma_den_prod_le(w, ws2, mh, mh);
    lemma_sub_fits(frac_sub(w, mh), frac_sub(ws2, mh), hr, hr);
    lemma_sub_fits(h, hs2, hr, hr);
    lemma_sub_cong(h, hs2, hr, hr);
    lemma_den_prod_le(h, hs2, hr, hr);
    lemma_sub_fits(frac_sub(h, hr), frac_sub(hs2, hr), mh, mh);
}

/// Marker fitting transports to every value-equal representation of the
/// document dimensions and scale with no larger denominators.
pub proof fn lemma_minutes_fits_transport(
    cfg: Config,
    w: Frac,
    ws2: Frac,
    h: Frac,
    hs2: Frac,
    sc: Frac,
    scs2: Frac,
    bb: crate::font::BoundingBox,
)
    requires
        cfg.wf(),
        frac_wf(w),
        frac_wf(ws2),
        frac_wf(h),
        frac_wf(hs2),
        frac_wf(sc),
        frac_wf(scs2),
        frac_eq(w, ws2),
        frac_eq(h, hs2),
        frac_eq(sc, scs2),
        w.d <= ws2.d,
        h.d <= hs2.d,
        sc.d <= scs2.d,
        minutes_fits(cfg, ws2, hs2, scs2, bb),
    ensures
        minutes_fits(cfg, w, h, sc, bb),
{
    let mh = mhalf_spec(cfg);
    lemma_mul_fits(
        Frac { n: bb.x_max + bb.x_min, d: 2 },
        Frac { n: bb.x_max + bb.x_min, d: 2 },
        sc,
        scs2,
    );
    lemma_mul_cong(
        Frac { n: bb.x_max + bb.x_min, d: 2 },
        Frac { n: bb.x_max + bb.x_min, d: 2 },
        sc,
        scs2,
    );
    lemma_den_prod_le(
        Frac { n: bb.x_max + bb.x_min, d: 2 },
        Frac { n: bb.x_max + bb.x_min, d: 2 },
        sc,
        scs2,
    );
    lemma_mul_fits(
        Frac { n: bb.y_min + bb.y_max, d: 2 },
        Frac { n: bb.y_min + bb.y_max, d: 2 },
        sc,
        scs2,
    );
    lemma_mul_cong(
        Frac { n: bb.y_min + bb.y_max, d: 2 },
        Frac { n: bb.y_min + bb.y_max, d: 2 },
        sc,
        scs2,
    );
    lemma_den_prod_le(
        Frac { n: bb.y_min + bb.y_max, d: 2 },
        Frac { n: bb.y_min + bb.y_max, d: 2 },
        sc,
        scs2,
    );
    let midx = marker_mid_x_spec(bb, sc);
    let midx2 = marker_mid_x_spec(bb, scs2);
    let midy = marker_mid_y_spec(bb, sc);
    let midy2 = marker_mid_y_spec(bb, scs2);
    lemma_sub_fits(mh, mh, midx, midx2);
    lemma_div_fits(w, ws2, frac_int(2), frac_int(2));
    lemma_div_cong(w, ws2, frac_int(2), frac_int(2));
    lemma_div_den_le(w, ws2, frac_int(2), frac_int(2));
    lemma_sub_fits(frac_div(w, frac_int(2)), frac_div(ws2, frac_int(2)), midx, midx2);
    lemma_sub_fits(w, ws2, mh, mh);
    lemma_sub_cong(w, ws2, mh, mh);
    lemma_den_prod_le(w, ws2, mh, mh);
    lemma_sub_fits(frac_sub(w, mh), frac_sub(ws2, mh), midx, midx2);
    lemma_add_fits(mh, mh, midy, midy2);
    lemma_div_fits(h, hs2, frac_int(2), frac_int(2));
    lemma_div_cong(h, hs2, frac_int(2), frac_int(2));
    lemma_div_den_le(h, hs2, frac_int(2), frac_int(2));
    lemma_add_fits(frac_div(h, frac_int(2)), frac_div(hs2, frac_int(2)), midy, midy2);
    lemma_sub_fits(h, hs2, mh, mh);
    lemma_sub_cong(h, hs2, mh, mh);
    lemma_den_prod_le(h, hs2, mh, mh);
    lemma_add_fits(frac_sub(h, mh), frac_sub(hs2, mh), midy, midy2);
}

/// Grid fitting transports to every value-equal representation of the
/// document dimensions and scale with no larger denominators.
pub proof fn lemma_grid_fits_transport(
    font: FontAnalysis,
    cfg: Config,
    w: Frac,
    ws2: Frac,
    h: Frac,
    hs2: Frac,
    sc: Frac,
    scs2: Frac,
)
    requires
        cfg.wf(),
        cfg.rows() > 1,
        frac_wf(w),
        frac_wf(ws2),
        frac_wf(h),
        frac_wf(hs2),
        frac_wf(sc),
        frac_wf(scs2),
        frac_eq(w, ws2),
        frac_eq(h, hs2),
        frac_eq(sc, scs2),
        w.d <= ws2.d,
        h.d <= hs2.d,
        sc.d <= scs2.d,
        grid_fits(font, cfg, ws2, hs2, scs2),
    ensures
        grid_fits(font, cfg, w, h, sc),
{
    let tm = two_margin_spec(cfg);
    let wm1d = frac_mul(frac_int(cfg.cols() - 1), cfg.led_spacing@);
    let led = cfg.led_size@;
    let m = cfg.margin@;
    let led2 = frac_div(cfg.led_size@, frac_int(2));
    let hhf = frac_int(cfg.rows());
    lemma_sub_fits(w, ws2, tm, tm);
    lemma_sub_cong(w, ws2, tm, tm);
    lemma_den_prod_le(w, ws2, tm, tm);
    let a1 = frac_sub(w, tm);
    let a1p = frac_sub(ws2, tm);
    lemma_sub_fits(a1, a1p, wm1d, wm1d);
    lemma_sub_cong(a1, a1p, wm1d, wm1d);
    lemma_den_prod_le(a1, a1p, wm1d, wm1d);
    let a2 = frac_sub(a1, wm1d);
    let a2p = frac_sub(a1p, wm1d);
    lemma_sub_fits(a2, a2p, led, led);
    lemma_sub_cong(a2, a2p, led, led);
    lemma_den_prod_le(a2, a2p, led, led);
    let a3 = frac_sub(a2, led);
    let a3p = frac_sub(a2p, led);
    lemma_div_fits(a3, a3p, frac_int(2), frac_int(2));
    lemma_div_cong(a3, a3p, frac_int(2), frac_int(2));
    lemma_div_den_le(a3, a3p, frac_int(2), frac_int(2));
    let a4 = right_offset_spec(cfg, w);
    let a4p = right_offset_spec(cfg, ws2);
    lemma_add_fits(m, m, a4, a4p);
    lemma_add_cong(m, m, a4, a4p);
    lemma_den_prod_le(m, m, a4, a4p);
    let a5 = base_x_spec(cfg, w);
    let a5p = base_x_spec(cfg, ws2);
    lemma_sub_fits(h, hs2, tm, tm);
    lemma_sub_cong(h, hs2, tm, tm);
    lemma_den_prod_le(h, hs2, tm, tm);
    let b1 = frac_sub(h, tm);
    let b1p = frac_sub(hs2, tm);
    lemma_div_fits(b1, b1p, hhf, hhf);
    lemma_div_cong(b1, b1p, hhf, hhf);
    lemma_div_den_le(b1, b1p, hhf, hhf);
    let b2 = vert_spacing_spec(cfg, h);
    let b2p = vert_spacing_spec(cfg, hs2);
    lemma_div_fits(b2, b2p, frac_int(2), frac_int(2));
    lemma_div_cong(b2, b2p, frac_int(2), frac_int(2));
    lemma_div_den_le(b2, b2p, frac_int(2), frac_int(2));
    let b3 = frac_div(b2, frac_int(2));
    let b3p = frac_div(b2p, frac_int(2));
    lemma_add_fits(m, m, b3, b3p);
    lemma_add_cong(m, m, b3, b3p);
    lemma_den_prod_le(m, m, b3, b3p);
    let b4 = frac_add(m, b3);
    let b4p = frac_add(m, b3p);
    lemma_sub_fits(b4, b4p, led2, led2);
    lemma_sub_cong(b4, b4p, led2, led2);
    lemma_den_prod_le(b4, b4p, led2, led2);
    let b5 = base_y_spec(cfg, h);
    let b5p = base_y_spec(cfg, hs2);
    let ymh = Frac { n: font.y_max as int, d: 2 };
    lemma_mul_fits(ymh, ymh, sc, scs2);
    lemma_mul_cong(ymh, ymh, sc, scs2);
    lemma_den_prod_le(ymh, ymh, sc, scs2);
    let c1 = frac_mul(ymh, sc);
    let c1p = frac_mul(ymh, scs2);
    assert forall|j: int| 0 <= j < cfg.cols() implies #[trigger] col_fits(cfg, w, j) by {
        assert(col_fits(cfg, ws2, j));
        let jd = frac_mul(frac_int(j), cfg.led_spacing@);
        lemma_add_fits(jd, jd, a5, a5p);
        lemma_add_cong(jd, jd, a5, a5p);
        lemma_den_prod_le(jd, jd, a5, a5p);
        lemma_add_fits(frac_add(jd, a5), frac_add(jd, a5p), led2, led2);
    }
    assert forall|i: int| 0 <= i < cfg.rows() implies #[trigger] row_fits(font, cfg, h, sc, i) by {
        assert(row_fits(font, cfg, hs2, scs2, i));
        let iv = frac_int(i);
        lemma_mul_fits(iv, iv, b2, b2p);
        lemma_mul_cong(iv, iv, b2, b2p);
        lemma_den_prod_le(iv, iv, b2, b2p);
        let r1 = frac_mul(iv, b2);
        let r1p = frac_mul(iv, b2p);
        lemma_add_fits(r1, r1p, b5, b5p);
        lemma_add_cong(r1, r1p, b5, b5p);
        lemma_den_prod_le(r1, r1p, b5, b5p);
        let r2 = frac_add(r1, b5);
        let r2p = frac_add(r1p, b5p);
        lemma_add_fits(r2, r2p, led2, led2);
        lemma_add_cong(r2, r2p, led2, led2);
        lemma_den_prod_le(r2, r2p, led2, led2);
        let r3 = led_y_mid_spec(cfg, h, i);
        let r3p = led_y_mid_spec(cfg, hs2, i);
        lemma_add_fits(r3, r3p, c1, c1p);
    }
    assert forall|i: int, j: int|
        0 <= i < cfg.rows() && 0 <= j < cfg.cols() implies #[trigger] cell_fits(
        font,
        cfg,
        w,
        sc,
        i,
        j,
    ) by {
        assert(cell_fits(font, cfg, ws2, scs2, i, j));
        let bb = font.glyph_at(cfg.grid@[i]@[j]).bbox;
        let mx = Frac { n: bb.x_max + bb.x_min, d: 2 };
        lemma_mul_fits(mx, mx, sc, scs2);
        lemma_mul_cong(mx, mx, sc, scs2);
        lemma_den_prod_le(mx, mx, sc, scs2);
        let jd = frac_mul(frac_int(j), cfg.led_spacing@);
        lemma_add_cong(jd, jd, a5, a5p);
        lemma_den_prod_le(jd, jd, a5, a5p);
        lemma_add_cong(frac_add(jd, a5), frac_add(jd, a5p), led2, led2);
        lemma_den_prod_le(frac_add(jd, a5), frac_add(jd, a5p), led2, led2);
        lemma_sub_fits(
            led_x_mid_spec(cfg, w, j),
            led_x_mid_spec(cfg, ws2, j),
            marker_mid_x_spec(bb, sc),
            marker_mid_x_spec(bb, scs2),
        );
    }
}

/// Law: fitting at the solver's own spec-level dimensions is enough for
/// the whole composition, whatever representation of those dimensions the
/// solver hands over.
pub proof fn lemma_compose_fits_from_spec(font: FontAnalysis, cfg: Config)
    requires
        cfg.wf(),
        cfg.rows() > 1,
        ({
            let y = font.y_max as int;
            let avg = font.glyph_width_avg@;
            let d = cfg.led_spacing@;
            let m = cfg.margin@;
            let hh = cfg.rows();
            let ww = cfg.cols();
            &&& frac_wf(width_spec(y, avg, d, m, hh, ww))
            &&& frac_wf(height_spec(y, avg, d, m, hh, ww))
            &&& frac_wf(scale_spec(y, avg, d, hh, ww))
            &&& holes_fits(cfg, width_spec(y, avg, d, m, hh, ww), height_spec(y, avg, d, m, hh, ww))
            &&& minutes_fits(
                cfg,
                width_spec(y, avg, d, m, hh, ww),
                height_spec(y, avg, d, m, hh, ww),
                scale_spec(y, avg, d, hh, ww),
                font.glyph_at(FLOWER).bbox,
            )
            &&& grid_fits(
                font,
                cfg,
                width_spec(y, avg, d, m, hh, ww),
                height_spec(y, avg, d, m, hh, ww),
                scale_spec(y, avg, d, hh, ww),
            )
        }),
    ensures
        compose_fits(font, cfg),
{
    let y = font.y_max as int;
    let avg = font.glyph_width_avg@;
    let d = cfg.led_spacing@;
    let m = cfg.margin@;
    let hh = cfg.rows();
    let ww = cfg.cols();
    let ws = width_spec(y, avg, d, m, hh, ww);
    let hs = height_spec(y, avg, d, m, hh, ww);
    let scs = scale_spec(y, avg, d, hh, ww);
    assert forall|w2: Frac, h2: Frac, sc2: Frac|
        (frac_wf(w2) && frac_wf(h2) && frac_wf(sc2) && frac_eq(w2, ws) && frac_eq(h2, hs)
            && frac_eq(sc2, scs) && w2.d <= ws.d && h2.d <= hs.d && sc2.d
            <= scs.d) implies #[trigger] compose_fits_at(font, cfg, w2, h2, sc2) by {
        lemma_holes_fits_transport(cfg, w2, ws, h2, hs);
        lemma_minutes_fits_transport(cfg, w2, ws, h2, hs, sc2, scs, font.glyph_at(FLOWER).bbox);
        lemma_grid_fits_transport(font, cfg, w2, ws, h2, hs, sc2, scs);
    }
}

/// The finished design: scale, ordered shape list, document dimensions.
#[derive(Debug)]
pub struct Cover {
    /// Scale from font design units to document units.
    pub scale: Rat,
    /// The ordered shape list: four holes, four markers, then the letter
    /// grid row-major.
    pub shapes: Vec<Shape>,
    /// Document width.
    pub width: Rat,
    /// Document height.
    pub height: Rat,
}

impl Cover {
    pub open spec fn inv(&self) -> bool {
        &&& self.scale.inv()
        &&& self.width.inv()
        &&& self.height.inv()
        &&& shapes_inv(self.shapes@)
    }

    /// Composes the cover: checks that every needed glyph was extracted
    /// (a missing character always surfaces as `MissingGlyph`), solves the
    /// layout, and emits the shape list in its fixed order (four corner
    /// holes, four edge markers, then the grid row-major).
    pub fn new(font: FontAnalysis, cfg: Config) -> (r: Result<Cover, Error>)
        requires
            font.wf(),
            cfg.wf(),
        ensures
            ({
                let y = font.y_max as int;
                let avg = font.glyph_width_avg@;
                let d = cfg.led_spacing@;
                let m = cfg.margin@;
                let hh = cfg.rows();
                let ww = cfg.cols();
                &&& (!font.has_glyph(FLOWER) ==> r == Err::<Cover, Error>(
                    Error::MissingGlyph(FLOWER),
                ))
                &&& (font.has_glyph(FLOWER) && !grid_covered(font, cfg) ==> r is Err
                    && r->Err_0 is MissingGlyph)
                &&& ((r is Err && r->Err_0 is MissingGlyph) ==> {
                    let c = r->Err_0->MissingGlyph_0;
                    &&& !font.has_glyph(c)
                    &&& (c == FLOWER || exists|i: int, j: int|
                        0 <= i < hh && 0 <= j < ww && (#[trigger] cfg.grid@[i]@[j]) == c)
                })
                &&& (font.has_glyph(FLOWER) && grid_covered(font, cfg) && solver_ill_posed(
                    y,
                    avg,
                    hh,
                    ww,
                ) ==> r == Err::<Cover, Error>(Error::DegenerateLayout))
                &&& (r == Err::<Cover, Error>(Error::DegenerateLayout) ==> solver_ill_posed(
                    y,
                    avg,
                    hh,
                    ww,
                ) || layout_nonpositive(y, avg, d, hh, ww))
                &&& (r == Err::<Cover, Error>(Error::ArithmeticOverflow) ==> font.has_glyph(FLOWER)
                    && grid_covered(font, cfg) && !solver_ill_posed(y, avg, hh, ww))
                &&& (r is Err ==> (r->Err_0 is DegenerateLayout || r->Err_0 is ArithmeticOverflow
                    || r->Err_0 is MissingGlyph))
                &&& (font.has_glyph(FLOWER) && grid_covered(font, cfg) && !solver_ill_posed(
                    y,
                    avg,
                    hh,
                    ww,
                ) && !layout_nonpositive(y, avg, d, hh, ww) && solver_fits(y, avg, d, m, hh, ww)
                    && compose_fits(font, cfg) ==> r is Ok)
                &&& (r is Ok ==> {
                    let cv = r->Ok_0;
                    let w = cv.width@;
                    let h = cv.height@;
                    let sc = cv.scale@;
                    let g = font.glyph_at(FLOWER);
                    &&& cv.inv()
                    &&& !solver_ill_posed(y, avg, hh, ww)
                    &&& !layout_nonpositive(y, avg, d, hh, ww)
                    &&& font.has_glyph(FLOWER)
                    &&& grid_covered(font, cfg)
                    &&& frac_eq(w, width_spec(y, avg, d, m, hh, ww))
                    &&& frac_eq(h, height_spec(y, avg, d, m, hh, ww))
                    &&& frac_eq(sc, scale_spec(y, avg, d, hh, ww))
                    &&& frac_eq(w, h)
                    &&& cv.shapes@.len() == 8 + hh * ww
                    &&& is_hole_at(cv.shapes@[0], cfg, hole_x_left_spec(cfg), hole_y_top_spec(cfg))
                    &&& is_hole_at(
                        cv.shapes@[1],
                        cfg,
                        hole_x_right_spec(cfg, w),
                        hole_y_top_spec(cfg),
                    )
                    &&& is_hole_at(
                        cv.shapes@[2],
                        cfg,
                        hole_x_right_spec(cfg, w),
                        hole_y_bottom_spec(cfg, h),
                    )
                    &&& is_hole_at(
                        cv.shapes@[3],
                        cfg,
                        hole_x_left_spec(cfg),
                        hole_y_bottom_spec(cfg, h),
                    )
                    &&& is_path_at(
                        cv.shapes@[4],
                        g.cmds@,
                        minute_x_mid_spec(w, g.bbox, sc),
                        minute_y_top_spec(cfg, g.bbox, sc),
                    )
                    &&& is_path_at(
                        cv.shapes@[5],
                        g.cmds@,
                        minute_x_right_spec(cfg, w, g.bbox, sc),
                        minute_y_mid_spec(h, g.bbox, sc),
                    )
                    &&& is_path_at(
                        cv.shapes@[6],
                        g.cmds@,
                        minute_x_mid_spec(w, g.bbox, sc),
                        minute_y_bottom_spec(cfg, h, g.bbox, sc),
                    )
                    &&& is_path_at(
                        cv.shapes@[7],
                        g.cmds@,
                        minute_x_left_spec(cfg, g.bbox, sc),
                        minute_y_mid_spec(h, g.bbox, sc),
                    )
                    &&& forall|i: int, j: int|
                        0 <= i < hh && 0 <= j < ww ==> grid_cell_ok(
                            font,
                            cfg,
                            w,
                            h,
                            sc,
                            #[trigger] cv.shapes@[8 + i * ww + j],
                            i,
                            j,
                        )
                })
            }),
    {
        // Every glyph the composition needs must have been extracted;
        // this is checked before anything else, so a missing character
        // always surfaces as MissingGlyph and can never produce a blank
        // shape.
        match font.get(crate::font::FLOWER) {
            Some(_) => {},
            None => {
                return Err(Error::MissingGlyph(crate::font::FLOWER));
            },
        }
        let rows = cfg.grid.len();
        if rows > 0 {
            let cols = cfg.grid[0].len();
            let mut i: usize = 0;
            while i < rows
                invariant
                    font.wf(),
                    cfg.wf(),
                    rows == cfg.rows(),
                    rows > 0,
                    cols == cfg.cols(),
                    i <= rows,
                    font.has_glyph(FLOWER),
                    forall|a: int, b: int|
                        0 <= a < i && 0 <= b < cols ==> #[trigger] font.has_glyph(cfg.grid@[a]@[b]),
                decreases rows - i,
            {
                let mut j: usize = 0;
                while j < cols
                    invariant
                        font.wf(),
                        cfg.wf(),
                        rows == cfg.rows(),
                        rows > 0,
                        cols == cfg.cols(),
                        i < rows,
                        j <= cols,
                        font.has_glyph(FLOWER),
                        forall|a: int, b: int|
                            0 <= a < i && 0 <= b < cols ==> #[trigger] font.has_glyph(
                                cfg.grid@[a]@[b],
                            ),
                        forall|b: int|
                            0 <= b < j ==> #[trigger] font.has_glyph(cfg.grid@[i as int]@[b]),
                    decreases cols - j,
                {
                    let ch = cfg.grid[i][j];
                    match font.get(ch) {
                        Some(_) => {},
                        None => {
                            proof {
                                assert(!font.has_glyph(cfg.grid@[i as int]@[j as int]));
                                assert(!grid_covered(font, cfg));
                            }
                            return Err(Error::MissingGlyph(ch));
                        },
                    }
                    j = j + 1;
                }
                i = i + 1;
            }
        }
        proof {
            assert(grid_covered(font, cfg));
        }
        let ghost premise = font.has_glyph(FLOWER) && grid_covered(font, cfg)
            && !solver_ill_posed(
            font.y_max as int,
            font.glyph_width_avg@,
            cfg.rows(),
            cfg.cols(),
        ) && !layout_nonpositive(
            font.y_max as int,
            font.glyph_width_avg@,
            cfg.led_spacing@,
            cfg.rows(),
            cfg.cols(),
        ) && solver_fits(
            font.y_max as int,
            font.glyph_width_avg@,
            cfg.led_spacing@,
            cfg.margin@,
            cfg.rows(),
            cfg.cols(),
        ) && compose_fits(font, cfg);
        let sizes = match Sizes::compute(&font, &cfg) {
            Ok(s) => s,
            Err(e) => {
                proof {
                    if premise {
                        assert(false);
                    }
                }
                return Err(e);
            },
        };
        proof {
            if premise {
                let y2 = font.y_max as int;
                let avg2 = font.glyph_width_avg@;
                let d2 = cfg.led_spacing@;
                let m2 = cfg.margin@;
                let hh2 = cfg.rows();
                let ww2 = cfg.cols();
                assert(frac_eq(sizes.width@, width_spec(y2, avg2, d2, m2, hh2, ww2))
                    && sizes.width@.d <= width_spec(y2, avg2, d2, m2, hh2, ww2).d);
                assert(frac_eq(sizes.height@, height_spec(y2, avg2, d2, m2, hh2, ww2))
                    && sizes.height@.d <= height_spec(y2, avg2, d2, m2, hh2, ww2).d);
                assert(frac_eq(sizes.scale@, scale_spec(y2, avg2, d2, hh2, ww2))
                    && sizes.scale@.d <= scale_spec(y2, avg2, d2, hh2, ww2).d);
                assert(compose_fits_at(font, cfg, sizes.width@, sizes.height@, sizes.scale@));
                assert(grid_fits(font, cfg, sizes.width@, sizes.height@, sizes.scale@));
                assert(holes_fits(cfg, sizes.width@, sizes.height@));
                assert(minutes_fits(
                    cfg,
                    sizes.width@,
                    sizes.height@,
                    sizes.scale@,
                    font.glyph_at(FLOWER).bbox,
                ));
            }
        }
        let mut shapes = match generate_holes(&cfg, &sizes) {
            Ok(v) => v,
            Err(e) => {
                proof {
                    if premise {
                        assert(false);
                    }
                }
                return Err(e);
            },
        };
        let mut minutes = match generate_minutes(&font, &cfg, &sizes) {
            Ok(v) => v,
            Err(e) => {
                proof {
                    if premise {
                        assert(false);
                    }
                }
                return Err(e);
            },
        };
        let mut grid = match generate_grid(&font, &cfg, &sizes) {
            Ok(v) => v,
            Err(e) => {
                proof {
                    if premise {
                        assert(false);
                    }
                }
                return Err(e);
            },
        };
        let ghost holes_g = shapes@;
        let ghost minutes_g = minutes@;
        let ghost grid_g = grid@;
        shapes.append(&mut minutes);
        shapes.append(&mut grid);
        proof {
            assert(shapes@ == holes_g + minutes_g + grid_g);
            let ghost hh = cfg.rows();
            let ghost ww = cfg.cols();
            assert forall|i2: int, j2: int| 0 <= i2 < hh && 0 <= j2 < ww implies grid_cell_ok(
                font,
                cfg,
                sizes.width@,
                sizes.height@,
                sizes.scale@,
                #[trigger] shapes@[8 + i2 * ww + j2],
                i2,
                j2,
            ) by {
                assert(0 <= i2 * ww + j2 < hh * ww) by (nonlinear_arith)
                    requires
                        0 <= i2 < hh,
                        0 <= j2 < ww,
                ;
                assert(shapes@[8 + i2 * ww + j2] == grid_g[i2 * ww + j2]);
            }
            assert(shapes_inv(shapes@));
        }
        Ok(Cover { scale: sizes.scale, shapes, width: sizes.width, height: sizes.height })
    }
}

} // verus!
