//! Font analysis: glyph outlines, bounding boxes and aggregate metrics.
//!
//! The caller walks the font file with an outline parser and hands every
//! extracted glyph over as a [`RawGlyph`]: a character, its typed outline
//! commands and its bounding box in font design units.  Everything after
//! that — the choice of the analysis set, the aggregation of `y_max` and of
//! the average glyph width, and the character-to-glyph map — is verified
//! here.

use vstd::prelude::*;

verus! {

use crate::rat::{Frac, Rat, frac_int};

/// The designated marker glyph drawn on the four panel edges (a minute
/// indicator), excluded from the letter metrics.
pub const FLOWER: char = '\u{2698}';

/// The failure taxonomy of the pipeline.
#[derive(Clone, Copy, Debug, PartialEq, Eq, Structural)]
pub enum Error {
    /// The font binary could not be parsed at all.
    FontParse,
    /// The grid or marker references a character with no extracted glyph.
    MissingGlyph(char),
    /// The layout solver's preconditions do not hold (non-positive aspect
    /// ratio, too small a grid, a zero denominator, or a non-positive
    /// letter size or spacing).
    DegenerateLayout,
    /// An exact rational value fell outside the representable range.
    ArithmeticOverflow,
    /// The caller requested an output kind that no exporter supports.
    UnsupportedOutputFormat,
}

impl Error {
    /// A short description of the error, for reporting.
    pub fn message(&self) -> (r: &'static str)
    {
        match self {
            Error::FontParse => "font face parse error",
            Error::MissingGlyph(_) => "grid character has no glyph in the font",
            Error::DegenerateLayout => "layout solver preconditions violated",
            Error::ArithmeticOverflow => "value outside the representable range",
            Error::UnsupportedOutputFormat => "unsupported output format",
        }
    }
}

/// Axis-aligned bounding box of a glyph outline, in font design units.
#[derive(Clone, Copy, Debug, PartialEq, Eq, Structural)]
pub struct BoundingBox {
    pub x_min: i16,
    pub y_min: i16,
    pub x_max: i16,
    pub y_max: i16,
}

/// One typed drawing command of a glyph outline, with control points in
/// font design units.
#[derive(Clone, Copy, Debug, PartialEq, Eq, Structural)]
pub enum PathCmd {
    MoveTo { x: Rat, y: Rat },
    LineTo { x: Rat, y: Rat },
    QuadTo { x1: Rat, y1: Rat, x: Rat, y: Rat },
    CurveTo { x1: Rat, y1: Rat, x2: Rat, y2: Rat, x: Rat, y: Rat },
    Close,
}

/// All coordinates of the command satisfy the rational invariant.
pub open spec fn cmd_inv(c: PathCmd) -> bool {
    match c {
        PathCmd::MoveTo { x, y } => x.inv() && y.inv(),
        PathCmd::LineTo { x, y } => x.inv() && y.inv(),
        PathCmd::QuadTo { x1, y1, x, y } => x1.inv() && y1.inv() && x.inv() && y.inv(),
        PathCmd::CurveTo { x1, y1, x2, y2, x, y } => x1.inv() && y1.inv() && x2.inv() && y2.inv()
            && x.inv() && y.inv(),
        PathCmd::Close => true,
    }
}

pub open spec fn cmds_inv(s: Seq<PathCmd>) -> bool {
    forall|i: int| 0 <= i < s.len() ==> cmd_inv(#[trigger] s[i])
}

/// Copies an outline command sequence.
pub fn copy_cmds(v: &Vec<PathCmd>) -> (r: Vec<PathCmd>)
    ensures
        r@ == v@,
{
    let mut r: Vec<PathCmd> = Vec::new();
    let mut i: usize = 0;
    while i < v.len()
        invariant
            i <= v.len(),
            r@ == v@.take(i as int),
        decreases v.len() - i,
    {
        r.push(v[i]);
        proof {
            assert(r@ =~= v@.take(i as int + 1));
        }
        i = i + 1;
    }
    proof {
        assert(r@ =~= v@);
    }
    r
}

/// The outline and bounding box associated with one character.
#[derive(Debug)]
pub struct Glyph {
    /// Typed outline commands.
    pub cmds: Vec<PathCmd>,
    /// Bounding box of the outline.
    pub bbox: BoundingBox,
}

pub open spec fn glyph_inv(g: Glyph) -> bool {
    cmds_inv(g.cmds@) && g.cmds@.len() <= 0x100000
}

/// One extracted glyph as the outline parser hands it over.
#[derive(Debug)]
pub struct RawGlyph {
    /// The character the glyph renders.
    pub ch: char,
    /// Typed outline commands.
    pub cmds: Vec<PathCmd>,
    /// Bounding box of the outline; all zero when the glyph has no outline.
    pub bbox: BoundingBox,
}

pub open spec fn raw_glyph_inv(g: RawGlyph) -> bool {
    cmds_inv(g.cmds@) && g.cmds@.len() <= 0x100000
}

/// Accumulates the typed outline commands of one glyph.  The outline
/// parser's callbacks forward each segment here.
pub struct Builder {
    cmds: Vec<PathCmd>,
}

impl View for Builder {
    type V = Seq<PathCmd>;

    closed spec fn view(&self) -> Seq<PathCmd> {
        self.cmds@
    }
}

impl Builder {
    pub open spec fn inv(&self) -> bool {
        cmds_inv(self@)
    }

    /// An empty outline.
    pub fn new() -> (r: Builder)
        ensures
            r.inv(),
            r@ == Seq::<PathCmd>::empty(),
    {
        let r = Builder { cmds: Vec::new() };
        proof {
            assert(r@ =~= Seq::<PathCmd>::empty());
        }
        r
    }

    /// Starts a new contour at `(x, y)`.
    pub fn move_to(&mut self, x: Rat, y: Rat)
        requires
            old(self).inv(),
            x.inv(),
            y.inv(),
        ensures
            final(self).inv(),
            final(self)@ == old(self)@.push(PathCmd::MoveTo { x, y }),
    {
        self.cmds.push(PathCmd::MoveTo { x, y });
    }

    /// Draws a straight segment to `(x, y)`.
    pub fn line_to(&mut self, x: Rat, y: Rat)
        requires
            old(self).inv(),
            x.inv(),
            y.inv(),
        ensures
            final(self).inv(),
            final(self)@ == old(self)@.push(PathCmd::LineTo { x, y }),
    {
        self.cmds.push(PathCmd::LineTo { x, y });
    }

    /// Draws a quadratic curve with control point `(x1, y1)` to `(x, y)`.
    pub fn quad_to(&mut self, x1: Rat, y1: Rat, x: Rat, y: Rat)
        requires
            old(self).inv(),
            x1.inv(),
            y1.inv(),
            x.inv(),
            y.inv(),
        ensures
            final(self).inv(),
            final(self)@ == old(self)@.push(PathCmd::QuadTo { x1, y1, x, y }),
    {
        self.cmds.push(PathCmd::QuadTo { x1, y1, x, y });
    }

    /// Draws a cubic curve with control points `(x1, y1)`, `(x2, y2)` to
    /// `(x, y)`.
    pub fn curve_to(&mut self, x1: Rat, y1: Rat, x2: Rat, y2: Rat, x: Rat, y: Rat)
        requires
            old(self).inv(),
            x1.inv(),
            y1.inv(),
            x2.inv(),
            y2.inv(),
            x.inv(),
            y.inv(),
        ensures
            final(self).inv(),
            final(self)@ == old(self)@.push(PathCmd::CurveTo { x1, y1, x2, y2, x, y }),
    {
        self.cmds.push(PathCmd::CurveTo { x1, y1, x2, y2, x, y });
    }

    /// Closes the current contour.
    pub fn close(&mut self)
        requires
            old(self).inv(),
        ensures
            final(self).inv(),
            final(self)@ == old(self)@.push(PathCmd::Close),
    {
        self.cmds.push(PathCmd::Close);
    }

    /// Hands the accumulated outline out.
    pub fn finish(self) -> (r: Vec<PathCmd>)
        ensures
            r@ == self@,
    {
        self.cmds
    }
}

/// Sum of the bounding-box widths of the letter records (the marker glyph
/// does not count).
pub open spec fn width_sum(rs: Seq<RawGlyph>) -> int
    decreases rs.len(),
{
    if rs.len() == 0 {
        0
    } else {
        width_sum(rs.drop_last()) + if rs.last().ch != FLOWER {
            rs.last().bbox.x_max - rs.last().bbox.x_min
        } else {
            0
        }
    }
}

/// How many of the records are letter records.
pub open spec fn letter_count(rs: Seq<RawGlyph>) -> int
    decreases rs.len(),
{
    if rs.len() == 0 {
        0
    } else {
        letter_count(rs.drop_last()) + if rs.last().ch != FLOWER {
            1int
        } else {
            0int
        }
    }
}

/// The largest bounding-box top among the letter records, starting from
/// `i16::MIN` like a running maximum.
pub open spec fn max_y(rs: Seq<RawGlyph>) -> int
    decreases rs.len(),
{
    if rs.len() == 0 {
        i16::MIN as int
    } else {
        let rest = max_y(rs.drop_last());
        if rs.last().ch != FLOWER && rs.last().bbox.y_max > rest {
            rs.last().bbox.y_max as int
        } else {
            rest
        }
    }
}

/// The records carry pairwise distinct characters.
pub open spec fn distinct_chars(rs: Seq<RawGlyph>) -> bool {
    forall|i: int, j: int|
        0 <= i < j < rs.len() ==> (#[trigger] rs[i].ch) != (#[trigger] rs[j].ch)
}

/// Aggregate font metrics and the character-to-glyph map.
#[derive(Debug)]
pub struct FontAnalysis {
    /// Descender, in font design units.
    pub descender: i16,
    /// Ascender, in font design units.
    pub ascender: i16,
    /// Maximum bounding-box top across the analyzed letters.
    pub y_max: i16,
    /// Mean bounding-box width across the analyzed letters.
    pub glyph_width_avg: Rat,
    /// The glyphs, keyed by character; keys are pairwise distinct.
    pub glyphs: Vec<(char, Glyph)>,
}

impl FontAnalysis {
    /// Well-formedness: distinct keys, well-formed outlines, and an average
    /// width whose representation stays within the bounds a mean of at most
    /// 1024 bounding-box widths of 16-bit extent can reach.
    pub open spec fn wf(&self) -> bool {
        &&& self.glyph_width_avg.inv()
        &&& -0x8000000 <= self.glyph_width_avg@.n <= 0x8000000
        &&& 0 < self.glyph_width_avg@.d <= 0x400
        &&& forall|i: int, j: int|
            0 <= i < j < self.glyphs@.len() ==> (#[trigger] self.glyphs@[i].0) != (
            #[trigger] self.glyphs@[j].0)
        &&& forall|i: int| 0 <= i < self.glyphs@.len() ==> glyph_inv(#[trigger] self.glyphs@[i].1)
    }

    /// Whether a glyph was extracted for `c`.
    pub open spec fn has_glyph(&self, c: char) -> bool {
        exists|i: int| 0 <= i < self.glyphs@.len() && (#[trigger] self.glyphs@[i].0) == c
    }

    /// The glyph extracted for `c` (meaningful when `has_glyph(c)`).
    pub open spec fn glyph_at(&self, c: char) -> Glyph {
        self.glyphs@[choose|i: int| 0 <= i < self.glyphs@.len() && (#[trigger] self.glyphs@[i].0)
            == c].1
    }

    /// Looks the character up in the glyph map.
    pub fn get(&self, c: char) -> (r: Option<&Glyph>)
        requires
            self.wf(),
        ensures
            r is Some <==> self.has_glyph(c),
            r is Some ==> *r->Some_0 == self.glyph_at(c),
    {
        let n = self.glyphs.len();
        let mut i: usize = 0;
        while i < n
            invariant
                n == self.glyphs@.len(),
                i <= n,
                self.wf(),
                forall|j: int| 0 <= j < i ==> (#[trigger] self.glyphs@[j].0) != c,
            decreases n - i,
        {
            if self.glyphs[i].0 == c {
                return Some(&self.glyphs[i].1);
            }
            i = i + 1;
        }
        None
    }

    /// Builds the metrics from the extracted glyph records.  Letters (every
    /// record but the marker glyph) contribute to `y_max` and to the average
    /// width; the marker glyph only enters the map.  With no letter record
    /// at all the average is zero, and the layout solver later rejects the
    /// degenerate aspect ratio.
    pub fn analyze(records: Vec<RawGlyph>, ascender: i16, descender: i16) -> (r: FontAnalysis)
        requires
            distinct_chars(records@),
            forall|i: int| 0 <= i < records@.len() ==> raw_glyph_inv(#[trigger] records@[i]),
            records@.len() <= 0x400,
        ensures
            r.wf(),
            r.ascender == ascender,
            r.descender == descender,
            r.y_max as int == max_y(records@),
            letter_count(records@) == 0 ==> r.glyph_width_avg@ == frac_int(0),
            letter_count(records@) > 0 ==> r.glyph_width_avg@ == (Frac {
                n: width_sum(records@),
                d: letter_count(records@),
            }),
            r.glyphs@.len() == records@.len(),
            forall|i: int|
                0 <= i < records@.len() ==> (#[trigger] r.glyphs@[i]).0 == records@[i].ch
                    && r.glyphs@[i].1.cmds@ == records@[i].cmds@ && r.glyphs@[i].1.bbox
                    == records@[i].bbox,
    {
        let n = records.len();
        let mut y_max: i16 = i16::MIN;
        let mut sum: i64 = 0;
        let mut count: i64 = 0;
        let mut glyphs: Vec<(char, Glyph)> = Vec::new();
        let mut i: usize = 0;
        while i < n
            invariant
                n == records@.len(),
                n <= 0x400,
                i <= n,
                distinct_chars(records@),
                forall|k: int| 0 <= k < records@.len() ==> raw_glyph_inv(#[trigger] records@[k]),
                y_max as int == max_y(records@.take(i as int)),
                sum as int == width_sum(records@.take(i as int)),
                count as int == letter_count(records@.take(i as int)),
                0 <= count <= i,
                -0x20000 * (i as int) <= sum as int <= 0x20000 * (i as int),
                glyphs@.len() == i,
                forall|j: int|
                    0 <= j < i ==> (#[trigger] glyphs@[j]).0 == records@[j].ch && glyphs@[j].1.cmds@
                        == records@[j].cmds@ && glyphs@[j].1.bbox == records@[j].bbox,
            decreases n - i,
        {
            proof {
                assert(records@.take(i as int + 1).drop_last() =~= records@.take(i as int));
                assert(records@.take(i as int + 1).last() == records@[i as int]);
            }
            let rec = &records[i];
            if rec.ch != FLOWER {
                if rec.bbox.y_max > y_max {
                    y_max = rec.bbox.y_max;
                }
                sum = sum + (rec.bbox.x_max as i64 - rec.bbox.x_min as i64);
                count = count + 1;
            }
            let glyph = Glyph { cmds: copy_cmds(&rec.cmds), bbox: rec.bbox };
            glyphs.push((rec.ch, glyph));
            i = i + 1;
        }
        proof {
            assert(records@.take(n as int) =~= records@);
        }
        let avg = if count == 0 {
            Rat::from_int(0)
        } else {
            Rat::new(sum, count)
        };
        FontAnalysis { descender, ascender, y_max, glyph_width_avg: avg, glyphs }
    }
}

/// The fixed analysis set: the uppercase Latin letters, the hyphen, and
/// the marker glyph, in this order.
pub open spec fn analysis_chars_spec() -> Seq<char> {
    seq![
        'A',
        'B',
        'C',
        'D',
        'E',
        'F',
        'G',
        'H',
        'I',
        'J',
        'K',
        'L',
        'M',
        'N',
        'O',
        'P',
        'Q',
        'R',
        'S',
        'T',
        'U',
        'V',
        'W',
        'X',
        'Y',
        'Z',
        '-',
        FLOWER,
    ]
}

/// The characters the extractor looks up in the font.
pub fn analysis_chars() -> (r: Vec<char>)
    ensures
        r@ == analysis_chars_spec(),
{
    let mut v: Vec<char> = Vec::new();
    v.push('A');
    v.push('B');
    v.push('C');
    v.push('D');
    v.push('E');
    v.push('F');
    v.push('G');
    v.push('H');
    v.push('I');
    v.push('J');
    v.push('K');
    v.push('L');
    v.push('M');
    v.push('N');
    v.push('O');
    v.push('P');
    v.push('Q');
    v.push('R');
    v.push('S');
    v.push('T');
    v.push('U');
    v.push('V');
    v.push('W');
    v.push('X');
    v.push('Y');
    v.push('Z');
    v.push('-');
    v.push(FLOWER);
    proof {
        assert(v@ =~= analysis_chars_spec());
    }
    v
}

/// A glyph found in a well-formed map has a well-formed outline.
pub proof fn lemma_glyph_at_inv(font: FontAnalysis, c: char)
    requires
        font.wf(),
        font.has_glyph(c),
    ensures
        glyph_inv(font.glyph_at(c)),
{
    let i = choose|i: int| 0 <= i < font.glyphs@.len() && (#[trigger] font.glyphs@[i].0) == c;
    assert(glyph_inv(font.glyphs@[i].1));
}

/// Builds the metrics from the extracted glyph records.
pub fn analyze_font(records: Vec<RawGlyph>, ascender: i16, descender: i16) -> (r: FontAnalysis)
    requires
        distinct_chars(records@),
        forall|i: int| 0 <= i < records@.len() ==> raw_glyph_inv(#[trigger] records@[i]),
        records@.len() <= 0x400,
    ensures
        r.wf(),
        r.ascender == ascender,
        r.descender == descender,
        r.y_max as int == max_y(records@),
        letter_count(records@) == 0 ==> r.glyph_width_avg@ == frac_int(0),
        letter_count(records@) > 0 ==> r.glyph_width_avg@ == (Frac {
            n: width_sum(records@),
            d: letter_count(records@),
        }),
        r.glyphs@.len() == records@.len(),
        forall|i: int|
            0 <= i < records@.len() ==> (#[trigger] r.glyphs@[i]).0 == records@[i].ch
                && r.glyphs@[i].1.cmds@ == records@[i].cmds@ && r.glyphs@[i].1.bbox
                == records@[i].bbox,
{
    FontAnalysis::analyze(records, ascender, descender)
}

} // verus!
