//! DXF export: the manual-transform backend.
//!
//! The target format has no transformable curved path primitive, so every
//! outline control point is pre-transformed by hand (scale, vertical flip,
//! translation to the anchor) and each accumulated point run is flushed as
//! one cubic spline entity with a uniform knot vector of length `n + 4`
//! for `n` control points.  Quadratic control points are appended to the
//! run as they stand (the curve is approximated by its control polygon), a
//! known fidelity limitation of this backend.  Circles become native
//! circle entities with their centers flipped into the same frame, and
//! one boundary rectangle spans the document, since the format has no
//! implicit page.

use vstd::prelude::*;

verus! {

use vstd::seq_lib::lemma_concat_associative;
use vstd::string::StringExecFns;
use crate::cover::{shape_inv, Circle, Cover, Path, Shape};
use crate::font::{cmd_inv, cmds_inv, Error, PathCmd};
use crate::numfmt::{append_rat, append_u64, append_usize, dec_digits, lemma_rat_text_eq, rat_text};
use crate::rat::{
    frac_add,
    frac_eq,
    frac_fits,
    frac_int,
    frac_mul,
    frac_sub,
    frac_wf,
    lemma_add_cong,
    lemma_add_fits,
    lemma_frac_eq_trans,
    Frac,
    Rat,
};

broadcast use crate::rat::group_frac_wf;

/// The header section: millimeter units, extents and limits set to the
/// document size.
pub open spec fn header_text(w: Frac, h: Frac) -> Seq<char> {
    "0\nSECTION\n2\nHEADER\n9\n$INSUNITS\n70\n4\n9\n$EXTMIN\n10\n0.0\n20\n0.0\n30\n0.0\n9\n$EXTMAX\n10\n"@
        + rat_text(w) + "\n20\n"@ + rat_text(h)
        + "\n30\n0.0\n9\n$LIMMIN\n10\n0.0\n20\n0.0\n9\n$LIMMAX\n10\n"@ + rat_text(w) + "\n20\n"@
        + rat_text(h) + "\n0\nENDSEC\n"@
}

/// The tables section: one default continuous layer.
pub open spec fn tables_text() -> Seq<char> {
    "0\nSECTION\n2\nTABLES\n0\nTABLE\n2\nLAYER\n70\n1\n0\nLAYER\n2\n0\n70\n0\n62\n7\n6\nCONTINUOUS\n0\nENDTAB\n0\nENDSEC\n"@
}

pub open spec fn entities_start_text() -> Seq<char> {
    "0\nSECTION\n2\nENTITIES\n"@
}

pub open spec fn entities_end_text() -> Seq<char> {
    "0\nENDSEC\n"@
}

pub open spec fn footer_text() -> Seq<char> {
    "0\nEOF\n"@
}

/// One line entity.
pub open spec fn line_text(x1: Frac, y1: Frac, x2: Frac, y2: Frac) -> Seq<char> {
    "0\nLINE\n8\n0\n10\n"@ + rat_text(x1) + "\n20\n"@ + rat_text(y1) + "\n30\n0.0\n11\n"@
        + rat_text(x2) + "\n21\n"@ + rat_text(y2) + "\n31\n0.0\n"@
}

/// The document boundary: four lines around `(0, 0)`-`(w, h)`.
pub open spec fn rect_text(w: Frac, h: Frac) -> Seq<char> {
    line_text(frac_int(0), frac_int(0), w, frac_int(0)) + line_text(w, frac_int(0), w, h)
        + line_text(w, h, frac_int(0), h) + line_text(frac_int(0), h, frac_int(0), frac_int(0))
}

/// One circle entity.
pub open spec fn circle_entity_text(cx: Frac, cy: Frac, r: Frac) -> Seq<char> {
    "0\nCIRCLE\n8\n0\n10\n"@ + rat_text(cx) + "\n20\n"@ + rat_text(cy) + "\n30\n0.0\n40\n"@
        + rat_text(r) + "\n"@
}

/// One knot group with value `i`.
pub open spec fn knot_one(i: nat) -> Seq<char> {
    "40\n"@ + dec_digits(i) + "\n"@
}

/// `k` knot groups with values `0 .. k`.
pub open spec fn knots_text(k: nat) -> Seq<char>
    decreases k,
{
    if k == 0 {
        Seq::<char>::empty()
    } else {
        knots_text((k - 1) as nat) + knot_one((k - 1) as nat)
    }
}

/// One control point group.
pub open spec fn ctrl_one(p: (Frac, Frac)) -> Seq<char> {
    "10\n"@ + rat_text(p.0) + "\n20\n"@ + rat_text(p.1) + "\n30\n0.0\n"@
}

/// Control point groups for a whole run.
pub open spec fn ctrl_text(pts: Seq<(Frac, Frac)>) -> Seq<char>
    decreases pts.len(),
{
    if pts.len() == 0 {
        Seq::<char>::empty()
    } else {
        ctrl_text(pts.drop_last()) + ctrl_one(pts.last())
    }
}

/// The fixed head of a spline entity for `n` control points: a closed
/// cubic spline declaring `n + 4` knots and `n` control points.
pub open spec fn spline_head(n: nat) -> Seq<char> {
    "0\nSPLINE\n8\n0\n70\n8\n71\n3\n72\n"@ + dec_digits(n + 4) + "\n73\n"@ + dec_digits(n)
        + "\n74\n0\n"@
}

/// One spline entity for a run of `n` transformed vertices: the head, a
/// uniform knot vector of length `n + 4` (degree three plus `n` plus one),
/// and exactly one control point group per vertex.  An empty run emits
/// nothing.
pub open spec fn spline_text(pts: Seq<(Frac, Frac)>) -> Seq<char> {
    if pts.len() == 0 {
        Seq::<char>::empty()
    } else {
        spline_head(pts.len()) + knots_text(pts.len() + 4) + ctrl_text(pts)
    }
}

/// The views of a run of executable points.
pub open spec fn pts_view(pts: Seq<(Rat, Rat)>) -> Seq<(Frac, Frac)> {
    pts.map_values(|p: (Rat, Rat)| (p.0@, p.1@))
}

/// Equality of two transformed points, as rational values.
pub open spec fn pt_eq(a: (Frac, Frac), b: (Frac, Frac)) -> bool {
    &&& frac_wf(a.0) && frac_wf(a.1) && frac_wf(b.0) && frac_wf(b.1)
    &&& frac_eq(a.0, b.0) && frac_eq(a.1, b.1)
}

/// Pointwise equality of two runs, as rational values.
pub open spec fn pts_eq(a: Seq<(Frac, Frac)>, b: Seq<(Frac, Frac)>) -> bool {
    &&& a.len() == b.len()
    &&& forall|i: int| 0 <= i < a.len() ==> pt_eq(#[trigger] a[i], #[trigger] b[i])
}

/// The transformed image of one font-space point fits the representation.
pub open spec fn pt_fits(sc: Frac, px: Frac, fy: Frac, x: Frac, y: Frac) -> bool {
    &&& frac_fits(frac_mul(sc, x))
    &&& frac_fits(frac_add(frac_mul(sc, x), px))
    &&& frac_fits(frac_mul(sc, y))
    &&& frac_fits(frac_add(frac_mul(sc, y), fy))
}

/// The transformed images of all control points of one command fit.
pub open spec fn cmd_fits(c: PathCmd, sc: Frac, px: Frac, fy: Frac) -> bool {
    match c {
        PathCmd::MoveTo { x, y } => pt_fits(sc, px, fy, x@, y@),
        PathCmd::LineTo { x, y } => pt_fits(sc, px, fy, x@, y@),
        PathCmd::QuadTo { x1, y1, x, y } => pt_fits(sc, px, fy, x1@, y1@) && pt_fits(
            sc,
            px,
            fy,
            x@,
            y@,
        ),
        PathCmd::CurveTo { x1, y1, x2, y2, x, y } => pt_fits(sc, px, fy, x1@, y1@) && pt_fits(
            sc,
            px,
            fy,
            x2@,
            y2@,
        ) && pt_fits(sc, px, fy, x@, y@),
        PathCmd::Close => true,
    }
}

/// Every transformed value of the outline fits the representation.  On
/// such an outline the exporter owes success: it cannot report an
/// overflow that did not happen.
pub open spec fn path_fits(cmds: Seq<PathCmd>, sc: Frac, px: Frac, fy: Frac) -> bool {
    &&& frac_fits(fy)
    &&& forall|i: int| 0 <= i < cmds.len() ==> cmd_fits(#[trigger] cmds[i], sc, px, fy)
}

/// Every transformed value of the shape fits the representation.
pub open spec fn shape_fits(s: Shape, h: Frac, sc: Frac) -> bool {
    match s {
        Shape::Circle(c) => frac_fits(frac_sub(h, c.cy@)),
        Shape::Path(p) => path_fits(p.cmds@, sc, p.x@, frac_sub(h, p.y@)),
    }
}

/// Every transformed value of the whole cover fits the representation.
pub open spec fn cover_fits(cv: Cover) -> bool {
    forall|i: int|
        0 <= i < cv.shapes@.len() ==> shape_fits(#[trigger] cv.shapes@[i], cv.height@, cv.scale@)
}

/// Control point text depends only on the rational values.
proof fn lemma_ctrl_text_eq(a: Seq<(Frac, Frac)>, b: Seq<(Frac, Frac)>)
    requires
        pts_eq(a, b),
    ensures
        ctrl_text(a) == ctrl_text(b),
    decreases a.len(),
{
    if a.len() > 0 {
        let ad = a.drop_last();
        let bd = b.drop_last();
        assert forall|i: int| 0 <= i < ad.len() implies pt_eq(#[trigger] ad[i], #[trigger] bd[i]) by {
            assert(ad[i] == a[i]);
            assert(bd[i] == b[i]);
            assert(pt_eq(a[i], b[i]));
        }
        lemma_ctrl_text_eq(ad, bd);
        assert(a.last() == a[a.len() - 1] && b.last() == b[b.len() - 1]);
        assert(pt_eq(a[a.len() - 1], b[b.len() - 1]));
        lemma_rat_text_eq(a.last().0, b.last().0);
        lemma_rat_text_eq(a.last().1, b.last().1);
    }
}

/// Spline text depends only on the rational values of the run.
proof fn lemma_spline_text_eq(a: Seq<(Frac, Frac)>, b: Seq<(Frac, Frac)>)
    requires
        pts_eq(a, b),
    ensures
        spline_text(a) == spline_text(b),
{
    if a.len() > 0 {
        lemma_ctrl_text_eq(a, b);
    }
}

/// Writes the header section.
pub fn write_dxf_header(s: &mut String, width: &Rat, height: &Rat)
    requires
        width.inv(),
        height.inv(),
    ensures
        final(s)@ == old(s)@ + header_text(width@, height@),
{
    let mut t = String::new();
    t.append(
        "0\nSECTION\n2\nHEADER\n9\n$INSUNITS\n70\n4\n9\n$EXTMIN\n10\n0.0\n20\n0.0\n30\n0.0\n9\n$EXTMAX\n10\n",
    );
    proof {
        assert(Seq::<char>::empty()
            + "0\nSECTION\n2\nHEADER\n9\n$INSUNITS\n70\n4\n9\n$EXTMIN\n10\n0.0\n20\n0.0\n30\n0.0\n9\n$EXTMAX\n10\n"@
            =~= "0\nSECTION\n2\nHEADER\n9\n$INSUNITS\n70\n4\n9\n$EXTMIN\n10\n0.0\n20\n0.0\n30\n0.0\n9\n$EXTMAX\n10\n"@);
    }
    append_rat(&mut t, width);
    t.append("\n20\n");
    append_rat(&mut t, height);
    t.append("\n30\n0.0\n9\n$LIMMIN\n10\n0.0\n20\n0.0\n9\n$LIMMAX\n10\n");
    append_rat(&mut t, width);
    t.append("\n20\n");
    append_rat(&mut t, height);
    t.append("\n0\nENDSEC\n");
    s.append(t.as_str());
}

/// Writes the tables section.
pub fn write_dxf_tables(s: &mut String)
    ensures
        final(s)@ == old(s)@ + tables_text(),
{
    s.append(
        "0\nSECTION\n2\nTABLES\n0\nTABLE\n2\nLAYER\n70\n1\n0\nLAYER\n2\n0\n70\n0\n62\n7\n6\nCONTINUOUS\n0\nENDTAB\n0\nENDSEC\n",
    );
}

/// Opens the entities section.
pub fn write_dxf_entities_start(s: &mut String)
    ensures
        final(s)@ == old(s)@ + entities_start_text(),
{
    s.append("0\nSECTION\n2\nENTITIES\n");
}

/// Closes the entities section.
pub fn write_dxf_entities_end(s: &mut String)
    ensures
        final(s)@ == old(s)@ + entities_end_text(),
{
    s.append("0\nENDSEC\n");
}

/// Writes the end-of-file marker.
pub fn write_dxf_footer(s: &mut String)
    ensures
        final(s)@ == old(s)@ + footer_text(),
{
    s.append("0\nEOF\n");
}

/// Writes one circle entity.
pub fn write_circle(s: &mut String, c: &Circle)
    requires
        c.cx.inv(),
        c.cy.inv(),
        c.r.inv(),
    ensures
        final(s)@ == old(s)@ + circle_entity_text(c.cx@, c.cy@, c.r@),
{
    let mut t = String::new();
    t.append("0\nCIRCLE\n8\n0\n10\n");
    proof {
        assert(Seq::<char>::empty() + "0\nCIRCLE\n8\n0\n10\n"@ =~= "0\nCIRCLE\n8\n0\n10\n"@);
    }
    append_rat(&mut t, &c.cx);
    t.append("\n20\n");
    append_rat(&mut t, &c.cy);
    t.append("\n30\n0.0\n40\n");
    append_rat(&mut t, &c.r);
    t.append("\n");
    s.append(t.as_str());
}

/// Writes one line entity.
pub fn write_line(s: &mut String, x1: &Rat, y1: &Rat, x2: &Rat, y2: &Rat)
    requires
        x1.inv(),
        y1.inv(),
        x2.inv(),
        y2.inv(),
    ensures
        final(s)@ == old(s)@ + line_text(x1@, y1@, x2@, y2@),
{
    let mut t = String::new();
    t.append("0\nLINE\n8\n0\n10\n");
    proof {
        assert(Seq::<char>::empty() + "0\nLINE\n8\n0\n10\n"@ =~= "0\nLINE\n8\n0\n10\n"@);
    }
    append_rat(&mut t, x1);
    t.append("\n20\n");
    append_rat(&mut t, y1);
    t.append("\n30\n0.0\n11\n");
    append_rat(&mut t, x2);
    t.append("\n21\n");
    append_rat(&mut t, y2);
    t.append("\n31\n0.0\n");
    s.append(t.as_str());
}

/// Writes the boundary rectangle as four line entities.
pub fn write_rectangle(s: &mut String, width: &Rat, height: &Rat)
    requires
        width.inv(),
        height.inv(),
    ensures
        final(s)@ == old(s)@ + rect_text(width@, height@),
{
    let zero = Rat::from_int(0);
    write_line(s, &zero, &zero, width, &zero);
    proof {
        lemma_concat_associative(
            old(s)@,
            line_text(frac_int(0), frac_int(0), width@, frac_int(0)),
            line_text(width@, frac_int(0), width@, height@),
        );
    }
    write_line(s, width, &zero, width, height);
    proof {
        lemma_concat_associative(
            old(s)@,
            line_text(frac_int(0), frac_int(0), width@, frac_int(0)) + line_text(
                width@,
                frac_int(0),
                width@,
                height@,
            ),
            line_text(width@, height@, frac_int(0), height@),
        );
    }
    write_line(s, width, height, &zero, height);
    proof {
        lemma_concat_associative(
            old(s)@,
            line_text(frac_int(0), frac_int(0), width@, frac_int(0)) + line_text(
                width@,
                frac_int(0),
                width@,
                height@,
            ) + line_text(width@, height@, frac_int(0), height@),
            line_text(frac_int(0), height@, frac_int(0), frac_int(0)),
        );
    }
    write_line(s, &zero, height, &zero, &zero);
}

/// Renders one knot group.
fn knot_string(i: usize) -> (r: String)
    ensures
        r@ == knot_one(i as nat),
{
    let mut t = String::new();
    t.append("40\n");
    proof {
        assert(Seq::<char>::empty() + "40\n"@ =~= "40\n"@);
    }
    append_usize(&mut t, i);
    t.append("\n");
    t
}

/// Renders one control point group.
fn ctrl_string(p: &(Rat, Rat)) -> (r: String)
    requires
        p.0.inv(),
        p.1.inv(),
    ensures
        r@ == ctrl_one((p.0@, p.1@)),
{
    let mut t = String::new();
    t.append("10\n");
    proof {
        assert(Seq::<char>::empty() + "10\n"@ =~= "10\n"@);
    }
    append_rat(&mut t, &p.0);
    t.append("\n20\n");
    append_rat(&mut t, &p.1);
    t.append("\n30\n0.0\n");
    t
}

/// Writes one spline entity for an accumulated vertex run: `n + 4` knots
/// (degree three, plus the vertex count, plus one) and one control point
/// group per vertex.  An empty run writes nothing.
pub fn write_spline(s: &mut String, pts: &Vec<(Rat, Rat)>)
    requires
        pts@.len() <= 0x10000000,
        forall|i: int|
            0 <= i < pts@.len() ==> (#[trigger] pts@[i]).0.inv() && pts@[i].1.inv(),
    ensures
        final(s)@ == old(s)@ + spline_text(pts_view(pts@)),
{
    let n = pts.len();
    if n == 0 {
        proof {
            assert(old(s)@ + spline_text(pts_view(pts@)) =~= old(s)@);
        }
        return ;
    }
    let mut t = String::new();
    t.append("0\nSPLINE\n8\n0\n70\n8\n71\n3\n72\n");
    proof {
        assert(Seq::<char>::empty() + "0\nSPLINE\n8\n0\n70\n8\n71\n3\n72\n"@
            =~= "0\nSPLINE\n8\n0\n70\n8\n71\n3\n72\n"@);
    }
    append_u64(&mut t, n as u64 + 4);
    t.append("\n73\n");
    append_usize(&mut t, n);
    t.append("\n74\n0\n");
    proof {
        assert(t@ == spline_head(pts_view(pts@).len()));
    }
    s.append(t.as_str());
    let ghost base2 = old(s)@ + spline_head(pts_view(pts@).len());
    let num_knots = n + 4;
    let mut i: usize = 0;
    proof {
        assert(base2 + knots_text(0) =~= base2);
    }
    while i < num_knots
        invariant
            num_knots == n + 4,
            i <= num_knots,
            s@ == base2 + knots_text(i as nat),
        decreases num_knots - i,
    {
        let piece = knot_string(i);
        s.append(piece.as_str());
        proof {
            lemma_concat_associative(base2, knots_text(i as nat), knot_one(i as nat));
        }
        i = i + 1;
    }
    let ghost base3 = base2 + knots_text((n + 4) as nat);
    let mut j: usize = 0;
    proof {
        assert(base3 + ctrl_text(pts_view(pts@).take(0)) =~= base3);
    }
    while j < n
        invariant
            n == pts@.len(),
            j <= n,
            forall|k: int|
                0 <= k < pts@.len() ==> (#[trigger] pts@[k]).0.inv() && pts@[k].1.inv(),
            s@ == base3 + ctrl_text(pts_view(pts@).take(j as int)),
        decreases n - j,
    {
        proof {
            assert(pts_view(pts@).take(j as int + 1).drop_last() =~= pts_view(pts@).take(j as int));
            assert(pts_view(pts@).take(j as int + 1).last() == pts_view(pts@)[j as int]);
        }
        let piece = ctrl_string(&pts[j]);
        s.append(piece.as_str());
        proof {
            lemma_concat_associative(
                base3,
                ctrl_text(pts_view(pts@).take(j as int)),
                ctrl_one(pts_view(pts@)[j as int]),
            );
        }
        j = j + 1;
    }
    proof {
        assert(pts_view(pts@).take(n as int) =~= pts_view(pts@));
        lemma_concat_associative(
            old(s)@,
            spline_head(pts_view(pts@).len()),
            knots_text((n + 4) as nat),
        );
        lemma_concat_associative(
            old(s)@,
            spline_head(pts_view(pts@).len()) + knots_text((n + 4) as nat),
            ctrl_text(pts_view(pts@)),
        );
        assert(final(s)@ == old(s)@ + spline_text(pts_view(pts@)));
    }
}

/// The transformed image of a font-space point: scale, then translate.
/// The vertical flip is folded into `fy`, the translated Y origin.
pub open spec fn tp_spec(sc: Frac, px: Frac, fy: Frac, x: Frac, y: Frac) -> (Frac, Frac) {
    (frac_add(frac_mul(sc, x), px), frac_add(frac_mul(sc, y), fy))
}

/// One step of the outline walk.  Move and line commands append their
/// point to the current run; a quadratic appends its control point and
/// end point; a cubic appends all three of its points; close repeats the
/// run's first point and flushes the run.
pub open spec fn walk_step(
    runs: Seq<Seq<(Frac, Frac)>>,
    cur: Seq<(Frac, Frac)>,
    c: PathCmd,
    sc: Frac,
    px: Frac,
    fy: Frac,
) -> (Seq<Seq<(Frac, Frac)>>, Seq<(Frac, Frac)>) {
    match c {
        PathCmd::MoveTo { x, y } => (runs, cur.push(tp_spec(sc, px, fy, x@, y@))),
        PathCmd::LineTo { x, y } => (runs, cur.push(tp_spec(sc, px, fy, x@, y@))),
        PathCmd::QuadTo { x1, y1, x, y } => (
            runs,
            cur.push(tp_spec(sc, px, fy, x1@, y1@)).push(tp_spec(sc, px, fy, x@, y@)),
        ),
        PathCmd::CurveTo { x1, y1, x2, y2, x, y } => (
            runs,
            cur.push(tp_spec(sc, px, fy, x1@, y1@)).push(tp_spec(sc, px, fy, x2@, y2@)).push(
                tp_spec(sc, px, fy, x@, y@),
            ),
        ),
        PathCmd::Close => (
            runs.push(
                if cur.len() > 0 {
                    cur.push(cur[0])
                } else {
                    cur
                },
            ),
            Seq::<(Frac, Frac)>::empty(),
        ),
    }
}

/// The state after walking a command prefix: completed runs and the
/// current, unflushed run.
pub open spec fn walk(cmds: Seq<PathCmd>, sc: Frac, px: Frac, fy: Frac) -> (
    Seq<Seq<(Frac, Frac)>>,
    Seq<(Frac, Frac)>,
)
    decreases cmds.len(),
{
    if cmds.len() == 0 {
        (Seq::<Seq<(Frac, Frac)>>::empty(), Seq::<(Frac, Frac)>::empty())
    } else {
        let st = walk(cmds.drop_last(), sc, px, fy);
        walk_step(st.0, st.1, cmds.last(), sc, px, fy)
    }
}

/// All runs of an outline: the flushed ones, plus a trailing unflushed run
/// if one is left.
pub open spec fn all_runs(cmds: Seq<PathCmd>, sc: Frac, px: Frac, fy: Frac) -> Seq<
    Seq<(Frac, Frac)>,
> {
    let st = walk(cmds, sc, px, fy);
    if st.1.len() > 0 {
        st.0.push(st.1)
    } else {
        st.0
    }
}

/// One spline entity per run, in order.
pub open spec fn runs_text(rs: Seq<Seq<(Frac, Frac)>>) -> Seq<char>
    decreases rs.len(),
{
    if rs.len() == 0 {
        Seq::<char>::empty()
    } else {
        runs_text(rs.drop_last()) + spline_text(rs.last())
    }
}

/// The entities of one positioned outline.
pub open spec fn path_entities_text(cmds: Seq<PathCmd>, sc: Frac, px: Frac, fy: Frac) -> Seq<
    char,
> {
    runs_text(all_runs(cmds, sc, px, fy))
}

/// The entities of one shape.  Circle centers are carried into the target
/// frame like every path point: the Y axis flips about the document
/// height.
pub open spec fn shape_entities_text(s: Shape, h: Frac, sc: Frac) -> Seq<char> {
    match s {
        Shape::Circle(c) => circle_entity_text(c.cx@, frac_sub(h, c.cy@), c.r@),
        Shape::Path(p) => path_entities_text(p.cmds@, sc, p.x@, frac_sub(h, p.y@)),
    }
}

/// The entities of the whole shape list, in order.
pub open spec fn shapes_entities_text(ss: Seq<Shape>, h: Frac, sc: Frac) -> Seq<char>
    decreases ss.len(),
{
    if ss.len() == 0 {
        Seq::<char>::empty()
    } else {
        shapes_entities_text(ss.drop_last(), h, sc) + shape_entities_text(ss.last(), h, sc)
    }
}

/// The complete DXF document for a cover.
pub open spec fn dxf_text(cv: Cover) -> Seq<char> {
    header_text(cv.width@, cv.height@) + tables_text() + entities_start_text() + rect_text(
        cv.width@,
        cv.height@,
    ) + shapes_entities_text(cv.shapes@, cv.height@, cv.scale@) + entities_end_text()
        + footer_text()
}

/// Every point of the run satisfies the rational invariant.
pub open spec fn run_inv(p: Seq<(Rat, Rat)>) -> bool {
    forall|i: int| 0 <= i < p.len() ==> (#[trigger] p[i]).0.inv() && p[i].1.inv()
}

/// One executable run agrees with one specified run.
pub open spec fn run_match1(x: Vec<(Rat, Rat)>, y: Seq<(Frac, Frac)>) -> bool {
    &&& run_inv(x@)
    &&& x@.len() <= 0x10000000
    &&& pts_eq(pts_view(x@), y)
}

/// The executable runs agree pointwise with the specified runs.
pub open spec fn runs_match(a: Seq<Vec<(Rat, Rat)>>, b: Seq<Seq<(Frac, Frac)>>) -> bool {
    &&& a.len() == b.len()
    &&& forall|i: int| 0 <= i < a.len() ==> run_match1(#[trigger] a[i], #[trigger] b[i])
}

/// Pushing a point commutes with taking views.
proof fn lemma_pts_view_push(s: Seq<(Rat, Rat)>, p: (Rat, Rat))
    ensures
        pts_view(s.push(p)) =~= pts_view(s).push((p.0@, p.1@)),
{
}

/// Pointwise equality extends under push.
proof fn lemma_pts_eq_push(a: Seq<(Frac, Frac)>, b: Seq<(Frac, Frac)>, x: (Frac, Frac), y: (
    Frac,
    Frac,
))
    requires
        pts_eq(a, b),
        pt_eq(x, y),
    ensures
        pts_eq(a.push(x), b.push(y)),
{
    assert forall|i: int| 0 <= i < a.push(x).len() implies pt_eq(
        #[trigger] a.push(x)[i],
        #[trigger] b.push(y)[i],
    ) by {
        if i < a.len() {
            assert(a.push(x)[i] == a[i]);
            assert(b.push(y)[i] == b[i]);
        } else {
            assert(a.push(x)[i] == x);
            assert(b.push(y)[i] == y);
        }
    }
}

/// The run invariant extends under push.
proof fn lemma_run_inv_push(s: Seq<(Rat, Rat)>, p: (Rat, Rat))
    requires
        run_inv(s),
        p.0.inv(),
        p.1.inv(),
    ensures
        run_inv(s.push(p)),
{
    assert forall|i: int| 0 <= i < s.push(p).len() implies (#[trigger] s.push(p)[i]).0.inv()
        && s.push(p)[i].1.inv() by {
        if i < s.len() {
            assert(s.push(p)[i] == s[i]);
        } else {
            assert(s.push(p)[i] == p);
        }
    }
}

/// The runs relation extends under push.
proof fn lemma_runs_match_push(
    a: Seq<Vec<(Rat, Rat)>>,
    b: Seq<Seq<(Frac, Frac)>>,
    x: Vec<(Rat, Rat)>,
    y: Seq<(Frac, Frac)>,
)
    requires
        runs_match(a, b),
        run_inv(x@),
        x@.len() <= 0x10000000,
        pts_eq(pts_view(x@), y),
    ensures
        runs_match(a.push(x), b.push(y)),
{
    assert forall|i: int| 0 <= i < a.push(x).len() implies run_match1(
        #[trigger] a.push(x)[i],
        #[trigger] b.push(y)[i],
    ) by {
        if i < a.len() {
            assert(a.push(x)[i] == a[i]);
            assert(b.push(y)[i] == b[i]);
            assert(run_match1(a[i], b[i]));
        } else {
            assert(a.push(x)[i] == x);
            assert(b.push(y)[i] == y);
        }
    }
}

/// Transforms one font-space point into document space.
fn transform_point(sc: &Rat, px: &Rat, fy: &Rat, x: &Rat, y: &Rat, Ghost(fyf): Ghost<Frac>) -> (r:
    Option<(Rat, Rat)>)
    requires
        sc.inv(),
        px.inv(),
        fy.inv(),
        x.inv(),
        y.inv(),
        frac_wf(fyf),
        frac_eq(fy@, fyf),
        fy@.d <= fyf.d,
    ensures
        r is Some ==> ({
            &&& r->Some_0.0.inv() && r->Some_0.1.inv()
            &&& pt_eq((r->Some_0.0@, r->Some_0.1@), tp_spec(sc@, px@, fyf, x@, y@))
        }),
        pt_fits(sc@, px@, fyf, x@, y@) ==> r is Some,
{
    let xm = match sc.mul(*x) {
        Some(v) => v,
        None => {
            return None;
        },
    };
    let xr = match xm.add(*px) {
        Some(v) => v,
        None => {
            proof {
                if pt_fits(sc@, px@, fyf, x@, y@) {
                    lemma_add_fits(xm@, frac_mul(sc@, x@), px@, px@);
                    assert(false);
                }
            }
            return None;
        },
    };
    let ym = match sc.mul(*y) {
        Some(v) => v,
        None => {
            return None;
        },
    };
    let yr = match ym.add(*fy) {
        Some(v) => v,
        None => {
            proof {
                if pt_fits(sc@, px@, fyf, x@, y@) {
                    lemma_add_fits(ym@, frac_mul(sc@, y@), fy@, fyf);
                    assert(false);
                }
            }
            return None;
        },
    };
    proof {
        lemma_add_cong(xm@, frac_mul(sc@, x@), px@, px@);
        lemma_frac_eq_trans(xr@, frac_add(xm@, px@), frac_add(frac_mul(sc@, x@), px@));
        lemma_add_cong(ym@, frac_mul(sc@, y@), fy@, fyf);
        lemma_frac_eq_trans(yr@, frac_add(ym@, fy@), frac_add(frac_mul(sc@, y@), fyf));
    }
    Some((xr, yr))
}

/// Walks the typed outline commands and collects the transformed point
/// runs the spline entities are built from.
fn collect_polylines(cmds: &Vec<PathCmd>, sc: &Rat, px: &Rat, py: &Rat, h: &Rat) -> (r: Result<
    Vec<Vec<(Rat, Rat)>>,
    Error,
>)
    requires
        cmds_inv(cmds@),
        cmds@.len() <= 0x100000,
        sc.inv(),
        px.inv(),
        py.inv(),
        h.inv(),
    ensures
        r is Err ==> r == Err::<Vec<Vec<(Rat, Rat)>>, Error>(Error::ArithmeticOverflow),
        r is Ok ==> runs_match(r->Ok_0@, all_runs(cmds@, sc@, px@, frac_sub(h@, py@))),
        path_fits(cmds@, sc@, px@, frac_sub(h@, py@)) ==> r is Ok,
{
    let ghost fyf = frac_sub(h@, py@);
    let fy = match h.sub(*py) {
        Some(v) => v,
        None => {
            proof {
                if path_fits(cmds@, sc@, px@, fyf) {
                    assert(false);
                }
            }
            return Err(Error::ArithmeticOverflow);
        },
    };
    proof {
        assert(fy@.d <= fyf.d);
    }
    let n = cmds.len();
    let mut runs: Vec<Vec<(Rat, Rat)>> = Vec::new();
    let mut cur: Vec<(Rat, Rat)> = Vec::new();
    let mut i: usize = 0;
    proof {
        assert(pts_view(cur@) =~= Seq::<(Frac, Frac)>::empty());
    }
    while i < n
        invariant
            n == cmds@.len(),
            n <= 0x100000,
            i <= n,
            cmds_inv(cmds@),
            sc.inv(),
            px.inv(),
            py.inv(),
            h.inv(),
            fy.inv(),
            frac_wf(fyf),
            fyf == frac_sub(h@, py@),
            frac_eq(fy@, fyf),
            fy@.d <= fyf.d,
            run_inv(cur@),
            cur@.len() <= 3 * (i as int),
            pts_eq(pts_view(cur@), walk(cmds@.take(i as int), sc@, px@, fyf).1),
            runs_match(runs@, walk(cmds@.take(i as int), sc@, px@, fyf).0),
        decreases n - i,
    {
        proof {
            assert(cmds@.take(i as int + 1).drop_last() =~= cmds@.take(i as int));
            assert(cmds@.take(i as int + 1).last() == cmds@[i as int]);
            assert(cmd_inv(cmds@[i as int]));
        }
        let ghost st0 = walk(cmds@.take(i as int), sc@, px@, fyf).0;
        let ghost st1 = walk(cmds@.take(i as int), sc@, px@, fyf).1;
        match &cmds[i] {
            PathCmd::MoveTo { x, y } => {
                let p = match transform_point(sc, px, &fy, x, y, Ghost(fyf)) {
                    Some(v) => v,
                    None => {
                        proof {
                            if path_fits(cmds@, sc@, px@, fyf) {
                                assert(cmd_fits(cmds@[i as int], sc@, px@, fyf));
                                assert(false);
                            }
                        }
                        return Err(Error::ArithmeticOverflow);
                    },
                };
                proof {
                    lemma_pts_view_push(cur@, p);
                    lemma_pts_eq_push(
                        pts_view(cur@),
                        st1,
                        (p.0@, p.1@),
                        tp_spec(sc@, px@, fyf, x@, y@),
                    );
                    lemma_run_inv_push(cur@, p);
                }
                cur.push(p);
            },
            PathCmd::LineTo { x, y } => {
                let p = match transform_point(sc, px, &fy, x, y, Ghost(fyf)) {
                    Some(v) => v,
                    None => {
                        proof {
                            if path_fits(cmds@, sc@, px@, fyf) {
                                assert(cmd_fits(cmds@[i as int], sc@, px@, fyf));
                                assert(false);
                            }
                        }
                        return Err(Error::ArithmeticOverflow);
                    },
                };
                proof {
                    lemma_pts_view_push(cur@, p);
                    lemma_pts_eq_push(
                        pts_view(cur@),
                        st1,
                        (p.0@, p.1@),
                        tp_spec(sc@, px@, fyf, x@, y@),
                    );
                    lemma_run_inv_push(cur@, p);
                }
                cur.push(p);
            },
            PathCmd::QuadTo { x1, y1, x, y } => {
                let p1 = match transform_point(sc, px, &fy, x1, y1, Ghost(fyf)) {
                    Some(v) => v,
                    None => {
                        proof {
                            if path_fits(cmds@, sc@, px@, fyf) {
                                assert(cmd_fits(cmds@[i as int], sc@, px@, fyf));
                                assert(false);
                            }
                        }
                        return Err(Error::ArithmeticOverflow);
                    },
                };
                let p2 = match transform_point(sc, px, &fy, x, y, Ghost(fyf)) {
                    Some(v) => v,
                    None => {
                        proof {
                            if path_fits(cmds@, sc@, px@, fyf) {
                                assert(cmd_fits(cmds@[i as int], sc@, px@, fyf));
                                assert(false);
                            }
                        }
                        return Err(Error::ArithmeticOverflow);
                    },
                };
                proof {
                    lemma_pts_view_push(cur@, p1);
                    lemma_pts_eq_push(
                        pts_view(cur@),
                        st1,
                        (p1.0@, p1.1@),
                        tp_spec(sc@, px@, fyf, x1@, y1@),
                    );
                    lemma_pts_view_push(cur@.push(p1), p2);
                    lemma_pts_eq_push(
                        pts_view(cur@.push(p1)),
                        st1.push(tp_spec(sc@, px@, fyf, x1@, y1@)),
                        (p2.0@, p2.1@),
                        tp_spec(sc@, px@, fyf, x@, y@),
                    );
                    lemma_run_inv_push(cur@, p1);
                    lemma_run_inv_push(cur@.push(p1), p2);
                }
                cur.push(p1);
                cur.push(p2);
            },
            PathCmd::CurveTo { x1, y1, x2, y2, x, y } => {
                let p1 = match transform_point(sc, px, &fy, x1, y1, Ghost(fyf)) {
                    Some(v) => v,
                    None => {
                        return Err(Error::ArithmeticOverflow);
                    },
                };
                let p2 = match transform_point(sc, px, &fy, x2, y2, Ghost(fyf)) {
                    Some(v) => v,
                    None => {
                        proof {
                            if path_fits(cmds@, sc@, px@, fyf) {
                                assert(cmd_fits(cmds@[i as int], sc@, px@, fyf));
                                assert(false);
                            }
                        }
                        return Err(Error::ArithmeticOverflow);
                    },
                };
                let p3 = match transform_point(sc, px, &fy, x, y, Ghost(fyf)) {
                    Some(v) => v,
                    None => {
                        proof {
                            if path_fits(cmds@, sc@, px@, fyf) {
                                assert(cmd_fits(cmds@[i as int], sc@, px@, fyf));
                                assert(false);
                            }
                        }
                        return Err(Error::ArithmeticOverflow);
                    },
                };
                proof {
                    lemma_pts_view_push(cur@, p1);
                    lemma_pts_eq_push(
                        pts_view(cur@),
                        st1,
                        (p1.0@, p1.1@),
                        tp_spec(sc@, px@, fyf, x1@, y1@),
                    );
                    lemma_pts_view_push(cur@.push(p1), p2);
                    lemma_pts_eq_push(
                        pts_view(cur@.push(p1)),
                        st1.push(tp_spec(sc@, px@, fyf, x1@, y1@)),
                        (p2.0@, p2.1@),
                        tp_spec(sc@, px@, fyf, x2@, y2@),
                    );
                    lemma_pts_view_push(cur@.push(p1).push(p2), p3);
                    lemma_pts_eq_push(
                        pts_view(cur@.push(p1).push(p2)),
                        st1.push(tp_spec(sc@, px@, fyf, x1@, y1@)).push(
                            tp_spec(sc@, px@, fyf, x2@, y2@),
                        ),
                        (p3.0@, p3.1@),
                        tp_spec(sc@, px@, fyf, x@, y@),
                    );
                    lemma_run_inv_push(cur@, p1);
                    lemma_run_inv_push(cur@.push(p1), p2);
                    lemma_run_inv_push(cur@.push(p1).push(p2), p3);
                }
                cur.push(p1);
                cur.push(p2);
                cur.push(p3);
            },
            PathCmd::Close => {
                if cur.len() > 0 {
                    let first = cur[0];
                    proof {
                        assert(pts_view(cur@)[0] == (first.0@, first.1@));
                        assert(pt_eq(pts_view(cur@)[0], st1[0]));
                        lemma_pts_view_push(cur@, first);
                        lemma_pts_eq_push(pts_view(cur@), st1, (first.0@, first.1@), st1[0]);
                        lemma_run_inv_push(cur@, first);
                    }
                    cur.push(first);
                }
                let finished = cur;
                cur = Vec::new();
                proof {
                    assert(pts_view(cur@) =~= Seq::<(Frac, Frac)>::empty());
                }
                let ghost rpre = runs@;
                let ghost flushed = if st1.len() > 0 {
                    st1.push(st1[0])
                } else {
                    st1
                };
                proof {
                    assert(pts_eq(pts_view(finished@), flushed));
                    assert(run_inv(finished@));
                    assert(finished@.len() <= 0x10000000);
                }
                proof {
                    lemma_runs_match_push(rpre, st0, finished, flushed);
                }
                runs.push(finished);
            },
        }
        i = i + 1;
    }
    proof {
        assert(cmds@.take(n as int) =~= cmds@);
    }
    if cur.len() > 0 {
        let ghost st0 = walk(cmds@, sc@, px@, fyf).0;
        let ghost st1 = walk(cmds@, sc@, px@, fyf).1;
        let ghost rpre = runs@;
        let ghost curg = cur@;
        proof {
            assert(run_inv(curg));
            assert(curg.len() <= 0x10000000);
        }
        proof {
            lemma_runs_match_push(rpre, st0, cur, st1);
        }
        runs.push(cur);
    }
    Ok(runs)
}

/// Writes the spline entities of one positioned outline: every control
/// point pre-transformed by hand, one spline per accumulated run.
pub fn write_path(s: &mut String, height: &Rat, p: &Path, scale: &Rat) -> (r: Result<(), Error>)
    requires
        height.inv(),
        scale.inv(),
        p.x.inv(),
        p.y.inv(),
        cmds_inv(p.cmds@),
        p.cmds@.len() <= 0x100000,
    ensures
        r is Err ==> r == Err::<(), Error>(Error::ArithmeticOverflow) && final(s)@ == old(s)@,
        r is Ok ==> final(s)@ == old(s)@ + path_entities_text(
            p.cmds@,
            scale@,
            p.x@,
            frac_sub(height@, p.y@),
        ),
        path_fits(p.cmds@, scale@, p.x@, frac_sub(height@, p.y@)) ==> r is Ok,
{
    let runs = match collect_polylines(&p.cmds, scale, &p.x, &p.y, height) {
        Ok(v) => v,
        Err(e) => {
            return Err(e);
        },
    };
    let ghost spec_runs = all_runs(p.cmds@, scale@, p.x@, frac_sub(height@, p.y@));
    let n = runs.len();
    let mut i: usize = 0;
    proof {
        assert(old(s)@ + runs_text(spec_runs.take(0)) =~= old(s)@);
    }
    while i < n
        invariant
            n == runs@.len(),
            i <= n,
            runs_match(runs@, spec_runs),
            s@ == old(s)@ + runs_text(spec_runs.take(i as int)),
        decreases n - i,
    {
        proof {
            assert(spec_runs.take(i as int + 1).drop_last() =~= spec_runs.take(i as int));
            assert(spec_runs.take(i as int + 1).last() == spec_runs[i as int]);
        }
        write_spline(s, &runs[i]);
        proof {
            lemma_spline_text_eq(pts_view(runs@[i as int]@), spec_runs[i as int]);
            lemma_concat_associative(
                old(s)@,
                runs_text(spec_runs.take(i as int)),
                spline_text(spec_runs[i as int]),
            );
        }
        i = i + 1;
    }
    proof {
        assert(spec_runs.take(n as int) =~= spec_runs);
    }
    Ok(())
}

/// Writes one shape's entities.  A circle's center is flipped into the
/// target frame (`height - cy`) before the entity is written.
pub fn write_shape(s: &mut String, height: &Rat, shape: &Shape, scale: &Rat) -> (r: Result<
    (),
    Error,
>)
    requires
        height.inv(),
        scale.inv(),
        shape_inv(*shape),
    ensures
        r is Err ==> r == Err::<(), Error>(Error::ArithmeticOverflow) && final(s)@ == old(s)@,
        r is Ok ==> final(s)@ == old(s)@ + shape_entities_text(*shape, height@, scale@),
        shape_fits(*shape, height@, scale@) ==> r is Ok,
{
    match shape {
        Shape::Circle(c) => {
            let cyf = match height.sub(c.cy) {
                Some(v) => v,
                None => {
                    proof {
                        if shape_fits(*shape, height@, scale@) {
                            assert(false);
                        }
                    }
                    return Err(Error::ArithmeticOverflow);
                },
            };
            let flipped = Circle { cx: c.cx, cy: cyf, r: c.r };
            write_circle(s, &flipped);
            proof {
                lemma_rat_text_eq(cyf@, frac_sub(height@, c.cy@));
            }
            Ok(())
        },
        Shape::Path(p) => write_path(s, height, p, scale),
    }
}

/// Renders the cover as a standalone DXF document: header, tables, the
/// boundary rectangle, then every shape in composer order.  The output is
/// a pure function of the cover, so byte-identical inputs give
/// byte-identical documents.
pub fn generate(cover: &Cover) -> (r: Result<String, Error>)
    requires
        cover.inv(),
    ensures
        r is Err ==> r == Err::<String, Error>(Error::ArithmeticOverflow),
        r is Ok ==> r->Ok_0@ == dxf_text(*cover),
        cover_fits(*cover) ==> r is Ok,
{
    let mut s = String::new();
    write_dxf_header(&mut s, &cover.width, &cover.height);
    proof {
        assert(Seq::<char>::empty() + header_text(cover.width@, cover.height@) =~= header_text(
            cover.width@,
            cover.height@,
        ));
    }
    write_dxf_tables(&mut s);
    write_dxf_entities_start(&mut s);
    write_rectangle(&mut s, &cover.width, &cover.height);
    let ghost base = s@;
    proof {
        assert(base + shapes_entities_text(cover.shapes@.take(0), cover.height@, cover.scale@)
            =~= base);
    }
    let n = cover.shapes.len();
    let mut i: usize = 0;
    while i < n
        invariant
            n == cover.shapes@.len(),
            i <= n,
            cover.inv(),
            s@ == base + shapes_entities_text(
                cover.shapes@.take(i as int),
                cover.height@,
                cover.scale@,
            ),
        decreases n - i,
    {
        proof {
            assert(cover.shapes@.take(i as int + 1).drop_last() =~= cover.shapes@.take(i as int));
            assert(cover.shapes@.take(i as int + 1).last() == cover.shapes@[i as int]);
            assert(shape_inv(cover.shapes@[i as int]));
        }
        match write_shape(&mut s, &cover.height, &cover.shapes[i], &cover.scale) {
            Ok(_) => {},
            Err(e) => {
                proof {
                    if cover_fits(*cover) {
                        assert(shape_fits(cover.shapes@[i as int], cover.height@, cover.scale@));
                        assert(false);
                    }
                }
                return Err(e);
            },
        }
        proof {
            lemma_concat_associative(
                base,
                shapes_entities_text(cover.shapes@.take(i as int), cover.height@, cover.scale@),
                shape_entities_text(cover.shapes@[i as int], cover.height@, cover.scale@),
            );
        }
        i = i + 1;
    }
    proof {
        assert(cover.shapes@.take(n as int) =~= cover.shapes@);
    }
    write_dxf_entities_end(&mut s);
    write_dxf_footer(&mut s);
    Ok(s)
}

} // verus!
