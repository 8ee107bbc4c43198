//! SVG export: the native-transform backend.
//!
//! Circles become `<circle>` elements with their center and radius as they
//! stand; outlines become `<path>` elements whose data is the typed
//! command list rendered as path data, combined with one affine transform
//! attribute (scale, vertical flip, translation to the anchor) that the
//! format applies itself.  The whole document text is given by
//! [`svg_text`], so equal covers render to byte-identical documents.

use vstd::prelude::*;

verus! {

use vstd::seq_lib::lemma_concat_associative;
use vstd::string::StringExecFns;
use crate::cover::{shape_inv, Circle, Cover, Path, Shape};
use crate::font::{cmd_inv, cmds_inv, PathCmd};
use crate::numfmt::{append_rat, rat_text};
use crate::rat::{frac_neg, Frac, Rat};

/// The path-data text of one drawing command.
pub open spec fn cmd_text(c: PathCmd) -> Seq<char> {
    match c {
        PathCmd::MoveTo { x, y } => "M "@ + rat_text(x@) + " "@ + rat_text(y@),
        PathCmd::LineTo { x, y } => "L "@ + rat_text(x@) + " "@ + rat_text(y@),
        PathCmd::QuadTo { x1, y1, x, y } => "Q "@ + rat_text(x1@) + " "@ + rat_text(y1@) + " "@
            + rat_text(x@) + " "@ + rat_text(y@),
        PathCmd::CurveTo { x1, y1, x2, y2, x, y } => "C "@ + rat_text(x1@) + " "@ + rat_text(y1@)
            + " "@ + rat_text(x2@) + " "@ + rat_text(y2@) + " "@ + rat_text(x@) + " "@ + rat_text(
            y@,
        ),
        PathCmd::Close => "Z"@,
    }
}

/// The path-data text of an outline: commands separated by single spaces.
pub open spec fn path_data_text(cmds: Seq<PathCmd>) -> Seq<char>
    decreases cmds.len(),
{
    if cmds.len() == 0 {
        Seq::<char>::empty()
    } else if cmds.len() == 1 {
        cmd_text(cmds[0])
    } else {
        path_data_text(cmds.drop_last()) + " "@ + cmd_text(cmds.last())
    }
}

/// Renders one drawing command as path data.
fn cmd_string(c: &PathCmd) -> (r: String)
    requires
        cmd_inv(*c),
    ensures
        r@ == cmd_text(*c),
{
    let mut t = String::new();
    match c {
        PathCmd::MoveTo { x, y } => {
            t.append("M ");
            proof {
                assert(Seq::<char>::empty() + "M "@ =~= "M "@);
            }
            append_rat(&mut t, x);
            t.append(" ");
            append_rat(&mut t, y);
        },
        PathCmd::LineTo { x, y } => {
            t.append("L ");
            proof {
                assert(Seq::<char>::empty() + "L "@ =~= "L "@);
            }
            append_rat(&mut t, x);
            t.append(" ");
            append_rat(&mut t, y);
        },
        PathCmd::QuadTo { x1, y1, x, y } => {
            t.append("Q ");
            proof {
                assert(Seq::<char>::empty() + "Q "@ =~= "Q "@);
            }
            append_rat(&mut t, x1);
            t.append(" ");
            append_rat(&mut t, y1);
            t.append(" ");
            append_rat(&mut t, x);
            t.append(" ");
            append_rat(&mut t, y);
        },
        PathCmd::CurveTo { x1, y1, x2, y2, x, y } => {
            t.append("C ");
            proof {
                assert(Seq::<char>::empty() + "C "@ =~= "C "@);
            }
            append_rat(&mut t, x1);
            t.append(" ");
            append_rat(&mut t, y1);
            t.append(" ");
            append_rat(&mut t, x2);
            t.append(" ");
            append_rat(&mut t, y2);
            t.append(" ");
            append_rat(&mut t, x);
            t.append(" ");
            append_rat(&mut t, y);
        },
        PathCmd::Close => {
            t.append("Z");
            proof {
                assert(Seq::<char>::empty() + "Z"@ =~= "Z"@);
            }
        },
    }
    t
}

/// Renders an outline as SVG path data.
pub fn append_path_data(s: &mut String, cmds: &Vec<PathCmd>)
    requires
        cmds_inv(cmds@),
    ensures
        final(s)@ == old(s)@ + path_data_text(cmds@),
{
    proof {
        assert(old(s)@ + path_data_text(cmds@.take(0)) =~= old(s)@);
    }
    let n = cmds.len();
    let mut i: usize = 0;
    while i < n
        invariant
            n == cmds@.len(),
            i <= n,
            cmds_inv(cmds@),
            s@ == old(s)@ + path_data_text(cmds@.take(i as int)),
        decreases n - i,
    {
        proof {
            assert(cmds@.take(i as int + 1).drop_last() =~= cmds@.take(i as int));
            assert(cmds@.take(i as int + 1).last() == cmds@[i as int]);
            assert(cmd_inv(cmds@[i as int]));
        }
        let ghost prefix = path_data_text(cmds@.take(i as int));
        if i > 0 {
            s.append(" ");
            proof {
                lemma_concat_associative(old(s)@, prefix, " "@);
            }
        }
        let piece = cmd_string(&cmds[i]);
        s.append(piece.as_str());
        proof {
            if i > 0 {
                lemma_concat_associative(old(s)@, prefix + " "@, cmd_text(cmds@[i as int]));
            } else {
                assert(prefix =~= Seq::<char>::empty());
                assert(old(s)@ + prefix =~= old(s)@);
            }
            assert(s@ == old(s)@ + path_data_text(cmds@.take(i as int + 1)));
        }
        i = i + 1;
    }
    proof {
        assert(cmds@.take(n as int) =~= cmds@);
    }
}

/// The text of one circle element.
pub open spec fn circle_text(cx: Frac, cy: Frac, r: Frac) -> Seq<char> {
    "  <circle r=\""@ + rat_text(r) + "\" cx=\""@ + rat_text(cx) + "\" cy=\""@ + rat_text(cy)
        + "\" stroke=\"black\" stroke-width=\"5\" fill=\"none\"/>\n"@
}

/// The text of one path element, with the affine transform that scales,
/// flips the Y axis, and translates to the anchor.
pub open spec fn path_elem_text(cmds: Seq<PathCmd>, x: Frac, y: Frac, sc: Frac) -> Seq<char> {
    "  <path d=\""@ + path_data_text(cmds) + "\" transform=\"matrix("@ + rat_text(sc) + " 0 0 "@
        + rat_text(frac_neg(sc)) + " "@ + rat_text(x) + " "@ + rat_text(y)
        + ")\" stroke=\"black\" stroke-width=\"5\" fill=\"none\"/>\n"@
}

/// The text of one shape.
pub open spec fn shape_text(s: Shape, sc: Frac) -> Seq<char> {
    match s {
        Shape::Circle(c) => circle_text(c.cx@, c.cy@, c.r@),
        Shape::Path(p) => path_elem_text(p.cmds@, p.x@, p.y@, sc),
    }
}

/// The body: every shape in order.
pub open spec fn shapes_text(ss: Seq<Shape>, sc: Frac) -> Seq<char>
    decreases ss.len(),
{
    if ss.len() == 0 {
        Seq::<char>::empty()
    } else {
        shapes_text(ss.drop_last(), sc) + shape_text(ss.last(), sc)
    }
}

/// Renders one circle element.
fn circle_string(c: &Circle) -> (r: String)
    requires
        c.cx.inv(),
        c.cy.inv(),
        c.r.inv(),
    ensures
        r@ == circle_text(c.cx@, c.cy@, c.r@),
{
    let mut t = String::new();
    t.append("  <circle r=\"");
    proof {
        assert(Seq::<char>::empty() + "  <circle r=\""@ =~= "  <circle r=\""@);
    }
    append_rat(&mut t, &c.r);
    t.append("\" cx=\"");
    append_rat(&mut t, &c.cx);
    t.append("\" cy=\"");
    append_rat(&mut t, &c.cy);
    t.append("\" stroke=\"black\" stroke-width=\"5\" fill=\"none\"/>\n");
    t
}

/// Renders one path element.
fn path_string(p: &Path, scale: &Rat) -> (r: String)
    requires
        p.x.inv(),
        p.y.inv(),
        scale.inv(),
        cmds_inv(p.cmds@),
    ensures
        r@ == path_elem_text(p.cmds@, p.x@, p.y@, scale@),
{
    let mut t = String::new();
    t.append("  <path d=\"");
    proof {
        assert(Seq::<char>::empty() + "  <path d=\""@ =~= "  <path d=\""@);
    }
    append_path_data(&mut t, &p.cmds);
    t.append("\" transform=\"matrix(");
    append_rat(&mut t, scale);
    t.append(" 0 0 ");
    let nsc = scale.neg();
    append_rat(&mut t, &nsc);
    t.append(" ");
    append_rat(&mut t, &p.x);
    t.append(" ");
    append_rat(&mut t, &p.y);
    t.append(")\" stroke=\"black\" stroke-width=\"5\" fill=\"none\"/>\n");
    t
}

/// The complete SVG document for a cover.
pub open spec fn svg_text(cv: Cover) -> Seq<char> {
    "<?xml version=\"1.0\" encoding=\"UTF-8\"?>\n<svg width=\""@ + rat_text(cv.width@) + "mm\" height=\""@
        + rat_text(cv.height@) + "mm\" viewBox=\"0 0 "@ + rat_text(cv.width@) + " "@ + rat_text(
        cv.height@,
    ) + "\" version=\"1.1\" id=\"svg\" xmlns=\"http://www.w3.org/2000/svg\" xmlns:svg=\"http://www.w3.org/2000/svg\">\n"@
        + shapes_text(cv.shapes@, cv.scale@) + "</svg>\n"@
}

/// Renders the cover as a standalone SVG document.  The output is a pure
/// function of the cover, so byte-identical inputs give byte-identical
/// documents.
pub fn generate(cover: &Cover) -> (r: String)
    requires
        cover.inv(),
    ensures
        r@ == svg_text(*cover),
{
    let mut s = String::new();
    s.append("<?xml version=\"1.0\" encoding=\"UTF-8\"?>\n<svg width=\"");
    proof {
        assert(Seq::<char>::empty() + "<?xml version=\"1.0\" encoding=\"UTF-8\"?>\n<svg width=\""@
            =~= "<?xml version=\"1.0\" encoding=\"UTF-8\"?>\n<svg width=\""@);
    }
    append_rat(&mut s, &cover.width);
    s.append("mm\" height=\"");
    append_rat(&mut s, &cover.height);
    s.append("mm\" viewBox=\"0 0 ");
    append_rat(&mut s, &cover.width);
    s.append(" ");
    append_rat(&mut s, &cover.height);
    s.append(
        "\" version=\"1.1\" id=\"svg\" xmlns=\"http://www.w3.org/2000/svg\" xmlns:svg=\"http://www.w3.org/2000/svg\">\n",
    );
    let ghost head = s@;
    proof {
        assert(head + shapes_text(cover.shapes@.take(0), cover.scale@) =~= head);
    }
    let n = cover.shapes.len();
    let mut i: usize = 0;
    while i < n
        invariant
            n == cover.shapes@.len(),
            i <= n,
            cover.inv(),
            s@ == head + shapes_text(cover.shapes@.take(i as int), cover.scale@),
        decreases n - i,
    {
        proof {
            assert(cover.shapes@.take(i as int + 1).drop_last() =~= cover.shapes@.take(i as int));
            assert(cover.shapes@.take(i as int + 1).last() == cover.shapes@[i as int]);
            assert(shape_inv(cover.shapes@[i as int]));
        }
        let ghost body = shapes_text(cover.shapes@.take(i as int), cover.scale@);
        let piece = match &cover.shapes[i] {
            Shape::Circle(c) => circle_string(c),
            Shape::Path(p) => path_string(p, &cover.scale),
        };
        s.append(piece.as_str());
        proof {
            lemma_concat_associative(head, body, shape_text(cover.shapes@[i as int], cover.scale@));
            assert(s@ == head + shapes_text(cover.shapes@.take(i as int + 1), cover.scale@));
        }
        i = i + 1;
    }
    s.append("</svg>\n");
    proof {
        assert(cover.shapes@.take(n as int) =~= cover.shapes@);
    }
    s
}

} // verus!
