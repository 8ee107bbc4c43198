//! The two export backends: exact document text, spline counts, and
//! determinism of the full pipeline.

use gen_front::cover::{Circle, Config, Cover, Path, Shape};
use gen_front::dxf;
use gen_front::dxf::{write_path, write_spline};
use gen_front::font::{BoundingBox, Error, FontAnalysis, PathCmd, RawGlyph, FLOWER};
use gen_front::rat::Rat;
use gen_front::svg;

fn rat(n: i64, d: i64) -> Rat {
    Rat::new(n, d)
}

fn circle_cover() -> Cover {
    Cover {
        scale: rat(1, 2),
        shapes: vec![Shape::Circle(Circle { cx: rat(3, 1), cy: rat(4, 1), r: rat(5, 2) })],
        width: rat(30, 1),
        height: rat(40, 1),
    }
}

#[test]
fn svg_document_for_one_circle() {
    let doc = svg::generate(&circle_cover());
    let expected = ["<?xml version=\"1.0\" encoding=\"UTF-8\"?>\n",
        "<svg width=\"30mm\" height=\"40mm\" viewBox=\"0 0 30 40\" version=\"1.1\" id=\"svg\"",
        " xmlns=\"http://www.w3.org/2000/svg\" xmlns:svg=\"http://www.w3.org/2000/svg\">\n",
        "  <circle r=\"2.500000\" cx=\"3\" cy=\"4\" stroke=\"black\" stroke-width=\"5\"",
        " fill=\"none\"/>\n",
        "</svg>\n"
    ].join("");
    assert_eq!(doc, expected);
}

#[test]
fn svg_path_uses_native_transform() {
    let cover = Cover {
        scale: rat(1, 2),
        shapes: vec![Shape::Path(Path {
            cmds: vec![
                PathCmd::MoveTo { x: rat(10, 1), y: rat(20, 1) },
                PathCmd::LineTo { x: rat(30, 1), y: rat(5, 2) },
                PathCmd::Close,
            ],
            x: rat(1, 1),
            y: rat(2, 1),
        })],
        width: rat(30, 1),
        height: rat(40, 1),
    };
    let doc = svg::generate(&cover);
    assert!(doc.contains("d=\"M 10 20 L 30 2.500000 Z\""));
    assert!(doc.contains("transform=\"matrix(0.500000 0 0 -0.500000 1 2)\""));
}

#[test]
fn dxf_document_for_empty_shape_list() {
    let cover = Cover {
        scale: rat(1, 1),
        shapes: Vec::new(),
        width: rat(10, 1),
        height: rat(10, 1),
    };
    let doc = dxf::generate(&cover).unwrap();
    let expected = ["0\nSECTION\n2\nHEADER\n9\n$INSUNITS\n70\n4\n",
        "9\n$EXTMIN\n10\n0.0\n20\n0.0\n30\n0.0\n",
        "9\n$EXTMAX\n10\n10\n20\n10\n30\n0.0\n",
        "9\n$LIMMIN\n10\n0.0\n20\n0.0\n",
        "9\n$LIMMAX\n10\n10\n20\n10\n",
        "0\nENDSEC\n",
        "0\nSECTION\n2\nTABLES\n0\nTABLE\n2\nLAYER\n70\n1\n",
        "0\nLAYER\n2\n0\n70\n0\n62\n7\n6\nCONTINUOUS\n0\nENDTAB\n0\nENDSEC\n",
        "0\nSECTION\n2\nENTITIES\n",
        "0\nLINE\n8\n0\n10\n0\n20\n0\n30\n0.0\n11\n10\n21\n0\n31\n0.0\n",
        "0\nLINE\n8\n0\n10\n10\n20\n0\n30\n0.0\n11\n10\n21\n10\n31\n0.0\n",
        "0\nLINE\n8\n0\n10\n10\n20\n10\n30\n0.0\n11\n0\n21\n10\n31\n0.0\n",
        "0\nLINE\n8\n0\n10\n0\n20\n10\n30\n0.0\n11\n0\n21\n0\n31\n0.0\n",
        "0\nENDSEC\n",
        "0\nEOF\n"
    ].join("");
    assert_eq!(doc, expected);
}

#[test]
fn spline_declares_n_plus_four_knots() {
    // Two vertices: 6 knots declared and listed, 2 control points.
    let mut s = String::new();
    let pts = vec![
        (Rat::from_int(1), Rat::from_int(2)),
        (Rat::from_int(3), Rat::from_int(4)),
    ];
    write_spline(&mut s, &pts);
    let expected = ["0\nSPLINE\n8\n0\n70\n8\n71\n3\n72\n6\n73\n2\n74\n0\n",
        "40\n0\n40\n1\n40\n2\n40\n3\n40\n4\n40\n5\n",
        "10\n1\n20\n2\n30\n0.0\n",
        "10\n3\n20\n4\n30\n0.0\n"
    ].join("");
    assert_eq!(s, expected);
    assert_eq!(s.matches("40\n").count(), 2 + 4);
}

#[test]
fn dxf_circle_center_is_flipped() {
    // A circle at document y = 4 in a 40-high panel prints its center at
    // 40 - 4 = 36 in the DXF frame, like every path point.
    let doc = dxf::generate(&circle_cover()).unwrap();
    assert!(doc.contains("0\nCIRCLE\n8\n0\n10\n3\n20\n36\n30\n0.0\n40\n2.500000\n"));
    assert!(!doc.contains("\n20\n4\n30\n0.0\n40\n"));
}

#[test]
fn empty_run_writes_nothing() {
    let mut s = String::new();
    write_spline(&mut s, &Vec::new());
    assert_eq!(s, "");
}

#[test]
fn path_points_are_pretransformed() {
    // scale 1/2, anchor (1, 2), document height 40: the Y origin moves to
    // 38 and Y grows upward, so (10, 20) maps to (6, 48).
    let mut s = String::new();
    let p = Path {
        cmds: vec![
            PathCmd::MoveTo { x: rat(10, 1), y: rat(20, 1) },
            PathCmd::LineTo { x: rat(30, 1), y: rat(40, 1) },
            PathCmd::Close,
        ],
        x: rat(1, 1),
        y: rat(2, 1),
    };
    write_path(&mut s, &rat(40, 1), &p, &rat(1, 2)).unwrap();
    let expected = ["0\nSPLINE\n8\n0\n70\n8\n71\n3\n72\n7\n73\n3\n74\n0\n",
        "40\n0\n40\n1\n40\n2\n40\n3\n40\n4\n40\n5\n40\n6\n",
        "10\n6\n20\n48\n30\n0.0\n",
        "10\n16\n20\n58\n30\n0.0\n",
        "10\n6\n20\n48\n30\n0.0\n"
    ].join("");
    assert_eq!(s, expected);
}

#[test]
fn unrepresentable_transform_is_an_overflow_error() {
    let mut s = String::new();
    let p = Path {
        cmds: vec![PathCmd::MoveTo { x: rat(i64::MAX, 1), y: rat(0, 1) }],
        x: rat(0, 1),
        y: rat(0, 1),
    };
    let r = write_path(&mut s, &rat(0, 1), &p, &rat(i64::MAX, 1));
    assert_eq!(r.err(), Some(Error::ArithmeticOverflow));
    assert_eq!(s, "");
}

#[test]
fn quadratic_control_points_join_the_run() {
    // A quadratic contributes its control point and its end point.
    let mut s = String::new();
    let p = Path {
        cmds: vec![
            PathCmd::MoveTo { x: rat(0, 1), y: rat(0, 1) },
            PathCmd::QuadTo { x1: rat(2, 1), y1: rat(4, 1), x: rat(6, 1), y: rat(8, 1) },
        ],
        x: rat(0, 1),
        y: rat(0, 1),
    };
    write_path(&mut s, &rat(0, 1), &p, &rat(1, 1)).unwrap();
    // Three vertices in one trailing run: 7 knots.
    assert!(s.contains("72\n7\n73\n3\n"));
    assert!(s.contains("10\n2\n20\n4\n"));
    assert!(s.contains("10\n6\n20\n8\n"));
}

fn pipeline_font() -> FontAnalysis {
    let records = vec![
        RawGlyph {
            ch: 'A',
            cmds: vec![
                PathCmd::MoveTo { x: rat(0, 1), y: rat(0, 1) },
                PathCmd::QuadTo { x1: rat(500, 1), y1: rat(2000, 1), x: rat(1000, 1), y: rat(0, 1) },
                PathCmd::Close,
            ],
            bbox: BoundingBox { x_min: 0, y_min: 0, x_max: 1000, y_max: 2000 },
        },
        RawGlyph {
            ch: FLOWER,
            cmds: vec![
                PathCmd::MoveTo { x: rat(0, 1), y: rat(250, 1) },
                PathCmd::LineTo { x: rat(500, 1), y: rat(250, 1) },
                PathCmd::Close,
            ],
            bbox: BoundingBox { x_min: 0, y_min: 0, x_max: 500, y_max: 500 },
        },
    ];
    FontAnalysis::analyze(records, 1600, -400)
}

fn pipeline_config() -> Config {
    Config {
        led_size: rat(5, 1),
        led_spacing: rat(17, 1),
        hole_diameter: rat(33, 10),
        margin: rat(20, 1),
        grid: vec![vec!['A'; 11]; 10],
    }
}

#[test]
fn pipeline_is_deterministic() {
    // Byte-identical inputs give byte-identical documents, twice over.
    let cover1 = Cover::new(pipeline_font(), pipeline_config()).unwrap();
    let cover2 = Cover::new(pipeline_font(), pipeline_config()).unwrap();
    let svg1 = svg::generate(&cover1);
    let svg2 = svg::generate(&cover2);
    assert_eq!(svg1, svg2);
    let dxf1 = dxf::generate(&cover1).unwrap();
    let dxf2 = dxf::generate(&cover2).unwrap();
    assert_eq!(dxf1, dxf2);
    assert!(!svg1.is_empty());
    assert!(!dxf1.is_empty());
}
