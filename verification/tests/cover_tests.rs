//! Shape composition: list order, glyph coverage, hole placement.

use gen_front::cover::{Config, Cover, Shape};
use gen_front::font::{BoundingBox, Error, FontAnalysis, PathCmd, RawGlyph, FLOWER};
use gen_front::rat::Rat;

fn rat(n: i64, d: i64) -> Rat {
    Rat::new(n, d)
}

fn bbox(x_min: i16, y_min: i16, x_max: i16, y_max: i16) -> BoundingBox {
    BoundingBox { x_min, y_min, x_max, y_max }
}

fn letter_outline() -> Vec<PathCmd> {
    vec![
        PathCmd::MoveTo { x: Rat::from_int(0), y: Rat::from_int(0) },
        PathCmd::LineTo { x: Rat::from_int(1000), y: Rat::from_int(2000) },
        PathCmd::Close,
    ]
}

fn marker_outline() -> Vec<PathCmd> {
    vec![
        PathCmd::MoveTo { x: Rat::from_int(0), y: Rat::from_int(500) },
        PathCmd::LineTo { x: Rat::from_int(500), y: Rat::from_int(0) },
        PathCmd::Close,
    ]
}

fn analyzed(with_marker: bool) -> FontAnalysis {
    let mut records = vec![RawGlyph {
        ch: 'A',
        cmds: letter_outline(),
        bbox: bbox(0, 0, 1000, 2000),
    }];
    if with_marker {
        records.push(RawGlyph { ch: FLOWER, cmds: marker_outline(), bbox: bbox(0, 0, 500, 500) });
    }
    FontAnalysis::analyze(records, 1600, -400)
}

fn config(grid: Vec<Vec<char>>) -> Config {
    Config {
        led_size: rat(5, 1),
        led_spacing: rat(17, 1),
        hole_diameter: rat(33, 10),
        margin: rat(20, 1),
        grid,
    }
}

#[test]
fn shape_list_order_is_holes_markers_then_grid() {
    let font = analyzed(true);
    let cfg = config(vec![vec!['A'; 11]; 10]);
    let cover = Cover::new(font, cfg).unwrap();
    assert_eq!(cover.shapes.len(), 8 + 10 * 11);
    for i in 0..4 {
        assert!(matches!(cover.shapes[i], Shape::Circle(_)));
    }
    let marker = marker_outline();
    for i in 4..8 {
        match &cover.shapes[i] {
            Shape::Path(p) => assert_eq!(p.cmds, marker),
            Shape::Circle(_) => panic!("marker slot holds a circle"),
        }
    }
    let letter = letter_outline();
    for i in 8..cover.shapes.len() {
        match &cover.shapes[i] {
            Shape::Path(p) => assert_eq!(p.cmds, letter),
            Shape::Circle(_) => panic!("grid slot holds a circle"),
        }
    }
}

#[test]
fn hole_positions_and_radius() {
    let font = analyzed(true);
    let cfg = config(vec![vec!['A'; 11]; 10]);
    let cover = Cover::new(font, cfg).unwrap();
    // hole radius 33/20; margin/2 = 10: top-left center is
    // (10 - 33/20, 10 + 33/20) = (167/20, 233/20).
    match &cover.shapes[0] {
        Shape::Circle(c) => {
            assert_eq!((c.r.numerator(), c.r.denominator()), (33, 20));
            assert_eq!((c.cx.numerator(), c.cx.denominator()), (167, 20));
            assert_eq!((c.cy.numerator(), c.cy.denominator()), (233, 20));
        },
        Shape::Path(_) => panic!("hole slot holds a path"),
    }
}

#[test]
fn marker_is_centered_in_both_axes() {
    // Marker bbox y 100..300 (center 200), scale 187/29000 from the k = 2
    // layout: the top marker's anchor Y is margin/2 + scale * 200
    // = 10 + 187/145 = 1637/145, so the flipped box center lands on the
    // edge midpoint.
    let records = vec![
        RawGlyph { ch: 'A', cmds: letter_outline(), bbox: bbox(0, 0, 1000, 2000) },
        RawGlyph { ch: FLOWER, cmds: marker_outline(), bbox: bbox(0, 100, 500, 300) },
    ];
    let font = FontAnalysis::analyze(records, 1600, -400);
    let cfg = config(vec![vec!['A'; 11]; 10]);
    let cover = Cover::new(font, cfg).unwrap();
    assert_eq!((cover.scale.numerator(), cover.scale.denominator()), (187, 29000));
    match &cover.shapes[4] {
        Shape::Path(p) => {
            assert_eq!((p.y.numerator(), p.y.denominator()), (1637, 145));
        },
        Shape::Circle(_) => panic!("marker slot holds a circle"),
    }
}

#[test]
fn missing_grid_glyph_is_an_error() {
    let font = analyzed(true);
    let mut grid = vec![vec!['A'; 11]; 10];
    grid[3][7] = 'B';
    let cfg = config(grid);
    assert_eq!(Cover::new(font, cfg).err(), Some(Error::MissingGlyph('B')));
}

#[test]
fn missing_marker_glyph_is_an_error() {
    let font = analyzed(false);
    let cfg = config(vec![vec!['A'; 11]; 10]);
    assert_eq!(Cover::new(font, cfg).err(), Some(Error::MissingGlyph(FLOWER)));
}

#[test]
fn missing_glyph_reported_before_solver_errors() {
    // Coverage is checked first: even on a layout whose solver denominator
    // vanishes (aspect ratio one), a grid character with no glyph surfaces
    // as MissingGlyph.
    let records = vec![
        RawGlyph { ch: 'A', cmds: letter_outline(), bbox: bbox(0, 0, 1000, 1000) },
        RawGlyph { ch: FLOWER, cmds: marker_outline(), bbox: bbox(0, 0, 500, 500) },
    ];
    let font = FontAnalysis::analyze(records, 1600, -400);
    let cfg = config(vec![vec!['Z'; 11]; 10]);
    assert_eq!(Cover::new(font, cfg).err(), Some(Error::MissingGlyph('Z')));
}

#[test]
fn covered_grid_with_vanishing_denominator_is_degenerate() {
    // With every glyph present, the solver's degeneracy (k = 1 with this
    // grid) is the error that surfaces.
    let records = vec![
        RawGlyph { ch: 'A', cmds: letter_outline(), bbox: bbox(0, 0, 1000, 1000) },
        RawGlyph { ch: FLOWER, cmds: marker_outline(), bbox: bbox(0, 0, 500, 500) },
    ];
    let font = FontAnalysis::analyze(records, 1600, -400);
    let cfg = config(vec![vec!['A'; 11]; 10]);
    assert_eq!(Cover::new(font, cfg).err(), Some(Error::DegenerateLayout));
}
