//! Font analysis aggregation, the outline builder, configuration
//! validation, and output-format selection.

use gen_front::cover::Config;
use gen_front::font::{
    analyze_font, BoundingBox, Builder, Error, FontAnalysis, PathCmd, RawGlyph, FLOWER,
};
use gen_front::parse_output_format;
use gen_front::rat::Rat;
use gen_front::OutputFormat;

fn rat(n: i64, d: i64) -> Rat {
    Rat::new(n, d)
}

fn bbox(x_min: i16, y_min: i16, x_max: i16, y_max: i16) -> BoundingBox {
    BoundingBox { x_min, y_min, x_max, y_max }
}

fn record(ch: char, b: BoundingBox) -> RawGlyph {
    RawGlyph { ch, cmds: Vec::new(), bbox: b }
}

#[test]
fn analyze_aggregates_letters_only() {
    let records = vec![
        record('A', bbox(0, 0, 1000, 2000)),
        record('-', bbox(10, 900, 510, 1100)),
        record(FLOWER, bbox(0, 0, 30000, 30000)),
    ];
    let fa = FontAnalysis::analyze(records, 1600, -400);
    assert_eq!(fa.ascender, 1600);
    assert_eq!(fa.descender, -400);
    // The marker glyph joins the map but not the metrics.
    assert_eq!(fa.y_max, 2000);
    assert_eq!(fa.glyph_width_avg.numerator(), 1500);
    assert_eq!(fa.glyph_width_avg.denominator(), 2);
    assert!(fa.get('A').is_some());
    assert!(fa.get('-').is_some());
    assert!(fa.get(FLOWER).is_some());
    assert!(fa.get('Q').is_none());
    assert_eq!(fa.get('-').unwrap().bbox, bbox(10, 900, 510, 1100));
}

#[test]
fn analyze_with_no_letters_has_zero_average() {
    let records = vec![record(FLOWER, bbox(0, 0, 500, 500))];
    let fa = analyze_font(records, 1600, -400);
    assert_eq!(fa.y_max, i16::MIN);
    assert_eq!(fa.glyph_width_avg.numerator(), 0);
}

#[test]
fn builder_records_typed_commands() {
    let mut b = Builder::new();
    b.move_to(rat(1, 1), rat(2, 1));
    b.line_to(rat(3, 1), rat(4, 1));
    b.quad_to(rat(5, 1), rat(6, 1), rat(7, 1), rat(8, 1));
    b.curve_to(rat(9, 1), rat(10, 1), rat(11, 1), rat(12, 1), rat(13, 1), rat(14, 1));
    b.close();
    let cmds = b.finish();
    assert_eq!(cmds.len(), 5);
    assert!(matches!(cmds[0], PathCmd::MoveTo { .. }));
    assert!(matches!(cmds[1], PathCmd::LineTo { .. }));
    assert!(matches!(cmds[2], PathCmd::QuadTo { .. }));
    assert!(matches!(cmds[3], PathCmd::CurveTo { .. }));
    assert!(matches!(cmds[4], PathCmd::Close));
}

#[test]
fn config_check_accepts_rectangular_grid() {
    let cfg = Config {
        led_size: rat(5, 1),
        led_spacing: rat(17, 1),
        hole_diameter: rat(33, 10),
        margin: rat(20, 1),
        grid: vec![vec!['A'; 11]; 10],
    };
    assert!(cfg.check());
}

#[test]
fn config_check_rejects_ragged_grid() {
    let mut grid = vec![vec!['A'; 11]; 10];
    grid[4].pop();
    let cfg = Config {
        led_size: rat(5, 1),
        led_spacing: rat(17, 1),
        hole_diameter: rat(33, 10),
        margin: rat(20, 1),
        grid,
    };
    assert!(!cfg.check());
}

#[test]
fn config_check_rejects_oversized_lengths() {
    let cfg = Config {
        led_size: rat(5, 1),
        led_spacing: rat(0x200000, 1),
        hole_diameter: rat(33, 10),
        margin: rat(20, 1),
        grid: vec![vec!['A'; 11]; 10],
    };
    assert!(!cfg.check());
}

#[test]
fn output_format_selection() {
    assert_eq!(parse_output_format(&vec!['s', 'v', 'g']), Ok(OutputFormat::Svg));
    assert_eq!(parse_output_format(&vec!['d', 'x', 'f']), Ok(OutputFormat::Dxf));
    assert_eq!(
        parse_output_format(&vec!['p', 'n', 'g']),
        Err(Error::UnsupportedOutputFormat)
    );
    assert_eq!(parse_output_format(&Vec::new()), Err(Error::UnsupportedOutputFormat));
}

#[test]
fn error_messages_name_each_failure() {
    assert!(Error::FontParse.message().contains("parse"));
    assert!(Error::MissingGlyph('A').message().contains("glyph"));
    assert!(Error::DegenerateLayout.message().contains("layout"));
    assert!(Error::ArithmeticOverflow.message().contains("range"));
    assert!(Error::UnsupportedOutputFormat.message().contains("format"));
}
