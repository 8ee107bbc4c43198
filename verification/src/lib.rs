//! Laser-cut front panel generator for a letter-grid display device.
//!
//! The pipeline extracts glyph outlines and metrics from a font, solves a
//! closed-form layout so the letter grid comes out square, composes an
//! ordered list of shapes (mounting holes, edge markers, letter grid) in
//! document coordinates, and renders the result as either an SVG or a DXF
//! document.  All geometry is carried as exact rational numbers, so every
//! algebraic claim below is an equality, not an approximation.

use vstd::prelude::*;

pub mod cover;
pub mod dxf;
pub mod font;
pub mod numfmt;
pub mod rat;
pub mod svg;

verus! {

use crate::font::Error;

/// The supported output document kinds, selected by the caller.
#[derive(Clone, Copy, Debug, PartialEq, Eq, Structural)]
pub enum OutputFormat {
    /// Native-transform vector document.
    Svg,
    /// Manual-transform vector document.
    Dxf,
}

/// Selects the output kind from a file extension, given as its characters.
/// Any other extension is rejected before any output is produced.
pub fn parse_output_format(ext: &Vec<char>) -> (r: Result<OutputFormat, Error>)
    ensures
        ext@ == seq!['s', 'v', 'g'] ==> r == Ok::<OutputFormat, Error>(OutputFormat::Svg),
        ext@ == seq!['d', 'x', 'f'] ==> r == Ok::<OutputFormat, Error>(OutputFormat::Dxf),
        ext@ != seq!['s', 'v', 'g'] && ext@ != seq!['d', 'x', 'f'] ==> r == Err::<
            OutputFormat,
            Error,
        >(Error::UnsupportedOutputFormat),
{
    if ext.len() == 3 {
        if ext[0] == 's' && ext[1] == 'v' && ext[2] == 'g' {
            proof {
                assert(ext@ =~= seq!['s', 'v', 'g']);
            }
            return Ok(OutputFormat::Svg);
        }
        if ext[0] == 'd' && ext[1] == 'x' && ext[2] == 'f' {
            proof {
                assert(ext@ =~= seq!['d', 'x', 'f']);
            }
            return Ok(OutputFormat::Dxf);
        }
    }
    Err(Error::UnsupportedOutputFormat)
}

} // verus!
