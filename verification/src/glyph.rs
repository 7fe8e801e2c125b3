//! Glyphs: styled characters waiting to be rasterized, and what the
//! rasterizer reports of them.

use vstd::prelude::*;
use vstd::std_specs::cmp::PartialEqSpecImpl;
use crate::color::Color;
use crate::font::{FontEmphasis, FontThickness};

verus! {

/// The image identifier of a glyph that has no bitmap in the atlas.
pub const UNASSIGNED: u32 = 0xFFFF_FFFF;

/// What tells glyphs apart: everything but the bitmap they were given.
pub struct GlyphIdentity {
    pub character: char,
    pub font_id: u32,
    pub size: u32,
    pub color: Color,
    pub thickness: FontThickness,
    pub emphasis: FontEmphasis,
}

/// One character to be drawn, in a font, size, colour and style.
#[derive(Debug, Copy, Clone)]
pub struct Glyph {
    pub character: char,
    pub font_id: u32,
    /// The atlas entry that holds the rasterized glyph, once there is one.
    pub image_id: u32,
    pub size: u32,
    pub color: Color,
    pub thickness: FontThickness,
    pub emphasis: FontEmphasis,
}

impl Glyph {
    /// The glyph without the bitmap it was given.
    pub open spec fn identity(self) -> GlyphIdentity {
        GlyphIdentity {
            character: self.character,
            font_id: self.font_id,
            size: self.size,
            color: self.color,
            thickness: self.thickness,
            emphasis: self.emphasis,
        }
    }

    /// Whether the character ends a line rather than being drawn.
    pub fn is_line_break(&self) -> (line_break: bool)
        ensures
            line_break == is_break(self.character),
    {
        self.character == '\n' || self.character == '\r'
    }
}

/// The characters that end a line.
pub open spec fn is_break(c: char) -> bool {
    c == '\n' || c == '\r'
}

/// The characters that separate words within a line.
pub open spec fn is_blank(c: char) -> bool {
    c == ' ' || c == '\t'
}

impl PartialEq for Glyph {
    /// Glyphs are equal when they look the same: the bitmap identifier does
    /// not count.
    fn eq(&self, other: &Self) -> (same: bool) {
        self.character == other.character && self.font_id == other.font_id && self.size
            == other.size && self.color == other.color && self.thickness == other.thickness
            && self.emphasis == other.emphasis
    }
}

impl PartialEqSpecImpl for Glyph {
    open spec fn obeys_eq_spec() -> bool {
        true
    }

    open spec fn eq_spec(&self, other: &Self) -> bool {
        self.identity() == other.identity()
    }
}

/// What the rasterizer reports of a glyph, in the units of the layout: how
/// far the pen moves, the size of the bitmap, and where the bitmap sits
/// relative to the pen.
#[derive(Debug, Copy, Clone, PartialEq, Eq, Structural)]
pub struct GlyphMetrics {
    pub advance_width: u32,
    pub width: u32,
    pub height: u32,
    pub xmin: i32,
    pub ymin: i32,
}

impl GlyphMetrics {
    /// The metrics of a character that is not drawn.
    pub fn empty() -> (metrics: Self)
        ensures
            metrics == (GlyphMetrics { advance_width: 0, width: 0, height: 0, xmin: 0, ymin: 0 }),
    {
        GlyphMetrics { advance_width: 0, width: 0, height: 0, xmin: 0, ymin: 0 }
    }
}

/// The glyphs of one text, and their metrics once they are known: the
/// metrics at a position belong to the glyph at that position.
#[derive(Debug, Clone)]
pub struct TextRenderingData {
    pub glyphs: Vec<Glyph>,
    pub metrics: Vec<GlyphMetrics>,
}

/// The characters of a list of glyphs.
pub open spec fn characters(glyphs: Seq<Glyph>) -> Seq<char> {
    Seq::new(glyphs.len(), |i: int| glyphs[i].character)
}

/// The advance widths of a list of metrics.
pub open spec fn advances(metrics: Seq<GlyphMetrics>) -> Seq<u32> {
    Seq::new(metrics.len(), |i: int| metrics[i].advance_width)
}

} // verus!
