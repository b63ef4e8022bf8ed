use crate::style::TextStyle;
use crate::units::PixelLength;
use vstd::prelude::*;

verus! {

/// One shaped glyph of a run of text: which glyph of which font, and where
/// it sits relative to the pen.
#[derive(Clone, Copy, Debug, PartialEq, Eq, Structural)]
pub struct GlyphInfo {
    pub font_idx: usize,
    pub glyph_pos: u32,
    pub x_offset: PixelLength,
    pub y_offset: PixelLength,
}

/// The size of a character cell under one font, in units of 1/64 pixel.
#[derive(Clone, Copy, Debug, PartialEq, Eq, Structural)]
pub struct FontMetrics {
    pub cell_width: u32,
    pub cell_height: u32,
}

/// The bitmap of one glyph as a font produced it: `height` rows of `width`
/// pixels of red, green, blue and alpha bytes.
#[derive(Debug)]
pub struct RasterizedGlyph {
    pub data: Vec<u8>,
    pub width: u32,
    pub height: u32,
    pub bearing_x: PixelLength,
    pub bearing_y: PixelLength,
    pub has_color: bool,
}

/// The fonts that glyphs are drawn from.
pub trait FontConfiguration {
    /// The cell size of the font that renders `style`, or nothing when no
    /// font matches the style.
    fn resolve_font(&self, style: &TextStyle) -> Option<FontMetrics>;

    /// The bitmap of glyph `glyph_pos` of font `font_idx` among the fonts of
    /// `style`, or nothing when the glyph cannot be drawn.
    fn rasterize_glyph(&self, style: &TextStyle, glyph_pos: u32, font_idx: usize) -> Option<
        RasterizedGlyph,
    >;
}

} // verus!
