use crate::style::TextStyle;
use crate::style::TextStyleView;
use vstd::prelude::*;
use vstd::std_specs::cmp::PartialEqSpecImpl;

verus! {

/// What a glyph key is by value, whether it owns its style or borrows it.
pub struct GlyphKeyView {
    pub font_idx: usize,
    pub glyph_pos: u32,
    pub style: TextStyleView,
}

/// Names one rendered glyph: a glyph of a font, under a text style.
#[derive(Debug, Clone, Eq, Hash)]
pub struct GlyphKey {
    pub font_idx: usize,
    pub glyph_pos: u32,
    pub style: TextStyle,
}

/// A glyph key that borrows its style, so that looking a glyph up copies no
/// style.
#[derive(Debug, Copy, Clone, Eq, Hash)]
pub struct BorrowedGlyphKey<'a> {
    pub font_idx: usize,
    pub glyph_pos: u32,
    pub style: &'a TextStyle,
}

impl View for GlyphKey {
    type V = GlyphKeyView;

    open spec fn view(&self) -> GlyphKeyView {
        GlyphKeyView { font_idx: self.font_idx, glyph_pos: self.glyph_pos, style: self.style@ }
    }
}

impl<'a> View for BorrowedGlyphKey<'a> {
    type V = GlyphKeyView;

    open spec fn view(&self) -> GlyphKeyView {
        GlyphKeyView { font_idx: self.font_idx, glyph_pos: self.glyph_pos, style: self.style@ }
    }
}

/// What owned and borrowed keys have in common: each can be read as a
/// borrowed key, and is compared through it.
pub trait GlyphKeyTrait {
    /// The key by value.
    spec fn key_view(&self) -> GlyphKeyView;

    /// The key with its style borrowed.
    fn key<'k>(&'k self) -> (k: BorrowedGlyphKey<'k>)
        ensures
            k@ == self.key_view(),
    ;
}

impl GlyphKeyTrait for GlyphKey {
    open spec fn key_view(&self) -> GlyphKeyView {
        self@
    }

    fn key<'k>(&'k self) -> (k: BorrowedGlyphKey<'k>) {
        BorrowedGlyphKey { font_idx: self.font_idx, glyph_pos: self.glyph_pos, style: &self.style }
    }
}

impl<'a> GlyphKeyTrait for BorrowedGlyphKey<'a> {
    open spec fn key_view(&self) -> GlyphKeyView {
        self@
    }

    fn key<'k>(&'k self) -> (k: BorrowedGlyphKey<'k>) {
        *self
    }
}

impl<'a> BorrowedGlyphKey<'a> {
    /// The same key with a style of its own.
    pub fn to_owned(&self) -> (k: GlyphKey)
        ensures
            k@ == self@,
            k.style == *self.style,
    {
        GlyphKey {
            font_idx: self.font_idx,
            glyph_pos: self.glyph_pos,
            style: self.style.clone(),
        }
    }
}

impl<'a> PartialEq for BorrowedGlyphKey<'a> {
    fn eq(&self, other: &BorrowedGlyphKey<'a>) -> (r: bool) {
        self.font_idx == other.font_idx && self.glyph_pos == other.glyph_pos && *self.style
            == *other.style
    }
}

impl<'a> PartialEqSpecImpl for BorrowedGlyphKey<'a> {
    open spec fn obeys_eq_spec() -> bool {
        true
    }

    open spec fn eq_spec(&self, other: &BorrowedGlyphKey<'a>) -> bool {
        self@ == other@
    }
}

impl PartialEq for GlyphKey {
    fn eq(&self, other: &GlyphKey) -> (r: bool) {
        self.font_idx == other.font_idx && self.glyph_pos == other.glyph_pos && self.style
            == other.style
    }
}

impl PartialEqSpecImpl for GlyphKey {
    open spec fn obeys_eq_spec() -> bool {
        true
    }

    open spec fn eq_spec(&self, other: &GlyphKey) -> bool {
        self@ == other@
    }
}

/// Whether two keys, owned or borrowed, name the same glyph.
pub fn same_key<A: GlyphKeyTrait, B: GlyphKeyTrait>(a: &A, b: &B) -> (r: bool)
    ensures
        r == (a.key_view() == b.key_view()),
{
    let left = a.key();
    let right = b.key();
    left == right
}

/// Two keys are the same exactly when font, glyph and style are the same
/// by value, whichever of them owns its style.
pub proof fn lemma_key_equality(a: GlyphKeyView, b: GlyphKeyView)
    ensures
        a == b <==> (a.font_idx == b.font_idx && a.glyph_pos == b.glyph_pos && a.style.family
            == b.style.family && a.style.bold == b.style.bold && a.style.italic
            == b.style.italic),
{
}

/// A borrowed key and the owned key made from it are one key, and so are an
/// owned key and the borrowed key read from it.
pub proof fn lemma_borrowed_matches_owned(owned: GlyphKey, borrowed: BorrowedGlyphKey)
    ensures
        owned.key_view() == borrowed.key_view() <==> (owned.font_idx == borrowed.font_idx
            && owned.glyph_pos == borrowed.glyph_pos && owned.style@ == borrowed.style@),
{
}

} // verus!
