use std::collections::hash_map::DefaultHasher;
use std::hash::Hash;
use std::hash::Hasher;
use termfront::glyphkey::same_key;
use termfront::glyphkey::BorrowedGlyphKey;
use termfront::glyphkey::GlyphKey;
use termfront::glyphkey::GlyphKeyTrait;
use termfront::style::TextStyle;

fn style(family: &str, bold: bool, italic: bool) -> TextStyle {
    TextStyle { family: family.to_string(), bold, italic }
}

fn hash_of<T: Hash>(value: &T) -> u64 {
    let mut hasher = DefaultHasher::new();
    value.hash(&mut hasher);
    hasher.finish()
}

#[test]
fn styles_are_equal_by_value() {
    assert_eq!(style("mono", true, false), style("mono", true, false));
    assert_ne!(style("mono", true, false), style("mono", false, false));
    assert_ne!(style("mono", true, false), style("mono", true, true));
    assert_ne!(style("mono", true, false), style("sans", true, false));
}

#[test]
fn a_cloned_style_is_the_same_style() {
    let first = style("mono", false, true);
    let copy = first.clone();
    assert_eq!(copy, first);
    assert_eq!(copy.family, "mono");
    assert!(copy.italic);
    assert!(!copy.bold);
}

#[test]
fn to_owned_keeps_all_three_parts() {
    let s = style("mono", true, false);
    let borrowed = BorrowedGlyphKey { font_idx: 2, glyph_pos: 77, style: &s };
    let owned = borrowed.to_owned();
    assert_eq!(owned.font_idx, 2);
    assert_eq!(owned.glyph_pos, 77);
    assert_eq!(owned.style, s);
}

#[test]
fn key_of_an_owned_key_borrows_its_style() {
    let owned = GlyphKey { font_idx: 1, glyph_pos: 9, style: style("mono", false, false) };
    let borrowed = owned.key();
    assert_eq!(borrowed.font_idx, 1);
    assert_eq!(borrowed.glyph_pos, 9);
    assert!(std::ptr::eq(borrowed.style, &owned.style));
}

#[test]
fn key_of_a_borrowed_key_is_itself() {
    let s = style("mono", false, false);
    let borrowed = BorrowedGlyphKey { font_idx: 1, glyph_pos: 9, style: &s };
    assert_eq!(borrowed.key(), borrowed);
}

#[test]
fn keys_are_equal_when_all_three_parts_are() {
    let a = GlyphKey { font_idx: 1, glyph_pos: 9, style: style("mono", false, false) };
    let same = GlyphKey { font_idx: 1, glyph_pos: 9, style: style("mono", false, false) };
    let other_font = GlyphKey { font_idx: 2, glyph_pos: 9, style: style("mono", false, false) };
    let other_glyph = GlyphKey { font_idx: 1, glyph_pos: 8, style: style("mono", false, false) };
    let other_style = GlyphKey { font_idx: 1, glyph_pos: 9, style: style("mono", true, false) };
    assert_eq!(a, same);
    assert_ne!(a, other_font);
    assert_ne!(a, other_glyph);
    assert_ne!(a, other_style);
}

#[test]
fn borrowed_and_owned_keys_compare_through_the_same_view() {
    let s = style("mono", true, true);
    let t = style("mono", true, true);
    let owned = GlyphKey { font_idx: 3, glyph_pos: 4, style: s };
    let borrowed = BorrowedGlyphKey { font_idx: 3, glyph_pos: 4, style: &t };
    assert!(same_key(&owned, &borrowed));
    assert!(same_key(&borrowed, &owned));
    assert!(same_key(&borrowed, &borrowed));
    assert!(same_key(&owned, &owned));
    let u = style("mono", true, false);
    let different = BorrowedGlyphKey { font_idx: 3, glyph_pos: 4, style: &u };
    assert!(!same_key(&owned, &different));
    let elsewhere = BorrowedGlyphKey { font_idx: 3, glyph_pos: 5, style: &t };
    assert!(!same_key(&owned, &elsewhere));
}

#[test]
fn borrowed_and_owned_keys_hash_alike() {
    let owned = GlyphKey { font_idx: 3, glyph_pos: 4, style: style("mono", true, false) };
    let s = style("mono", true, false);
    let borrowed = BorrowedGlyphKey { font_idx: 3, glyph_pos: 4, style: &s };
    assert_eq!(hash_of(&owned), hash_of(&borrowed));
    assert_eq!(hash_of(&owned), hash_of(&owned.key()));
    assert_eq!(hash_of(&borrowed.to_owned()), hash_of(&borrowed));
}
