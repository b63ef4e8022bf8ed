use std::cell::Cell;
use std::rc::Rc;
use termfront::atlas::Atlas;
use termfront::atlas::ImageTexture;
use termfront::atlas::Rect;
use termfront::atlas::Sprite;
use termfront::font::FontConfiguration;
use termfront::font::FontMetrics;
use termfront::font::GlyphInfo;
use termfront::font::RasterizedGlyph;
use termfront::glyphcache::compute_scale;
use termfront::glyphcache::place_image;
use termfront::glyphcache::render_glyph;
use termfront::glyphcache::CachedGlyph;
use termfront::glyphcache::GlyphCache;
use termfront::glyphcache::GlyphError;
use termfront::glyphcache::ImageData;
use termfront::style::TextStyle;
use termfront::units::PixelLength;
use termfront::units::Scale;

/// Cells of 8 by 16 pixels.
const METRICS: FontMetrics = FontMetrics { cell_width: 8 * 64, cell_height: 16 * 64 };

const SPACE: u32 = 0;
const SMALL: u32 = 1;
const TALL: u32 = 2;
const BROKEN: u32 = 3;
const SHORT: u32 = 4;
const THIN: u32 = 5;

/// Fonts that count how often they are asked. The family "none" has no
/// font.
struct Fonts {
    resolved: Rc<Cell<usize>>,
    rasterized: Rc<Cell<usize>>,
}

fn glyph(width: u32, height: u32, fill: u8) -> RasterizedGlyph {
    RasterizedGlyph {
        data: vec![fill; (width * height * 4) as usize],
        width,
        height,
        bearing_x: PixelLength::new(-64),
        bearing_y: PixelLength::new(640),
        has_color: fill > 100,
    }
}

impl FontConfiguration for Fonts {
    fn resolve_font(&self, style: &TextStyle) -> Option<FontMetrics> {
        self.resolved.set(self.resolved.get() + 1);
        if style.family == "none" {
            None
        } else {
            Some(METRICS)
        }
    }

    fn rasterize_glyph(&self, style: &TextStyle, glyph_pos: u32, _font_idx: usize) -> Option<RasterizedGlyph> {
        self.rasterized.set(self.rasterized.get() + 1);
        let fill = if style.bold { 200 } else { 50 };
        match glyph_pos {
            SPACE => Some(glyph(0, 0, fill)),
            SMALL => Some(glyph(2, 3, fill)),
            TALL => Some(glyph(10, 40, fill)),
            SHORT => {
                let mut g = glyph(2, 3, fill);
                g.data.pop();
                Some(g)
            }
            THIN => Some(glyph(0, 40, fill)),
            _ => None,
        }
    }
}

struct Counted {
    cache: GlyphCache<ImageTexture, Fonts>,
    resolved: Rc<Cell<usize>>,
    rasterized: Rc<Cell<usize>>,
}

fn counted(size: usize) -> Counted {
    let resolved = Rc::new(Cell::new(0));
    let rasterized = Rc::new(Cell::new(0));
    let fonts = Fonts { resolved: Rc::clone(&resolved), rasterized: Rc::clone(&rasterized) };
    Counted { cache: GlyphCache::new(fonts, size), resolved, rasterized }
}

fn style(family: &str, bold: bool) -> TextStyle {
    TextStyle { family: family.to_string(), bold, italic: false }
}

fn info(glyph_pos: u32) -> GlyphInfo {
    GlyphInfo {
        font_idx: 0,
        glyph_pos,
        x_offset: PixelLength::new(128),
        y_offset: PixelLength::new(-30),
    }
}

fn rect(x: usize, y: usize, width: usize, height: usize) -> Rect {
    Rect { x, y, width, height }
}

/// The bytes of a PNG file of the given pixels, red, green, blue and alpha.
fn png(width: u32, height: u32, rgba: Vec<u8>) -> Vec<u8> {
    let buffer = image::RgbaImage::from_raw(width, height, rgba).unwrap();
    let mut out = Vec::new();
    image::DynamicImage::ImageRgba8(buffer)
        .write_to(&mut out, image::ImageOutputFormat::Png)
        .unwrap();
    out
}

/// Width, height and pixels in blue, green, red, alpha order of an image
/// file, or nothing where the bytes are no image.
fn decode(data: &[u8]) -> Option<(u32, u32, Vec<u8>)> {
    let decoded = image::load_from_memory(data).ok()?.to_bgra8();
    let (width, height) = decoded.dimensions();
    Some((width, height, decoded.into_raw()))
}

#[test]
fn ordinary_glyphs_keep_their_size() {
    assert_eq!(compute_scale(&METRICS, 16), Scale { num: 1, den: 1 });
    assert_eq!(compute_scale(&METRICS, 0), Scale { num: 1, den: 1 });
    // One and a half cells is not yet too tall.
    assert_eq!(compute_scale(&METRICS, 24), Scale { num: 1, den: 1 });
}

#[test]
fn oversize_glyphs_are_scaled_to_the_cell() {
    assert_eq!(compute_scale(&METRICS, 25), Scale { num: 1024, den: 25 * 64 });
    assert_eq!(compute_scale(&METRICS, 40), Scale { num: 1024, den: 2560 });
    let flat = FontMetrics { cell_width: 0, cell_height: 0 };
    assert_eq!(compute_scale(&flat, 1), Scale { num: 0, den: 64 });
    assert_eq!(compute_scale(&flat, 0), Scale { num: 1, den: 1 });
}

#[test]
fn rendering_an_ordinary_glyph() {
    let mut atlas = Atlas::new(ImageTexture::new(32, 32), 32);
    let rendered = render_glyph(&mut atlas, &info(SMALL), &METRICS, &glyph(2, 3, 50)).unwrap();
    assert_eq!(
        rendered,
        CachedGlyph {
            has_color: false,
            x_offset: PixelLength::new(128),
            y_offset: PixelLength::new(-30),
            bearing_x: PixelLength::new(-64),
            bearing_y: PixelLength::new(640),
            texture: Some(Sprite { coords: rect(1, 1, 2, 3) }),
            scale: Scale { num: 1, den: 1 },
        }
    );
}

#[test]
fn rendering_an_oversize_glyph_scales_it_into_the_atlas() {
    let mut atlas = Atlas::new(ImageTexture::new(32, 32), 32);
    let rendered = render_glyph(&mut atlas, &info(TALL), &METRICS, &glyph(10, 40, 200)).unwrap();
    assert_eq!(
        rendered,
        CachedGlyph {
            has_color: true,
            // 128 * 0.4 = 51.2, -30 * 0.4 = -12, -64 * 0.4 = -25.6, 640 * 0.4 = 256
            x_offset: PixelLength::new(51),
            y_offset: PixelLength::new(-12),
            bearing_x: PixelLength::new(-25),
            bearing_y: PixelLength::new(256),
            texture: Some(Sprite { coords: rect(1, 1, 4, 16) }),
            scale: Scale { num: 1, den: 1 },
        }
    );
    // The height on the atlas is the height of a cell.
    assert!(rendered.texture.unwrap().coords.height * 64 <= METRICS.cell_height as usize);
    // The pixels are there, swapped to blue, green, red, alpha order (all equal here).
    let texture = atlas.texture().image();
    let at = (1 * 32 + 1) * 4;
    assert_eq!(&texture.data()[at..at + 4], &[200, 200, 200, 200]);
    let filled = texture.data().iter().filter(|b| **b == 200).count();
    assert_eq!(filled, 4 * 16 * 4);
}

#[test]
fn rendering_whitespace_takes_no_room() {
    let mut atlas = Atlas::new(ImageTexture::new(8, 8), 8);
    let rendered = render_glyph(&mut atlas, &info(SPACE), &METRICS, &glyph(0, 0, 50)).unwrap();
    assert_eq!(
        rendered,
        CachedGlyph {
            has_color: false,
            x_offset: PixelLength::new(128),
            y_offset: PixelLength::new(-30),
            bearing_x: PixelLength::zero(),
            bearing_y: PixelLength::zero(),
            texture: None,
            scale: Scale { num: 1, den: 1 },
        }
    );
    let wide = render_glyph(&mut atlas, &info(SPACE), &METRICS, &glyph(5, 0, 50)).unwrap();
    assert_eq!(wide.texture, None);
    // Nothing was handed out: the next sprite is the first.
    let first = atlas.allocate(&termfront::bitmap::Image::new(1, 1)).unwrap();
    assert_eq!(first.coords, rect(1, 1, 1, 1));
}

#[test]
fn oversize_whitespace_keeps_its_scale() {
    let mut atlas = Atlas::new(ImageTexture::new(8, 8), 8);
    let rendered = render_glyph(&mut atlas, &info(THIN), &METRICS, &glyph(0, 40, 50)).unwrap();
    assert_eq!(rendered.texture, None);
    assert_eq!(rendered.scale, Scale { num: 1024, den: 2560 });
    assert_eq!(rendered.x_offset, PixelLength::new(51));
    assert_eq!(rendered.y_offset, PixelLength::new(-12));
    assert_eq!(rendered.bearing_x, PixelLength::zero());
    assert_eq!(rendered.bearing_y, PixelLength::zero());
}

#[test]
fn rendering_a_short_bitmap_fails() {
    let mut atlas = Atlas::new(ImageTexture::new(8, 8), 8);
    let mut short = glyph(2, 3, 50);
    short.data.pop();
    assert_eq!(
        render_glyph(&mut atlas, &info(SMALL), &METRICS, &short),
        Err(GlyphError::Rasterization)
    );
    // A longer buffer than needed is accepted.
    let mut long = glyph(2, 3, 50);
    long.data.push(0);
    assert!(render_glyph(&mut atlas, &info(SMALL), &METRICS, &long).is_ok());
}

#[test]
fn rendering_without_room_names_the_side_needed() {
    let mut atlas = Atlas::new(ImageTexture::new(4, 4), 4);
    assert_eq!(
        render_glyph(&mut atlas, &info(SMALL), &METRICS, &glyph(2, 3, 50)),
        Err(GlyphError::AtlasOutOfSpace { required_size: 4 + 5 })
    );
    // The oversize glyph is measured at its scaled size, 4 by 16.
    assert_eq!(
        render_glyph(&mut atlas, &info(TALL), &METRICS, &glyph(10, 40, 50)),
        Err(GlyphError::AtlasOutOfSpace { required_size: 4 + 18 })
    );
}

#[test]
fn a_glyph_is_rendered_once() {
    let mut c = counted(32);
    let first = c.cache.cached_glyph(&info(SMALL), &style("mono", false)).unwrap();
    assert_eq!(c.rasterized.get(), 1);
    assert_eq!(c.resolved.get(), 1);
    // The style is compared by value: another style object of the same value hits.
    let second = c.cache.cached_glyph(&info(SMALL), &style("mono", false)).unwrap();
    assert_eq!(c.rasterized.get(), 1);
    assert_eq!(c.resolved.get(), 1);
    assert!(Rc::ptr_eq(&first, &second));
    assert_eq!(*first, *second);
}

#[test]
fn offsets_are_no_part_of_the_key() {
    let mut c = counted(32);
    let first = c.cache.cached_glyph(&info(SMALL), &style("mono", false)).unwrap();
    let mut moved = info(SMALL);
    moved.x_offset = PixelLength::new(999);
    let second = c.cache.cached_glyph(&moved, &style("mono", false)).unwrap();
    assert!(Rc::ptr_eq(&first, &second));
    assert_eq!(second.x_offset, PixelLength::new(128));
    assert_eq!(c.rasterized.get(), 1);
}

#[test]
fn styles_do_not_alias() {
    let mut c = counted(32);
    let plain = c.cache.cached_glyph(&info(SMALL), &style("mono", false)).unwrap();
    let bold = c.cache.cached_glyph(&info(SMALL), &style("mono", true)).unwrap();
    assert_eq!(c.rasterized.get(), 2);
    assert!(!Rc::ptr_eq(&plain, &bold));
    assert!(!plain.has_color);
    assert!(bold.has_color);
    assert_ne!(plain.texture, bold.texture);
    assert_eq!(plain.texture, Some(Sprite { coords: rect(1, 1, 2, 3) }));
    assert_eq!(bold.texture, Some(Sprite { coords: rect(5, 1, 2, 3) }));
    // Both stay remembered.
    assert!(Rc::ptr_eq(&plain, &c.cache.cached_glyph(&info(SMALL), &style("mono", false)).unwrap()));
    assert!(Rc::ptr_eq(&bold, &c.cache.cached_glyph(&info(SMALL), &style("mono", true)).unwrap()));
    assert_eq!(c.rasterized.get(), 2);
}

#[test]
fn fonts_and_glyphs_do_not_alias() {
    let mut c = counted(32);
    let a = c.cache.cached_glyph(&info(SMALL), &style("mono", false)).unwrap();
    let mut fallback = info(SMALL);
    fallback.font_idx = 1;
    let b = c.cache.cached_glyph(&fallback, &style("mono", false)).unwrap();
    let d = c.cache.cached_glyph(&info(TALL), &style("mono", false)).unwrap();
    assert_eq!(c.rasterized.get(), 3);
    assert!(!Rc::ptr_eq(&a, &b));
    assert!(!Rc::ptr_eq(&a, &d));
}

#[test]
fn whitespace_is_remembered_without_a_region() {
    let mut c = counted(32);
    let space = c.cache.cached_glyph(&info(SPACE), &style("mono", false)).unwrap();
    assert_eq!(space.texture, None);
    assert_eq!(space.bearing_x, PixelLength::zero());
    let again = c.cache.cached_glyph(&info(SPACE), &style("mono", false)).unwrap();
    assert!(Rc::ptr_eq(&space, &again));
    assert_eq!(c.rasterized.get(), 1);
    // The atlas is still empty.
    let next = c.cache.cached_glyph(&info(SMALL), &style("mono", false)).unwrap();
    assert_eq!(next.texture, Some(Sprite { coords: rect(1, 1, 2, 3) }));
}

#[test]
fn a_cached_oversize_glyph_is_at_most_a_cell_tall() {
    let mut c = counted(32);
    let tall = c.cache.cached_glyph(&info(TALL), &style("mono", false)).unwrap();
    let region = tall.texture.unwrap().coords;
    assert_eq!((region.width, region.height), (4, 16));
    assert_eq!(tall.scale, Scale { num: 1, den: 1 });
    let small = c.cache.cached_glyph(&info(SMALL), &style("mono", false)).unwrap();
    assert_eq!(small.scale, Scale { num: 1, den: 1 });
    let region = small.texture.unwrap().coords;
    assert_eq!((region.width, region.height), (2, 3));
}

#[test]
fn a_missing_font_is_reported_and_not_remembered() {
    let mut c = counted(32);
    assert_eq!(
        c.cache.cached_glyph(&info(SMALL), &style("none", false)).unwrap_err(),
        GlyphError::FontResolution
    );
    assert_eq!(c.resolved.get(), 1);
    assert_eq!(c.rasterized.get(), 0);
    // A later call asks the fonts again.
    assert_eq!(
        c.cache.cached_glyph(&info(SMALL), &style("none", false)).unwrap_err(),
        GlyphError::FontResolution
    );
    assert_eq!(c.resolved.get(), 2);
}

#[test]
fn a_failed_rasterization_is_reported_and_not_remembered() {
    let mut c = counted(32);
    assert_eq!(
        c.cache.cached_glyph(&info(BROKEN), &style("mono", false)).unwrap_err(),
        GlyphError::Rasterization
    );
    assert_eq!(
        c.cache.cached_glyph(&info(SHORT), &style("mono", false)).unwrap_err(),
        GlyphError::Rasterization
    );
    assert_eq!(c.rasterized.get(), 2);
    assert_eq!(
        c.cache.cached_glyph(&info(BROKEN), &style("mono", false)).unwrap_err(),
        GlyphError::Rasterization
    );
    assert_eq!(c.rasterized.get(), 3);
    // The atlas is still empty.
    let next = c.cache.cached_glyph(&info(SMALL), &style("mono", false)).unwrap();
    assert_eq!(next.texture, Some(Sprite { coords: rect(1, 1, 2, 3) }));
}

#[test]
fn a_full_atlas_is_reported_and_nothing_is_remembered() {
    let mut c = counted(6);
    let small = c.cache.cached_glyph(&info(SMALL), &style("mono", false)).unwrap();
    assert_eq!(small.texture, Some(Sprite { coords: rect(1, 1, 2, 3) }));
    assert_eq!(
        c.cache.cached_glyph(&info(SMALL), &style("mono", true)).unwrap_err(),
        GlyphError::AtlasOutOfSpace { required_size: 6 + 5 }
    );
    assert_eq!(c.rasterized.get(), 2);
    // Trying again renders again, and fails the same way.
    assert_eq!(
        c.cache.cached_glyph(&info(SMALL), &style("mono", true)).unwrap_err(),
        GlyphError::AtlasOutOfSpace { required_size: 6 + 5 }
    );
    assert_eq!(c.rasterized.get(), 3);
    // What was remembered still is.
    assert!(Rc::ptr_eq(&small, &c.cache.cached_glyph(&info(SMALL), &style("mono", false)).unwrap()));
    assert_eq!(c.cache.atlas().side(), 6);
}

#[test]
fn a_new_atlas_forgets_every_glyph_and_image() {
    let mut c = counted(6);
    let before = c.cache.cached_glyph(&info(SMALL), &style("mono", false)).unwrap();
    let bytes = png(1, 1, vec![1, 2, 3, 4]);
    let picture = ImageData::new(7, &bytes);
    assert_eq!(
        c.cache.cached_image(&picture, decode).unwrap_err(),
        GlyphError::AtlasOutOfSpace { required_size: 6 + 3 }
    );
    let needed = match c.cache.cached_glyph(&info(SMALL), &style("mono", true)).unwrap_err() {
        GlyphError::AtlasOutOfSpace { required_size } => required_size,
        other => panic!("unexpected {:?}", other),
    };
    c.cache.recreate_atlas(ImageTexture::new(needed, needed), needed);
    assert_eq!(c.cache.atlas().side(), 11);
    // The glyph that failed has room now, at the start of the new atlas.
    let bold = c.cache.cached_glyph(&info(SMALL), &style("mono", true)).unwrap();
    assert_eq!(bold.texture, Some(Sprite { coords: rect(1, 1, 2, 3) }));
    // The glyph remembered before is rendered again, into the new atlas.
    let rasterized = c.rasterized.get();
    let after = c.cache.cached_glyph(&info(SMALL), &style("mono", false)).unwrap();
    assert_eq!(c.rasterized.get(), rasterized + 1);
    assert!(!Rc::ptr_eq(&before, &after));
    assert_eq!(after.texture, Some(Sprite { coords: rect(5, 1, 2, 3) }));
    assert_eq!(c.cache.cached_image(&picture, decode).unwrap().coords, rect(9, 1, 1, 1));
}

#[test]
fn an_image_is_decoded_into_the_atlas() {
    let mut c = counted(16);
    let bytes = png(2, 1, vec![10, 20, 30, 255, 40, 50, 60, 128]);
    let picture = ImageData::new(1, &bytes);
    assert_eq!(picture.id(), 1);
    let sprite = c.cache.cached_image(&picture, decode).unwrap();
    assert_eq!(sprite, Sprite { coords: rect(1, 1, 2, 1) });
    // The texture holds the pixels in blue, green, red, alpha order.
    let texture = c.cache.atlas().texture().image();
    let at = (1 * 16 + 1) * 4;
    assert_eq!(&texture.data()[at..at + 8], &[30, 20, 10, 255, 60, 50, 40, 128]);
}

#[test]
fn an_image_is_decoded_once() {
    let mut c = counted(16);
    let bytes = png(2, 1, vec![10, 20, 30, 255, 40, 50, 60, 128]);
    let picture = ImageData::new(1, &bytes);
    let first = c.cache.cached_image(&picture, decode).unwrap();
    // The identifier stands for the bytes: other bytes under it are not even looked at.
    let rubbish = ImageData::new(1, &[1, 2, 3]);
    let second = c.cache.cached_image(&rubbish, decode).unwrap();
    assert_eq!(first, second);
    // Nothing more was handed out.
    let next = c.cache.cached_image(&ImageData::new(2, &png(1, 1, vec![0, 0, 0, 0])), decode).unwrap();
    assert_eq!(next.coords, rect(5, 1, 1, 1));
}

#[test]
fn images_of_different_identifiers_are_decoded_apart() {
    let mut c = counted(16);
    let bytes = png(2, 2, vec![9; 16]);
    let a = c.cache.cached_image(&ImageData::new(1, &bytes), decode).unwrap();
    let b = c.cache.cached_image(&ImageData::new(2, &bytes), decode).unwrap();
    assert_eq!(a.coords, rect(1, 1, 2, 2));
    assert_eq!(b.coords, rect(5, 1, 2, 2));
}

#[test]
fn bytes_that_are_no_image_are_reported_and_not_remembered() {
    let mut c = counted(16);
    let rubbish = ImageData::new(3, &[1, 2, 3, 4, 5]);
    assert_eq!(c.cache.cached_image(&rubbish, decode).unwrap_err(), GlyphError::Decode);
    assert_eq!(c.cache.cached_image(&ImageData::new(3, &[]), decode).unwrap_err(), GlyphError::Decode);
    // The identifier is still free for an image that can be read.
    let bytes = png(1, 1, vec![5, 6, 7, 8]);
    let good = ImageData::new(3, &bytes);
    assert_eq!(c.cache.cached_image(&good, decode).unwrap().coords, rect(1, 1, 1, 1));
}

#[test]
fn images_and_glyphs_share_the_atlas() {
    let mut c = counted(16);
    let glyph = c.cache.cached_glyph(&info(SMALL), &style("mono", false)).unwrap();
    let sprite = c.cache.cached_image(&ImageData::new(1, &png(3, 2, vec![7; 24])), decode).unwrap();
    assert_eq!(glyph.texture.unwrap().coords, rect(1, 1, 2, 3));
    assert_eq!(sprite.coords, rect(5, 1, 3, 2));
}

#[test]
fn placing_a_decoded_image() {
    let mut atlas = Atlas::new(ImageTexture::new(8, 8), 8);
    assert_eq!(
        place_image(&mut atlas, 2, 2, vec![0; 16]),
        Ok(Sprite { coords: rect(1, 1, 2, 2) })
    );
    assert_eq!(place_image(&mut atlas, 2, 2, vec![0; 15]), Err(GlyphError::Decode));
    assert_eq!(
        place_image(&mut atlas, 7, 1, vec![0; 28]),
        Err(GlyphError::AtlasOutOfSpace { required_size: 8 + 9 })
    );
    assert_eq!(
        place_image(&mut atlas, u32::MAX, u32::MAX, Vec::new()),
        Err(GlyphError::Decode)
    );
}

#[test]
fn a_cache_can_sit_on_any_texture() {
    let resolved = Rc::new(Cell::new(0));
    let rasterized = Rc::new(Cell::new(0));
    let fonts = Fonts { resolved, rasterized };
    let mut cache = GlyphCache::with_texture(fonts, ImageTexture::new(64, 32), 32);
    assert_eq!(cache.atlas().side(), 32);
    let glyph = cache.cached_glyph(&info(SMALL), &style("mono", false)).unwrap();
    assert_eq!(glyph.texture.unwrap().coords, rect(1, 1, 2, 3));
    assert_eq!(cache.atlas().texture().image().width(), 64);
}

#[test]
fn a_remembered_image_is_not_decoded_again() {
    let mut c = counted(16);
    let bytes = png(1, 1, vec![1, 2, 3, 4]);
    let picture = ImageData::new(9, &bytes);
    let decoded = Cell::new(0);
    let counting = |data: &[u8]| {
        decoded.set(decoded.get() + 1);
        decode(data)
    };
    let first = c.cache.cached_image(&picture, &counting).unwrap();
    assert_eq!(decoded.get(), 1);
    let second = c.cache.cached_image(&picture, &counting).unwrap();
    assert_eq!(decoded.get(), 1);
    assert_eq!(first, second);
    let other = ImageData::new(10, &bytes);
    c.cache.cached_image(&other, &counting).unwrap();
    assert_eq!(decoded.get(), 2);
}

#[test]
fn the_decoder_gets_the_bytes_of_the_image() {
    let mut c = counted(16);
    let picture = ImageData::new(4, &[7, 8, 9]);
    let sprite = c
        .cache
        .cached_image(&picture, |data: &[u8]| {
            assert_eq!(data, &[7, 8, 9]);
            Some((1, 2, vec![5; 8]))
        })
        .unwrap();
    assert_eq!(sprite.coords, rect(1, 1, 1, 2));
    let short = ImageData::new(5, &[1]);
    assert_eq!(
        c.cache.cached_image(&short, |_: &[u8]| Some((2, 2, vec![0; 15]))).unwrap_err(),
        GlyphError::Decode
    );
}
