use crate::atlas::Atlas;
use crate::atlas::ImageTexture;
use crate::atlas::Rect;
use crate::atlas::Sprite;
use crate::atlas::Texture2d;
use crate::bitmap::rows_fit;
use crate::bitmap::Image;
use crate::font::FontConfiguration;
use crate::font::FontMetrics;
use crate::font::GlyphInfo;
use crate::font::RasterizedGlyph;
use crate::units::lemma_scaled_magnitude_bounds;
use crate::units::scaled_magnitude;
use crate::units::PixelLength;
use crate::units::Scale;
use crate::glyphkey::same_key;
use crate::glyphkey::BorrowedGlyphKey;
use crate::glyphkey::GlyphKey;
use crate::glyphkey::GlyphKeyView;
use crate::style::TextStyle;
use std::collections::HashMap;
use std::rc::Rc;
use vstd::prelude::*;
use vstd::std_specs::hash::group_hash_axioms;

verus! {

/// A rendered glyph: where to draw it, and the region of the atlas that
/// holds its bitmap. A glyph without pixels has no region.
#[derive(Clone, Copy, Debug, PartialEq, Eq, Structural)]
pub struct CachedGlyph {
    pub has_color: bool,
    pub x_offset: PixelLength,
    pub y_offset: PixelLength,
    pub bearing_x: PixelLength,
    pub bearing_y: PixelLength,
    pub texture: Option<Sprite>,
    pub scale: Scale,
}

/// Why a glyph or an image could not be resolved.
#[derive(Clone, Copy, Debug, PartialEq, Eq, Structural)]
pub enum GlyphError {
    /// No font matches the style.
    FontResolution,
    /// The font could not draw the glyph, or handed out a bitmap shorter
    /// than its size.
    Rasterization,
    /// The bytes of an image could not be decoded.
    Decode,
    /// The atlas has no room left; one of side `required_size` has.
    AtlasOutOfSpace { required_size: usize },
}

/// Whether a glyph `height` pixels tall is more than one and a half cells
/// tall.
pub open spec fn is_oversize(metrics: FontMetrics, height: u32) -> bool {
    height * 64 * 2 > metrics.cell_height * 3
}

/// The scale that brings an oversize glyph down to the height of a cell;
/// other glyphs keep their size.
pub open spec fn glyph_scale(metrics: FontMetrics, height: u32) -> Scale {
    if is_oversize(metrics, height) {
        Scale { num: metrics.cell_height as u64, den: (height * 64) as u64 }
    } else {
        Scale { num: 1, den: 1 }
    }
}

/// Whether a glyph has no pixel at all.
pub open spec fn is_whitespace(glyph: RasterizedGlyph) -> bool {
    glyph.width == 0 || glyph.height == 0
}

/// A length under a scale.
pub open spec fn scaled_length(scale: Scale, length: PixelLength) -> PixelLength {
    PixelLength { units: scale.apply(length.units as int) as i64 }
}

/// Width of the bitmap that the atlas gets for a glyph.
pub open spec fn stored_width(metrics: FontMetrics, glyph: RasterizedGlyph) -> nat {
    let scale = glyph_scale(metrics, glyph.height);
    scaled_magnitude(glyph.width as nat, scale.num as nat, scale.den as nat)
}

/// Height of the bitmap that the atlas gets for a glyph.
pub open spec fn stored_height(metrics: FontMetrics, glyph: RasterizedGlyph) -> nat {
    let scale = glyph_scale(metrics, glyph.height);
    scaled_magnitude(glyph.height as nat, scale.num as nat, scale.den as nat)
}

/// What rendering a glyph gives, where `placement` is the region that the
/// atlas has for its bitmap and `required` the side that the atlas asks for
/// when it has none.
///
/// A glyph without pixels takes no region: its offsets are scaled, its
/// bearing is zero and it keeps its scale. Any other glyph has its bitmap in
/// the atlas at its final size, so its record says that nothing is left to
/// scale.
pub open spec fn rendered(
    info: GlyphInfo,
    metrics: FontMetrics,
    glyph: RasterizedGlyph,
    placement: Option<Rect>,
    required: usize,
) -> Result<CachedGlyph, GlyphError> {
    let scale = glyph_scale(metrics, glyph.height);
    if is_whitespace(glyph) {
        Ok(
            CachedGlyph {
                has_color: glyph.has_color,
                x_offset: scaled_length(scale, info.x_offset),
                y_offset: scaled_length(scale, info.y_offset),
                bearing_x: PixelLength { units: 0 },
                bearing_y: PixelLength { units: 0 },
                texture: None,
                scale,
            },
        )
    } else if !rows_fit(
        glyph.width as nat,
        glyph.height as nat,
        4 * glyph.width as nat,
        glyph.data@.len(),
    ) {
        Err(GlyphError::Rasterization)
    } else {
        match placement {
            None => Err(GlyphError::AtlasOutOfSpace { required_size: required }),
            Some(coords) => Ok(
                CachedGlyph {
                    has_color: glyph.has_color,
                    x_offset: scaled_length(scale, info.x_offset),
                    y_offset: scaled_length(scale, info.y_offset),
                    bearing_x: scaled_length(scale, glyph.bearing_x),
                    bearing_y: scaled_length(scale, glyph.bearing_y),
                    texture: Some(Sprite { coords }),
                    scale: Scale { num: 1, den: 1 },
                },
            ),
        }
    }
}

/// A length scaled by a factor of at most one is a length still.
proof fn lemma_scaled_length_fits(scale: Scale, length: PixelLength)
    requires
        scale.well_formed(),
        scale.num <= scale.den,
    ensures
        i64::MIN <= scale.apply(length.units as int) <= i64::MAX,
{
    if length.units >= 0 {
        lemma_scaled_magnitude_bounds(length.units as nat, scale.num as nat, scale.den as nat);
    } else {
        lemma_scaled_magnitude_bounds((-length.units) as nat, scale.num as nat, scale.den as nat);
    }
}

/// The scale for a glyph of the given height under the given metrics.
pub fn compute_scale(metrics: &FontMetrics, height: u32) -> (scale: Scale)
    ensures
        scale == glyph_scale(*metrics, height),
        scale.well_formed(),
        scale.num <= scale.den,
{
    let tall: u64 = (height as u64) * 128;
    let limit: u64 = (metrics.cell_height as u64) * 3;
    if tall > limit {
        Scale { num: metrics.cell_height as u64, den: (height as u64) * 64 }
    } else {
        Scale::unit()
    }
}

/// Renders one glyph: scales its offsets, and puts its bitmap, brought down
/// to the height of a cell where it is oversize, into the atlas.
///
/// Nothing changes in the atlas for a glyph without pixels, nor when the
/// glyph cannot be rendered.
pub fn render_glyph<T: Texture2d>(
    atlas: &mut Atlas<T>,
    info: &GlyphInfo,
    metrics: &FontMetrics,
    glyph: &RasterizedGlyph,
) -> (r: Result<CachedGlyph, GlyphError>)
    requires
        old(atlas).well_formed(),
    ensures
        final(atlas).well_formed(),
        final(atlas).spec_side() == old(atlas).spec_side(),
        r == rendered(
            *info,
            *metrics,
            *glyph,
            old(atlas).placement(stored_width(*metrics, *glyph), stored_height(*metrics, *glyph)),
            old(atlas).required_size(
                stored_width(*metrics, *glyph),
                stored_height(*metrics, *glyph),
            ),
        ),
        match r {
            Ok(CachedGlyph { texture: Some(sprite), .. }) => final(atlas).allocated() == old(
                atlas,
            ).allocated().push(sprite.coords),
            _ => *final(atlas) == *old(atlas),
        },
{
    let scale = compute_scale(metrics, glyph.height);
    proof {
        lemma_scaled_length_fits(scale, info.x_offset);
        lemma_scaled_length_fits(scale, info.y_offset);
        lemma_scaled_length_fits(scale, glyph.bearing_x);
        lemma_scaled_length_fits(scale, glyph.bearing_y);
    }
    let x_offset = scale.scale_length(info.x_offset);
    let y_offset = scale.scale_length(info.y_offset);
    if glyph.width == 0 || glyph.height == 0 {
        return Ok(
            CachedGlyph {
                has_color: glyph.has_color,
                x_offset,
                y_offset,
                bearing_x: PixelLength::zero(),
                bearing_y: PixelLength::zero(),
                texture: None,
                scale,
            },
        );
    }
    let width = glyph.width as usize;
    let height = glyph.height as usize;
    let len = glyph.data.len();
    let stride = match width.checked_mul(4) {
        Some(n) => n,
        None => {
            proof {
                assert(4 * glyph.width * glyph.height >= 4 * glyph.width) by (nonlinear_arith)
                    requires
                        glyph.height >= 1,
                        glyph.width >= 0,
                ;
            }
            return Err(GlyphError::Rasterization);
        },
    };
    let raw = match Image::with_rgba32(width, height, stride, glyph.data.as_slice()) {
        Some(image) => image,
        None => {
            return Err(GlyphError::Rasterization);
        },
    };
    let bearing_x = scale.scale_length(glyph.bearing_x);
    let bearing_y = scale.scale_length(glyph.bearing_y);
    proof {
        lemma_scaled_magnitude_bounds(glyph.width as nat, scale.num as nat, scale.den as nat);
        lemma_scaled_magnitude_bounds(glyph.height as nat, scale.num as nat, scale.den as nat);
    }
    let image = if scale.is_identity() {
        raw
    } else {
        let bytes = raw.data().len();
        assert(stored_width(*metrics, *glyph) * stored_height(*metrics, *glyph) * 4 <= bytes)
            by (nonlinear_arith)
            requires
                0 <= stored_width(*metrics, *glyph) <= glyph.width,
                0 <= stored_height(*metrics, *glyph) <= glyph.height,
                bytes == glyph.width * glyph.height * 4,
        ;
        raw.scale_by(scale)
    };
    match atlas.allocate(&image) {
        Ok(sprite) => Ok(
            CachedGlyph {
                has_color: glyph.has_color,
                x_offset,
                y_offset,
                bearing_x,
                bearing_y,
                texture: Some(sprite),
                scale: Scale::unit(),
            },
        ),
        Err(e) => Err(GlyphError::AtlasOutOfSpace { required_size: e.size }),
    }
}

/// An image as a terminal received it: the bytes of an image file, under an
/// identifier that stands for exactly these bytes.
#[derive(Clone, Copy, Debug)]
pub struct ImageData<'a> {
    id: usize,
    data: &'a [u8],
}

impl<'a> ImageData<'a> {
    /// The identifier of the image.
    pub closed spec fn spec_id(&self) -> usize {
        self.id
    }

    /// The bytes of the image file.
    pub closed spec fn bytes(&self) -> Seq<u8> {
        self.data@
    }

    /// The bytes of the image file, as they are handed to a decoder.
    pub closed spec fn spec_data(&self) -> &'a [u8] {
        self.data
    }

    /// An image of the given bytes under the given identifier.
    pub fn new(id: usize, data: &'a [u8]) -> (r: ImageData<'a>)
        ensures
            r.spec_id() == id,
            r.bytes() == data@,
    {
        ImageData { id, data }
    }

    /// The identifier of the image.
    pub fn id(&self) -> (id: usize)
        ensures
            id == self.spec_id(),
    {
        self.id
    }

    /// The bytes of the image file.
    pub fn data(&self) -> (d: &'a [u8])
        ensures
            d == self.spec_data(),
            d@ == self.bytes(),
    {
        self.data
    }
}

/// What a decoder made of the bytes of an image file, with the pixels by
/// value: width and height in pixels and the pixels as blue, green, red and
/// alpha bytes, or nothing where it could not read the file.
pub open spec fn decoded_view(decoded: Option<(u32, u32, Vec<u8>)>) -> Option<(u32, u32, Seq<u8>)> {
    match decoded {
        None => None,
        Some((width, height, bytes)) => Some((width, height, bytes@)),
    }
}

/// Another handle to the same shared glyph, by `Rc::clone`: it points to the
/// allocation that `glyph` points to.
#[verifier::external_body]
fn share(glyph: &Rc<CachedGlyph>) -> (r: Rc<CachedGlyph>)
    ensures
        r == *glyph,
{
    Rc::clone(glyph)
}

/// What putting a decoded image into the atlas gives, where `placement` is
/// the region that the atlas has for it and `required` the side that the
/// atlas asks for when it has none.
pub open spec fn placed(
    width: u32,
    height: u32,
    bytes: Seq<u8>,
    placement: Option<Rect>,
    required: usize,
) -> Result<Sprite, GlyphError> {
    if bytes.len() != width * height * 4 {
        Err(GlyphError::Decode)
    } else {
        match placement {
            None => Err(GlyphError::AtlasOutOfSpace { required_size: required }),
            Some(coords) => Ok(Sprite { coords }),
        }
    }
}

/// Puts a decoded image of `width` by `height` pixels into the atlas. Bytes
/// that are not four for each pixel are no image; then, and when the atlas
/// has no room, the atlas stays as it is.
pub fn place_image<T: Texture2d>(
    atlas: &mut Atlas<T>,
    width: u32,
    height: u32,
    bytes: Vec<u8>,
) -> (r: Result<Sprite, GlyphError>)
    requires
        old(atlas).well_formed(),
    ensures
        final(atlas).well_formed(),
        final(atlas).spec_side() == old(atlas).spec_side(),
        r == placed(
            width,
            height,
            bytes@,
            old(atlas).placement(width as nat, height as nat),
            old(atlas).required_size(width as nat, height as nat),
        ),
        match r {
            Ok(sprite) => final(atlas).allocated() == old(atlas).allocated().push(sprite.coords),
            Err(_) => *final(atlas) == *old(atlas),
        },
{
    let image = match Image::from_raw(width as usize, height as usize, bytes) {
        Some(image) => image,
        None => {
            return Err(GlyphError::Decode);
        },
    };
    match atlas.allocate(&image) {
        Ok(sprite) => Ok(sprite),
        Err(e) => Err(GlyphError::AtlasOutOfSpace { required_size: e.size }),
    }
}

/// One remembered glyph. The glyphs are kept in a list and found by
/// `same_key`, which compares a borrowed key with an owned one and copies no
/// style: a hash map would want an owned key of its own type to look one up.
struct GlyphEntry {
    key: GlyphKey,
    glyph: Rc<CachedGlyph>,
}

/// The glyphs that a list of entries remembers, by key.
spec fn glyph_map(entries: Seq<GlyphEntry>) -> Map<GlyphKeyView, CachedGlyph>
    decreases entries.len(),
{
    if entries.len() == 0 {
        Map::empty()
    } else {
        glyph_map(entries.drop_last()).insert(entries.last().key@, *entries.last().glyph)
    }
}

/// No key stands twice in the list.
spec fn distinct_keys(entries: Seq<GlyphEntry>) -> bool {
    forall|i: int, j: int|
        0 <= i < j < entries.len() ==> (#[trigger] entries[i]).key@ != (#[trigger] entries[j]).key@
}

/// A key is remembered exactly when an entry has it.
proof fn lemma_glyph_map_domain(entries: Seq<GlyphEntry>, key: GlyphKeyView)
    ensures
        glyph_map(entries).contains_key(key) <==> exists|i: int|
            0 <= i < entries.len() && (#[trigger] entries[i]).key@ == key,
    decreases entries.len(),
{
    if entries.len() > 0 {
        let front = entries.drop_last();
        lemma_glyph_map_domain(front, key);
        if glyph_map(entries).contains_key(key) {
            if entries.last().key@ == key {
                assert(entries[entries.len() - 1].key@ == key);
            } else {
                let i = choose|i: int| 0 <= i < front.len() && (#[trigger] front[i]).key@ == key;
                assert(entries[i].key@ == key);
            }
        }
        if exists|i: int| 0 <= i < entries.len() && (#[trigger] entries[i]).key@ == key {
            let i = choose|i: int| 0 <= i < entries.len() && (#[trigger] entries[i]).key@ == key;
            if i < front.len() {
                assert(front[i].key@ == key);
            }
        }
    }
}

/// Where no key stands twice, the glyph remembered for the key of an entry
/// is the glyph of that entry.
proof fn lemma_glyph_map_value(entries: Seq<GlyphEntry>, at: int)
    requires
        distinct_keys(entries),
        0 <= at < entries.len(),
    ensures
        glyph_map(entries).contains_key(entries[at].key@),
        glyph_map(entries)[entries[at].key@] == *entries[at].glyph,
    decreases entries.len(),
{
    let front = entries.drop_last();
    if at < entries.len() - 1 {
        assert(front[at] == entries[at]);
        assert(entries[at].key@ != entries[entries.len() - 1].key@);
        assert forall|i: int, j: int| 0 <= i < j < front.len() implies (#[trigger] front[i]).key@ != (
        #[trigger] front[j]).key@ by {
            assert(front[i] == entries[i]);
            assert(front[j] == entries[j]);
        }
        lemma_glyph_map_value(front, at);
    }
}

/// Remembers rendered glyphs and decoded images, and owns the atlas that
/// holds their bitmaps. Every region that it remembers was handed out by
/// the atlas that it owns.
pub struct GlyphCache<T: Texture2d, F: FontConfiguration> {
    glyph_cache: Vec<GlyphEntry>,
    atlas: Atlas<T>,
    fonts: F,
    image_cache: HashMap<usize, Sprite>,
}

impl<T: Texture2d, F: FontConfiguration> GlyphCache<T, F> {
    /// The glyphs remembered, by key.
    pub closed spec fn glyphs(&self) -> Map<GlyphKeyView, CachedGlyph> {
        glyph_map(self.glyph_cache@)
    }

    /// The regions of the images remembered, by identifier.
    pub closed spec fn images(&self) -> Map<usize, Sprite> {
        self.image_cache@
    }

    /// The atlas.
    pub closed spec fn spec_atlas(&self) -> Atlas<T> {
        self.atlas
    }

    /// The fonts.
    pub closed spec fn spec_fonts(&self) -> F {
        self.fonts
    }

    /// The atlas is consistent, no key is remembered twice, and every region
    /// remembered is one that the present atlas handed out.
    pub closed spec fn well_formed(&self) -> bool {
        &&& self.atlas.well_formed()
        &&& distinct_keys(self.glyph_cache@)
        &&& forall|i: int|
            0 <= i < self.glyph_cache@.len() ==> ((#[trigger] self.glyph_cache@[i]).glyph.texture
                matches Some(sprite) ==> self.atlas.allocated().contains(sprite.coords))
        &&& forall|id: usize| #[trigger]
            self.image_cache@.contains_key(id) ==> self.atlas.allocated().contains(
                self.image_cache@[id].coords,
            )
    }

    /// Every region remembered lies in the present atlas.
    pub open spec fn regions_live(&self) -> bool {
        &&& forall|key: GlyphKeyView| #[trigger]
            self.glyphs().contains_key(key) ==> (self.glyphs()[key].texture matches Some(sprite)
                ==> self.spec_atlas().allocated().contains(sprite.coords))
        &&& forall|id: usize| #[trigger]
            self.images().contains_key(id) ==> self.spec_atlas().allocated().contains(
                self.images()[id].coords,
            )
    }

    /// A cache that remembers nothing, over an empty atlas on the square of
    /// the given side at the top left of `texture`.
    pub fn with_texture(fonts: F, texture: T, size: usize) -> (r: Self)
        ensures
            r.well_formed(),
            r.glyphs() == Map::<GlyphKeyView, CachedGlyph>::empty(),
            r.images() == Map::<usize, Sprite>::empty(),
            r.spec_atlas().spec_side() == size,
            r.spec_atlas().allocated() == Seq::<Rect>::empty(),
            r.spec_atlas().spec_texture() == texture,
            r.spec_fonts() == fonts,
    {
        GlyphCache {
            glyph_cache: Vec::new(),
            atlas: Atlas::new(texture, size),
            fonts,
            image_cache: HashMap::new(),
        }
    }

    /// The atlas.
    pub fn atlas(&self) -> (a: &Atlas<T>)
        ensures
            *a == self.spec_atlas(),
    {
        &self.atlas
    }

    /// What a consistent cache holds: a consistent atlas, and only regions
    /// that this atlas handed out.
    pub proof fn lemma_regions_live(&self)
        requires
            self.well_formed(),
        ensures
            self.spec_atlas().well_formed(),
            self.regions_live(),
    {
        assert forall|key: GlyphKeyView| #[trigger]
            self.glyphs().contains_key(key) implies (self.glyphs()[key].texture matches Some(
            sprite,
        ) ==> self.spec_atlas().allocated().contains(sprite.coords)) by {
            lemma_glyph_map_domain(self.glyph_cache@, key);
            let i = choose|i: int|
                0 <= i < self.glyph_cache@.len() && (#[trigger] self.glyph_cache@[i]).key@ == key;
            lemma_glyph_map_value(self.glyph_cache@, i);
        }
    }

    /// Throws away the atlas and everything remembered with it, and starts
    /// again with an empty atlas on the square of the given side at the top
    /// left of `texture`.
    pub fn recreate_atlas(&mut self, texture: T, size: usize)
        ensures
            final(self).well_formed(),
            final(self).glyphs() == Map::<GlyphKeyView, CachedGlyph>::empty(),
            final(self).images() == Map::<usize, Sprite>::empty(),
            final(self).spec_atlas().spec_side() == size,
            final(self).spec_atlas().allocated() == Seq::<Rect>::empty(),
            final(self).spec_atlas().spec_texture() == texture,
            final(self).spec_fonts() == old(self).spec_fonts(),
    {
        self.glyph_cache.clear();
        self.image_cache.clear();
        self.atlas = Atlas::new(texture, size);
    }

    /// Renders a glyph with the fonts of the cache, and puts its bitmap into
    /// the atlas. Nothing is remembered; the atlas changes only by the region
    /// of the glyph, and not at all when the glyph cannot be rendered.
    fn load_glyph(&mut self, info: &GlyphInfo, style: &TextStyle) -> (r: Result<
        Rc<CachedGlyph>,
        GlyphError,
    >)
        requires
            old(self).well_formed(),
        ensures
            final(self).well_formed(),
            final(self).glyph_cache == old(self).glyph_cache,
            final(self).image_cache == old(self).image_cache,
            final(self).fonts == old(self).fonts,
            old(self).outcome_of_rendering(*info, style, r),
            match r {
                Ok(glyph) => match glyph.texture {
                    Some(sprite) => final(self).atlas.allocated() == old(
                        self,
                    ).atlas.allocated().push(sprite.coords) && final(self).atlas.spec_side()
                        == old(self).atlas.spec_side(),
                    None => final(self).atlas == old(self).atlas,
                },
                Err(_) => final(self).atlas == old(self).atlas,
            },
    {
        let metrics = match self.fonts.resolve_font(style) {
            Some(metrics) => metrics,
            None => {
                return Err(GlyphError::FontResolution);
            },
        };
        let glyph = match self.fonts.rasterize_glyph(style, info.glyph_pos, info.font_idx) {
            Some(glyph) => glyph,
            None => {
                return Err(GlyphError::Rasterization);
            },
        };
        let ghost before = self.atlas.allocated();
        let rendering = render_glyph(&mut self.atlas, info, &metrics, &glyph);
        proof {
            assert(old(self).rendering_of(*info, metrics, glyph) == rendering);
            assert forall|i: int| 0 <= i < self.glyph_cache@.len() implies ((
            #[trigger] self.glyph_cache@[i]).glyph.texture matches Some(sprite)
                ==> self.atlas.allocated().contains(sprite.coords)) by {
                if let Some(sprite) = self.glyph_cache@[i].glyph.texture {
                    lemma_still_allocated(before, self.atlas.allocated(), sprite.coords);
                }
            }
            assert forall|id: usize| #[trigger]
                self.image_cache@.contains_key(id) implies self.atlas.allocated().contains(
                self.image_cache@[id].coords,
            ) by {
                lemma_still_allocated(before, self.atlas.allocated(), self.image_cache@[id].coords);
            }
        }
        match rendering {
            Ok(glyph) => Ok(Rc::new(glyph)),
            Err(e) => Err(e),
        }
    }

    /// Resolves a glyph: the remembered glyph where its key is remembered,
    /// with nothing rendered and nothing changed; else the glyph rendered
    /// now, which is remembered from then on. A glyph that cannot be
    /// rendered leaves the cache as it was.
    pub fn cached_glyph(&mut self, info: &GlyphInfo, style: &TextStyle) -> (r: Result<
        Rc<CachedGlyph>,
        GlyphError,
    >)
        requires
            old(self).well_formed(),
        ensures
            final(self).well_formed(),
            old(self).resolves_glyph(*info, style, r, *final(self)),
    {
        let key = BorrowedGlyphKey { font_idx: info.font_idx, glyph_pos: info.glyph_pos, style };
        let mut i: usize = 0;
        while i < self.glyph_cache.len()
            invariant
                i <= self.glyph_cache@.len(),
                *self == *old(self),
                self.well_formed(),
                key@ == (GlyphKeyView {
                    font_idx: info.font_idx,
                    glyph_pos: info.glyph_pos,
                    style: style@,
                }),
                forall|j: int| 0 <= j < i ==> (#[trigger] self.glyph_cache@[j]).key@ != key@,
            decreases self.glyph_cache@.len() - i,
        {
            if same_key(&self.glyph_cache[i].key, &key) {
                proof {
                    lemma_glyph_map_value(self.glyph_cache@, i as int);
                }
                return Ok(share(&self.glyph_cache[i].glyph));
            }
            i = i + 1;
        }
        proof {
            lemma_glyph_map_domain(self.glyph_cache@, key@);
        }
        let glyph = match self.load_glyph(info, style) {
            Ok(glyph) => glyph,
            Err(e) => {
                return Err(e);
            },
        };
        let ghost entries = self.glyph_cache@;
        let entry = GlyphEntry { key: key.to_owned(), glyph: share(&glyph) };
        self.glyph_cache.push(entry);
        proof {
            assert(self.glyph_cache@.drop_last() == entries);
            assert forall|a: int, b: int| 0 <= a < b < self.glyph_cache@.len() implies (
            #[trigger] self.glyph_cache@[a]).key@ != (#[trigger] self.glyph_cache@[b]).key@ by {
                assert(self.glyph_cache@[a] == entries[a]);
                if b < entries.len() {
                    assert(self.glyph_cache@[b] == entries[b]);
                }
            }
            assert forall|a: int| 0 <= a < self.glyph_cache@.len() implies ((
            #[trigger] self.glyph_cache@[a]).glyph.texture matches Some(sprite)
                ==> self.atlas.allocated().contains(sprite.coords)) by {
                if a < entries.len() {
                    assert(self.glyph_cache@[a] == entries[a]);
                } else if let Some(sprite) = glyph.texture {
                    let regions = self.atlas.allocated();
                    assert(regions[regions.len() - 1] == sprite.coords);
                }
            }
        }
        Ok(glyph)
    }

    /// Resolves the region of an image: the remembered region where its
    /// identifier is remembered, with nothing decoded and nothing changed;
    /// else the region that the image gets in the atlas once `decode` has
    /// made width, height and pixels of its bytes, which is remembered from
    /// then on. An image that cannot be decoded or placed leaves the cache as
    /// it was.
    pub fn cached_image<D: FnOnce(&[u8]) -> Option<(u32, u32, Vec<u8>)>>(
        &mut self,
        image_data: &ImageData,
        decode: D,
    ) -> (r: Result<Sprite, GlyphError>)
        requires
            old(self).well_formed(),
            call_requires(decode, (image_data.spec_data(),)),
        ensures
            final(self).well_formed(),
            if old(self).images().contains_key(image_data.spec_id()) {
                old(self).resolves_image(image_data.spec_id(), None, r, *final(self))
            } else {
                exists|decoded: Option<(u32, u32, Vec<u8>)>| #[trigger]
                    call_ensures(decode, (image_data.spec_data(),), decoded) && old(
                        self,
                    ).resolves_image(image_data.spec_id(), decoded_view(decoded), r, *final(self))
            },
    {
        broadcast use group_hash_axioms;

        let id = image_data.id();
        if let Some(sprite) = self.image_cache.get(&id) {
            return Ok(*sprite);
        }
        let (width, height, bytes) = match decode(image_data.data()) {
            Some(decoded) => decoded,
            None => {
                return Err(GlyphError::Decode);
            },
        };
        let ghost before = self.atlas.allocated();
        let sprite = match place_image(&mut self.atlas, width, height, bytes) {
            Ok(sprite) => sprite,
            Err(e) => {
                return Err(e);
            },
        };
        self.image_cache.insert(id, sprite);
        proof {
            let regions = self.atlas.allocated();
            assert(regions[regions.len() - 1] == sprite.coords);
            assert forall|i: int| 0 <= i < self.glyph_cache@.len() implies ((
            #[trigger] self.glyph_cache@[i]).glyph.texture matches Some(region)
                ==> self.atlas.allocated().contains(region.coords)) by {
                if let Some(region) = self.glyph_cache@[i].glyph.texture {
                    lemma_still_allocated(before, regions, region.coords);
                }
            }
            assert forall|other: usize| #[trigger]
                self.image_cache@.contains_key(other) implies self.atlas.allocated().contains(
                self.image_cache@[other].coords,
            ) by {
                if other != id {
                    lemma_still_allocated(before, regions, self.image_cache@[other].coords);
                }
            }
        }
        Ok(sprite)
    }

    /// The key under which a glyph of the given style is remembered.
    pub open spec fn key_of(info: GlyphInfo, style: crate::style::TextStyleView) -> GlyphKeyView {
        GlyphKeyView { font_idx: info.font_idx, glyph_pos: info.glyph_pos, style }
    }

    /// How resolving a glyph leads from this cache to the cache `after`, with
    /// the result `r`.
    ///
    /// A remembered glyph is the result, and nothing changes. A glyph that
    /// is not remembered is rendered: where that gives a glyph, it is the
    /// result and is remembered under its key, and the atlas has handed out
    /// its region, if it has one; where it fails, nothing changes.
    pub open spec fn resolves_glyph(
        &self,
        info: GlyphInfo,
        style: &TextStyle,
        r: Result<Rc<CachedGlyph>, GlyphError>,
        after: Self,
    ) -> bool {
        let key = Self::key_of(info, style@);
        if self.glyphs().contains_key(key) {
            &&& r matches Ok(glyph) && *glyph == self.glyphs()[key]
            &&& after == *self
        } else {
            &&& self.outcome_of_rendering(info, style, r)
            &&& match r {
                Ok(glyph) => {
                    &&& after.glyphs() == self.glyphs().insert(key, *glyph)
                    &&& after.images() == self.images()
                    &&& after.spec_fonts() == self.spec_fonts()
                    &&& after.spec_atlas().spec_side() == self.spec_atlas().spec_side()
                    &&& match glyph.texture {
                        Some(sprite) => after.spec_atlas().allocated()
                            == self.spec_atlas().allocated().push(sprite.coords),
                        None => after.spec_atlas() == self.spec_atlas(),
                    }
                },
                Err(_) => after == *self,
            }
        }
    }

    /// How resolving the image of the given identifier leads from this cache
    /// to the cache `after`, with the result `r`, where `decoded` is what the
    /// decoder makes of the bytes of the image.
    ///
    /// A remembered region is the result, and nothing changes. An image that
    /// is not remembered is decoded and placed: where that gives a region,
    /// it is the result and is remembered under the identifier, and the
    /// atlas has handed it out; where it fails, nothing changes.
    pub open spec fn resolves_image(
        &self,
        id: usize,
        decoded: Option<(u32, u32, Seq<u8>)>,
        r: Result<Sprite, GlyphError>,
        after: Self,
    ) -> bool {
        &&& r == self.resolved_image(id, decoded)
        &&& match r {
            Ok(sprite) if !self.images().contains_key(id) => {
                &&& after.images() == self.images().insert(id, sprite)
                &&& after.glyphs() == self.glyphs()
                &&& after.spec_fonts() == self.spec_fonts()
                &&& after.spec_atlas().spec_side() == self.spec_atlas().spec_side()
                &&& after.spec_atlas().allocated() == self.spec_atlas().allocated().push(
                    sprite.coords,
                )
            },
            _ => after == *self,
        }
    }

    /// What resolving an image gives in this cache, where `decoded` is what
    /// the decoder makes of its bytes.
    pub open spec fn resolved_image(
        &self,
        id: usize,
        decoded: Option<(u32, u32, Seq<u8>)>,
    ) -> Result<Sprite, GlyphError> {
        if self.images().contains_key(id) {
            Ok(self.images()[id])
        } else {
            match decoded {
                None => Err(GlyphError::Decode),
                Some((width, height, bytes)) => placed(
                    width,
                    height,
                    bytes,
                    self.spec_atlas().placement(width as nat, height as nat),
                    self.spec_atlas().required_size(width as nat, height as nat),
                ),
            }
        }
    }

    /// What rendering a glyph gives in this cache once its font has produced
    /// `metrics` and `glyph`.
    pub open spec fn rendering_of(
        &self,
        info: GlyphInfo,
        metrics: FontMetrics,
        glyph: RasterizedGlyph,
    ) -> Result<CachedGlyph, GlyphError> {
        rendered(
            info,
            metrics,
            glyph,
            self.spec_atlas().placement(stored_width(metrics, glyph), stored_height(metrics, glyph)),
            self.spec_atlas().required_size(
                stored_width(metrics, glyph),
                stored_height(metrics, glyph),
            ),
        )
    }

    /// What resolving a glyph that is not remembered gives. The fonts are
    /// asked for the font of the style. Where they have none, that is the
    /// failure. Where they have one, they are asked for the bitmap of the
    /// glyph of `info`. Where they cannot draw it, that is the failure; else
    /// the result is the rendering of what the fonts produced.
    pub open spec fn outcome_of_rendering(
        &self,
        info: GlyphInfo,
        style: &TextStyle,
        r: Result<Rc<CachedGlyph>, GlyphError>,
    ) -> bool {
        ||| {
            &&& r == Err::<Rc<CachedGlyph>, GlyphError>(GlyphError::FontResolution)
            &&& call_ensures(F::resolve_font, (&self.spec_fonts(), style), None::<FontMetrics>)
        }
        ||| exists|metrics: FontMetrics|
            {
                &&& #[trigger] call_ensures(
                    F::resolve_font,
                    (&self.spec_fonts(), style),
                    Some(metrics),
                )
                &&& {
                    ||| {
                        &&& r == Err::<Rc<CachedGlyph>, GlyphError>(GlyphError::Rasterization)
                        &&& call_ensures(
                            F::rasterize_glyph,
                            (&self.spec_fonts(), style, info.glyph_pos, info.font_idx),
                            None::<RasterizedGlyph>,
                        )
                    }
                    ||| exists|glyph: RasterizedGlyph|
                        {
                            &&& #[trigger] call_ensures(
                                F::rasterize_glyph,
                                (&self.spec_fonts(), style, info.glyph_pos, info.font_idx),
                                Some(glyph),
                            )
                            &&& match self.rendering_of(info, metrics, glyph) {
                                Ok(g) => r matches Ok(shared) && *shared == g,
                                Err(e) => r == Err::<Rc<CachedGlyph>, GlyphError>(e),
                            }
                        }
                }
            }
    }
}

/// A region handed out stays handed out when the atlas hands out more, or
/// nothing.
proof fn lemma_still_allocated(before: Seq<Rect>, after: Seq<Rect>, region: Rect)
    requires
        before.contains(region),
        after == before || exists|last: Rect| after == #[trigger] before.push(last),
    ensures
        after.contains(region),
{
    let i = choose|i: int| 0 <= i < before.len() && before[i] == region;
    assert(after[i] == region);
}

impl<F: FontConfiguration> GlyphCache<ImageTexture, F> {
    /// A cache that remembers nothing, over an empty atlas on a texture in
    /// memory of `size` by `size` pixels.
    pub fn new(fonts: F, size: usize) -> (r: Self)
        requires
            size * size * 4 <= usize::MAX,
        ensures
            r.well_formed(),
            r.glyphs() == Map::<GlyphKeyView, CachedGlyph>::empty(),
            r.images() == Map::<usize, Sprite>::empty(),
            r.spec_atlas().spec_side() == size,
            r.spec_atlas().allocated() == Seq::<Rect>::empty(),
            r.spec_fonts() == fonts,
    {
        GlyphCache::with_texture(fonts, ImageTexture::new(size, size), size)
    }
}

/// Resolving a glyph a second time under the same font, glyph and style
/// gives the glyph that the first time gave, and changes nothing: it is not
/// rendered again. Only the three parts of the key count, the style by
/// value.
pub proof fn lemma_same_key_resolves_once<T: Texture2d, F: FontConfiguration>(
    start: GlyphCache<T, F>,
    middle: GlyphCache<T, F>,
    end: GlyphCache<T, F>,
    first: GlyphInfo,
    second: GlyphInfo,
    first_style: &TextStyle,
    second_style: &TextStyle,
    first_result: Result<Rc<CachedGlyph>, GlyphError>,
    second_result: Result<Rc<CachedGlyph>, GlyphError>,
)
    requires
        start.resolves_glyph(first, first_style, first_result, middle),
        middle.resolves_glyph(second, second_style, second_result, end),
        first.font_idx == second.font_idx,
        first.glyph_pos == second.glyph_pos,
        first_style@ == second_style@,
        first_result is Ok,
    ensures
        second_result is Ok,
        *second_result->Ok_0 == *first_result->Ok_0,
        end == middle,
{
    let key = GlyphCache::<T, F>::key_of(first, first_style@);
    assert(key == GlyphCache::<T, F>::key_of(second, second_style@));
    assert(middle.glyphs().contains_key(key));
}

/// Glyphs whose keys differ, be it only in the style, are remembered apart:
/// after both are resolved the cache holds each under its own key, and
/// where the second was not remembered before, it was rendered for itself.
pub proof fn lemma_distinct_keys_do_not_alias<T: Texture2d, F: FontConfiguration>(
    start: GlyphCache<T, F>,
    middle: GlyphCache<T, F>,
    end: GlyphCache<T, F>,
    first: GlyphInfo,
    second: GlyphInfo,
    first_style: &TextStyle,
    second_style: &TextStyle,
    first_result: Result<Rc<CachedGlyph>, GlyphError>,
    second_result: Result<Rc<CachedGlyph>, GlyphError>,
)
    requires
        start.resolves_glyph(first, first_style, first_result, middle),
        middle.resolves_glyph(second, second_style, second_result, end),
        GlyphCache::<T, F>::key_of(first, first_style@) != GlyphCache::<T, F>::key_of(
            second,
            second_style@,
        ),
        first_result is Ok,
        second_result is Ok,
    ensures
        end.glyphs().contains_key(GlyphCache::<T, F>::key_of(first, first_style@)),
        end.glyphs().contains_key(GlyphCache::<T, F>::key_of(second, second_style@)),
        end.glyphs()[GlyphCache::<T, F>::key_of(first, first_style@)] == *first_result->Ok_0,
        end.glyphs()[GlyphCache::<T, F>::key_of(second, second_style@)] == *second_result->Ok_0,
        !start.glyphs().contains_key(GlyphCache::<T, F>::key_of(second, second_style@))
            ==> middle.outcome_of_rendering(second, second_style, second_result),
{
    let one = GlyphCache::<T, F>::key_of(first, first_style@);
    let other = GlyphCache::<T, F>::key_of(second, second_style@);
    assert(middle.glyphs().contains_key(one));
    assert(middle.glyphs()[one] == *first_result->Ok_0);
}

/// Resolving a glyph or an image changes nothing that was remembered
/// before: every glyph and every region stays under its key as it was.
pub proof fn lemma_remembered_stays<T: Texture2d, F: FontConfiguration>(
    before: GlyphCache<T, F>,
    after: GlyphCache<T, F>,
    info: GlyphInfo,
    style: &TextStyle,
    glyph_result: Result<Rc<CachedGlyph>, GlyphError>,
    id: usize,
    decoded: Option<(u32, u32, Seq<u8>)>,
    image_result: Result<Sprite, GlyphError>,
)
    requires
        before.resolves_glyph(info, style, glyph_result, after) || before.resolves_image(
            id,
            decoded,
            image_result,
            after,
        ),
    ensures
        forall|key: GlyphKeyView| #[trigger]
            before.glyphs().contains_key(key) ==> after.glyphs().contains_key(key)
                && after.glyphs()[key] == before.glyphs()[key],
        forall|other: usize| #[trigger]
            before.images().contains_key(other) ==> after.images().contains_key(other)
                && after.images()[other] == before.images()[other],
{
}

/// A glyph without width or without height takes no room in the atlas: its
/// record has no region, whatever the atlas could offer.
pub proof fn lemma_whitespace_has_no_texture(
    info: GlyphInfo,
    metrics: FontMetrics,
    glyph: RasterizedGlyph,
    placement: Option<Rect>,
    required: usize,
)
    requires
        is_whitespace(glyph),
    ensures
        rendered(info, metrics, glyph, placement, required) is Ok,
        rendered(info, metrics, glyph, placement, required)->Ok_0.texture is None,
        rendered(info, metrics, glyph, placement, required)->Ok_0.bearing_x.units == 0,
        rendered(info, metrics, glyph, placement, required)->Ok_0.bearing_y.units == 0,
{
}

/// A glyph that has a region in the atlas is recorded at scale one. Where
/// the glyph was more than one and a half cells tall, its region is at most
/// one cell tall and no wider than the glyph; any other glyph has a region of
/// its own size.
pub proof fn lemma_stored_size<T: Texture2d>(
    atlas: Atlas<T>,
    info: GlyphInfo,
    metrics: FontMetrics,
    glyph: RasterizedGlyph,
)
    requires
        rendered(
            info,
            metrics,
            glyph,
            atlas.placement(stored_width(metrics, glyph), stored_height(metrics, glyph)),
            atlas.required_size(stored_width(metrics, glyph), stored_height(metrics, glyph)),
        ) matches Ok(g) && g.texture is Some,
    ensures
        ({
            let g = rendered(
                info,
                metrics,
                glyph,
                atlas.placement(stored_width(metrics, glyph), stored_height(metrics, glyph)),
                atlas.required_size(stored_width(metrics, glyph), stored_height(metrics, glyph)),
            )->Ok_0;
            let region = g.texture->Some_0.coords;
            &&& g.scale.is_unit()
            &&& region.width == stored_width(metrics, glyph)
            &&& region.height == stored_height(metrics, glyph)
            &&& is_oversize(metrics, glyph.height) ==> region.height * 64 <= metrics.cell_height
                && region.width <= glyph.width
            &&& !is_oversize(metrics, glyph.height) ==> region.height == glyph.height
                && region.width == glyph.width
        }),
{
    let scale = glyph_scale(metrics, glyph.height);
    if is_oversize(metrics, glyph.height) {
        let h = glyph.height as int;
        let c = metrics.cell_height as int;
        lemma_scaled_magnitude_bounds(glyph.width as nat, scale.num as nat, scale.den as nat);
        // The height comes to a whole cell, rounded down.
        assert(h * c == c * h) by (nonlinear_arith);
        assert(h * 64 == 64 * h) by (nonlinear_arith);
        vstd::arithmetic::div_mod::lemma_div_multiples_vanish_quotient(h, c, 64);
        assert((h * c) / (h * 64) == c / 64);
        vstd::arithmetic::div_mod::lemma_fundamental_div_mod(c, 64);
        assert(stored_height(metrics, glyph) == c / 64);
    } else {
        lemma_scaled_magnitude_bounds(glyph.width as nat, 1, 1);
        lemma_scaled_magnitude_bounds(glyph.height as nat, 1, 1);
    }
}

/// An image whose identifier the cache remembers resolves to the remembered
/// region with nothing decoded: the result does not depend on its bytes, and
/// the cache stays as it is.
pub proof fn lemma_same_image_resolves_once<T: Texture2d, F: FontConfiguration>(
    start: GlyphCache<T, F>,
    middle: GlyphCache<T, F>,
    end: GlyphCache<T, F>,
    id: usize,
    first_decoded: Option<(u32, u32, Seq<u8>)>,
    second_decoded: Option<(u32, u32, Seq<u8>)>,
    first_result: Result<Sprite, GlyphError>,
    second_result: Result<Sprite, GlyphError>,
)
    requires
        start.resolves_image(id, first_decoded, first_result, middle),
        middle.resolves_image(id, second_decoded, second_result, end),
        first_result is Ok,
    ensures
        second_result == first_result,
        end == middle,
{
    assert(middle.images().contains_key(id));
}

/// Images of different identifiers are resolved apart: resolving one does
/// not make the other remembered, so the other is decoded from its own
/// bytes, and afterwards each has its own region.
pub proof fn lemma_distinct_images_decode_apart<T: Texture2d, F: FontConfiguration>(
    start: GlyphCache<T, F>,
    middle: GlyphCache<T, F>,
    end: GlyphCache<T, F>,
    first_id: usize,
    second_id: usize,
    first_decoded: Option<(u32, u32, Seq<u8>)>,
    second_decoded: Option<(u32, u32, Seq<u8>)>,
    first_result: Result<Sprite, GlyphError>,
    second_result: Result<Sprite, GlyphError>,
)
    requires
        start.resolves_image(first_id, first_decoded, first_result, middle),
        middle.resolves_image(second_id, second_decoded, second_result, end),
        first_id != second_id,
        !start.images().contains_key(second_id),
    ensures
        !middle.images().contains_key(second_id),
        second_decoded is None ==> second_result == Err::<Sprite, GlyphError>(GlyphError::Decode),
        second_decoded matches Some((width, height, bytes)) ==> second_result == placed(
            width,
            height,
            bytes,
            middle.spec_atlas().placement(width as nat, height as nat),
            middle.spec_atlas().required_size(width as nat, height as nat),
        ),
        first_result is Ok ==> end.images().contains_key(first_id) && end.images()[first_id]
            == first_result->Ok_0,
        second_result is Ok ==> end.images().contains_key(second_id) && end.images()[second_id]
            == second_result->Ok_0,
{
    if first_result is Ok {
        assert(middle.images().contains_key(first_id));
        assert(middle.images()[first_id] == first_result->Ok_0);
    }
}

} // verus!
