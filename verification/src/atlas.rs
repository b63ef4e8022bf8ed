use crate::bitmap::Image;
use vstd::prelude::*;

verus! {

/// Pixels kept free on each side of a sprite, so that sampling a sprite
/// never reaches its neighbour.
pub const PADDING: usize = 1;

/// A rectangle of pixels in a texture.
#[derive(Clone, Copy, Debug, PartialEq, Eq, Structural)]
pub struct Rect {
    pub x: usize,
    pub y: usize,
    pub width: usize,
    pub height: usize,
}

impl Rect {
    /// The first column to the right of the rectangle.
    pub open spec fn right(self) -> int {
        self.x + self.width
    }

    /// The first row below the rectangle.
    pub open spec fn below(self) -> int {
        self.y + self.height
    }

    /// Whether the rectangle lies in a square texture of the given side.
    pub open spec fn inside(self, side: int) -> bool {
        self.right() <= side && self.below() <= side
    }

    /// Whether the two rectangles share no pixel.
    pub open spec fn disjoint(self, other: Rect) -> bool {
        self.right() <= other.x || other.right() <= self.x || self.below() <= other.y
            || other.below() <= self.y
    }
}

/// A region of the atlas that holds one bitmap.
#[derive(Clone, Copy, Debug, PartialEq, Eq, Structural)]
pub struct Sprite {
    pub coords: Rect,
}

/// The atlas has no room left for a bitmap; an atlas of side `size` has.
#[derive(Clone, Copy, Debug, PartialEq, Eq, Structural)]
pub struct OutOfTextureSpace {
    pub size: usize,
}

/// A texture that bitmaps can be written into.
pub trait Texture2d {
    /// Stores `image` in the region `rect` of the texture, which has the
    /// size of `image`.
    fn write(&mut self, rect: Rect, image: &Image)
        requires
            rect.width == image.spec_width(),
            rect.height == image.spec_height(),
    ;
}

/// A texture in memory: a bitmap that bitmaps are copied into.
pub struct ImageTexture {
    image: Image,
}

impl ImageTexture {
    /// What the texture holds.
    pub closed spec fn spec_image(&self) -> Image {
        self.image
    }

    /// A texture of the given size whose bytes are all zero.
    pub fn new(width: usize, height: usize) -> (r: ImageTexture)
        requires
            width * height * 4 <= usize::MAX,
        ensures
            r.spec_image().spec_width() == width,
            r.spec_image().spec_height() == height,
            r.spec_image().bytes() == Seq::new((width * height * 4) as nat, |i: int| 0u8),
    {
        ImageTexture { image: Image::new(width, height) }
    }

    /// What the texture holds.
    pub fn image(&self) -> (image: &Image)
        ensures
            *image == self.spec_image(),
    {
        &self.image
    }
}

impl Texture2d for ImageTexture {
    /// Copies `image` into the texture with its top left corner at the top
    /// left corner of `rect`; what would lie outside the texture is left out.
    fn write(&mut self, rect: Rect, image: &Image)
        ensures
            final(self).spec_image().spec_width() == old(self).spec_image().spec_width(),
            final(self).spec_image().spec_height() == old(self).spec_image().spec_height(),
            forall|sx: int, sy: int, c: int|
                0 <= sx < image.spec_width() && 0 <= sy < image.spec_height() && 0 <= c < 4
                    && rect.x + sx < old(self).spec_image().spec_width()
                    && rect.y + sy < old(self).spec_image().spec_height()
                    ==> final(self).spec_image().channel(rect.x + sx, rect.y + sy, c)
                    == #[trigger] image.channel(sx, sy, c),
            forall|px: int, py: int, c: int|
                0 <= px < old(self).spec_image().spec_width()
                    && 0 <= py < old(self).spec_image().spec_height() && 0 <= c < 4
                    && !Image::under(rect.x as int, rect.y as int, image, px, py)
                    ==> final(self).spec_image().channel(px, py, c)
                    == #[trigger] old(self).spec_image().channel(px, py, c),
    {
        self.image.blit(rect.x, rect.y, image);
    }
}

/// The pixels that a side of `extent` pixels takes together with the padding
/// before and after it.
pub open spec fn reserved(extent: int) -> int {
    extent + 2 * PADDING
}

/// Pixels that a list of regions takes, each region with its padding.
pub open spec fn reserved_area(regions: Seq<Rect>) -> int
    decreases regions.len(),
{
    if regions.len() == 0 {
        0
    } else {
        reserved_area(regions.drop_last()) + reserved(regions.last().width as int) * reserved(
            regions.last().height as int,
        )
    }
}

/// One square texture that many bitmaps are packed into, row by row from the
/// top, each row filled from the left.
pub struct Atlas<T: Texture2d> {
    texture: T,
    side: usize,
    bottom: usize,
    tallest: usize,
    left: usize,
    allocated: Ghost<Seq<Rect>>,
}

impl<T: Texture2d> Atlas<T> {
    /// Side of the texture in pixels.
    pub closed spec fn spec_side(&self) -> nat {
        self.side as nat
    }

    /// First row of the row of sprites that is being filled.
    pub closed spec fn spec_bottom(&self) -> nat {
        self.bottom as nat
    }

    /// Height of the row that is being filled.
    pub closed spec fn spec_tallest(&self) -> nat {
        self.tallest as nat
    }

    /// First free column of the row that is being filled.
    pub closed spec fn spec_left(&self) -> nat {
        self.left as nat
    }

    /// The regions handed out so far, oldest first.
    pub closed spec fn allocated(&self) -> Seq<Rect> {
        self.allocated@
    }

    /// The texture behind the atlas.
    pub closed spec fn spec_texture(&self) -> T {
        self.texture
    }

    /// The bookkeeping is consistent: every region handed out lies in the
    /// texture, above or inside the row that is being filled, no two of them
    /// share a pixel, and together with their padding they take no more than
    /// the rows filled so far and the filled part of the present row.
    pub open spec fn well_formed(&self) -> bool {
        &&& self.spec_left() <= self.spec_side()
        &&& self.spec_bottom() + self.spec_tallest() <= self.spec_side()
        &&& forall|i: int|
            0 <= i < self.allocated().len() ==> {
                let r = #[trigger] self.allocated()[i];
                &&& r.inside(self.spec_side() as int)
                &&& r.below() <= self.spec_bottom() + self.spec_tallest()
                &&& (r.below() <= self.spec_bottom() || (self.spec_bottom() <= r.y && r.right()
                    <= self.spec_left()))
            }
        &&& forall|i: int, j: int|
            0 <= i < j < self.allocated().len() ==> (#[trigger] self.allocated()[i]).disjoint(
                #[trigger] self.allocated()[j],
            )
        &&& reserved_area(self.allocated()) <= self.spec_side() * self.spec_bottom()
            + self.spec_left() * self.spec_tallest()
    }

    /// Whether a bitmap of the given size starts a new row of sprites.
    pub open spec fn starts_row(&self, width: nat) -> bool {
        self.spec_side() - self.spec_left() < reserved(width as int)
    }

    /// Where the next bitmap of the given size goes, or nothing when the
    /// atlas has no room for it.
    pub open spec fn placement(&self, width: nat, height: nat) -> Option<Rect> {
        let row: int = if self.starts_row(width) {
            (self.spec_bottom() + self.spec_tallest()) as int
        } else {
            self.spec_bottom() as int
        };
        let column: int = if self.starts_row(width) {
            0
        } else {
            self.spec_left() as int
        };
        if reserved(width as int) > self.spec_side() || reserved(height as int)
            > self.spec_side() || self.spec_side() - row < reserved(height as int) {
            None
        } else {
            Some(
                Rect {
                    x: (column + PADDING) as usize,
                    y: (row + PADDING) as usize,
                    width: width as usize,
                    height: height as usize,
                },
            )
        }
    }

    /// The side asked for when a bitmap of the given size finds no room: the
    /// present side and the larger side of the padded bitmap together, or the
    /// largest side there is.
    pub open spec fn required_size(&self, width: nat, height: nat) -> usize {
        let larger = if width >= height {
            reserved(width as int)
        } else {
            reserved(height as int)
        };
        if self.spec_side() + larger > usize::MAX {
            usize::MAX
        } else {
            (self.spec_side() + larger) as usize
        }
    }

    /// An empty atlas over the square of the given side at the top left of
    /// `texture`.
    pub fn new(texture: T, side: usize) -> (r: Atlas<T>)
        ensures
            r.well_formed(),
            r.spec_side() == side,
            r.spec_bottom() == 0,
            r.spec_tallest() == 0,
            r.spec_left() == 0,
            r.allocated() == Seq::<Rect>::empty(),
            r.spec_texture() == texture,
    {
        Atlas { texture, side, bottom: 0, tallest: 0, left: 0, allocated: Ghost(Seq::empty()) }
    }

    /// Side of the texture in pixels.
    pub fn side(&self) -> (s: usize)
        ensures
            s == self.spec_side(),
    {
        self.side
    }

    /// The texture behind the atlas.
    pub fn texture(&self) -> (t: &T)
        ensures
            *t == self.spec_texture(),
    {
        &self.texture
    }

    /// Finds room for `image`, writes it into the texture and hands out its
    /// region. Without room nothing changes, and the error names a side
    /// that is enough.
    pub fn allocate(&mut self, image: &Image) -> (r: Result<Sprite, OutOfTextureSpace>)
        requires
            old(self).well_formed(),
        ensures
            final(self).well_formed(),
            final(self).spec_side() == old(self).spec_side(),
            match old(self).placement(image.spec_width(), image.spec_height()) {
                Some(rect) => {
                    &&& r == Ok::<Sprite, OutOfTextureSpace>(Sprite { coords: rect })
                    &&& final(self).allocated() == old(self).allocated().push(rect)
                },
                None => {
                    &&& r == Err::<Sprite, OutOfTextureSpace>(
                        OutOfTextureSpace {
                            size: old(self).required_size(image.spec_width(), image.spec_height()),
                        },
                    )
                    &&& *final(self) == *old(self)
                },
            },
    {
        let width = image.width();
        let height = image.height();
        let larger = if width >= height {
            width
        } else {
            height
        };
        let size = match larger.checked_add(2 * PADDING) {
            Some(reserve) => match self.side.checked_add(reserve) {
                Some(size) => size,
                None => usize::MAX,
            },
            None => usize::MAX,
        };
        if width > usize::MAX - 2 * PADDING || height > usize::MAX - 2 * PADDING {
            return Err(OutOfTextureSpace { size });
        }
        let reserve_width = width + 2 * PADDING;
        let reserve_height = height + 2 * PADDING;
        if reserve_width > self.side || reserve_height > self.side {
            return Err(OutOfTextureSpace { size });
        }
        let new_row = self.side - self.left < reserve_width;
        let row = if new_row {
            self.bottom + self.tallest
        } else {
            self.bottom
        };
        let column = if new_row {
            0
        } else {
            self.left
        };
        if self.side - row < reserve_height {
            return Err(OutOfTextureSpace { size });
        }
        let rect = Rect { x: column + PADDING, y: row + PADDING, width, height };
        self.texture.write(rect, image);
        let ghost before = self.allocated@;
        self.left = column + reserve_width;
        self.bottom = row;
        self.tallest = if new_row || reserve_height > self.tallest {
            reserve_height
        } else {
            self.tallest
        };
        self.allocated = Ghost(before.push(rect));
        proof {
            assert(self.allocated().drop_last() =~= before);
            let side = self.side as int;
            let was_left = old(self).left as int;
            let was_bottom = old(self).bottom as int;
            let was_tallest = old(self).tallest as int;
            let now_tallest = self.tallest as int;
            let w = reserve_width as int;
            let h = reserve_height as int;
            if new_row {
                assert(side * was_bottom + was_left * was_tallest + w * h <= side * (was_bottom
                    + was_tallest) + w * h) by (nonlinear_arith)
                    requires
                        0 <= was_left <= side,
                        0 <= was_tallest,
                ;
            } else {
                assert(side * was_bottom + was_left * was_tallest + w * h <= side * was_bottom + (
                was_left + w) * now_tallest) by (nonlinear_arith)
                    requires
                        0 <= was_left,
                        0 <= w,
                        0 <= was_tallest <= now_tallest,
                        0 <= h <= now_tallest,
                ;
            }
        }
        Ok(Sprite { coords: rect })
    }
}

/// The side that a failed allocation asks for is enough: an empty atlas of
/// at least that side has room for the bitmap, unless the side it would take
/// does not fit a `usize`.
pub proof fn lemma_required_size_suffices<T: Texture2d>(
    full: Atlas<T>,
    fresh: Atlas<T>,
    width: nat,
    height: nat,
)
    requires
        full.placement(width, height) is None,
        full.spec_side() + reserved(width as int) <= usize::MAX,
        full.spec_side() + reserved(height as int) <= usize::MAX,
        fresh.spec_bottom() == 0,
        fresh.spec_tallest() == 0,
        fresh.spec_left() == 0,
        fresh.spec_side() >= full.required_size(width, height),
    ensures
        fresh.placement(width, height) == Some(
            Rect { x: PADDING, y: PADDING, width: width as usize, height: height as usize },
        ),
        fresh.spec_side() > full.spec_side(),
{
}

/// The regions that a consistent atlas handed out take, with their padding,
/// no more pixels than its texture has.
pub proof fn lemma_area_within_capacity<T: Texture2d>(atlas: Atlas<T>)
    requires
        atlas.well_formed(),
    ensures
        reserved_area(atlas.allocated()) <= atlas.spec_side() * atlas.spec_side(),
{
    let side = atlas.spec_side() as int;
    let bottom = atlas.spec_bottom() as int;
    let left = atlas.spec_left() as int;
    let tallest = atlas.spec_tallest() as int;
    assert(side * bottom + left * tallest <= side * side) by (nonlinear_arith)
        requires
            0 <= left <= side,
            0 <= bottom,
            0 <= tallest,
            bottom + tallest <= side,
    ;
}

/// Regions that a consistent atlas handed out lie in its texture, and no
/// two of them share a pixel.
pub proof fn lemma_regions_apart<T: Texture2d>(atlas: Atlas<T>, i: int, j: int)
    requires
        atlas.well_formed(),
        0 <= i < atlas.allocated().len(),
        0 <= j < atlas.allocated().len(),
        i != j,
    ensures
        atlas.allocated()[i].inside(atlas.spec_side() as int),
        atlas.allocated()[j].inside(atlas.spec_side() as int),
        atlas.allocated()[i].disjoint(atlas.allocated()[j]),
{
}

} // verus!
