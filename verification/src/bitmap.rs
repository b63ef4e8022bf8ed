use crate::units::scaled_magnitude;
use crate::units::Scale;
use vstd::prelude::*;

verus! {

/// Bytes that one pixel takes.
pub const BYTES_PER_PIXEL: usize = 4;

/// Where the pixel in column `x` of row `y` starts, counted in pixels from
/// the first one, in a bitmap `width` pixels wide.
pub open spec fn pixel_index(width: int, x: int, y: int) -> int {
    y * width + x
}

/// Pixels come row after row: an earlier row, or an earlier column of the
/// same row, has a smaller index, and every pixel of the bitmap has an index
/// below `width * height`.
pub proof fn lemma_pixel_index_order(width: int, height: int, x1: int, y1: int, x2: int, y2: int)
    requires
        0 <= x1 < width,
        0 <= x2 <= width,
        0 <= y1,
        y1 < y2 || (y1 == y2 && x1 < x2),
        y2 < height || (y2 == height && x2 == 0),
    ensures
        0 <= pixel_index(width, x1, y1) < pixel_index(width, x2, y2) <= width * height,
{
    assert(0 <= y1 * width) by (nonlinear_arith)
        requires
            0 <= y1,
            0 <= width,
    ;
    assert(y1 * width + x1 < y2 * width + x2) by (nonlinear_arith)
        requires
            0 <= x1 < width,
            0 <= x2,
            0 <= y1,
            y1 < y2 || (y1 == y2 && x1 < x2),
    ;
    assert(y2 * width + x2 <= width * height) by (nonlinear_arith)
        requires
            0 <= x2 <= width,
            0 <= y2,
            y2 < height || (y2 == height && x2 == 0),
    ;
}

/// The column or row of the source that a nearest-neighbour resampling
/// reads for position `at` of `to` positions, when the source has `from`.
pub open spec fn nearest(at: int, from: int, to: int) -> int {
    at * from / to
}

/// The position read by a nearest-neighbour resampling lies in the source.
pub proof fn lemma_nearest_in_range(at: int, from: int, to: int)
    requires
        0 <= at < to,
        0 < from,
    ensures
        0 <= nearest(at, from, to) < from,
        0 <= at * from < to * from,
{
    assert(0 <= at * from < to * from) by (nonlinear_arith)
        requires
            0 <= at < to,
            0 < from,
    ;
    assert(0 <= (at * from) / to < from) by (nonlinear_arith)
        requires
            0 <= at * from < to * from,
            0 < to,
            0 < from,
    ;
}

/// Whether a buffer of `len` bytes holds `height` rows of `width` pixels of
/// four bytes, each row starting `stride` bytes after the one before.
pub open spec fn rows_fit(width: nat, height: nat, stride: nat, len: nat) -> bool {
    4 * width <= stride && stride * height <= len
}

/// Byte `channel` that a bitmap takes for the pixel in column `x` of row `y`
/// from a buffer that holds red, green, blue and alpha in this order: blue
/// and red change places.
pub open spec fn from_rgba(data: Seq<u8>, stride: int, x: int, y: int, channel: int) -> u8 {
    let at = y * stride + 4 * x;
    if channel == 0 {
        data[at + 2]
    } else if channel == 2 {
        data[at]
    } else {
        data[at + channel]
    }
}

/// Byte `channel` that a resampling to `to_width` by `to_height` pixels
/// takes for the pixel in column `x` of row `y`: that of the nearest pixel of
/// the source, or zero where the source has no pixel at all.
pub open spec fn resampled(
    source: Seq<u8>,
    width: int,
    height: int,
    to_width: int,
    to_height: int,
    x: int,
    y: int,
    channel: int,
) -> u8 {
    if width == 0 || height == 0 {
        0u8
    } else {
        source[pixel_index(width, nearest(x, width, to_width), nearest(y, height, to_height)) * 4
            + channel]
    }
}

/// All bytes before the pixel in column `x_end` of row `y_end` are those of
/// `from_rgba`.
spec fn converted_up_to(
    out: Seq<u8>,
    data: Seq<u8>,
    width: int,
    stride: int,
    x_end: int,
    y_end: int,
) -> bool {
    forall|x: int, y: int, c: int|
        0 <= x < width && 0 <= y && 0 <= c < 4 && comes_before(x, y, x_end, y_end)
            ==> out[pixel_index(width, x, y) * 4 + c] == #[trigger] from_rgba(
            data,
            stride,
            x,
            y,
            c,
        )
}

/// All bytes before the pixel in column `x_end` of row `y_end` are those of
/// `resampled`.
spec fn resampled_up_to(
    out: Seq<u8>,
    source: Seq<u8>,
    width: int,
    height: int,
    to_width: int,
    to_height: int,
    x_end: int,
    y_end: int,
) -> bool {
    forall|x: int, y: int, c: int|
        0 <= x < to_width && 0 <= y && 0 <= c < 4 && comes_before(x, y, x_end, y_end)
            ==> out[pixel_index(to_width, x, y) * 4 + c] == #[trigger] resampled(
            source,
            width,
            height,
            to_width,
            to_height,
            x,
            y,
            c,
        )
}

/// Whether the pixel in column `sx` of row `sy` of a bitmap that is being
/// copied comes before the one in column `column_end` of row `line_end`.
pub open spec fn comes_before(sx: int, sy: int, column_end: int, line_end: int) -> bool {
    sy < line_end || (sy == line_end && sx < column_end)
}

/// Every pixel of `source` before the one in column `column_end` of row
/// `line_end` stands in `data`, a bitmap of the size of `initial`, with the
/// top left corner of `source` at column `x` of row `y`, as far as it lies
/// inside.
spec fn copied_up_to(
    data: Seq<u8>,
    initial: Image,
    source: &Image,
    x: int,
    y: int,
    column_end: int,
    line_end: int,
) -> bool {
    forall|sx: int, sy: int, c: int|
        0 <= sx < source.spec_width() && 0 <= sy < source.spec_height() && 0 <= c < 4 && x + sx
            < initial.spec_width() && y + sy < initial.spec_height() && comes_before(
            sx,
            sy,
            column_end,
            line_end,
        ) ==> data[pixel_index(initial.spec_width() as int, x + sx, y + sy) * 4 + c]
            == #[trigger] source.channel(sx, sy, c)
}

/// Every pixel of `initial` that does not lie under a pixel of `source`
/// before the one in column `column_end` of row `line_end` stands in `data`
/// as it was.
spec fn kept_up_to(
    data: Seq<u8>,
    initial: Image,
    source: &Image,
    x: int,
    y: int,
    column_end: int,
    line_end: int,
) -> bool {
    forall|px: int, py: int, c: int|
        0 <= px < initial.spec_width() && 0 <= py < initial.spec_height() && 0 <= c < 4 && !(
        Image::under(x, y, source, px, py) && comes_before(px - x, py - y, column_end, line_end))
            ==> data[pixel_index(initial.spec_width() as int, px, py) * 4 + c]
            == #[trigger] initial.channel(px, py, c)
}

/// A bitmap of four bytes per pixel, in the order blue, green, red, alpha,
/// rows from top to bottom without padding.
pub struct Image {
    width: usize,
    height: usize,
    data: Vec<u8>,
}

impl Image {
    #[verifier::type_invariant]
    spec fn sized(self) -> bool {
        self.data@.len() == self.width * self.height * 4
    }

    /// Width in pixels.
    pub closed spec fn spec_width(&self) -> nat {
        self.width as nat
    }

    /// Height in pixels.
    pub closed spec fn spec_height(&self) -> nat {
        self.height as nat
    }

    /// The bytes of all pixels, row after row.
    pub closed spec fn bytes(&self) -> Seq<u8> {
        self.data@
    }

    /// Byte `channel` of the pixel in column `x` of row `y`.
    pub open spec fn channel(&self, x: int, y: int, channel: int) -> u8 {
        self.bytes()[pixel_index(self.spec_width() as int, x, y) * 4 + channel]
    }

    /// Width in pixels.
    pub fn width(&self) -> (w: usize)
        ensures
            w == self.spec_width(),
    {
        self.width
    }

    /// Height in pixels.
    pub fn height(&self) -> (h: usize)
        ensures
            h == self.spec_height(),
    {
        self.height
    }

    /// The bytes of all pixels, row after row; there are four for each pixel.
    pub fn data(&self) -> (d: &Vec<u8>)
        ensures
            d@ == self.bytes(),
            d@.len() == self.spec_width() * self.spec_height() * 4,
    {
        proof {
            use_type_invariant(self);
        }
        &self.data
    }

    /// A bitmap of the given size whose bytes are all zero.
    pub fn new(width: usize, height: usize) -> (r: Image)
        requires
            width * height * 4 <= usize::MAX,
        ensures
            r.spec_width() == width,
            r.spec_height() == height,
            r.bytes() == Seq::new((width * height * 4) as nat, |i: int| 0u8),
    {
        assert(0 <= width * height <= width * height * 4) by (nonlinear_arith);
        let data = vec![0u8; width * height * 4];
        Image { width, height, data }
    }

    /// Whether the pixel in column `px` of row `py` lies under a bitmap of
    /// the size of `source` whose top left corner is at column `x` of row `y`.
    pub open spec fn under(x: int, y: int, source: &Image, px: int, py: int) -> bool {
        x <= px < x + source.spec_width() && y <= py < y + source.spec_height()
    }

    /// Copies `source` into this bitmap with its top left corner at column
    /// `x` of row `y`. What would lie outside this bitmap is left out, and
    /// what does not lie under `source` stays.
    pub fn blit(&mut self, x: usize, y: usize, source: &Image)
        ensures
            final(self).spec_width() == old(self).spec_width(),
            final(self).spec_height() == old(self).spec_height(),
            forall|sx: int, sy: int, c: int|
                0 <= sx < source.spec_width() && 0 <= sy < source.spec_height() && 0 <= c < 4 && x
                    + sx < old(self).spec_width() && y + sy < old(self).spec_height()
                    ==> final(self).channel(x + sx, y + sy, c) == #[trigger] source.channel(
                    sx,
                    sy,
                    c,
                ),
            forall|px: int, py: int, c: int|
                0 <= px < old(self).spec_width() && 0 <= py < old(self).spec_height() && 0 <= c < 4
                    && !Self::under(x as int, y as int, source, px, py) ==> final(self).channel(
                    px,
                    py,
                    c,
                ) == #[trigger] old(self).channel(px, py, c),
    {
        proof {
            use_type_invariant(&*self);
            use_type_invariant(source);
        }
        let ghost initial = *self;
        let mut taken = Image { width: 0, height: 0, data: Vec::new() };
        std::mem::swap(self, &mut taken);
        let Image { width, height, mut data } = taken;
        let from_width = source.width;
        let len = data.len();
        let from_len = source.data.len();
        if x >= width || y >= height {
            *self = Image { width, height, data };
            return ;
        }
        let columns = if from_width < width - x {
            from_width
        } else {
            width - x
        };
        let lines = if source.height < height - y {
            source.height
        } else {
            height - y
        };
        let mut line: usize = 0;
        while line < lines
            invariant
                line <= lines,
                lines <= source.height,
                lines <= height - y,
                columns <= from_width,
                columns <= width - x,
                lines == source.height || lines == height - y,
                columns == from_width || columns == width - x,
                x < width,
                y < height,
                width == initial.width,
                height == initial.height,
                from_width == source.width,
                data@.len() == len,
                len == width * height * 4,
                initial.data@.len() == len,
                source.data@.len() == from_len,
                from_len == from_width * source.height * 4,
                copied_up_to(data@, initial, source, x as int, y as int, 0, line as int),
                kept_up_to(data@, initial, source, x as int, y as int, 0, line as int),
            decreases lines - line,
        {
            let mut column: usize = 0;
            while column < columns
                invariant
                    column <= columns,
                    line < lines,
                    lines <= source.height,
                    lines <= height - y,
                    columns <= from_width,
                    columns <= width - x,
                    lines == source.height || lines == height - y,
                    columns == from_width || columns == width - x,
                    x < width,
                    y < height,
                    width == initial.width,
                    height == initial.height,
                    from_width == source.width,
                    data@.len() == len,
                    len == width * height * 4,
                    initial.data@.len() == len,
                    source.data@.len() == from_len,
                    from_len == from_width * source.height * 4,
                    copied_up_to(
                        data@,
                        initial,
                        source,
                        x as int,
                        y as int,
                        column as int,
                        line as int,
                    ),
                    kept_up_to(
                        data@,
                        initial,
                        source,
                        x as int,
                        y as int,
                        column as int,
                        line as int,
                    ),
                decreases columns - column,
            {
                proof {
                    lemma_pixel_index_order(
                        width as int,
                        height as int,
                        x + column,
                        y + line,
                        0,
                        height as int,
                    );
                    lemma_pixel_index_order(
                        from_width as int,
                        source.height as int,
                        column as int,
                        line as int,
                        0,
                        source.height as int,
                    );
                    assert(pixel_index(width as int, 0, height as int) * 4 == width * height * 4)
                        by (nonlinear_arith);
                    assert(pixel_index(from_width as int, 0, source.height as int) * 4
                        == from_width * source.height * 4) by (nonlinear_arith);
                    assert(0 <= (y + line) * width) by (nonlinear_arith)
                        requires
                            0 <= y + line,
                            0 <= width,
                    ;
                    assert(0 <= line * from_width) by (nonlinear_arith)
                        requires
                            0 <= line,
                            0 <= from_width,
                    ;
                }
                let to: usize = ((y + line) * width + (x + column)) * 4;
                let from: usize = (line * from_width + column) * 4;
                let ghost before = data@;
                let blue = source.data[from];
                let green = source.data[from + 1];
                let red = source.data[from + 2];
                let alpha = source.data[from + 3];
                data.set(to, blue);
                data.set(to + 1, green);
                data.set(to + 2, red);
                data.set(to + 3, alpha);
                proof {
                    let w = width as int;
                    let h = height as int;
                    assert forall|sx: int, sy: int, c: int|
                        0 <= sx < source.spec_width() && 0 <= sy < source.spec_height() && 0 <= c
                            < 4 && x + sx < initial.spec_width() && y + sy
                            < initial.spec_height() && comes_before(
                            sx,
                            sy,
                            column + 1,
                            line as int,
                        ) implies data@[pixel_index(w, x + sx, y + sy) * 4 + c]
                        == #[trigger] source.channel(sx, sy, c) by {
                        lemma_pixel_index_order(w, h, x + sx, y + sy, 0, h);
                        if sx == column && sy == line {
                        } else {
                            lemma_pixel_index_order(w, h, x + sx, y + sy, x + column, y + line);
                            assert(data@[pixel_index(w, x + sx, y + sy) * 4 + c]
                                == before[pixel_index(w, x + sx, y + sy) * 4 + c]);
                        }
                    }
                    assert forall|px: int, py: int, c: int|
                        0 <= px < initial.spec_width() && 0 <= py < initial.spec_height() && 0
                            <= c < 4 && !(Image::under(x as int, y as int, source, px, py)
                            && comes_before(
                            px - x,
                            py - y,
                            column + 1,
                            line as int,
                        )) implies data@[pixel_index(w, px, py) * 4 + c]
                        == #[trigger] initial.channel(px, py, c) by {
                        lemma_pixel_index_order(w, h, px, py, 0, h);
                        if py < y + line || (py == y + line && px < x + column) {
                            lemma_pixel_index_order(w, h, px, py, x + column, y + line);
                        } else {
                            lemma_pixel_index_order(w, h, x + column, y + line, px, py);
                        }
                        assert(data@[pixel_index(w, px, py) * 4 + c] == before[pixel_index(
                            w,
                            px,
                            py,
                        ) * 4 + c]);
                    }
                }
                column = column + 1;
            }
            line = line + 1;
        }
        *self = Image { width, height, data };
    }

    /// A bitmap of the given size over bytes that are already in its own
    /// layout, or nothing when `data` is not four bytes for each pixel.
    pub fn from_raw(width: usize, height: usize, data: Vec<u8>) -> (r: Option<Image>)
        ensures
            r is Some <==> data@.len() == width * height * 4,
            r matches Some(image) ==> {
                &&& image.spec_width() == width
                &&& image.spec_height() == height
                &&& image.bytes() == data@
            },
    {
        let len = data.len();
        assert(width * height * 4 >= width * height >= 0) by (nonlinear_arith);
        let pixels = match width.checked_mul(height) {
            Some(p) => p,
            None => {
                return None;
            },
        };
        let expected = match pixels.checked_mul(4) {
            Some(n) => n,
            None => {
                return None;
            },
        };
        if len != expected {
            return None;
        }
        Some(Image { width, height, data })
    }

    /// A bitmap of the given size taken from a buffer of red, green, blue and
    /// alpha bytes whose rows start `stride` bytes apart, or nothing when the
    /// buffer does not hold that many rows.
    pub fn with_rgba32(width: usize, height: usize, stride: usize, data: &[u8]) -> (r: Option<
        Image,
    >)
        ensures
            r is Some <==> rows_fit(width as nat, height as nat, stride as nat, data@.len()),
            r matches Some(image) ==> {
                &&& image.spec_width() == width
                &&& image.spec_height() == height
                &&& forall|x: int, y: int, c: int|
                    0 <= x < width && 0 <= y < height && 0 <= c < 4 ==> image.channel(x, y, c)
                        == #[trigger] from_rgba(data@, stride as int, x, y, c)
            },
    {
        let len = data.len();
        let row_bytes = match width.checked_mul(4) {
            Some(n) => n,
            None => {
                return None;
            },
        };
        if row_bytes > stride {
            return None;
        }
        let needed = match stride.checked_mul(height) {
            Some(n) => n,
            None => {
                return None;
            },
        };
        if needed > len {
            return None;
        }
        let mut out: Vec<u8> = Vec::new();
        let mut y: usize = 0;
        while y < height
            invariant
                y <= height,
                4 * width <= stride,
                stride * height <= len,
                len == data@.len(),
                out@.len() == pixel_index(width as int, 0, y as int) * 4,
                converted_up_to(out@, data@, width as int, stride as int, 0, y as int),
            decreases height - y,
        {
            assert(0 <= y * stride && y * stride + stride <= stride * height) by (nonlinear_arith)
                requires
                    0 <= y < height,
                    0 <= stride,
            ;
            let row: usize = y * stride;
            let mut x: usize = 0;
            while x < width
                invariant
                    x <= width,
                    y < height,
                    4 * width <= stride,
                    row == y * stride,
                    row + stride <= len,
                    len == data@.len(),
                    out@.len() == pixel_index(width as int, x as int, y as int) * 4,
                    converted_up_to(out@, data@, width as int, stride as int, x as int, y as int),
                decreases width - x,
            {
                let at: usize = row + 4 * x;
                let ghost before = out@;
                out.push(data[at + 2]);
                out.push(data[at + 1]);
                out.push(data[at]);
                out.push(data[at + 3]);
                proof {
                    let w = width as int;
                    let here = pixel_index(w, x as int, y as int);
                    assert forall|px: int, py: int, c: int|
                        0 <= px < w && 0 <= py && 0 <= c < 4 && comes_before(
                            px,
                            py,
                            x + 1,
                            y as int,
                        ) implies out@[pixel_index(w, px, py) * 4 + c] == #[trigger] from_rgba(
                        data@,
                        stride as int,
                        px,
                        py,
                        c,
                    ) by {
                        if py == y && px == x {
                        } else {
                            lemma_pixel_index_order(w, height as int, px, py, x as int, y as int);
                            assert(out@[pixel_index(w, px, py) * 4 + c] == before[pixel_index(
                                w,
                                px,
                                py,
                            ) * 4 + c]);
                        }
                    }
                }
                x = x + 1;
            }
            proof {
                assert(pixel_index(width as int, width as int, y as int) == pixel_index(
                    width as int,
                    0,
                    y + 1,
                )) by (nonlinear_arith);
            }
            y = y + 1;
        }
        proof {
            assert(pixel_index(width as int, 0, height as int) * 4 == width * height * 4)
                by (nonlinear_arith);
        }
        Some(Image { width, height, data: out })
    }

    /// This bitmap resampled to `width` by `height` pixels, each taking the
    /// nearest pixel of this bitmap.
    pub fn resize(&self, width: usize, height: usize) -> (r: Image)
        requires
            width * height * 4 <= usize::MAX,
        ensures
            r.spec_width() == width,
            r.spec_height() == height,
            forall|x: int, y: int, c: int|
                0 <= x < width && 0 <= y < height && 0 <= c < 4 ==> r.channel(x, y, c)
                    == #[trigger] resampled(
                    self.bytes(),
                    self.spec_width() as int,
                    self.spec_height() as int,
                    width as int,
                    height as int,
                    x,
                    y,
                    c,
                ),
    {
        proof {
            use_type_invariant(self);
        }
        let from_width = self.width;
        let from_height = self.height;
        let from_len = self.data.len();
        let mut out: Vec<u8> = Vec::new();
        let mut y: usize = 0;
        while y < height
            invariant
                y <= height,
                from_width == self.width,
                from_height == self.height,
                self.data@.len() == self.width * self.height * 4,
                self.data@.len() == from_len,
                out@.len() == pixel_index(width as int, 0, y as int) * 4,
                resampled_up_to(
                    out@,
                    self.data@,
                    from_width as int,
                    from_height as int,
                    width as int,
                    height as int,
                    0,
                    y as int,
                ),
            decreases height - y,
        {
            let mut x: usize = 0;
            while x < width
                invariant
                    x <= width,
                    y < height,
                    from_width == self.width,
                    from_height == self.height,
                    self.data@.len() == self.width * self.height * 4,
                    self.data@.len() == from_len,
                    out@.len() == pixel_index(width as int, x as int, y as int) * 4,
                    resampled_up_to(
                        out@,
                        self.data@,
                        from_width as int,
                        from_height as int,
                        width as int,
                        height as int,
                        x as int,
                        y as int,
                    ),
                decreases width - x,
            {
                let ghost before = out@;
                if from_width == 0 || from_height == 0 {
                    out.push(0u8);
                    out.push(0u8);
                    out.push(0u8);
                    out.push(0u8);
                } else {
                    proof {
                        lemma_nearest_in_range(x as int, from_width as int, width as int);
                        lemma_nearest_in_range(y as int, from_height as int, height as int);
                        assert(width * from_width <= 0xffff_ffff_ffff_ffff * 0xffff_ffff_ffff_ffff)
                            by (nonlinear_arith)
                            requires
                                0 <= width <= 0xffff_ffff_ffff_ffff,
                                0 <= from_width <= 0xffff_ffff_ffff_ffff,
                        ;
                        assert(height * from_height <= 0xffff_ffff_ffff_ffff
                            * 0xffff_ffff_ffff_ffff) by (nonlinear_arith)
                            requires
                                0 <= height <= 0xffff_ffff_ffff_ffff,
                                0 <= from_height <= 0xffff_ffff_ffff_ffff,
                        ;
                    }
                    let column: usize = ((x as u128) * (from_width as u128) / (width as u128))
                        as usize;
                    let line: usize = ((y as u128) * (from_height as u128) / (height as u128))
                        as usize;
                    proof {
                        lemma_pixel_index_order(
                            from_width as int,
                            from_height as int,
                            column as int,
                            line as int,
                            0,
                            from_height as int,
                        );
                        assert(pixel_index(from_width as int, 0, from_height as int) * 4
                            == from_width * from_height * 4) by (nonlinear_arith);
                        assert(0 <= line * from_width) by (nonlinear_arith)
                            requires
                                0 <= line,
                                0 <= from_width,
                        ;
                        assert(pixel_index(from_width as int, column as int, line as int) == line
                            * from_width + column);
                    }
                    let at: usize = (line * from_width + column) * 4;
                    out.push(self.data[at]);
                    out.push(self.data[at + 1]);
                    out.push(self.data[at + 2]);
                    out.push(self.data[at + 3]);
                }
                proof {
                    let w = width as int;
                    assert forall|px: int, py: int, c: int|
                        0 <= px < w && 0 <= py && 0 <= c < 4 && comes_before(
                            px,
                            py,
                            x + 1,
                            y as int,
                        ) implies out@[pixel_index(w, px, py) * 4 + c] == #[trigger] resampled(
                        self.data@,
                        from_width as int,
                        from_height as int,
                        w,
                        height as int,
                        px,
                        py,
                        c,
                    ) by {
                        if py == y && px == x {
                        } else {
                            lemma_pixel_index_order(w, height as int, px, py, x as int, y as int);
                            assert(out@[pixel_index(w, px, py) * 4 + c] == before[pixel_index(
                                w,
                                px,
                                py,
                            ) * 4 + c]);
                        }
                    }
                }
                x = x + 1;
            }
            proof {
                assert(pixel_index(width as int, width as int, y as int) == pixel_index(
                    width as int,
                    0,
                    y + 1,
                )) by (nonlinear_arith);
            }
            y = y + 1;
        }
        proof {
            assert(pixel_index(width as int, 0, height as int) * 4 == width * height * 4)
                by (nonlinear_arith);
        }
        Image { width, height, data: out }
    }

    /// This bitmap with both sides scaled by `scale`, each rounded down.
    pub fn scale_by(&self, scale: Scale) -> (r: Image)
        requires
            scale.well_formed(),
            scaled_magnitude(self.spec_width(), scale.num as nat, scale.den as nat) <= usize::MAX,
            scaled_magnitude(self.spec_height(), scale.num as nat, scale.den as nat)
                <= usize::MAX,
            scaled_magnitude(self.spec_width(), scale.num as nat, scale.den as nat)
                * scaled_magnitude(self.spec_height(), scale.num as nat, scale.den as nat) * 4
                <= usize::MAX,
        ensures
            r.spec_width() == scaled_magnitude(
                self.spec_width(),
                scale.num as nat,
                scale.den as nat,
            ),
            r.spec_height() == scaled_magnitude(
                self.spec_height(),
                scale.num as nat,
                scale.den as nat,
            ),
            forall|x: int, y: int, c: int|
                0 <= x < r.spec_width() && 0 <= y < r.spec_height() && 0 <= c < 4 ==> r.channel(
                    x,
                    y,
                    c,
                ) == #[trigger] resampled(
                    self.bytes(),
                    self.spec_width() as int,
                    self.spec_height() as int,
                    r.spec_width() as int,
                    r.spec_height() as int,
                    x,
                    y,
                    c,
                ),
    {
        let width = scale.scale_count(self.width);
        let height = scale.scale_count(self.height);
        self.resize(width, height)
    }
}

} // verus!
