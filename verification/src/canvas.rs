//! The pixel buffer a watermark is drawn on.
use vstd::prelude::*;

verus! {

/// An image of `width` by `height` pixels of four 8-bit channels each,
/// stored row by row from the top-left corner.
#[derive(Debug, Clone)]
pub struct Canvas {
    width: u32,
    height: u32,
    data: Vec<u8>,
}

/// The bytes of the pixel with the given index in a row-major buffer.
pub open spec fn pixel_of(data: Seq<u8>, index: int) -> Seq<u8> {
    data.subrange(4 * index, 4 * index + 4)
}

/// The buffer with the four bytes of the pixel at `index` replaced by
/// `pixel`.
pub open spec fn with_pixel(data: Seq<u8>, index: int, pixel: Seq<u8>) -> Seq<u8> {
    Seq::new(
        data.len(),
        |i: int|
            if 4 * index <= i < 4 * index + 4 {
                pixel[i - 4 * index]
            } else {
                data[i]
            },
    )
}

impl Canvas {
    /// The width in pixels.
    pub closed spec fn spec_width(&self) -> u32 {
        self.width
    }

    /// The height in pixels.
    pub closed spec fn spec_height(&self) -> u32 {
        self.height
    }

    /// The bytes of all pixels, row by row.
    pub closed spec fn bytes(&self) -> Seq<u8> {
        self.data@
    }

    /// A canvas holds exactly four bytes for each of its pixels.
    pub open spec fn well_formed(&self) -> bool {
        self.bytes().len() == 4 * (self.spec_width() as int) * (self.spec_height() as int)
    }

    /// The four channels of the pixel in column `x` of row `y`.
    pub open spec fn pixel(&self, x: int, y: int) -> Seq<u8> {
        pixel_of(self.bytes(), y * (self.spec_width() as int) + x)
    }

    /// A canvas over the given bytes, or nothing where their number is not
    /// four times `width` times `height`.
    pub fn from_raw(width: u32, height: u32, data: Vec<u8>) -> (canvas: Option<Canvas>)
        ensures
            canvas is Some <==> data@.len() == 4 * (width as int) * (height as int),
            canvas matches Some(c) ==> c.well_formed() && c.spec_width() == width && c.spec_height() == height
                && c.bytes() == data@,
    {
        assert((width as u64) * (height as u64) <= 0xFFFF_FFFF * 0xFFFF_FFFF) by (nonlinear_arith)
            requires
                width <= 0xFFFF_FFFF,
                height <= 0xFFFF_FFFF,
        ;
        let area: u64 = width as u64 * height as u64;
        let len: u64 = data.len() as u64;
        assert(4 * (width as int) * (height as int) == 4 * (area as int)) by (nonlinear_arith)
            requires
                area == width as int * height as int,
        ;
        if len % 4 == 0 && len / 4 == area {
            Some(Canvas { width, height, data })
        } else {
            None
        }
    }

    /// A canvas of `width` by `height` pixels that all hold `fill`, or
    /// nothing where so many bytes cannot be addressed.
    pub fn filled(width: u32, height: u32, fill: [u8; 4]) -> (canvas: Option<Canvas>)
        ensures
            canvas is Some <==> 4 * (width as int) * (height as int) <= usize::MAX,
            canvas matches Some(c) ==> c.well_formed() && c.spec_width() == width && c.spec_height() == height
                && forall|x: int, y: int|
                0 <= x < width && 0 <= y < height ==> #[trigger] c.pixel(x, y) == fill@,
    {
        assert((width as u64) * (height as u64) <= 0xFFFF_FFFF * 0xFFFF_FFFF) by (nonlinear_arith)
            requires
                width <= 0xFFFF_FFFF,
                height <= 0xFFFF_FFFF,
        ;
        let area: u64 = width as u64 * height as u64;
        assert(4 * (width as int) * (height as int) == 4 * (area as int)) by (nonlinear_arith)
            requires
                area == width as int * height as int,
        ;
        if area > (usize::MAX / 4) as u64 {
            return None;
        }
        let count: usize = area as usize;
        let mut data: Vec<u8> = Vec::new();
        let mut i: usize = 0;
        while i < count
            invariant
                i <= count,
                4 * count <= usize::MAX,
                data@.len() == 4 * i,
                forall|k: int| 0 <= k < i ==> #[trigger] pixel_of(data@, k) == fill@,
            decreases count - i,
        {
            let ghost before = data@;
            data.push(fill[0]);
            data.push(fill[1]);
            data.push(fill[2]);
            data.push(fill[3]);
            proof {
                assert(pixel_of(data@, i as int) =~= fill@);
                assert forall|k: int| 0 <= k < i implies #[trigger] pixel_of(data@, k) == fill@ by {
                    assert(pixel_of(data@, k) =~= pixel_of(before, k));
                }
            }
            i += 1;
        }
        let canvas = Canvas { width, height, data };
        proof {
            assert forall|x: int, y: int| 0 <= x < width && 0 <= y < height implies #[trigger] canvas.pixel(
                x,
                y,
            ) == fill@ by {
                lemma_index_in_range(width as int, height as int, x, y);
            }
        }
        Some(canvas)
    }

    /// The width in pixels.
    pub fn width(&self) -> (w: u32)
        ensures
            w == self.spec_width(),
    {
        self.width
    }

    /// The height in pixels.
    pub fn height(&self) -> (h: u32)
        ensures
            h == self.spec_height(),
    {
        self.height
    }

    /// The bytes of all pixels, row by row.
    pub fn as_bytes(&self) -> (bytes: &Vec<u8>)
        ensures
            bytes@ == self.bytes(),
    {
        &self.data
    }

    /// Gives up the canvas for its bytes.
    pub fn into_raw(self) -> (bytes: Vec<u8>)
        ensures
            bytes@ == self.bytes(),
    {
        self.data
    }

    /// The four channels of the pixel in column `x` of row `y`.
    pub fn get_pixel(&self, x: u32, y: u32) -> (pixel: [u8; 4])
        requires
            self.well_formed(),
            x < self.spec_width(),
            y < self.spec_height(),
        ensures
            pixel@ == self.pixel(x as int, y as int),
    {
        let len: usize = self.data.len();
        proof {
            lemma_index_in_range(self.width as int, self.height as int, x as int, y as int);
            assert(4 * (y as int * (self.width as int) + x as int) + 4 <= len);
        }
        let at: usize = (y as usize * self.width as usize + x as usize) * 4;
        let pixel = [self.data[at], self.data[at + 1], self.data[at + 2], self.data[at + 3]];
        assert(pixel@ =~= self.pixel(x as int, y as int));
        pixel
    }

    /// Replaces the pixel in column `x` of row `y` and leaves every other
    /// pixel as it is.
    pub fn put_pixel(&mut self, x: u32, y: u32, pixel: [u8; 4])
        requires
            old(self).well_formed(),
            x < old(self).spec_width(),
            y < old(self).spec_height(),
        ensures
            final(self).well_formed(),
            final(self).spec_width() == old(self).spec_width(),
            final(self).spec_height() == old(self).spec_height(),
            final(self).bytes() == with_pixel(
                old(self).bytes(),
                y as int * (old(self).spec_width() as int) + x as int,
                pixel@,
            ),
    {
        let len: usize = self.data.len();
        proof {
            lemma_index_in_range(self.width as int, self.height as int, x as int, y as int);
            assert(4 * (y as int * (self.width as int) + x as int) + 4 <= len);
        }
        let at: usize = (y as usize * self.width as usize + x as usize) * 4;
        let ghost before = self.data@;
        self.data.set(at, pixel[0]);
        self.data.set(at + 1, pixel[1]);
        self.data.set(at + 2, pixel[2]);
        self.data.set(at + 3, pixel[3]);
        assert(self.data@ =~= with_pixel(before, y as int * (self.width as int) + x as int, pixel@));
    }
}

/// The index of a pixel inside a `width` by `height` grid lies inside the
/// buffer.
pub proof fn lemma_index_in_range(width: int, height: int, x: int, y: int)
    requires
        0 <= x < width,
        0 <= y < height,
    ensures
        0 <= y * width <= y * width + x < width * height,
        4 * (y * width + x) + 4 <= 4 * width * height,
        4 * width * height == 4 * (width * height),
{
    assert(y * width + x < width * height) by (nonlinear_arith)
        requires
            0 <= x < width,
            0 <= y < height,
    ;
    assert(0 <= y * width) by (nonlinear_arith)
        requires
            0 <= y,
            0 <= width,
    ;
    assert(4 * width * height == 4 * (width * height)) by (nonlinear_arith);
}

/// Two different places of a grid have different indices.
pub proof fn lemma_index_distinct(width: int, x1: int, y1: int, x2: int, y2: int)
    requires
        0 <= x1 < width,
        0 <= x2 < width,
        0 <= y1,
        0 <= y2,
        y1 * width + x1 == y2 * width + x2,
    ensures
        x1 == x2,
        y1 == y2,
{
    if y1 < y2 {
        assert(y2 * width >= (y1 + 1) * width) by (nonlinear_arith)
            requires
                y1 < y2,
                width > 0,
        ;
        assert((y1 + 1) * width == y1 * width + width) by (nonlinear_arith);
    } else if y2 < y1 {
        assert(y1 * width >= (y2 + 1) * width) by (nonlinear_arith)
            requires
                y2 < y1,
                width > 0,
        ;
        assert((y2 + 1) * width == y2 * width + width) by (nonlinear_arith);
    }
}

} // verus!
