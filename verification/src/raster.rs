//! A decoded image held as plain values: its size and its pixels in
//! row-major order.

use vstd::prelude::*;

verus! {

/// One pixel: red, green, blue and alpha, each in `0..=255`.
#[derive(Clone, Copy, Debug, PartialEq, Eq, Structural)]
pub struct Pixel {
    pub r: u8,
    pub g: u8,
    pub b: u8,
    pub a: u8,
}

/// A colour without alpha.
#[derive(Clone, Copy, Debug, PartialEq, Eq, Structural)]
pub struct Rgb {
    pub r: u8,
    pub g: u8,
    pub b: u8,
}

impl Pixel {
    /// The colour of the pixel, its alpha left out.
    pub open spec fn rgb(self) -> Rgb {
        Rgb { r: self.r, g: self.g, b: self.b }
    }

    /// The colour of the pixel, its alpha left out.
    pub fn color(self) -> (c: Rgb)
        ensures
            c == self.rgb(),
    {
        Rgb { r: self.r, g: self.g, b: self.b }
    }
}

/// An image of `width` by `height` pixels, rows from top to bottom and each
/// row from left to right.
#[derive(Clone, Debug)]
pub struct RasterImage {
    pub width: usize,
    pub height: usize,
    pub pixels: Vec<Pixel>,
}

/// Whether a pixel buffer of `len` entries is an image of `width` by
/// `height`: the sides are 32-bit numbers, and both the four bytes of every
/// pixel and the level field (one slot more per row) can still be indexed.
pub open spec fn fits(width: int, height: int, len: int) -> bool {
    &&& len == width * height
    &&& width <= u32::MAX
    &&& height <= u32::MAX
    &&& width * height + height <= usize::MAX
    &&& 4 * (width * height) <= usize::MAX
}

/// `y * width + x` stays inside a buffer of `width * height` entries.
pub proof fn lemma_index_in_bounds(x: int, y: int, width: int, height: int)
    requires
        0 <= x < width,
        0 <= y < height,
    ensures
        0 <= y * width + x < width * height,
        0 <= y * width <= width * height - width,
{
    assert(y * width >= 0) by (nonlinear_arith)
        requires
            y >= 0,
            width > 0,
    ;
    assert((y + 1) * width <= height * width) by (nonlinear_arith)
        requires
            y + 1 <= height,
            width > 0,
    ;
    assert((y + 1) * width == y * width + width) by (nonlinear_arith);
    assert(height * width == width * height) by (nonlinear_arith);
}

impl RasterImage {
    /// The pixel buffer matches the size.
    pub open spec fn wf(&self) -> bool {
        fits(self.width as int, self.height as int, self.pixels@.len() as int)
    }

    /// The pixel at column `x` of row `y`, in the model.
    pub open spec fn at(&self, x: int, y: int) -> Pixel {
        self.pixels@[y * self.width + x]
    }

    /// An image from its size and pixels; `None` when the buffer's length is
    /// not `width * height`, or the size is beyond what can be indexed.
    pub fn new(width: usize, height: usize, pixels: Vec<Pixel>) -> (r: Option<RasterImage>)
        ensures
            r is Some <==> fits(width as int, height as int, pixels@.len() as int),
            r is Some ==> r->0.width == width && r->0.height == height && r->0.pixels == pixels,
    {
        if width > 0xFFFF_FFFF || height > 0xFFFF_FFFF {
            return None;
        }
        match width.checked_mul(height) {
            Some(n) => match n.checked_add(height) {
                Some(_) => if pixels.len() == n && n.checked_mul(4).is_some() {
                    Some(RasterImage { width, height, pixels })
                } else {
                    None
                },
                None => None,
            },
            None => {
                assert(width * height >= 0) by (nonlinear_arith);
                None
            },
        }
    }

    pub fn width(&self) -> (w: usize)
        ensures
            w == self.width,
    {
        self.width
    }

    pub fn height(&self) -> (h: usize)
        ensures
            h == self.height,
    {
        self.height
    }

    /// The pixel at column `x` of row `y`.
    pub fn pixel(&self, x: usize, y: usize) -> (p: Pixel)
        requires
            self.wf(),
            x < self.width,
            y < self.height,
        ensures
            p == self.at(x as int, y as int),
    {
        proof {
            lemma_index_in_bounds(x as int, y as int, self.width as int, self.height as int);
        }
        self.pixels[y * self.width + x]
    }
}

} // verus!
