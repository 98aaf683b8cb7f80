//! Colour inversion, done by the `image` crate on the bytes of the pixels.

use vstd::prelude::*;
use crate::raster::{Pixel, RasterImage};

verus! {

/// Channel `c` of a pixel: red, green, blue, alpha.
pub open spec fn channel(p: Pixel, c: int) -> u8 {
    if c == 0 {
        p.r
    } else if c == 1 {
        p.g
    } else if c == 2 {
        p.b
    } else {
        p.a
    }
}

/// The pixels as bytes, four to a pixel.
pub open spec fn bytes_of(pixels: Seq<Pixel>) -> Seq<u8> {
    Seq::new(4 * pixels.len(), |i: int| channel(pixels[i / 4], i % 4))
}

/// The byte at position `i` of an inverted buffer: a colour byte is
/// mirrored in `0..=255`, an alpha byte stays.
pub open spec fn flipped(byte: u8, i: int) -> u8 {
    if i % 4 == 3 {
        byte
    } else {
        (255 - byte) as u8
    }
}

/// A pixel with its colour inverted and its alpha kept.
pub open spec fn inverted(p: Pixel) -> Pixel {
    Pixel { r: (255 - p.r) as u8, g: (255 - p.g) as u8, b: (255 - p.b) as u8, a: p.a }
}

/// Writes the pixels out as bytes.
pub fn to_bytes(pixels: &Vec<Pixel>) -> (bytes: Vec<u8>)
    requires
        4 * pixels@.len() <= usize::MAX,
    ensures
        bytes@ == bytes_of(pixels@),
{
    let n: usize = pixels.len();
    let mut bytes: Vec<u8> = Vec::new();
    let mut p: usize = 0;
    while p < n
        invariant
            p <= n,
            n == pixels@.len(),
            bytes@.len() == 4 * p,
            forall|i: int|
                0 <= i < 4 * p ==> #[trigger] bytes@[i] == channel(pixels@[i / 4], i % 4),
        decreases n - p,
    {
        let px = pixels[p];
        bytes.push(px.r);
        bytes.push(px.g);
        bytes.push(px.b);
        bytes.push(px.a);
        p += 1;
    }
    assert(bytes@ =~= bytes_of(pixels@));
    bytes
}

/// The pixel made of the four bytes from position `4 * q` on.
pub open spec fn pixel_at(bytes: Seq<u8>, q: int) -> Pixel {
    Pixel { r: bytes[4 * q], g: bytes[4 * q + 1], b: bytes[4 * q + 2], a: bytes[4 * q + 3] }
}

/// Reads pixels back from bytes, four to a pixel; bytes left over at the
/// end are not read.
pub fn from_bytes(bytes: &Vec<u8>) -> (pixels: Vec<Pixel>)
    ensures
        pixels@.len() == bytes@.len() / 4,
        forall|q: int| 0 <= q < pixels@.len() ==> #[trigger] pixels@[q] == pixel_at(bytes@, q),
{
    let total: usize = bytes.len();
    let n: usize = total / 4;
    let mut pixels: Vec<Pixel> = Vec::new();
    let mut p: usize = 0;
    while p < n
        invariant
            p <= n,
            n == total / 4,
            total == bytes@.len(),
            pixels@.len() == p,
            forall|q: int| 0 <= q < p ==> #[trigger] pixels@[q] == pixel_at(bytes@, q),
        decreases n - p,
    {
        pixels.push(
            Pixel {
                r: bytes[4 * p],
                g: bytes[4 * p + 1],
                b: bytes[4 * p + 2],
                a: bytes[4 * p + 3],
            },
        );
        p += 1;
    }
    pixels
}

/// Stands for `image::imageops::invert` on an image of 8-bit RGBA pixels,
/// handed over and taken back as its raw bytes: the buffer keeps its
/// length, every colour byte `b` becomes `255 - b`, and the alpha bytes are
/// left as they are. The image has at least one pixel, so that neither
/// side is 0 and four times the width is no more than the buffer holds.
#[verifier::external_body]
fn invert_rgba(width: u32, height: u32, bytes: Vec<u8>) -> (out: Vec<u8>)
    requires
        bytes@.len() == 4 * (width * height),
        bytes@.len() > 0,
    ensures
        out@.len() == bytes@.len(),
        forall|i: int| 0 <= i < out@.len() ==> #[trigger] out@[i] == flipped(bytes@[i], i),
{
    let mut buffer = image::RgbaImage::from_raw(width, height, bytes).unwrap();
    image::imageops::invert(&mut buffer);
    buffer.into_raw()
}

/// The image with the colour of every pixel inverted.
pub fn invert(img: &RasterImage) -> (out: RasterImage)
    requires
        img.wf(),
    ensures
        out.wf(),
        out.width == img.width,
        out.height == img.height,
        out.pixels@.len() == img.pixels@.len(),
        forall|p: int|
            0 <= p < img.pixels@.len() ==> #[trigger] out.pixels@[p] == inverted(img.pixels@[p]),
{
    if img.pixels.len() == 0 {
        return RasterImage { width: img.width, height: img.height, pixels: Vec::new() };
    }
    let bytes = to_bytes(&img.pixels);
    let flipped_bytes = invert_rgba(img.width as u32, img.height as u32, bytes);
    let pixels = from_bytes(&flipped_bytes);
    proof {
        assert forall|p: int| 0 <= p < img.pixels@.len() implies #[trigger] pixels@[p] == inverted(
            img.pixels@[p],
        ) by {
            assert(flipped_bytes@[4 * p] == flipped(bytes@[4 * p], 4 * p));
            assert(flipped_bytes@[4 * p + 1] == flipped(bytes@[4 * p + 1], 4 * p + 1));
            assert(flipped_bytes@[4 * p + 2] == flipped(bytes@[4 * p + 2], 4 * p + 2));
            assert(flipped_bytes@[4 * p + 3] == flipped(bytes@[4 * p + 3], 4 * p + 3));
            assert(pixels@[p] == pixel_at(flipped_bytes@, p));
        }
    }
    RasterImage { width: img.width, height: img.height, pixels }
}

} // verus!
