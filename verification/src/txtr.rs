//! The converter: an image, the encoder and weights that give its pixels
//! their levels, and the level field made from them.

use vstd::prelude::*;
use crate::dither::final_levels;
use crate::encoder::{clamped, pixel_level, weighted_level, Encoder, Weights};
use crate::invert::inverted;
use crate::field::{build_with, ceiling, layout, levels_of, lowest, row_ends, LevelField};
use crate::raster::{Pixel, RasterImage};
use crate::text::occurrences;
use crate::render::{
    block_text,
    HALF_BLOCK,
    in_order_text,
    ramp_text,
    render_blocks,
    render_by_level,
    render_in_order,
};

verus! {

/// An image on its way to text. `red`, `green` and `blue` are the channel
/// weights in millionths.
pub struct Txtr {
    pub channel: Encoder,
    pub red: u64,
    pub green: u64,
    pub blue: u64,
    pub levels: LevelField,
    pub img: RasterImage,
}

impl Txtr {
    /// The three weights as one value.
    pub open spec fn weights(&self) -> Weights {
        Weights { red: self.red, green: self.green, blue: self.blue }
    }

    /// The image and the field are well formed, and no weight is above one.
    pub open spec fn wf(&self) -> bool {
        &&& self.img.wf()
        &&& self.weights().wf()
        &&& self.levels.wf()
    }

    /// The levels of the image's pixels, before any dithering.
    pub open spec fn raw(&self) -> Seq<usize> {
        levels_of(self.img.pixels@, self.channel, self.weights())
    }

    /// A converter for an image. Weights above one are clamped to one. The
    /// field is empty until the levels are calculated, and its range is
    /// `0..=255`.
    pub fn new(img: RasterImage, channel: Encoder, red: u64, green: u64, blue: u64) -> (t: Txtr)
        requires
            img.wf(),
        ensures
            t.wf(),
            t.img == img,
            t.channel == channel,
            t.red == clamped(red),
            t.green == clamped(green),
            t.blue == clamped(blue),
            t.levels.slots@ == Seq::<crate::field::Slot>::empty(),
            t.levels.width == 0,
            t.levels.height == 0,
            t.levels.min == 0,
            t.levels.max == 255,
            !t.levels.colored,
    {
        let weights = Weights::new(red, green, blue);
        Txtr {
            channel,
            red: weights.red,
            green: weights.green,
            blue: weights.blue,
            levels: LevelField {
                slots: Vec::new(),
                width: 0,
                height: 0,
                min: 0,
                max: 255,
                colored: false,
            },
            img,
        }
    }

    /// Inverts the colours of the image. The field is left as it is until
    /// the levels are calculated again.
    pub fn invert(&mut self)
        requires
            old(self).img.wf(),
        ensures
            final(self).img.wf(),
            final(self).img.width == old(self).img.width,
            final(self).img.height == old(self).img.height,
            final(self).img.pixels@.len() == old(self).img.pixels@.len(),
            forall|p: int|
                0 <= p < old(self).img.pixels@.len() ==> #[trigger] final(self).img.pixels@[p]
                    == inverted(old(self).img.pixels@[p]),
            final(self).levels == old(self).levels,
            final(self).channel == old(self).channel,
            final(self).weights() == old(self).weights(),
    {
        self.img = crate::invert::invert(&self.img);
    }

    /// The level of a pixel with the given channels.
    pub fn get_level(&self, r: u8, g: u8, b: u8, a: u8) -> (level: usize)
        requires
            self.weights().wf(),
        ensures
            level == weighted_level(self.channel, self.weights(), (Pixel { r, g, b, a })),
            level <= 255,
    {
        pixel_level(
            self.channel,
            Weights { red: self.red, green: self.green, blue: self.blue },
            Pixel { r, g, b, a },
        )
    }

    /// Calculates the level field of the image, with colour kept or not,
    /// and dithered to `symbols` values where `dither` is set and the range
    /// is not flat.
    pub fn calc_levels_with(&mut self, colored: bool, dither: bool, symbols: usize)
        requires
            old(self).img.wf(),
            old(self).weights().wf(),
        ensures
            final(self).wf(),
            final(self).img == old(self).img,
            final(self).channel == old(self).channel,
            final(self).weights() == old(self).weights(),
            final(self).levels.min == lowest(old(self).raw()),
            final(self).levels.max == ceiling(old(self).raw()),
            final(self).levels.width == old(self).img.width,
            final(self).levels.height == old(self).img.height,
            final(self).levels.colored == colored,
            final(self).levels.slots@.len() == old(self).img.width * old(self).img.height + old(
                self,
            ).img.height,
            row_ends(final(self).levels.slots@, final(self).levels.slots@.len() as int) == old(
                self,
            ).img.height,
            final(self).levels.slots@ == layout(
                old(self).img.pixels@,
                final_levels(
                    old(self).raw(),
                    old(self).img.width as int,
                    old(self).img.height as int,
                    final(self).levels.min as int,
                    final(self).levels.max as int,
                    symbols as int,
                    dither,
                ),
                old(self).img.width as int,
                old(self).img.height as int,
                colored,
            ),
    {
        let weights = Weights { red: self.red, green: self.green, blue: self.blue };
        self.levels = build_with(&self.img, self.channel, weights, colored, dither, symbols);
    }

    /// Calculates the level field of the image, without colour and without
    /// dithering.
    pub fn calc_levels(&mut self)
        requires
            old(self).img.wf(),
            old(self).weights().wf(),
        ensures
            final(self).wf(),
            final(self).img == old(self).img,
            final(self).channel == old(self).channel,
            final(self).weights() == old(self).weights(),
            final(self).levels.min == lowest(old(self).raw()),
            final(self).levels.max == ceiling(old(self).raw()),
            final(self).levels.width == old(self).img.width,
            final(self).levels.height == old(self).img.height,
            !final(self).levels.colored,
            final(self).levels.slots@.len() == old(self).img.width * old(self).img.height + old(
                self,
            ).img.height,
            row_ends(final(self).levels.slots@, final(self).levels.slots@.len() as int) == old(
                self,
            ).img.height,
            final(self).levels.slots@ == layout(
                old(self).img.pixels@,
                old(self).raw(),
                old(self).img.width as int,
                old(self).img.height as int,
                false,
            ),
    {
        self.calc_levels_with(false, false, 0);
    }

    /// The text of the image with each pixel as the glyph of `s` that its
    /// level falls on.
    pub fn print_by_level(&self, s: &str) -> (text: String)
        requires
            s@.len() >= 2,
        ensures
            text@ == ramp_text(
                self.levels.slots@,
                self.levels.min as int,
                self.levels.max as int,
                s@,
                self.levels.colored,
            ),
    {
        render_by_level(&self.levels, s)
    }

    /// The text of the image with the glyphs of `s` in reading order on the
    /// pixels whose level is above `level`.
    pub fn print_in_order(&self, s: &str, level: usize) -> (text: String)
        requires
            s@.len() >= 2,
        ensures
            text@ == in_order_text(
                self.levels.slots@,
                self.levels.slots@.len() as int,
                s@,
                level as int,
                self.levels.colored,
            ),
    {
        render_in_order(&self.levels, s, level)
    }

    /// The text of the image in half blocks, two rows to a line.
    pub fn print_blocks(&self) -> (text: String)
        requires
            self.levels.sized(),
        ensures
            text@ == block_text(
                self.levels.slots@,
                self.levels.width as int,
                self.levels.height as int,
                self.levels.colored,
            ),
            occurrences(text@, '\n') == (self.levels.height + 1) / 2,
            !self.levels.colored ==> occurrences(text@, '\x1b') == 0,
            !self.levels.colored ==> occurrences(text@, HALF_BLOCK) == self.levels.width * ((
            self.levels.height + 1) / 2),
    {
        render_blocks(&self.levels)
    }
}

} // verus!
