//! The whole conversion: from an image and the options of a run to the
//! text.

use vstd::prelude::*;
use vstd::string::*;
use crate::dither::final_levels;
use crate::encoder::{Encoder, Weights, SCALE};
use crate::field::{build, build_with, ceiling, layout, levels_of, lowest};
use crate::raster::RasterImage;
use crate::text::occurrences;
use crate::render::{
    block_text,
    HALF_BLOCK,
    in_order_text,
    ramp_text,
    render_blocks,
    render_by_level,
    render_in_order,
};

verus! {

/// Why a run is turned down before it starts.
#[derive(Clone, Copy, Debug, PartialEq, Eq, Structural)]
pub enum Refusal {
    /// There are fewer than two glyphs.
    Characters,
    /// The text would be no character wide.
    Width,
    /// The font size is below a hundredth.
    Fontsize,
}

/// The smallest font size that is accepted, in millionths: a hundredth.
pub const FONTSIZE_MIN: u32 = 10_000;

impl Refusal {
    /// The words for the refusal.
    pub open spec fn words(self) -> Seq<char> {
        match self {
            Refusal::Characters => "Please use 2 or more characters."@,
            Refusal::Width => "Please increase width."@,
            Refusal::Fontsize => "Please increase fontsize."@,
        }
    }

    /// The message that tells the user what to change.
    pub fn message(&self) -> (text: String)
        ensures
            text@ == self.words(),
    {
        match self {
            Refusal::Characters => String::from_str("Please use 2 or more characters."),
            Refusal::Width => String::from_str("Please increase width."),
            Refusal::Fontsize => String::from_str("Please increase fontsize."),
        }
    }
}

/// What `check` answers: the glyphs are looked at first, then the width,
/// then the font size.
pub open spec fn checked(glyphs: Seq<char>, width: int, fontsize: int) -> Result<(), Refusal> {
    if glyphs.len() < 2 {
        Err(Refusal::Characters)
    } else if width < 1 {
        Err(Refusal::Width)
    } else if fontsize < FONTSIZE_MIN {
        Err(Refusal::Fontsize)
    } else {
        Ok(())
    }
}

/// Accepts the glyphs, the width and the font size (in millionths) of a
/// run, or says what is wrong with them.
pub fn check(glyphs: &str, width: u32, fontsize: u32) -> (r: Result<(), Refusal>)
    ensures
        r == checked(glyphs@, width as int, fontsize as int),
{
    if glyphs.unicode_len() < 2 {
        Err(Refusal::Characters)
    } else if width < 1 {
        Err(Refusal::Width)
    } else if fontsize < FONTSIZE_MIN {
        Err(Refusal::Fontsize)
    } else {
        Ok(())
    }
}

/// The number of rows that an image is resized to when the text is to be
/// `width` characters wide: `width * (img_width / img_height) * fontsize`,
/// cut down to its whole part, with `fontsize` in millionths.
pub open spec fn height_for(img_width: int, img_height: int, width: int, fontsize: int) -> int {
    (width * img_width * fontsize) / (img_height * (SCALE as int))
}

/// Computes the number of rows to resize to; a number that does not fit
/// in 32 bits is replaced by the largest that does.
pub fn target_height(img_width: u32, img_height: u32, width: u32, fontsize: u32) -> (rows: u32)
    requires
        img_height >= 1,
    ensures
        rows == (if height_for(
            img_width as int,
            img_height as int,
            width as int,
            fontsize as int,
        ) > u32::MAX {
            u32::MAX as int
        } else {
            height_for(img_width as int, img_height as int, width as int, fontsize as int)
        }),
{
    assert(width * img_width * fontsize <= 0xFFFF_FFFF * 0xFFFF_FFFF * 0xFFFF_FFFF
        && width * img_width <= 0xFFFF_FFFF * 0xFFFF_FFFF) by (nonlinear_arith)
        requires
            0 <= width <= 0xFFFF_FFFF,
            0 <= img_width <= 0xFFFF_FFFF,
            0 <= fontsize <= 0xFFFF_FFFF,
    ;
    assert(1 <= img_height * SCALE <= 0xFFFF_FFFF * 1_000_000) by (nonlinear_arith)
        requires
            1 <= img_height <= 0xFFFF_FFFF,
            SCALE == 1_000_000,
    ;
    let n: u128 = (width as u128) * (img_width as u128) * (fontsize as u128);
    let d: u128 = (img_height as u128) * (SCALE as u128);
    let q: u128 = n / d;
    if q > 0xFFFF_FFFF {
        0xFFFF_FFFF
    } else {
        q as u32
    }
}

/// Which renderer writes the text.
#[derive(Clone, Copy, Debug, PartialEq, Eq, Structural)]
pub enum Mode {
    /// Glyphs picked by level.
    ByLevel,
    /// Glyphs in reading order on the pixels above the threshold.
    InOrder { threshold: usize },
    /// Half blocks, two rows to a line.
    Blocks,
}

/// The options of a run.
#[derive(Clone, Copy, Debug, PartialEq, Eq, Structural)]
pub struct Options {
    pub encoder: Encoder,
    pub weights: Weights,
    pub colored: bool,
    pub dither: bool,
    pub mode: Mode,
}

/// The text of an image under the given options. The glyph renderers
/// dither, where that is asked for, to as many values as there are glyphs;
/// the half-block renderer uses neither glyphs nor dithering.
pub open spec fn converted(img: RasterImage, options: Options, glyphs: Seq<char>) -> Seq<char> {
    let width = img.width as int;
    let height = img.height as int;
    let raw = levels_of(img.pixels@, options.encoder, options.weights);
    let min = lowest(raw);
    let max = ceiling(raw);
    let levels = final_levels(
        raw,
        width,
        height,
        min as int,
        max as int,
        glyphs.len() as int,
        options.dither,
    );
    match options.mode {
        Mode::ByLevel => ramp_text(
            layout(img.pixels@, levels, width, height, options.colored),
            min as int,
            max as int,
            glyphs,
            options.colored,
        ),
        Mode::InOrder { threshold } => in_order_text(
            layout(img.pixels@, levels, width, height, options.colored),
            width * height + height,
            glyphs,
            threshold as int,
            options.colored,
        ),
        Mode::Blocks => block_text(
            layout(img.pixels@, raw, width, height, options.colored),
            width,
            height,
            options.colored,
        ),
    }
}

/// Converts an image to text.
pub fn convert(img: &RasterImage, options: Options, glyphs: &str) -> (text: String)
    requires
        img.wf(),
        options.weights.wf(),
        !(options.mode is Blocks) ==> glyphs@.len() >= 2,
    ensures
        text@ == converted(*img, options, glyphs@),
        options.mode is Blocks ==> occurrences(text@, '\n') == (img.height + 1) / 2,
        options.mode is Blocks && !options.colored ==> occurrences(text@, '\x1b') == 0
            && occurrences(text@, HALF_BLOCK) == img.width * ((img.height + 1) / 2),
{
    match options.mode {
        Mode::ByLevel => {
            let symbols: usize = glyphs.unicode_len();
            let field = build_with(
                img,
                options.encoder,
                options.weights,
                options.colored,
                options.dither,
                symbols,
            );
            render_by_level(&field, glyphs)
        },
        Mode::InOrder { threshold } => {
            let symbols: usize = glyphs.unicode_len();
            let field = build_with(
                img,
                options.encoder,
                options.weights,
                options.colored,
                options.dither,
                symbols,
            );
            render_in_order(&field, glyphs, threshold)
        },
        Mode::Blocks => {
            let field = build(img, options.encoder, options.weights, options.colored);
            render_blocks(&field)
        },
    }
}

/// Two runs on images with the same size and pixels, under the same
/// options and glyphs, give the same text: nothing else goes into it.
pub proof fn same_input_same_text(
    a: RasterImage,
    b: RasterImage,
    options: Options,
    glyphs: Seq<char>,
)
    requires
        a.width == b.width,
        a.height == b.height,
        a.pixels@ == b.pixels@,
    ensures
        converted(a, options, glyphs) == converted(b, options, glyphs),
{
}

} // verus!
