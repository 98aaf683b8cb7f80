//! Channel encoders: each turns the four weighted channel samples of a pixel
//! into one brightness level.
//!
//! Samples are fixed-point numbers: a `u64` value `n` stands for `n / SCALE`.
//! A raw channel sample `c` weighted by `w` millionths is `c * w`.

use vstd::prelude::*;
use vstd::string::*;
use crate::raster::Pixel;
use crate::text::{chars_of, same_chars};

verus! {

/// Fixed-point units per whole level.
pub const SCALE: u64 = 1_000_000;

/// The largest weighted sample: a raw sample of 255 at full weight.
pub const SAMPLE_MAX: u64 = 255_000_000;

/// The closed set of channel encoders.
#[derive(Clone, Copy, Debug, PartialEq, Eq, Structural)]
pub enum Encoder {
    Red,
    Green,
    Blue,
    Alpha,
    Luma601,
    Luma709,
}

/// A fixed-point sample cut down to its whole part.
pub open spec fn whole_of(sample: int) -> int {
    sample / (SCALE as int)
}

/// `0.299 r + 0.587 g + 0.114 b`, cut down to its whole part.
pub open spec fn luma601_of(r: int, g: int, b: int) -> int {
    (299 * r + 587 * g + 114 * b) / (1000 * (SCALE as int))
}

/// `0.2126 r + 0.7152 g + 0.0722 b`, cut down to its whole part.
pub open spec fn luma709_of(r: int, g: int, b: int) -> int {
    (2126 * r + 7152 * g + 722 * b) / (10000 * (SCALE as int))
}

/// Whether a sample is in the range that a weighted 8-bit channel can take.
pub open spec fn sample_ok(sample: u64) -> bool {
    sample <= SAMPLE_MAX
}

/// The encoder that a name stands for. Names are case-sensitive; every
/// name outside the table stands for `Luma709`.
pub open spec fn resolve(name: Seq<char>) -> Encoder {
    if name == "red"@ {
        Encoder::Red
    } else if name == "green"@ {
        Encoder::Green
    } else if name == "blue"@ {
        Encoder::Blue
    } else if name == "alpha"@ {
        Encoder::Alpha
    } else if name == "luma601"@ {
        Encoder::Luma601
    } else {
        Encoder::Luma709
    }
}

/// Whether a name is in the table of encoders.
pub open spec fn is_known(name: Seq<char>) -> bool {
    name == "red"@ || name == "green"@ || name == "blue"@ || name == "alpha"@ || name
        == "luma601"@ || name == "luma709"@
}

fn is_name(name: &Vec<char>, word: &str) -> (r: bool)
    ensures
        r == (name@ == word@),
{
    let w = chars_of(word);
    same_chars(name, &w)
}

/// Picks the encoder for a name; an unknown name picks `Luma709`.
pub fn select(enc: &str) -> (e: Encoder)
    ensures
        e == resolve(enc@),
{
    let name = chars_of(enc);
    if is_name(&name, "red") {
        Encoder::Red
    } else if is_name(&name, "green") {
        Encoder::Green
    } else if is_name(&name, "blue") {
        Encoder::Blue
    } else if is_name(&name, "alpha") {
        Encoder::Alpha
    } else if is_name(&name, "luma601") {
        Encoder::Luma601
    } else {
        Encoder::Luma709
    }
}

/// Whether `select` knows the name, so that a caller can warn when it does
/// not.
pub fn recognized(enc: &str) -> (r: bool)
    ensures
        r == is_known(enc@),
{
    let name = chars_of(enc);
    is_name(&name, "red") || is_name(&name, "green") || is_name(&name, "blue") || is_name(
        &name,
        "alpha",
    ) || is_name(&name, "luma601") || is_name(&name, "luma709")
}

/// The words that tell the user that a name is not in the table and what
/// is used in its place.
pub open spec fn warning_text(name: Seq<char>) -> Seq<char> {
    "unknown encoder '"@ + name + "', using luma709"@
}

/// The warning that is due for a name: none for a name of the table, and
/// for any other name the words that say so and name the encoder that
/// `select` picks instead.
pub fn warning(enc: &str) -> (w: Option<String>)
    ensures
        w is None <==> is_known(enc@),
        w is Some ==> w->0@ == warning_text(enc@),
{
    if recognized(enc) {
        None
    } else {
        Some(String::from_str("unknown encoder '").concat(enc).concat("', using luma709"))
    }
}

/// The red channel alone.
pub fn red(r: u64, g: u64, b: u64, a: u64) -> (level: usize)
    requires
        sample_ok(r),
    ensures
        level == whole_of(r as int),
        level <= 255,
{
    (r / SCALE) as usize
}

/// The green channel alone.
pub fn green(r: u64, g: u64, b: u64, a: u64) -> (level: usize)
    requires
        sample_ok(g),
    ensures
        level == whole_of(g as int),
        level <= 255,
{
    (g / SCALE) as usize
}

/// The blue channel alone.
pub fn blue(r: u64, g: u64, b: u64, a: u64) -> (level: usize)
    requires
        sample_ok(b),
    ensures
        level == whole_of(b as int),
        level <= 255,
{
    (b / SCALE) as usize
}

/// The alpha channel alone.
pub fn alpha(r: u64, g: u64, b: u64, a: u64) -> (level: usize)
    requires
        sample_ok(a),
    ensures
        level == whole_of(a as int),
        level <= 255,
{
    (a / SCALE) as usize
}

/// Luma by the weights of Rec. 601.
pub fn luma601(r: u64, g: u64, b: u64, a: u64) -> (level: usize)
    requires
        sample_ok(r),
        sample_ok(g),
        sample_ok(b),
    ensures
        level == luma601_of(r as int, g as int, b as int),
        level <= 255,
{
    let sum: u64 = 299 * r + 587 * g + 114 * b;
    let unit: u64 = 1000 * SCALE;
    assert(unit == 1_000_000_000);
    let level: u64 = sum / unit;
    assert(level <= 255) by {
        assert(sum <= 255 * 1_000_000_000);
    }
    level as usize
}

/// Luma by the weights of Rec. 709.
pub fn luma709(r: u64, g: u64, b: u64, a: u64) -> (level: usize)
    requires
        sample_ok(r),
        sample_ok(g),
        sample_ok(b),
    ensures
        level == luma709_of(r as int, g as int, b as int),
        level <= 255,
{
    let sum: u64 = 2126 * r + 7152 * g + 722 * b;
    let unit: u64 = 10000 * SCALE;
    assert(unit == 10_000_000_000);
    let level: u64 = sum / unit;
    assert(level <= 255) by {
        assert(sum <= 255 * 10_000_000_000);
    }
    level as usize
}

impl Encoder {
    /// The level that this encoder gives to four weighted samples.
    pub open spec fn level_of(self, r: int, g: int, b: int, a: int) -> int {
        match self {
            Encoder::Red => whole_of(r),
            Encoder::Green => whole_of(g),
            Encoder::Blue => whole_of(b),
            Encoder::Alpha => whole_of(a),
            Encoder::Luma601 => luma601_of(r, g, b),
            Encoder::Luma709 => luma709_of(r, g, b),
        }
    }

    /// Applies the encoder to four weighted samples.
    pub fn level(self, r: u64, g: u64, b: u64, a: u64) -> (level: usize)
        requires
            sample_ok(r),
            sample_ok(g),
            sample_ok(b),
            sample_ok(a),
        ensures
            level == self.level_of(r as int, g as int, b as int, a as int),
            level <= 255,
    {
        match self {
            Encoder::Red => red(r, g, b, a),
            Encoder::Green => green(r, g, b, a),
            Encoder::Blue => blue(r, g, b, a),
            Encoder::Alpha => alpha(r, g, b, a),
            Encoder::Luma601 => luma601(r, g, b, a),
            Encoder::Luma709 => luma709(r, g, b, a),
        }
    }
}

/// How much of each colour channel reaches the encoder, in millionths:
/// `SCALE` lets a channel through whole, 0 removes it. Alpha is never
/// weighted.
#[derive(Clone, Copy, Debug, PartialEq, Eq, Structural)]
pub struct Weights {
    pub red: u64,
    pub green: u64,
    pub blue: u64,
}

/// `value`, or `SCALE` where it is larger.
pub open spec fn clamped(value: u64) -> u64 {
    if value > SCALE {
        SCALE
    } else {
        value
    }
}

fn clamp_weight(value: u64) -> (w: u64)
    ensures
        w == clamped(value),
{
    if value > SCALE {
        SCALE
    } else {
        value
    }
}

impl Weights {
    /// No weight is above one.
    pub open spec fn wf(&self) -> bool {
        self.red <= SCALE && self.green <= SCALE && self.blue <= SCALE
    }

    /// Weights in millionths, each clamped to one.
    pub fn new(red: u64, green: u64, blue: u64) -> (w: Weights)
        ensures
            w.wf(),
            w.red == clamped(red),
            w.green == clamped(green),
            w.blue == clamped(blue),
    {
        Weights { red: clamp_weight(red), green: clamp_weight(green), blue: clamp_weight(blue) }
    }

    /// Every channel at full weight.
    pub fn full() -> (w: Weights)
        ensures
            w.wf(),
            w.red == SCALE,
            w.green == SCALE,
            w.blue == SCALE,
    {
        Weights { red: SCALE, green: SCALE, blue: SCALE }
    }
}

/// The level of a pixel: its colour samples are scaled by the weights, its
/// alpha is taken whole, and the encoder is applied.
pub open spec fn weighted_level(encoder: Encoder, weights: Weights, p: Pixel) -> int {
    encoder.level_of(
        p.r as int * weights.red as int,
        p.g as int * weights.green as int,
        p.b as int * weights.blue as int,
        p.a as int * SCALE as int,
    )
}

/// Computes the level of one pixel.
pub fn pixel_level(encoder: Encoder, weights: Weights, p: Pixel) -> (level: usize)
    requires
        weights.wf(),
    ensures
        level == weighted_level(encoder, weights, p),
        level <= 255,
{
    assert(p.r as int * weights.red as int <= 255 * 1_000_000) by (nonlinear_arith)
        requires
            p.r <= 255,
            weights.red <= 1_000_000,
    ;
    assert(p.g as int * weights.green as int <= 255 * 1_000_000) by (nonlinear_arith)
        requires
            p.g <= 255,
            weights.green <= 1_000_000,
    ;
    assert(p.b as int * weights.blue as int <= 255 * 1_000_000) by (nonlinear_arith)
        requires
            p.b <= 255,
            weights.blue <= 1_000_000,
    ;
    encoder.level(
        p.r as u64 * weights.red,
        p.g as u64 * weights.green,
        p.b as u64 * weights.blue,
        p.a as u64 * SCALE,
    )
}

/// A name outside the table encodes every pixel exactly as `luma709` does.
pub proof fn unknown_name_encodes_as_luma709(name: Seq<char>, r: int, g: int, b: int, a: int)
    requires
        !is_known(name),
    ensures
        resolve(name).level_of(r, g, b, a) == luma709_of(r, g, b),
        resolve(name) == resolve("luma709"@),
{
    reveal_strlit("red");
    reveal_strlit("green");
    reveal_strlit("blue");
    reveal_strlit("alpha");
    reveal_strlit("luma601");
    reveal_strlit("luma709");
    assert("luma601"@[4] != "luma709"@[4]);
    assert("luma709"@.len() == 7);
}

} // verus!
