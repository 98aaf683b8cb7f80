//! The level field: one record per pixel, in row-major order, with a marker
//! after the last pixel of every row, and the lowest and highest level seen.

use vstd::prelude::*;
use vstd::arithmetic::div_mod::{lemma_fundamental_div_mod, lemma_fundamental_div_mod_converse};
use crate::dither::{dither_levels, final_levels, lemma_dithered_len};
use crate::encoder::{pixel_level, weighted_level, Encoder, Weights};
use crate::raster::{lemma_index_in_bounds, Pixel, RasterImage, Rgb};

verus! {

/// One slot of a level field.
#[derive(Clone, Copy, Debug, PartialEq, Eq, Structural)]
pub enum Slot {
    /// A pixel: its level and, when colour was asked for, its colour.
    Pixel { level: usize, color: Option<Rgb> },
    /// The end of a row.
    RowEnd,
}

/// The level field of an image.
#[derive(Clone, Debug)]
pub struct LevelField {
    pub slots: Vec<Slot>,
    pub width: usize,
    pub height: usize,
    pub min: usize,
    pub max: usize,
    pub colored: bool,
}

impl LevelField {
    /// The field has a slot for every pixel and one more for every row.
    pub open spec fn sized(&self) -> bool {
        self.slots@.len() == self.width * self.height + self.height
    }

    /// The field has the size of its image, and its range is in order.
    pub open spec fn wf(&self) -> bool {
        &&& self.sized()
        &&& self.min <= self.max
    }
}

/// The smallest entry of `s`, and 0 when `s` is empty.
pub open spec fn lowest(s: Seq<usize>) -> usize
    decreases s.len(),
{
    if s.len() == 0 {
        0
    } else if s.len() == 1 {
        s[0]
    } else {
        let rest = lowest(s.drop_last());
        if s.last() < rest {
            s.last()
        } else {
            rest
        }
    }
}

/// The largest entry of `s`, and 0 when `s` is empty.
pub open spec fn highest(s: Seq<usize>) -> usize
    decreases s.len(),
{
    if s.len() == 0 {
        0
    } else {
        let rest = highest(s.drop_last());
        if s.last() > rest {
            s.last()
        } else {
            rest
        }
    }
}

/// The upper end of the range of `s`: its largest entry, but 255 when
/// nothing in `s` is above 0, so that the range is never `0..=0`.
pub open spec fn ceiling(s: Seq<usize>) -> usize {
    if highest(s) == 0 {
        255
    } else {
        highest(s)
    }
}

/// `lowest` is a lower bound that some entry attains.
pub proof fn lemma_lowest(s: Seq<usize>)
    requires
        s.len() > 0,
    ensures
        forall|i: int| 0 <= i < s.len() ==> lowest(s) <= #[trigger] s[i],
        exists|i: int| 0 <= i < s.len() && s[i] == lowest(s),
    decreases s.len(),
{
    if s.len() > 1 {
        let t = s.drop_last();
        lemma_lowest(t);
        let k = choose|i: int| 0 <= i < t.len() && t[i] == lowest(t);
        assert(s[k] == t[k]);
        assert forall|i: int| 0 <= i < s.len() implies lowest(s) <= #[trigger] s[i] by {
            if i < t.len() {
                assert(s[i] == t[i]);
            }
        }
        if s.last() < lowest(t) {
            assert(s[s.len() - 1] == lowest(s));
        } else {
            assert(s[k] == lowest(s));
        }
    } else {
        assert(s[0] == lowest(s));
    }
}

/// `highest` is an upper bound that, in a sequence that is not empty, some
/// entry attains.
pub proof fn lemma_highest(s: Seq<usize>)
    ensures
        forall|i: int| 0 <= i < s.len() ==> #[trigger] s[i] <= highest(s),
        s.len() > 0 ==> exists|i: int| 0 <= i < s.len() && s[i] == highest(s),
    decreases s.len(),
{
    if s.len() > 0 {
        let t = s.drop_last();
        lemma_highest(t);
        assert forall|i: int| 0 <= i < s.len() implies #[trigger] s[i] <= highest(s) by {
            if i < t.len() {
                assert(s[i] == t[i]);
            }
        }
        if s.last() > highest(t) || t.len() == 0 {
            assert(s[s.len() - 1] == highest(s));
        } else {
            let k = choose|i: int| 0 <= i < t.len() && t[i] == highest(t);
            assert(s[k] == t[k]);
            assert(s[k] == highest(s));
        }
    }
}

/// The lower end of the range never lies above the upper end.
pub proof fn lemma_range_ordered(s: Seq<usize>)
    ensures
        lowest(s) <= ceiling(s),
{
    lemma_highest(s);
    if s.len() > 0 {
        lemma_lowest(s);
        assert(lowest(s) <= s[0]);
    }
}

/// The levels of all pixels of an image, in row-major order.
pub open spec fn levels_of(pixels: Seq<Pixel>, encoder: Encoder, weights: Weights) -> Seq<usize> {
    Seq::new(pixels.len(), |p: int| weighted_level(encoder, weights, pixels[p]) as usize)
}

/// The slot at position `i` of the field of an image `width` pixels wide:
/// each row is `width` pixel records and then one row end.
pub open spec fn slot_at(
    pixels: Seq<Pixel>,
    levels: Seq<usize>,
    width: int,
    colored: bool,
    i: int,
) -> Slot {
    let x = i % (width + 1);
    let y = i / (width + 1);
    if x == width {
        Slot::RowEnd
    } else {
        let p = pixels[y * width + x];
        Slot::Pixel {
            level: levels[y * width + x],
            color: if colored {
                Some(p.rgb())
            } else {
                None
            },
        }
    }
}

/// The whole field of an image whose pixels have the given levels.
pub open spec fn layout(
    pixels: Seq<Pixel>,
    levels: Seq<usize>,
    width: int,
    height: int,
    colored: bool,
) -> Seq<Slot> {
    Seq::new(
        (width * height + height) as nat,
        |i: int| slot_at(pixels, levels, width, colored, i),
    )
}

/// Computes the level of every pixel.
pub fn raw_levels(img: &RasterImage, encoder: Encoder, weights: Weights) -> (levels: Vec<usize>)
    requires
        weights.wf(),
    ensures
        levels@ == levels_of(img.pixels@, encoder, weights),
        forall|p: int| 0 <= p < levels@.len() ==> #[trigger] levels@[p] <= 255,
{
    let n: usize = img.pixels.len();
    let mut levels: Vec<usize> = Vec::new();
    let mut p: usize = 0;
    while p < n
        invariant
            p <= n,
            n == img.pixels@.len(),
            weights.wf(),
            levels@.len() == p,
            forall|q: int|
                0 <= q < p ==> #[trigger] levels@[q] == weighted_level(
                    encoder,
                    weights,
                    img.pixels@[q],
                ),
            forall|q: int| 0 <= q < p ==> #[trigger] levels@[q] <= 255,
        decreases n - p,
    {
        levels.push(pixel_level(encoder, weights, img.pixels[p]));
        p += 1;
    }
    assert(levels@ =~= levels_of(img.pixels@, encoder, weights));
    levels
}

/// The lowest level and the upper end of the range of the levels.
pub fn extent(levels: &Vec<usize>) -> (r: (usize, usize))
    ensures
        r.0 == lowest(levels@),
        r.1 == ceiling(levels@),
        r.0 <= r.1,
        forall|p: int| 0 <= p < levels@.len() ==> r.0 <= #[trigger] levels@[p] <= r.1,
{
    let n: usize = levels.len();
    let mut min: usize = 0;
    let mut max: usize = 0;
    let mut p: usize = 0;
    while p < n
        invariant
            p <= n,
            n == levels@.len(),
            min == lowest(levels@.take(p as int)),
            max == highest(levels@.take(p as int)),
        decreases n - p,
    {
        let level: usize = levels[p];
        proof {
            let next = levels@.take(p + 1);
            assert(next.drop_last() =~= levels@.take(p as int));
            assert(next.last() == level);
        }
        if p == 0 || level < min {
            min = level;
        }
        if level > max {
            max = level;
        }
        p += 1;
    }
    proof {
        assert(levels@.take(n as int) =~= levels@);
        lemma_range_ordered(levels@);
        lemma_highest(levels@);
        if n > 0 {
            lemma_lowest(levels@);
        }
    }
    if max == 0 {
        max = 255;
    }
    (min, max)
}

/// Lays the levels out as a field: row by row, a record for each pixel and
/// a row end after each row.
pub fn assemble(
    img: &RasterImage,
    levels: &Vec<usize>,
    min: usize,
    max: usize,
    colored: bool,
) -> (field: LevelField)
    requires
        img.wf(),
        levels@.len() == img.pixels@.len(),
    ensures
        field.slots@ == layout(
            img.pixels@,
            levels@,
            img.width as int,
            img.height as int,
            colored,
        ),
        field.width == img.width,
        field.height == img.height,
        field.min == min,
        field.max == max,
        field.colored == colored,
        field.sized(),
        min <= max ==> field.wf(),
{
    let width: usize = img.width;
    let height: usize = img.height;
    let mut slots: Vec<Slot> = Vec::new();
    let mut y: usize = 0;
    while y < height
        invariant
            y <= height,
            width == img.width,
            height == img.height,
            img.wf(),
            levels@.len() == img.pixels@.len(),
            slots@.len() == y * (width + 1),
            forall|i: int|
                0 <= i < slots@.len() ==> #[trigger] slots@[i] == slot_at(
                    img.pixels@,
                    levels@,
                    width as int,
                    colored,
                    i,
                ),
        decreases height - y,
    {
        let mut x: usize = 0;
        while x < width
            invariant
                x <= width,
                y < height,
                width == img.width,
                height == img.height,
                img.wf(),
                levels@.len() == img.pixels@.len(),
                slots@.len() == y * (width + 1) + x,
                forall|i: int|
                    0 <= i < slots@.len() ==> #[trigger] slots@[i] == slot_at(
                        img.pixels@,
                        levels@,
                        width as int,
                        colored,
                        i,
                    ),
            decreases width - x,
        {
            proof {
                lemma_index_in_bounds(x as int, y as int, width as int, height as int);
                lemma_fundamental_div_mod_converse(
                    y * (width + 1) + x,
                    width + 1,
                    y as int,
                    x as int,
                );
            }
            let p: usize = y * width + x;
            let px = img.pixels[p];
            let color = if colored {
                Some(px.color())
            } else {
                None
            };
            slots.push(Slot::Pixel { level: levels[p], color });
            x += 1;
        }
        proof {
            lemma_fundamental_div_mod_converse(
                y * (width + 1) + width,
                width + 1,
                y as int,
                width as int,
            );
            assert((y + 1) * (width + 1) == y * (width + 1) + width + 1) by (nonlinear_arith);
        }
        slots.push(Slot::RowEnd);
        y += 1;
    }
    proof {
        assert(height * (width + 1) == width * height + height) by (nonlinear_arith);
        assert(slots@ =~= layout(
            img.pixels@,
            levels@,
            img.width as int,
            img.height as int,
            colored,
        ));
    }
    LevelField { slots, width, height, min, max, colored }
}

/// How many of the first `n` slots are row ends.
pub open spec fn row_ends(slots: Seq<Slot>, n: int) -> int
    decreases n,
{
    if n <= 0 {
        0
    } else {
        row_ends(slots, n - 1) + if slots[n - 1] is RowEnd {
            1int
        } else {
            0int
        }
    }
}

proof fn lemma_row_ends_prefix(
    pixels: Seq<Pixel>,
    levels: Seq<usize>,
    width: int,
    height: int,
    colored: bool,
    n: int,
)
    requires
        width >= 0,
        height >= 0,
        0 <= n <= width * height + height,
    ensures
        row_ends(layout(pixels, levels, width, height, colored), n) == n / (width + 1),
    decreases n,
{
    let stride = width + 1;
    if n > 0 {
        lemma_row_ends_prefix(pixels, levels, width, height, colored, n - 1);
        lemma_fundamental_div_mod(n - 1, stride);
        let q = (n - 1) / stride;
        let r = (n - 1) % stride;
        if r == width {
            assert(n == (q + 1) * stride + 0) by (nonlinear_arith)
                requires
                    n - 1 == stride * q + r,
                    r + 1 == stride,
            ;
            lemma_fundamental_div_mod_converse(n, stride, q + 1, 0);
        } else {
            assert(n == q * stride + (r + 1)) by (nonlinear_arith)
                requires
                    n - 1 == stride * q + r,
            ;
            lemma_fundamental_div_mod_converse(n, stride, q, r + 1);
        }
    } else {
        lemma_fundamental_div_mod_converse(0, stride, 0, 0);
    }
}

/// A field has `width * height + height` slots, and as many row ends as
/// the image has rows.
pub proof fn field_has_a_row_end_per_row(
    pixels: Seq<Pixel>,
    levels: Seq<usize>,
    width: int,
    height: int,
    colored: bool,
)
    requires
        width >= 0,
        height >= 0,
    ensures
        layout(pixels, levels, width, height, colored).len() == width * height + height,
        row_ends(
            layout(pixels, levels, width, height, colored),
            width * height + height,
        ) == height,
{
    assert(width * height >= 0) by (nonlinear_arith)
        requires
            width >= 0,
            height >= 0,
    ;
    lemma_row_ends_prefix(pixels, levels, width, height, colored, width * height + height);
    assert(width * height + height == height * (width + 1) + 0) by (nonlinear_arith);
    lemma_fundamental_div_mod_converse(width * height + height, width + 1, height, 0);
}

/// Where every level is the same and above 0, the range is flat: both
/// ends are that level.
pub proof fn uniform_levels_have_flat_range(s: Seq<usize>)
    requires
        s.len() > 0,
        forall|i: int| 0 <= i < s.len() ==> #[trigger] s[i] == s[0],
        s[0] > 0,
    ensures
        lowest(s) == s[0],
        ceiling(s) == s[0],
{
    lemma_lowest(s);
    lemma_highest(s);
    let a = choose|i: int| 0 <= i < s.len() && s[i] == lowest(s);
    let b = choose|i: int| 0 <= i < s.len() && s[i] == highest(s);
    assert(s[a] == s[0]);
    assert(s[b] == s[0]);
}

/// An image of one colour whose level is above 0 has a flat range.
pub proof fn uniform_image_has_flat_range(pixels: Seq<Pixel>, encoder: Encoder, weights: Weights)
    requires
        pixels.len() > 0,
        forall|p: int| 0 <= p < pixels.len() ==> #[trigger] pixels[p] == pixels[0],
        weighted_level(encoder, weights, pixels[0]) as usize > 0,
    ensures
        lowest(levels_of(pixels, encoder, weights)) == ceiling(
            levels_of(pixels, encoder, weights),
        ),
{
    uniform_levels_have_flat_range(levels_of(pixels, encoder, weights));
}

/// Builds the level field of an image, dithering the levels to `symbols`
/// values on the way where that is asked for and the range is not flat.
/// The range is that of the levels before dithering.
pub fn build_with(
    img: &RasterImage,
    encoder: Encoder,
    weights: Weights,
    colored: bool,
    dither: bool,
    symbols: usize,
) -> (field: LevelField)
    requires
        img.wf(),
        weights.wf(),
    ensures
        field.slots@ == layout(
            img.pixels@,
            final_levels(
                levels_of(img.pixels@, encoder, weights),
                img.width as int,
                img.height as int,
                field.min as int,
                field.max as int,
                symbols as int,
                dither,
            ),
            img.width as int,
            img.height as int,
            colored,
        ),
        field.slots@.len() == img.width * img.height + img.height,
        row_ends(field.slots@, field.slots@.len() as int) == img.height,
        field.width == img.width,
        field.height == img.height,
        field.colored == colored,
        field.min == lowest(levels_of(img.pixels@, encoder, weights)),
        field.max == ceiling(levels_of(img.pixels@, encoder, weights)),
        field.min <= field.max,
        field.wf(),
{
    let levels = raw_levels(img, encoder, weights);
    let (min, max) = extent(&levels);
    proof {
        lemma_highest(levels@);
        assert(max <= 255) by {
            if highest(levels@) != 0 {
                let k = choose|i: int| 0 <= i < levels@.len() && levels@[i] == highest(levels@);
                assert(levels@[k] <= 255);
            }
        }
    }
    let ghost before = levels@;
    let finished = dither_levels(levels, img.width, img.height, min, max, symbols, dither);
    proof {
        assert(finished@.len() == before.len()) by {
            if crate::dither::applies(dither, symbols as int, min as int, max as int) {
                lemma_dithered_len(
                    crate::dither::scaled(before),
                    before.len() as int,
                    img.width as int,
                    img.height as int,
                    min * crate::dither::UNIT,
                    (max - min) * crate::dither::UNIT,
                    symbols - 1,
                );
            }
        }
        field_has_a_row_end_per_row(
            img.pixels@,
            finished@,
            img.width as int,
            img.height as int,
            colored,
        );
    }
    assemble(img, &finished, min, max, colored)
}

/// Builds the level field of an image, rows from top to bottom and each
/// row from left to right, without dithering.
pub fn build(img: &RasterImage, encoder: Encoder, weights: Weights, colored: bool) -> (field:
    LevelField)
    requires
        img.wf(),
        weights.wf(),
    ensures
        field.slots@ == layout(
            img.pixels@,
            levels_of(img.pixels@, encoder, weights),
            img.width as int,
            img.height as int,
            colored,
        ),
        field.slots@.len() == img.width * img.height + img.height,
        row_ends(field.slots@, field.slots@.len() as int) == img.height,
        field.width == img.width,
        field.height == img.height,
        field.colored == colored,
        field.min == lowest(levels_of(img.pixels@, encoder, weights)),
        field.max == ceiling(levels_of(img.pixels@, encoder, weights)),
        field.min <= field.max,
        field.wf(),
{
    build_with(img, encoder, weights, colored, false, 0)
}

} // verus!
