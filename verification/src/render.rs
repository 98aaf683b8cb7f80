//! The three renderers. Each reads a finished level field and writes text:
//! glyphs picked by level, glyphs taken in reading order, or half blocks
//! that carry two image rows in one line.

use vstd::prelude::*;
use vstd::arithmetic::div_mod::{
    lemma_div_decreases,
    lemma_fundamental_div_mod,
    lemma_fundamental_div_mod_converse,
    lemma_small_mod,
};
use crate::ansi::{
    background,
    escapes_hold_no_line_break,
    foreground,
    push_background,
    push_foreground,
    push_reset,
    reset,
};
use crate::field::{LevelField, Slot};
use crate::raster::{lemma_index_in_bounds, Rgb};
use crate::text::{
    chars_of,
    lemma_occurrences_absent,
    lemma_occurrences_concat,
    lemma_occurrences_single,
    occurrences,
    string_of,
};

verus! {

/// The glyph of the half-block renderer: the upper half of a cell.
pub const HALF_BLOCK: char = '\u{2580}';

/// What precedes a glyph: the escape sequence for its colour, if it has
/// one.
pub open spec fn paint(color: Option<Rgb>) -> Seq<char> {
    match color {
        Some(c) => foreground(c),
        None => Seq::empty(),
    }
}

/// What closes a coloured run, and nothing where colour is off.
pub open spec fn closing(colored: bool) -> Seq<char> {
    if colored {
        reset()
    } else {
        Seq::empty()
    }
}

/// The end of a line: a reset where colour is on, then a line break.
pub open spec fn line_end(colored: bool) -> Seq<char> {
    closing(colored) + seq!['\n']
}

/// How many levels share one glyph of a ramp of `count` glyphs.
pub open spec fn bucket_size(min: int, max: int, count: int) -> int {
    if max > min {
        (max - min) / count + 1
    } else {
        1
    }
}

/// The position in a ramp of `count` glyphs that a level maps to.
pub open spec fn ramp_index(level: int, min: int, max: int, count: int) -> int {
    let adjusted = if level < min {
        0
    } else {
        level - min
    };
    let index = adjusted / bucket_size(min, max, count);
    if index < count - 1 {
        index
    } else {
        count - 1
    }
}

/// What the ramp renderer writes for one slot.
pub open spec fn ramp_piece(
    slot: Slot,
    min: int,
    max: int,
    glyphs: Seq<char>,
    colored: bool,
) -> Seq<char> {
    match slot {
        Slot::Pixel { level, color } => paint(color) + seq![
            glyphs[ramp_index(level as int, min, max, glyphs.len() as int)],
        ],
        Slot::RowEnd => line_end(colored),
    }
}

/// What the ramp renderer writes for the first `n` slots.
pub open spec fn ramp_body(
    slots: Seq<Slot>,
    n: int,
    min: int,
    max: int,
    glyphs: Seq<char>,
    colored: bool,
) -> Seq<char>
    decreases n,
{
    if n <= 0 {
        Seq::empty()
    } else {
        ramp_body(slots, n - 1, min, max, glyphs, colored) + ramp_piece(
            slots[n - 1],
            min,
            max,
            glyphs,
            colored,
        )
    }
}

/// The whole output of the ramp renderer: every slot's piece, and a final
/// reset where colour is on.
pub open spec fn ramp_text(
    slots: Seq<Slot>,
    min: int,
    max: int,
    glyphs: Seq<char>,
    colored: bool,
) -> Seq<char> {
    ramp_body(slots, slots.len() as int, min, max, glyphs, colored) + closing(colored)
}

fn push_paint(out: &mut Vec<char>, color: Option<Rgb>)
    ensures
        final(out)@ == old(out)@ + paint(color),
{
    match color {
        Some(c) => push_foreground(out, c),
        None => {
            assert(out@ =~= old(out)@ + paint(color));
        },
    }
}

fn push_closing(out: &mut Vec<char>, colored: bool)
    ensures
        final(out)@ == old(out)@ + closing(colored),
{
    if colored {
        push_reset(out);
    } else {
        assert(out@ =~= old(out)@ + closing(colored));
    }
}

fn push_line_end(out: &mut Vec<char>, colored: bool)
    ensures
        final(out)@ == old(out)@ + line_end(colored),
{
    push_closing(out, colored);
    out.push('\n');
    assert(out@ =~= old(out)@ + line_end(colored));
}

/// Renders each pixel as the glyph of the ramp that its level falls on,
/// the ramp running from the darkest glyph to the brightest.
pub fn render_by_level(field: &LevelField, glyphs: &str) -> (text: String)
    requires
        glyphs@.len() >= 2,
    ensures
        text@ == ramp_text(
            field.slots@,
            field.min as int,
            field.max as int,
            glyphs@,
            field.colored,
        ),
{
    let ramp = chars_of(glyphs);
    let count: usize = ramp.len();
    let min: usize = field.min;
    let max: usize = field.max;
    let bucket: usize = if max > min {
        proof {
            lemma_div_decreases(max - min, count as int);
        }
        (max - min) / count + 1
    } else {
        1
    };
    let mut out: Vec<char> = Vec::new();
    let mut i: usize = 0;
    while i < field.slots.len()
        invariant
            i <= field.slots@.len(),
            ramp@ == glyphs@,
            count == ramp@.len(),
            count >= 2,
            min == field.min,
            max == field.max,
            bucket == bucket_size(min as int, max as int, count as int),
            bucket >= 1,
            out@ == ramp_body(
                field.slots@,
                i as int,
                min as int,
                max as int,
                glyphs@,
                field.colored,
            ),
        decreases field.slots@.len() - i,
    {
        let ghost before = out@;
        match field.slots[i] {
            Slot::Pixel { level, color } => {
                push_paint(&mut out, color);
                let adjusted: usize = if level < min {
                    0
                } else {
                    level - min
                };
                let mut index: usize = adjusted / bucket;
                if index >= count - 1 {
                    index = count - 1;
                }
                out.push(ramp[index]);
            },
            Slot::RowEnd => {
                push_line_end(&mut out, field.colored);
            },
        }
        assert(out@ =~= before + ramp_piece(
            field.slots@[i as int],
            min as int,
            max as int,
            glyphs@,
            field.colored,
        ));
        i += 1;
    }
    push_closing(&mut out, field.colored);
    string_of(&out)
}

/// Whether a slot is a pixel with a level above the threshold.
pub open spec fn is_bright(slot: Slot, threshold: int) -> bool {
    match slot {
        Slot::Pixel { level, color } => level > threshold,
        Slot::RowEnd => false,
    }
}

/// How many of the first `n` slots are bright.
pub open spec fn bright_before(slots: Seq<Slot>, n: int, threshold: int) -> int
    decreases n,
{
    if n <= 0 {
        0
    } else {
        bright_before(slots, n - 1, threshold) + if is_bright(slots[n - 1], threshold) {
            1int
        } else {
            0int
        }
    }
}

/// What the in-order renderer writes for slot `i`: a bright pixel takes the
/// next glyph, the glyphs going round; any other pixel is a space, and
/// does not use a glyph up.
pub open spec fn in_order_piece(
    slots: Seq<Slot>,
    i: int,
    glyphs: Seq<char>,
    threshold: int,
    colored: bool,
) -> Seq<char> {
    match slots[i] {
        Slot::Pixel { level, color } => if level > threshold {
            paint(color) + seq![
                glyphs[bright_before(slots, i, threshold) % (glyphs.len() as int)],
            ]
        } else {
            seq![' ']
        },
        Slot::RowEnd => line_end(colored),
    }
}

/// The whole output of the in-order renderer for the first `n` slots.
pub open spec fn in_order_text(
    slots: Seq<Slot>,
    n: int,
    glyphs: Seq<char>,
    threshold: int,
    colored: bool,
) -> Seq<char>
    decreases n,
{
    if n <= 0 {
        Seq::empty()
    } else {
        in_order_text(slots, n - 1, glyphs, threshold, colored) + in_order_piece(
            slots,
            n - 1,
            glyphs,
            threshold,
            colored,
        )
    }
}

proof fn lemma_next_mod(b: int, g: int)
    requires
        b >= 0,
        g >= 1,
    ensures
        (b + 1) % g == (if b % g + 1 == g {
            0
        } else {
            b % g + 1
        }),
{
    lemma_fundamental_div_mod(b, g);
    let q = b / g;
    let r = b % g;
    if r + 1 == g {
        assert(b + 1 == (q + 1) * g + 0) by (nonlinear_arith)
            requires
                b == g * q + r,
                r + 1 == g,
        ;
        lemma_fundamental_div_mod_converse(b + 1, g, q + 1, 0);
    } else {
        assert(b + 1 == q * g + (r + 1)) by (nonlinear_arith)
            requires
                b == g * q + r,
        ;
        lemma_fundamental_div_mod_converse(b + 1, g, q, r + 1);
    }
}

/// Renders the pixels in reading order: each pixel brighter than the
/// threshold takes the next glyph, starting over after the last one; every
/// other pixel is a space.
pub fn render_in_order(field: &LevelField, glyphs: &str, threshold: usize) -> (text: String)
    requires
        glyphs@.len() >= 2,
    ensures
        text@ == in_order_text(
            field.slots@,
            field.slots@.len() as int,
            glyphs@,
            threshold as int,
            field.colored,
        ),
{
    let ramp = chars_of(glyphs);
    let count: usize = ramp.len();
    let mut cursor: usize = 0;
    let mut out: Vec<char> = Vec::new();
    let mut i: usize = 0;
    proof {
        lemma_small_mod(0, count as nat);
    }
    while i < field.slots.len()
        invariant
            i <= field.slots@.len(),
            ramp@ == glyphs@,
            count == ramp@.len(),
            count >= 2,
            cursor <= count,
            bright_before(field.slots@, i as int, threshold as int) % (count as int) == (if cursor
                == count {
                0
            } else {
                cursor as int
            }),
            bright_before(field.slots@, i as int, threshold as int) >= 0,
            out@ == in_order_text(
                field.slots@,
                i as int,
                glyphs@,
                threshold as int,
                field.colored,
            ),
        decreases field.slots@.len() - i,
    {
        let ghost before = out@;
        let ghost seen = bright_before(field.slots@, i as int, threshold as int);
        match field.slots[i] {
            Slot::Pixel { level, color } => {
                if cursor >= count {
                    cursor = 0;
                }
                if level > threshold {
                    push_paint(&mut out, color);
                    out.push(ramp[cursor]);
                    cursor += 1;
                    proof {
                        lemma_next_mod(seen, count as int);
                    }
                } else {
                    out.push(' ');
                }
            },
            Slot::RowEnd => {
                push_line_end(&mut out, field.colored);
            },
        }
        assert(out@ =~= before + in_order_piece(
            field.slots@,
            i as int,
            glyphs@,
            threshold as int,
            field.colored,
        ));
        i += 1;
    }
    string_of(&out)
}

/// The colour kept in slot `i`, and black where the slot keeps none.
pub open spec fn stored_color(slots: Seq<Slot>, i: int) -> Rgb {
    match slots[i] {
        Slot::Pixel { level, color } => match color {
            Some(c) => c,
            None => Rgb { r: 0, g: 0, b: 0 },
        },
        Slot::RowEnd => Rgb { r: 0, g: 0, b: 0 },
    }
}

/// The cell for column `x` of the rows `y` and `y + 1`: the upper row gives
/// the foreground, the lower row the background; where the image ends
/// with row `y`, that row gives both.
pub open spec fn block_cell(
    slots: Seq<Slot>,
    width: int,
    height: int,
    colored: bool,
    x: int,
    y: int,
) -> Seq<char> {
    let top = stored_color(slots, y * (width + 1) + x);
    let bottom = if y + 1 < height {
        stored_color(slots, (y + 1) * (width + 1) + x)
    } else {
        top
    };
    (if colored {
        foreground(top) + background(bottom)
    } else {
        Seq::empty()
    }) + seq![HALF_BLOCK]
}

/// The first `n` cells of the line for the rows `y` and `y + 1`.
pub open spec fn block_cells(
    slots: Seq<Slot>,
    width: int,
    height: int,
    colored: bool,
    y: int,
    n: int,
) -> Seq<char>
    decreases n,
{
    if n <= 0 {
        Seq::empty()
    } else {
        block_cells(slots, width, height, colored, y, n - 1) + block_cell(
            slots,
            width,
            height,
            colored,
            n - 1,
            y,
        )
    }
}

/// The first `lines` lines of the half-block output; line `k` holds the
/// rows `2k` and `2k + 1`.
pub open spec fn block_lines(
    slots: Seq<Slot>,
    width: int,
    height: int,
    colored: bool,
    lines: int,
) -> Seq<char>
    decreases lines,
{
    if lines <= 0 {
        Seq::empty()
    } else {
        block_lines(slots, width, height, colored, lines - 1) + block_cells(
            slots,
            width,
            height,
            colored,
            2 * (lines - 1),
            width,
        ) + line_end(colored)
    }
}

/// The whole half-block output: one line for every two rows, and one more
/// for a last row without a partner.
pub open spec fn block_text(slots: Seq<Slot>, width: int, height: int, colored: bool) -> Seq<
    char,
> {
    block_lines(slots, width, height, colored, (height + 1) / 2)
}

/// A row of `n` half blocks without any colour.
pub open spec fn bare_cells(n: int) -> Seq<char> {
    Seq::new(n as nat, |i: int| HALF_BLOCK)
}

/// `lines` lines of `width` bare half blocks, each closed by a line break.
pub open spec fn bare_lines(width: int, lines: int) -> Seq<char>
    decreases lines,
{
    if lines <= 0 {
        Seq::empty()
    } else {
        bare_lines(width, lines - 1) + bare_cells(width) + seq!['\n']
    }
}

proof fn lemma_bare_cells(slots: Seq<Slot>, width: int, height: int, y: int, n: int)
    requires
        n >= 0,
    ensures
        block_cells(slots, width, height, false, y, n) == bare_cells(n),
    decreases n,
{
    if n > 0 {
        lemma_bare_cells(slots, width, height, y, n - 1);
        assert(block_cell(slots, width, height, false, n - 1, y) =~= seq![HALF_BLOCK]);
        assert(bare_cells(n - 1) + seq![HALF_BLOCK] =~= bare_cells(n));
    } else {
        assert(block_cells(slots, width, height, false, y, n) =~= bare_cells(n));
    }
}

/// Without colour the half-block text holds no escape sequence: every
/// cell is the bare glyph, and every line is closed by a line break alone.
pub proof fn uncolored_blocks_are_bare(slots: Seq<Slot>, width: int, height: int, lines: int)
    requires
        width >= 0,
    ensures
        block_lines(slots, width, height, false, lines) == bare_lines(width, lines),
        lines == (height + 1) / 2 ==> block_text(slots, width, height, false) == bare_lines(
            width,
            lines,
        ),
    decreases lines,
{
    if lines > 0 {
        uncolored_blocks_are_bare(slots, width, height, lines - 1);
        lemma_bare_cells(slots, width, height, 2 * (lines - 1), width);
        assert(line_end(false) =~= seq!['\n']);
    }
}

proof fn lemma_bare_lines_counts(width: int, lines: int)
    requires
        width >= 0,
        lines >= 0,
    ensures
        occurrences(bare_lines(width, lines), '\x1b') == 0,
        occurrences(bare_lines(width, lines), '\n') == lines,
        occurrences(bare_lines(width, lines), HALF_BLOCK) == width * lines,
    decreases lines,
{
    if lines > 0 {
        let before = bare_lines(width, lines - 1);
        let row = bare_cells(width);
        let end = seq!['\n'];
        lemma_bare_lines_counts(width, lines - 1);
        lemma_occurrences_absent(row, '\x1b');
        lemma_occurrences_absent(row, '\n');
        lemma_occurrences_absent(end, '\x1b');
        lemma_occurrences_absent(end, HALF_BLOCK);
        lemma_cells_count(width);
        lemma_occurrences_single('\n', '\n');
        lemma_occurrences_concat(before, row, '\x1b');
        lemma_occurrences_concat(before + row, end, '\x1b');
        lemma_occurrences_concat(before, row, '\n');
        lemma_occurrences_concat(before + row, end, '\n');
        lemma_occurrences_concat(before, row, HALF_BLOCK);
        lemma_occurrences_concat(before + row, end, HALF_BLOCK);
        assert(width * (lines - 1) + width == width * lines) by (nonlinear_arith);
    } else {
        assert(width * lines == 0) by (nonlinear_arith)
            requires
                lines == 0,
        ;
    }
}

proof fn lemma_cells_count(n: int)
    requires
        n >= 0,
    ensures
        occurrences(bare_cells(n), HALF_BLOCK) == n,
    decreases n,
{
    if n > 0 {
        lemma_cells_count(n - 1);
        assert(bare_cells(n).drop_last() =~= bare_cells(n - 1));
    }
}

/// Without colour the half-block text of an image holds no escape
/// character, one line break for every two rows (and one for a last row
/// alone), and one half block for every cell of every line.
pub proof fn uncolored_blocks_count(slots: Seq<Slot>, width: int, height: int)
    requires
        width >= 0,
        height >= 0,
    ensures
        occurrences(block_text(slots, width, height, false), '\x1b') == 0,
        occurrences(block_text(slots, width, height, false), '\n') == (height + 1) / 2,
        occurrences(block_text(slots, width, height, false), HALF_BLOCK) == width * ((height + 1)
            / 2),
{
    uncolored_blocks_are_bare(slots, width, height, (height + 1) / 2);
    lemma_bare_lines_counts(width, (height + 1) / 2);
}

proof fn lemma_cells_hold_no_line_break(
    slots: Seq<Slot>,
    width: int,
    height: int,
    colored: bool,
    y: int,
    n: int,
)
    ensures
        occurrences(block_cells(slots, width, height, colored, y, n), '\n') == 0,
    decreases n,
{
    if n > 0 {
        lemma_cells_hold_no_line_break(slots, width, height, colored, y, n - 1);
        let top = stored_color(slots, y * (width + 1) + (n - 1));
        let bottom = if y + 1 < height {
            stored_color(slots, (y + 1) * (width + 1) + (n - 1))
        } else {
            top
        };
        let paint = if colored {
            foreground(top) + background(bottom)
        } else {
            Seq::<char>::empty()
        };
        escapes_hold_no_line_break(top);
        escapes_hold_no_line_break(bottom);
        lemma_occurrences_concat(foreground(top), background(bottom), '\n');
        lemma_occurrences_absent(seq![HALF_BLOCK], '\n');
        lemma_occurrences_concat(paint, seq![HALF_BLOCK], '\n');
        lemma_occurrences_concat(
            block_cells(slots, width, height, colored, y, n - 1),
            block_cell(slots, width, height, colored, n - 1, y),
            '\n',
        );
    }
}

proof fn lemma_lines_count(slots: Seq<Slot>, width: int, height: int, colored: bool, lines: int)
    requires
        lines >= 0,
    ensures
        occurrences(block_lines(slots, width, height, colored, lines), '\n') == lines,
    decreases lines,
{
    if lines > 0 {
        let before = block_lines(slots, width, height, colored, lines - 1);
        let row = block_cells(slots, width, height, colored, 2 * (lines - 1), width);
        lemma_lines_count(slots, width, height, colored, lines - 1);
        lemma_cells_hold_no_line_break(slots, width, height, colored, 2 * (lines - 1), width);
        escapes_hold_no_line_break(Rgb { r: 0, g: 0, b: 0 });
        let end = seq!['\n'];
        lemma_occurrences_single('\n', '\n');
        lemma_occurrences_concat(closing(colored), end, '\n');
        lemma_occurrences_concat(before, row, '\n');
        lemma_occurrences_concat(before + row, line_end(colored), '\n');
    }
}

/// With or without colour, the half-block text of an image has one line
/// for every two rows, and one more for a last row alone.
pub proof fn blocks_have_a_line_for_two_rows(
    slots: Seq<Slot>,
    width: int,
    height: int,
    colored: bool,
)
    requires
        height >= 0,
    ensures
        occurrences(block_text(slots, width, height, colored), '\n') == (height + 1) / 2,
{
    lemma_lines_count(slots, width, height, colored, (height + 1) / 2);
}

fn color_in(field: &LevelField, i: usize) -> (c: Rgb)
    requires
        i < field.slots@.len(),
    ensures
        c == stored_color(field.slots@, i as int),
{
    match field.slots[i] {
        Slot::Pixel { level, color } => match color {
            Some(c) => c,
            None => Rgb { r: 0, g: 0, b: 0 },
        },
        Slot::RowEnd => Rgb { r: 0, g: 0, b: 0 },
    }
}

/// Renders two image rows per line of text: each cell is a half block
/// whose foreground is the pixel of the upper row and whose background is
/// the pixel below it.
pub fn render_blocks(field: &LevelField) -> (text: String)
    requires
        field.sized(),
    ensures
        text@ == block_text(
            field.slots@,
            field.width as int,
            field.height as int,
            field.colored,
        ),
        occurrences(text@, '\n') == (field.height + 1) / 2,
        !field.colored ==> occurrences(text@, '\x1b') == 0,
        !field.colored ==> occurrences(text@, HALF_BLOCK) == field.width * ((field.height + 1)
            / 2),
{
    let width: usize = field.width;
    let height: usize = field.height;
    let total: usize = field.slots.len();
    let lines: usize = height / 2 + height % 2;
    let mut out: Vec<char> = Vec::new();
    proof {
        blocks_have_a_line_for_two_rows(
            field.slots@,
            width as int,
            height as int,
            field.colored,
        );
        uncolored_blocks_count(field.slots@, width as int, height as int);
    }
    if height == 0 {
        return string_of(&out);
    }
    proof {
        lemma_index_in_bounds(0, 0, width + 1, height as int);
        assert((width + 1) * height == width * height + height) by (nonlinear_arith);
    }
    let stride: usize = width + 1;
    let mut k: usize = 0;
    while k < lines
        invariant
            k <= lines,
            stride == width + 1,
            stride * height == total,
            total == field.slots@.len(),
            lines == (height + 1) / 2,
            width == field.width,
            height == field.height,
            field.sized(),
            out@ == block_lines(field.slots@, width as int, height as int, field.colored, k as int),
        decreases lines - k,
    {
        let ghost done = out@;
        let y: usize = 2 * k;
        let mut x: usize = 0;
        while x < width
            invariant
                x <= width,
                y == 2 * k,
                y < height,
                stride == width + 1,
                stride * height == total,
                total == field.slots@.len(),
                width == field.width,
                height == field.height,
                field.sized(),
                out@ == done + block_cells(
                    field.slots@,
                    width as int,
                    height as int,
                    field.colored,
                    y as int,
                    x as int,
                ),
            decreases width - x,
        {
            let ghost before = out@;
            proof {
                lemma_index_in_bounds(x as int, y as int, stride as int, height as int);
            }
            let top = color_in(field, y * stride + x);
            let bottom = if y + 1 < height {
                proof {
                    lemma_index_in_bounds(x as int, y + 1, stride as int, height as int);
                }
                color_in(field, (y + 1) * stride + x)
            } else {
                top
            };
            if field.colored {
                push_foreground(&mut out, top);
                push_background(&mut out, bottom);
            }
            out.push(HALF_BLOCK);
            assert(out@ =~= before + block_cell(
                field.slots@,
                width as int,
                height as int,
                field.colored,
                x as int,
                y as int,
            ));
            x += 1;
            assert(out@ =~= done + block_cells(
                field.slots@,
                width as int,
                height as int,
                field.colored,
                y as int,
                x as int,
            ));
        }
        push_line_end(&mut out, field.colored);
        k += 1;
    }
    string_of(&out)
}

} // verus!
