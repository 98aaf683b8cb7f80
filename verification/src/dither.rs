//! Floyd-Steinberg error diffusion over the raw levels of an image.
//!
//! Raw levels are fixed-point numbers: an `i64` value `n` stands for
//! `n / UNIT`. Each pixel in turn, in row-major order, is moved to the
//! nearest of a number of evenly spaced values, and what it lost or gained
//! is handed on to the pixels to its right and below.

use vstd::prelude::*;
use vstd::arithmetic::div_mod::{lemma_fundamental_div_mod, lemma_fundamental_div_mod_converse};
use crate::raster::lemma_index_in_bounds;

verus! {

/// Fixed-point units per whole level.
pub const UNIT: i64 = 65536;

/// `n / d` rounded to the nearest whole number, a half going up; for
/// `n >= 0` and `d > 0`.
pub open spec fn nearest(n: int, d: int) -> int {
    (2 * n + d) / (2 * d)
}

/// Where a value that lies `t` above the lower end of the range is moved
/// to, again counted from the lower end: the nearest multiple of
/// `range / steps`. The multiple is found by rounding `t * steps / range`,
/// a half going away from zero; it is not held inside the range.
pub open spec fn snap_offset(t: int, range: int, steps: int) -> int {
    let a = if t < 0 {
        -t
    } else {
        t
    };
    let m = nearest(nearest(a * steps, range) * range, steps);
    if t < 0 {
        -m
    } else {
        m
    }
}

/// The `q`-th of the evenly spaced values, counted from the lower end of
/// the range: `q * range / steps`, rounded to the nearest fixed-point value.
pub open spec fn grid(q: int, range: int, steps: int) -> int {
    nearest(q * range, steps)
}

/// A value inside the range is snapped to one of the `steps + 1` evenly
/// spaced values, of which the first is the lower end of the range and the
/// last its upper end. (A value that errors have pushed out of the range
/// is snapped to the same spacing continued beyond the ends.)
pub proof fn snap_lands_on_the_grid(t: int, range: int, steps: int)
    requires
        0 <= t <= range,
        range >= 1,
        steps >= 1,
    ensures
        0 <= nearest(t * steps, range) <= steps,
        snap_offset(t, range, steps) == grid(nearest(t * steps, range), range, steps),
        grid(0, range, steps) == 0,
        grid(steps, range, steps) == range,
{
    let p = t * steps;
    let q = nearest(p, range);
    lemma_fundamental_div_mod(2 * p + range, 2 * range);
    let r = (2 * p + range) % (2 * range);
    assert(0 <= q <= steps) by (nonlinear_arith)
        requires
            2 * p + range == (2 * range) * q + r,
            0 <= r < 2 * range,
            p == t * steps,
            0 <= t <= range,
            range >= 1,
            steps >= 1,
    ;
    assert(0 * range == 0);
    lemma_fundamental_div_mod_converse(2 * 0 + steps, 2 * steps, 0, steps);
    assert(2 * (steps * range) + steps == range * (2 * steps) + steps) by (nonlinear_arith);
    lemma_fundamental_div_mod_converse(2 * (steps * range) + steps, 2 * steps, range, steps);
}

/// `k` sixteenths of an error, cut off toward zero.
pub open spec fn share(e: int, k: int) -> int {
    if e < 0 {
        -(((-e) * k) / 16)
    } else {
        (e * k) / 16
    }
}

/// The levels after the pixel at position `i`, in column `x` of row `y`,
/// has been set to `moved` and has handed `right` to its right, and
/// `below_left`, `below` and `below_right` to the row below, each to a
/// neighbour that exists.
pub open spec fn spread(
    s: Seq<int>,
    i: int,
    x: int,
    y: int,
    width: int,
    height: int,
    moved: int,
    right: int,
    below_left: int,
    below: int,
    below_right: int,
) -> Seq<int> {
    Seq::new(
        s.len(),
        |j: int|
            if j == i {
                moved
            } else if j == i + 1 && x + 1 < width {
                s[j] + right
            } else if j == i + width - 1 && y + 1 < height && x > 0 {
                s[j] + below_left
            } else if j == i + width && y + 1 < height {
                s[j] + below
            } else if j == i + width + 1 && y + 1 < height && x + 1 < width {
                s[j] + below_right
            } else {
                s[j]
            },
    )
}

/// The levels after pixel `i` has been visited: the pixel itself is
/// snapped, and its error goes to the neighbours that exist, 7/16 to the
/// right, 3/16 below to the left, 5/16 below and 1/16 below to the right.
pub open spec fn diffuse(
    s: Seq<int>,
    i: int,
    width: int,
    height: int,
    lo: int,
    range: int,
    steps: int,
) -> Seq<int> {
    let moved = lo + snap_offset(s[i] - lo, range, steps);
    let e = s[i] - moved;
    spread(
        s,
        i,
        i % width,
        i / width,
        width,
        height,
        moved,
        share(e, 7),
        share(e, 3),
        share(e, 5),
        share(e, 1),
    )
}

/// The levels after the first `n` pixels have been visited in row-major
/// order.
pub open spec fn dithered(
    s: Seq<int>,
    n: int,
    width: int,
    height: int,
    lo: int,
    range: int,
    steps: int,
) -> Seq<int>
    decreases n,
{
    if n <= 0 {
        s
    } else {
        diffuse(
            dithered(s, n - 1, width, height, lo, range, steps),
            n - 1,
            width,
            height,
            lo,
            range,
            steps,
        )
    }
}

/// Dithering keeps the number of values.
pub proof fn lemma_dithered_len(
    s: Seq<int>,
    n: int,
    width: int,
    height: int,
    lo: int,
    range: int,
    steps: int,
)
    ensures
        dithered(s, n, width, height, lo, range, steps).len() == s.len(),
    decreases n,
{
    if n > 0 {
        lemma_dithered_len(s, n - 1, width, height, lo, range, steps);
    }
}

/// Errors only move forward: once a pixel has been visited, visiting
/// later pixels leaves it as it is.
pub proof fn visited_pixels_stay(
    s: Seq<int>,
    j: int,
    n: int,
    m: int,
    width: int,
    height: int,
    lo: int,
    range: int,
    steps: int,
)
    requires
        width >= 1,
        0 <= j < n <= m <= s.len(),
    ensures
        dithered(s, m, width, height, lo, range, steps)[j] == dithered(
            s,
            n,
            width,
            height,
            lo,
            range,
            steps,
        )[j],
    decreases m,
{
    if m > n {
        visited_pixels_stay(s, j, n, m - 1, width, height, lo, range, steps);
        lemma_dithered_len(s, m - 1, width, height, lo, range, steps);
    }
}

/// A visited pixel holds the value that it was snapped to when its turn
/// came.
pub proof fn visited_pixels_are_snapped(
    s: Seq<int>,
    j: int,
    m: int,
    width: int,
    height: int,
    lo: int,
    range: int,
    steps: int,
)
    requires
        width >= 1,
        0 <= j < m <= s.len(),
    ensures
        dithered(s, m, width, height, lo, range, steps)[j] == lo + snap_offset(
            dithered(s, j, width, height, lo, range, steps)[j] - lo,
            range,
            steps,
        ),
{
    visited_pixels_stay(s, j, j + 1, m, width, height, lo, range, steps);
    lemma_dithered_len(s, j, width, height, lo, range, steps);
}

/// A visited pixel whose value lay inside the range when its turn came
/// holds one of the `steps + 1` evenly spaced values.
pub proof fn visited_pixels_are_on_the_grid(
    s: Seq<int>,
    j: int,
    m: int,
    width: int,
    height: int,
    lo: int,
    range: int,
    steps: int,
)
    requires
        width >= 1,
        range >= 1,
        steps >= 1,
        0 <= j < m <= s.len(),
        lo <= dithered(s, j, width, height, lo, range, steps)[j] <= lo + range,
    ensures
        exists|q: int|
            0 <= q <= steps && dithered(s, m, width, height, lo, range, steps)[j] == lo
                + #[trigger] grid(q, range, steps),
{
    let t = dithered(s, j, width, height, lo, range, steps)[j] - lo;
    visited_pixels_are_snapped(s, j, m, width, height, lo, range, steps);
    snap_lands_on_the_grid(t, range, steps);
    let q = nearest(t * steps, range);
    assert(dithered(s, m, width, height, lo, range, steps)[j] == lo + grid(q, range, steps));
}

/// The fixed-point values as integers.
pub open spec fn ints(s: Seq<i64>) -> Seq<int> {
    Seq::new(s.len(), |j: int| s[j] as int)
}

/// How far the value of pixel `j` can be from where it started once the
/// pixels before `i` have been visited: `range` for each of the four
/// pixels that hand an error to `j` and come before `i`.
pub open spec fn slack(i: int, j: int, width: int, range: int) -> int {
    (if j - 1 < i {
        range
    } else {
        0
    }) + (if j - width + 1 < i {
        range
    } else {
        0
    }) + (if j - width < i {
        range
    } else {
        0
    }) + (if j - width - 1 < i {
        range
    } else {
        0
    })
}

/// Snapping moves a value by no more than the range.
pub proof fn lemma_nearest_twice(a: int, range: int, steps: int)
    requires
        a >= 0,
        range >= 1,
        steps >= 1,
    ensures
        nearest(a * steps, range) >= 0,
        nearest(a * steps, range) * range <= a * steps + range,
        nearest(nearest(a * steps, range) * range, steps) >= 0,
        a - range <= nearest(nearest(a * steps, range) * range, steps) <= a + range,
{
    let p = a * steps;
    assert(p >= 0) by (nonlinear_arith)
        requires
            p == a * steps,
            a >= 0,
            steps >= 1,
    ;
    let q = nearest(p, range);
    lemma_fundamental_div_mod(2 * p + range, 2 * range);
    let r1 = (2 * p + range) % (2 * range);
    assert(2 * p + range == (2 * range) * q + r1);
    assert(q >= 0 && q * range <= p + range && 2 * (q * range) <= 2 * p + range && 2 * (q * range)
        > 2 * p - range) by (nonlinear_arith)
        requires
            2 * p + range == (2 * range) * q + r1,
            0 <= r1 < 2 * range,
            p >= 0,
            range >= 1,
    ;
    let u = q * range;
    assert(u >= 0) by (nonlinear_arith)
        requires
            u == q * range,
            q >= 0,
            range >= 1,
    ;
    let m = nearest(u, steps);
    lemma_fundamental_div_mod(2 * u + steps, 2 * steps);
    let r2 = (2 * u + steps) % (2 * steps);
    assert(2 * u + steps == (2 * steps) * m + r2);
    assert(m >= 0 && m - a <= range && a - m <= range) by (nonlinear_arith)
        requires
            2 * u + steps == (2 * steps) * m + r2,
            0 <= r2 < 2 * steps,
            u >= 0,
            2 * u <= 2 * p + range,
            2 * u > 2 * p - range,
            p == a * steps,
            a >= 0,
            steps >= 1,
            range >= 1,
    ;
}

/// Snaps an offset from the lower end of the range.
fn snap(t: i64, range: i64, steps: usize) -> (m: i64)
    requires
        1 <= range <= 255 * UNIT,
        steps >= 1,
        -5 * range <= t <= 5 * range,
    ensures
        m == snap_offset(t as int, range as int, steps as int),
        t - range <= m <= t + range,
{
    let neg: bool = t < 0;
    let a: u128 = if neg {
        (-t) as u128
    } else {
        t as u128
    };
    let r: u128 = range as u128;
    let d: u128 = steps as u128;
    proof {
        lemma_nearest_twice(a as int, r as int, d as int);
        assert(a * d <= 0x1_0000_0000 * 0x1_0000_0000_0000_0000) by (nonlinear_arith)
            requires
                0 <= a <= 0x1_0000_0000,
                0 <= d <= 0x1_0000_0000_0000_0000,
        ;
    }
    let q: u128 = (2 * (a * d) + r) / (2 * r);
    let m: u128 = (2 * (q * r) + d) / (2 * d);
    let mi: i64 = m as i64;
    if neg {
        -mi
    } else {
        mi
    }
}

/// Takes `k` sixteenths of an error.
fn part(e: i64, k: i64) -> (r: i64)
    requires
        -0x1_0000_0000 <= e <= 0x1_0000_0000,
        1 <= k <= 7,
    ensures
        r == share(e as int, k as int),
        e >= 0 ==> 0 <= r <= e,
        e < 0 ==> e <= r <= 0,
{
    if e < 0 {
        let a: i64 = -e;
        assert(0 <= a * k <= a * 7) by (nonlinear_arith)
            requires
                a >= 0,
                1 <= k <= 7,
        ;
        -((a * k) / 16)
    } else {
        assert(0 <= e * k <= e * 7) by (nonlinear_arith)
            requires
                e >= 0,
                1 <= k <= 7,
        ;
        (e * k) / 16
    }
}

/// Whether every value lies between the two ends of the range.
pub open spec fn within(s: Seq<i64>, lo: int, range: int) -> bool {
    forall|j: int| 0 <= j < s.len() ==> lo <= #[trigger] s[j] <= lo + range
}

/// Every value from position `i` on is within its slack of where it
/// started.
pub open spec fn near(raw: Seq<i64>, orig: Seq<i64>, i: int, width: int, range: int) -> bool {
    forall|j: int|
        i <= j < raw.len() ==> orig[j] - slack(i, j, width, range) <= #[trigger] raw[j] <= orig[j]
            + slack(i, j, width, range)
}

/// Whether every value after position `i` is small enough to take four
/// errors.
pub open spec fn roomy(s: Seq<i64>, i: int) -> bool {
    forall|j: int| i < j < s.len() ==> -0x1_0000_0000 <= #[trigger] s[j] <= 0x1_0000_0000
}

/// Writes the new value of pixel `i` and adds the shares of its error to
/// its neighbours.
fn hand_on(
    raw: &mut Vec<i64>,
    i: usize,
    x: usize,
    y: usize,
    width: usize,
    height: usize,
    moved: i64,
    shares: (i64, i64, i64, i64),
)
    requires
        i < old(raw)@.len() <= usize::MAX,
        x < width,
        y < height,
        i - x + width <= old(raw)@.len(),
        y + 1 < height ==> i - x + 2 * width <= old(raw)@.len(),
        roomy(old(raw)@, i as int),
        -0x1_0000_0000 <= shares.0 <= 0x1_0000_0000,
        -0x1_0000_0000 <= shares.1 <= 0x1_0000_0000,
        -0x1_0000_0000 <= shares.2 <= 0x1_0000_0000,
        -0x1_0000_0000 <= shares.3 <= 0x1_0000_0000,
    ensures
        final(raw)@.len() == old(raw)@.len(),
        ints(final(raw)@) == spread(
            ints(old(raw)@),
            i as int,
            x as int,
            y as int,
            width as int,
            height as int,
            moved as int,
            shares.0 as int,
            shares.1 as int,
            shares.2 as int,
            shares.3 as int,
        ),
{
    raw.set(i, moved);
    if x + 1 < width {
        let w: i64 = raw[i + 1];
        raw.set(i + 1, w + shares.0);
    }
    if y + 1 < height {
        if x > 0 {
            let w: i64 = raw[i + width - 1];
            raw.set(i + width - 1, w + shares.1);
        }
        let w: i64 = raw[i + width];
        raw.set(i + width, w + shares.2);
        if x + 1 < width {
            let w: i64 = raw[i + width + 1];
            raw.set(i + width + 1, w + shares.3);
        }
    }
    assert(ints(raw@) =~= spread(
        ints(old(raw)@),
        i as int,
        x as int,
        y as int,
        width as int,
        height as int,
        moved as int,
        shares.0 as int,
        shares.1 as int,
        shares.2 as int,
        shares.3 as int,
    ));
}

/// Visits pixel `i`, which lies in column `x` of row `y`.
fn visit(
    raw: &mut Vec<i64>,
    i: usize,
    x: usize,
    y: usize,
    width: usize,
    height: usize,
    lo: i64,
    range: i64,
    steps: usize,
    Ghost(orig): Ghost<Seq<i64>>,
)
    requires
        old(raw)@.len() == orig.len(),
        i < old(raw)@.len() <= usize::MAX,
        x < width,
        y < height,
        x == (i as int) % (width as int),
        y == (i as int) / (width as int),
        i - x + width <= old(raw)@.len(),
        y + 1 < height ==> i - x + 2 * width <= old(raw)@.len(),
        1 <= range <= 255 * UNIT,
        0 <= lo <= 255 * UNIT,
        steps >= 1,
        within(orig, lo as int, range as int),
        near(old(raw)@, orig, i as int, width as int, range as int),
    ensures
        final(raw)@.len() == old(raw)@.len(),
        ints(final(raw)@) == diffuse(
            ints(old(raw)@),
            i as int,
            width as int,
            height as int,
            lo as int,
            range as int,
            steps as int,
        ),
        near(final(raw)@, orig, i + 1, width as int, range as int),
{
    assert(lo <= orig[i as int] <= lo + range);
    let v: i64 = raw[i];
    let t: i64 = v - lo;
    let off: i64 = snap(t, range, steps);
    let e: i64 = t - off;
    let shares = (part(e, 7), part(e, 3), part(e, 5), part(e, 1));
    assert(roomy(raw@, i as int)) by {
        assert forall|j: int| i < j < raw@.len() implies -0x1_0000_0000 <= #[trigger] raw@[j]
            <= 0x1_0000_0000 by {
            assert(lo <= orig[j] <= lo + range);
        }
    }
    hand_on(raw, i, x, y, width, height, lo + off, shares);
    assert(near(raw@, orig, i + 1, width as int, range as int)) by {
        assert forall|j: int| i + 1 <= j < raw@.len() implies orig[j] - slack(
            i + 1,
            j,
            width as int,
            range as int,
        ) <= #[trigger] raw@[j] <= orig[j] + slack(i + 1, j, width as int, range as int) by {
            let was = old(raw)@[j];
            assert(orig[j] - slack(i as int, j, width as int, range as int) <= was <= orig[j]
                + slack(i as int, j, width as int, range as int));
            assert(ints(raw@)[j] == raw@[j]);
            assert(ints(old(raw)@)[j] == was);
        }
    }
}

/// Dithers the raw levels of an image of `width` by `height` pixels to
/// `symbols` evenly spaced values between `min` and `max`, in one forward
/// pass.
pub fn dither(
    raw: &mut Vec<i64>,
    width: usize,
    height: usize,
    min: usize,
    max: usize,
    symbols: usize,
)
    requires
        old(raw)@.len() == width * height,
        min < max <= 255,
        symbols > 1,
        within(old(raw)@, min * UNIT, (max - min) * UNIT),
    ensures
        final(raw)@.len() == old(raw)@.len(),
        ints(final(raw)@) == dithered(
            ints(old(raw)@),
            old(raw)@.len() as int,
            width as int,
            height as int,
            min * UNIT,
            (max - min) * UNIT,
            symbols - 1,
        ),
{
    let n: usize = raw.len();
    let lo: i64 = (min as i64) * UNIT;
    let range: i64 = ((max - min) as i64) * UNIT;
    let steps: usize = symbols - 1;
    let ghost orig = raw@;
    let mut i: usize = 0;
    let mut x: usize = 0;
    let mut y: usize = 0;
    while i < n
        invariant
            n == raw@.len(),
            n == orig.len(),
            n == width * height,
            i <= n,
            i == y * width + x,
            i < n ==> x < width && y < height,
            1 <= range <= 255 * UNIT,
            0 <= lo <= 255 * UNIT,
            steps >= 1,
            within(orig, lo as int, range as int),
            near(raw@, orig, i as int, width as int, range as int),
            ints(raw@) == dithered(
                ints(orig),
                i as int,
                width as int,
                height as int,
                lo as int,
                range as int,
                steps as int,
            ),
        decreases n - i,
    {
        proof {
            lemma_fundamental_div_mod_converse(i as int, width as int, y as int, x as int);
            lemma_index_in_bounds(0, y as int, width as int, height as int);
            if y + 1 < height {
                lemma_index_in_bounds(0, y + 1, width as int, height as int);
                assert((y + 1) * width == y * width + width) by (nonlinear_arith);
            }
        }
        visit(raw, i, x, y, width, height, lo, range, steps, Ghost(orig));
        x += 1;
        if x == width {
            x = 0;
            proof {
                assert((y + 1) * width == y * width + width) by (nonlinear_arith);
                if i + 1 < n {
                    assert(y + 1 < height) by (nonlinear_arith)
                        requires
                            (y + 1) * width < width * height,
                            width > 0,
                    ;
                }
            }
            y += 1;
        }
        i += 1;
    }
}

/// Whole levels as fixed-point values.
pub open spec fn scaled(levels: Seq<usize>) -> Seq<int> {
    Seq::new(levels.len(), |j: int| levels[j] * UNIT)
}

/// A fixed-point value rounded to the nearest whole level, a half going
/// up, and held inside `0..=255`.
pub open spec fn settle(v: int) -> usize {
    if v < 0 {
        0
    } else if (v + UNIT / 2) / (UNIT as int) > 255 {
        255
    } else {
        ((v + UNIT / 2) / (UNIT as int)) as usize
    }
}

/// Every value settled.
pub open spec fn settled(s: Seq<int>) -> Seq<usize> {
    Seq::new(s.len(), |j: int| settle(s[j]))
}

/// Whether dithering takes place: it has to be asked for, there have to be
/// at least two symbols, and the range must not be flat.
pub open spec fn applies(requested: bool, symbols: int, min: int, max: int) -> bool {
    requested && symbols > 1 && max > min
}

/// The levels that go into the pixel records: the dithered levels where
/// dithering takes place, and otherwise the levels as they are.
pub open spec fn final_levels(
    levels: Seq<usize>,
    width: int,
    height: int,
    min: int,
    max: int,
    symbols: int,
    requested: bool,
) -> Seq<usize> {
    if applies(requested, symbols, min, max) {
        settled(
            dithered(
                scaled(levels),
                levels.len() as int,
                width,
                height,
                min * UNIT,
                (max - min) * UNIT,
                symbols - 1,
            ),
        )
    } else {
        levels
    }
}

/// Whether every level lies between `min` and `max`.
pub open spec fn spans(levels: Seq<usize>, min: int, max: int) -> bool {
    forall|j: int| 0 <= j < levels.len() ==> min <= #[trigger] levels[j] <= max
}

fn settle_value(v: i64) -> (level: usize)
    requires
        -0x1_0000_0000 <= v <= 0x1_0000_0000,
    ensures
        level == settle(v as int),
{
    if v < 0 {
        0
    } else {
        let whole: i64 = (v + UNIT / 2) / UNIT;
        if whole > 255 {
            255
        } else {
            whole as usize
        }
    }
}

/// Dithers whole levels where dithering takes place, and hands them back
/// unchanged where it does not.
pub fn dither_levels(
    levels: Vec<usize>,
    width: usize,
    height: usize,
    min: usize,
    max: usize,
    symbols: usize,
    requested: bool,
) -> (out: Vec<usize>)
    requires
        applies(requested, symbols as int, min as int, max as int) ==> levels@.len() == width
            * height && max <= 255 && spans(levels@, min as int, max as int),
    ensures
        out@ == final_levels(
            levels@,
            width as int,
            height as int,
            min as int,
            max as int,
            symbols as int,
            requested,
        ),
{
    if !(requested && symbols > 1 && max > min) {
        return levels;
    }
    let n: usize = levels.len();
    let mut raw: Vec<i64> = Vec::new();
    let mut j: usize = 0;
    while j < n
        invariant
            j <= n,
            n == levels@.len(),
            max <= 255,
            spans(levels@, min as int, max as int),
            raw@.len() == j,
            forall|k: int| 0 <= k < j ==> #[trigger] raw@[k] == levels@[k] * UNIT,
        decreases n - j,
    {
        let level: usize = levels[j];
        raw.push((level as i64) * UNIT);
        j += 1;
    }
    proof {
        assert(ints(raw@) =~= scaled(levels@));
        assert forall|k: int| 0 <= k < raw@.len() implies min * UNIT <= #[trigger] raw@[k] <= min
            * UNIT + (max - min) * UNIT by {
            assert(min <= levels@[k] <= max);
        }
    }
    dither(&mut raw, width, height, min, max, symbols);
    let mut out: Vec<usize> = Vec::new();
    let mut j: usize = 0;
    while j < n
        invariant
            j <= n,
            n == raw@.len(),
            out@.len() == j,
            forall|k: int| 0 <= k < j ==> #[trigger] out@[k] == settle(raw@[k] as int),
        decreases n - j,
    {
        let v: i64 = raw[j];
        let bounded: i64 = if v < -0x1_0000_0000 {
            -1
        } else if v > 0x1_0000_0000 {
            0x1_0000_0000
        } else {
            v
        };
        out.push(settle_value(bounded));
        j += 1;
    }
    proof {
        assert forall|k: int| 0 <= k < n implies ints(raw@)[k] == raw@[k] by {}
        assert(out@ =~= settled(ints(raw@)));
    }
    out
}

/// On a flat range the levels come back as they went in, whether
/// dithering was asked for or not.
pub proof fn flat_range_is_left_alone(
    levels: Seq<usize>,
    width: int,
    height: int,
    min: int,
    max: int,
    symbols: int,
    requested: bool,
)
    requires
        max == min,
    ensures
        final_levels(levels, width, height, min, max, symbols, requested) == levels,
{
}

} // verus!
