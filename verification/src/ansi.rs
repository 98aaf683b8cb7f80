//! ANSI true-colour escape sequences, as sequences of characters.

use vstd::prelude::*;
use vstd::string::*;
use crate::raster::Rgb;
use crate::text::{lemma_occurrences_absent, lemma_occurrences_concat, occurrences};

verus! {

/// The decimal digit for `d` in `0..=9`.
pub open spec fn digit(d: int) -> char {
    ((48 + d) as u8) as char
}

/// A number in `0..=255` in decimal, without leading zeros.
pub open spec fn decimal(n: int) -> Seq<char> {
    if n < 10 {
        seq![digit(n)]
    } else if n < 100 {
        seq![digit(n / 10), digit(n % 10)]
    } else {
        seq![digit(n / 100), digit((n / 10) % 10), digit(n % 10)]
    }
}

/// The three channels of a colour in decimal, each followed by its
/// separator: `R;G;Bm`.
pub open spec fn channels(c: Rgb) -> Seq<char> {
    decimal(c.r as int) + seq![';'] + decimal(c.g as int) + seq![';'] + decimal(c.b as int)
        + seq!['m']
}

/// Sets the foreground colour: `ESC[38;2;R;G;Bm`.
pub open spec fn foreground(c: Rgb) -> Seq<char> {
    "\x1b[38;2;"@ + channels(c)
}

/// Sets the background colour: `ESC[48;2;R;G;Bm`.
pub open spec fn background(c: Rgb) -> Seq<char> {
    "\x1b[48;2;"@ + channels(c)
}

/// Puts all attributes back: `ESC[0m`.
pub open spec fn reset() -> Seq<char> {
    "\x1b[0m"@
}

/// No escape sequence holds a line break.
pub proof fn escapes_hold_no_line_break(c: Rgb)
    ensures
        occurrences(foreground(c), '\n') == 0,
        occurrences(background(c), '\n') == 0,
        occurrences(reset(), '\n') == 0,
{
    reveal_strlit("\x1b[38;2;");
    reveal_strlit("\x1b[48;2;");
    reveal_strlit("\x1b[0m");
    let tail = channels(c);
    assert forall|i: int| 0 <= i < tail.len() implies tail[i] != '\n' by {
        let r = decimal(c.r as int);
        let g = decimal(c.g as int);
        let b = decimal(c.b as int);
        assert(forall|k: int| 0 <= k < r.len() ==> r[k] != '\n');
        assert(forall|k: int| 0 <= k < g.len() ==> g[k] != '\n');
        assert(forall|k: int| 0 <= k < b.len() ==> b[k] != '\n');
    }
    lemma_occurrences_absent(tail, '\n');
    lemma_occurrences_absent("\x1b[38;2;"@, '\n');
    lemma_occurrences_absent("\x1b[48;2;"@, '\n');
    lemma_occurrences_absent("\x1b[0m"@, '\n');
    lemma_occurrences_concat("\x1b[38;2;"@, tail, '\n');
    lemma_occurrences_concat("\x1b[48;2;"@, tail, '\n');
}

/// Appends the characters of `s`.
pub fn push_str(out: &mut Vec<char>, s: &str)
    ensures
        final(out)@ == old(out)@ + s@,
{
    let n: usize = s.unicode_len();
    let mut i: usize = 0;
    while i < n
        invariant
            i <= n,
            n == s@.len(),
            out@ == old(out)@ + s@.subrange(0, i as int),
        decreases n - i,
    {
        let c = s.get_char(i);
        out.push(c);
        i += 1;
        assert(out@ =~= old(out)@ + s@.subrange(0, i as int));
    }
    assert(s@.subrange(0, n as int) == s@);
}

fn digit_char(d: u8) -> (c: char)
    requires
        d < 10,
    ensures
        c == digit(d as int),
{
    (48u8 + d) as char
}

/// Appends a number in decimal.
pub fn push_decimal(out: &mut Vec<char>, n: u8)
    ensures
        final(out)@ == old(out)@ + decimal(n as int),
{
    if n >= 100 {
        out.push(digit_char(n / 100));
    }
    if n >= 10 {
        out.push(digit_char((n / 10) % 10));
    }
    out.push(digit_char(n % 10));
    assert(out@ =~= old(out)@ + decimal(n as int));
}

fn push_channels(out: &mut Vec<char>, c: Rgb)
    ensures
        final(out)@ == old(out)@ + channels(c),
{
    push_decimal(out, c.r);
    out.push(';');
    push_decimal(out, c.g);
    out.push(';');
    push_decimal(out, c.b);
    out.push('m');
    assert(out@ =~= old(out)@ + channels(c));
}

/// Appends the escape sequence that sets the foreground colour.
pub fn push_foreground(out: &mut Vec<char>, c: Rgb)
    ensures
        final(out)@ == old(out)@ + foreground(c),
{
    push_str(out, "\x1b[38;2;");
    push_channels(out, c);
    assert(out@ =~= old(out)@ + foreground(c));
}

/// Appends the escape sequence that sets the background colour.
pub fn push_background(out: &mut Vec<char>, c: Rgb)
    ensures
        final(out)@ == old(out)@ + background(c),
{
    push_str(out, "\x1b[48;2;");
    push_channels(out, c);
    assert(out@ =~= old(out)@ + background(c));
}

/// Appends the escape sequence that puts all attributes back.
pub fn push_reset(out: &mut Vec<char>)
    ensures
        final(out)@ == old(out)@ + reset(),
{
    push_str(out, "\x1b[0m");
}

} // verus!
