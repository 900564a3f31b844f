//! Lengths, font sizes and the fixed geometry of a page.
//!
//! Lengths on the page are whole micrometres and font sizes are whole
//! thousandths of a point. Arithmetic on them saturates at the ends of the
//! 64-bit range, so every layout rule is defined for every input.

use vstd::prelude::*;

verus! {

/// Micrometres in a millimetre, the unit that page sizes are quoted in.
pub const MM: i64 = 1000;

/// Thousandths of a point in a point.
pub const PT: i64 = 1000;

/// The width of a page.
pub const PAGE_WIDTH: i64 = 210_000;

/// The height of a page.
pub const PAGE_HEIGHT: i64 = 297_000;

/// The margin on every side of a page.
pub const MARGIN: i64 = 5_000;

/// The page width without the two margins.
pub const USABLE_WIDTH: i64 = 200_000;

/// The page height without the two margins.
pub const USABLE_HEIGHT: i64 = 287_000;

/// `v` brought into the 64-bit range: values beyond an end become that
/// end.
pub open spec fn sat(v: int) -> int {
    if v < i64::MIN {
        i64::MIN as int
    } else if v > i64::MAX {
        i64::MAX as int
    } else {
        v
    }
}

/// Executable form of [`sat`].
pub fn saturate(v: i128) -> (r: i64)
    ensures
        r == sat(v as int),
{
    if v < i64::MIN as i128 {
        i64::MIN
    } else if v > i64::MAX as i128 {
        i64::MAX
    } else {
        v as i64
    }
}

/// The saturating sum of two lengths.
pub fn plus(a: i64, b: i64) -> (r: i64)
    ensures
        r == sat(a + b),
{
    saturate(a as i128 + b as i128)
}

/// The saturating difference of two lengths.
pub fn minus(a: i64, b: i64) -> (r: i64)
    ensures
        r == sat(a - b),
{
    saturate(a as i128 - b as i128)
}

/// The saturating product of a count and a length.
pub fn times(n: usize, unit: i64) -> (r: i64)
    ensures
        r == sat(n * unit),
{
    let a: i128 = n as i128;
    let b: i128 = unit as i128;
    assert(-0x8000_0000_0000_0000_0000_0000_0000_0000 < a * b
        < 0x8000_0000_0000_0000_0000_0000_0000_0000) by (nonlinear_arith)
        requires
            0 <= a <= 0xffff_ffff_ffff_ffff,
            -0x8000_0000_0000_0000 <= b <= 0x7fff_ffff_ffff_ffff,
    ;
    saturate(a * b)
}

/// `a * num / den`, rounded towards zero.
pub open spec fn scaled(a: int, num: int, den: int) -> int {
    if a >= 0 {
        a * num / den
    } else {
        -((-a) * num / den)
    }
}

/// The saturating form of [`scaled`] for a factor `num / den` that is not
/// negative.
pub fn scale(a: i64, num: i64, den: i64) -> (r: i64)
    requires
        num >= 0,
        den > 0,
    ensures
        r == sat(scaled(a as int, num as int, den as int)),
{
    let x: i128 = a as i128;
    let n: i128 = num as i128;
    let d: i128 = den as i128;
    if a >= 0 {
        assert(0 <= x * n < 0x4000_0000_0000_0000_0000_0000_0000_0000) by (nonlinear_arith)
            requires
                0 <= x <= 0x7fff_ffff_ffff_ffff,
                0 <= n <= 0x7fff_ffff_ffff_ffff,
        ;
        saturate(x * n / d)
    } else {
        let y: i128 = -x;
        assert(0 <= y * n <= 0x4000_0000_0000_0000_0000_0000_0000_0000) by (nonlinear_arith)
            requires
                0 <= y <= 0x8000_0000_0000_0000,
                0 <= n <= 0x7fff_ffff_ffff_ffff,
        ;
        assert(0 <= (y * n) / (d as int) <= y * n) by (nonlinear_arith)
            requires
                0 <= y * n,
                d > 0,
        ;
        saturate(-(y * n / d))
    }
}

/// The larger of two lengths.
pub fn larger(a: i64, b: i64) -> (r: i64)
    ensures
        r == if a >= b {
            a
        } else {
            b
        },
{
    if a >= b {
        a
    } else {
        b
    }
}

/// The smaller of two lengths.
pub fn smaller(a: i64, b: i64) -> (r: i64)
    ensures
        r == if a <= b {
            a
        } else {
            b
        },
{
    if a <= b {
        a
    } else {
        b
    }
}

/// The larger of two lengths.
pub open spec fn max(a: int, b: int) -> int {
    if a >= b {
        a
    } else {
        b
    }
}

/// The smaller of two lengths.
pub open spec fn min(a: int, b: int) -> int {
    if a <= b {
        a
    } else {
        b
    }
}

/// The estimated width of an average glyph at a font size: half the size,
/// a point being 0.352778 mm.
pub open spec fn glyph_width(size: int) -> int {
    sat(scaled(size, 176_389, 1_000_000))
}

/// Executable form of [`glyph_width`].
pub fn glyph_width_of(size: i64) -> (r: i64)
    ensures
        r == glyph_width(size as int),
{
    scale(size, 176_389, 1_000_000)
}

/// How many glyphs of width `glyph` fit into `width`; at least `least`,
/// and no more than the machine counts. A glyph without width counts as
/// one micrometre wide.
pub open spec fn chars_that_fit(width: int, glyph: int, least: int) -> int {
    let g = max(glyph, 1);
    min(max(if width > 0 {
        width / g
    } else {
        0
    }, least), usize::MAX as int)
}

/// Executable form of [`chars_that_fit`].
pub fn fit_chars(width: i64, glyph: i64, least: usize) -> (r: usize)
    ensures
        r == chars_that_fit(width as int, glyph as int, least as int),
{
    let g: i64 = if glyph >= 1 {
        glyph
    } else {
        1
    };
    let n: i64 = if width > 0 {
        width / g
    } else {
        0
    };
    assert(0 <= n <= width || n == 0) by (nonlinear_arith)
        requires
            n == if width > 0 {
                width as int / g as int
            } else {
                0
            },
            g >= 1,
    ;
    let m: u64 = n as u64;
    if m as u128 > usize::MAX as u128 {
        usize::MAX
    } else if (m as usize) >= least {
        m as usize
    } else {
        least
    }
}

} // verus!
