//! The model of the compressor's rounding: a table of quantisation steps
//! derived from a quality between 1 and 100.

use vstd::prelude::*;

verus! {

/// The base luminance table that the steps are scaled from.
pub const JPEG_LUMINANCE_QUANTIZATION_TABLE: [[u8; 8]; 8] = [
    [16, 11, 10, 16, 24, 40, 51, 61],
    [12, 12, 14, 19, 26, 58, 60, 55],
    [14, 13, 16, 24, 40, 57, 69, 56],
    [14, 17, 22, 29, 51, 87, 80, 62],
    [18, 22, 37, 56, 68, 109, 103, 77],
    [24, 35, 55, 64, 81, 104, 113, 92],
    [49, 64, 78, 87, 103, 121, 120, 101],
    [72, 92, 95, 98, 112, 100, 103, 99],
];

/// The entry of the base table at `row` and `column`.
pub open spec fn base_step(row: int, column: int) -> int {
    JPEG_LUMINANCE_QUANTIZATION_TABLE[row][column] as int
}

/// `quality` brought into the range from 1 to 100.
pub open spec fn effective_quality(quality: int) -> int {
    if quality < 1 {
        1
    } else if quality > 100 {
        100
    } else {
        quality
    }
}

/// `floor((base * scale + 50) / 100)`, where `scale` is `5000 / quality`
/// below quality 50 and `200 - 2 * quality` from there on. Below 50 the
/// scale is a fraction, so numerator and denominator are both multiplied by
/// the quality to keep the division exact.
pub open spec fn scaled_step(base: int, quality: int) -> int {
    if quality < 50 {
        (base * 5000 + 50 * quality) / (100 * quality)
    } else {
        (base * (200 - 2 * quality) + 50) / 100
    }
}

/// `value` limited to the steps that a table can hold.
pub open spec fn limited_step(value: int) -> int {
    if value < 1 {
        1
    } else if value > 255 {
        255
    } else {
        value
    }
}

/// The quantisation step at `row` and `column` for `quality`.
pub open spec fn quantization_step(quality: int, row: int, column: int) -> int {
    limited_step(scaled_step(base_step(row, column), effective_quality(quality)))
}

/// `table` holds the step of every position for `quality`.
pub open spec fn is_table_for(table: [[u8; 8]; 8], quality: int) -> bool {
    forall|row: int, column: int|
        0 <= row < 8 && 0 <= column < 8 ==> #[trigger] table[row][column] == quantization_step(
            quality,
            row,
            column,
        )
}

/// Computes one step of the table.
pub fn compute_step(base: u8, quality: u8) -> (step: u8)
    requires
        1 <= quality <= 100,
    ensures
        step == limited_step(scaled_step(base as int, quality as int)),
{
    let base = base as u32;
    let quality = quality as u32;
    let raw = if quality < 50 {
        (base * 5000 + 50 * quality) / (100 * quality)
    } else {
        assert(0 <= base * (200 - 2 * quality) <= 255 * 100) by (nonlinear_arith)
            requires
                base <= 255,
                50 <= quality <= 100,
        ;
        (base * (200 - 2 * quality) + 50) / 100
    };
    if raw < 1 {
        1
    } else if raw > 255 {
        255
    } else {
        raw as u8
    }
}

/// A lower quality never gives a finer scaled step.
pub proof fn lemma_scaled_step_monotonic(base: int, lower: int, higher: int)
    requires
        0 <= base,
        1 <= lower <= higher <= 100,
    ensures
        scaled_step(base, higher) <= scaled_step(base, lower),
{
    if higher < 50 {
        let fine = scaled_step(base, higher);
        assert(0 <= fine && fine * (100 * higher) <= base * 5000 + 50 * higher)
            by (nonlinear_arith)
            requires
                fine == (base * 5000 + 50 * higher) / (100 * higher),
                0 <= base,
                1 <= higher,
        ;
        assert(fine * (100 * lower) <= base * 5000 + 50 * lower) by (nonlinear_arith)
            requires
                fine * (100 * higher) <= base * 5000 + 50 * higher,
                0 <= fine,
                0 <= base,
                1 <= lower <= higher,
        ;
        assert(fine <= (base * 5000 + 50 * lower) / (100 * lower)) by (nonlinear_arith)
            requires
                fine * (100 * lower) <= base * 5000 + 50 * lower,
                1 <= lower,
        ;
    } else if lower >= 50 {
        assert(base * (200 - 2 * higher) <= base * (200 - 2 * lower)) by (nonlinear_arith)
            requires
                0 <= base,
                lower <= higher,
        ;
    } else {
        assert(base * (200 - 2 * higher) <= base * 100) by (nonlinear_arith)
            requires
                0 <= base,
                50 <= higher,
        ;
        assert(base * (100 * lower) <= base * 5000 + 50 * lower) by (nonlinear_arith)
            requires
                0 <= base,
                1 <= lower < 50,
        ;
        assert(base <= (base * 5000 + 50 * lower) / (100 * lower)) by (nonlinear_arith)
            requires
                base * (100 * lower) <= base * 5000 + 50 * lower,
                1 <= lower,
        ;
    }
}

/// The step at a position never grows when the quality rises.
pub proof fn lemma_step_monotonic(lower: int, higher: int, row: int, column: int)
    requires
        lower <= higher,
        0 <= row < 8,
        0 <= column < 8,
    ensures
        quantization_step(higher, row, column) <= quantization_step(lower, row, column),
{
    lemma_scaled_step_monotonic(
        base_step(row, column),
        effective_quality(lower),
        effective_quality(higher),
    );
}

/// Every step lies between 1 and 255.
pub proof fn lemma_step_is_positive(quality: int, row: int, column: int)
    ensures
        1 <= quantization_step(quality, row, column) <= 255,
{
}

} // verus!
