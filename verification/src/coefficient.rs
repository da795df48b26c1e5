//! Transform coefficients as the codec reads and writes them: IEEE 754
//! single-precision numbers, held by their 32-bit patterns. The decisions of
//! the codec only compare a coefficient with a whole number or set it to
//! one, and both are exact on the pattern.

use vstd::prelude::*;
use vstd::arithmetic::power2::{
    lemma2_to64, lemma_pow2_adds, lemma_pow2_pos, lemma_pow2_strictly_increases,
    lemma_pow2_unfold, pow2,
};

verus! {

/// The pattern without its sign bit.
pub open spec fn magnitude_bits(bits: u32) -> nat {
    (bits % 0x8000_0000) as nat
}

/// The sign bit is set.
pub open spec fn is_negative(bits: u32) -> bool {
    bits >= 0x8000_0000
}

/// The pattern is not a number.
pub open spec fn is_nan(bits: u32) -> bool {
    magnitude_bits(bits) > 0x7f80_0000
}

/// The pattern is an infinity.
pub open spec fn is_infinite(bits: u32) -> bool {
    magnitude_bits(bits) == 0x7f80_0000
}

/// The eight exponent bits.
pub open spec fn exponent_field(bits: u32) -> nat {
    magnitude_bits(bits) / 0x80_0000
}

/// The twenty-three fraction bits.
pub open spec fn fraction_field(bits: u32) -> nat {
    magnitude_bits(bits) % 0x80_0000
}

/// The absolute value of a finite pattern, times 2^149: the fraction alone
/// for a subnormal, else the fraction with its leading one, shifted by the
/// exponent.
pub open spec fn scaled_magnitude(bits: u32) -> nat {
    if exponent_field(bits) == 0 {
        fraction_field(bits)
    } else {
        (0x80_0000 + fraction_field(bits)) * pow2((exponent_field(bits) - 1) as nat)
    }
}

/// The number is greater than `threshold`. No comparison holds of a
/// pattern that is not a number.
pub open spec fn is_above(bits: u32, threshold: nat) -> bool {
    &&& !is_nan(bits)
    &&& !is_negative(bits)
    &&& is_infinite(bits) || scaled_magnitude(bits) > threshold * pow2(149)
}

/// The number is less than minus `threshold`.
pub open spec fn is_below_minus(bits: u32, threshold: nat) -> bool {
    &&& !is_nan(bits)
    &&& is_negative(bits)
    &&& is_infinite(bits) || scaled_magnitude(bits) > threshold * pow2(149)
}

/// The pattern is the finite number of size `magnitude` whose sign bit is
/// set exactly if `negative` is.
pub open spec fn encodes_integer(bits: u32, magnitude: nat, negative: bool) -> bool {
    &&& magnitude_bits(bits) < 0x7f80_0000
    &&& is_negative(bits) == negative
    &&& scaled_magnitude(bits) == magnitude * pow2(149)
}

/// Among finite patterns, a greater magnitude pattern is a greater number.
pub proof fn lemma_scaled_magnitude_increases(lower: u32, higher: u32)
    requires
        magnitude_bits(lower) < magnitude_bits(higher) < 0x7f80_0000,
    ensures
        scaled_magnitude(lower) < scaled_magnitude(higher),
{
    let low_exponent = exponent_field(lower);
    let low_fraction = fraction_field(lower);
    let high_exponent = exponent_field(higher);
    let high_fraction = fraction_field(higher);
    if low_exponent == high_exponent {
        if low_exponent > 0 {
            let unit = pow2((low_exponent - 1) as nat);
            lemma_pow2_pos((low_exponent - 1) as nat);
            assert((0x80_0000 + low_fraction) * unit < (0x80_0000 + high_fraction) * unit)
                by (nonlinear_arith)
                requires
                    low_fraction < high_fraction,
                    unit > 0,
            ;
        }
    } else {
        let high_unit = pow2((high_exponent - 1) as nat);
        lemma_pow2_pos((high_exponent - 1) as nat);
        assert(0x80_0000 * high_unit <= (0x80_0000 + high_fraction) * high_unit)
            by (nonlinear_arith)
            requires
                0 <= high_fraction,
                high_unit > 0,
        ;
        if low_exponent > 0 {
            let low_unit = pow2((low_exponent - 1) as nat);
            lemma_pow2_pos((low_exponent - 1) as nat);
            lemma_pow2_unfold(low_exponent);
            if low_exponent < high_exponent - 1 {
                lemma_pow2_strictly_increases(low_exponent, (high_exponent - 1) as nat);
            }
            assert((0x80_0000 + low_fraction) * low_unit < 0x80_0000 * (2 * low_unit))
                by (nonlinear_arith)
                requires
                    low_fraction < 0x80_0000,
                    low_unit > 0,
            ;
        }
    }
}

/// The pattern `0x41200000` is the number ten, and `0xc1200000` minus ten.
pub proof fn lemma_pattern_of_ten()
    ensures
        encodes_integer(0x4120_0000, 10, false),
        encodes_integer(0xc120_0000, 10, true),
{
    lemma2_to64();
    lemma_pow2_adds(20, 129);
    let unit = pow2(129);
    assert((0x80_0000 + 0x20_0000) * unit == 10 * (0x10_0000 * unit)) by (nonlinear_arith);
}

/// A pattern that encodes a whole number compares with a threshold as the
/// number does.
pub proof fn lemma_integer_comparison(bits: u32, magnitude: nat, negative: bool, threshold: nat)
    requires
        encodes_integer(bits, magnitude, negative),
    ensures
        is_above(bits, threshold) <==> !negative && magnitude > threshold,
        is_below_minus(bits, threshold) <==> negative && magnitude > threshold,
{
    let unit = pow2(149);
    lemma_pow2_pos(149);
    assert(magnitude * unit > threshold * unit <==> magnitude > threshold) by (nonlinear_arith)
        requires
            unit > 0,
    ;
}

/// Whether the number is greater than ten.
pub fn exceeds_ten(bits: u32) -> (above: bool)
    ensures
        above == is_above(bits, 10),
{
    proof {
        lemma_pattern_of_ten();
        if bits < 0x4120_0000 {
            lemma_scaled_magnitude_increases(bits, 0x4120_0000);
        } else if 0x4120_0000 < bits < 0x7f80_0000 {
            lemma_scaled_magnitude_increases(0x4120_0000, bits);
        }
    }
    0x4120_0000 < bits && bits <= 0x7f80_0000
}

/// Whether the number is less than minus ten.
pub fn is_under_minus_ten(bits: u32) -> (below: bool)
    ensures
        below == is_below_minus(bits, 10),
{
    proof {
        lemma_pattern_of_ten();
        if 0x8000_0000 <= bits < 0xc120_0000 {
            lemma_scaled_magnitude_increases(bits, 0xc120_0000);
        } else if 0xc120_0000 < bits < 0xff80_0000 {
            lemma_scaled_magnitude_increases(0xc120_0000, bits);
        }
    }
    0xc120_0000 < bits && bits <= 0xff80_0000
}

/// Whether the number is greater than zero.
pub fn is_positive(bits: u32) -> (above: bool)
    ensures
        above == is_above(bits, 0),
{
    proof {
        if 0 < bits < 0x7f80_0000 {
            lemma_scaled_magnitude_increases(0, bits);
        }
    }
    0 < bits && bits <= 0x7f80_0000
}

/// The pattern of the whole number of size `magnitude`, with the sign bit
/// set if `negative` is.
pub fn pattern_of_integer(magnitude: u32, negative: bool) -> (bits: u32)
    requires
        magnitude < 0x100_0000,
    ensures
        encodes_integer(bits, magnitude as nat, negative),
{
    if magnitude == 0 {
        return if negative {
            0x8000_0000
        } else {
            0
        };
    }
    let mut exponent: u32 = 23;
    let mut mantissa: u32 = magnitude;
    proof {
        lemma2_to64();
        let unit = pow2(0);
        assert(magnitude * unit == magnitude) by (nonlinear_arith)
            requires
                unit == 1,
        ;
    }
    while mantissa < 0x80_0000
        invariant
            1 <= mantissa < 0x100_0000,
            exponent <= 23,
            mantissa == magnitude * pow2((23 - exponent) as nat),
            mantissa >= pow2((23 - exponent) as nat),
        decreases 0x100_0000 - mantissa,
    {
        proof {
            lemma2_to64();
            let unit = pow2((23 - exponent) as nat);
            assert(magnitude * (2 * unit) == 2 * (magnitude * unit)) by (nonlinear_arith);
        }
        mantissa = mantissa * 2;
        exponent = exponent - 1;
    }
    let fraction = mantissa - 0x80_0000;
    let unsigned = (127 + exponent) * 0x80_0000 + fraction;
    let bits = if negative {
        unsigned + 0x8000_0000
    } else {
        unsigned
    };
    proof {
        let up = pow2((23 - exponent) as nat);
        let down = pow2((126 + exponent) as nat);
        lemma_pow2_adds((23 - exponent) as nat, (126 + exponent) as nat);
        assert((magnitude * up) * down == magnitude * (up * down)) by (nonlinear_arith);
    }
    bits
}

} // verus!
