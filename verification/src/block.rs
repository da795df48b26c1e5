//! One bit in one block of coefficients: how it is forced into the block
//! and how a vote reads it back.

use vstd::prelude::*;
use crate::coefficient::{
    encodes_integer, exceeds_ten, is_above, is_below_minus, is_negative, is_positive,
    is_under_minus_ten, lemma_integer_comparison, pattern_of_integer,
};
use crate::configuration::{is_used, used_positions, EmbeddingConfiguration, REDUNDANT_POSITIONS};
use crate::quantization::quantization_step;
use crate::steganography::SteganographyEngine;

verus! {

/// The size that a forced coefficient gets: the configured strength, or
/// three times the effective quantisation step if that is more. The
/// effective step is `step`, or the configured least step if that is more.
pub open spec fn forcing_strength(strength: u16, least_step: u16, step: int) -> nat {
    let effective = if step >= least_step as int {
        step
    } else {
        least_step as int
    };
    if strength as int >= 3 * effective {
        strength as nat
    } else {
        (3 * effective) as nat
    }
}

/// The step that `steps` gives for a position.
pub open spec fn step_at(steps: spec_fn(int, int) -> int, row: int, column: int) -> int {
    steps(row, column)
}

/// The quantisation steps that `table` holds, by row and column.
pub open spec fn steps_of(table: [[u8; 8]; 8]) -> spec_fn(int, int) -> int {
    |row: int, column: int| table[row][column] as int
}

/// The quantisation steps for `quality`, by row and column.
pub open spec fn steps_for(quality: int) -> spec_fn(int, int) -> int {
    |row: int, column: int| quantization_step(quality, row, column)
}

/// `after` is `before` with `bit_value` forced into it: every used position
/// holds the forcing strength for its step, positive for a one and negative
/// for anything else, and every other cell is as it was.
pub open spec fn is_forced(
    before: [[u32; 8]; 8],
    after: [[u32; 8]; 8],
    configuration: EmbeddingConfiguration,
    bit_value: u8,
    steps: spec_fn(int, int) -> int,
) -> bool {
    forall|row: int, column: int|
        0 <= row < 8 && 0 <= column < 8 ==> if is_used(
            configuration.embedding_positions@,
            row,
            column,
        ) {
            encodes_integer(
                #[trigger] after[row][column],
                forcing_strength(
                    configuration.embedding_strength,
                    configuration.minimum_quantization_step,
                    steps(row, column),
                ),
                bit_value != 1,
            )
        } else {
            after[row][column] == before[row][column]
        }
}

/// The votes for a one among `positions`: the coefficients above ten.
pub open spec fn votes_for_one(block: [[u32; 8]; 8], positions: Seq<(usize, usize)>) -> nat
    decreases positions.len(),
{
    if positions.len() == 0 {
        0
    } else {
        votes_for_one(block, positions.drop_last()) + if is_above(
            block[positions.last().0 as int][positions.last().1 as int],
            10,
        ) {
            1nat
        } else {
            0nat
        }
    }
}

/// The votes for a zero among `positions`: the coefficients below minus ten.
pub open spec fn votes_for_zero(block: [[u32; 8]; 8], positions: Seq<(usize, usize)>) -> nat
    decreases positions.len(),
{
    if positions.len() == 0 {
        0
    } else {
        votes_for_zero(block, positions.drop_last()) + if is_below_minus(
            block[positions.last().0 as int][positions.last().1 as int],
            10,
        ) {
            1nat
        } else {
            0nat
        }
    }
}

/// The bit that a block of coefficients holds: the majority of the votes of
/// the used positions; without a majority, one exactly if the coefficient at
/// the first position is above zero.
pub open spec fn decided_bit(block: [[u32; 8]; 8], positions: Seq<(usize, usize)>) -> u8 {
    let ones = votes_for_one(block, used_positions(positions));
    let zeros = votes_for_zero(block, used_positions(positions));
    if ones > zeros {
        1
    } else if zeros > ones {
        0
    } else if is_above(block[positions[0].0 as int][positions[0].1 as int], 0) {
        1
    } else {
        0
    }
}

impl SteganographyEngine {
    /// Forces `bit_value` into the used positions of a block of
    /// coefficients: plus the forcing strength for a one, minus the forcing
    /// strength for anything else. The former value of a forced coefficient
    /// is lost.
    pub fn embed_bit_robustly(
        &self,
        dct_block: &mut [[u32; 8]; 8],
        bit_value: u8,
        quantization_table: &[[u8; 8]; 8],
    )
        ensures
            is_forced(
                *old(dct_block),
                *final(dct_block),
                self.settings(),
                bit_value,
                steps_of(*quantization_table),
            ),
    {
        proof {
            use_type_invariant(self);
            self.lemma_settings();
        }
        let ghost positions = self.configuration.embedding_positions@;
        let ghost used = used_positions(positions);
        let count = if self.configuration.embedding_positions.len() < REDUNDANT_POSITIONS {
            self.configuration.embedding_positions.len()
        } else {
            REDUNDANT_POSITIONS
        };
        let mut index: usize = 0;
        while index < count
            invariant
                index <= count,
                count == used.len(),
                used == used_positions(positions),
                positions == self.configuration.embedding_positions@,
                self.configuration.is_valid(),
                forall|row: int, column: int|
                    0 <= row < 8 && 0 <= column < 8 ==> if exists|i: int|
                        0 <= i < index && (#[trigger] used[i]).0 == row && used[i].1 == column {
                        encodes_integer(
                            #[trigger] dct_block[row][column],
                            forcing_strength(
                                self.configuration.embedding_strength,
                                self.configuration.minimum_quantization_step,
                                quantization_table[row][column] as int,
                            ),
                            bit_value != 1,
                        )
                    } else {
                        dct_block[row][column] == old(dct_block)[row][column]
                    },
            decreases count - index,
        {
            let position = self.configuration.embedding_positions[index];
            let coefficient_y = position.0;
            let coefficient_x = position.1;
            let step = quantization_table[coefficient_y][coefficient_x] as u32;
            let least_step = self.configuration.minimum_quantization_step as u32;
            let effective = if step >= least_step {
                step
            } else {
                least_step
            };
            let configured = self.configuration.embedding_strength as u32;
            let strength = if configured >= 3 * effective {
                configured
            } else {
                3 * effective
            };
            let pattern = pattern_of_integer(strength, bit_value != 1);
            dct_block[coefficient_y][coefficient_x] = pattern;
            proof {
                assert forall|row: int, column: int| 0 <= row < 8 && 0 <= column < 8 implies if exists|
                    i: int,
                |
                    0 <= i < index + 1 && (#[trigger] used[i]).0 == row && used[i].1 == column {
                    encodes_integer(
                        #[trigger] dct_block[row][column],
                        forcing_strength(
                            self.configuration.embedding_strength,
                            self.configuration.minimum_quantization_step,
                            quantization_table[row][column] as int,
                        ),
                        bit_value != 1,
                    )
                } else {
                    dct_block[row][column] == old(dct_block)[row][column]
                } by {
                    if row == coefficient_y && column == coefficient_x {
                        assert(used[index as int].0 == row && used[index as int].1 == column);
                    }
                }
            }
            index += 1;
        }
    }

    /// Reads the bit of a block of coefficients: each used position votes
    /// one above ten and zero below minus ten; the majority wins, and
    /// without one the sign of the coefficient at the first position decides.
    ///
    /// The fallback is less strict than the vote: it takes any coefficient
    /// above zero for a one, so a coefficient that drifted across zero flips
    /// the bit. What is guaranteed of a block is stated by
    /// [`lemma_carried_bit_is_read`].
    pub fn extract_bit_robustly(&self, dct_block: &[[u32; 8]; 8]) -> (bit: u8)
        ensures
            bit == decided_bit(*dct_block, self.settings().embedding_positions@),
            bit <= 1,
    {
        proof {
            use_type_invariant(self);
            self.lemma_settings();
        }
        let ghost positions = self.configuration.embedding_positions@;
        let ghost used = used_positions(positions);
        let count = if self.configuration.embedding_positions.len() < REDUNDANT_POSITIONS {
            self.configuration.embedding_positions.len()
        } else {
            REDUNDANT_POSITIONS
        };
        let mut votes_for_1: usize = 0;
        let mut votes_for_0: usize = 0;
        let mut index: usize = 0;
        while index < count
            invariant
                index <= count <= REDUNDANT_POSITIONS,
                count == used.len(),
                used == used_positions(positions),
                positions == self.configuration.embedding_positions@,
                self.configuration.is_valid(),
                votes_for_1 == votes_for_one(*dct_block, used.take(index as int)),
                votes_for_0 == votes_for_zero(*dct_block, used.take(index as int)),
                votes_for_1 <= index,
                votes_for_0 <= index,
            decreases count - index,
        {
            let position = self.configuration.embedding_positions[index];
            assert(used.take(index + 1).drop_last() =~= used.take(index as int));
            let coefficient_value = dct_block[position.0][position.1];
            if exceeds_ten(coefficient_value) {
                votes_for_1 += 1;
            } else if is_under_minus_ten(coefficient_value) {
                votes_for_0 += 1;
            }
            index += 1;
        }
        assert(used.take(count as int) =~= used);
        if votes_for_1 > votes_for_0 {
            1
        } else if votes_for_0 > votes_for_1 {
            0
        } else {
            let primary = self.configuration.embedding_positions[0];
            let primary_value = dct_block[primary.0][primary.1];
            if is_positive(primary_value) {
                1
            } else {
                0
            }
        }
    }
}

/// No position among `positions` votes against the sign that all of them
/// carry.
proof fn lemma_no_opposing_votes(
    block: [[u32; 8]; 8],
    positions: Seq<(usize, usize)>,
    negative: bool,
)
    requires
        forall|i: int|
            0 <= i < positions.len() ==> is_negative(
                block[(#[trigger] positions[i]).0 as int][positions[i].1 as int],
            ) == negative,
    ensures
        negative ==> votes_for_one(block, positions) == 0,
        !negative ==> votes_for_zero(block, positions) == 0,
    decreases positions.len(),
{
    if positions.len() > 0 {
        let shorter = positions.drop_last();
        assert(forall|i: int|
            0 <= i < shorter.len() ==> is_negative(
                block[(#[trigger] shorter[i]).0 as int][shorter[i].1 as int],
            ) == negative);
        lemma_no_opposing_votes(block, shorter, negative);
    }
}

/// Every used position of `block` holds a number on the side of zero that
/// stands for `bit_value`: above zero for a one, below zero for anything
/// else.
pub open spec fn carries_bit(
    block: [[u32; 8]; 8],
    positions: Seq<(usize, usize)>,
    bit_value: u8,
) -> bool {
    forall|i: int|
        0 <= i < used_positions(positions).len() ==> {
            let cell = block[(#[trigger] used_positions(positions)[i]).0 as int][used_positions(
                positions,
            )[i].1 as int];
            if bit_value == 1 {
                is_above(cell, 0)
            } else {
                is_below_minus(cell, 0)
            }
        }
}

/// `magnitude` rounded to the nearest multiple of `step`, halves away from
/// zero.
pub open spec fn rounded_to_step(magnitude: nat, step: int) -> nat {
    (((2 * magnitude + step) / (2 * step)) * step) as nat
}

/// `rounded` holds, at every used position, the coefficient that was forced
/// there for `bit_value`, rounded to the nearest multiple of its
/// quantisation step.
pub open spec fn is_rounded_forcing(
    rounded: [[u32; 8]; 8],
    configuration: EmbeddingConfiguration,
    bit_value: u8,
    steps: spec_fn(int, int) -> int,
) -> bool {
    forall|row: int, column: int|
        0 <= row < 8 && 0 <= column < 8 && is_used(configuration.embedding_positions@, row, column)
            ==> encodes_integer(
            #[trigger] rounded[row][column],
            rounded_to_step(
                forcing_strength(
                    configuration.embedding_strength,
                    configuration.minimum_quantization_step,
                    steps(row, column),
                ),
                steps(row, column),
            ),
            bit_value != 1,
        )
}

/// A block whose used positions all lie on the side of a bit reads as that
/// bit, however close to zero they are: none of them votes against it, and
/// without a vote the first position decides.
pub proof fn lemma_carried_bit_is_read(
    block: [[u32; 8]; 8],
    configuration: EmbeddingConfiguration,
    bit_value: u8,
)
    requires
        configuration.is_valid(),
        carries_bit(block, configuration.embedding_positions@, bit_value),
    ensures
        decided_bit(block, configuration.embedding_positions@) == if bit_value == 1 {
            1u8
        } else {
            0u8
        },
{
    let positions = configuration.embedding_positions@;
    let used = used_positions(positions);
    assert(used[0] == positions[0]);
    lemma_no_opposing_votes(block, used, bit_value != 1);
}

/// A block reads back the bit that was forced into it, whatever it held
/// before, as long as every quantisation step is at least one: a one for a
/// forced one, a zero for anything else.
pub proof fn lemma_forced_block_reads_back(
    before: [[u32; 8]; 8],
    after: [[u32; 8]; 8],
    configuration: EmbeddingConfiguration,
    bit_value: u8,
    steps: spec_fn(int, int) -> int,
)
    requires
        configuration.is_valid(),
        is_forced(before, after, configuration, bit_value, steps),
        forall|row: int, column: int|
            0 <= row < 8 && 0 <= column < 8 ==> #[trigger] step_at(steps, row, column) >= 1,
    ensures
        decided_bit(after, configuration.embedding_positions@) == if bit_value == 1 {
            1u8
        } else {
            0u8
        },
{
    let positions = configuration.embedding_positions@;
    let used = used_positions(positions);
    assert forall|i: int| 0 <= i < used.len() implies {
        let cell = after[(#[trigger] used[i]).0 as int][used[i].1 as int];
        if bit_value == 1 {
            is_above(cell, 0)
        } else {
            is_below_minus(cell, 0)
        }
    } by {
        let row = used[i].0 as int;
        let column = used[i].1 as int;
        assert(step_at(steps, row, column) >= 1);
        lemma_integer_comparison(
            after[row][column],
            forcing_strength(
                configuration.embedding_strength,
                configuration.minimum_quantization_step,
                steps(row, column),
            ),
            bit_value != 1,
            0,
        );
    }
    lemma_carried_bit_is_read(after, configuration, bit_value);
}

/// The forcing strength leaves a margin over the quantiser: a block still
/// reads as the bit that was forced into it after each forced coefficient
/// was rounded to the nearest multiple of its quantisation step, as long as
/// every step is at least one.
pub proof fn lemma_forced_block_survives_rounding(
    rounded: [[u32; 8]; 8],
    configuration: EmbeddingConfiguration,
    bit_value: u8,
    steps: spec_fn(int, int) -> int,
)
    requires
        configuration.is_valid(),
        is_rounded_forcing(rounded, configuration, bit_value, steps),
        forall|row: int, column: int|
            0 <= row < 8 && 0 <= column < 8 ==> #[trigger] step_at(steps, row, column) >= 1,
    ensures
        decided_bit(rounded, configuration.embedding_positions@) == if bit_value == 1 {
            1u8
        } else {
            0u8
        },
{
    let positions = configuration.embedding_positions@;
    let used = used_positions(positions);
    assert forall|i: int| 0 <= i < used.len() implies {
        let cell = rounded[(#[trigger] used[i]).0 as int][used[i].1 as int];
        if bit_value == 1 {
            is_above(cell, 0)
        } else {
            is_below_minus(cell, 0)
        }
    } by {
        let row = used[i].0 as int;
        let column = used[i].1 as int;
        assert(step_at(steps, row, column) >= 1);
        let step = steps(row, column);
        let strength = forcing_strength(
            configuration.embedding_strength,
            configuration.minimum_quantization_step,
            step,
        );
        lemma_rounding_keeps_margin(strength, step);
        lemma_integer_comparison(
            rounded[row][column],
            rounded_to_step(strength, step),
            bit_value != 1,
            0,
        );
    }
    lemma_carried_bit_is_read(rounded, configuration, bit_value);
}

/// A magnitude of at least three steps stays at least three steps when it
/// is rounded to a multiple of the step.
pub proof fn lemma_rounding_keeps_margin(magnitude: nat, step: int)
    requires
        step >= 1,
        magnitude >= 3 * step,
    ensures
        rounded_to_step(magnitude, step) >= 3 * step,
{
    let multiple = (2 * magnitude + step) / (2 * step);
    assert(multiple >= 3) by (nonlinear_arith)
        requires
            multiple == (2 * magnitude + step) / (2 * step),
            step >= 1,
            magnitude >= 3 * step,
    ;
    assert(multiple * step >= 3 * step) by (nonlinear_arith)
        requires
            multiple >= 3,
            step >= 1,
    ;
}

} // verus!
