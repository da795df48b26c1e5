//! The parameters of an engine, and which coefficient positions carry a
//! bit.

use vstd::prelude::*;

verus! {

/// How many of the ranked coefficient positions carry a bit.
pub const REDUNDANT_POSITIONS: usize = 4;

/// The parameters of an engine.
#[derive(Debug, Clone)]
pub struct EmbeddingConfiguration {
    /// Side of a pixel block; a block carries one bit.
    pub block_size: usize,
    /// Coefficient positions as row and column, most robust first.
    pub embedding_positions: Vec<(usize, usize)>,
    /// The least size that a forced coefficient gets.
    pub embedding_strength: u16,
    /// The least quantisation step that the embedder reckons with.
    pub minimum_quantization_step: u16,
}

impl EmbeddingConfiguration {
    /// A block has between one and eight pixels a side, there is at least
    /// one coefficient position, and every position lies in the 8×8 block.
    pub open spec fn is_valid(&self) -> bool {
        &&& 1 <= self.block_size <= 8
        &&& self.embedding_positions@.len() >= 1
        &&& forall|i: int|
            0 <= i < self.embedding_positions@.len() ==> (#[trigger] self.embedding_positions@[i]).0
                < 8 && self.embedding_positions@[i].1 < 8
    }

    /// Whether an engine can work with this configuration.
    pub fn check(&self) -> (valid: bool)
        ensures
            valid == self.is_valid(),
    {
        if self.block_size < 1 || self.block_size > 8 || self.embedding_positions.len() < 1 {
            return false;
        }
        let count = self.embedding_positions.len();
        let mut index: usize = 0;
        while index < count
            invariant
                index <= count,
                count == self.embedding_positions@.len(),
                forall|i: int|
                    0 <= i < index ==> (#[trigger] self.embedding_positions@[i]).0 < 8
                        && self.embedding_positions@[i].1 < 8,
            decreases count - index,
        {
            let position = self.embedding_positions[index];
            if position.0 >= 8 || position.1 >= 8 {
                return false;
            }
            index += 1;
        }
        true
    }
}

/// The positions of the default configuration, most robust first.
pub open spec fn default_positions() -> Seq<(usize, usize)> {
    seq![(4, 1), (1, 4), (3, 2), (2, 3), (5, 0), (0, 5), (3, 4), (4, 3)]
}

impl Default for EmbeddingConfiguration {
    /// Blocks of eight pixels, the eight ranked positions, strength 25 and
    /// a least step of 4.
    fn default() -> (configuration: Self)
        ensures
            configuration.block_size == 8,
            configuration.embedding_positions@ == default_positions(),
            configuration.embedding_strength == 25,
            configuration.minimum_quantization_step == 4,
            configuration.is_valid(),
    {
        let mut embedding_positions: Vec<(usize, usize)> = Vec::new();
        embedding_positions.push((4, 1));
        embedding_positions.push((1, 4));
        embedding_positions.push((3, 2));
        embedding_positions.push((2, 3));
        embedding_positions.push((5, 0));
        embedding_positions.push((0, 5));
        embedding_positions.push((3, 4));
        embedding_positions.push((4, 3));
        Self {
            block_size: 8,
            embedding_positions,
            embedding_strength: 25,
            minimum_quantization_step: 4,
        }
    }
}

/// The positions that carry a bit: the first four, or all if there are
/// fewer.
pub open spec fn used_positions(positions: Seq<(usize, usize)>) -> Seq<(usize, usize)> {
    if positions.len() < REDUNDANT_POSITIONS {
        positions
    } else {
        positions.take(REDUNDANT_POSITIONS as int)
    }
}

/// The cell at `row` and `column` is one of the positions that carry a bit.
pub open spec fn is_used(positions: Seq<(usize, usize)>, row: int, column: int) -> bool {
    exists|i: int|
        0 <= i < used_positions(positions).len() && (#[trigger] used_positions(positions)[i]).0
            == row && used_positions(positions)[i].1 == column
}

} // verus!
