//! Recovering a payload from an image: one bit is read from each block,
//! row by row from the top left, until enough bits are collected.

use vstd::prelude::*;
use crate::bitstream::{
    framed_bits, framed_length, lemma_frame_declares_length, lemma_unframing_inverts_framing,
    unframing_result,
};
use crate::block::decided_bit;
use crate::configuration::EmbeddingConfiguration;
use crate::error::{outcome, Failure, SteganographyError};
use crate::grid::{
    block_left, block_top, blocks_across, grid_capacity, lemma_block_index_splits,
    lemma_blocks_across,
};
use crate::raster::PixelGrid;
use crate::samples::is_block_of;
use crate::steganography::{read_header, SteganographyEngine};

verus! {

/// Enough bits are collected to stop reading blocks: as many as an
/// expected payload length asks for; or, where none is expected, as many as
/// the collected header declares, if it declares more than nothing and less
/// than an eighth of the capacity (taken modulo 2^32).
pub open spec fn is_complete(collected: Seq<u8>, expected: Option<usize>, capacity: nat) -> bool {
    match expected {
        Some(length) => collected.len() >= 32 + 8 * length,
        None => {
            &&& collected.len() >= 32
            &&& 0 < framed_length(collected) < (capacity / 8) % 0x1_0000_0000
            &&& collected.len() >= 32 + 8 * framed_length(collected)
        },
    }
}

/// `coefficients` is what the forward transform makes of block `index` of
/// `grid`.
pub open spec fn is_reading<G, F>(
    coefficients: [[u32; 8]; 8],
    grid: &G,
    configuration: EmbeddingConfiguration,
    index: int,
    forward: F,
) -> bool where G: PixelGrid, F: Fn([[G::Pixel; 8]; 8]) -> [[u32; 8]; 8] {
    exists|samples: [[G::Pixel; 8]; 8]|
        {
            &&& is_block_of(
                samples,
                grid,
                configuration.block_size as nat,
                block_left(index, grid.columns(), configuration.block_size as nat),
                block_top(index, grid.columns(), configuration.block_size as nat),
            )
            &&& #[trigger] call_ensures(forward, (samples,), coefficients)
        }
}

/// The bits that reading stops with: at the first count that is complete,
/// or else with one bit of every block.
pub open spec fn is_stopping_point(
    collected: Seq<u8>,
    expected: Option<usize>,
    capacity: nat,
) -> bool {
    &&& collected.len() <= capacity
    &&& collected.len() == capacity || is_complete(collected, expected, capacity)
    &&& forall|count: int|
        1 <= count < collected.len() ==> !is_complete(
            #[trigger] collected.take(count),
            expected,
            capacity,
        )
}

/// `collected` holds the bits that extraction reads from `grid`: bit `k` is
/// decided from the coefficients of block `k`, and reading stops as
/// [`is_stopping_point`] says.
pub open spec fn is_extraction<G, F>(
    collected: Seq<u8>,
    grid: &G,
    configuration: EmbeddingConfiguration,
    expected: Option<usize>,
    forward: F,
) -> bool where G: PixelGrid, F: Fn([[G::Pixel; 8]; 8]) -> [[u32; 8]; 8] {
    &&& is_stopping_point(
        collected,
        expected,
        grid_capacity(grid.columns(), grid.rows(), configuration.block_size as nat),
    )
    &&& exists|readings: Seq<[[u32; 8]; 8]>|
        {
            &&& #[trigger] readings.len() == collected.len()
            &&& forall|k: int|
                0 <= k < readings.len() ==> {
                    &&& is_reading(#[trigger] readings[k], grid, configuration, k, forward)
                    &&& collected[k] == decided_bit(readings[k], configuration.embedding_positions@)
                }
        }
}

/// What extraction from `grid` yields: the payload unframed from the bits
/// that were read, or why there is none.
pub open spec fn is_extraction_outcome<G, F>(
    result: Result<Vec<u8>, SteganographyError>,
    grid: &G,
    configuration: EmbeddingConfiguration,
    expected: Option<usize>,
    forward: F,
) -> bool where G: PixelGrid, F: Fn([[G::Pixel; 8]; 8]) -> [[u32; 8]; 8] {
    exists|collected: Seq<u8>|
        {
            &&& #[trigger] is_extraction(collected, grid, configuration, expected, forward)
            &&& outcome(result) == unframing_result(collected)
        }
}

impl SteganographyEngine {
    /// Whether the bits collected so far are enough to stop reading blocks.
    pub fn is_extraction_complete(
        &self,
        extracted_bits: &Vec<u8>,
        expected_data_length: Option<usize>,
        total_capacity: usize,
    ) -> (complete: bool)
        ensures
            complete == is_complete(extracted_bits@, expected_data_length, total_capacity as nat),
    {
        let collected = extracted_bits.len();
        match expected_data_length {
            Some(expected_length) => collected as u128 >= 32 + 8 * (expected_length as u128),
            None => {
                if collected < 32 {
                    return false;
                }
                let header_length = read_header(extracted_bits.as_slice());
                let limit = ((total_capacity / 8) as u64 % 0x1_0000_0000) as u32;
                let total_bits_needed: u64 = 32 + 8 * (header_length as u64);
                header_length > 0 && header_length < limit && collected as u64
                    >= total_bits_needed
            },
        }
    }

    /// Reads the payload back from `steganographic_image`: the samples of
    /// each block go through `forward` to become coefficients, which decide
    /// one bit; blocks are read row by row from the top left until enough
    /// bits are collected or no block is left, and the bits are unframed.
    pub fn extract_data_from_image<G, F>(
        &self,
        steganographic_image: &G,
        expected_data_length: Option<usize>,
        forward: F,
    ) -> (result: Result<Vec<u8>, SteganographyError>) where
        G: PixelGrid,
        F: Fn([[G::Pixel; 8]; 8]) -> [[u32; 8]; 8],

        requires
            forall|samples: [[G::Pixel; 8]; 8]| call_requires(forward, (samples,)),
        ensures
            is_extraction_outcome(
                result,
                steganographic_image,
                self.settings(),
                expected_data_length,
                forward,
            ),
            self.settings().is_valid(),
    {
        proof {
            use_type_invariant(self);
            self.lemma_settings();
        }
        let total_capacity = self.calculate_capacity(steganographic_image);
        let width = steganographic_image.width();
        let height = steganographic_image.height();
        let block_size = self.configuration.block_size as u64;
        let horizontal_blocks = (width as u64 + block_size - 1) / block_size;
        let ghost across = blocks_across(width as nat, block_size as nat);
        let ghost down = blocks_across(height as nat, block_size as nat);
        let ghost mut readings: Seq<[[u32; 8]; 8]> = Seq::empty();
        let mut extracted_bits: Vec<u8> = Vec::new();
        let mut complete = false;
        let mut row: u64 = 0;
        let mut column: u64 = 0;
        assert(0 < total_capacity ==> 0 < across) by (nonlinear_arith)
            requires
                total_capacity == across * down,
        ;
        while extracted_bits.len() < total_capacity && !complete
            invariant
                extracted_bits@.len() <= total_capacity,
                total_capacity == across * down,
                across == blocks_across(width as nat, block_size as nat),
                down == blocks_across(height as nat, block_size as nat),
                horizontal_blocks == across,
                block_size == self.configuration.block_size,
                1 <= block_size <= 8,
                self.configuration.is_valid(),
                self.settings() == self.configuration,
                width == steganographic_image.columns(),
                height == steganographic_image.rows(),
                extracted_bits@.len() == row * across + column,
                extracted_bits@.len() < total_capacity ==> column < across,
                complete ==> is_complete(
                    extracted_bits@,
                    expected_data_length,
                    total_capacity as nat,
                ),
                forall|count: int|
                    1 <= count < extracted_bits@.len() ==> !is_complete(
                        #[trigger] extracted_bits@.take(count),
                        expected_data_length,
                        total_capacity as nat,
                    ),
                !complete && extracted_bits@.len() >= 1 ==> !is_complete(
                    extracted_bits@,
                    expected_data_length,
                    total_capacity as nat,
                ),
                readings.len() == extracted_bits@.len(),
                forall|samples: [[G::Pixel; 8]; 8]| call_requires(forward, (samples,)),
                forall|k: int|
                    0 <= k < readings.len() ==> {
                        &&& is_reading(
                            #[trigger] readings[k],
                            steganographic_image,
                            self.configuration,
                            k,
                            forward,
                        )
                        &&& extracted_bits@[k] == decided_bit(
                            readings[k],
                            self.configuration.embedding_positions@,
                        )
                    },
            decreases total_capacity - extracted_bits@.len(),
        {
            let ghost index = extracted_bits@.len() as int;
            let ghost earlier = extracted_bits@;
            proof {
                lemma_block_index_splits(index, across, row as int, column as int);
                lemma_blocks_across(width as nat, block_size as nat, column as int);
                assert(row < down) by (nonlinear_arith)
                    requires
                        row * across + column < across * down,
                        0 <= column,
                        0 <= across,
                ;
                lemma_blocks_across(height as nat, block_size as nat, row as int);
            }
            let block_x = (column * block_size) as u32;
            let block_y = (row * block_size) as u32;
            let samples = self.extract_sample_block(steganographic_image, block_x, block_y);
            let coefficients = forward(samples);
            let extracted_bit = self.extract_bit_robustly(&coefficients);
            extracted_bits.push(extracted_bit);
            proof {
                readings = readings.push(coefficients);
                assert forall|count: int| 1 <= count < extracted_bits@.len() implies !is_complete(
                    #[trigger] extracted_bits@.take(count),
                    expected_data_length,
                    total_capacity as nat,
                ) by {
                    if count < index {
                        assert(extracted_bits@.take(count) =~= earlier.take(count));
                    } else {
                        assert(extracted_bits@.take(count) =~= earlier);
                    }
                }
            }
            complete =
            self.is_extraction_complete(&extracted_bits, expected_data_length, total_capacity);
            column += 1;
            if column == horizontal_blocks {
                column = 0;
                row += 1;
                assert((row - 1) * across + across == row * across) by (nonlinear_arith);
            }
        }
        proof {
            assert(is_extraction(
                extracted_bits@,
                steganographic_image,
                self.configuration,
                expected_data_length,
                forward,
            ));
        }
        self.convert_bits_to_data_with_header(extracted_bits.as_slice())
    }
}

/// If every block that is read gives the bit that was embedded in it, the
/// bits that reading stops with unframe to the payload. An expected length
/// must not be less than the payload's, and the payload's length must fit
/// the header.
pub proof fn lemma_stopping_point_holds_payload(
    payload: Seq<u8>,
    collected: Seq<u8>,
    expected: Option<usize>,
    capacity: nat,
)
    requires
        payload.len() < 0x1_0000_0000,
        framed_bits(payload).len() <= capacity,
        is_stopping_point(collected, expected, capacity),
        forall|k: int|
            0 <= k < collected.len() && k < framed_bits(payload).len() ==> collected[k]
                == framed_bits(payload)[k],
        expected matches Some(length) ==> length >= payload.len(),
    ensures
        unframing_result(collected) == Ok::<Seq<u8>, Failure>(payload),
{
    let frame = framed_bits(payload);
    if collected.len() < capacity && expected is None {
        lemma_frame_declares_length(payload, collected);
    }
    let trailing = collected.skip(frame.len() as int);
    assert(collected =~= frame + trailing);
    lemma_unframing_inverts_framing(payload, trailing);
}

} // verus!
