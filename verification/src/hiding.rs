//! Hiding a payload in an image: the framed bits go into the blocks of the
//! image one by one, row by row from the top left.

use vstd::prelude::*;
use crate::bitstream::framed_bits;
use crate::block::{is_forced, steps_for};
use crate::configuration::EmbeddingConfiguration;
use crate::error::{Failure, SteganographyError};
use crate::grid::{
    block_index_of, block_left, block_top, blocks_across, grid_capacity,
    lemma_block_index_splits, lemma_blocks_across, lemma_pixel_in_block,
};
use crate::quantization::is_table_for;
use crate::raster::PixelGrid;
use crate::samples::{is_block_of, is_block_written};
use crate::steganography::SteganographyEngine;

verus! {

/// `restored` is what the transforms make of block `index` of `source` once
/// `bit_value` is forced into its coefficients: the forward transform of the
/// block's samples, forced for `quality`, and transformed back.
pub open spec fn is_restored_block<G, F, I>(
    restored: [[G::Pixel; 8]; 8],
    source: &G,
    configuration: EmbeddingConfiguration,
    index: int,
    bit_value: u8,
    quality: int,
    forward: F,
    inverse: I,
) -> bool where
    G: PixelGrid,
    F: Fn([[G::Pixel; 8]; 8]) -> [[u32; 8]; 8],
    I: Fn([[G::Pixel; 8]; 8], [[u32; 8]; 8]) -> [[G::Pixel; 8]; 8],
 {
    exists|samples: [[G::Pixel; 8]; 8], coefficients: [[u32; 8]; 8], forced: [[u32; 8]; 8]|
        #![trigger call_ensures(forward, (samples,), coefficients), call_ensures(inverse, (samples, forced), restored)]
        {
            &&& is_block_of(
                samples,
                source,
                configuration.block_size as nat,
                block_left(index, source.columns(), configuration.block_size as nat),
                block_top(index, source.columns(), configuration.block_size as nat),
            )
            &&& call_ensures(forward, (samples,), coefficients)
            &&& is_forced(coefficients, forced, configuration, bit_value, steps_for(quality))
            &&& call_ensures(inverse, (samples, forced), restored)
        }
}

/// The pixel at `x` and `y` of an image whose first blocks were replaced by
/// `restored`, in the order of the blocks.
pub open spec fn embedded_pixel<G: PixelGrid>(
    source: &G,
    restored: Seq<[[G::Pixel; 8]; 8]>,
    block_size: nat,
    x: int,
    y: int,
) -> G::Pixel {
    let index = block_index_of(x, y, source.columns(), block_size);
    if index < restored.len() {
        restored[index][y % block_size as int][x % block_size as int]
    } else {
        source.pixel_at(x, y)
    }
}

/// `stego` holds `source` with the bits of `bits` embedded: block `k` of the
/// image carries bit `k`, and the blocks behind the last bit are untouched.
pub open spec fn is_embedding<G, F, I>(
    stego: &G,
    source: &G,
    configuration: EmbeddingConfiguration,
    bits: Seq<u8>,
    quality: int,
    forward: F,
    inverse: I,
) -> bool where
    G: PixelGrid,
    F: Fn([[G::Pixel; 8]; 8]) -> [[u32; 8]; 8],
    I: Fn([[G::Pixel; 8]; 8], [[u32; 8]; 8]) -> [[G::Pixel; 8]; 8],
 {
    &&& stego.columns() == source.columns()
    &&& stego.rows() == source.rows()
    &&& exists|restored: Seq<[[G::Pixel; 8]; 8]>|
        {
            &&& #[trigger] restored.len() == bits.len()
            &&& forall|k: int|
                0 <= k < bits.len() ==> is_restored_block(
                    #[trigger] restored[k],
                    source,
                    configuration,
                    k,
                    bits[k],
                    quality,
                    forward,
                    inverse,
                )
            &&& forall|x: int, y: int|
                0 <= x < source.columns() && 0 <= y < source.rows() ==> #[trigger] stego.pixel_at(
                    x,
                    y,
                ) == embedded_pixel(source, restored, configuration.block_size as nat, x, y)
        }
}

/// What hiding `payload` in `source` yields: the image with the framed
/// payload embedded, or the capacity that is missing.
pub open spec fn is_hiding_outcome<G, F, I>(
    result: Result<G, SteganographyError>,
    source: &G,
    configuration: EmbeddingConfiguration,
    payload: Seq<u8>,
    quality: int,
    forward: F,
    inverse: I,
) -> bool where
    G: PixelGrid,
    F: Fn([[G::Pixel; 8]; 8]) -> [[u32; 8]; 8],
    I: Fn([[G::Pixel; 8]; 8], [[u32; 8]; 8]) -> [[G::Pixel; 8]; 8],
 {
    let required = framed_bits(payload).len();
    let available = grid_capacity(
        source.columns(),
        source.rows(),
        configuration.block_size as nat,
    );
    match result {
        Ok(stego) => required <= available && is_embedding(
            &stego,
            source,
            configuration,
            framed_bits(payload),
            quality,
            forward,
            inverse,
        ),
        Err(error) => required > available && error@ == (Failure::Capacity {
            required,
            available,
        }),
    }
}

impl SteganographyEngine {
    /// Embeds `encrypted_data`, framed into bits, into a copy of
    /// `source_image`: one bit into each block, row by row from the top
    /// left, until the bits are used up. The samples of a block go through
    /// `forward` to become coefficients, the bit is forced into them, and
    /// `inverse` turns the samples and the forced coefficients into the
    /// samples that are written back. Nothing is embedded if the image
    /// offers fewer slots than there are bits.
    pub fn hide_data_in_image<G, F, I>(
        &self,
        source_image: &G,
        encrypted_data: &[u8],
        jpeg_quality: u8,
        forward: F,
        inverse: I,
    ) -> (result: Result<G, SteganographyError>) where
        G: PixelGrid,
        F: Fn([[G::Pixel; 8]; 8]) -> [[u32; 8]; 8],
        I: Fn([[G::Pixel; 8]; 8], [[u32; 8]; 8]) -> [[G::Pixel; 8]; 8],

        requires
            forall|samples: [[G::Pixel; 8]; 8]| call_requires(forward, (samples,)),
            forall|samples: [[G::Pixel; 8]; 8], coefficients: [[u32; 8]; 8]|
                call_requires(inverse, (samples, coefficients)),
        ensures
            is_hiding_outcome(
                result,
                source_image,
                self.settings(),
                encrypted_data@,
                jpeg_quality as int,
                forward,
                inverse,
            ),
            self.settings().is_valid(),
    {
        proof {
            use_type_invariant(self);
            self.lemma_settings();
        }
        let bit_stream = self.convert_data_to_bits_with_header(encrypted_data);
        let available_capacity = self.calculate_capacity(source_image);
        if bit_stream.len() > available_capacity {
            return Err(
                SteganographyError::CapacityError {
                    required: bit_stream.len(),
                    available: available_capacity,
                },
            );
        }
        let quantization_table = self.calculate_quantization_table(jpeg_quality);
        let mut steganographic_image = source_image.duplicate();
        let width = source_image.width();
        let height = source_image.height();
        let block_size = self.configuration.block_size as u64;
        let horizontal_blocks = (width as u64 + block_size - 1) / block_size;
        let ghost across = blocks_across(width as nat, block_size as nat);
        let ghost down = blocks_across(height as nat, block_size as nat);
        let ghost mut restored: Seq<[[G::Pixel; 8]; 8]> = Seq::empty();
        let total = bit_stream.len();
        let mut current_bit_index: usize = 0;
        let mut row: u64 = 0;
        let mut column: u64 = 0;
        assert(0 < total ==> 0 < across) by (nonlinear_arith)
            requires
                total <= across * down,
        ;
        while current_bit_index < total
            invariant
                current_bit_index <= total <= available_capacity,
                total == bit_stream@.len(),
                bit_stream@ == framed_bits(encrypted_data@),
                available_capacity == across * down,
                across == blocks_across(width as nat, block_size as nat),
                down == blocks_across(height as nat, block_size as nat),
                horizontal_blocks == across,
                block_size == self.configuration.block_size,
                1 <= block_size <= 8,
                self.configuration.is_valid(),
                self.settings() == self.configuration,
                width == source_image.columns(),
                height == source_image.rows(),
                is_table_for(quantization_table, jpeg_quality as int),
                steganographic_image.columns() == source_image.columns(),
                steganographic_image.rows() == source_image.rows(),
                current_bit_index == row * across + column,
                current_bit_index < total ==> column < across,
                restored.len() == current_bit_index,
                forall|samples: [[G::Pixel; 8]; 8]| call_requires(forward, (samples,)),
                forall|samples: [[G::Pixel; 8]; 8], coefficients: [[u32; 8]; 8]|
                    call_requires(inverse, (samples, coefficients)),
                forall|k: int|
                    0 <= k < restored.len() ==> is_restored_block(
                        #[trigger] restored[k],
                        source_image,
                        self.configuration,
                        k,
                        bit_stream@[k],
                        jpeg_quality as int,
                        forward,
                        inverse,
                    ),
                forall|x: int, y: int|
                    0 <= x < source_image.columns() && 0 <= y < source_image.rows()
                        ==> #[trigger] steganographic_image.pixel_at(x, y) == embedded_pixel(
                        source_image,
                        restored,
                        block_size as nat,
                        x,
                        y,
                    ),
            decreases total - current_bit_index,
        {
            proof {
                lemma_block_index_splits(
                    current_bit_index as int,
                    across,
                    row as int,
                    column as int,
                );
                lemma_blocks_across(width as nat, block_size as nat, column as int);
                assert(row < down) by (nonlinear_arith)
                    requires
                        row * across + column < across * down,
                        0 <= column,
                        0 <= across,
                ;
                lemma_blocks_across(height as nat, block_size as nat, row as int);
            }
            let block_x = (column * block_size) as u32;
            let block_y = (row * block_size) as u32;
            let samples = self.extract_sample_block(source_image, block_x, block_y);
            let mut coefficients = forward(samples);
            let bit_to_embed = bit_stream[current_bit_index];
            self.embed_bit_robustly(&mut coefficients, bit_to_embed, &quantization_table);
            let block = inverse(samples, coefficients);
            let ghost earlier = steganographic_image;
            self.write_sample_block(&mut steganographic_image, block_x, block_y, &block);
            proof {
                lemma_block_embedded(
                    source_image,
                    &earlier,
                    &steganographic_image,
                    restored,
                    block,
                    block_size as nat,
                    row as int,
                    column as int,
                );
                restored = restored.push(block);
            }
            current_bit_index += 1;
            column += 1;
            if column == horizontal_blocks {
                column = 0;
                row += 1;
                assert((row - 1) * across + across == row * across) by (nonlinear_arith);
            }
        }
        Ok(steganographic_image)
    }
}

/// Writing block `index` over an image that holds the blocks before it
/// yields the image that holds the blocks up to it.
proof fn lemma_block_embedded<G: PixelGrid>(
    source: &G,
    before: &G,
    after: &G,
    restored: Seq<[[G::Pixel; 8]; 8]>,
    block: [[G::Pixel; 8]; 8],
    block_size: nat,
    row: int,
    column: int,
)
    requires
        1 <= block_size <= 8,
        0 <= row,
        0 <= column < blocks_across(source.columns(), block_size),
        restored.len() == row * blocks_across(source.columns(), block_size) + column,
        before.columns() == source.columns(),
        before.rows() == source.rows(),
        forall|x: int, y: int|
            0 <= x < source.columns() && 0 <= y < source.rows() ==> #[trigger] before.pixel_at(x, y)
                == embedded_pixel(source, restored, block_size, x, y),
        is_block_written(before, after, block, block_size, column * block_size, row * block_size),
    ensures
        forall|x: int, y: int|
            0 <= x < source.columns() && 0 <= y < source.rows() ==> #[trigger] after.pixel_at(x, y)
                == embedded_pixel(source, restored.push(block), block_size, x, y),
{
    let longer = restored.push(block);
    assert forall|x: int, y: int|
        0 <= x < source.columns() && 0 <= y < source.rows() implies #[trigger] after.pixel_at(x, y)
        == embedded_pixel(source, longer, block_size, x, y) by {
        lemma_pixel_in_block(x, y, source.columns(), block_size, row, column);
    }
}

} // verus!
