//! Hiding and extraction together: what the integer side of the codec
//! guarantees of a payload that went into an image and is read back.
//!
//! The transforms between samples and coefficients are not part of the
//! library, so the guarantee is stated over any transforms that form a
//! faithful channel for the image and the bits at hand: reading a block
//! that was written back must decide the bit that was forced into it.

use vstd::prelude::*;
use crate::bitstream::{framed_bits, lemma_framed_bits_are_bits, unframing_result};
use crate::block::{decided_bit, is_forced, steps_for};
use crate::configuration::EmbeddingConfiguration;
use crate::error::Failure;
use crate::extraction::{is_extraction, is_reading, lemma_stopping_point_holds_payload};
use crate::grid::{
    block_left, block_reach, block_top, blocks_across, grid_capacity, lemma_blocks_across,
    lemma_pixel_in_block,
};
use crate::hiding::{embedded_pixel, is_embedding, is_restored_block};
use crate::raster::PixelGrid;
use crate::samples::is_block_of;

verus! {

/// `view` is what reading finds where `block` was written: of a block at
/// the right or lower edge of the image only `columns` columns and `rows`
/// rows were written, and the last of them stand in for the rest; cells
/// beyond the block size are blank.
pub open spec fn is_reread<P>(
    view: [[P; 8]; 8],
    block: [[P; 8]; 8],
    block_size: nat,
    columns: int,
    rows: int,
    blank: P,
) -> bool {
    forall|row: int, column: int|
        0 <= row < 8 && 0 <= column < 8 ==> #[trigger] view[row][column] == if row < block_size
            && column < block_size {
            block[if row < rows {
                row
            } else {
                rows - 1
            }][if column < columns {
                column
            } else {
                columns - 1
            }]
        } else {
            blank
        }
}

/// The transforms form a faithful channel for `bits` in `source`: for every
/// block that gets a bit, once the bit is forced into the coefficients of
/// the block's samples and the result is transformed back, written and read
/// again through `reader`, the coefficients read decide that bit.
pub open spec fn is_faithful_channel<G, F, I, R>(
    source: &G,
    configuration: EmbeddingConfiguration,
    bits: Seq<u8>,
    quality: int,
    forward: F,
    inverse: I,
    reader: R,
) -> bool where
    G: PixelGrid,
    F: Fn([[G::Pixel; 8]; 8]) -> [[u32; 8]; 8],
    I: Fn([[G::Pixel; 8]; 8], [[u32; 8]; 8]) -> [[G::Pixel; 8]; 8],
    R: Fn([[G::Pixel; 8]; 8]) -> [[u32; 8]; 8],
 {
    forall|
        index: int,
        samples: [[G::Pixel; 8]; 8],
        coefficients: [[u32; 8]; 8],
        forced: [[u32; 8]; 8],
        restored: [[G::Pixel; 8]; 8],
        view: [[G::Pixel; 8]; 8],
        reading: [[u32; 8]; 8],
    |
        #![trigger is_transmission(
            source,
            configuration,
            index,
            bits[index],
            quality,
            forward,
            inverse,
            reader,
            samples,
            coefficients,
            forced,
            restored,
            view,
            reading,
        )]
        0 <= index < bits.len() && is_transmission(
            source,
            configuration,
            index,
            bits[index],
            quality,
            forward,
            inverse,
            reader,
            samples,
            coefficients,
            forced,
            restored,
            view,
            reading,
        ) ==> decided_bit(reading, configuration.embedding_positions@) == if bits[index] == 1 {
            1u8
        } else {
            0u8
        }
}

/// The values that one bit passes through on its way into block `index` of
/// `source` and out again: the block's `samples`, their `coefficients`, the
/// coefficients with the bit `forced` into them, the `restored` samples that
/// are written, the `view` of them that is read, and the `reading` made of
/// the view.
pub open spec fn is_transmission<G, F, I, R>(
    source: &G,
    configuration: EmbeddingConfiguration,
    index: int,
    bit_value: u8,
    quality: int,
    forward: F,
    inverse: I,
    reader: R,
    samples: [[G::Pixel; 8]; 8],
    coefficients: [[u32; 8]; 8],
    forced: [[u32; 8]; 8],
    restored: [[G::Pixel; 8]; 8],
    view: [[G::Pixel; 8]; 8],
    reading: [[u32; 8]; 8],
) -> bool where
    G: PixelGrid,
    F: Fn([[G::Pixel; 8]; 8]) -> [[u32; 8]; 8],
    I: Fn([[G::Pixel; 8]; 8], [[u32; 8]; 8]) -> [[G::Pixel; 8]; 8],
    R: Fn([[G::Pixel; 8]; 8]) -> [[u32; 8]; 8],
 {
    let block_size = configuration.block_size as nat;
    let left = block_left(index, source.columns(), block_size);
    let top = block_top(index, source.columns(), block_size);
    &&& is_block_of(samples, source, block_size, left, top)
    &&& call_ensures(forward, (samples,), coefficients)
    &&& is_forced(coefficients, forced, configuration, bit_value, steps_for(quality))
    &&& call_ensures(inverse, (samples, forced), restored)
    &&& is_reread(
        view,
        restored,
        block_size,
        block_reach(source.columns(), left, block_size),
        block_reach(source.rows(), top, block_size),
        G::blank_pixel(),
    )
    &&& call_ensures(reader, (view,), reading)
}

/// Block `index` of an image that holds `restored` shows its block as
/// [`is_reread`] describes.
proof fn lemma_block_is_reread<G: PixelGrid>(
    source: &G,
    stego: &G,
    restored: Seq<[[G::Pixel; 8]; 8]>,
    view: [[G::Pixel; 8]; 8],
    block_size: nat,
    index: int,
)
    requires
        1 <= block_size <= 8,
        0 <= index < restored.len(),
        index < grid_capacity(source.columns(), source.rows(), block_size),
        stego.columns() == source.columns(),
        stego.rows() == source.rows(),
        forall|x: int, y: int|
            0 <= x < source.columns() && 0 <= y < source.rows() ==> #[trigger] stego.pixel_at(x, y)
                == embedded_pixel(source, restored, block_size, x, y),
        is_block_of(
            view,
            stego,
            block_size,
            block_left(index, stego.columns(), block_size),
            block_top(index, stego.columns(), block_size),
        ),
    ensures
        is_reread(
            view,
            restored[index],
            block_size,
            block_reach(
                source.columns(),
                block_left(index, source.columns(), block_size),
                block_size,
            ),
            block_reach(source.rows(), block_top(index, source.columns(), block_size), block_size),
            G::blank_pixel(),
        ),
{
    let across = blocks_across(source.columns(), block_size);
    let down = blocks_across(source.rows(), block_size);
    let row_index = index / across as int;
    let column_index = index % across as int;
    vstd::arithmetic::div_mod::lemma_fundamental_div_mod(index, across as int);
    assert(0 <= row_index < down) by (nonlinear_arith)
        requires
            index == row_index * across + column_index,
            0 <= column_index < across,
            0 <= index < across * down,
    ;
    lemma_blocks_across(source.columns(), block_size, column_index);
    lemma_blocks_across(source.rows(), block_size, row_index);
    let left = column_index * block_size;
    let top = row_index * block_size;
    let columns = block_reach(source.columns(), left, block_size);
    let rows = block_reach(source.rows(), top, block_size);
    assert forall|row: int, column: int| 0 <= row < 8 && 0 <= column < 8 implies #[trigger] view[row][column]
        == if row < block_size && column < block_size {
        restored[index][if row < rows {
            row
        } else {
            rows - 1
        }][if column < columns {
            column
        } else {
            columns - 1
        }]
    } else {
        G::blank_pixel()
    } by {
        if row < block_size && column < block_size {
            let x = if left + column < stego.columns() {
                left + column
            } else {
                stego.columns() - 1
            };
            let y = if top + row < stego.rows() {
                top + row
            } else {
                stego.rows() - 1
            };
            lemma_pixel_in_block(x, y, source.columns(), block_size, row_index, column_index);
        }
    }
}

/// What was hidden is what extraction recovers, over a faithful channel;
/// the reading transform may differ from the one that hiding used:
/// if `stego` holds the framed `payload` embedded into `source`, and
/// `collected` holds the bits that extraction reads from `stego`, the bits
/// unframe to `payload`. The payload's length must fit the header, and an
/// expected length must not be less than the payload's.
pub proof fn lemma_extraction_recovers_hidden_payload<G, F, I, R>(
    source: &G,
    stego: &G,
    configuration: EmbeddingConfiguration,
    payload: Seq<u8>,
    quality: int,
    expected: Option<usize>,
    collected: Seq<u8>,
    forward: F,
    inverse: I,
    reader: R,
) where
    G: PixelGrid,
    F: Fn([[G::Pixel; 8]; 8]) -> [[u32; 8]; 8],
    I: Fn([[G::Pixel; 8]; 8], [[u32; 8]; 8]) -> [[G::Pixel; 8]; 8],
    R: Fn([[G::Pixel; 8]; 8]) -> [[u32; 8]; 8],

    requires
        configuration.is_valid(),
        payload.len() < 0x1_0000_0000,
        framed_bits(payload).len() <= grid_capacity(
            source.columns(),
            source.rows(),
            configuration.block_size as nat,
        ),
        is_embedding(stego, source, configuration, framed_bits(payload), quality, forward, inverse),
        is_extraction(collected, stego, configuration, expected, reader),
        is_faithful_channel(
            source,
            configuration,
            framed_bits(payload),
            quality,
            forward,
            inverse,
            reader,
        ),
        expected matches Some(length) ==> length >= payload.len(),
    ensures
        unframing_result(collected) == Ok::<Seq<u8>, Failure>(payload),
{
    let block_size = configuration.block_size as nat;
    let bits = framed_bits(payload);
    let capacity = grid_capacity(source.columns(), source.rows(), block_size);
    lemma_framed_bits_are_bits(payload);
    let restored = choose|restored: Seq<[[G::Pixel; 8]; 8]>|
        {
            &&& #[trigger] restored.len() == bits.len()
            &&& forall|k: int|
                0 <= k < bits.len() ==> is_restored_block(
                    #[trigger] restored[k],
                    source,
                    configuration,
                    k,
                    bits[k],
                    quality,
                    forward,
                    inverse,
                )
            &&& forall|x: int, y: int|
                0 <= x < source.columns() && 0 <= y < source.rows() ==> #[trigger] stego.pixel_at(
                    x,
                    y,
                ) == embedded_pixel(source, restored, block_size, x, y)
        };
    let readings = choose|readings: Seq<[[u32; 8]; 8]>|
        {
            &&& #[trigger] readings.len() == collected.len()
            &&& forall|k: int|
                0 <= k < readings.len() ==> {
                    &&& is_reading(#[trigger] readings[k], stego, configuration, k, reader)
                    &&& collected[k] == decided_bit(readings[k], configuration.embedding_positions@)
                }
        };
    assert forall|k: int| 0 <= k < collected.len() && k < bits.len() implies collected[k]
        == bits[k] by {
        let view = choose|view: [[G::Pixel; 8]; 8]|
            {
                &&& is_block_of(
                    view,
                    stego,
                    block_size,
                    block_left(k, stego.columns(), block_size),
                    block_top(k, stego.columns(), block_size),
                )
                &&& #[trigger] call_ensures(reader, (view,), readings[k])
            };
        let (samples, coefficients, forced) = choose|
            samples: [[G::Pixel; 8]; 8],
            coefficients: [[u32; 8]; 8],
            forced: [[u32; 8]; 8],
        |
            #![trigger call_ensures(forward, (samples,), coefficients), call_ensures(inverse, (samples, forced), restored[k])]
            {
                &&& is_block_of(
                    samples,
                    source,
                    block_size,
                    block_left(k, source.columns(), block_size),
                    block_top(k, source.columns(), block_size),
                )
                &&& call_ensures(forward, (samples,), coefficients)
                &&& is_forced(coefficients, forced, configuration, bits[k], steps_for(quality))
                &&& call_ensures(inverse, (samples, forced), restored[k])
            };
        lemma_block_is_reread(source, stego, restored, view, block_size, k);
        assert(is_transmission(
            source,
            configuration,
            k,
            bits[k],
            quality,
            forward,
            inverse,
            reader,
            samples,
            coefficients,
            forced,
            restored[k],
            view,
            readings[k],
        ));
    }
    lemma_stopping_point_holds_payload(payload, collected, expected, capacity);
}

} // verus!
