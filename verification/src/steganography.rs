//! The embedding engine: frames a payload into bits, lays the bits over the
//! grid of 8×8 blocks of an image, forces each bit into a few transform
//! coefficients of its block, and reads it back by a vote.
//!
//! The work on one block lives in [`crate::block`] and [`crate::samples`],
//! the work on a whole image in [`crate::hiding`] and
//! [`crate::extraction`].

use vstd::prelude::*;
use vstd::arithmetic::div_mod::lemma_fundamental_div_mod_converse;
use vstd::string::StringExecFns;
use crate::bitstream::{
    byte_bits, framed_bits, framed_length, gathered_u32, gathered_u8, header_bit,
    lemma_gathered_u32_push, lemma_gathered_u8_push, unframed_payload, unframing_result,
};
use crate::configuration::default_positions;
use crate::error::{outcome, SteganographyError};
use crate::extraction::is_extraction_outcome;
use crate::grid::grid_capacity;
use crate::hiding::is_hiding_outcome;
use crate::jpeg::{encode_rgb_samples, encoding_error_text, jpeg_rgb_bytes};
use crate::quantization::{
    compute_step, effective_quality, is_table_for, quantization_step,
    JPEG_LUMINANCE_QUANTIZATION_TABLE,
};
use crate::raster::{GrayImage, PixelGrid, RgbImage, RgbPixel};
use crate::text::decimal_text;

pub use crate::configuration::EmbeddingConfiguration;

verus! {

/// The three samples of a colour pixel, red first.
pub open spec fn rgb_channel(pixel: RgbPixel, channel: int) -> u8 {
    if channel == 0 {
        pixel.red
    } else if channel == 1 {
        pixel.green
    } else {
        pixel.blue
    }
}

/// The samples of a colour image: three per pixel, rows from the top, each
/// from left to right.
pub open spec fn rgb_samples_of(image: &RgbImage) -> Seq<u8> {
    Seq::new(
        3 * image.columns() * image.rows(),
        |i: int|
            rgb_channel(
                image.pixel_at((i / 3) % image.columns() as int, (i / 3) / image.columns() as int),
                i % 3,
            ),
    )
}

/// The samples of a single-channel image written as colour: each pixel
/// three times, rows from the top, each from left to right.
pub open spec fn gray_samples_of(image: &GrayImage) -> Seq<u8> {
    Seq::new(
        3 * image.columns() * image.rows(),
        |i: int| image.pixel_at((i / 3) % image.columns() as int, (i / 3) / image.columns() as int),
    )
}

/// What encoding `samples` of an image `columns` wide and `rows` high as
/// JPEG yields. Both sizes are cut to their low sixteen bits first; if
/// either is then zero, the encoder refuses.
pub open spec fn is_jpeg_outcome(
    result: Result<Vec<u8>, SteganographyError>,
    samples: Seq<u8>,
    columns: nat,
    rows: nat,
    quality: u8,
) -> bool {
    let width = (columns % 0x1_0000) as u16;
    let height = (rows % 0x1_0000) as u16;
    match result {
        Ok(bytes) => width > 0 && height > 0 && bytes@ == jpeg_rgb_bytes(
            samples,
            width,
            height,
            quality,
        ),
        Err(error) => (width == 0 || height == 0) && error is ImageError,
    }
}

/// Hides payloads in images and recovers them.
pub struct SteganographyEngine {
    pub(crate) configuration: EmbeddingConfiguration,
}

impl SteganographyEngine {
    #[verifier::type_invariant]
    pub(crate) closed spec fn well_formed(&self) -> bool {
        self.configuration.is_valid()
    }

    /// The configuration that the engine was made with.
    pub closed spec fn settings(&self) -> EmbeddingConfiguration {
        self.configuration
    }

    /// What the spec functions of the engine stand for.
    pub(crate) proof fn lemma_settings(&self)
        ensures
            self.settings() == self.configuration,
            self.well_formed() == self.configuration.is_valid(),
    {
    }

    /// An engine with the default configuration.
    pub fn new() -> (engine: Self)
        ensures
            engine.settings().block_size == 8,
            engine.settings().embedding_positions@ == default_positions(),
            engine.settings().embedding_strength == 25,
            engine.settings().minimum_quantization_step == 4,
    {
        Self { configuration: EmbeddingConfiguration::default() }
    }

    /// An engine with the given configuration.
    pub fn with_configuration(configuration: EmbeddingConfiguration) -> (engine: Self)
        requires
            configuration.is_valid(),
        ensures
            engine.settings() == configuration,
    {
        Self { configuration }
    }

    /// Frames `data` into bits: its length in 32 bits, then its bytes, all
    /// most significant bit first.
    pub fn convert_data_to_bits_with_header(&self, data: &[u8]) -> (bit_stream: Vec<u8>)
        ensures
            bit_stream@ == framed_bits(data@),
    {
        let length = data.len();
        let data_length: u32 = (length as u64 % 0x1_0000_0000) as u32;
        let mut bit_stream: Vec<u8> = Vec::new();
        let mut position: u32 = 0;
        while position < 32
            invariant
                position <= 32,
                data_length == (length as nat % 0x1_0000_0000) as u32,
                bit_stream@.len() == position,
                forall|k: int| 0 <= k < position ==> bit_stream@[k] == header_bit(length as nat, k),
            decreases 32 - position,
        {
            let shift = 31 - position;
            let bit = (data_length >> shift) & 1;
            bit_stream.push(bit as u8);
            position += 1;
        }
        let mut index: usize = 0;
        while index < length
            invariant
                index <= length,
                length == data@.len(),
                bit_stream@.len() == 32 + 8 * index,
                forall|k: int|
                    0 <= k < bit_stream@.len() ==> bit_stream@[k] == framed_bits(data@)[k],
            decreases length - index,
        {
            let data_byte = data[index];
            let mut position: u8 = 0;
            while position < 8
                invariant
                    position <= 8,
                    index < length,
                    length == data@.len(),
                    data_byte == data@[index as int],
                    bit_stream@.len() == 32 + 8 * index + position,
                    forall|k: int|
                        0 <= k < bit_stream@.len() ==> bit_stream@[k] == framed_bits(data@)[k],
                decreases 8 - position,
            {
                let shift = 7 - position;
                let bit = (data_byte >> shift) & 1;
                bit_stream.push(bit);
                position += 1;
            }
            index += 1;
        }
        bit_stream
    }

    /// Recovers the payload from its frame; bits behind the payload are
    /// ignored. The entries of `bit_stream` are meant to be 0 or 1; any
    /// other entry is shifted in with all its bits.
    pub fn convert_bits_to_data_with_header(
        &self,
        bit_stream: &[u8],
    ) -> (result: Result<Vec<u8>, SteganographyError>)
        ensures
            outcome(result) == unframing_result(bit_stream@),
    {
        let total = bit_stream.len();
        if total < 32 {
            return Err(
                SteganographyError::InvalidInput(
                    String::from_str("Not enough bits for length header"),
                ),
            );
        }
        let data_length = read_header(bit_stream);
        let available = total - 32;
        let expected: u64 = data_length as u64 * 8;
        if (available as u64) < expected {
            let mut message = String::from_str("Not enough data bits. Expected ");
            let expected_text = decimal_text(expected as u128);
            message.append(expected_text.as_str());
            message.append(", got ");
            let available_text = decimal_text(available as u128);
            message.append(available_text.as_str());
            return Err(SteganographyError::InvalidInput(message));
        }
        let count = data_length as usize;
        let mut recovered_data: Vec<u8> = Vec::new();
        let mut index: usize = 0;
        while index < count
            invariant
                index <= count,
                count == framed_length(bit_stream@),
                total == bit_stream@.len(),
                32 + 8 * count <= total,
                recovered_data@.len() == index,
                forall|i: int|
                    0 <= i < index ==> recovered_data@[i] == gathered_u8(byte_bits(bit_stream@, i)),
            decreases count - index,
        {
            let start = 32 + 8 * index;
            let ghost group = byte_bits(bit_stream@, index as int);
            let mut byte_value: u8 = 0;
            let mut position: usize = 0;
            while position < 8
                invariant
                    position <= 8,
                    start == 32 + 8 * index,
                    start + 8 <= total,
                    total == bit_stream@.len(),
                    group == byte_bits(bit_stream@, index as int),
                    byte_value == gathered_u8(group.take(position as int)),
                decreases 8 - position,
            {
                let bit = bit_stream[start + position];
                proof {
                    assert(group.take(position + 1) =~= group.take(position as int).push(bit));
                    lemma_gathered_u8_push(group.take(position as int), bit);
                }
                byte_value = (byte_value << 1) | bit;
                position += 1;
            }
            assert(group.take(8) =~= group);
            recovered_data.push(byte_value);
            index += 1;
        }
        assert(recovered_data@ =~= unframed_payload(bit_stream@));
        Ok(recovered_data)
    }

    /// The table of quantisation steps for `jpeg_quality`, which is brought
    /// into the range from 1 to 100 first.
    pub fn calculate_quantization_table(&self, jpeg_quality: u8) -> (table: [[u8; 8]; 8])
        ensures
            is_table_for(table, jpeg_quality as int),
    {
        let quality: u8 = if jpeg_quality < 1 {
            1
        } else if jpeg_quality > 100 {
            100
        } else {
            jpeg_quality
        };
        let mut table = [[0u8; 8]; 8];
        let mut row: usize = 0;
        while row < 8
            invariant
                row <= 8,
                1 <= quality <= 100,
                quality == effective_quality(jpeg_quality as int),
                forall|r: int, c: int|
                    0 <= r < row && 0 <= c < 8 ==> #[trigger] table[r][c] == quantization_step(
                        jpeg_quality as int,
                        r,
                        c,
                    ),
            decreases 8 - row,
        {
            let mut line = [0u8; 8];
            let mut column: usize = 0;
            while column < 8
                invariant
                    row < 8,
                    column <= 8,
                    1 <= quality <= 100,
                    quality == effective_quality(jpeg_quality as int),
                    forall|c: int|
                        0 <= c < column ==> #[trigger] line[c] == quantization_step(
                            jpeg_quality as int,
                            row as int,
                            c,
                        ),
                decreases 8 - column,
            {
                let base = JPEG_LUMINANCE_QUANTIZATION_TABLE[row][column];
                line[column] = compute_step(base, quality);
                column += 1;
            }
            table[row] = line;
            row += 1;
        }
        table
    }

    /// The number of one-bit slots that `grid` offers.
    pub fn calculate_capacity<G: PixelGrid>(&self, grid: &G) -> (capacity: usize)
        ensures
            capacity == grid_capacity(
                grid.columns(),
                grid.rows(),
                self.settings().block_size as nat,
            ),
    {
        proof {
            use_type_invariant(self);
        }
        let width = grid.width();
        let height = grid.height();
        let block_size = self.configuration.block_size as u64;
        let horizontal_blocks = (width as u64 + block_size - 1) / block_size;
        let vertical_blocks = (height as u64 + block_size - 1) / block_size;
        assert(horizontal_blocks <= width && vertical_blocks <= height) by (nonlinear_arith)
            requires
                1 <= block_size <= 8,
                horizontal_blocks == (width + block_size - 1) / (block_size as int),
                vertical_blocks == (height + block_size - 1) / (block_size as int),
        ;
        assert(horizontal_blocks * vertical_blocks <= width * height) by (nonlinear_arith)
            requires
                horizontal_blocks <= width,
                vertical_blocks <= height,
        ;
        (horizontal_blocks * vertical_blocks) as usize
    }

    /// The number of one-bit slots that a colour image offers.
    pub fn calculate_capacity_bits(&self, rgb_image: &RgbImage) -> (capacity: usize)
        ensures
            capacity == grid_capacity(
                rgb_image.columns(),
                rgb_image.rows(),
                self.settings().block_size as nat,
            ),
    {
        self.calculate_capacity(rgb_image)
    }

    /// The number of one-bit slots that a single-channel image offers.
    pub fn calculate_grayscale_capacity_bits(
        &self,
        grayscale_image: &GrayImage,
    ) -> (capacity: usize)
        ensures
            capacity == grid_capacity(
                grayscale_image.columns(),
                grayscale_image.rows(),
                self.settings().block_size as nat,
            ),
    {
        self.calculate_capacity(grayscale_image)
    }

    /// Embeds `encrypted_data` into a copy of a colour image; see
    /// [`Self::hide_data_in_image`].
    pub fn hide_data_in_rgb_image<F, I>(
        &self,
        source_image: &RgbImage,
        encrypted_data: &[u8],
        jpeg_quality: u8,
        forward: F,
        inverse: I,
    ) -> (result: Result<RgbImage, SteganographyError>) where
        F: Fn([[RgbPixel; 8]; 8]) -> [[u32; 8]; 8],
        I: Fn([[RgbPixel; 8]; 8], [[u32; 8]; 8]) -> [[RgbPixel; 8]; 8],

        requires
            forall|samples: [[RgbPixel; 8]; 8]| call_requires(forward, (samples,)),
            forall|samples: [[RgbPixel; 8]; 8], coefficients: [[u32; 8]; 8]|
                call_requires(inverse, (samples, coefficients)),
        ensures
            is_hiding_outcome(
                result,
                source_image,
                self.settings(),
                encrypted_data@,
                jpeg_quality as int,
                forward,
                inverse,
            ),
            self.settings().is_valid(),
    {
        self.hide_data_in_image(source_image, encrypted_data, jpeg_quality, forward, inverse)
    }

    /// Reads the payload back from a colour image; see
    /// [`Self::extract_data_from_image`].
    pub fn extract_data_from_rgb_image<F>(
        &self,
        steganographic_image: &RgbImage,
        expected_data_length: Option<usize>,
        forward: F,
    ) -> (result: Result<Vec<u8>, SteganographyError>) where
        F: Fn([[RgbPixel; 8]; 8]) -> [[u32; 8]; 8],

        requires
            forall|samples: [[RgbPixel; 8]; 8]| call_requires(forward, (samples,)),
        ensures
            is_extraction_outcome(
                result,
                steganographic_image,
                self.settings(),
                expected_data_length,
                forward,
            ),
            self.settings().is_valid(),
    {
        self.extract_data_from_image(steganographic_image, expected_data_length, forward)
    }

    /// Embeds `encrypted_data` into a copy of a single-channel image; see
    /// [`Self::hide_data_in_image`].
    pub fn hide_data_in_grayscale_image<F, I>(
        &self,
        source_image: &GrayImage,
        encrypted_data: &[u8],
        jpeg_quality: u8,
        forward: F,
        inverse: I,
    ) -> (result: Result<GrayImage, SteganographyError>) where
        F: Fn([[u8; 8]; 8]) -> [[u32; 8]; 8],
        I: Fn([[u8; 8]; 8], [[u32; 8]; 8]) -> [[u8; 8]; 8],

        requires
            forall|samples: [[u8; 8]; 8]| call_requires(forward, (samples,)),
            forall|samples: [[u8; 8]; 8], coefficients: [[u32; 8]; 8]|
                call_requires(inverse, (samples, coefficients)),
        ensures
            is_hiding_outcome(
                result,
                source_image,
                self.settings(),
                encrypted_data@,
                jpeg_quality as int,
                forward,
                inverse,
            ),
            self.settings().is_valid(),
    {
        self.hide_data_in_image(source_image, encrypted_data, jpeg_quality, forward, inverse)
    }

    /// Reads the payload back from a single-channel image; see
    /// [`Self::extract_data_from_image`].
    pub fn extract_data_from_grayscale_image<F>(
        &self,
        steganographic_image: &GrayImage,
        expected_data_length: Option<usize>,
        forward: F,
    ) -> (result: Result<Vec<u8>, SteganographyError>) where
        F: Fn([[u8; 8]; 8]) -> [[u32; 8]; 8],

        requires
            forall|samples: [[u8; 8]; 8]| call_requires(forward, (samples,)),
        ensures
            is_extraction_outcome(
                result,
                steganographic_image,
                self.settings(),
                expected_data_length,
                forward,
            ),
            self.settings().is_valid(),
    {
        self.extract_data_from_image(steganographic_image, expected_data_length, forward)
    }

    /// The JPEG byte stream of a colour image at `jpeg_quality`.
    pub fn encode_rgb_image_as_jpeg(
        &self,
        rgb_image: &RgbImage,
        jpeg_quality: u8,
    ) -> (result: Result<Vec<u8>, SteganographyError>)
        ensures
            is_jpeg_outcome(
                result,
                rgb_samples_of(rgb_image),
                rgb_image.columns(),
                rgb_image.rows(),
                jpeg_quality,
            ),
    {
        let width = rgb_image.width();
        let height = rgb_image.height();
        let mut rgb_data: Vec<u8> = Vec::new();
        let mut y: u32 = 0;
        while y < height
            invariant
                y <= height,
                width == rgb_image.columns(),
                height == rgb_image.rows(),
                rgb_data@.len() == 3 * (y * width),
                forall|i: int|
                    0 <= i < rgb_data@.len() ==> rgb_data@[i] == rgb_samples_of(rgb_image)[i],
            decreases height - y,
        {
            let mut x: u32 = 0;
            while x < width
                invariant
                    x <= width,
                    y < height,
                    width == rgb_image.columns(),
                    height == rgb_image.rows(),
                    rgb_data@.len() == 3 * (y * width + x),
                    forall|i: int|
                        0 <= i < rgb_data@.len() ==> rgb_data@[i] == rgb_samples_of(rgb_image)[i],
                decreases width - x,
            {
                let pixel = rgb_image.get_pixel(x, y);
                proof {
                    lemma_sample_position(width as nat, height as nat, x as int, y as int);
                }
                rgb_data.push(pixel.red);
                rgb_data.push(pixel.green);
                rgb_data.push(pixel.blue);
                x += 1;
            }
            assert(y * width + width == (y + 1) * width) by (nonlinear_arith);
            y += 1;
        }
        assert(3 * (height * width) == 3 * width * height) by (nonlinear_arith);
        assert(rgb_data@ =~= rgb_samples_of(rgb_image));
        encode_samples_as_jpeg(&rgb_data, width, height, jpeg_quality)
    }

    /// The JPEG byte stream of a single-channel image at `jpeg_quality`,
    /// written as a colour image with three equal channels.
    pub fn encode_grayscale_image_as_jpeg(
        &self,
        grayscale_image: &GrayImage,
        jpeg_quality: u8,
    ) -> (result: Result<Vec<u8>, SteganographyError>)
        ensures
            is_jpeg_outcome(
                result,
                gray_samples_of(grayscale_image),
                grayscale_image.columns(),
                grayscale_image.rows(),
                jpeg_quality,
            ),
    {
        let width = grayscale_image.width();
        let height = grayscale_image.height();
        let mut rgb_data: Vec<u8> = Vec::new();
        let mut y: u32 = 0;
        while y < height
            invariant
                y <= height,
                width == grayscale_image.columns(),
                height == grayscale_image.rows(),
                rgb_data@.len() == 3 * (y * width),
                forall|i: int|
                    0 <= i < rgb_data@.len() ==> rgb_data@[i] == gray_samples_of(
                        grayscale_image,
                    )[i],
            decreases height - y,
        {
            let mut x: u32 = 0;
            while x < width
                invariant
                    x <= width,
                    y < height,
                    width == grayscale_image.columns(),
                    height == grayscale_image.rows(),
                    rgb_data@.len() == 3 * (y * width + x),
                    forall|i: int|
                        0 <= i < rgb_data@.len() ==> rgb_data@[i] == gray_samples_of(
                            grayscale_image,
                        )[i],
                decreases width - x,
            {
                let pixel = grayscale_image.get_pixel(x, y);
                proof {
                    lemma_sample_position(width as nat, height as nat, x as int, y as int);
                }
                rgb_data.push(pixel);
                rgb_data.push(pixel);
                rgb_data.push(pixel);
                x += 1;
            }
            assert(y * width + width == (y + 1) * width) by (nonlinear_arith);
            y += 1;
        }
        assert(3 * (height * width) == 3 * width * height) by (nonlinear_arith);
        assert(rgb_data@ =~= gray_samples_of(grayscale_image));
        encode_samples_as_jpeg(&rgb_data, width, height, jpeg_quality)
    }
}

impl Default for SteganographyEngine {
    /// An engine with the default configuration.
    fn default() -> (engine: Self)
        ensures
            engine.settings().block_size == 8,
            engine.settings().embedding_positions@ == default_positions(),
            engine.settings().embedding_strength == 25,
            engine.settings().minimum_quantization_step == 4,
    {
        Self::new()
    }
}

/// The three samples of the pixel in column `x` of row `y` stand at
/// `3 * (y * columns + x)` and lie inside the sample sequence.
proof fn lemma_sample_position(columns: nat, rows: nat, x: int, y: int)
    requires
        0 <= x < columns,
        0 <= y < rows,
    ensures
        (y * columns + x) % columns as int == x,
        (y * columns + x) / columns as int == y,
        3 * (y * columns + x) + 3 <= 3 * columns * rows,
        0 <= y * columns + x,
{
    lemma_fundamental_div_mod_converse(y * columns + x, columns as int, y, x);
    assert(3 * (y * columns + x) + 3 <= 3 * columns * rows && 0 <= y * columns + x)
        by (nonlinear_arith)
        requires
            0 <= x < columns,
            0 <= y < rows,
    ;
}

/// Encodes sample triples as JPEG. The sizes are cut to sixteen bits, as
/// the encoder takes them.
fn encode_samples_as_jpeg(
    rgb_data: &Vec<u8>,
    width: u32,
    height: u32,
    jpeg_quality: u8,
) -> (result: Result<Vec<u8>, SteganographyError>)
    requires
        rgb_data@.len() == 3 * width * height,
    ensures
        is_jpeg_outcome(result, rgb_data@, width as nat, height as nat, jpeg_quality),
{
    let short_width = (width % 0x1_0000) as u16;
    let short_height = (height % 0x1_0000) as u16;
    assert(3 * short_width * short_height <= 3 * width * height) by (nonlinear_arith)
        requires
            short_width <= width,
            short_height <= height,
    ;
    match encode_rgb_samples(rgb_data, short_width, short_height, jpeg_quality) {
        Ok(jpeg_buffer) => Ok(jpeg_buffer),
        Err(error) => Err(SteganographyError::ImageError(encoding_error_text(&error))),
    }
}

/// Gathers the 32 header bits at the front of `bit_stream`.
pub(crate) fn read_header(bit_stream: &[u8]) -> (data_length: u32)
    requires
        bit_stream@.len() >= 32,
    ensures
        data_length == framed_length(bit_stream@),
{
    let ghost header = bit_stream@.take(32);
    let mut data_length: u32 = 0;
    let mut index: usize = 0;
    while index < 32
        invariant
            index <= 32,
            bit_stream@.len() >= 32,
            header == bit_stream@.take(32),
            data_length == gathered_u32(header.take(index as int)),
        decreases 32 - index,
    {
        let bit = bit_stream[index];
        proof {
            assert(header.take(index + 1) =~= header.take(index as int).push(bit));
            lemma_gathered_u32_push(header.take(index as int), bit);
        }
        data_length = (data_length << 1) | (bit as u32);
        index += 1;
    }
    assert(header.take(32) =~= header);
    data_length
}

} // verus!
