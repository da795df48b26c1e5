//! The commands of the tool and the decisions that depend on nothing but
//! their arguments: whether a quality is acceptable, what the output file is
//! called and in which format it is written, and what the demonstration
//! image looks like.

use vstd::prelude::*;
use vstd::string::{StrSliceExecFns, StringExecFns};
use crate::crypto::CryptographicEngine;
use crate::error::{Failure, SteganographyError};
use crate::raster::{rgb_sample_pixel, PixelGrid, RgbImage, RgbPixel};
use crate::configuration::default_positions;
use crate::steganography::SteganographyEngine;

verus! {

/// Side of the demonstration image in pixels.
pub const DEMONSTRATION_IMAGE_SIZE: u32 = 512;

/// What the tool is asked to do.
#[derive(Debug)]
pub struct CommandLineInterface {
    pub command: SteganographyCommand,
}

/// The commands of the tool.
#[derive(Debug)]
pub enum SteganographyCommand {
    /// Hide encrypted data in an image.
    Hide {
        /// Path of the image to hide data in.
        input: String,
        /// Path of the image to write, with or without extension.
        output: String,
        /// The secret to hide.
        data: String,
        /// Path of the key file; a key is generated if there is none.
        key_file: Option<String>,
        /// Quality of the written image, from 1 to 100.
        quality: u8,
    },
    /// Extract and decrypt data from an image.
    Extract {
        /// Path of the image that holds the data.
        input: String,
        /// Path of the key file, or the key as base64.
        key: String,
        /// The number of bytes expected, if known.
        length: Option<usize>,
    },
    /// Run a demonstration on a generated image.
    Demo,
}

/// The format an image is written in.
#[derive(Debug, Clone, Copy, PartialEq, Eq, Structural)]
pub enum OutputFormat {
    /// Lossless, for testing.
    Png,
    /// Lossy, at the requested quality.
    Jpeg,
}

/// `text` ends with `suffix`.
pub open spec fn has_suffix(text: Seq<char>, suffix: Seq<char>) -> bool {
    text.len() >= suffix.len() && text.skip(text.len() - suffix.len()) == suffix
}

/// The tool can carry the command out as far as its arguments tell: a
/// request to hide data names a quality from 1 to 100.
pub open spec fn is_acceptable(command: SteganographyCommand) -> bool {
    command matches SteganographyCommand::Hide { quality, .. } ==> 1 <= quality <= 100
}

/// The message for a quality outside the accepted range.
pub open spec fn quality_message() -> Seq<char> {
    "JPEG quality must be between 1 and 100"@
}

/// The name of the output file: `output_path` itself if it names a JPEG
/// file, else with `.png` added at quality 100 and `.jpg` below.
pub open spec fn output_file_name(output_path: Seq<char>, jpeg_quality: u8) -> Seq<char> {
    if has_suffix(output_path, ".jpg"@) || has_suffix(output_path, ".jpeg"@) {
        output_path
    } else if jpeg_quality == 100 {
        output_path + ".png"@
    } else {
        output_path + ".jpg"@
    }
}

/// The format of the output file: lossless only at quality 100 for a file
/// named `.png`.
pub open spec fn output_format_of(output_path: Seq<char>, jpeg_quality: u8) -> OutputFormat {
    if jpeg_quality == 100 && has_suffix(output_path, ".png"@) {
        OutputFormat::Png
    } else {
        OutputFormat::Jpeg
    }
}

/// The pixel of the demonstration image in column `x` of row `y`: red grows
/// to the right, green downwards and blue along the diagonal.
pub open spec fn demonstration_pixel(x: int, y: int) -> RgbPixel {
    RgbPixel {
        red: (x * 255 / 512) as u8,
        green: (y * 255 / 512) as u8,
        blue: ((x + y) * 255 / 1024) as u8,
    }
}

/// Whether `text` ends with `suffix`.
pub fn ends_with(text: &str, suffix: &str) -> (found: bool)
    ensures
        found == has_suffix(text@, suffix@),
{
    let length = text.unicode_len();
    let tail = suffix.unicode_len();
    if length < tail {
        return false;
    }
    let start = length - tail;
    let mut index: usize = 0;
    while index < tail
        invariant
            index <= tail,
            length == text@.len(),
            tail == suffix@.len(),
            start == length - tail,
            forall|i: int| 0 <= i < index ==> text@[start + i] == suffix@[i],
        decreases tail - index,
    {
        if text.get_char(start + index) != suffix.get_char(index) {
            return false;
        }
        index += 1;
    }
    assert(text@.skip(start as int) =~= suffix@);
    true
}

/// Guides the tool through its commands.
pub struct CommandLineHandler {
    pub steganography_engine: SteganographyEngine,
    pub cryptographic_engine: CryptographicEngine,
}

impl CommandLineHandler {
    /// A handler with default engines.
    pub fn new() -> (handler: Self)
        ensures
            handler.steganography_engine.settings().block_size == 8,
            handler.steganography_engine.settings().embedding_positions@ == default_positions(),
            handler.steganography_engine.settings().embedding_strength == 25,
            handler.steganography_engine.settings().minimum_quantization_step == 4,
            handler.cryptographic_engine.factor() == 5,
    {
        Self {
            steganography_engine: SteganographyEngine::new(),
            cryptographic_engine: CryptographicEngine::new(),
        }
    }

    /// Accepts a quality from 1 to 100 and rejects any other.
    pub fn validate_quality(&self, jpeg_quality: u8) -> (result: Result<(), SteganographyError>)
        ensures
            1 <= jpeg_quality <= 100 ==> result is Ok,
            !(1 <= jpeg_quality <= 100) ==> (result matches Err(error) && error@
                == Failure::InvalidInput(quality_message())),
    {
        if jpeg_quality < 1 || jpeg_quality > 100 {
            return Err(
                SteganographyError::InvalidInput(
                    String::from_str("JPEG quality must be between 1 and 100"),
                ),
            );
        }
        Ok(())
    }

    /// Accepts a command that the tool can carry out, and rejects one that
    /// asks to hide data at a quality outside the range from 1 to 100.
    pub fn validate_command(
        &self,
        command: &SteganographyCommand,
    ) -> (result: Result<(), SteganographyError>)
        ensures
            is_acceptable(*command) ==> result is Ok,
            !is_acceptable(*command) ==> (result matches Err(error) && error@
                == Failure::InvalidInput(quality_message())),
    {
        match command {
            SteganographyCommand::Hide { quality, .. } => self.validate_quality(*quality),
            _ => Ok(()),
        }
    }

    /// The name of the file that the image is written to.
    pub fn get_output_file_path(&self, output_path: &str, jpeg_quality: u8) -> (path: String)
        ensures
            path@ == output_file_name(output_path@, jpeg_quality),
    {
        if ends_with(output_path, ".jpg") || ends_with(output_path, ".jpeg") {
            String::from_str(output_path)
        } else if jpeg_quality == 100 {
            let mut path = String::from_str(output_path);
            path.append(".png");
            path
        } else {
            let mut path = String::from_str(output_path);
            path.append(".jpg");
            path
        }
    }

    /// The format that the image is written in.
    pub fn output_format(&self, output_path: &str, jpeg_quality: u8) -> (format: OutputFormat)
        ensures
            format == output_format_of(output_path@, jpeg_quality),
    {
        if jpeg_quality == 100 && ends_with(output_path, ".png") {
            OutputFormat::Png
        } else {
            OutputFormat::Jpeg
        }
    }

    /// The name of the key file that goes with an output path when none is
    /// given.
    pub fn default_key_path(&self, output_path: &str) -> (path: String)
        ensures
            path@ == output_path@ + ".key"@,
    {
        let mut path = String::from_str(output_path);
        path.append(".key");
        path
    }

    /// The colourful image that the demonstration hides its message in.
    pub fn create_demonstration_image(&self) -> (image: RgbImage)
        ensures
            image.columns() == DEMONSTRATION_IMAGE_SIZE,
            image.rows() == DEMONSTRATION_IMAGE_SIZE,
            forall|x: int, y: int|
                0 <= x < 512 && 0 <= y < 512 ==> #[trigger] image.pixel_at(x, y)
                    == demonstration_pixel(x, y),
    {
        let mut samples: Vec<u8> = Vec::new();
        let mut y: u32 = 0;
        while y < 512
            invariant
                y <= 512,
                samples@.len() == 3 * (y * 512),
                forall|u: int, v: int|
                    0 <= u < 512 && 0 <= v < y ==> #[trigger] rgb_sample_pixel(samples@, 512, u, v)
                        == demonstration_pixel(u, v),
            decreases 512 - y,
        {
            let mut x: u32 = 0;
            while x < 512
                invariant
                    x <= 512,
                    y < 512,
                    samples@.len() == 3 * (y * 512 + x),
                    forall|u: int, v: int|
                        0 <= u < 512 && (0 <= v < y || (v == y && u < x))
                            ==> #[trigger] rgb_sample_pixel(samples@, 512, u, v)
                            == demonstration_pixel(u, v),
                decreases 512 - x,
            {
                let red_component = (x * 255 / 512) as u8;
                let green_component = (y * 255 / 512) as u8;
                let blue_component = ((x + y) * 255 / 1024) as u8;
                let ghost earlier = samples@;
                samples.push(red_component);
                samples.push(green_component);
                samples.push(blue_component);
                proof {
                    assert forall|u: int, v: int|
                        0 <= u < 512 && (0 <= v < y || (v == y && u < x + 1)) implies #[trigger] rgb_sample_pixel(
                        samples@,
                        512,
                        u,
                        v,
                    ) == demonstration_pixel(u, v) by {
                        if v != y || u != x {
                            assert(rgb_sample_pixel(earlier, 512, u, v) == demonstration_pixel(
                                u,
                                v,
                            ));
                        }
                    }
                }
                x += 1;
            }
            y += 1;
        }
        RgbImage::from_raw(512, 512, samples).unwrap()
    }
}

impl Default for CommandLineHandler {
    /// A handler with default engines.
    fn default() -> (handler: Self)
        ensures
            handler.steganography_engine.settings().block_size == 8,
            handler.steganography_engine.settings().embedding_positions@ == default_positions(),
            handler.steganography_engine.settings().embedding_strength == 25,
            handler.steganography_engine.settings().minimum_quantization_step == 4,
            handler.cryptographic_engine.factor() == 5,
    {
        Self::new()
    }
}

} // verus!
