//! JPEG byte streams, produced by the jpeg_encoder crate. Nothing in this
//! file is proved: each contract states what the crate's source shows.

use vstd::prelude::*;
use jpeg_encoder::{ColorType, Encoder, EncodingError};

verus! {

/// The error of the jpeg_encoder crate.
#[verifier::external_type_specification]
#[verifier::external_body]
pub struct ExEncodingError(EncodingError);

/// The JPEG byte stream that the encoder writes for an image of `width` by
/// `height` pixels whose samples, three per pixel and row by row, stand at
/// the front of `samples`, at `quality`.
pub uninterp spec fn jpeg_rgb_bytes(
    samples: Seq<u8>,
    width: u16,
    height: u16,
    quality: u8,
) -> Seq<u8>;

/// `Encoder::new` over a byte vector and `Encoder::encode` with
/// `ColorType::Rgb`. The encoder refuses an image without pixels and a
/// buffer with fewer than three samples per pixel; writing into a vector
/// cannot fail, so it refuses nothing else.
#[verifier::external_body]
pub(crate) fn encode_rgb_samples(
    samples: &Vec<u8>,
    width: u16,
    height: u16,
    quality: u8,
) -> (result: Result<Vec<u8>, EncodingError>)
    ensures
        result is Ok <==> (width > 0 && height > 0 && samples@.len() >= 3 * width * height),
        result matches Ok(bytes) ==> bytes@ == jpeg_rgb_bytes(samples@, width, height, quality),
{
    let mut jpeg_buffer = Vec::new();
    let jpeg_encoder = Encoder::new(&mut jpeg_buffer, quality);
    match jpeg_encoder.encode(samples, width, height, ColorType::Rgb) {
        Ok(()) => Ok(jpeg_buffer),
        Err(error) => Err(error),
    }
}

/// The text that the encoder's error displays.
#[verifier::external_body]
pub(crate) fn encoding_error_text(error: &EncodingError) -> String {
    error.to_string()
}

} // verus!
