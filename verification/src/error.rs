//! The error type shared by the whole codec, and its mathematical view.

use vstd::prelude::*;
use vstd::string::StringExecFns;
use crate::text::{decimal_digits, decimal_text};

verus! {

/// What can go wrong while hiding or recovering a payload.
#[derive(Debug)]
pub enum SteganographyError {
    /// An image could not be read, written or encoded.
    ImageError(String),
    /// The cipher layer rejected its input.
    CryptoError(String),
    /// The block transform failed.
    DctError(String),
    /// The framed payload needs more one-bit slots than the image offers.
    CapacityError { required: usize, available: usize },
    /// An argument or a piece of framed data is malformed.
    InvalidInput(String),
    /// Reading or writing a file failed.
    IoError(String),
    /// A key was not valid base64.
    Base64Error(String),
    /// Recovered bytes were not valid UTF-8.
    Utf8Error(String),
}

/// A [`SteganographyError`] as contracts speak of it: the same variants over
/// sequences of characters and unbounded numbers.
pub enum Failure {
    Image(Seq<char>),
    Crypto(Seq<char>),
    Dct(Seq<char>),
    Capacity { required: nat, available: nat },
    InvalidInput(Seq<char>),
    Io(Seq<char>),
    Base64(Seq<char>),
    Utf8(Seq<char>),
}

impl View for SteganographyError {
    type V = Failure;

    open spec fn view(&self) -> Failure {
        match self {
            SteganographyError::ImageError(text) => Failure::Image(text@),
            SteganographyError::CryptoError(text) => Failure::Crypto(text@),
            SteganographyError::DctError(text) => Failure::Dct(text@),
            SteganographyError::CapacityError { required, available } => Failure::Capacity {
                required: *required as nat,
                available: *available as nat,
            },
            SteganographyError::InvalidInput(text) => Failure::InvalidInput(text@),
            SteganographyError::IoError(text) => Failure::Io(text@),
            SteganographyError::Base64Error(text) => Failure::Base64(text@),
            SteganographyError::Utf8Error(text) => Failure::Utf8(text@),
        }
    }
}

/// The view of a result that carries bytes.
pub open spec fn outcome(result: Result<Vec<u8>, SteganographyError>) -> Result<Seq<u8>, Failure> {
    match result {
        Ok(bytes) => Ok(bytes@),
        Err(error) => Err(error@),
    }
}

/// The text that describes `failure` to a reader.
pub open spec fn failure_message(failure: Failure) -> Seq<char> {
    match failure {
        Failure::Image(text) => "Image processing error: "@ + text,
        Failure::Crypto(text) => "Cryptography error: "@ + text,
        Failure::Dct(text) => "DCT processing error: "@ + text,
        Failure::Capacity { required, available } => "Insufficient capacity: need "@
            + decimal_digits(required) + " bits, only "@ + decimal_digits(available)
            + " available"@,
        Failure::InvalidInput(text) => "Invalid input: "@ + text,
        Failure::Io(text) => "I/O error: "@ + text,
        Failure::Base64(text) => "Base64 decoding error: "@ + text,
        Failure::Utf8(text) => "UTF-8 conversion error: "@ + text,
    }
}

fn prefixed(prefix: &str, text: &String) -> (message: String)
    ensures
        message@ == prefix@ + text@,
{
    let mut message = String::from_str(prefix);
    message.append(text.as_str());
    message
}

impl SteganographyError {
    /// Describes the error in one line.
    pub fn message(&self) -> (text: String)
        ensures
            text@ == failure_message(self@),
    {
        match self {
            SteganographyError::ImageError(text) => prefixed("Image processing error: ", text),
            SteganographyError::CryptoError(text) => prefixed("Cryptography error: ", text),
            SteganographyError::DctError(text) => prefixed("DCT processing error: ", text),
            SteganographyError::CapacityError { required, available } => {
                let required_text = decimal_text(*required as u128);
                let available_text = decimal_text(*available as u128);
                let mut message = prefixed("Insufficient capacity: need ", &required_text);
                message.append(" bits, only ");
                message.append(available_text.as_str());
                message.append(" available");
                message
            },
            SteganographyError::InvalidInput(text) => prefixed("Invalid input: ", text),
            SteganographyError::IoError(text) => prefixed("I/O error: ", text),
            SteganographyError::Base64Error(text) => prefixed("Base64 decoding error: ", text),
            SteganographyError::Utf8Error(text) => prefixed("UTF-8 conversion error: ", text),
        }
    }
}

} // verus!
