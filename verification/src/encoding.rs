//! The text form of keys: base64, as the base64 crate writes and reads it.
//! Nothing in this file is proved: each contract states what the
//! documentation of the function behind it says.

use vstd::prelude::*;
use base64::engine::general_purpose::STANDARD;
use base64::{DecodeError, Engine};

verus! {

/// The error of the base64 crate's decoder.
#[verifier::external_type_specification]
#[verifier::external_body]
pub struct ExDecodeError(DecodeError);

/// The standard base64 text, with padding, of `bytes`.
pub uninterp spec fn base64_text(bytes: Seq<u8>) -> Seq<char>;

/// The bytes that the standard base64 text `text` stands for, if it is
/// well-formed.
pub uninterp spec fn base64_bytes(text: Seq<char>) -> Option<Seq<u8>>;

/// `Engine::encode` of the base64 crate's `STANDARD` engine on a key.
#[verifier::external_body]
pub(crate) fn encode_base64(key: &[u8; 32]) -> (text: String)
    ensures
        text@ == base64_text(key@),
{
    STANDARD.encode(key)
}

/// `Engine::decode` of the base64 crate's `STANDARD` engine.
#[verifier::external_body]
pub(crate) fn decode_base64(text: &str) -> (result: Result<Vec<u8>, DecodeError>)
    ensures
        result is Ok <==> base64_bytes(text@) is Some,
        result matches Ok(bytes) ==> base64_bytes(text@) == Some(bytes@),
{
    STANDARD.decode(text)
}

/// The text that the decoder's error displays.
#[verifier::external_body]
pub(crate) fn decode_error_text(error: &DecodeError) -> String {
    error.to_string()
}

} // verus!
