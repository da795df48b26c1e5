//! The stream cipher and the random source, as far as the codec relies on
//! them. Nothing in this file is proved: each contract states what the crate
//! behind it documents.

use vstd::prelude::*;
use chacha20::cipher::{KeyIvInit, StreamCipher};
use chacha20::ChaCha20;
use rand::RngCore;

verus! {

/// The longest input that one key and nonce can cover: the cipher counts
/// 64-byte blocks in 32 bits and refuses to run past the last of them.
pub const MAX_KEYSTREAM_BYTES: u64 = 274_877_906_880;

/// The byte at position `index` of the ChaCha20 keystream that `key` and
/// `nonce` generate, counted from the start of the stream.
pub uninterp spec fn keystream_byte(key: Seq<u8>, nonce: Seq<u8>, index: int) -> u8;

/// Runs `ChaCha20::new(key, nonce)` of the chacha20 crate and its
/// `apply_keystream` over a copy of `data`. The crate documents that the
/// keystream is combined with the data by exclusive or, byte by byte, and
/// that the call fails only when the keystream would run out; the contract
/// claims the first and excludes the second.
#[verifier::external_body]
pub(crate) fn apply_keystream(key: &[u8; 32], nonce: &[u8; 12], data: &[u8]) -> (output: Vec<u8>)
    requires
        data@.len() <= MAX_KEYSTREAM_BYTES,
    ensures
        output@.len() == data@.len(),
        forall|i: int|
            0 <= i < data@.len() ==> #[trigger] output@[i] == data@[i] ^ keystream_byte(
                key@,
                nonce@,
                i,
            ),
{
    let mut output = data.to_vec();
    let mut cipher = ChaCha20::new(key.into(), nonce.into());
    cipher.apply_keystream(&mut output);
    output
}

/// Fills an array with `fill_bytes` of rand's thread-local generator. What
/// comes back depends on chance, so the contract says nothing of it.
#[verifier::external_body]
pub(crate) fn random_array<const N: usize>() -> [u8; N] {
    let mut bytes = [0u8; N];
    rand::thread_rng().fill_bytes(&mut bytes);
    bytes
}

} // verus!
