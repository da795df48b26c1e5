//! The cipher layer: stream-cipher encryption under a fresh nonce, wrapped
//! in a repetition code that absorbs the byte errors of the image channel.

use vstd::prelude::*;
use vstd::string::StringExecFns;
use crate::cipher::{apply_keystream, keystream_byte, random_array, MAX_KEYSTREAM_BYTES};
use crate::encoding::{
    base64_bytes, base64_text, decode_base64, decode_error_text, encode_base64,
};
use crate::error::{failure_message, outcome, Failure, SteganographyError};
use crate::repetition::{
    declared_length, decoded_blob, encoded_blob, group_of, is_framed, is_tolerable_corruption,
    lemma_decoding_corrects_errors, lemma_encoding_is_uncorrupted, lemma_occurrences_bounded,
    lemma_occurrences_push, lemma_vote_is_unique, length_header, majority_byte, occurrences,
    repeat_each,
};
use crate::text::{decimal_digits, decimal_text, trim_text, trimmed};

verus! {

/// Bytes in an encryption key.
pub const ENCRYPTION_KEY_SIZE: usize = 32;

/// Bytes in a nonce.
pub const NONCE_SIZE: usize = 12;

/// Copies written of every byte unless the caller asks otherwise.
pub const DEFAULT_REPETITION_FACTOR: usize = 5;

/// The message for a blob that is too short to hold its header.
pub open spec fn missing_header_message() -> Seq<char> {
    "Encoded data too short for length header"@
}

/// The message for a blob whose length is not what its header declares.
pub open spec fn length_mismatch_message(expected: nat, actual: nat) -> Seq<char> {
    "Invalid encoded data length: expected "@ + decimal_digits(expected) + ", got "@
        + decimal_digits(actual)
}

/// What decoding `blob` yields: the votes of its groups, or why it is not a
/// blob of this code.
pub open spec fn decoding_result(blob: Seq<u8>, factor: nat) -> Result<Seq<u8>, Failure> {
    if blob.len() < 4 {
        Err(Failure::InvalidInput(missing_header_message()))
    } else if !is_framed(blob, factor) {
        Err(
            Failure::InvalidInput(
                length_mismatch_message(4 + declared_length(blob) * factor, blob.len()),
            ),
        )
    } else {
        Ok(decoded_blob(blob, factor))
    }
}

/// The message for a decoded blob that cannot hold a nonce.
pub open spec fn missing_nonce_message() -> Seq<char> {
    "Encrypted data too short to contain nonce"@
}

/// The message that wraps a failure of the repetition code.
pub open spec fn decoding_failed_message(failure: Failure) -> Seq<char> {
    "Repetition decoding failed: "@ + failure_message(failure)
}

/// The message for a key text that decodes to the wrong number of bytes.
pub open spec fn key_length_message(actual: nat) -> Seq<char> {
    "Invalid key length: expected 32 bytes, got "@ + decimal_digits(actual)
}

/// What reading a key from `text` yields: the 32 bytes that the text stands
/// for in base64 once the whitespace around it is removed; an error if it is
/// not base64, or stands for another number of bytes.
pub open spec fn is_key_outcome(
    result: Result<[u8; 32], SteganographyError>,
    text: Seq<char>,
) -> bool {
    match base64_bytes(trimmed(text)) {
        None => result matches Err(error) && error is Base64Error,
        Some(bytes) => if bytes.len() == ENCRYPTION_KEY_SIZE {
            result matches Ok(key) && key@ == bytes
        } else {
            result matches Err(error) && error@ == Failure::InvalidInput(
                key_length_message(bytes.len()),
            )
        },
    }
}

/// `data` with the keystream of `key` and `nonce` laid over it.
pub open spec fn keystream_applied(key: Seq<u8>, nonce: Seq<u8>, data: Seq<u8>) -> Seq<u8> {
    Seq::new(data.len(), |i: int| data[i] ^ keystream_byte(key, nonce, i))
}

/// The blob that encryption under `nonce` produces: the nonce and the
/// ciphertext behind it, error-coded together.
pub open spec fn sealed_blob(
    key: Seq<u8>,
    nonce: Seq<u8>,
    plaintext: Seq<u8>,
    factor: nat,
) -> Seq<u8> {
    encoded_blob(nonce + keystream_applied(key, nonce, plaintext), factor)
}

/// What decryption of `blob` yields: the plaintext, or why there is none.
pub open spec fn opening_result(
    key: Seq<u8>,
    blob: Seq<u8>,
    factor: nat,
) -> Result<Seq<u8>, Failure> {
    match decoding_result(blob, factor) {
        Err(failure) => Err(Failure::Crypto(decoding_failed_message(failure))),
        Ok(decoded) => if decoded.len() < NONCE_SIZE {
            Err(Failure::Crypto(missing_nonce_message()))
        } else {
            Ok(
                keystream_applied(
                    key,
                    decoded.take(NONCE_SIZE as int),
                    decoded.skip(NONCE_SIZE as int),
                ),
            )
        },
    }
}

/// Encrypts and decrypts payloads, and applies the repetition code.
pub struct CryptographicEngine {
    repetition_factor: usize,
}

impl CryptographicEngine {
    /// The number of copies this engine writes of every byte.
    pub closed spec fn factor(&self) -> nat {
        self.repetition_factor as nat
    }

    /// An engine with the default repetition factor.
    pub fn new() -> (engine: Self)
        ensures
            engine.factor() == DEFAULT_REPETITION_FACTOR,
    {
        Self { repetition_factor: DEFAULT_REPETITION_FACTOR }
    }

    /// An engine that writes `repetition_factor` copies of every byte.
    pub fn with_repetition_factor(repetition_factor: usize) -> (engine: Self)
        ensures
            engine.factor() == repetition_factor,
    {
        Self { repetition_factor }
    }

    /// The number of copies this engine writes of every byte.
    pub fn repetition_factor(&self) -> (factor: usize)
        ensures
            factor == self.factor(),
    {
        self.repetition_factor
    }

    /// A fresh random key.
    pub fn generate_encryption_key() -> [u8; 32] {
        random_array::<32>()
    }

    /// A fresh random nonce.
    fn generate_nonce(&self) -> [u8; 12] {
        random_array::<12>()
    }

    /// The text that stands for `encryption_key` in a key file: its
    /// standard base64.
    pub fn encode_key(&self, encryption_key: &[u8; 32]) -> (text: String)
        ensures
            text@ == base64_text(encryption_key@),
    {
        encode_base64(encryption_key)
    }

    /// Reads a key from its text, which may be the content of a key file.
    pub fn load_key_from_input(
        &self,
        key_input: &str,
    ) -> (result: Result<[u8; 32], SteganographyError>)
        ensures
            is_key_outcome(result, key_input@),
    {
        let key_bytes = match decode_base64(trim_text(key_input)) {
            Ok(bytes) => bytes,
            Err(error) => {
                return Err(SteganographyError::Base64Error(decode_error_text(&error)));
            },
        };
        if key_bytes.len() != ENCRYPTION_KEY_SIZE {
            let mut message = String::from_str("Invalid key length: expected 32 bytes, got ");
            let actual_text = decimal_text(key_bytes.len() as u128);
            message.append(actual_text.as_str());
            return Err(SteganographyError::InvalidInput(message));
        }
        let mut encryption_key = [0u8; 32];
        let mut index: usize = 0;
        while index < 32
            invariant
                index <= 32,
                key_bytes@.len() == 32,
                forall|i: int| 0 <= i < index ==> encryption_key@[i] == key_bytes@[i],
            decreases 32 - index,
        {
            encryption_key[index] = key_bytes[index];
            index += 1;
        }
        assert(encryption_key@ =~= key_bytes@);
        Ok(encryption_key)
    }

    /// Prefixes `original_data` with its length and repeats each of its bytes.
    pub fn apply_repetition_encoding(
        &self,
        original_data: &[u8],
    ) -> (result: Result<Vec<u8>, SteganographyError>)
        ensures
            result matches Ok(encoded) && encoded@ == encoded_blob(original_data@, self.factor()),
    {
        let length = original_data.len();
        let factor = self.repetition_factor;
        let ghost header = length_header(length as nat);
        let mut encoded: Vec<u8> = Vec::new();
        encoded.push((length % 256) as u8);
        encoded.push((length / 256 % 256) as u8);
        encoded.push((length / 65536 % 256) as u8);
        encoded.push((length / 16777216 % 256) as u8);
        assert(encoded@ =~= header);
        let mut index: usize = 0;
        while index < length
            invariant
                index <= length,
                length == original_data@.len(),
                factor == self.factor(),
                encoded@ =~= header + repeat_each(original_data@.take(index as int), factor as nat),
            decreases length - index,
        {
            let byte = original_data[index];
            let ghost before = encoded@;
            let mut copy: usize = 0;
            while copy < factor
                invariant
                    copy <= factor,
                    encoded@ =~= before + Seq::new(copy as nat, |k: int| byte),
                decreases factor - copy,
            {
                encoded.push(byte);
                copy += 1;
            }
            proof {
                lemma_repeat_each_extend(original_data@.take(index as int), byte, factor as nat);
                assert(original_data@.take(index as int).push(byte) =~= original_data@.take(
                    index + 1,
                ));
            }
            index += 1;
        }
        assert(original_data@.take(length as int) =~= original_data@);
        Ok(encoded)
    }

    /// Recovers the bytes of an error-coded blob by a majority vote over the
    /// copies of each byte; a tie goes to the lowest value.
    pub fn apply_repetition_decoding(
        &self,
        encoded_data: &[u8],
    ) -> (result: Result<Vec<u8>, SteganographyError>)
        ensures
            outcome(result) == decoding_result(encoded_data@, self.factor()),
    {
        let total = encoded_data.len();
        let factor = self.repetition_factor;
        if total < 4 {
            return Err(
                SteganographyError::InvalidInput(
                    String::from_str("Encoded data too short for length header"),
                ),
            );
        }
        let declared: u64 = encoded_data[0] as u64 + 256 * (encoded_data[1] as u64) + 65536 * (
        encoded_data[2] as u64) + 16777216 * (encoded_data[3] as u64);
        assert(declared as nat * factor as nat <= 0xffff_ffff * 0xffff_ffff_ffff_ffff)
            by (nonlinear_arith)
            requires
                declared < 0x1_0000_0000,
                factor <= 0xffff_ffff_ffff_ffff,
        ;
        let expected: u128 = 4 + (declared as u128) * (factor as u128);
        if total as u128 != expected {
            let mut message = String::from_str("Invalid encoded data length: expected ");
            let expected_text = decimal_text(expected);
            message.append(expected_text.as_str());
            message.append(", got ");
            let total_text = decimal_text(total as u128);
            message.append(total_text.as_str());
            return Err(SteganographyError::InvalidInput(message));
        }
        let count = declared as usize;
        let mut decoded: Vec<u8> = Vec::new();
        let mut index: usize = 0;
        let mut offset: usize = 4;
        while index < count
            invariant
                index <= count,
                count == declared_length(encoded_data@),
                factor == self.factor(),
                total == encoded_data@.len(),
                total == 4 + count * factor,
                offset == 4 + index * factor,
                decoded@.len() == index,
                forall|i: int|
                    0 <= i < index ==> decoded@[i] == majority_byte(
                        group_of(encoded_data@, i, factor as nat),
                    ),
            decreases count - index,
        {
            assert(offset + factor == 4 + (index + 1) * factor && 4 + (index + 1) * factor <= 4
                + count * factor) by (nonlinear_arith)
                requires
                    offset == 4 + index * factor,
                    index < count,
            ;
            let winner = vote(encoded_data, offset, factor);
            decoded.push(winner);
            offset += factor;
            index += 1;
        }
        assert(decoded@ =~= decoded_blob(encoded_data@, self.factor()));
        Ok(decoded)
    }

    /// Encrypts `plaintext_data` under a fresh random nonce and error-codes
    /// the nonce together with the ciphertext.
    pub fn encrypt_with_error_correction(
        &self,
        encryption_key: &[u8; 32],
        plaintext_data: &[u8],
    ) -> (result: Result<Vec<u8>, SteganographyError>)
        requires
            plaintext_data@.len() <= MAX_KEYSTREAM_BYTES,
        ensures
            result matches Ok(blob) && exists|nonce: Seq<u8>|
                nonce.len() == NONCE_SIZE && blob@ == #[trigger] sealed_blob(
                    encryption_key@,
                    nonce,
                    plaintext_data@,
                    self.factor(),
                ),
    {
        let nonce = self.generate_nonce();
        self.encrypt_with_nonce(encryption_key, &nonce, plaintext_data)
    }

    /// Encrypts `plaintext_data` under the given nonce and error-codes the
    /// nonce together with the ciphertext.
    pub fn encrypt_with_nonce(
        &self,
        encryption_key: &[u8; 32],
        nonce: &[u8; 12],
        plaintext_data: &[u8],
    ) -> (result: Result<Vec<u8>, SteganographyError>)
        requires
            plaintext_data@.len() <= MAX_KEYSTREAM_BYTES,
        ensures
            result matches Ok(blob) && blob@ == sealed_blob(
                encryption_key@,
                nonce@,
                plaintext_data@,
                self.factor(),
            ),
    {
        let ciphertext_data = apply_keystream(encryption_key, nonce, plaintext_data);
        assert(ciphertext_data@ =~= keystream_applied(encryption_key@, nonce@, plaintext_data@));
        let mut encrypted_data: Vec<u8> = Vec::new();
        let mut index: usize = 0;
        while index < 12
            invariant
                index <= 12,
                encrypted_data@ =~= nonce@.take(index as int),
            decreases 12 - index,
        {
            encrypted_data.push(nonce[index]);
            index += 1;
        }
        let length = ciphertext_data.len();
        let mut index: usize = 0;
        while index < length
            invariant
                index <= length,
                length == ciphertext_data@.len(),
                encrypted_data@ =~= nonce@ + ciphertext_data@.take(index as int),
            decreases length - index,
        {
            encrypted_data.push(ciphertext_data[index]);
            index += 1;
        }
        assert(ciphertext_data@.take(length as int) =~= ciphertext_data@);
        self.apply_repetition_encoding(encrypted_data.as_slice())
    }

    /// Decodes the repetition code of `error_corrected_data`, then decrypts
    /// what follows the nonce.
    pub fn decrypt_with_error_correction(
        &self,
        encryption_key: &[u8; 32],
        error_corrected_data: &[u8],
    ) -> (result: Result<Vec<u8>, SteganographyError>)
        ensures
            outcome(result) == opening_result(
                encryption_key@,
                error_corrected_data@,
                self.factor(),
            ),
    {
        let encrypted_data = match self.apply_repetition_decoding(error_corrected_data) {
            Ok(decoded) => decoded,
            Err(error) => {
                let mut message = String::from_str("Repetition decoding failed: ");
                let cause = error.message();
                message.append(cause.as_str());
                return Err(SteganographyError::CryptoError(message));
            },
        };
        if encrypted_data.len() < NONCE_SIZE {
            return Err(
                SteganographyError::CryptoError(
                    String::from_str("Encrypted data too short to contain nonce"),
                ),
            );
        }
        let nonce: [u8; 12] = [
            encrypted_data[0],
            encrypted_data[1],
            encrypted_data[2],
            encrypted_data[3],
            encrypted_data[4],
            encrypted_data[5],
            encrypted_data[6],
            encrypted_data[7],
            encrypted_data[8],
            encrypted_data[9],
            encrypted_data[10],
            encrypted_data[11],
        ];
        assert(nonce@ =~= encrypted_data@.take(12));
        let length = encrypted_data.len();
        let mut ciphertext_data: Vec<u8> = Vec::new();
        let mut index: usize = 12;
        while index < length
            invariant
                12 <= index <= length,
                length == encrypted_data@.len(),
                ciphertext_data@ =~= encrypted_data@.subrange(12, index as int),
            decreases length - index,
        {
            ciphertext_data.push(encrypted_data[index]);
            index += 1;
        }
        let plaintext_data = apply_keystream(encryption_key, &nonce, ciphertext_data.as_slice());
        assert(plaintext_data@ =~= keystream_applied(
            encryption_key@,
            nonce@,
            ciphertext_data@,
        ));
        Ok(plaintext_data)
    }
}

impl Default for CryptographicEngine {
    /// An engine with the default repetition factor.
    fn default() -> (engine: Self)
        ensures
            engine.factor() == DEFAULT_REPETITION_FACTOR,
    {
        Self::new()
    }
}

/// An encrypted blob has four bytes more than `factor` times the bytes of
/// the nonce and the payload.
pub proof fn lemma_sealed_blob_length(
    key: Seq<u8>,
    nonce: Seq<u8>,
    plaintext: Seq<u8>,
    factor: nat,
)
    ensures
        sealed_blob(key, nonce, plaintext, factor).len() == 4 + (nonce.len() + plaintext.len())
            * factor,
{
}

/// Laying the same keystream over data twice gives the data back.
pub proof fn lemma_keystream_is_involution(key: Seq<u8>, nonce: Seq<u8>, data: Seq<u8>)
    ensures
        keystream_applied(key, nonce, keystream_applied(key, nonce, data)) == data,
{
    let once = keystream_applied(key, nonce, data);
    let twice = keystream_applied(key, nonce, once);
    assert forall|i: int| 0 <= i < data.len() implies twice[i] == data[i] by {
        let byte = data[i];
        let mask = keystream_byte(key, nonce, i);
        assert((byte ^ mask) ^ mask == byte) by (bit_vector);
    }
}

/// Decryption undoes encryption, whatever the key and the nonce, for every
/// repetition factor of at least one and every payload that, with its nonce,
/// fits the length header.
pub proof fn lemma_decryption_inverts_encryption(
    key: Seq<u8>,
    nonce: Seq<u8>,
    plaintext: Seq<u8>,
    factor: nat,
)
    requires
        nonce.len() == NONCE_SIZE,
        factor >= 1,
        plaintext.len() + NONCE_SIZE < 0x1_0000_0000,
    ensures
        opening_result(key, sealed_blob(key, nonce, plaintext, factor), factor) == Ok::<
            Seq<u8>,
            Failure,
        >(plaintext),
{
    let inner = nonce + keystream_applied(key, nonce, plaintext);
    lemma_encoding_is_uncorrupted(inner, factor);
    lemma_decryption_tolerates_corruption(
        key,
        nonce,
        plaintext,
        factor,
        sealed_blob(key, nonce, plaintext, factor),
    );
}

/// Decryption recovers the payload from a blob in which up to
/// `(factor - 1) / 2` copies of each byte were altered and the header is
/// intact.
pub proof fn lemma_decryption_tolerates_corruption(
    key: Seq<u8>,
    nonce: Seq<u8>,
    plaintext: Seq<u8>,
    factor: nat,
    received: Seq<u8>,
)
    requires
        nonce.len() == NONCE_SIZE,
        plaintext.len() + NONCE_SIZE < 0x1_0000_0000,
        is_tolerable_corruption(
            received,
            nonce + keystream_applied(key, nonce, plaintext),
            factor,
        ),
    ensures
        opening_result(key, received, factor) == Ok::<Seq<u8>, Failure>(plaintext),
{
    let ciphertext = keystream_applied(key, nonce, plaintext);
    let inner = nonce + ciphertext;
    lemma_decoding_corrects_errors(received, inner, factor);
    assert(inner.take(NONCE_SIZE as int) =~= nonce);
    assert(inner.skip(NONCE_SIZE as int) =~= ciphertext);
    lemma_keystream_is_involution(key, nonce, plaintext);
}

/// Appending one byte to the data appends `factor` copies to its repetition.
proof fn lemma_repeat_each_extend(data: Seq<u8>, byte: u8, factor: nat)
    ensures
        repeat_each(data.push(byte), factor) =~= repeat_each(data, factor) + Seq::new(
            factor,
            |k: int| byte,
        ),
{
    let longer = repeat_each(data.push(byte), factor);
    let joined = repeat_each(data, factor) + Seq::new(factor, |k: int| byte);
    assert((data.len() + 1) * factor == data.len() * factor + factor) by (nonlinear_arith);
    assert forall|k: int| 0 <= k < longer.len() implies longer[k] == joined[k] by {
        if k < data.len() * factor {
            assert(0 <= k / factor as int && k / factor as int <= data.len() - 1)
                by (nonlinear_arith)
                requires
                    0 <= k < data.len() * factor,
                    factor > 0,
            ;
        } else {
            assert(k / factor as int == data.len()) by (nonlinear_arith)
                requires
                    data.len() * factor <= k < data.len() * factor + factor,
                    factor > 0,
            ;
        }
    }
}

/// The majority vote over `factor` bytes of `bytes` from `start` on.
fn vote(bytes: &[u8], start: usize, factor: usize) -> (winner: u8)
    requires
        start + factor <= bytes@.len(),
    ensures
        winner == majority_byte(bytes@.subrange(start as int, start + factor)),
{
    let ghost group = bytes@.subrange(start as int, start + factor);
    let length = bytes.len();
    let mut tally: Vec<usize> = Vec::new();
    let mut value: usize = 0;
    while value < 256
        invariant
            value <= 256,
            tally@.len() == value,
            forall|v: int| 0 <= v < value ==> tally@[v] == 0,
        decreases 256 - value,
    {
        tally.push(0);
        value += 1;
    }
    let mut seen: usize = 0;
    while seen < factor
        invariant
            seen <= factor,
            length == bytes@.len(),
            start + factor <= length,
            group == bytes@.subrange(start as int, start + factor),
            tally@.len() == 256,
            forall|v: u8| tally@[v as int] == occurrences(group.take(seen as int), v),
        decreases factor - seen,
    {
        let byte = bytes[start + seen];
        proof {
            assert(group.take(seen as int).push(byte) =~= group.take(seen + 1));
            assert forall|v: u8|
                occurrences(group.take(seen + 1), v) == occurrences(group.take(seen as int), v)
                    + if byte == v {
                    1nat
                } else {
                    0nat
                } by {
                lemma_occurrences_push(group.take(seen as int), byte, v);
            }
            lemma_occurrences_bounded(group.take(seen as int), byte);
        }
        let votes = tally[byte as usize];
        tally.set(byte as usize, votes + 1);
        seen += 1;
    }
    assert(group.take(factor as int) =~= group);
    let mut winner: u8 = 0;
    let mut candidate: usize = 1;
    while candidate < 256
        invariant
            1 <= candidate <= 256,
            winner < candidate,
            tally@.len() == 256,
            forall|v: u8| tally@[v as int] == occurrences(group, v),
            forall|v: u8|
                v < candidate ==> {
                    &&& #[trigger] occurrences(group, v) <= occurrences(group, winner)
                    &&& occurrences(group, v) == occurrences(group, winner) ==> winner <= v
                },
        decreases 256 - candidate,
    {
        if tally[candidate] > tally[winner as usize] {
            winner = candidate as u8;
        }
        candidate += 1;
    }
    proof {
        lemma_vote_is_unique(group, winner);
    }
    winner
}

} // verus!
