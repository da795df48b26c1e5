use steg::crypto::CryptographicEngine;
use steg::error::SteganographyError;

#[test]
fn test_encryption_decryption_roundtrip() {
    let crypto_engine = CryptographicEngine::new();
    let encryption_key = CryptographicEngine::generate_encryption_key();
    let test_data = b"Secret message for testing";

    let encrypted_data = crypto_engine
        .encrypt_with_error_correction(&encryption_key, test_data)
        .unwrap();
    let decrypted_data = crypto_engine
        .decrypt_with_error_correction(&encryption_key, &encrypted_data)
        .unwrap();

    assert_eq!(test_data.to_vec(), decrypted_data);
}

#[test]
fn test_repetition_coding_with_errors() {
    let crypto_engine = CryptographicEngine::with_repetition_factor(3);
    let test_data = vec![0x42, 0x73, 0xA5];

    let encoded_data = crypto_engine.apply_repetition_encoding(&test_data).unwrap();

    // Simulate bit errors by corrupting some bytes
    let mut corrupted_data = encoded_data;
    corrupted_data[5] = 0xFF; // Corrupt one repetition
    corrupted_data[8] = 0x00; // Corrupt another repetition

    let decoded_data = crypto_engine.apply_repetition_decoding(&corrupted_data).unwrap();
    assert_eq!(test_data, decoded_data);
}

#[test]
fn repetition_encoding_layout_is_exact() {
    let engine = CryptographicEngine::with_repetition_factor(2);
    let encoded = engine.apply_repetition_encoding(&[7, 9, 11]).unwrap();
    assert_eq!(encoded, vec![3, 0, 0, 0, 7, 7, 9, 9, 11, 11]);
}

#[test]
fn repetition_encoding_writes_the_length_least_significant_byte_first() {
    let engine = CryptographicEngine::with_repetition_factor(1);
    let data = vec![0x5Au8; 0x0102];
    let encoded = engine.apply_repetition_encoding(&data).unwrap();
    assert_eq!(&encoded[..4], &[0x02, 0x01, 0x00, 0x00]);
    assert_eq!(encoded.len(), 4 + 0x0102);
}

#[test]
fn default_engine_repeats_each_byte_five_times() {
    let engine = CryptographicEngine::new();
    assert_eq!(engine.repetition_factor(), 5);
    assert_eq!(CryptographicEngine::default().repetition_factor(), 5);
    assert_eq!(CryptographicEngine::with_repetition_factor(9).repetition_factor(), 9);
    let encoded = engine.apply_repetition_encoding(&[1, 2]).unwrap();
    assert_eq!(encoded, vec![2, 0, 0, 0, 1, 1, 1, 1, 1, 2, 2, 2, 2, 2]);
}

#[test]
fn repetition_decoding_inverts_encoding() {
    let engine = CryptographicEngine::new();
    let data: Vec<u8> = (0..=255).collect();
    let encoded = engine.apply_repetition_encoding(&data).unwrap();
    assert_eq!(engine.apply_repetition_decoding(&encoded).unwrap(), data);
}

#[test]
fn repetition_decoding_survives_two_corrupted_copies_out_of_five() {
    let engine = CryptographicEngine::new();
    let data = vec![10u8, 20, 30, 40];
    let mut blob = engine.apply_repetition_encoding(&data).unwrap();
    for index in 0..data.len() {
        blob[4 + 5 * index] = 0xEE;
        blob[4 + 5 * index + 3] = 0x11;
    }
    assert_eq!(engine.apply_repetition_decoding(&blob).unwrap(), data);
}

#[test]
fn repetition_decoding_breaks_ties_towards_the_lowest_byte() {
    let engine = CryptographicEngine::with_repetition_factor(2);
    let decoded = engine.apply_repetition_decoding(&[1, 0, 0, 0, 200, 17]).unwrap();
    assert_eq!(decoded, vec![17]);
}

#[test]
fn repetition_decoding_with_factor_zero_yields_zero_bytes() {
    let engine = CryptographicEngine::with_repetition_factor(0);
    let encoded = engine.apply_repetition_encoding(&[9, 9, 9]).unwrap();
    assert_eq!(encoded, vec![3, 0, 0, 0]);
    assert_eq!(engine.apply_repetition_decoding(&encoded).unwrap(), vec![0, 0, 0]);
}

#[test]
fn repetition_decoding_rejects_a_missing_header() {
    let engine = CryptographicEngine::new();
    match engine.apply_repetition_decoding(&[1, 2, 3]) {
        Err(SteganographyError::InvalidInput(message)) => {
            assert_eq!(message, "Encoded data too short for length header");
        }
        other => panic!("unexpected result: {:?}", other),
    }
}

#[test]
fn repetition_decoding_rejects_a_length_mismatch() {
    let engine = CryptographicEngine::new();
    match engine.apply_repetition_decoding(&[2, 0, 0, 0, 1, 1, 1, 1, 1]) {
        Err(SteganographyError::InvalidInput(message)) => {
            assert_eq!(message, "Invalid encoded data length: expected 14, got 9");
        }
        other => panic!("unexpected result: {:?}", other),
    }
}

#[test]
fn encryption_output_has_the_documented_length() {
    let engine = CryptographicEngine::with_repetition_factor(3);
    let key = [7u8; 32];
    let blob = engine.encrypt_with_error_correction(&key, b"abcdef").unwrap();
    assert_eq!(blob.len(), 4 + (12 + 6) * 3);
    assert_eq!(&blob[..4], &[18, 0, 0, 0]);
}

#[test]
fn encryption_under_a_given_nonce_matches_the_cipher() {
    let engine = CryptographicEngine::with_repetition_factor(1);
    let key = [0x42u8; 32];
    let nonce = [0x24u8; 12];
    let plaintext: Vec<u8> = (0u8..16).collect();
    let blob = engine.encrypt_with_nonce(&key, &nonce, &plaintext).unwrap();
    let mut expected = vec![28, 0, 0, 0];
    expected.extend_from_slice(&nonce);
    expected.extend_from_slice(&[
        0xe4, 0x05, 0x62, 0x6e, 0x4f, 0x12, 0x36, 0xb3, 0x67, 0x0e, 0xe4, 0x28, 0x33, 0x2e, 0xa2,
        0x0e,
    ]);
    assert_eq!(blob, expected);
    assert_eq!(engine.decrypt_with_error_correction(&key, &blob).unwrap(), plaintext);
}

#[test]
fn nonces_differ_between_calls() {
    let engine = CryptographicEngine::with_repetition_factor(1);
    let key = [1u8; 32];
    let mut nonces: Vec<Vec<u8>> = Vec::new();
    for _ in 0..64 {
        let blob = engine.encrypt_with_error_correction(&key, b"same plaintext").unwrap();
        nonces.push(blob[4..16].to_vec());
    }
    for first in 0..nonces.len() {
        for second in first + 1..nonces.len() {
            assert_ne!(nonces[first], nonces[second]);
        }
    }
}

#[test]
fn generated_keys_differ() {
    let first = CryptographicEngine::generate_encryption_key();
    let second = CryptographicEngine::generate_encryption_key();
    assert_ne!(first, second);
}

#[test]
fn decryption_recovers_the_payload_from_a_corrupted_blob() {
    let engine = CryptographicEngine::new();
    let key = CryptographicEngine::generate_encryption_key();
    let payload = b"survives the channel".to_vec();
    let mut blob = engine.encrypt_with_error_correction(&key, &payload).unwrap();
    let groups = (blob.len() - 4) / 5;
    for group in 0..groups {
        blob[4 + 5 * group + 1] ^= 0xFF;
        blob[4 + 5 * group + 4] ^= 0x0F;
    }
    assert_eq!(engine.decrypt_with_error_correction(&key, &blob).unwrap(), payload);
}

#[test]
fn decryption_of_an_empty_payload_gives_an_empty_payload() {
    let engine = CryptographicEngine::new();
    let key = [3u8; 32];
    let blob = engine.encrypt_with_error_correction(&key, &[]).unwrap();
    assert_eq!(blob.len(), 4 + 12 * 5);
    assert_eq!(engine.decrypt_with_error_correction(&key, &blob).unwrap(), Vec::<u8>::new());
}

#[test]
fn decryption_wraps_a_decoding_failure() {
    let engine = CryptographicEngine::new();
    let key = [0u8; 32];
    match engine.decrypt_with_error_correction(&key, &[1, 2]) {
        Err(SteganographyError::CryptoError(message)) => {
            assert_eq!(
                message,
                "Repetition decoding failed: Invalid input: Encoded data too short for length header"
            );
        }
        other => panic!("unexpected result: {:?}", other),
    }
    match engine.decrypt_with_error_correction(&key, &[1, 0, 0, 0, 9]) {
        Err(SteganographyError::CryptoError(message)) => {
            assert_eq!(
                message,
                "Repetition decoding failed: Invalid input: Invalid encoded data length: expected 9, got 5"
            );
        }
        other => panic!("unexpected result: {:?}", other),
    }
}

#[test]
fn decryption_rejects_a_blob_without_room_for_a_nonce() {
    let engine = CryptographicEngine::with_repetition_factor(1);
    let key = [0u8; 32];
    let blob = engine.apply_repetition_encoding(&[1, 2, 3, 4, 5, 6, 7, 8, 9, 10, 11]).unwrap();
    match engine.decrypt_with_error_correction(&key, &blob) {
        Err(SteganographyError::CryptoError(message)) => {
            assert_eq!(message, "Encrypted data too short to contain nonce");
        }
        other => panic!("unexpected result: {:?}", other),
    }
}

#[test]
fn key_text_is_standard_base64() {
    let engine = CryptographicEngine::new();
    assert_eq!(engine.encode_key(&[0u8; 32]), "AAAAAAAAAAAAAAAAAAAAAAAAAAAAAAAAAAAAAAAAAAA=");
    let mut key = [0u8; 32];
    for (index, byte) in key.iter_mut().enumerate() {
        *byte = (index as u8) * 8 + 3;
    }
    assert_eq!(engine.encode_key(&key), "AwsTGyMrMztDS1NbY2tze4OLk5ujq7O7w8vT2+Pr8/s=");
}

#[test]
fn key_loading_inverts_key_text() {
    let engine = CryptographicEngine::new();
    let key = CryptographicEngine::generate_encryption_key();
    let text = engine.encode_key(&key);
    assert_eq!(engine.load_key_from_input(&text).unwrap(), key);
}

#[test]
fn key_loading_ignores_surrounding_whitespace() {
    let engine = CryptographicEngine::new();
    let text = " \t\u{3000}AAAAAAAAAAAAAAAAAAAAAAAAAAAAAAAAAAAAAAAAAAA=\u{85}\r\n";
    assert_eq!(engine.load_key_from_input(text).unwrap(), [0u8; 32]);
}

#[test]
fn key_loading_rejects_text_that_is_not_base64() {
    let engine = CryptographicEngine::new();
    assert!(matches!(
        engine.load_key_from_input("not base64 at all!"),
        Err(SteganographyError::Base64Error(_))
    ));
    assert!(matches!(
        engine.load_key_from_input("AAAA AAAA"),
        Err(SteganographyError::Base64Error(_))
    ));
}

#[test]
fn key_loading_rejects_a_key_of_the_wrong_length() {
    let engine = CryptographicEngine::new();
    match engine.load_key_from_input("AAAAAAAAAAAAAAAAAAAAAA==") {
        Err(SteganographyError::InvalidInput(message)) => {
            assert_eq!(message, "Invalid key length: expected 32 bytes, got 16");
        }
        other => panic!("unexpected result: {:?}", other),
    }
}
