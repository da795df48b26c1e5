use steg::error::SteganographyError;
use steg::text::decimal_text;

#[test]
fn messages_name_the_kind_of_failure() {
    let text = String::from("cause");
    assert_eq!(
        SteganographyError::ImageError(text.clone()).message(),
        "Image processing error: cause"
    );
    assert_eq!(SteganographyError::CryptoError(text.clone()).message(), "Cryptography error: cause");
    assert_eq!(SteganographyError::DctError(text.clone()).message(), "DCT processing error: cause");
    assert_eq!(SteganographyError::InvalidInput(text.clone()).message(), "Invalid input: cause");
    assert_eq!(SteganographyError::IoError(text.clone()).message(), "I/O error: cause");
    assert_eq!(
        SteganographyError::Base64Error(text.clone()).message(),
        "Base64 decoding error: cause"
    );
    assert_eq!(SteganographyError::Utf8Error(text).message(), "UTF-8 conversion error: cause");
}

#[test]
fn capacity_message_reports_both_counts() {
    let error = SteganographyError::CapacityError { required: 1032, available: 64 };
    assert_eq!(error.message(), "Insufficient capacity: need 1032 bits, only 64 available");
}

#[test]
fn decimal_text_writes_numbers_without_padding() {
    assert_eq!(decimal_text(0), "0");
    assert_eq!(decimal_text(7), "7");
    assert_eq!(decimal_text(10), "10");
    assert_eq!(decimal_text(1234567890), "1234567890");
    assert_eq!(decimal_text(u128::MAX), "340282366920938463463374607431768211455");
}
