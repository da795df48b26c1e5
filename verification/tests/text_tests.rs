use steg::text::{decimal_text, is_whitespace_character, trim_text};

#[test]
fn whitespace_is_what_unicode_says() {
    for code in 0..=0x10FFFFu32 {
        if let Some(character) = char::from_u32(code) {
            assert_eq!(
                is_whitespace_character(character),
                character.is_whitespace(),
                "code point {:x}",
                code
            );
        }
    }
}

#[test]
fn trimming_removes_whitespace_at_both_ends_only() {
    assert_eq!(trim_text("  key text \n"), "key text");
    assert_eq!(trim_text("key"), "key");
    assert_eq!(trim_text(""), "");
    assert_eq!(trim_text(" \t\r\n"), "");
    assert_eq!(trim_text("a b  c"), "a b  c");
    assert_eq!(trim_text("\u{3000}\u{a0}gr\u{fc}n \u{2003}blau\u{85}\u{2029}"), "gr\u{fc}n \u{2003}blau");
    assert_eq!(trim_text("x "), "x");
    assert_eq!(trim_text(" x"), "x");
    assert_eq!(trim_text("\u{200b} x"), "\u{200b} x");
}

#[test]
fn trimming_agrees_with_the_standard_library() {
    let pieces = ["", " ", "\n", "\u{2000}", "a", "\u{e9}", " b ", "\u{1680}c", "\u{feff}", "d\u{202f}"];
    for first in pieces {
        for second in pieces {
            for third in pieces {
                let text = format!("{}{}{}", first, second, third);
                assert_eq!(trim_text(&text), text.trim(), "{:?}", text);
            }
        }
    }
}

#[test]
fn decimal_text_agrees_with_the_standard_library() {
    for value in (0u128..2000).chain([9_999, 10_000, u64::MAX as u128, u128::MAX - 1]) {
        assert_eq!(decimal_text(value), value.to_string());
    }
}
