//! Work on text: the decimal rendering of numbers for the messages of
//! [`crate::error`], and the trimming of whitespace.

use vstd::prelude::*;
use vstd::string::{StrSliceExecFns, StringExecFns};

verus! {

/// The character that writes the digit `digit`.
pub open spec fn digit_char(digit: nat) -> char {
    if digit == 0 {
        '0'
    } else if digit == 1 {
        '1'
    } else if digit == 2 {
        '2'
    } else if digit == 3 {
        '3'
    } else if digit == 4 {
        '4'
    } else if digit == 5 {
        '5'
    } else if digit == 6 {
        '6'
    } else if digit == 7 {
        '7'
    } else if digit == 8 {
        '8'
    } else {
        '9'
    }
}

/// The decimal digits of `value`, most significant first, without padding.
pub open spec fn decimal_digits(value: nat) -> Seq<char>
    decreases value,
{
    if value < 10 {
        seq![digit_char(value)]
    } else {
        decimal_digits(value / 10).push(digit_char(value % 10))
    }
}

fn digit_text(digit: u8) -> (text: &'static str)
    requires
        digit < 10,
    ensures
        text@ == seq![digit_char(digit as nat)],
{
    proof {
        reveal_strlit("0");
        reveal_strlit("1");
        reveal_strlit("2");
        reveal_strlit("3");
        reveal_strlit("4");
        reveal_strlit("5");
        reveal_strlit("6");
        reveal_strlit("7");
        reveal_strlit("8");
        reveal_strlit("9");
    }
    let text = match digit {
        0 => "0",
        1 => "1",
        2 => "2",
        3 => "3",
        4 => "4",
        5 => "5",
        6 => "6",
        7 => "7",
        8 => "8",
        _ => "9",
    };
    text
}

/// Writes `value` in decimal.
pub fn decimal_text(value: u128) -> (text: String)
    ensures
        text@ == decimal_digits(value as nat),
    decreases value,
{
    if value < 10 {
        String::from_str(digit_text(value as u8))
    } else {
        let mut text = decimal_text(value / 10);
        text.append(digit_text((value % 10) as u8));
        text
    }
}

/// The character is whitespace as Unicode defines it: it has the property
/// White_Space.
pub open spec fn is_whitespace(character: char) -> bool {
    ||| '\u{9}' <= character <= '\u{d}'
    ||| character == ' '
    ||| character == '\u{85}'
    ||| character == '\u{a0}'
    ||| character == '\u{1680}'
    ||| '\u{2000}' <= character <= '\u{200a}'
    ||| character == '\u{2028}'
    ||| character == '\u{2029}'
    ||| character == '\u{202f}'
    ||| character == '\u{205f}'
    ||| character == '\u{3000}'
}

/// `text` without the whitespace at its start.
pub open spec fn trimmed_start(text: Seq<char>) -> Seq<char>
    decreases text.len(),
{
    if text.len() > 0 && is_whitespace(text[0]) {
        trimmed_start(text.skip(1))
    } else {
        text
    }
}

/// `text` without the whitespace at its end.
pub open spec fn trimmed_end(text: Seq<char>) -> Seq<char>
    decreases text.len(),
{
    if text.len() > 0 && is_whitespace(text.last()) {
        trimmed_end(text.drop_last())
    } else {
        text
    }
}

/// `text` without the whitespace at either end.
pub open spec fn trimmed(text: Seq<char>) -> Seq<char> {
    trimmed_end(trimmed_start(text))
}

/// Whether the character is whitespace.
pub fn is_whitespace_character(character: char) -> (blank: bool)
    ensures
        blank == is_whitespace(character),
{
    ('\u{9}' <= character && character <= '\u{d}') || character == ' ' || character == '\u{85}'
        || character == '\u{a0}' || character == '\u{1680}' || ('\u{2000}' <= character
        && character <= '\u{200a}') || character == '\u{2028}' || character == '\u{2029}'
        || character == '\u{202f}' || character == '\u{205f}' || character == '\u{3000}'
}

/// Trimming the start drops the leading run of whitespace.
proof fn lemma_trimmed_start(text: Seq<char>, start: int)
    requires
        0 <= start <= text.len(),
        forall|j: int| 0 <= j < start ==> is_whitespace(text[j]),
        start == text.len() || !is_whitespace(text[start]),
    ensures
        trimmed_start(text) == text.skip(start),
    decreases start,
{
    if start > 0 {
        let rest = text.skip(1);
        assert(forall|j: int| 0 <= j < start - 1 ==> is_whitespace(rest[j]));
        lemma_trimmed_start(rest, start - 1);
    }
}

/// Trimming the end drops the trailing run of whitespace.
proof fn lemma_trimmed_end(text: Seq<char>, end: int)
    requires
        0 <= end <= text.len(),
        forall|j: int| end <= j < text.len() ==> is_whitespace(text[j]),
        end == 0 || !is_whitespace(text[end - 1]),
    ensures
        trimmed_end(text) == text.take(end),
    decreases text.len() - end,
{
    if end < text.len() {
        lemma_trimmed_end(text.drop_last(), end);
    }
}

/// The part of `text` between its leading and its trailing whitespace.
pub fn trim_text<'a>(text: &'a str) -> (inner: &'a str)
    ensures
        inner@ == trimmed(text@),
{
    let length = text.unicode_len();
    let mut start: usize = 0;
    let mut end: usize = 0;
    let mut leading = true;
    let mut position: usize = 0;
    for character in iter: text.chars()
        invariant
            iter.seq() == text@,
            length == text@.len(),
            position == iter.index(),
            position <= length,
            leading ==> start == iter.index() && end == 0,
            !leading ==> start < end <= iter.index(),
            forall|j: int| 0 <= j < start ==> is_whitespace(text@[j]),
            !leading ==> !is_whitespace(text@[start as int]) && !is_whitespace(text@[end - 1]),
            forall|j: int| end <= j < iter.index() ==> is_whitespace(text@[j]),
    {
        if is_whitespace_character(character) {
            if leading {
                start += 1;
            }
        } else {
            if leading {
                leading = false;
            }
            end = position + 1;
        }
        position += 1;
    }
    if leading {
        start = 0;
    }
    proof {
        if leading {
            lemma_trimmed_start(text@, length as int);
        } else {
            lemma_trimmed_start(text@, start as int);
            let tail = text@.skip(start as int);
            assert(forall|j: int| end - start <= j < tail.len() ==> is_whitespace(tail[j]));
            lemma_trimmed_end(tail, end - start);
        }
    }
    text.substring_char(start, end)
}

} // verus!
