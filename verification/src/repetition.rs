//! The repetition code that protects the ciphertext: its mathematical model
//! and the facts proved about it.

use vstd::prelude::*;

verus! {

/// How often `value` occurs in `group`.
pub open spec fn occurrences(group: Seq<u8>, value: u8) -> nat
    decreases group.len(),
{
    if group.len() == 0 {
        0
    } else {
        occurrences(group.drop_last(), value) + if group.last() == value {
            1nat
        } else {
            0nat
        }
    }
}

/// `winner` has the most occurrences in `group`; among values that occur
/// equally often, it is the lowest.
pub open spec fn wins_vote(group: Seq<u8>, winner: u8) -> bool {
    forall|other: u8|
        {
            &&& #[trigger] occurrences(group, other) <= occurrences(group, winner)
            &&& occurrences(group, other) == occurrences(group, winner) ==> winner <= other
        }
}

/// The value that a majority vote over `group` yields.
pub open spec fn majority_byte(group: Seq<u8>) -> u8 {
    choose|winner: u8| wins_vote(group, winner)
}

/// The four header bytes: `length` modulo 2^32, least significant byte first.
pub open spec fn length_header(length: nat) -> Seq<u8> {
    seq![
        (length % 256) as u8,
        (length / 256 % 256) as u8,
        (length / 65536 % 256) as u8,
        (length / 16777216 % 256) as u8,
    ]
}

/// The length that the first four bytes of `blob` declare.
pub open spec fn declared_length(blob: Seq<u8>) -> nat
    recommends
        blob.len() >= 4,
{
    (blob[0] + 256 * blob[1] + 65536 * blob[2] + 16777216 * blob[3]) as nat
}

/// Every byte of `data` written `factor` times in a row.
pub open spec fn repeat_each(data: Seq<u8>, factor: nat) -> Seq<u8> {
    Seq::new(data.len() * factor, |k: int| data[k / factor as int])
}

/// The error-coded blob of `data`: header, then the repeated bytes.
pub open spec fn encoded_blob(data: Seq<u8>, factor: nat) -> Seq<u8> {
    length_header(data.len()) + repeat_each(data, factor)
}

/// The `factor` copies in `blob` that stand for the byte at `index`.
pub open spec fn group_of(blob: Seq<u8>, index: int, factor: nat) -> Seq<u8> {
    blob.subrange(4 + index * factor, 4 + (index + 1) * factor)
}

/// `blob` has a header, and exactly as many bytes after it as the header
/// declares groups of `factor`.
pub open spec fn is_framed(blob: Seq<u8>, factor: nat) -> bool {
    blob.len() >= 4 && blob.len() == 4 + declared_length(blob) * factor
}

/// What decoding a framed `blob` yields: the vote of each group.
pub open spec fn decoded_blob(blob: Seq<u8>, factor: nat) -> Seq<u8> {
    Seq::new(declared_length(blob), |i: int| majority_byte(group_of(blob, i, factor)))
}

/// The number of copies in `group` that differ from `value`.
pub open spec fn mismatches(group: Seq<u8>, value: u8) -> int {
    group.len() - occurrences(group, value)
}

/// `received` is the blob of `data` with an intact header in which at most
/// `(factor - 1) / 2` copies of each byte were altered.
pub open spec fn is_tolerable_corruption(received: Seq<u8>, data: Seq<u8>, factor: nat) -> bool {
    &&& received.len() == 4 + data.len() * factor
    &&& received.subrange(0, 4) == length_header(data.len())
    &&& forall|i: int|
        0 <= i < data.len() ==> mismatches(#[trigger] group_of(received, i, factor), data[i]) <= (
        factor - 1) / 2
}

pub proof fn lemma_occurrences_bounded(group: Seq<u8>, value: u8)
    ensures
        occurrences(group, value) <= group.len(),
    decreases group.len(),
{
    if group.len() > 0 {
        lemma_occurrences_bounded(group.drop_last(), value);
    }
}

pub proof fn lemma_occurrences_push(group: Seq<u8>, next: u8, value: u8)
    ensures
        occurrences(group.push(next), value) == occurrences(group, value) + if next == value {
            1nat
        } else {
            0nat
        },
{
    assert(group.push(next).drop_last() =~= group);
}

/// Two different values cannot both fill more than their share of a group.
pub proof fn lemma_occurrences_disjoint(group: Seq<u8>, first: u8, second: u8)
    requires
        first != second,
    ensures
        occurrences(group, first) + occurrences(group, second) <= group.len(),
    decreases group.len(),
{
    if group.len() > 0 {
        lemma_occurrences_disjoint(group.drop_last(), first, second);
    }
}

/// A vote has exactly one winner.
pub proof fn lemma_vote_is_unique(group: Seq<u8>, winner: u8)
    requires
        wins_vote(group, winner),
    ensures
        majority_byte(group) == winner,
{
    let chosen = majority_byte(group);
    assert(occurrences(group, chosen) <= occurrences(group, winner));
}

/// A value that fills more than half of a group wins its vote.
pub proof fn lemma_strict_majority_wins(group: Seq<u8>, value: u8)
    requires
        2 * mismatches(group, value) < group.len(),
    ensures
        majority_byte(group) == value,
{
    assert forall|other: u8|
        {
            &&& #[trigger] occurrences(group, other) <= occurrences(group, value)
            &&& occurrences(group, other) == occurrences(group, value) ==> value <= other
        } by {
        if other != value {
            lemma_occurrences_disjoint(group, value, other);
        }
    }
    lemma_vote_is_unique(group, value);
}

/// The header of a blob declares its length modulo 2^32.
pub proof fn lemma_header_declares_length(length: nat, rest: Seq<u8>)
    ensures
        declared_length(length_header(length) + rest) == length % 0x1_0000_0000,
{
    let blob = length_header(length) + rest;
    let low = length / 256;
    let middle = low / 256;
    let high = middle / 256;
    assert(blob[3] == length_header(length)[3] == high % 256);
}

/// A blob has four bytes more than `factor` times the bytes of its data.
pub proof fn lemma_blob_length(data: Seq<u8>, factor: nat)
    ensures
        encoded_blob(data, factor).len() == 4 + data.len() * factor,
{
}

/// The groups of a blob of full length lie inside it and have `factor` bytes.
pub proof fn lemma_group_length(blob: Seq<u8>, count: nat, index: int, factor: nat)
    requires
        blob.len() == 4 + count * factor,
        0 <= index < count,
    ensures
        0 <= index * factor,
        (index + 1) * factor == index * factor + factor,
        4 + (index + 1) * factor <= blob.len(),
        group_of(blob, index, factor).len() == factor,
{
    assert(0 <= index * factor && (index + 1) * factor == index * factor + factor && (index + 1)
        * factor <= count * factor) by (nonlinear_arith)
        requires
            0 <= index < count,
    ;
}

/// A value that fills a whole group occurs in it as often as the group is long.
pub proof fn lemma_occurrences_of_constant(group: Seq<u8>, value: u8)
    requires
        forall|k: int| 0 <= k < group.len() ==> group[k] == value,
    ensures
        occurrences(group, value) == group.len(),
    decreases group.len(),
{
    if group.len() > 0 {
        lemma_occurrences_of_constant(group.drop_last(), value);
    }
}

/// Decoding recovers the encoded bytes although up to `(factor - 1) / 2` of
/// the copies of each byte were altered, as long as the header is intact and
/// the length fits the header.
pub proof fn lemma_decoding_corrects_errors(received: Seq<u8>, data: Seq<u8>, factor: nat)
    requires
        data.len() < 0x1_0000_0000,
        is_tolerable_corruption(received, data, factor),
    ensures
        is_framed(received, factor),
        decoded_blob(received, factor) == data,
{
    assert forall|i: int| 0 <= i < data.len() implies majority_byte(
        #[trigger] group_of(received, i, factor),
    ) == data[i] by {
        lemma_group_length(received, data.len(), i, factor);
        lemma_strict_majority_wins(group_of(received, i, factor), data[i]);
    }
}

/// An unaltered blob is a tolerable corruption of its own data.
pub proof fn lemma_encoding_is_uncorrupted(data: Seq<u8>, factor: nat)
    requires
        factor >= 1,
    ensures
        is_tolerable_corruption(encoded_blob(data, factor), data, factor),
{
    let blob = encoded_blob(data, factor);
    assert(blob.subrange(0, 4) =~= length_header(data.len()));
    assert forall|i: int| 0 <= i < data.len() implies mismatches(
        #[trigger] group_of(blob, i, factor),
        data[i],
    ) <= (factor - 1) / 2 by {
        lemma_group_length(blob, data.len(), i, factor);
        let group = group_of(blob, i, factor);
        assert forall|k: int| 0 <= k < group.len() implies group[k] == data[i] by {
            assert((i * factor + k) / factor as int == i) by (nonlinear_arith)
                requires
                    0 <= k < factor,
                    0 <= i,
            ;
        }
        lemma_occurrences_of_constant(group, data[i]);
    }
}

/// Decoding undoes encoding for every repetition factor of at least one and
/// every length that fits the header.
pub proof fn lemma_decoding_inverts_encoding(data: Seq<u8>, factor: nat)
    requires
        data.len() < 0x1_0000_0000,
        factor >= 1,
    ensures
        is_framed(encoded_blob(data, factor), factor),
        decoded_blob(encoded_blob(data, factor), factor) == data,
{
    lemma_encoding_is_uncorrupted(data, factor);
    lemma_decoding_corrects_errors(encoded_blob(data, factor), data, factor);
}

} // verus!
