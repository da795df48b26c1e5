//! The in-image bit layout: 32 bits of payload length, most significant
//! first, then the payload bytes, each most significant bit first.

use vstd::prelude::*;
use crate::error::Failure;
use crate::text::decimal_digits;

verus! {

/// Bit `index` of the header for a payload of `length` bytes; index 0 is the
/// most significant bit of the length taken modulo 2^32.
pub open spec fn header_bit(length: nat, index: int) -> u8 {
    (((length % 0x1_0000_0000) as u32 >> ((31 - index) as u32)) & 1) as u8
}

/// Bit `index` of `byte`; index 0 is its most significant bit.
pub open spec fn payload_bit(byte: u8, index: int) -> u8 {
    ((byte >> ((7 - index) as u8)) & 1) as u8
}

/// The bit sequence that frames `payload`.
pub open spec fn framed_bits(payload: Seq<u8>) -> Seq<u8> {
    Seq::new(
        32 + 8 * payload.len(),
        |k: int|
            if k < 32 {
                header_bit(payload.len(), k)
            } else {
                payload_bit(payload[(k - 32) / 8], (k - 32) % 8)
            },
    )
}

/// The 32-bit number that results from shifting the entries of `bits` in
/// from the right, first entry first.
pub open spec fn gathered_u32(bits: Seq<u8>) -> u32
    decreases bits.len(),
{
    if bits.len() == 0 {
        0
    } else {
        (gathered_u32(bits.drop_last()) << 1) | (bits.last() as u32)
    }
}

/// The byte that results from shifting the entries of `bits` in from the
/// right, first entry first.
pub open spec fn gathered_u8(bits: Seq<u8>) -> u8
    decreases bits.len(),
{
    if bits.len() == 0 {
        0
    } else {
        (gathered_u8(bits.drop_last()) << 1) | bits.last()
    }
}

/// The payload length that the first 32 entries of `bits` declare.
pub open spec fn framed_length(bits: Seq<u8>) -> nat
    recommends
        bits.len() >= 32,
{
    gathered_u32(bits.take(32)) as nat
}

/// The eight entries of `bits` that hold payload byte `index`.
pub open spec fn byte_bits(bits: Seq<u8>, index: int) -> Seq<u8> {
    bits.subrange(32 + 8 * index, 40 + 8 * index)
}

/// The payload that `bits` holds behind a complete header.
pub open spec fn unframed_payload(bits: Seq<u8>) -> Seq<u8> {
    Seq::new(framed_length(bits), |i: int| gathered_u8(byte_bits(bits, i)))
}

/// The message for a bit sequence shorter than the header.
pub open spec fn incomplete_header_message() -> Seq<char> {
    "Not enough bits for length header"@
}

/// The message for a bit sequence shorter than its header declares.
pub open spec fn incomplete_payload_message(expected: nat, actual: nat) -> Seq<char> {
    "Not enough data bits. Expected "@ + decimal_digits(expected) + ", got "@ + decimal_digits(
        actual,
    )
}

/// What unframing `bits` yields: the payload, or why there is none. Entries
/// behind the declared payload are ignored.
pub open spec fn unframing_result(bits: Seq<u8>) -> Result<Seq<u8>, Failure> {
    if bits.len() < 32 {
        Err(Failure::InvalidInput(incomplete_header_message()))
    } else if bits.len() - 32 < 8 * framed_length(bits) {
        Err(
            Failure::InvalidInput(
                incomplete_payload_message(8 * framed_length(bits), (bits.len() - 32) as nat),
            ),
        )
    } else {
        Ok(unframed_payload(bits))
    }
}

/// Every entry of `bits` is 0 or 1.
pub open spec fn is_bit_sequence(bits: Seq<u8>) -> bool {
    forall|k: int| 0 <= k < bits.len() ==> bits[k] <= 1
}

/// The number that `bits` writes in binary, first entry most significant.
pub open spec fn binary_value(bits: Seq<u8>) -> nat
    decreases bits.len(),
{
    if bits.len() == 0 {
        0
    } else {
        2 * binary_value(bits.drop_last()) + bits.last() as nat
    }
}

/// Shifting one more entry in extends the gathered number.
pub proof fn lemma_gathered_u32_push(bits: Seq<u8>, bit: u8)
    ensures
        gathered_u32(bits.push(bit)) == (gathered_u32(bits) << 1) | (bit as u32),
{
    assert(bits.push(bit).drop_last() =~= bits);
}

/// Shifting one more entry in extends the gathered byte.
pub proof fn lemma_gathered_u8_push(bits: Seq<u8>, bit: u8)
    ensures
        gathered_u8(bits.push(bit)) == (gathered_u8(bits) << 1) | bit,
{
    assert(bits.push(bit).drop_last() =~= bits);
}

/// `count` bits write a number below 2^`count`.
pub proof fn lemma_binary_value_bound(bits: Seq<u8>)
    requires
        is_bit_sequence(bits),
    ensures
        binary_value(bits) < vstd::arithmetic::power2::pow2(bits.len()),
    decreases bits.len(),
{
    if bits.len() == 0 {
        vstd::arithmetic::power2::lemma2_to64();
    } else {
        lemma_binary_value_bound(bits.drop_last());
        vstd::arithmetic::power2::lemma_pow2_unfold(bits.len());
    }
}

/// Up to 32 entries that are all 0 or 1 gather to the number that they
/// write in binary.
pub proof fn lemma_gathered_u32_is_binary_value(bits: Seq<u8>)
    requires
        is_bit_sequence(bits),
        bits.len() <= 32,
    ensures
        gathered_u32(bits) == binary_value(bits),
    decreases bits.len(),
{
    if bits.len() > 0 {
        let shorter = bits.drop_last();
        lemma_gathered_u32_is_binary_value(shorter);
        lemma_binary_value_bound(shorter);
        vstd::arithmetic::power2::lemma2_to64();
        let word = gathered_u32(shorter);
        let bit = bits.last() as u32;
        assert((word << 1) | bit == 2 * word + bit) by (bit_vector)
            requires
                word < 0x8000_0000,
                bit <= 1,
        ;
    }
}

/// Up to eight entries that are all 0 or 1 gather to the number that they
/// write in binary.
pub proof fn lemma_gathered_u8_is_binary_value(bits: Seq<u8>)
    requires
        is_bit_sequence(bits),
        bits.len() <= 8,
    ensures
        gathered_u8(bits) == binary_value(bits),
    decreases bits.len(),
{
    if bits.len() > 0 {
        let shorter = bits.drop_last();
        lemma_gathered_u8_is_binary_value(shorter);
        lemma_binary_value_bound(shorter);
        vstd::arithmetic::power2::lemma2_to64();
        let byte = gathered_u8(shorter);
        let bit = bits.last();
        assert((byte << 1) | bit == 2 * byte + bit) by (bit_vector)
            requires
                byte < 0x80,
                bit <= 1,
        ;
    }
}

/// Gathering the first `count` header bits of a length yields its top
/// `count` bits.
proof fn lemma_header_prefix(length: nat, bits: Seq<u8>, count: nat)
    requires
        count <= 32,
        bits.len() >= count,
        forall|k: int| 0 <= k < count ==> bits[k] == header_bit(length, k),
    ensures
        count == 0 ==> gathered_u32(bits.take(count as int)) == 0,
        count > 0 ==> gathered_u32(bits.take(count as int)) == ((length % 0x1_0000_0000) as u32)
            >> ((32 - count) as u32),
    decreases count,
{
    let word = (length % 0x1_0000_0000) as u32;
    if count > 0 {
        let shorter = (count - 1) as nat;
        lemma_header_prefix(length, bits, shorter);
        assert(bits.take(count as int) =~= bits.take(shorter as int).push(bits[shorter as int]));
        lemma_gathered_u32_push(bits.take(shorter as int), bits[shorter as int]);
        let shift = (31 - shorter) as u32;
        let bit = bits[shorter as int];
        assert((((word >> shift) & 1) as u8) as u32 == (word >> shift) & 1) by (bit_vector);
        if shorter == 0 {
            assert((0u32 << 1) | ((word >> 31) & 1) == word >> 31) by (bit_vector);
        } else {
            let above = (shift + 1) as u32;
            assert(((word >> above) << 1) | ((word >> shift) & 1) == word >> shift)
                by (bit_vector)
                requires
                    above == shift + 1,
                    shift < 31,
            ;
        }
    }
}

/// Gathering the first `count` bits of a byte yields its top `count` bits.
proof fn lemma_byte_prefix(byte: u8, bits: Seq<u8>, count: nat)
    requires
        count <= 8,
        bits.len() >= count,
        forall|k: int| 0 <= k < count ==> bits[k] == payload_bit(byte, k),
    ensures
        count == 0 ==> gathered_u8(bits.take(count as int)) == 0,
        count > 0 ==> gathered_u8(bits.take(count as int)) == byte >> ((8 - count) as u8),
    decreases count,
{
    if count > 0 {
        let shorter = (count - 1) as nat;
        lemma_byte_prefix(byte, bits, shorter);
        assert(bits.take(count as int) =~= bits.take(shorter as int).push(bits[shorter as int]));
        lemma_gathered_u8_push(bits.take(shorter as int), bits[shorter as int]);
        let shift = (7 - shorter) as u8;
        let bit = bits[shorter as int];
        if shorter == 0 {
            assert((0u8 << 1) | ((byte >> 7) & 1) == byte >> 7) by (bit_vector);
        } else {
            let above = (shift + 1) as u8;
            assert(((byte >> above) << 1) | ((byte >> shift) & 1) == byte >> shift)
                by (bit_vector)
                requires
                    above == shift + 1,
                    shift < 7,
            ;
        }
    }
}

/// A frame has 32 bits more than eight times the bytes of its payload.
pub proof fn lemma_frame_length(payload: Seq<u8>)
    ensures
        framed_bits(payload).len() == 32 + 8 * payload.len(),
{
}

/// The bits of a frame are bits.
pub proof fn lemma_framed_bits_are_bits(payload: Seq<u8>)
    ensures
        is_bit_sequence(framed_bits(payload)),
{
    let bits = framed_bits(payload);
    assert forall|k: int| 0 <= k < bits.len() implies bits[k] <= 1 by {
        if k < 32 {
            let word = (payload.len() % 0x1_0000_0000) as u32;
            let shift = (31 - k) as u32;
            assert((((word >> shift) & 1) as u8) <= 1) by (bit_vector);
        } else {
            let byte = payload[(k - 32) / 8];
            let shift = (7 - (k - 32) % 8) as u8;
            assert((((byte >> shift) & 1) as u8) <= 1) by (bit_vector);
        }
    }
}

/// A bit sequence that starts with the frame of `payload` declares the
/// length of `payload` modulo 2^32.
pub proof fn lemma_frame_declares_length(payload: Seq<u8>, bits: Seq<u8>)
    requires
        bits.len() >= 32,
        forall|k: int| 0 <= k < 32 ==> bits[k] == header_bit(payload.len(), k),
    ensures
        framed_length(bits) == payload.len() % 0x1_0000_0000,
{
    lemma_header_prefix(payload.len(), bits, 32);
    let word = (payload.len() % 0x1_0000_0000) as u32;
    assert(word >> 0u32 == word) by (bit_vector);
}

/// Unframing recovers a payload from its frame, whatever follows the frame,
/// as long as the payload's length fits the header.
pub proof fn lemma_unframing_inverts_framing(payload: Seq<u8>, trailing: Seq<u8>)
    requires
        payload.len() < 0x1_0000_0000,
    ensures
        unframing_result(framed_bits(payload) + trailing) == Ok::<Seq<u8>, Failure>(payload),
{
    let bits = framed_bits(payload) + trailing;
    lemma_frame_declares_length(payload, bits);
    assert forall|i: int| 0 <= i < payload.len() implies gathered_u8(byte_bits(bits, i))
        == payload[i] by {
        let group = byte_bits(bits, i);
        assert(forall|k: int| 0 <= k < 8 ==> group[k] == payload_bit(payload[i], k));
        lemma_byte_prefix(payload[i], group, 8);
        assert(group.take(8) =~= group);
        let byte = payload[i];
        assert(byte >> 0u8 == byte) by (bit_vector);
    }
    assert(unframed_payload(bits) =~= payload);
}

} // verus!
