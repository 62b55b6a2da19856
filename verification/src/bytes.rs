//! Integers stored as bytes.

use vstd::prelude::*;

verus! {

/// The number whose little-endian digits, base 256, are `bytes`.
pub open spec fn le_value(bytes: Seq<u8>) -> nat
    decreases bytes.len(),
{
    if bytes.len() == 0 {
        0
    } else {
        bytes[0] as nat + 256 * le_value(bytes.skip(1))
    }
}

/// The number whose big-endian digits, base 256, are `bytes`.
pub open spec fn be_value(bytes: Seq<u8>) -> nat
    decreases bytes.len(),
{
    if bytes.len() == 0 {
        0
    } else {
        be_value(bytes.drop_last()) * 256 + bytes.last() as nat
    }
}

/// The low half of a 64-bit word.
pub open spec fn spec_low_word(x: u64) -> u32 {
    (x % 0x1_0000_0000) as u32
}

/// The high half of a 64-bit word.
pub open spec fn spec_high_word(x: u64) -> u32 {
    (x / 0x1_0000_0000) as u32
}

#[verifier::when_used_as_spec(spec_low_word)]
pub fn low_word(x: u64) -> (word: u32)
    ensures
        word == spec_low_word(x),
{
    (x % 0x1_0000_0000) as u32
}

#[verifier::when_used_as_spec(spec_high_word)]
pub fn high_word(x: u64) -> (word: u32)
    ensures
        word == spec_high_word(x),
{
    (x / 0x1_0000_0000) as u32
}

/// Splits a 64-bit word in two halves and puts it together again.
pub proof fn law_words(x: u64)
    ensures
        high_word(x) * 0x1_0000_0000 + low_word(x) == x,
{
}

/// The first byte of a little-endian number counts least.
pub proof fn law_little_endian(bytes: Seq<u8>)
    ensures
        bytes.len() == 2 ==> le_value(bytes) == bytes[0] + 0x100 * bytes[1],
        bytes.len() == 4 ==> le_value(bytes) == bytes[0] + 0x100 * bytes[1] + 0x1_0000 * bytes[2]
            + 0x100_0000 * bytes[3],
        bytes.len() == 8 ==> le_value(bytes) == bytes[0] + 0x100 * bytes[1] + 0x1_0000 * bytes[2]
            + 0x100_0000 * bytes[3] + 0x1_0000_0000 * bytes[4] + 0x100_0000_0000 * bytes[5]
            + 0x1_0000_0000_0000 * bytes[6] + 0x100_0000_0000_0000 * bytes[7],
{
    reveal_with_fuel(le_value, 9);
}

/// The first byte of a big-endian number counts most.
pub proof fn law_big_endian(bytes: Seq<u8>)
    ensures
        bytes.len() == 4 ==> be_value(bytes) == bytes[3] + 0x100 * bytes[2] + 0x1_0000 * bytes[1]
            + 0x100_0000 * bytes[0],
        bytes.len() == 8 ==> be_value(bytes) == bytes[7] + 0x100 * bytes[6] + 0x1_0000 * bytes[5]
            + 0x100_0000 * bytes[4] + 0x1_0000_0000 * bytes[3] + 0x100_0000_0000 * bytes[2]
            + 0x1_0000_0000_0000 * bytes[1] + 0x100_0000_0000_0000 * bytes[0],
{
    reveal_with_fuel(be_value, 9);
}

/// Reads the little-endian 32-bit number at `offset`.
pub fn le32(bytes: &[u8], offset: usize) -> (value: u32)
    requires
        offset + 4 <= bytes@.len(),
    ensures
        value == le_value(bytes@.subrange(offset as int, offset + 4)),
{
    proof {
        law_little_endian(bytes@.subrange(offset as int, offset + 4));
    }
    bytes[offset] as u32 + 0x100 * (bytes[offset + 1] as u32) + 0x1_0000 * (bytes[offset
        + 2] as u32) + 0x100_0000 * (bytes[offset + 3] as u32)
}

/// Reads the little-endian 64-bit number at `offset`.
pub fn le64(bytes: &[u8], offset: usize) -> (value: u64)
    requires
        offset + 8 <= bytes@.len(),
    ensures
        value == le_value(bytes@.subrange(offset as int, offset + 8)),
{
    proof {
        law_little_endian(bytes@.subrange(offset as int, offset + 8));
    }
    bytes[offset] as u64 + 0x100 * (bytes[offset + 1] as u64) + 0x1_0000 * (bytes[offset
        + 2] as u64) + 0x100_0000 * (bytes[offset + 3] as u64) + 0x1_0000_0000 * (bytes[offset
        + 4] as u64) + 0x100_0000_0000 * (bytes[offset + 5] as u64) + 0x1_0000_0000_0000 * (
    bytes[offset + 6] as u64) + 0x100_0000_0000_0000 * (bytes[offset + 7] as u64)
}

/// Reads the big-endian 32-bit number at `offset`.
pub fn be32(bytes: &[u8], offset: usize) -> (value: u32)
    requires
        offset + 4 <= bytes@.len(),
    ensures
        value == be_value(bytes@.subrange(offset as int, offset + 4)),
{
    proof {
        law_big_endian(bytes@.subrange(offset as int, offset + 4));
    }
    0x100_0000 * (bytes[offset] as u32) + 0x1_0000 * (bytes[offset + 1] as u32) + 0x100 * (
    bytes[offset + 2] as u32) + bytes[offset + 3] as u32
}

/// Reads the big-endian 64-bit number at `offset`.
pub fn be64(bytes: &[u8], offset: usize) -> (value: u64)
    requires
        offset + 8 <= bytes@.len(),
    ensures
        value == be_value(bytes@.subrange(offset as int, offset + 8)),
{
    proof {
        law_big_endian(bytes@.subrange(offset as int, offset + 8));
    }
    0x100_0000_0000_0000 * (bytes[offset] as u64) + 0x1_0000_0000_0000 * (bytes[offset
        + 1] as u64) + 0x100_0000_0000 * (bytes[offset + 2] as u64) + 0x1_0000_0000 * (bytes[offset
        + 3] as u64) + 0x100_0000 * (bytes[offset + 4] as u64) + 0x1_0000 * (bytes[offset
        + 5] as u64) + 0x100 * (bytes[offset + 6] as u64) + bytes[offset + 7] as u64
}

} // verus!
