//! Little-endian integers inside byte sequences.

use vstd::prelude::*;

verus! {

/// The two bytes that encode `value`, least significant first.
pub open spec fn u16_bytes(value: u16) -> Seq<u8> {
    seq![(value % 256) as u8, (value / 256) as u8]
}

/// The four bytes that encode `value`, least significant first.
pub open spec fn u32_bytes(value: u32) -> Seq<u8> {
    seq![
        (value % 256) as u8,
        (value / 256 % 256) as u8,
        (value / 65536 % 256) as u8,
        (value / 16777216) as u8,
    ]
}

/// The 16-bit integer stored at `offset`.
pub open spec fn u16_at(bytes: Seq<u8>, offset: int) -> u16 {
    (bytes[offset] + 256 * bytes[offset + 1]) as u16
}

/// The 32-bit integer stored at `offset`.
pub open spec fn u32_at(bytes: Seq<u8>, offset: int) -> u32 {
    (bytes[offset] + 256 * bytes[offset + 1] + 65536 * bytes[offset + 2] + 16777216
        * bytes[offset + 3]) as u32
}

/// `bytes` with the positions from `offset` on replaced by `source`.
pub open spec fn splice(bytes: Seq<u8>, offset: int, source: Seq<u8>) -> Seq<u8> {
    Seq::new(
        bytes.len(),
        |i: int|
            if offset <= i < offset + source.len() {
                source[i - offset]
            } else {
                bytes[i]
            },
    )
}

/// Reading a 16-bit integer back from its encoding gives the integer.
pub proof fn lemma_u16_round_trip(value: u16)
    ensures
        u16_at(u16_bytes(value), 0) == value,
{
}

/// Encoding the 16-bit integer read from two bytes gives the bytes back.
pub proof fn lemma_u16_bytes_of_read(bytes: Seq<u8>)
    requires
        bytes.len() == 2,
    ensures
        u16_bytes(u16_at(bytes, 0)) == bytes,
{
    assert(u16_bytes(u16_at(bytes, 0)) =~= bytes);
}

/// Reading a 32-bit integer back from its encoding gives the integer.
pub proof fn lemma_u32_round_trip(value: u32)
    ensures
        u32_at(u32_bytes(value), 0) == value,
{
}

/// Encoding the 32-bit integer read from four bytes gives the bytes back.
#[verifier::spinoff_prover]
pub proof fn lemma_u32_bytes_of_read(bytes: Seq<u8>)
    requires
        bytes.len() == 4,
    ensures
        u32_bytes(u32_at(bytes, 0)) == bytes,
{
    let value = u32_at(bytes, 0);
    let high = bytes[2] + 256 * bytes[3];
    let rest = bytes[1] + 256 * high;
    assert(value == bytes[0] + 256 * rest);
    lemma_lowest_digit(bytes[0] as int, rest);
    lemma_lowest_digit(bytes[1] as int, high);
    lemma_lowest_digit(bytes[2] as int, bytes[3] as int);
    assert(value as int / 65536 == value as int / 256 / 256);
    assert(value as int / 16777216 == value as int / 65536 / 256);
    assert(u32_bytes(value) =~= bytes);
}

/// Splitting off the lowest base-256 digit.
proof fn lemma_lowest_digit(digit: int, rest: int)
    requires
        0 <= digit < 256,
    ensures
        (digit + 256 * rest) % 256 == digit,
        (digit + 256 * rest) / 256 == rest,
{
}

/// Encodes `value` in little-endian order.
pub fn encode_u16(value: u16) -> (bytes: [u8; 2])
    ensures
        bytes@ == u16_bytes(value),
{
    let bytes = [(value % 256) as u8, (value / 256) as u8];
    assert(bytes@ =~= u16_bytes(value));
    bytes
}

/// Encodes `value` in little-endian order.
pub fn encode_u32(value: u32) -> (bytes: [u8; 4])
    ensures
        bytes@ == u32_bytes(value),
{
    let bytes = [
        (value % 256) as u8,
        (value / 256 % 256) as u8,
        (value / 65536 % 256) as u8,
        (value / 16777216) as u8,
    ];
    assert(bytes@ =~= u32_bytes(value));
    bytes
}

/// Reads the 16-bit integer at `offset`.
pub fn read_u16(bytes: &[u8], offset: usize) -> (value: u16)
    requires
        offset + 2 <= bytes@.len(),
    ensures
        value == u16_at(bytes@, offset as int),
{
    bytes[offset] as u16 + 256 * (bytes[offset + 1] as u16)
}

/// Reads the 32-bit integer at `offset`.
pub fn read_u32(bytes: &[u8], offset: usize) -> (value: u32)
    requires
        offset + 4 <= bytes@.len(),
    ensures
        value == u32_at(bytes@, offset as int),
{
    bytes[offset] as u32 + 256 * (bytes[offset + 1] as u32) + 65536 * (bytes[offset + 2] as u32)
        + 16777216 * (bytes[offset + 3] as u32)
}

/// The eight bytes that encode `value`, least significant first.
pub open spec fn u64_bytes(value: u64) -> Seq<u8> {
    u32_bytes((value % 0x1_0000_0000) as u32) + u32_bytes((value / 0x1_0000_0000) as u32)
}

/// The 64-bit integer stored at `offset`.
pub open spec fn u64_at(bytes: Seq<u8>, offset: int) -> u64 {
    (u32_at(bytes, offset) + 0x1_0000_0000 * u32_at(bytes, offset + 4)) as u64
}

/// The two's-complement bit pattern of `value`.
pub open spec fn i64_pattern(value: i64) -> u64 {
    if value >= 0 {
        value as u64
    } else {
        (value + 0x1_0000_0000_0000_0000) as u64
    }
}

/// The integer whose two's-complement bit pattern is `pattern`.
pub open spec fn i64_of_pattern(pattern: u64) -> i64 {
    if pattern <= i64::MAX {
        pattern as i64
    } else {
        (pattern - 0x1_0000_0000_0000_0000) as i64
    }
}

/// The eight bytes that encode `value`, least significant first.
pub open spec fn i64_bytes(value: i64) -> Seq<u8> {
    u64_bytes(i64_pattern(value))
}

/// The signed 64-bit integer stored at `offset`.
pub open spec fn i64_at(bytes: Seq<u8>, offset: int) -> i64 {
    i64_of_pattern(u64_at(bytes, offset))
}

/// Reading a 64-bit integer back from its encoding gives the integer.
pub proof fn lemma_u64_round_trip(value: u64)
    ensures
        u64_bytes(value).len() == 8,
        u64_at(u64_bytes(value), 0) == value,
{
    let low = (value % 0x1_0000_0000) as u32;
    let high = (value / 0x1_0000_0000) as u32;
    let bytes = u64_bytes(value);
    lemma_u32_round_trip(low);
    lemma_u32_round_trip(high);
    assert(bytes.subrange(0, 4) =~= u32_bytes(low));
    assert(bytes.subrange(4, 8) =~= u32_bytes(high));
    lemma_u32_at_subrange(bytes, 0);
    lemma_u32_at_subrange(bytes, 4);
}

/// Encoding the 64-bit integer read from eight bytes gives the bytes back.
#[verifier::spinoff_prover]
pub proof fn lemma_u64_bytes_of_read(bytes: Seq<u8>)
    requires
        bytes.len() == 8,
    ensures
        u64_bytes(u64_at(bytes, 0)) == bytes,
{
    let low = bytes.subrange(0, 4);
    let high = bytes.subrange(4, 8);
    lemma_u32_bytes_of_read(low);
    lemma_u32_bytes_of_read(high);
    lemma_u32_at_subrange(bytes, 0);
    lemma_u32_at_subrange(bytes, 4);
    lemma_halves(u32_at(bytes, 0), u32_at(bytes, 4));
    assert(low + high =~= bytes);
}

/// A 64-bit integer falls apart into the two halves that it is made of.
proof fn lemma_halves(low: u32, high: u32)
    ensures
        ((low + 0x1_0000_0000 * high) as u64 % 0x1_0000_0000) as u32 == low,
        ((low + 0x1_0000_0000 * high) as u64 / 0x1_0000_0000) as u32 == high,
{
}

/// A 32-bit integer depends only on the four bytes where it is stored.
pub proof fn lemma_u32_at_subrange(bytes: Seq<u8>, offset: int)
    requires
        0 <= offset,
        offset + 4 <= bytes.len(),
    ensures
        u32_at(bytes, offset) == u32_at(bytes.subrange(offset, offset + 4), 0),
{
}

/// A 64-bit integer depends only on the eight bytes where it is stored.
pub proof fn lemma_u64_at_subrange(bytes: Seq<u8>, offset: int)
    requires
        0 <= offset,
        offset + 8 <= bytes.len(),
    ensures
        u64_at(bytes, offset) == u64_at(bytes.subrange(offset, offset + 8), 0),
{
}

/// Reading a signed integer back from its encoding gives the integer.
pub proof fn lemma_i64_round_trip(value: i64)
    ensures
        i64_bytes(value).len() == 8,
        i64_at(i64_bytes(value), 0) == value,
{
    lemma_u64_round_trip(i64_pattern(value));
}

/// Encoding the signed integer read from eight bytes gives the bytes back.
pub proof fn lemma_i64_bytes_of_read(bytes: Seq<u8>)
    requires
        bytes.len() == 8,
    ensures
        i64_bytes(i64_at(bytes, 0)) == bytes,
{
    lemma_u64_bytes_of_read(bytes);
}

/// Encodes `value` in little-endian order.
pub fn encode_u64(value: u64) -> (bytes: [u8; 8])
    ensures
        bytes@ == u64_bytes(value),
{
    let low = encode_u32((value % 0x1_0000_0000) as u32);
    let high = encode_u32((value / 0x1_0000_0000) as u32);
    let bytes = [low[0], low[1], low[2], low[3], high[0], high[1], high[2], high[3]];
    assert(bytes@ =~= u64_bytes(value));
    bytes
}

/// Encodes `value` in little-endian order.
pub fn encode_i64(value: i64) -> (bytes: [u8; 8])
    ensures
        bytes@ == i64_bytes(value),
{
    let pattern: u64 = if value >= 0 {
        value as u64
    } else {
        u64::MAX - (-(value + 1)) as u64
    };
    encode_u64(pattern)
}

/// Reads the 64-bit integer at `offset`.
pub fn read_u64(bytes: &[u8], offset: usize) -> (value: u64)
    requires
        offset + 8 <= bytes@.len(),
    ensures
        value == u64_at(bytes@, offset as int),
{
    assert(offset + 8 <= bytes.len());
    read_u32(bytes, offset) as u64 + 0x1_0000_0000 * (read_u32(bytes, offset + 4) as u64)
}

/// Reads the signed 64-bit integer at `offset`.
pub fn read_i64(bytes: &[u8], offset: usize) -> (value: i64)
    requires
        offset + 8 <= bytes@.len(),
    ensures
        value == i64_at(bytes@, offset as int),
{
    let pattern: u64 = read_u64(bytes, offset);
    if pattern <= i64::MAX as u64 {
        pattern as i64
    } else {
        -((u64::MAX - pattern) as i64) - 1
    }
}

/// Appends `source` to `bytes`.
pub fn append(bytes: &mut Vec<u8>, source: &[u8])
    ensures
        final(bytes)@ == old(bytes)@ + source@,
{
    bytes.extend_from_slice(source);
    assert(bytes@ =~= old(bytes)@ + source@);
}

/// Whether two byte strings are the same.
pub fn equal(left: &[u8], right: &[u8]) -> (result: bool)
    ensures
        result == (left@ == right@),
{
    if left.len() != right.len() {
        return false;
    }
    let mut i: usize = 0;
    while i < left.len()
        invariant
            i <= left@.len(),
            left@.len() == right@.len(),
            forall|j: int| 0 <= j < i ==> left@[j] == right@[j],
        decreases left@.len() - i,
    {
        if left[i] != right[i] {
            return false;
        }
        i += 1;
    }
    assert(left@ =~= right@);
    true
}

/// Integers are stored with their lowest byte first.
pub proof fn integers_are_little_endian(small: u16, middle: u32, large: u64)
    ensures
        u16_bytes(small).len() == 2,
        small == u16_bytes(small)[0] + 0x100 * u16_bytes(small)[1],
        u32_bytes(middle).len() == 4,
        middle == u32_bytes(middle)[0] + 0x100 * u32_bytes(middle)[1] + 0x1_0000 * u32_bytes(
            middle,
        )[2] + 0x100_0000 * u32_bytes(middle)[3],
        u64_bytes(large).len() == 8,
        u64_bytes(large).take(4) == u32_bytes((large % 0x1_0000_0000) as u32),
        u64_bytes(large).skip(4) == u32_bytes((large / 0x1_0000_0000) as u32),
{
    assert(u64_bytes(large).take(4) =~= u32_bytes((large % 0x1_0000_0000) as u32));
    assert(u64_bytes(large).skip(4) =~= u32_bytes((large / 0x1_0000_0000) as u32));
}

/// Integers are read with their lowest byte first.
pub proof fn integers_are_read_little_endian(bytes: Seq<u8>, offset: int)
    ensures
        u16_at(bytes, offset) == bytes[offset] + 0x100 * bytes[offset + 1],
        u32_at(bytes, offset) == bytes[offset] + 0x100 * bytes[offset + 1] + 0x1_0000
            * bytes[offset + 2] + 0x100_0000 * bytes[offset + 3],
        u64_at(bytes, offset) == u32_at(bytes, offset) + 0x1_0000_0000 * u32_at(
            bytes,
            offset + 4,
        ),
{
}

/// Signed integers are stored in two's complement: a negative one as the integer that
/// is larger by the number of all patterns.
pub proof fn signed_integers_are_stored_in_twos_complement(value: i64)
    ensures
        value >= 0 ==> i64_bytes(value) == u64_bytes(value as u64),
        value < 0 ==> i64_bytes(value) == u64_bytes((value + 0x1_0000_0000_0000_0000) as u64),
{
}

/// Bytes that are stored are read back, and all others stay.
pub proof fn stored_bytes_are_read_back(bytes: Seq<u8>, offset: int, source: Seq<u8>)
    requires
        0 <= offset,
        offset + source.len() <= bytes.len(),
    ensures
        splice(bytes, offset, source).len() == bytes.len(),
        splice(bytes, offset, source).subrange(offset, offset + source.len()) == source,
        splice(bytes, offset, source).take(offset) == bytes.take(offset),
        splice(bytes, offset, source).skip(offset + source.len()) == bytes.skip(
            offset + source.len(),
        ),
{
    let after = splice(bytes, offset, source);
    assert(after.subrange(offset, offset + source.len()) =~= source);
    assert(after.take(offset) =~= bytes.take(offset));
    assert(after.skip(offset + source.len()) =~= bytes.skip(offset + source.len()));
}

} // verus!
