//! Little-endian integers on the wire.

use byteorder::{ByteOrder, LittleEndian};
use vstd::prelude::*;

verus! {

/// The two bytes of `value`, low byte first.
pub open spec fn u16_le_bytes(value: u16) -> Seq<u8> {
    seq![(value % 256) as u8, (value / 256) as u8]
}

/// The number that the first two of `bytes` stand for, low byte first.
pub open spec fn u16_from_le_bytes(bytes: Seq<u8>) -> u16 {
    (bytes[0] as int + 256 * (bytes[1] as int)) as u16
}

/// The four bytes of `value`, low byte first.
pub open spec fn u32_le_bytes(value: u32) -> Seq<u8> {
    seq![
        (value % 256) as u8,
        (value / 256 % 256) as u8,
        (value / 65536 % 256) as u8,
        (value / 16777216) as u8,
    ]
}

/// The number that the first four of `bytes` stand for, low byte first.
pub open spec fn u32_from_le_bytes(bytes: Seq<u8>) -> u32 {
    (bytes[0] as int + 256 * (bytes[1] as int) + 65536 * (bytes[2] as int) + 16777216 * (
    bytes[3] as int)) as u32
}

/// Reading back what was written gives the number that was written.
pub proof fn lemma_u16_round_trip(value: u16)
    ensures
        u16_le_bytes(value).len() == 2,
        u16_from_le_bytes(u16_le_bytes(value)) == value,
{
}

/// Reading back what was written gives the number that was written.
pub proof fn lemma_u32_round_trip(value: u32)
    ensures
        u32_le_bytes(value).len() == 4,
        u32_from_le_bytes(u32_le_bytes(value)) == value,
{
}

/// Calls `byteorder::LittleEndian::write_u16` on a buffer of two bytes and
/// returns the buffer. The contract says that the low byte comes first: the
/// crate writes `u16::to_le_bytes` of the value.
#[verifier::external_body]
pub(crate) fn write_u16(value: u16) -> (bytes: [u8; 2])
    ensures
        bytes@ == u16_le_bytes(value),
{
    let mut bytes = [0u8; 2];
    LittleEndian::write_u16(&mut bytes, value);
    bytes
}

/// Calls `byteorder::LittleEndian::read_u16`, which panics on fewer than two
/// bytes and reads `u16::from_le_bytes` of the first two otherwise.
#[verifier::external_body]
pub(crate) fn read_u16(bytes: &[u8]) -> (value: u16)
    requires
        bytes@.len() >= 2,
    ensures
        value == u16_from_le_bytes(bytes@),
{
    LittleEndian::read_u16(bytes)
}

/// Calls `byteorder::LittleEndian::write_u32` on a buffer of four bytes and
/// returns the buffer. The contract says that the low byte comes first: the
/// crate writes `u32::to_le_bytes` of the value.
#[verifier::external_body]
pub(crate) fn write_u32(value: u32) -> (bytes: [u8; 4])
    ensures
        bytes@ == u32_le_bytes(value),
{
    let mut bytes = [0u8; 4];
    LittleEndian::write_u32(&mut bytes, value);
    bytes
}

/// Calls `byteorder::LittleEndian::read_u32`, which panics on fewer than
/// four bytes and reads `u32::from_le_bytes` of the first four otherwise.
#[verifier::external_body]
pub(crate) fn read_u32(bytes: &[u8]) -> (value: u32)
    requires
        bytes@.len() >= 4,
    ensures
        value == u32_from_le_bytes(bytes@),
{
    LittleEndian::read_u32(bytes)
}

/// Appends the two bytes of `value` to `dest`, low byte first.
pub fn put_u16(dest: &mut Vec<u8>, value: u16)
    ensures
        final(dest)@ == old(dest)@ + u16_le_bytes(value),
{
    let bytes = write_u16(value);
    dest.push(bytes[0]);
    dest.push(bytes[1]);
    assert(dest@ =~= old(dest)@ + u16_le_bytes(value));
}

/// Appends the four bytes of `value` to `dest`, low byte first.
pub fn put_u32(dest: &mut Vec<u8>, value: u32)
    ensures
        final(dest)@ == old(dest)@ + u32_le_bytes(value),
{
    let bytes = write_u32(value);
    dest.push(bytes[0]);
    dest.push(bytes[1]);
    dest.push(bytes[2]);
    dest.push(bytes[3]);
    assert(dest@ =~= old(dest)@ + u32_le_bytes(value));
}

/// Appends `bytes` to `dest`.
pub fn put_bytes(dest: &mut Vec<u8>, bytes: &[u8])
    ensures
        final(dest)@ == old(dest)@ + bytes@,
{
    dest.extend_from_slice(bytes);
    assert(dest@ =~= old(dest)@ + bytes@);
}

/// Reads the two bytes at `at`, low byte first, if there are two.
pub fn get_u16(src: &[u8], at: usize) -> (value: Option<u16>)
    ensures
        match value {
            Some(v) => at + 2 <= src@.len() <= usize::MAX && v == u16_from_le_bytes(
                src@.skip(at as int),
            ),
            None => at + 2 > src@.len(),
        },
{
    if at > src.len() || src.len() - at < 2 {
        return None;
    }
    let v = read_u16(vstd::slice::slice_subrange(src, at, src.len()));
    assert(src@.subrange(at as int, src@.len() as int) == src@.skip(at as int));
    Some(v)
}

/// Reads the four bytes at `at`, low byte first, if there are four.
pub fn get_u32(src: &[u8], at: usize) -> (value: Option<u32>)
    ensures
        match value {
            Some(v) => at + 4 <= src@.len() <= usize::MAX && v == u32_from_le_bytes(
                src@.skip(at as int),
            ),
            None => at + 4 > src@.len(),
        },
{
    if at > src.len() || src.len() - at < 4 {
        return None;
    }
    let v = read_u32(vstd::slice::slice_subrange(src, at, src.len()));
    assert(src@.subrange(at as int, src@.len() as int) == src@.skip(at as int));
    Some(v)
}

} // verus!
