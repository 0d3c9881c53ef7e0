//! Fixed-width little-endian scalar codec.
//!
//! All multi-byte scalars in a DEX image are little-endian.  These
//! readers thread a byte cursor through a slice and fail with
//! `BadOffset` when the slice is too short; the writers append to a
//! growing buffer.  Specifications are stated over vstd's little-endian
//! byte-sequence models.

use vstd::bytes::{
    spec_u16_from_le_bytes, spec_u16_to_le_bytes, spec_u32_from_le_bytes, spec_u32_to_le_bytes,
};
use vstd::prelude::*;

verus! {

/// Failure of a fixed-width read: the cursor (plus the scalar's width)
/// falls outside the slice.
#[derive(Debug, Clone, Copy, PartialEq, Eq, Structural)]
pub struct BadOffset(pub u64);

/// Outcome of parsing a variable-length item at the head of a byte
/// sequence: the item and its byte length, or one of two failures —
/// the bytes ran out, or a byte violated the format.
pub enum Parsed<T> {
    /// The item and the number of bytes it occupied.
    Value(T, nat),
    /// The sequence ended before the item did.
    Truncated,
    /// A byte violated the item's format.
    Invalid,
}

/// The `u16` stored little-endian at `pos`.
pub open spec fn le16_at(s: Seq<u8>, pos: int) -> u16 {
    spec_u16_from_le_bytes(s.subrange(pos, pos + 2))
}

/// The `u32` stored little-endian at `pos`.
pub open spec fn le32_at(s: Seq<u8>, pos: int) -> u32 {
    spec_u32_from_le_bytes(s.subrange(pos, pos + 4))
}

/// Reads one byte, advancing the cursor.
pub fn read_u8(src: &[u8], offset: &mut usize) -> (r: Result<u8, BadOffset>)
    ensures
        match r {
            Ok(v) => {
                &&& *old(offset) + 1 <= src@.len()
                &&& v == src@[*old(offset) as int]
                &&& *final(offset) == *old(offset) + 1
            },
            Err(e) => {
                &&& *old(offset) + 1 > src@.len()
                &&& *final(offset) == *old(offset)
                &&& e == BadOffset(*old(offset) as u64)
            },
        },
{
    if *offset < src.len() {
        let v = src[*offset];
        *offset = *offset + 1;
        Ok(v)
    } else {
        Err(BadOffset(*offset as u64))
    }
}

/// Reads a little-endian `u16`, advancing the cursor.
pub fn read_u16(src: &[u8], offset: &mut usize) -> (r: Result<u16, BadOffset>)
    ensures
        match r {
            Ok(v) => {
                &&& *old(offset) + 2 <= src@.len()
                &&& v == le16_at(src@, *old(offset) as int)
                &&& *final(offset) == *old(offset) + 2
            },
            Err(e) => {
                &&& *old(offset) + 2 > src@.len()
                &&& *final(offset) == *old(offset)
                &&& e == BadOffset(*old(offset) as u64)
            },
        },
{
    if *offset < src.len() && 2 <= src.len() - *offset {
        let part = vstd::slice::slice_subrange(src, *offset, *offset + 2);
        let v = vstd::bytes::u16_from_le_bytes(part);
        *offset = *offset + 2;
        Ok(v)
    } else {
        Err(BadOffset(*offset as u64))
    }
}

/// Reads a little-endian `u32`, advancing the cursor.
pub fn read_u32(src: &[u8], offset: &mut usize) -> (r: Result<u32, BadOffset>)
    ensures
        match r {
            Ok(v) => {
                &&& *old(offset) + 4 <= src@.len()
                &&& v == le32_at(src@, *old(offset) as int)
                &&& *final(offset) == *old(offset) + 4
            },
            Err(e) => {
                &&& *old(offset) + 4 > src@.len()
                &&& *final(offset) == *old(offset)
                &&& e == BadOffset(*old(offset) as u64)
            },
        },
{
    if *offset < src.len() && 4 <= src.len() - *offset {
        let part = vstd::slice::slice_subrange(src, *offset, *offset + 4);
        let v = vstd::bytes::u32_from_le_bytes(part);
        *offset = *offset + 4;
        Ok(v)
    } else {
        Err(BadOffset(*offset as u64))
    }
}

/// Appends a little-endian `u16`.
pub fn write_u16(dst: &mut Vec<u8>, v: u16)
    ensures
        final(dst)@ == old(dst)@ + spec_u16_to_le_bytes(v),
{
    let bytes = vstd::bytes::u16_to_le_bytes(v);
    let b0 = bytes[0];
    let b1 = bytes[1];
    dst.push(b0);
    dst.push(b1);
    assert(dst@ =~= old(dst)@ + spec_u16_to_le_bytes(v));
}

/// Appends a little-endian `u32`.
pub fn write_u32(dst: &mut Vec<u8>, v: u32)
    ensures
        final(dst)@ == old(dst)@ + spec_u32_to_le_bytes(v),
{
    let bytes = vstd::bytes::u32_to_le_bytes(v);
    let b0 = bytes[0];
    let b1 = bytes[1];
    let b2 = bytes[2];
    let b3 = bytes[3];
    dst.push(b0);
    dst.push(b1);
    dst.push(b2);
    dst.push(b3);
    assert(dst@ =~= old(dst)@ + spec_u32_to_le_bytes(v));
}

/// A little-endian `u16` read back from its own bytes is itself, and
/// the bytes of a read value re-serialize exactly.
pub proof fn lemma_le16_round_trip(v: u16, s: Seq<u8>)
    ensures
        spec_u16_from_le_bytes(spec_u16_to_le_bytes(v)) == v,
        s.len() == 2 ==> spec_u16_to_le_bytes(spec_u16_from_le_bytes(s)) == s,
{
    vstd::bytes::lemma_auto_spec_u16_to_from_le_bytes();
    assert(spec_u16_to_le_bytes(v).len() == 2);
}

/// A little-endian `u32` read back from its own bytes is itself, and
/// the bytes of a read value re-serialize exactly.
pub proof fn lemma_le32_round_trip(v: u32, s: Seq<u8>)
    ensures
        spec_u32_from_le_bytes(spec_u32_to_le_bytes(v)) == v,
        s.len() == 4 ==> spec_u32_to_le_bytes(spec_u32_from_le_bytes(s)) == s,
{
    vstd::bytes::lemma_auto_spec_u32_to_from_le_bytes();
    assert(spec_u32_to_le_bytes(v).len() == 4);
}

} // verus!
