//! Class-definition records.
//!
//! A class-def is eight little-endian `u32` words.  Optional indices use
//! the `NO_INDEX` sentinel; optional offsets use 0.

use crate::codec::{le32_at, read_u32, write_u32, BadOffset};
use crate::flags::{AccessFlags, ACCESS_FLAGS_MASK};
use vstd::bytes::spec_u32_to_le_bytes;
use vstd::prelude::*;

verus! {

/// Sentinel meaning "this optional index is absent".
pub const NO_INDEX: u32 = 0xffff_ffff;

/// A class-definition record.
#[derive(Debug, Clone, Copy, PartialEq, Eq, Structural)]
pub struct ClassDef {
    /// Index into the type pool for this class.
    pub class_idx: u32,
    /// Access flags for the class.
    pub access_flags: AccessFlags,
    /// Index into the type pool for the superclass, or `NO_INDEX`.
    pub superclass_idx: u32,
    /// Offset of the interface type list, or 0 if there are none.
    pub interfaces_off: u32,
    /// Index into the string pool for the source file, or `NO_INDEX`.
    pub source_file_idx: u32,
    /// Offset of the annotations directory, or 0 if there is none.
    pub annotations_off: u32,
    /// Offset of the class data, or 0 if there is none.
    pub class_data_off: u32,
    /// Offset of the static-value array, or 0 if there is none.
    pub static_values_off: u32,
}

/// The wire bytes of a class-def record.
pub open spec fn class_def_bytes(c: ClassDef) -> Seq<u8> {
    spec_u32_to_le_bytes(c.class_idx) + spec_u32_to_le_bytes(c.access_flags.bits)
        + spec_u32_to_le_bytes(c.superclass_idx) + spec_u32_to_le_bytes(c.interfaces_off)
        + spec_u32_to_le_bytes(c.source_file_idx) + spec_u32_to_le_bytes(c.annotations_off)
        + spec_u32_to_le_bytes(c.class_data_off) + spec_u32_to_le_bytes(c.static_values_off)
}

impl ClassDef {
    /// Decodes a class-def record at the cursor.  The stored access
    /// flags keep only the defined bits.
    pub fn read(src: &[u8], offset: &mut usize) -> (r: Result<ClassDef, BadOffset>)
        ensures
            match r {
                Ok(c) => {
                    &&& *old(offset) + 32 <= src@.len()
                    &&& c.class_idx == le32_at(src@, *old(offset) as int)
                    &&& c.access_flags.bits == le32_at(src@, *old(offset) + 4)
                        & ACCESS_FLAGS_MASK
                    &&& c.superclass_idx == le32_at(src@, *old(offset) + 8)
                    &&& c.interfaces_off == le32_at(src@, *old(offset) + 12)
                    &&& c.source_file_idx == le32_at(src@, *old(offset) + 16)
                    &&& c.annotations_off == le32_at(src@, *old(offset) + 20)
                    &&& c.class_data_off == le32_at(src@, *old(offset) + 24)
                    &&& c.static_values_off == le32_at(src@, *old(offset) + 28)
                    &&& *final(offset) == *old(offset) + 32
                },
                Err(_) => {
                    &&& *old(offset) + 32 > src@.len()
                    &&& *final(offset) == *old(offset)
                },
            },
    {
        let mut pos = *offset;
        let class_idx = read_u32(src, &mut pos)?;
        let raw_flags = read_u32(src, &mut pos)?;
        let superclass_idx = read_u32(src, &mut pos)?;
        let interfaces_off = read_u32(src, &mut pos)?;
        let source_file_idx = read_u32(src, &mut pos)?;
        let annotations_off = read_u32(src, &mut pos)?;
        let class_data_off = read_u32(src, &mut pos)?;
        let static_values_off = read_u32(src, &mut pos)?;
        *offset = pos;
        Ok(
            ClassDef {
                class_idx,
                access_flags: AccessFlags::from_bits_truncate(raw_flags),
                superclass_idx,
                interfaces_off,
                source_file_idx,
                annotations_off,
                class_data_off,
                static_values_off,
            },
        )
    }

    /// Appends this record's wire bytes.
    pub fn write(&self, dst: &mut Vec<u8>)
        ensures
            final(dst)@ == old(dst)@ + class_def_bytes(*self),
    {
        write_u32(dst, self.class_idx);
        write_u32(dst, self.access_flags.bits());
        write_u32(dst, self.superclass_idx);
        write_u32(dst, self.interfaces_off);
        write_u32(dst, self.source_file_idx);
        write_u32(dst, self.annotations_off);
        write_u32(dst, self.class_data_off);
        write_u32(dst, self.static_values_off);
        assert(dst@ =~= old(dst)@ + class_def_bytes(*self));
    }
}

/// Decoding the wire bytes of a class-def yields its fields back: the
/// word projections of `class_def_bytes` are the fields themselves.
pub proof fn lemma_class_def_round_trip(c: ClassDef)
    ensures
        class_def_bytes(c).len() == 32,
        le32_at(class_def_bytes(c), 0) == c.class_idx,
        le32_at(class_def_bytes(c), 4) == c.access_flags.bits,
        le32_at(class_def_bytes(c), 8) == c.superclass_idx,
        le32_at(class_def_bytes(c), 12) == c.interfaces_off,
        le32_at(class_def_bytes(c), 16) == c.source_file_idx,
        le32_at(class_def_bytes(c), 20) == c.annotations_off,
        le32_at(class_def_bytes(c), 24) == c.class_data_off,
        le32_at(class_def_bytes(c), 28) == c.static_values_off,
{
    vstd::bytes::lemma_auto_spec_u32_to_from_le_bytes();
    let s = class_def_bytes(c);
    assert(spec_u32_to_le_bytes(c.class_idx).len() == 4);
    assert(s.subrange(0, 4) =~= spec_u32_to_le_bytes(c.class_idx));
    assert(s.subrange(4, 8) =~= spec_u32_to_le_bytes(c.access_flags.bits));
    assert(s.subrange(8, 12) =~= spec_u32_to_le_bytes(c.superclass_idx));
    assert(s.subrange(12, 16) =~= spec_u32_to_le_bytes(c.interfaces_off));
    assert(s.subrange(16, 20) =~= spec_u32_to_le_bytes(c.source_file_idx));
    assert(s.subrange(20, 24) =~= spec_u32_to_le_bytes(c.annotations_off));
    assert(s.subrange(24, 28) =~= spec_u32_to_le_bytes(c.class_data_off));
    assert(s.subrange(28, 32) =~= spec_u32_to_le_bytes(c.static_values_off));
}


/// Re-encoding a decoded class-def reproduces its 32 bytes exactly,
/// provided the stored flag word carries no reserved bits (the decoder
/// discards those).
pub proof fn lemma_class_def_reencode(c: ClassDef, s: Seq<u8>)
    requires
        s.len() == 32,
        c.class_idx == le32_at(s, 0),
        c.access_flags.bits == le32_at(s, 4) & ACCESS_FLAGS_MASK,
        le32_at(s, 4) & ACCESS_FLAGS_MASK == le32_at(s, 4),
        c.superclass_idx == le32_at(s, 8),
        c.interfaces_off == le32_at(s, 12),
        c.source_file_idx == le32_at(s, 16),
        c.annotations_off == le32_at(s, 20),
        c.class_data_off == le32_at(s, 24),
        c.static_values_off == le32_at(s, 28),
    ensures
        class_def_bytes(c) == s,
{
    vstd::bytes::lemma_auto_spec_u32_to_from_le_bytes();
    assert(s.subrange(0, 4).len() == 4);
    assert(class_def_bytes(c) =~= s.subrange(0, 4) + s.subrange(4, 8) + s.subrange(8, 12)
        + s.subrange(12, 16) + s.subrange(16, 20) + s.subrange(20, 24) + s.subrange(24, 28)
        + s.subrange(28, 32));
    assert(s.subrange(0, 4) + s.subrange(4, 8) + s.subrange(8, 12) + s.subrange(12, 16)
        + s.subrange(16, 20) + s.subrange(20, 24) + s.subrange(24, 28) + s.subrange(28, 32)
        =~= s);
}

} // verus!
