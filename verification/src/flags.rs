//! Access-flag bit sets carried by classes, fields and methods, and the
//! hidden-API restriction flags.
//!
//! Flags are stored on the wire either as a fixed-width scalar or as a
//! ULEB128 value; unknown bits are discarded on read, as the format
//! reserves them.

use crate::leb128::{uleb_dec, uleb_enc, uleb_truncated, LebError, Uleb128};
use vstd::prelude::*;

verus! {

/// Class is publicly visible.
pub const ACC_PUBLIC: u32 = 0x1;

/// Member is private.
pub const ACC_PRIVATE: u32 = 0x2;

/// Member is protected.
pub const ACC_PROTECTED: u32 = 0x4;

/// Member is static.
pub const ACC_STATIC: u32 = 0x8;

/// Member is final.
pub const ACC_FINAL: u32 = 0x10;

/// Method is synchronized.
pub const ACC_SYNCHRONIZED: u32 = 0x20;

/// Field is volatile; for a method this bit means bridge.
pub const ACC_VOLATILE: u32 = 0x40;

/// Field is transient; for a method this bit means varargs.
pub const ACC_TRANSIENT: u32 = 0x80;

/// Method is native.
pub const ACC_NATIVE: u32 = 0x100;

/// Class is an interface.
pub const ACC_INTERFACE: u32 = 0x200;

/// Class or method is abstract.
pub const ACC_ABSTRACT: u32 = 0x400;

/// Method uses strict floating-point rules.
pub const ACC_STRICT: u32 = 0x800;

/// Item is compiler-synthesized.
pub const ACC_SYNTHETIC: u32 = 0x1000;

/// Class is an annotation type.
pub const ACC_ANNOTATION: u32 = 0x2000;

/// Class or field is an enum.
pub const ACC_ENUM: u32 = 0x4000;

/// Method is a constructor.
pub const ACC_CONSTRUCTOR: u32 = 0x10000;

/// Method is declared synchronized.
pub const ACC_DECLARED_SYNCHRONIZED: u32 = 0x20000;

/// Union of every defined access-flag bit.
pub const ACCESS_FLAGS_MASK: u32 = 0x37fff;

/// The defined access-flag bits of a raw value.
#[derive(Debug, Clone, Copy, PartialEq, Eq, Structural, PartialOrd, Ord, Hash)]
pub struct AccessFlags {
    pub bits: u32,
}

impl AccessFlags {
    /// The defined bits of `value`; reserved bits are discarded.
    pub fn from_bits_truncate(value: u32) -> (r: AccessFlags)
        ensures
            r.bits == value & ACCESS_FLAGS_MASK,
    {
        AccessFlags { bits: value & ACCESS_FLAGS_MASK }
    }

    /// The raw bit set.
    pub fn bits(&self) -> (r: u32)
        ensures
            r == self.bits,
    {
        self.bits
    }

    /// Whether every bit of `flag` is set.
    pub fn contains(&self, flag: u32) -> (r: bool)
        ensures
            r == (self.bits & flag == flag),
    {
        self.bits & flag == flag
    }

    /// Reads a ULEB128-encoded flag set, keeping the defined bits of
    /// the low 32.
    pub fn try_from_uleb128(src: &[u8], offset: &mut usize) -> (r: Result<AccessFlags, LebError>)
        requires
            *old(offset) <= src@.len(),
        ensures
            match r {
                Ok(f) => {
                    &&& uleb_dec(src@.skip(*old(offset) as int)) matches Some(p) && {
                        &&& f.bits == (p.0 as u64 & 0xffff_ffff) as u32 & ACCESS_FLAGS_MASK
                        &&& *final(offset) == *old(offset) + p.1
                    }
                    &&& *old(offset) < *final(offset) <= src@.len()
                },
                Err(e) => {
                    &&& *final(offset) == *old(offset)
                    &&& uleb_dec(src@.skip(*old(offset) as int)) is None
                    &&& (e == LebError::BadOffset <==> uleb_truncated(
                        src@.skip(*old(offset) as int),
                    ))
                },
            },
    {
        let value = Uleb128::read(src, offset)?;
        Ok(Self::from_bits_truncate((value & 0xffff_ffff) as u32))
    }

    /// Appends the flag set as a ULEB128 value.
    pub fn try_into_uleb128(&self, dst: &mut Vec<u8>)
        ensures
            final(dst)@ == old(dst)@ + uleb_enc(self.bits as nat),
    {
        Uleb128::write(dst, self.bits as u64);
    }
}

/// Union of every defined hidden-API restriction bit.
pub const RESTRICTION_FLAGS_MASK: u64 = 0x7;

/// The defined hidden-API restriction bits of a raw value.
#[derive(Debug, Clone, Copy, PartialEq, Eq, Structural, PartialOrd, Ord, Hash)]
pub struct RestrictionFlag {
    pub bits: u64,
}

impl RestrictionFlag {
    /// The defined bits of `value`; reserved bits are discarded.
    pub fn from_bits_truncate(value: u64) -> (r: RestrictionFlag)
        ensures
            r.bits == value & RESTRICTION_FLAGS_MASK,
    {
        RestrictionFlag { bits: value & RESTRICTION_FLAGS_MASK }
    }

    /// The raw bit set.
    pub fn bits(&self) -> (r: u64)
        ensures
            r == self.bits,
    {
        self.bits
    }

    /// Reads a ULEB128-encoded restriction set, keeping the defined
    /// bits.
    pub fn try_from_uleb128(src: &[u8], offset: &mut usize) -> (r: Result<
        RestrictionFlag,
        LebError,
    >)
        requires
            *old(offset) <= src@.len(),
        ensures
            match r {
                Ok(f) => {
                    &&& uleb_dec(src@.skip(*old(offset) as int)) matches Some(p) && {
                        &&& f.bits == p.0 as u64 & RESTRICTION_FLAGS_MASK
                        &&& *final(offset) == *old(offset) + p.1
                    }
                    &&& *old(offset) < *final(offset) <= src@.len()
                },
                Err(e) => {
                    &&& *final(offset) == *old(offset)
                    &&& uleb_dec(src@.skip(*old(offset) as int)) is None
                    &&& (e == LebError::BadOffset <==> uleb_truncated(
                        src@.skip(*old(offset) as int),
                    ))
                },
            },
    {
        let value = Uleb128::read(src, offset)?;
        Ok(Self::from_bits_truncate(value))
    }

    /// Appends the restriction set as a ULEB128 value.
    pub fn try_into_uleb128(&self, dst: &mut Vec<u8>)
        ensures
            final(dst)@ == old(dst)@ + uleb_enc(self.bits as nat),
    {
        Uleb128::write(dst, self.bits);
    }
}

} // verus!
