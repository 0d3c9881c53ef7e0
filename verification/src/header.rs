//! The fixed 112-byte header at the start of every DEX image.
//!
//! The header opens with the magic `dex\n` followed by a three-digit
//! version and a NUL, then an Adler-32 checksum of the rest of the
//! file, a SHA-1 signature (carried, not validated), and the sizes and
//! offsets of every pool and section.

use crate::checksum::{adler32_checksum, adler32_of};
use crate::codec::{le32_at, read_u32, write_u32};
use vstd::bytes::spec_u32_to_le_bytes;
use vstd::prelude::*;

verus! {

/// The only accepted endianness tag: little-endian.
pub const ENDIAN_CONSTANT: u32 = 0x12345678;

/// Byte length of the header.
pub const HEADER_SIZE: usize = 112;

/// Byte length of the magic, version included.
pub const MAGIC_LEN: usize = 8;

/// Byte length of the SHA-1 signature.
pub const SIG_LEN: usize = 20;

/// Failure while validating the magic and version bytes.
#[derive(Debug, Clone, Copy, PartialEq, Eq, Structural)]
pub enum VersionError {
    /// The magic slice was not eight bytes long.
    InvalidLength(usize),
    /// The fixed magic bytes were wrong.
    InvalidMagic,
    /// A version byte was not an ASCII digit.
    InvalidVersion(u32),
}

/// Failure while validating the header.
#[derive(Debug, Clone, Copy, PartialEq, Eq, Structural)]
pub enum HeaderError {
    /// The magic or version bytes were invalid.
    InvalidMagic(VersionError),
    /// The stored checksum does not match the Adler-32 of the body.
    InvalidChecksum,
    /// The buffer is shorter than a header.
    InvalidLength(u64),
    /// The endian tag named an unsupported byte order.
    InvalidEndianTag(u32),
}

/// The DEX format version carried in the magic, as three decimal
/// digits.
#[derive(Debug, Clone, Copy, PartialEq, Eq, Structural)]
pub struct Version(pub u32, pub u32, pub u32);

/// Whether `b` is an ASCII decimal digit.
pub open spec fn is_ascii_digit(b: u8) -> bool {
    0x30 <= b <= 0x39
}

/// Whether the fixed bytes of the magic frame are right: `dex\n` at
/// the front and a NUL at the end, whatever the version bytes hold.
pub open spec fn magic_frame_ok(s: Seq<u8>) -> bool {
    &&& s.len() >= 8
    &&& s[0] == 0x64
    &&& s[1] == 0x65
    &&& s[2] == 0x78
    &&& s[3] == 0x0a
    &&& s[7] == 0
}

/// Whether the first eight bytes of `s` are a well-formed magic:
/// `dex\n`, three decimal digits, and a NUL.
pub open spec fn magic_ok(s: Seq<u8>) -> bool {
    &&& s.len() >= 8
    &&& s[0] == 0x64
    &&& s[1] == 0x65
    &&& s[2] == 0x78
    &&& s[3] == 0x0a
    &&& is_ascii_digit(s[4])
    &&& is_ascii_digit(s[5])
    &&& is_ascii_digit(s[6])
    &&& s[7] == 0
}

/// The version spelled by a well-formed magic.
pub open spec fn spec_version_of(s: Seq<u8>) -> Version {
    Version((s[4] - 0x30) as u32, (s[5] - 0x30) as u32, (s[6] - 0x30) as u32)
}

/// The eight magic bytes that spell a version.
pub open spec fn magic_bytes(v: Version) -> Seq<u8> {
    seq![
        0x64u8,
        0x65u8,
        0x78u8,
        0x0au8,
        (0x30 + v.0) as u8,
        (0x30 + v.1) as u8,
        (0x30 + v.2) as u8,
        0u8,
    ]
}

impl Version {
    /// Validates an eight-byte magic and extracts the version digits.
    pub fn parse(magic: &[u8]) -> (r: Result<Version, VersionError>)
        ensures
            match r {
                Ok(v) => {
                    &&& magic_ok(magic@)
                    &&& magic@.len() == 8
                    &&& v == spec_version_of(magic@)
                    &&& v.0 < 10 && v.1 < 10 && v.2 < 10
                },
                Err(e) => {
                    &&& !(magic_ok(magic@) && magic@.len() == 8)
                    &&& match e {
                        VersionError::InvalidLength(n) => n != 8 && n == magic@.len(),
                        VersionError::InvalidMagic => magic@.len() == 8 && !magic_frame_ok(
                            magic@,
                        ),
                        VersionError::InvalidVersion(b) => {
                            &&& magic@.len() == 8
                            &&& magic_frame_ok(magic@)
                            &&& b == (if !is_ascii_digit(magic@[4]) {
                                magic@[4]
                            } else if !is_ascii_digit(magic@[5]) {
                                magic@[5]
                            } else {
                                magic@[6]
                            }) as u32
                            &&& !(is_ascii_digit(magic@[4]) && is_ascii_digit(magic@[5])
                                && is_ascii_digit(magic@[6]))
                        },
                    }
                },
            },
    {
        if magic.len() != 8 {
            return Err(VersionError::InvalidLength(magic.len()));
        }
        if !(magic[0] == 0x64 && magic[1] == 0x65 && magic[2] == 0x78 && magic[3] == 0x0a) {
            return Err(VersionError::InvalidMagic);
        }
        if magic[7] != 0 {
            return Err(VersionError::InvalidMagic);
        }
        let d0 = magic[4];
        let d1 = magic[5];
        let d2 = magic[6];
        if !(0x30 <= d0 && d0 <= 0x39) {
            return Err(VersionError::InvalidVersion(d0 as u32));
        }
        if !(0x30 <= d1 && d1 <= 0x39) {
            return Err(VersionError::InvalidVersion(d1 as u32));
        }
        if !(0x30 <= d2 && d2 <= 0x39) {
            return Err(VersionError::InvalidVersion(d2 as u32));
        }
        Ok(Version((d0 - 0x30) as u32, (d1 - 0x30) as u32, (d2 - 0x30) as u32))
    }

    /// Appends the eight magic bytes spelling this version.
    pub fn write(&self, dst: &mut Vec<u8>)
        requires
            self.0 < 10,
            self.1 < 10,
            self.2 < 10,
        ensures
            final(dst)@ == old(dst)@ + magic_bytes(*self),
    {
        dst.push(0x64);
        dst.push(0x65);
        dst.push(0x78);
        dst.push(0x0a);
        dst.push(0x30 + self.0 as u8);
        dst.push(0x30 + self.1 as u8);
        dst.push(0x30 + self.2 as u8);
        dst.push(0);
        assert(dst@ =~= old(dst)@ + magic_bytes(*self));
    }
}

/// Reads a `u32` that bounds checking has already shown to be inside
/// the buffer.
fn read_word(src: &[u8], pos: &mut usize) -> (r: u32)
    requires
        *old(pos) + 4 <= src@.len(),
    ensures
        r == le32_at(src@, *old(pos) as int),
        *final(pos) == *old(pos) + 4,
{
    match read_u32(src, pos) {
        Ok(v) => v,
        Err(_) => {
            proof {
                assert(false);
            }
            0
        },
    }
}

/// The decoded header of a DEX image.
#[derive(Debug, Clone, PartialEq, Eq)]
pub struct Header {
    /// The format version from the magic.
    pub version: Version,
    /// Adler-32 checksum of bytes 12 onward.
    pub checksum: u32,
    /// SHA-1 over bytes 32 onward, carried verbatim.
    pub signature: Vec<u8>,
    /// Size of the whole file in bytes.
    pub file_size: u32,
    /// Size of this header; 112 in every defined version.
    pub header_size: u32,
    /// The endianness tag; only `ENDIAN_CONSTANT` is accepted.
    pub endian_tag: u32,
    /// Size of the link section, or 0.
    pub link_size: u32,
    /// Offset of the link section, or 0.
    pub link_off: u32,
    /// Offset of the map list.
    pub map_off: u32,
    /// Number of string-id records.
    pub string_ids_size: u32,
    /// Offset of the string-id pool.
    pub string_ids_off: u32,
    /// Number of type-id records.
    pub type_ids_size: u32,
    /// Offset of the type-id pool.
    pub type_ids_off: u32,
    /// Number of proto-id records.
    pub proto_ids_size: u32,
    /// Offset of the proto-id pool.
    pub proto_ids_off: u32,
    /// Number of field-id records.
    pub field_ids_size: u32,
    /// Offset of the field-id pool.
    pub field_ids_off: u32,
    /// Number of method-id records.
    pub method_ids_size: u32,
    /// Offset of the method-id pool.
    pub method_ids_off: u32,
    /// Number of class-def records.
    pub class_defs_size: u32,
    /// Offset of the class-def pool.
    pub class_defs_off: u32,
    /// Size of the data section in bytes.
    pub data_size: u32,
    /// Offset of the data section.
    pub data_off: u32,
}

/// The size-and-offset words of a header, as stored from byte 32 on.
pub open spec fn header_fields_ok(h: Header, s: Seq<u8>) -> bool {
    &&& h.version == spec_version_of(s)
    &&& h.checksum == le32_at(s, 8)
    &&& h.signature@ == s.subrange(12, 32)
    &&& h.file_size == le32_at(s, 32)
    &&& h.header_size == le32_at(s, 36)
    &&& h.endian_tag == le32_at(s, 40)
    &&& h.link_size == le32_at(s, 44)
    &&& h.link_off == le32_at(s, 48)
    &&& h.map_off == le32_at(s, 52)
    &&& h.string_ids_size == le32_at(s, 56)
    &&& h.string_ids_off == le32_at(s, 60)
    &&& h.type_ids_size == le32_at(s, 64)
    &&& h.type_ids_off == le32_at(s, 68)
    &&& h.proto_ids_size == le32_at(s, 72)
    &&& h.proto_ids_off == le32_at(s, 76)
    &&& h.field_ids_size == le32_at(s, 80)
    &&& h.field_ids_off == le32_at(s, 84)
    &&& h.method_ids_size == le32_at(s, 88)
    &&& h.method_ids_off == le32_at(s, 92)
    &&& h.class_defs_size == le32_at(s, 96)
    &&& h.class_defs_off == le32_at(s, 100)
    &&& h.data_size == le32_at(s, 104)
    &&& h.data_off == le32_at(s, 108)
}

/// Whether the buffer begins with an acceptable header: long enough,
/// magic well-formed, checksum matching, endian tag little-endian.
pub open spec fn header_acceptable(s: Seq<u8>) -> bool {
    &&& magic_ok(s)
    &&& s.len() >= HEADER_SIZE
    &&& le32_at(s, 8) == adler32_of(s.skip(12))
    &&& le32_at(s, 40) == ENDIAN_CONSTANT
}

impl Header {
    /// Whether this header's in-memory invariants hold: digit version
    /// and a 20-byte signature.
    pub open spec fn wf(&self) -> bool {
        &&& self.version.0 < 10
        &&& self.version.1 < 10
        &&& self.version.2 < 10
        &&& self.signature@.len() == 20
    }

    /// Validates and decodes the header at the start of `src`: magic
    /// first, then the checksum over bytes 12 onward, then the endian
    /// tag.
    pub fn read(src: &[u8]) -> (r: Result<Header, HeaderError>)
        ensures
            match r {
                Ok(h) => {
                    &&& header_acceptable(src@)
                    &&& header_fields_ok(h, src@)
                    &&& h.wf()
                },
                Err(e) => {
                    &&& !header_acceptable(src@)
                    &&& match e {
                        HeaderError::InvalidMagic(_) => !(magic_ok(src@) && src@.len() >= 8),
                        HeaderError::InvalidLength(n) => magic_ok(src@) && src@.len()
                            < HEADER_SIZE && n == src@.len(),
                        HeaderError::InvalidChecksum => {
                            &&& magic_ok(src@)
                            &&& src@.len() >= HEADER_SIZE
                            &&& le32_at(src@, 8) != adler32_of(src@.skip(12))
                        },
                        HeaderError::InvalidEndianTag(t) => {
                            &&& magic_ok(src@)
                            &&& src@.len() >= HEADER_SIZE
                            &&& le32_at(src@, 8) == adler32_of(src@.skip(12))
                            &&& t == le32_at(src@, 40)
                            &&& t != ENDIAN_CONSTANT
                        },
                    }
                },
            },
    {
        if src.len() < 8 {
            return Err(HeaderError::InvalidMagic(VersionError::InvalidLength(src.len())));
        }
        let magic = vstd::slice::slice_subrange(src, 0, 8);
        let version = match Version::parse(magic) {
            Ok(v) => v,
            Err(e) => {
                assert(magic@ =~= src@.subrange(0, 8));
                return Err(HeaderError::InvalidMagic(e));
            },
        };
        assert(magic@ =~= src@.subrange(0, 8));
        if src.len() < HEADER_SIZE {
            return Err(HeaderError::InvalidLength(src.len() as u64));
        }
        let mut pos: usize = 8;
        let checksum = read_word(src, &mut pos);
        let body = vstd::slice::slice_subrange(src, 12, src.len());
        let computed = adler32_checksum(body);
        assert(body@ =~= src@.skip(12));
        if checksum != computed {
            return Err(HeaderError::InvalidChecksum);
        }
        let signature = vstd::slice::slice_to_vec(vstd::slice::slice_subrange(src, 12, 32));
        pos = 32;
        let file_size = read_word(src, &mut pos);
        let header_size = read_word(src, &mut pos);
        let endian_tag = read_word(src, &mut pos);
        if endian_tag != ENDIAN_CONSTANT {
            return Err(HeaderError::InvalidEndianTag(endian_tag));
        }
        let link_size = read_word(src, &mut pos);
        let link_off = read_word(src, &mut pos);
        let map_off = read_word(src, &mut pos);
        let string_ids_size = read_word(src, &mut pos);
        let string_ids_off = read_word(src, &mut pos);
        let type_ids_size = read_word(src, &mut pos);
        let type_ids_off = read_word(src, &mut pos);
        let proto_ids_size = read_word(src, &mut pos);
        let proto_ids_off = read_word(src, &mut pos);
        let field_ids_size = read_word(src, &mut pos);
        let field_ids_off = read_word(src, &mut pos);
        let method_ids_size = read_word(src, &mut pos);
        let method_ids_off = read_word(src, &mut pos);
        let class_defs_size = read_word(src, &mut pos);
        let class_defs_off = read_word(src, &mut pos);
        let data_size = read_word(src, &mut pos);
        let data_off = read_word(src, &mut pos);
        Ok(
            Header {
                version,
                checksum,
                signature,
                file_size,
                header_size,
                endian_tag,
                link_size,
                link_off,
                map_off,
                string_ids_size,
                string_ids_off,
                type_ids_size,
                type_ids_off,
                proto_ids_size,
                proto_ids_off,
                field_ids_size,
                field_ids_off,
                method_ids_size,
                method_ids_off,
                class_defs_size,
                class_defs_off,
                data_size,
                data_off,
            },
        )
    }

    /// Appends the 112 header bytes: the magic, the stored checksum
    /// and signature, and every size and offset word.
    pub fn write(&self, dst: &mut Vec<u8>)
        requires
            self.wf(),
        ensures
            final(dst)@ == old(dst)@ + header_bytes(*self),
            header_bytes(*self).len() == HEADER_SIZE,
    {
        self.version.write(dst);
        write_u32(dst, self.checksum);
        let mut i: usize = 0;
        let ghost sig_start = dst@;
        while i < 20
            invariant
                0 <= i <= 20,
                self.signature@.len() == 20,
                dst@ == sig_start + self.signature@.take(i as int),
            decreases 20 - i,
        {
            let b = self.signature[i];
            dst.push(b);
            assert(self.signature@.take(i + 1) =~= self.signature@.take(i as int).push(b));
            i = i + 1;
        }
        assert(self.signature@.take(20) =~= self.signature@);
        write_u32(dst, self.file_size);
        write_u32(dst, self.header_size);
        write_u32(dst, self.endian_tag);
        write_u32(dst, self.link_size);
        write_u32(dst, self.link_off);
        write_u32(dst, self.map_off);
        write_u32(dst, self.string_ids_size);
        write_u32(dst, self.string_ids_off);
        write_u32(dst, self.type_ids_size);
        write_u32(dst, self.type_ids_off);
        write_u32(dst, self.proto_ids_size);
        write_u32(dst, self.proto_ids_off);
        write_u32(dst, self.field_ids_size);
        write_u32(dst, self.field_ids_off);
        write_u32(dst, self.method_ids_size);
        write_u32(dst, self.method_ids_off);
        write_u32(dst, self.class_defs_size);
        write_u32(dst, self.class_defs_off);
        write_u32(dst, self.data_size);
        write_u32(dst, self.data_off);
        assert(dst@ =~= old(dst)@ + header_bytes(*self));
        proof {
            vstd::bytes::lemma_auto_spec_u32_to_from_le_bytes();
            assert(spec_u32_to_le_bytes(self.checksum).len() == 4);
        }
        assert(header_bytes(*self).len() == HEADER_SIZE);
    }

    /// Whether `offset` falls inside the data section.
    pub open spec fn spec_in_data_section(&self, offset: u32) -> bool {
        self.data_off <= offset && (offset as int) < self.data_off + self.data_size
    }

    /// The half-open bounds of the data section, the upper one widened
    /// so that it cannot wrap.
    pub fn data_section(&self) -> (r: (u32, u64))
        ensures
            r.0 == self.data_off,
            r.1 == self.data_off + self.data_size,
    {
        (self.data_off, self.data_off as u64 + self.data_size as u64)
    }

    /// Whether `offset` falls inside the data section.
    pub fn in_data_section(&self, offset: u32) -> (r: bool)
        ensures
            r == self.spec_in_data_section(offset),
    {
        self.data_off <= offset && (offset as u64) < self.data_off as u64 + self.data_size as u64
    }
}

/// The 112 wire bytes of a header.
pub open spec fn header_bytes(h: Header) -> Seq<u8> {
    magic_bytes(h.version) + spec_u32_to_le_bytes(h.checksum) + h.signature@ + spec_u32_to_le_bytes(
        h.file_size,
    ) + spec_u32_to_le_bytes(h.header_size) + spec_u32_to_le_bytes(h.endian_tag)
        + spec_u32_to_le_bytes(h.link_size) + spec_u32_to_le_bytes(h.link_off)
        + spec_u32_to_le_bytes(h.map_off) + spec_u32_to_le_bytes(h.string_ids_size)
        + spec_u32_to_le_bytes(h.string_ids_off) + spec_u32_to_le_bytes(h.type_ids_size)
        + spec_u32_to_le_bytes(h.type_ids_off) + spec_u32_to_le_bytes(h.proto_ids_size)
        + spec_u32_to_le_bytes(h.proto_ids_off) + spec_u32_to_le_bytes(h.field_ids_size)
        + spec_u32_to_le_bytes(h.field_ids_off) + spec_u32_to_le_bytes(h.method_ids_size)
        + spec_u32_to_le_bytes(h.method_ids_off) + spec_u32_to_le_bytes(h.class_defs_size)
        + spec_u32_to_le_bytes(h.class_defs_off) + spec_u32_to_le_bytes(h.data_size)
        + spec_u32_to_le_bytes(h.data_off)
}

/// Re-reading the fields of a written header yields the header back:
/// the field projections of `header_bytes` are the fields themselves.
pub proof fn lemma_header_round_trip(h: Header)
    requires
        h.wf(),
    ensures
        header_bytes(h).len() == HEADER_SIZE,
        magic_ok(header_bytes(h)),
        header_fields_ok(h, header_bytes(h)),
{
    vstd::bytes::lemma_auto_spec_u32_to_from_le_bytes();
    let s = header_bytes(h);
    assert(spec_u32_to_le_bytes(h.checksum).len() == 4);
    assert(s.len() == HEADER_SIZE);
    assert(magic_ok(s));
    assert(s.subrange(8, 12) =~= spec_u32_to_le_bytes(h.checksum));
    assert(s.subrange(12, 32) =~= h.signature@);
    assert(s.subrange(32, 36) =~= spec_u32_to_le_bytes(h.file_size));
    assert(s.subrange(36, 40) =~= spec_u32_to_le_bytes(h.header_size));
    assert(s.subrange(40, 44) =~= spec_u32_to_le_bytes(h.endian_tag));
    assert(s.subrange(44, 48) =~= spec_u32_to_le_bytes(h.link_size));
    assert(s.subrange(48, 52) =~= spec_u32_to_le_bytes(h.link_off));
    assert(s.subrange(52, 56) =~= spec_u32_to_le_bytes(h.map_off));
    assert(s.subrange(56, 60) =~= spec_u32_to_le_bytes(h.string_ids_size));
    assert(s.subrange(60, 64) =~= spec_u32_to_le_bytes(h.string_ids_off));
    assert(s.subrange(64, 68) =~= spec_u32_to_le_bytes(h.type_ids_size));
    assert(s.subrange(68, 72) =~= spec_u32_to_le_bytes(h.type_ids_off));
    assert(s.subrange(72, 76) =~= spec_u32_to_le_bytes(h.proto_ids_size));
    assert(s.subrange(76, 80) =~= spec_u32_to_le_bytes(h.proto_ids_off));
    assert(s.subrange(80, 84) =~= spec_u32_to_le_bytes(h.field_ids_size));
    assert(s.subrange(84, 88) =~= spec_u32_to_le_bytes(h.field_ids_off));
    assert(s.subrange(88, 92) =~= spec_u32_to_le_bytes(h.method_ids_size));
    assert(s.subrange(92, 96) =~= spec_u32_to_le_bytes(h.method_ids_off));
    assert(s.subrange(96, 100) =~= spec_u32_to_le_bytes(h.class_defs_size));
    assert(s.subrange(100, 104) =~= spec_u32_to_le_bytes(h.class_defs_off));
    assert(s.subrange(104, 108) =~= spec_u32_to_le_bytes(h.data_size));
    assert(s.subrange(108, 112) =~= spec_u32_to_le_bytes(h.data_off));
}


/// Re-encoding a decoded header reproduces its 112 bytes exactly.
pub proof fn lemma_header_reencode(h: Header, s: Seq<u8>)
    requires
        s.len() == HEADER_SIZE,
        magic_ok(s),
        header_fields_ok(h, s),
    ensures
        header_bytes(h) == s,
{
    vstd::bytes::lemma_auto_spec_u32_to_from_le_bytes();
    assert(magic_bytes(h.version) =~= s.subrange(0, 8)) by {
        assert(magic_bytes(h.version).len() == 8);
        assert((0x30 + (s[4] - 0x30)) as u8 == s[4]);
        assert((0x30 + (s[5] - 0x30)) as u8 == s[5]);
        assert((0x30 + (s[6] - 0x30)) as u8 == s[6]);
    }
    assert(s.subrange(8, 12).len() == 4);
    assert(header_bytes(h) =~= s.subrange(0, 8) + s.subrange(8, 12) + s.subrange(12, 32)
        + s.subrange(32, 36) + s.subrange(36, 40) + s.subrange(40, 44) + s.subrange(44, 48)
        + s.subrange(48, 52) + s.subrange(52, 56) + s.subrange(56, 60) + s.subrange(60, 64)
        + s.subrange(64, 68) + s.subrange(68, 72) + s.subrange(72, 76) + s.subrange(76, 80)
        + s.subrange(80, 84) + s.subrange(84, 88) + s.subrange(88, 92) + s.subrange(92, 96)
        + s.subrange(96, 100) + s.subrange(100, 104) + s.subrange(104, 108) + s.subrange(
        108,
        112,
    ));
    assert(s.subrange(0, 8) + s.subrange(8, 12) + s.subrange(12, 32) + s.subrange(32, 36)
        + s.subrange(36, 40) + s.subrange(40, 44) + s.subrange(44, 48) + s.subrange(48, 52)
        + s.subrange(52, 56) + s.subrange(56, 60) + s.subrange(60, 64) + s.subrange(64, 68)
        + s.subrange(68, 72) + s.subrange(72, 76) + s.subrange(76, 80) + s.subrange(80, 84)
        + s.subrange(84, 88) + s.subrange(88, 92) + s.subrange(92, 96) + s.subrange(96, 100)
        + s.subrange(100, 104) + s.subrange(104, 108) + s.subrange(108, 112) =~= s);
}

} // verus!
