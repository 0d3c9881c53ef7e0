//! String-pool records: the id (a data offset) and the stored string
//! data.
//!
//! String data is a ULEB128 UTF-16 code-unit count followed by MUTF-8
//! bytes and a terminating NUL; the encoded length is implied by the
//! NUL.

use crate::codec::{le32_at, read_u32, write_u32, BadOffset};
use crate::leb128::{uleb_dec, uleb_enc, uleb_truncated, LebError, Uleb128};
use vstd::bytes::spec_u32_to_le_bytes;
use vstd::prelude::*;

verus! {

/// A string id: the byte offset of the string's data record.
#[derive(Debug, PartialEq, Eq, Structural, Clone, Copy, Hash)]
pub struct StringId(pub u32);

impl StringId {
    /// The data offset this id names.
    pub fn offset(&self) -> (r: u32)
        ensures
            r == self.0,
    {
        self.0
    }

    /// Decodes a string id at the cursor.
    pub fn read(src: &[u8], offset: &mut usize) -> (r: Result<StringId, BadOffset>)
        ensures
            match r {
                Ok(id) => {
                    &&& *old(offset) + 4 <= src@.len()
                    &&& id.0 == le32_at(src@, *old(offset) as int)
                    &&& *final(offset) == *old(offset) + 4
                },
                Err(_) => {
                    &&& *old(offset) + 4 > src@.len()
                    &&& *final(offset) == *old(offset)
                },
            },
    {
        let off = read_u32(src, offset)?;
        Ok(StringId(off))
    }

    /// Appends this id's wire bytes.
    pub fn write(&self, dst: &mut Vec<u8>)
        ensures
            final(dst)@ == old(dst)@ + spec_u32_to_le_bytes(self.0),
    {
        write_u32(dst, self.0);
    }
}

/// The first position at or after `pos` holding a NUL byte, or the end
/// of the sequence if there is none.
pub open spec fn nul_end(s: Seq<u8>, pos: int) -> int
    decreases s.len() - pos,
{
    if pos < 0 || pos >= s.len() {
        s.len() as int
    } else if s[pos] == 0 {
        pos
    } else {
        nul_end(s, pos + 1)
    }
}

/// `nul_end` stays within the sequence and sees no NUL before it.
pub proof fn lemma_nul_end(s: Seq<u8>, pos: int)
    requires
        0 <= pos <= s.len(),
    ensures
        pos <= nul_end(s, pos) <= s.len(),
        forall|j: int| pos <= j < nul_end(s, pos) ==> s[j] != 0,
        nul_end(s, pos) < s.len() ==> s[nul_end(s, pos)] == 0,
    decreases s.len() - pos,
{
    if pos < s.len() && s[pos] != 0 {
        lemma_nul_end(s, pos + 1);
    }
}

/// One record of the string-data region: the decoded UTF-16 length and
/// the raw MUTF-8 bytes (without the trailing NUL).
#[derive(Debug, PartialEq, Eq)]
pub struct StringData {
    /// The string's length in UTF-16 code units.
    pub size: u64,
    /// The MUTF-8 bytes of the string.
    pub data: Vec<u8>,
}

impl StringData {
    /// Decodes a string-data record at the cursor: a ULEB128 length,
    /// then every byte up to the first NUL (or the end of the buffer).
    /// The cursor is left on the NUL.
    pub fn read(src: &[u8], offset: &mut usize) -> (r: Result<StringData, LebError>)
        requires
            *old(offset) <= src@.len(),
        ensures
            match r {
                Ok(sd) => {
                    &&& uleb_dec(src@.skip(*old(offset) as int)) matches Some(p) && {
                        let start = *old(offset) + p.1;
                        &&& sd.size == p.0
                        &&& sd.data@ == src@.subrange(start as int, nul_end(src@, start as int))
                        &&& *final(offset) == nul_end(src@, start as int)
                    }
                },
                Err(e) => {
                    &&& *final(offset) == *old(offset)
                    &&& uleb_dec(src@.skip(*old(offset) as int)) is None
                    &&& (e == LebError::BadOffset <==> uleb_truncated(
                        src@.skip(*old(offset) as int),
                    ))
                },
            },
    {
        let mut pos = *offset;
        let size = Uleb128::read(src, &mut pos)?;
        let ghost start = pos as int;
        proof {
            lemma_nul_end(src@, start);
        }
        let mut end = pos;
        while end < src.len() && src[end] != 0
            invariant
                start <= end <= src@.len(),
                forall|j: int| start <= j < end ==> src@[j] != 0,
            decreases src@.len() - end,
        {
            end = end + 1;
        }
        proof {
            lemma_nul_end_converse(src@, start, end as int);
        }
        let data = vstd::slice::slice_to_vec(vstd::slice::slice_subrange(src, pos, end));
        *offset = end;
        Ok(StringData { size, data })
    }

    /// Appends this record's wire bytes: the ULEB128 length and the
    /// raw string bytes (the terminating NUL belongs to the region,
    /// not the record).
    pub fn write(&self, dst: &mut Vec<u8>)
        ensures
            final(dst)@ == old(dst)@ + uleb_enc(self.size as nat) + self.data@,
    {
        Uleb128::write(dst, self.size);
        let ghost mid = dst@;
        let mut i: usize = 0;
        while i < self.data.len()
            invariant
                0 <= i <= self.data@.len(),
                dst@ == mid + self.data@.take(i as int),
                mid == old(dst)@ + uleb_enc(self.size as nat),
            decreases self.data@.len() - i,
        {
            let b = self.data[i];
            dst.push(b);
            assert(self.data@.take(i + 1) =~= self.data@.take(i as int).push(b));
            i = i + 1;
        }
        assert(self.data@.take(self.data@.len() as int) =~= self.data@);
    }
}

/// A scan that stopped at the end or on a NUL, having seen none
/// before, stopped exactly at `nul_end`.
proof fn lemma_nul_end_converse(s: Seq<u8>, start: int, end: int)
    requires
        0 <= start <= end <= s.len(),
        forall|j: int| start <= j < end ==> s[j] != 0,
        end == s.len() || s[end] == 0,
    ensures
        nul_end(s, start) == end,
    decreases end - start,
{
    if start < end {
        lemma_nul_end_converse(s, start + 1, end);
    }
}

} // verus!
