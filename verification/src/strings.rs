//! The string engine: random access into the string pool, decoding to
//! UTF-8, and binary search by content.
//!
//! A string id is the data offset of a `(length, MUTF-8 bytes, NUL)`
//! record.  The pool is sorted by the MUTF-8 bytes in a valid file,
//! which is what `find` relies on for completeness.

use crate::codec::le32_at;
use crate::header::Header;
use crate::leb128::{uleb_dec, uleb_truncated, LebError};
use crate::mutf8::{from_mutf8, mutf8_decoded, mutf8_of, to_mutf8};
use crate::string::{nul_end, StringData, StringId};
use core::cmp::Ordering;
use vstd::prelude::*;

verus! {

/// Failure while reading or searching the string pool.
#[derive(Debug, Clone, Copy, PartialEq, Eq, Structural)]
pub enum StringReadError {
    /// No pool entry holds the searched content.
    StringNotFound,
    /// A pool index was not below the pool size.
    IndexOutOfBounds(u32),
    /// A string data offset fell outside the data section, or its
    /// record ran past the end of the buffer.
    OffsetOutOfBounds(u32),
    /// The record at this offset held an over-wide length or bytes
    /// that do not decode as MUTF-8.
    Malformed(u32),
}

/// The MUTF-8 bytes of the string-data record at `off`: everything
/// between the ULEB128 length and the closing NUL.
pub open spec fn string_bytes_at(s: Seq<u8>, off: int) -> Seq<u8> {
    let u = uleb_dec(s.skip(off)).unwrap();
    s.subrange(off + u.1, nul_end(s, off + u.1))
}

/// Lexicographic order on byte sequences, the order of the string
/// pool.
pub open spec fn bytes_cmp(a: Seq<u8>, b: Seq<u8>) -> Ordering
    decreases a.len(),
{
    if a.len() == 0 && b.len() == 0 {
        Ordering::Equal
    } else if a.len() == 0 {
        Ordering::Less
    } else if b.len() == 0 {
        Ordering::Greater
    } else if a[0] < b[0] {
        Ordering::Less
    } else if a[0] > b[0] {
        Ordering::Greater
    } else {
        bytes_cmp(a.skip(1), b.skip(1))
    }
}

/// Byte sequences compare equal exactly when they are equal.
pub proof fn lemma_bytes_cmp_eq(a: Seq<u8>, b: Seq<u8>)
    ensures
        bytes_cmp(a, b) == Ordering::Equal <==> a == b,
    decreases a.len(),
{
    if a.len() > 0 && b.len() > 0 && a[0] == b[0] {
        lemma_bytes_cmp_eq(a.skip(1), b.skip(1));
        if a.skip(1) == b.skip(1) {
            assert(a =~= b) by {
                assert(a.len() == b.len());
                assert forall|k: int| 0 <= k < a.len() implies a[k] == b[k] by {
                    if k >= 1 {
                        assert(a[k] == a.skip(1)[k - 1]);
                        assert(b[k] == b.skip(1)[k - 1]);
                    }
                }
            }
        }
        if a == b {
            assert(a.skip(1) =~= b.skip(1));
        }
    } else if a.len() == 0 && b.len() == 0 {
        assert(a =~= b);
    } else {
        if a == b && a.len() > 0 {
            assert(a[0] == b[0]);
        }
    }
}

/// The order is antisymmetric: swapping the sides swaps the outcome.
pub proof fn lemma_bytes_cmp_antisym(a: Seq<u8>, b: Seq<u8>)
    ensures
        bytes_cmp(a, b) == Ordering::Less <==> bytes_cmp(b, a) == Ordering::Greater,
    decreases a.len(),
{
    if a.len() > 0 && b.len() > 0 && a[0] == b[0] {
        lemma_bytes_cmp_antisym(a.skip(1), b.skip(1));
    }
}

/// The order is transitive.
pub proof fn lemma_bytes_cmp_trans(a: Seq<u8>, b: Seq<u8>, c: Seq<u8>)
    requires
        bytes_cmp(a, b) == Ordering::Less,
        bytes_cmp(b, c) == Ordering::Less,
    ensures
        bytes_cmp(a, c) == Ordering::Less,
    decreases a.len(),
{
    if a.len() > 0 && b.len() > 0 && c.len() > 0 && a[0] == b[0] && b[0] == c[0] {
        lemma_bytes_cmp_trans(a.skip(1), b.skip(1), c.skip(1));
    }
}

/// Compares two byte strings lexicographically.
fn cmp_bytes(a: &[u8], b: &[u8]) -> (r: Ordering)
    ensures
        r == bytes_cmp(a@, b@),
{
    let mut i: usize = 0;
    assert(a@.skip(0) =~= a@);
    assert(b@.skip(0) =~= b@);
    loop
        invariant
            0 <= i <= a@.len(),
            i <= b@.len(),
            bytes_cmp(a@, b@) == bytes_cmp(a@.skip(i as int), b@.skip(i as int)),
        decreases a@.len() - i,
    {
        if i >= a.len() && i >= b.len() {
            return Ordering::Equal;
        }
        if i >= a.len() {
            return Ordering::Less;
        }
        if i >= b.len() {
            return Ordering::Greater;
        }
        let x = a[i];
        let y = b[i];
        assert(a@.skip(i as int)[0] == x && b@.skip(i as int)[0] == y);
        if x < y {
            return Ordering::Less;
        }
        if x > y {
            return Ordering::Greater;
        }
        assert(a@.skip(i as int).skip(1) =~= a@.skip(i + 1));
        assert(b@.skip(i as int).skip(1) =~= b@.skip(i + 1));
        i = i + 1;
    }
}

/// Random access and content search over the string pool.
pub struct Strings<'a> {
    /// The whole file image.
    pub src: &'a [u8],
    /// Strings queued for a future rewrite of the pool, as MUTF-8
    /// bytes; the underlying buffer is never touched.
    pub added_strings: Vec<Vec<u8>>,
    /// Offset of the string-id pool.
    pub string_ids_off: u32,
    /// Number of string ids.
    pub string_ids_size: u32,
    /// Offset of the type-id pool.
    pub type_ids_off: u32,
    /// Number of type ids.
    pub type_ids_size: u32,
    /// Offset of the data section.
    pub data_off: u32,
    /// Size of the data section.
    pub data_size: u32,
}

impl<'a> Strings<'a> {
    /// Whether the pools this engine reads lie inside the buffer.
    pub open spec fn wf(&self) -> bool {
        &&& self.string_ids_off + 4 * self.string_ids_size <= self.src@.len()
        &&& self.type_ids_off + 4 * self.type_ids_size <= self.src@.len()
    }

    /// The string id stored at pool index `i`.
    pub open spec fn spec_id_at(&self, i: int) -> u32 {
        le32_at(self.src@, self.string_ids_off + 4 * i)
    }

    /// Whether `off` lies inside the data section.
    pub open spec fn spec_in_data(&self, off: u32) -> bool {
        self.data_off <= off && (off as int) < self.data_off + self.data_size
    }

    /// Whether the record at `off` can be read: it lies in the data
    /// section, inside the buffer, and opens with an accepted ULEB128
    /// length.
    pub open spec fn spec_entry_ok(&self, off: u32) -> bool {
        &&& self.spec_in_data(off)
        &&& off <= self.src@.len()
        &&& uleb_dec(self.src@.skip(off as int)) is Some
    }

    /// The MUTF-8 bytes of the entry at pool index `i`.
    pub open spec fn spec_bytes_at(&self, i: int) -> Seq<u8> {
        string_bytes_at(self.src@, self.spec_id_at(i) as int)
    }

    /// The MUTF-8 descriptor bytes of the type at type-pool index
    /// `t`: the bytes of the string its descriptor index names.
    pub open spec fn spec_type_desc_bytes(&self, t: int) -> Seq<u8> {
        string_bytes_at(
            self.src@,
            self.spec_id_at(le32_at(self.src@, self.type_ids_off + 4 * t) as int) as int,
        )
    }

    /// Whether the string at pool index `i` can be resolved and
    /// decoded: the index is in range, its record can be read, and the
    /// bytes decode as MUTF-8.
    pub open spec fn spec_string_resolvable(&self, i: int) -> bool {
        &&& 0 <= i < self.string_ids_size
        &&& self.spec_entry_ok(self.spec_id_at(i))
        &&& mutf8_decoded(string_bytes_at(self.src@, self.spec_id_at(i) as int)) is Some
    }

    /// Whether the type at type-pool index `t` can be resolved to its
    /// decoded descriptor string.
    pub open spec fn spec_type_resolvable(&self, t: int) -> bool {
        &&& 0 <= t < self.type_ids_size
        &&& self.spec_string_resolvable(le32_at(self.src@, self.type_ids_off + 4 * t) as int)
    }

    /// Whether every pool entry can be read.
    pub open spec fn spec_all_entries_ok(&self) -> bool {
        forall|i: int| 0 <= i < self.string_ids_size ==> self.spec_entry_ok(#[trigger] self.spec_id_at(i))
    }

    /// Whether the pool is sorted strictly ascending by MUTF-8 bytes,
    /// as the format requires.
    pub open spec fn spec_sorted(&self) -> bool {
        forall|i: int, j: int|
            0 <= i < j < self.string_ids_size ==> bytes_cmp(
                #[trigger] self.spec_bytes_at(i),
                #[trigger] self.spec_bytes_at(j),
            ) == Ordering::Less
    }

    /// Builds a string engine over `src` from the header's pool
    /// bounds; `None` when a pool would fall outside the buffer.
    pub fn new(src: &'a [u8], header: &Header) -> (r: Option<Strings<'a>>)
        ensures
            match r {
                Some(st) => {
                    &&& st.wf()
                    &&& st.src@ == src@
                    &&& st.string_ids_off == header.string_ids_off
                    &&& st.string_ids_size == header.string_ids_size
                    &&& st.type_ids_off == header.type_ids_off
                    &&& st.type_ids_size == header.type_ids_size
                    &&& st.data_off == header.data_off
                    &&& st.data_size == header.data_size
                },
                None => header.string_ids_off + 4 * header.string_ids_size > src@.len()
                    || header.type_ids_off + 4 * header.type_ids_size > src@.len(),
            },
            r matches Some(st) ==> st.added_strings@.len() == 0,
    {
        let s_end: u64 = header.string_ids_off as u64 + 4 * (header.string_ids_size as u64);
        let t_end: u64 = header.type_ids_off as u64 + 4 * (header.type_ids_size as u64);
        if s_end > src.len() as u64 || t_end > src.len() as u64 {
            return None;
        }
        Some(
            Strings {
                src,
                added_strings: Vec::new(),
                string_ids_off: header.string_ids_off,
                string_ids_size: header.string_ids_size,
                type_ids_off: header.type_ids_off,
                type_ids_size: header.type_ids_size,
                data_off: header.data_off,
                data_size: header.data_size,
            },
        )
    }

    /// Queues a string for a future rewrite of the pool, in its
    /// MUTF-8 encoding.  The underlying buffer is unchanged.
    pub fn add(&mut self, string: &str)
        ensures
            final(self).added_strings@.len() == old(self).added_strings@.len() + 1,
            final(self).added_strings@.last()@ == mutf8_of(string@),
            final(self).src == old(self).src,
            final(self).string_ids_off == old(self).string_ids_off,
            final(self).string_ids_size == old(self).string_ids_size,
            final(self).type_ids_off == old(self).type_ids_off,
            final(self).type_ids_size == old(self).type_ids_size,
            final(self).data_off == old(self).data_off,
            final(self).data_size == old(self).data_size,
    {
        let encoded = to_mutf8(string);
        self.added_strings.push(encoded);
    }

    /// The number of strings in the pool.
    pub fn len(&self) -> (r: u32)
        ensures
            r == self.string_ids_size,
    {
        self.string_ids_size
    }

    /// The string id at pool index `index`.
    pub fn id_at(&self, index: u32) -> (r: Result<StringId, StringReadError>)
        requires
            self.wf(),
        ensures
            match r {
                Ok(id) => index < self.string_ids_size && id.0 == self.spec_id_at(index as int),
                Err(e) => index >= self.string_ids_size && e == StringReadError::IndexOutOfBounds(
                    index,
                ),
            },
    {
        if index >= self.string_ids_size {
            return Err(StringReadError::IndexOutOfBounds(index));
        }
        Ok(StringId(self.read_id_word(index)))
    }

    /// Reads the pool word at a known-good index.
    fn read_id_word(&self, index: u32) -> (r: u32)
        requires
            self.wf(),
            index < self.string_ids_size,
        ensures
            r == self.spec_id_at(index as int),
    {
        let n = self.src.len();
        proof {
            assert(4 * (index as int) + 4 <= 4 * (self.string_ids_size as int));
            assert(self.string_ids_off + 4 * (index as int) + 4 <= n);
        }
        let pos = self.string_ids_off as usize + 4 * (index as usize);
        let mut cursor = pos;
        match crate::codec::read_u32(self.src, &mut cursor) {
            Ok(v) => v,
            Err(_) => {
                proof {
                    assert(false);
                }
                0
            },
        }
    }

    /// The string id named by the type at type-pool index `type_idx`:
    /// the id of its descriptor string.
    pub fn id_at_type_idx(&self, type_idx: u32) -> (r: Result<StringId, StringReadError>)
        requires
            self.wf(),
        ensures
            match r {
                Ok(id) => {
                    &&& type_idx < self.type_ids_size
                    &&& ({
                        let d = le32_at(self.src@, self.type_ids_off + 4 * type_idx);
                        d < self.string_ids_size && id.0 == self.spec_id_at(d as int)
                    })
                },
                Err(e) => match e {
                    StringReadError::IndexOutOfBounds(n) => type_idx >= self.type_ids_size && n
                        == type_idx || (type_idx < self.type_ids_size && n == le32_at(
                        self.src@,
                        self.type_ids_off + 4 * type_idx,
                    ) && n >= self.string_ids_size),
                    _ => false,
                },
            },
    {
        if type_idx >= self.type_ids_size {
            return Err(StringReadError::IndexOutOfBounds(type_idx));
        }
        let n = self.src.len();
        proof {
            assert(4 * (type_idx as int) + 4 <= 4 * (self.type_ids_size as int));
            assert(self.type_ids_off + 4 * (type_idx as int) + 4 <= n);
        }
        let pos = self.type_ids_off as usize + 4 * (type_idx as usize);
        let mut cursor = pos;
        let descriptor_idx = match crate::codec::read_u32(self.src, &mut cursor) {
            Ok(v) => v,
            Err(_) => {
                proof {
                    assert(false);
                }
                0
            },
        };
        self.id_at(descriptor_idx)
    }

    /// Decodes the string a pool id points at.
    pub fn get(&self, id: &StringId) -> (r: Result<String, StringReadError>)
        requires
            self.wf(),
        ensures
            match r {
                Ok(st) => {
                    &&& self.spec_entry_ok(id.0)
                    &&& mutf8_decoded(string_bytes_at(self.src@, id.0 as int)) == Some(st@)
                },
                Err(e) => match e {
                    StringReadError::OffsetOutOfBounds(o) => {
                        &&& o == id.0
                        &&& (!self.spec_in_data(id.0) || id.0 > self.src@.len() || (uleb_dec(
                            self.src@.skip(id.0 as int),
                        ) is None && uleb_truncated(self.src@.skip(id.0 as int))))
                    },
                    StringReadError::Malformed(o) => {
                        &&& o == id.0
                        &&& self.spec_in_data(id.0)
                        &&& id.0 <= self.src@.len()
                        &&& ((uleb_dec(self.src@.skip(id.0 as int)) is None && !uleb_truncated(
                            self.src@.skip(id.0 as int),
                        )) || (uleb_dec(self.src@.skip(id.0 as int)) is Some && mutf8_decoded(
                            string_bytes_at(self.src@, id.0 as int),
                        ) is None))
                    },
                    _ => false,
                },
            },
    {
        let off = id.0;
        if !self.in_data(off) {
            return Err(StringReadError::OffsetOutOfBounds(off));
        }
        if off as u64 > self.src.len() as u64 {
            return Err(StringReadError::OffsetOutOfBounds(off));
        }
        let mut pos = off as usize;
        let sd = match StringData::read(self.src, &mut pos) {
            Ok(sd) => sd,
            Err(LebError::BadOffset) => {
                return Err(StringReadError::OffsetOutOfBounds(off));
            },
            Err(LebError::BadInput) => {
                return Err(StringReadError::Malformed(off));
            },
        };
        match from_mutf8(sd.data.as_slice()) {
            Some(st) => Ok(st),
            None => Err(StringReadError::Malformed(off)),
        }
    }

    /// Whether `off` lies inside the data section.
    fn in_data(&self, off: u32) -> (r: bool)
        ensures
            r == self.spec_in_data(off),
    {
        self.data_off <= off && (off as u64) < self.data_off as u64 + self.data_size as u64
    }

    /// Searches the pool for the entry whose bytes are the MUTF-8
    /// encoding of `query`, by binary search over the pool order.  On
    /// a sorted, readable pool the search is complete: it finds the
    /// entry whenever one matches.
    pub fn find(&self, query: &str) -> (r: Result<StringId, StringReadError>)
        requires
            self.wf(),
        ensures
            ({
                let q = mutf8_of(query@);
                match r {
                    Ok(id) => exists|i: int|
                        {
                            &&& 0 <= i < self.string_ids_size
                            &&& id.0 == #[trigger] self.spec_id_at(i)
                            &&& self.spec_bytes_at(i) == q
                        },
                    Err(e) => match e {
                        StringReadError::StringNotFound => (self.spec_sorted()
                            && self.spec_all_entries_ok()) ==> forall|i: int|
                            0 <= i < self.string_ids_size ==> #[trigger] self.spec_bytes_at(i)
                                != q,
                        StringReadError::OffsetOutOfBounds(_) => !self.spec_all_entries_ok(),
                        _ => false,
                    },
                }
            }),
            self.string_ids_size == 0 ==> r == Err::<StringId, StringReadError>(
                StringReadError::StringNotFound,
            ),
    {
        let q = to_mutf8(query);
        let ghost qs = mutf8_of(query@);
        let mut lo: u32 = 0;
        let mut hi: u32 = self.string_ids_size;
        while lo < hi
            invariant
                self.wf(),
                q@ == qs,
                qs == mutf8_of(query@),
                0 <= lo <= hi <= self.string_ids_size,
                (self.spec_sorted() && self.spec_all_entries_ok()) ==> forall|i: int|
                    0 <= i < lo ==> bytes_cmp(#[trigger] self.spec_bytes_at(i), qs)
                        == Ordering::Less,
                (self.spec_sorted() && self.spec_all_entries_ok()) ==> forall|i: int|
                    hi <= i < self.string_ids_size ==> bytes_cmp(
                        #[trigger] self.spec_bytes_at(i),
                        qs,
                    ) == Ordering::Greater,
            decreases hi - lo,
        {
            let mid = lo + (hi - lo) / 2;
            let id = self.read_id_word(mid);
            if !self.in_data(id) {
                assert(!self.spec_entry_ok(id));
                assert(!self.spec_all_entries_ok()) by {
                    assert(id == self.spec_id_at(mid as int));
                }
                return Err(StringReadError::OffsetOutOfBounds(id));
            }
            if id as u64 > self.src.len() as u64 {
                assert(!self.spec_entry_ok(id));
                assert(!self.spec_all_entries_ok()) by {
                    assert(id == self.spec_id_at(mid as int));
                }
                return Err(StringReadError::OffsetOutOfBounds(id));
            }
            let mut pos = id as usize;
            let sd = match StringData::read(self.src, &mut pos) {
                Ok(sd) => sd,
                Err(_) => {
                    assert(!self.spec_entry_ok(id));
                    assert(!self.spec_all_entries_ok()) by {
                        assert(id == self.spec_id_at(mid as int));
                    }
                    return Err(StringReadError::OffsetOutOfBounds(id));
                },
            };
            assert(sd.data@ == self.spec_bytes_at(mid as int));
            let c = cmp_bytes(q.as_slice(), sd.data.as_slice());
            match c {
                Ordering::Equal => {
                    proof {
                        lemma_bytes_cmp_eq(qs, self.spec_bytes_at(mid as int));
                        let w: int = mid as int;
                        assert(0 <= w < self.string_ids_size);
                        assert(StringId(id).0 == self.spec_id_at(w));
                        assert(self.spec_bytes_at(w) == mutf8_of(query@));
                        assert(exists|i: int|
                            0 <= i < self.string_ids_size && StringId(id).0
                                == #[trigger] self.spec_id_at(i) && self.spec_bytes_at(i)
                                == mutf8_of(query@));
                    }
                    return Ok(StringId(id));
                },
                Ordering::Less => {
                    // the query sorts before this entry and every later one
                    proof {
                        if self.spec_sorted() && self.spec_all_entries_ok() {
                            lemma_bytes_cmp_antisym(qs, self.spec_bytes_at(mid as int));
                            assert forall|i: int|
                                mid <= i < self.string_ids_size implies bytes_cmp(
                                #[trigger] self.spec_bytes_at(i),
                                qs,
                            ) == Ordering::Greater by {
                                if i > mid {
                                    lemma_bytes_cmp_trans(
                                        qs,
                                        self.spec_bytes_at(mid as int),
                                        self.spec_bytes_at(i),
                                    );
                                    lemma_bytes_cmp_antisym(qs, self.spec_bytes_at(i));
                                }
                            }
                        }
                    }
                    hi = mid;
                },
                Ordering::Greater => {
                    // the query sorts after this entry and every earlier one
                    proof {
                        if self.spec_sorted() && self.spec_all_entries_ok() {
                            lemma_bytes_cmp_antisym(self.spec_bytes_at(mid as int), qs);
                            assert forall|i: int|
                                0 <= i <= mid implies bytes_cmp(
                                #[trigger] self.spec_bytes_at(i),
                                qs,
                            ) == Ordering::Less by {
                                if i < mid {
                                    lemma_bytes_cmp_trans(
                                        self.spec_bytes_at(i),
                                        self.spec_bytes_at(mid as int),
                                        qs,
                                    );
                                }
                            }
                        }
                    }
                    lo = mid + 1;
                },
            }
        }
        proof {
            if self.spec_sorted() && self.spec_all_entries_ok() {
                assert forall|i: int|
                    0 <= i < self.string_ids_size implies #[trigger] self.spec_bytes_at(i)
                        != qs by {
                    lemma_bytes_cmp_eq(self.spec_bytes_at(i), qs);
                }
            }
        }
        Err(StringReadError::StringNotFound)
    }
}

/// Every readable pool entry's offset lies inside the data section.
pub proof fn lemma_ids_in_data_section(st: Strings<'_>)
    requires
        st.spec_all_entries_ok(),
    ensures
        forall|i: int|
            0 <= i < st.string_ids_size ==> st.spec_in_data(#[trigger] st.spec_id_at(i)),
{
}

/// In a strictly sorted pool, content determines the entry: two
/// entries with the same bytes are the same entry.
pub proof fn lemma_sorted_pool_injective(st: Strings<'_>, i: int, j: int)
    requires
        st.spec_sorted(),
        0 <= i < st.string_ids_size,
        0 <= j < st.string_ids_size,
        st.spec_bytes_at(i) == st.spec_bytes_at(j),
    ensures
        i == j,
{
    if i < j {
        lemma_bytes_cmp_eq(st.spec_bytes_at(i), st.spec_bytes_at(j));
    }
    if j < i {
        lemma_bytes_cmp_eq(st.spec_bytes_at(j), st.spec_bytes_at(i));
    }
}

/// Looking an entry's decoded string back up by content leads to the
/// same entry: when entry `i` re-encodes to its own bytes and entry
/// `j` holds the encoding of entry `i`'s string, the two entries
/// coincide, so a successful search returns `i`'s id.
pub proof fn lemma_find_after_get(st: Strings<'_>, i: int, j: int)
    requires
        st.spec_sorted(),
        0 <= i < st.string_ids_size,
        0 <= j < st.string_ids_size,
        mutf8_decoded(st.spec_bytes_at(i)) is Some,
        mutf8_of(mutf8_decoded(st.spec_bytes_at(i)).unwrap()) == st.spec_bytes_at(i),
        st.spec_bytes_at(j) == mutf8_of(mutf8_decoded(st.spec_bytes_at(i)).unwrap()),
    ensures
        j == i,
        st.spec_id_at(j) == st.spec_id_at(i),
{
    lemma_sorted_pool_injective(st, i, j);
}

} // verus!
