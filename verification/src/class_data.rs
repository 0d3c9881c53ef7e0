//! Class data: the encoded member lists of a class.
//!
//! Class data is four ULEB128 counts followed by four runs of encoded
//! members.  Member indices are stored as differences against the
//! previous sibling; the first difference is an absolute index.

use crate::codec::Parsed;
use crate::flags::{AccessFlags, ACCESS_FLAGS_MASK};
use crate::leb128::{
    lemma_uleb_dec_rem_bound, uleb_dec, uleb_enc, uleb_truncated, LebError, Uleb128, MAX_LEB_LEN,
};
use vstd::prelude::*;

verus! {

/// Failure while reading class data.
#[derive(Debug, Clone, Copy, PartialEq, Eq, Structural)]
pub enum ClassDataError {
    /// A member list ran past the end of the buffer.
    BadOffset,
    /// A ULEB128 value was over-wide.
    BadInput,
}

/// The flag set decoded from a ULEB128 value: the defined bits of its
/// low 32.
pub open spec fn spec_flags_of(v: nat) -> AccessFlags {
    AccessFlags { bits: (v as u64 & 0xffff_ffff) as u32 & ACCESS_FLAGS_MASK }
}

/// A field of a class, as stored in class data.
#[derive(Debug, Clone, Copy, PartialEq, Eq, Structural)]
pub struct EncodedField {
    /// Index into the field pool, as a difference from the previous
    /// list entry; the first entry stores its index directly.
    pub field_idx_diff: u64,
    /// Access flags for the field.
    pub access_flags: AccessFlags,
}

/// The parse of an encoded field at the head of `s`.
pub open spec fn enc_field_dec(s: Seq<u8>) -> Parsed<EncodedField> {
    match uleb_dec(s) {
        Some(p1) => match uleb_dec(s.skip(p1.1 as int)) {
            Some(p2) => Parsed::Value(
                EncodedField {
                    field_idx_diff: p1.0 as u64,
                    access_flags: spec_flags_of(p2.0),
                },
                p1.1 + p2.1,
            ),
            None => if uleb_truncated(s.skip(p1.1 as int)) {
                Parsed::Truncated
            } else {
                Parsed::Invalid
            },
        },
        None => if uleb_truncated(s) {
            Parsed::Truncated
        } else {
            Parsed::Invalid
        },
    }
}

/// A parsed encoded field occupies at least one byte and stays within
/// the sequence.
pub proof fn lemma_enc_field_dec_len(s: Seq<u8>)
    ensures
        enc_field_dec(s) matches Parsed::Value(f, n) ==> 1 <= n <= s.len(),
{
    lemma_uleb_dec_rem_bound(s, MAX_LEB_LEN as nat);
    if let Some(p1) = uleb_dec(s) {
        lemma_uleb_dec_rem_bound(s.skip(p1.1 as int), MAX_LEB_LEN as nat);
    }
}

/// The wire bytes of an encoded field.
pub open spec fn enc_field_bytes(f: EncodedField) -> Seq<u8> {
    uleb_enc(f.field_idx_diff as nat) + uleb_enc(f.access_flags.bits as nat)
}

impl EncodedField {
    /// Decodes an encoded field at the cursor.
    pub fn read(src: &[u8], offset: &mut usize) -> (r: Result<EncodedField, ClassDataError>)
        requires
            *old(offset) <= src@.len(),
        ensures
            match r {
                Ok(f) => {
                    &&& enc_field_dec(src@.skip(*old(offset) as int)) == Parsed::Value(
                        f,
                        (*final(offset) - *old(offset)) as nat,
                    )
                    &&& *old(offset) < *final(offset) <= src@.len()
                },
                Err(e) => {
                    &&& *final(offset) == *old(offset)
                    &&& (e == ClassDataError::BadOffset <==> enc_field_dec(
                        src@.skip(*old(offset) as int),
                    ) is Truncated)
                    &&& (e == ClassDataError::BadInput <==> enc_field_dec(
                        src@.skip(*old(offset) as int),
                    ) is Invalid)
                },
            },
    {
        let mut pos = *offset;
        let field_idx_diff = match Uleb128::read(src, &mut pos) {
            Ok(v) => v,
            Err(LebError::BadOffset) => {
                return Err(ClassDataError::BadOffset);
            },
            Err(LebError::BadInput) => {
                return Err(ClassDataError::BadInput);
            },
        };
        assert(src@.skip(*old(offset) as int).skip(pos - *old(offset)) =~= src@.skip(pos as int));
        let access_flags = match AccessFlags::try_from_uleb128(src, &mut pos) {
            Ok(v) => v,
            Err(LebError::BadOffset) => {
                return Err(ClassDataError::BadOffset);
            },
            Err(LebError::BadInput) => {
                return Err(ClassDataError::BadInput);
            },
        };
        *offset = pos;
        Ok(EncodedField { field_idx_diff, access_flags })
    }

    /// Appends this member's wire bytes.
    pub fn write(&self, dst: &mut Vec<u8>)
        ensures
            final(dst)@ == old(dst)@ + enc_field_bytes(*self),
    {
        Uleb128::write(dst, self.field_idx_diff);
        self.access_flags.try_into_uleb128(dst);
        assert(dst@ =~= old(dst)@ + enc_field_bytes(*self));
    }
}

/// A method of a class, as stored in class data.
#[derive(Debug, Clone, Copy, PartialEq, Eq, Structural)]
pub struct EncodedMethod {
    /// Index into the method pool, as a difference from the previous
    /// list entry; the first entry stores its index directly.
    pub method_idx_diff: u64,
    /// Access flags for the method.
    pub access_flags: AccessFlags,
    /// Offset of the method's code item, or 0 for an `abstract` or
    /// `native` method.
    pub code_off: u64,
}

/// The parse of an encoded method at the head of `s`.
pub open spec fn enc_method_dec(s: Seq<u8>) -> Parsed<EncodedMethod> {
    match uleb_dec(s) {
        Some(p1) => match uleb_dec(s.skip(p1.1 as int)) {
            Some(p2) => match uleb_dec(s.skip(p1.1 + p2.1 as int)) {
                Some(p3) => Parsed::Value(
                    EncodedMethod {
                        method_idx_diff: p1.0 as u64,
                        access_flags: spec_flags_of(p2.0),
                        code_off: p3.0 as u64,
                    },
                    p1.1 + p2.1 + p3.1,
                ),
                None => if uleb_truncated(s.skip(p1.1 + p2.1 as int)) {
                    Parsed::Truncated
                } else {
                    Parsed::Invalid
                },
            },
            None => if uleb_truncated(s.skip(p1.1 as int)) {
                Parsed::Truncated
            } else {
                Parsed::Invalid
            },
        },
        None => if uleb_truncated(s) {
            Parsed::Truncated
        } else {
            Parsed::Invalid
        },
    }
}

/// A parsed encoded method occupies at least one byte and stays within
/// the sequence.
pub proof fn lemma_enc_method_dec_len(s: Seq<u8>)
    ensures
        enc_method_dec(s) matches Parsed::Value(m, n) ==> 1 <= n <= s.len(),
{
    lemma_uleb_dec_rem_bound(s, MAX_LEB_LEN as nat);
    if let Some(p1) = uleb_dec(s) {
        lemma_uleb_dec_rem_bound(s.skip(p1.1 as int), MAX_LEB_LEN as nat);
        if let Some(p2) = uleb_dec(s.skip(p1.1 as int)) {
            lemma_uleb_dec_rem_bound(s.skip(p1.1 + p2.1 as int), MAX_LEB_LEN as nat);
            assert(s.skip(p1.1 + p2.1 as int).len() == s.len() - p1.1 - p2.1);
        }
    }
}

/// The wire bytes of an encoded method.
pub open spec fn enc_method_bytes(m: EncodedMethod) -> Seq<u8> {
    uleb_enc(m.method_idx_diff as nat) + uleb_enc(m.access_flags.bits as nat) + uleb_enc(
        m.code_off as nat,
    )
}

impl EncodedMethod {
    /// Decodes an encoded method at the cursor.
    pub fn read(src: &[u8], offset: &mut usize) -> (r: Result<EncodedMethod, ClassDataError>)
        requires
            *old(offset) <= src@.len(),
        ensures
            match r {
                Ok(m) => {
                    &&& enc_method_dec(src@.skip(*old(offset) as int)) == Parsed::Value(
                        m,
                        (*final(offset) - *old(offset)) as nat,
                    )
                    &&& *old(offset) < *final(offset) <= src@.len()
                },
                Err(e) => {
                    &&& *final(offset) == *old(offset)
                    &&& (e == ClassDataError::BadOffset <==> enc_method_dec(
                        src@.skip(*old(offset) as int),
                    ) is Truncated)
                    &&& (e == ClassDataError::BadInput <==> enc_method_dec(
                        src@.skip(*old(offset) as int),
                    ) is Invalid)
                },
            },
    {
        let mut pos = *offset;
        let method_idx_diff = match Uleb128::read(src, &mut pos) {
            Ok(v) => v,
            Err(LebError::BadOffset) => {
                return Err(ClassDataError::BadOffset);
            },
            Err(LebError::BadInput) => {
                return Err(ClassDataError::BadInput);
            },
        };
        assert(src@.skip(*old(offset) as int).skip(pos - *old(offset)) =~= src@.skip(pos as int));
        let access_flags = match AccessFlags::try_from_uleb128(src, &mut pos) {
            Ok(v) => v,
            Err(LebError::BadOffset) => {
                return Err(ClassDataError::BadOffset);
            },
            Err(LebError::BadInput) => {
                return Err(ClassDataError::BadInput);
            },
        };
        assert(src@.skip(*old(offset) as int).skip(pos - *old(offset)) =~= src@.skip(pos as int));
        let code_off = match Uleb128::read(src, &mut pos) {
            Ok(v) => v,
            Err(LebError::BadOffset) => {
                return Err(ClassDataError::BadOffset);
            },
            Err(LebError::BadInput) => {
                return Err(ClassDataError::BadInput);
            },
        };
        *offset = pos;
        Ok(EncodedMethod { method_idx_diff, access_flags, code_off })
    }

    /// Appends this member's wire bytes.
    pub fn write(&self, dst: &mut Vec<u8>)
        ensures
            final(dst)@ == old(dst)@ + enc_method_bytes(*self),
    {
        Uleb128::write(dst, self.method_idx_diff);
        self.access_flags.try_into_uleb128(dst);
        Uleb128::write(dst, self.code_off);
        assert(dst@ =~= old(dst)@ + enc_method_bytes(*self));
    }
}

/// The parse of a run of `count` encoded fields at the head of `s`.
pub open spec fn enc_fields_run(s: Seq<u8>, count: nat) -> Parsed<Seq<EncodedField>>
    decreases count,
{
    if count == 0 {
        Parsed::Value(Seq::empty(), 0)
    } else {
        match enc_field_dec(s) {
            Parsed::Value(f, n) => match enc_fields_run(s.skip(n as int), (count - 1) as nat) {
                Parsed::Value(fs, m) => Parsed::Value(seq![f] + fs, n + m),
                Parsed::Truncated => Parsed::Truncated,
                Parsed::Invalid => Parsed::Invalid,
            },
            Parsed::Truncated => Parsed::Truncated,
            Parsed::Invalid => Parsed::Invalid,
        }
    }
}

/// The parse of a run of `count` encoded methods at the head of `s`.
pub open spec fn enc_methods_run(s: Seq<u8>, count: nat) -> Parsed<Seq<EncodedMethod>>
    decreases count,
{
    if count == 0 {
        Parsed::Value(Seq::empty(), 0)
    } else {
        match enc_method_dec(s) {
            Parsed::Value(f, n) => match enc_methods_run(s.skip(n as int), (count - 1) as nat) {
                Parsed::Value(fs, m) => Parsed::Value(seq![f] + fs, n + m),
                Parsed::Truncated => Parsed::Truncated,
                Parsed::Invalid => Parsed::Invalid,
            },
            Parsed::Truncated => Parsed::Truncated,
            Parsed::Invalid => Parsed::Invalid,
        }
    }
}

/// A parsed field run has one entry per count and stays within the
/// sequence.
pub proof fn lemma_fields_run_len(s: Seq<u8>, count: nat)
    ensures
        enc_fields_run(s, count) matches Parsed::Value(fs, n) ==> fs.len() == count && n
            <= s.len(),
    decreases count,
{
    if count > 0 {
        lemma_enc_field_dec_len(s);
        if let Parsed::Value(f, n) = enc_field_dec(s) {
            lemma_fields_run_len(s.skip(n as int), (count - 1) as nat);
        }
    }
}

/// A parsed method run has one entry per count and stays within the
/// sequence.
pub proof fn lemma_methods_run_len(s: Seq<u8>, count: nat)
    ensures
        enc_methods_run(s, count) matches Parsed::Value(fs, n) ==> fs.len() == count && n
            <= s.len(),
    decreases count,
{
    if count > 0 {
        lemma_enc_method_dec_len(s);
        if let Parsed::Value(f, n) = enc_method_dec(s) {
            lemma_methods_run_len(s.skip(n as int), (count - 1) as nat);
        }
    }
}

/// A parsed prefix of a field run continues with the parse of the
/// rest: peeling `i` items off the front splits the run.
pub proof fn lemma_fields_run_split(s: Seq<u8>, i: nat, count: nat)
    requires
        i <= count,
        enc_fields_run(s, i) matches Parsed::Value(fs, n),
    ensures
        enc_fields_run(s, i) matches Parsed::Value(fs, n) ==> enc_fields_run(s, count) == (
        match enc_fields_run(s.skip(n as int), (count - i) as nat) {
            Parsed::Value(fs2, m) => Parsed::Value(fs + fs2, n + m),
            Parsed::Truncated => Parsed::<Seq<EncodedField>>::Truncated,
            Parsed::Invalid => Parsed::<Seq<EncodedField>>::Invalid,
        }),
    decreases i,
{
    lemma_fields_run_len(s, i);
    if let Parsed::Value(fs, n) = enc_fields_run(s, i) {
        if i == 0 {
            assert(s.skip(0) =~= s);
            assert(fs =~= Seq::<EncodedField>::empty());
            if let Parsed::Value(fs2, m) = enc_fields_run(s, count) {
                assert(fs + fs2 =~= fs2);
            }
        } else {
            if let Parsed::Value(f0, n0) = enc_field_dec(s) {
                lemma_enc_field_dec_len(s);
                let s1 = s.skip(n0 as int);
                if let Parsed::Value(fs1, n1) = enc_fields_run(s1, (i - 1) as nat) {
                    lemma_fields_run_len(s1, (i - 1) as nat);
                    lemma_fields_run_split(s1, (i - 1) as nat, (count - 1) as nat);
                    assert(s1.skip(n1 as int) =~= s.skip(n as int));
                    match enc_fields_run(s.skip(n as int), (count - i) as nat) {
                        Parsed::Value(fs2, m) => {
                            assert(enc_fields_run(s1, (count - 1) as nat) == Parsed::Value(
                                fs1 + fs2,
                                n1 + m,
                            ));
                            assert(seq![f0] + (fs1 + fs2) =~= (seq![f0] + fs1) + fs2);
                            assert(fs =~= seq![f0] + fs1);
                        },
                        _ => {},
                    }
                }
            }
        }
    }
}

/// A parsed prefix of a method run continues with the parse of the
/// rest: peeling `i` items off the front splits the run.
pub proof fn lemma_methods_run_split(s: Seq<u8>, i: nat, count: nat)
    requires
        i <= count,
        enc_methods_run(s, i) matches Parsed::Value(fs, n),
    ensures
        enc_methods_run(s, i) matches Parsed::Value(fs, n) ==> enc_methods_run(s, count) == (
        match enc_methods_run(s.skip(n as int), (count - i) as nat) {
            Parsed::Value(fs2, m) => Parsed::Value(fs + fs2, n + m),
            Parsed::Truncated => Parsed::<Seq<EncodedMethod>>::Truncated,
            Parsed::Invalid => Parsed::<Seq<EncodedMethod>>::Invalid,
        }),
    decreases i,
{
    lemma_methods_run_len(s, i);
    if let Parsed::Value(fs, n) = enc_methods_run(s, i) {
        if i == 0 {
            assert(s.skip(0) =~= s);
            assert(fs =~= Seq::<EncodedMethod>::empty());
            if let Parsed::Value(fs2, m) = enc_methods_run(s, count) {
                assert(fs + fs2 =~= fs2);
            }
        } else {
            if let Parsed::Value(f0, n0) = enc_method_dec(s) {
                lemma_enc_method_dec_len(s);
                let s1 = s.skip(n0 as int);
                if let Parsed::Value(fs1, n1) = enc_methods_run(s1, (i - 1) as nat) {
                    lemma_methods_run_len(s1, (i - 1) as nat);
                    lemma_methods_run_split(s1, (i - 1) as nat, (count - 1) as nat);
                    assert(s1.skip(n1 as int) =~= s.skip(n as int));
                    match enc_methods_run(s.skip(n as int), (count - i) as nat) {
                        Parsed::Value(fs2, m) => {
                            assert(enc_methods_run(s1, (count - 1) as nat) == Parsed::Value(
                                fs1 + fs2,
                                n1 + m,
                            ));
                            assert(seq![f0] + (fs1 + fs2) =~= (seq![f0] + fs1) + fs2);
                            assert(fs =~= seq![f0] + fs1);
                        },
                        _ => {},
                    }
                }
            }
        }
    }
}

/// Reads a run of `count` encoded fields at the cursor.
fn read_fields_run(src: &[u8], offset: &mut usize, count: u64) -> (r: Result<
    Vec<EncodedField>,
    ClassDataError,
>)
    requires
        *old(offset) <= src@.len(),
    ensures
        match r {
            Ok(fs) => {
                &&& enc_fields_run(src@.skip(*old(offset) as int), count as nat) == Parsed::Value(
                    fs@,
                    (*final(offset) - *old(offset)) as nat,
                )
                &&& *old(offset) <= *final(offset) <= src@.len()
                &&& fs@.len() == count
            },
            Err(e) => {
                &&& *final(offset) == *old(offset)
                &&& (e == ClassDataError::BadOffset <==> enc_fields_run(
                    src@.skip(*old(offset) as int),
                    count as nat,
                ) is Truncated)
                &&& (e == ClassDataError::BadInput <==> enc_fields_run(
                    src@.skip(*old(offset) as int),
                    count as nat,
                ) is Invalid)
            },
        },
{
    let ghost s0 = src@.skip(*old(offset) as int);
    let mut items: Vec<EncodedField> = Vec::new();
    let mut pos = *offset;
    let mut i: u64 = 0;
    while i < count
        invariant
            0 <= i <= count,
            *old(offset) <= pos <= src@.len(),
            s0 == src@.skip(*old(offset) as int),
            items@.len() == i,
            enc_fields_run(s0, i as nat) == Parsed::Value(items@, (pos - *old(offset)) as nat),
        decreases count - i,
    {
        let ghost pre = pos as int;
        let ghost n = (pre - *old(offset)) as nat;
        proof {
            assert(s0.skip(n as int) =~= src@.skip(pre));
        }
        let f = match EncodedField::read(src, &mut pos) {
            Ok(f) => f,
            Err(e) => {
                proof {
                    lemma_fields_run_split(s0, i as nat, count as nat);
                }
                return Err(e);
            },
        };
        proof {
            let m = (pos - pre) as nat;
            assert(enc_field_dec(s0.skip(n as int)) == Parsed::Value(f, m));
            assert(s0.skip(n as int).skip(m as int) =~= src@.skip(pos as int));
            assert(enc_fields_run(s0.skip(n as int).skip(m as int), 0) == Parsed::Value(
                Seq::<EncodedField>::empty(),
                0,
            ));
            assert(enc_fields_run(s0.skip(n as int), 1) == Parsed::Value(seq![f], m)) by {
                assert(seq![f] + Seq::<EncodedField>::empty() =~= seq![f]);
            }
            lemma_fields_run_split(s0, i as nat, (i + 1) as nat);
            assert(enc_fields_run(s0, (i + 1) as nat) == Parsed::Value(items@ + seq![f], n + m));
        }
        let ghost old_items = items@;
        items.push(f);
        proof {
            assert(items@ =~= old_items + seq![f]);
        }
        i = i + 1;
    }
    *offset = pos;
    Ok(items)
}

/// Reads a run of `count` encoded methods at the cursor.
fn read_methods_run(src: &[u8], offset: &mut usize, count: u64) -> (r: Result<
    Vec<EncodedMethod>,
    ClassDataError,
>)
    requires
        *old(offset) <= src@.len(),
    ensures
        match r {
            Ok(fs) => {
                &&& enc_methods_run(src@.skip(*old(offset) as int), count as nat)
                    == Parsed::Value(fs@, (*final(offset) - *old(offset)) as nat)
                &&& *old(offset) <= *final(offset) <= src@.len()
                &&& fs@.len() == count
            },
            Err(e) => {
                &&& *final(offset) == *old(offset)
                &&& (e == ClassDataError::BadOffset <==> enc_methods_run(
                    src@.skip(*old(offset) as int),
                    count as nat,
                ) is Truncated)
                &&& (e == ClassDataError::BadInput <==> enc_methods_run(
                    src@.skip(*old(offset) as int),
                    count as nat,
                ) is Invalid)
            },
        },
{
    let ghost s0 = src@.skip(*old(offset) as int);
    let mut items: Vec<EncodedMethod> = Vec::new();
    let mut pos = *offset;
    let mut i: u64 = 0;
    while i < count
        invariant
            0 <= i <= count,
            *old(offset) <= pos <= src@.len(),
            s0 == src@.skip(*old(offset) as int),
            items@.len() == i,
            enc_methods_run(s0, i as nat) == Parsed::Value(items@, (pos - *old(offset)) as nat),
        decreases count - i,
    {
        let ghost pre = pos as int;
        let ghost n = (pre - *old(offset)) as nat;
        proof {
            assert(s0.skip(n as int) =~= src@.skip(pre));
        }
        let f = match EncodedMethod::read(src, &mut pos) {
            Ok(f) => f,
            Err(e) => {
                proof {
                    lemma_methods_run_split(s0, i as nat, count as nat);
                }
                return Err(e);
            },
        };
        proof {
            let m = (pos - pre) as nat;
            assert(enc_method_dec(s0.skip(n as int)) == Parsed::Value(f, m));
            assert(s0.skip(n as int).skip(m as int) =~= src@.skip(pos as int));
            assert(enc_methods_run(s0.skip(n as int).skip(m as int), 0) == Parsed::Value(
                Seq::<EncodedMethod>::empty(),
                0,
            ));
            assert(enc_methods_run(s0.skip(n as int), 1) == Parsed::Value(seq![f], m)) by {
                assert(seq![f] + Seq::<EncodedMethod>::empty() =~= seq![f]);
            }
            lemma_methods_run_split(s0, i as nat, (i + 1) as nat);
            assert(enc_methods_run(s0, (i + 1) as nat) == Parsed::Value(items@ + seq![f], n + m));
        }
        let ghost old_items = items@;
        items.push(f);
        proof {
            assert(items@ =~= old_items + seq![f]);
        }
        i = i + 1;
    }
    *offset = pos;
    Ok(items)
}

/// The member lists of one class.
#[derive(Debug, PartialEq, Eq)]
pub struct ClassData {
    /// Number of static fields.
    pub static_fields_size: u64,
    /// Number of instance fields.
    pub instance_fields_size: u64,
    /// Number of direct methods.
    pub direct_methods_size: u64,
    /// Number of virtual methods.
    pub virtual_methods_size: u64,
    /// The static fields, sorted by reconstructed field index.
    pub static_fields: Vec<EncodedField>,
    /// The instance fields, sorted by reconstructed field index.
    pub instance_fields: Vec<EncodedField>,
    /// The direct methods, sorted by reconstructed method index.
    pub direct_methods: Vec<EncodedMethod>,
    /// The virtual methods, sorted by reconstructed method index.
    pub virtual_methods: Vec<EncodedMethod>,
}

/// How a decoded class-data item relates to the bytes it came from:
/// the four counts parse in order, and each member run parses where
/// the previous one stopped, ending at `end`.
pub open spec fn class_data_parts_ok(cd: ClassData, s: Seq<u8>, start: int, end: int) -> bool {
    match uleb_dec(s.skip(start)) {
        Some(c1) => match uleb_dec(s.skip(start + c1.1)) {
            Some(c2) => match uleb_dec(s.skip(start + c1.1 + c2.1)) {
                Some(c3) => match uleb_dec(s.skip(start + c1.1 + c2.1 + c3.1)) {
                    Some(c4) => {
                        let runs = start + c1.1 + c2.1 + c3.1 + c4.1;
                        &&& cd.static_fields_size == c1.0
                        &&& cd.instance_fields_size == c2.0
                        &&& cd.direct_methods_size == c3.0
                        &&& cd.virtual_methods_size == c4.0
                        &&& match enc_fields_run(s.skip(runs), c1.0) {
                            Parsed::Value(fs1, n1) => {
                                &&& cd.static_fields@ == fs1
                                &&& match enc_fields_run(s.skip(runs + n1), c2.0) {
                                    Parsed::Value(fs2, n2) => {
                                        &&& cd.instance_fields@ == fs2
                                        &&& match enc_methods_run(s.skip(runs + n1 + n2), c3.0) {
                                            Parsed::Value(ms1, n3) => {
                                                &&& cd.direct_methods@ == ms1
                                                &&& match enc_methods_run(
                                                    s.skip(runs + n1 + n2 + n3),
                                                    c4.0,
                                                ) {
                                                    Parsed::Value(ms2, n4) => {
                                                        &&& cd.virtual_methods@ == ms2
                                                        &&& end == runs + n1 + n2 + n3 + n4
                                                    },
                                                    _ => false,
                                                }
                                            },
                                            _ => false,
                                        }
                                    },
                                    _ => false,
                                }
                            },
                            _ => false,
                        }
                    },
                    None => false,
                },
                None => false,
            },
            None => false,
        },
        None => false,
    }
}

/// Whether a whole class-data item parses at `start`: the four counts
/// and then the four member runs.
pub open spec fn class_data_ok(s: Seq<u8>, start: int) -> bool {
    match uleb_dec(s.skip(start)) {
        Some(c1) => match uleb_dec(s.skip(start + c1.1)) {
            Some(c2) => match uleb_dec(s.skip(start + c1.1 + c2.1)) {
                Some(c3) => match uleb_dec(s.skip(start + c1.1 + c2.1 + c3.1)) {
                    Some(c4) => {
                        let runs = start + c1.1 + c2.1 + c3.1 + c4.1;
                        match enc_fields_run(s.skip(runs), c1.0) {
                            Parsed::Value(fs1, n1) => match enc_fields_run(
                                s.skip(runs + n1),
                                c2.0,
                            ) {
                                Parsed::Value(fs2, n2) => match enc_methods_run(
                                    s.skip(runs + n1 + n2),
                                    c3.0,
                                ) {
                                    Parsed::Value(ms1, n3) => enc_methods_run(
                                        s.skip(runs + n1 + n2 + n3),
                                        c4.0,
                                    ) is Value,
                                    _ => false,
                                },
                                _ => false,
                            },
                            _ => false,
                        }
                    },
                    None => false,
                },
                None => false,
            },
            None => false,
        },
        None => false,
    }
}

/// Whether an encoded method's code offset obeys the format's rule:
/// it is 0 exactly for an `abstract` or `native` method.  This is a
/// validity property of the file, not enforced by the decoder.
pub open spec fn spec_code_matches_flags(m: EncodedMethod) -> bool {
    (m.code_off == 0) <==> (m.access_flags.bits & (crate::flags::ACC_ABSTRACT
        | crate::flags::ACC_NATIVE) != 0)
}

impl ClassData {
    /// Decodes a class-data item at the cursor: four counts, then the
    /// four member runs.  It succeeds exactly when the whole item
    /// parses there.
    #[verifier::rlimit(100)]
    pub fn read(src: &[u8], offset: &mut usize) -> (r: Result<ClassData, ClassDataError>)
        requires
            *old(offset) <= src@.len(),
        ensures
            r is Ok <==> class_data_ok(src@, *old(offset) as int),
            match r {
                Ok(cd) => {
                    &&& *old(offset) <= *final(offset) <= src@.len()
                    &&& cd.static_fields@.len() == cd.static_fields_size
                    &&& cd.instance_fields@.len() == cd.instance_fields_size
                    &&& cd.direct_methods@.len() == cd.direct_methods_size
                    &&& cd.virtual_methods@.len() == cd.virtual_methods_size
                    &&& class_data_parts_ok(cd, src@, *old(offset) as int, *final(offset) as int)
                },
                Err(_) => *final(offset) == *old(offset),
            },
    {
        let mut pos = *offset;
        let static_fields_size = match Uleb128::read(src, &mut pos) {
            Ok(v) => v,
            Err(e) => {
                return Err(map_leb_err(e));
            },
        };
        let instance_fields_size = match Uleb128::read(src, &mut pos) {
            Ok(v) => v,
            Err(e) => {
                return Err(map_leb_err(e));
            },
        };
        let direct_methods_size = match Uleb128::read(src, &mut pos) {
            Ok(v) => v,
            Err(e) => {
                return Err(map_leb_err(e));
            },
        };
        let virtual_methods_size = match Uleb128::read(src, &mut pos) {
            Ok(v) => v,
            Err(e) => {
                return Err(map_leb_err(e));
            },
        };
        let static_fields = match read_fields_run(src, &mut pos, static_fields_size) {
            Ok(v) => v,
            Err(e) => {
                return Err(e);
            },
        };
        let instance_fields = match read_fields_run(src, &mut pos, instance_fields_size) {
            Ok(v) => v,
            Err(e) => {
                return Err(e);
            },
        };
        let direct_methods = match read_methods_run(src, &mut pos, direct_methods_size) {
            Ok(v) => v,
            Err(e) => {
                return Err(e);
            },
        };
        let virtual_methods = match read_methods_run(src, &mut pos, virtual_methods_size) {
            Ok(v) => v,
            Err(e) => {
                return Err(e);
            },
        };
        *offset = pos;
        Ok(
            ClassData {
                static_fields_size,
                instance_fields_size,
                direct_methods_size,
                virtual_methods_size,
                static_fields,
                instance_fields,
                direct_methods,
                virtual_methods,
            },
        )
    }

    /// Appends this item's wire bytes: the four counts and the four
    /// member runs.
    pub fn write(&self, dst: &mut Vec<u8>)
        ensures
            final(dst)@ == old(dst)@ + uleb_enc(self.static_fields_size as nat) + uleb_enc(
                self.instance_fields_size as nat,
            ) + uleb_enc(self.direct_methods_size as nat) + uleb_enc(
                self.virtual_methods_size as nat,
            ) + enc_fields_bytes(self.static_fields@) + enc_fields_bytes(self.instance_fields@)
                + enc_methods_bytes(self.direct_methods@) + enc_methods_bytes(
                self.virtual_methods@,
            ),
    {
        Uleb128::write(dst, self.static_fields_size);
        Uleb128::write(dst, self.instance_fields_size);
        Uleb128::write(dst, self.direct_methods_size);
        Uleb128::write(dst, self.virtual_methods_size);
        write_fields_run(dst, &self.static_fields);
        write_fields_run(dst, &self.instance_fields);
        write_methods_run(dst, &self.direct_methods);
        write_methods_run(dst, &self.virtual_methods);
        assert(dst@ =~= old(dst)@ + uleb_enc(self.static_fields_size as nat) + uleb_enc(
            self.instance_fields_size as nat,
        ) + uleb_enc(self.direct_methods_size as nat) + uleb_enc(self.virtual_methods_size as nat)
            + enc_fields_bytes(self.static_fields@) + enc_fields_bytes(self.instance_fields@)
            + enc_methods_bytes(self.direct_methods@) + enc_methods_bytes(self.virtual_methods@));
    }
}

/// Maps a LEB failure to a class-data failure.
fn map_leb_err(e: LebError) -> (r: ClassDataError)
    ensures
        r == ClassDataError::BadOffset <==> e == LebError::BadOffset,
        r == ClassDataError::BadInput <==> e == LebError::BadInput,
{
    match e {
        LebError::BadOffset => ClassDataError::BadOffset,
        LebError::BadInput => ClassDataError::BadInput,
    }
}

/// The concatenated wire bytes of a run of encoded fields.
pub open spec fn enc_fields_bytes(items: Seq<EncodedField>) -> Seq<u8>
    decreases items.len(),
{
    if items.len() == 0 {
        Seq::empty()
    } else {
        enc_fields_bytes(items.drop_last()) + enc_field_bytes(items.last())
    }
}

/// The concatenated wire bytes of a run of encoded methods.
pub open spec fn enc_methods_bytes(items: Seq<EncodedMethod>) -> Seq<u8>
    decreases items.len(),
{
    if items.len() == 0 {
        Seq::empty()
    } else {
        enc_methods_bytes(items.drop_last()) + enc_method_bytes(items.last())
    }
}

/// Appends a run of encoded fields.
fn write_fields_run(dst: &mut Vec<u8>, items: &Vec<EncodedField>)
    ensures
        final(dst)@ == old(dst)@ + enc_fields_bytes(items@),
{
    let mut i: usize = 0;
    while i < items.len()
        invariant
            0 <= i <= items@.len(),
            dst@ == old(dst)@ + enc_fields_bytes(items@.take(i as int)),
        decreases items@.len() - i,
    {
        items[i].write(dst);
        proof {
            assert(items@.take(i + 1).drop_last() =~= items@.take(i as int));
            assert(items@.take(i + 1).last() == items@[i as int]);
        }
        i = i + 1;
    }
    assert(items@.take(items@.len() as int) =~= items@);
}

/// Appends a run of encoded methods.
fn write_methods_run(dst: &mut Vec<u8>, items: &Vec<EncodedMethod>)
    ensures
        final(dst)@ == old(dst)@ + enc_methods_bytes(items@),
{
    let mut i: usize = 0;
    while i < items.len()
        invariant
            0 <= i <= items@.len(),
            dst@ == old(dst)@ + enc_methods_bytes(items@.take(i as int)),
        decreases items@.len() - i,
    {
        items[i].write(dst);
        proof {
            assert(items@.take(i + 1).drop_last() =~= items@.take(i as int));
            assert(items@.take(i + 1).last() == items@[i as int]);
        }
        i = i + 1;
    }
    assert(items@.take(items@.len() as int) =~= items@);
}

/// The reconstructed absolute index of the member at position `i` of a
/// run: the sum of the differences up to and including it.
pub open spec fn member_index_at(diffs: Seq<nat>, i: int) -> nat
    decreases i,
{
    if i <= 0 {
        if diffs.len() > 0 {
            diffs[0]
        } else {
            0
        }
    } else {
        member_index_at(diffs, i - 1) + diffs[i]
    }
}

/// When every difference after the first is at least one, the
/// reconstructed member indices are strictly increasing.
pub proof fn lemma_member_indices_strictly_increasing(diffs: Seq<nat>, i: int, j: int)
    requires
        forall|k: int| 1 <= k < diffs.len() ==> diffs[k] >= 1,
        0 <= i < j < diffs.len(),
    ensures
        member_index_at(diffs, i) < member_index_at(diffs, j),
    decreases j - i,
{
    if i + 1 < j {
        lemma_member_indices_strictly_increasing(diffs, i, j - 1);
    }
}

/// Reconstructed member indices never decrease, so if the last index
/// lies inside the pool, all of them do.
pub proof fn lemma_member_indices_bounded(diffs: Seq<nat>, pool: nat)
    requires
        diffs.len() > 0,
        member_index_at(diffs, diffs.len() - 1) < pool,
    ensures
        forall|i: int| 0 <= i < diffs.len() ==> member_index_at(diffs, i) < pool,
{
    assert forall|i: int| 0 <= i < diffs.len() implies member_index_at(diffs, i) < pool by {
        lemma_member_index_monotone(diffs, i, diffs.len() - 1);
    }
}

/// Reconstructed member indices are monotone (not necessarily
/// strictly).
pub proof fn lemma_member_index_monotone(diffs: Seq<nat>, i: int, j: int)
    requires
        0 <= i <= j < diffs.len(),
    ensures
        member_index_at(diffs, i) <= member_index_at(diffs, j),
    decreases j - i,
{
    if i < j {
        lemma_member_index_monotone(diffs, i, j - 1);
    }
}

} // verus!
