//! The encoded-value codec: the eighteen tagged value kinds used by
//! annotations and static-field initializers.
//!
//! A value starts with one header byte packing a five-bit value type
//! and a three-bit `value_arg`.  Scalar and index kinds store
//! `value_arg + 1` little-endian payload bytes: signed kinds drop
//! redundant sign bytes, unsigned kinds drop high zero bytes, and the
//! floating kinds drop *low* zero bytes, so their missing low-order
//! bytes are implicitly zero.  Arrays and annotations nest recursively.
//!
//! Contracts are stated over a ghost mirror of the value tree whose
//! sequences replace vectors, reached through the `view` functions.

use crate::codec::Parsed;
use crate::leb128::{uleb_dec, uleb_truncated, LebError, Uleb128};
use vstd::prelude::*;

verus! {

broadcast use vstd::std_specs::vec::group_vec_axioms, vstd::seq::group_seq_axioms;

/// Failure while reading an encoded value.
#[derive(Debug, Clone, Copy, PartialEq, Eq, Structural)]
pub enum EncodedValueError {
    /// The header named an undefined value type, or carried a
    /// `value_arg` its value type does not allow.
    InvalidValueType(u8),
    /// An index points outside the pool it refers to.
    ValueNotFound(u8, u32),
    /// The value ran past the end of the buffer.
    BadOffset,
    /// A ULEB128 value was over-wide.
    BadInput,
}

/// Powers of 256.
pub open spec fn p256(k: nat) -> nat
    decreases k,
{
    if k == 0 {
        1
    } else {
        256 * p256((k - 1) as nat)
    }
}

/// The small powers of 256, up to the width of a `u64`.
pub proof fn lemma_p256_vals()
    ensures
        p256(0) == 1,
        p256(1) == 0x100,
        p256(2) == 0x10000,
        p256(3) == 0x1000000,
        p256(4) == 0x100000000,
        p256(5) == 0x10000000000,
        p256(6) == 0x1000000000000,
        p256(7) == 0x100000000000000,
        p256(8) == 0x10000000000000000,
{
    assert(p256(0) == 1);
    assert(p256(1) == 0x100);
    assert(p256(2) == 0x10000);
    assert(p256(3) == 0x1000000);
    assert(p256(4) == 0x100000000);
    assert(p256(5) == 0x10000000000);
    assert(p256(6) == 0x1000000000000);
    assert(p256(7) == 0x100000000000000);
    assert(p256(8) == 0x10000000000000000);
}

/// The unsigned value of a little-endian byte sequence.
pub open spec fn le_val(s: Seq<u8>) -> nat
    decreases s.len(),
{
    if s.len() == 0 {
        0
    } else {
        (s[0] + 256 * le_val(s.skip(1))) as nat
    }
}

/// A little-endian byte sequence is bounded by 256 to its length.
pub proof fn lemma_le_val_bound(s: Seq<u8>)
    ensures
        le_val(s) < p256(s.len()),
    decreases s.len(),
{
    if s.len() > 0 {
        lemma_le_val_bound(s.skip(1));
    }
}

/// The value of a little-endian sequence splits around its last byte.
pub proof fn lemma_le_val_last(s: Seq<u8>)
    requires
        s.len() > 0,
    ensures
        le_val(s) == le_val(s.drop_last()) + s.last() * p256((s.len() - 1) as nat),
    decreases s.len(),
{
    if s.len() == 1 {
        assert(s.drop_last() =~= Seq::<u8>::empty());
        assert(s.skip(1) =~= Seq::<u8>::empty());
        assert(le_val(Seq::<u8>::empty()) == 0);
        assert(p256(0) == 1);
        assert(le_val(s) == s[0]);
    } else {
        let t = s.skip(1);
        let n2 = (t.len() - 1) as nat;
        lemma_le_val_last(t);
        assert(t.drop_last() =~= s.drop_last().skip(1));
        assert(t.last() == s.last());
        assert(s.drop_last()[0] == s[0]);
        assert(le_val(s) == s[0] + 256 * le_val(t));
        assert(256 * (le_val(t.drop_last()) + t.last() * p256(n2)) == 256 * le_val(t.drop_last())
            + 256 * (t.last() * p256(n2))) by {
            vstd::arithmetic::mul::lemma_mul_is_distributive_add(
                256,
                le_val(t.drop_last()) as int,
                (t.last() * p256(n2)) as int,
            );
        }
        assert(256 * (t.last() * p256(n2)) == t.last() * (256 * p256(n2))) by {
            vstd::arithmetic::mul::lemma_mul_is_associative(256, t.last() as int, p256(n2) as int);
            vstd::arithmetic::mul::lemma_mul_is_commutative(256, t.last() as int);
            vstd::arithmetic::mul::lemma_mul_is_associative(t.last() as int, 256, p256(n2) as int);
        }
        assert(p256((s.len() - 1) as nat) == 256 * p256(n2));
        assert(le_val(s.drop_last()) == s[0] + 256 * le_val(t.drop_last()));
        assert(le_val(s) == le_val(s.drop_last()) + s.last() * p256((s.len() - 1) as nat));
    }
}

/// The signed (two's-complement) value of a little-endian byte
/// sequence, sign-extended from its final byte.
pub open spec fn le_sval(s: Seq<u8>) -> int {
    if s.len() == 0 {
        0
    } else if s.last() >= 128 {
        le_val(s) - p256(s.len())
    } else {
        le_val(s) as int
    }
}

/// The little-endian bytes of `v` at an exact width.
pub open spec fn le_bytes_w(v: nat, w: nat) -> Seq<u8>
    decreases w,
{
    if w == 0 {
        Seq::empty()
    } else {
        seq![(v % 256) as u8] + le_bytes_w(v / 256, (w - 1) as nat)
    }
}

/// One decoded value of the encoded-value format.
#[derive(Debug)]
pub enum EncodedValue {
    /// A signed byte.
    Byte(i8),
    /// A signed 16-bit integer.
    Short(i16),
    /// An unsigned 16-bit code unit.
    Char(u16),
    /// A signed 32-bit integer.
    Int(i32),
    /// A signed 64-bit integer.
    Long(i64),
    /// The bit pattern of a 32-bit floating value; the payload fills
    /// the high-order end, so missing low-order bytes are zero.
    Float(u32),
    /// The bit pattern of a 64-bit floating value, padded like
    /// `Float`.
    Double(u64),
    /// An index into the proto pool.
    MethodType(u32),
    /// An index into the method-handle pool.
    MethodHandle(u32),
    /// An index into the string pool.
    String(u32),
    /// An index into the type pool.
    Type(u32),
    /// An index into the field pool.
    Field(u32),
    /// An index into the method pool.
    Method(u32),
    /// An index into the field pool naming an enum constant.
    Enum(u32),
    /// A nested array of values.
    Array(Vec<EncodedValue>),
    /// A nested annotation.
    Annotation(EncodedAnnotation),
    /// The null reference.
    Null,
    /// A boolean, stored entirely in the header's `value_arg`.
    Boolean(bool),
}

/// A nested annotation: its type and named elements.
#[derive(Debug)]
pub struct EncodedAnnotation {
    /// Index into the type pool of the annotation type.
    pub type_idx: u64,
    /// Number of elements; equal to the element list's length in a
    /// well-formed value.
    pub size: u64,
    /// The named elements, sorted by `name_idx` in a valid file.
    pub elements: Vec<AnnotationElement>,
}

/// One named element of an annotation.
#[derive(Debug)]
pub struct AnnotationElement {
    /// Index into the string pool of the element's name.
    pub name_idx: u64,
    /// The element's value.
    pub value: EncodedValue,
}

/// The ghost mirror of a value tree, with sequences for vectors.
pub enum EvModel {
    Byte(i8),
    Short(i16),
    Char(u16),
    Int(i32),
    Long(i64),
    Float(u32),
    Double(u64),
    MethodType(u32),
    MethodHandle(u32),
    String(u32),
    Type(u32),
    Field(u32),
    Method(u32),
    Enum(u32),
    Array(Seq<EvModel>),
    Annotation(AnnModel),
    Null,
    Boolean(bool),
}

/// The ghost mirror of an annotation.
pub struct AnnModel {
    pub type_idx: u64,
    pub size: u64,
    pub elements: Seq<ElemModel>,
}

/// The ghost mirror of an annotation element.
pub struct ElemModel {
    pub name_idx: u64,
    pub value: EvModel,
}

/// The ghost mirror of a value.
pub open spec fn ev_view(v: EncodedValue) -> EvModel
    decreases v,
    via ev_view_dec
{
    match v {
        EncodedValue::Byte(x) => EvModel::Byte(x),
        EncodedValue::Short(x) => EvModel::Short(x),
        EncodedValue::Char(x) => EvModel::Char(x),
        EncodedValue::Int(x) => EvModel::Int(x),
        EncodedValue::Long(x) => EvModel::Long(x),
        EncodedValue::Float(x) => EvModel::Float(x),
        EncodedValue::Double(x) => EvModel::Double(x),
        EncodedValue::MethodType(x) => EvModel::MethodType(x),
        EncodedValue::MethodHandle(x) => EvModel::MethodHandle(x),
        EncodedValue::String(x) => EvModel::String(x),
        EncodedValue::Type(x) => EvModel::Type(x),
        EncodedValue::Field(x) => EvModel::Field(x),
        EncodedValue::Method(x) => EvModel::Method(x),
        EncodedValue::Enum(x) => EvModel::Enum(x),
        EncodedValue::Array(vs) => EvModel::Array(evs_view(vs@)),
        EncodedValue::Annotation(a) => EvModel::Annotation(ann_view(a)),
        EncodedValue::Null => EvModel::Null,
        EncodedValue::Boolean(x) => EvModel::Boolean(x),
    }
}

#[via_fn]
proof fn ev_view_dec(v: EncodedValue) {
    match v {
        EncodedValue::Array(vs) => {
            assert(decreases_to!(v => vs));
            assert(decreases_to!(vs => vs@));
            assert(decreases_to!(v => vs@));
        },
        _ => {},
    }
}

/// The ghost mirrors of a sequence of values.
pub open spec fn evs_view(vs: Seq<EncodedValue>) -> Seq<EvModel>
    decreases vs,
{
    if vs.len() == 0 {
        Seq::empty()
    } else {
        seq![ev_view(vs[0])] + evs_view(vs.subrange(1, vs.len() as int))
    }
}

/// The ghost mirror of an annotation.
pub open spec fn ann_view(a: EncodedAnnotation) -> AnnModel
    decreases a,
    via ann_view_dec
{
    AnnModel { type_idx: a.type_idx, size: a.size, elements: elems_view(a.elements@) }
}

#[via_fn]
proof fn ann_view_dec(a: EncodedAnnotation) {
    assert(decreases_to!(a => a.elements));
    assert(decreases_to!(a.elements => a.elements@));
    assert(decreases_to!(a => a.elements@));
}

/// The ghost mirrors of a sequence of annotation elements.
pub open spec fn elems_view(es: Seq<AnnotationElement>) -> Seq<ElemModel>
    decreases es,
{
    if es.len() == 0 {
        Seq::empty()
    } else {
        seq![elem_view(es[0])] + elems_view(es.subrange(1, es.len() as int))
    }
}

/// The ghost mirror of an annotation element.
pub open spec fn elem_view(e: AnnotationElement) -> ElemModel
    decreases e,
{
    ElemModel { name_idx: e.name_idx, value: ev_view(e.value) }
}

/// A value view, element by element.
pub proof fn lemma_evs_view(vs: Seq<EncodedValue>)
    ensures
        evs_view(vs).len() == vs.len(),
        forall|i: int| 0 <= i < vs.len() ==> evs_view(vs)[i] == ev_view(vs[i]),
    decreases vs,
{
    if vs.len() > 0 {
        lemma_evs_view(vs.subrange(1, vs.len() as int));
    }
}

/// An element view, element by element.
pub proof fn lemma_elems_view(es: Seq<AnnotationElement>)
    ensures
        elems_view(es).len() == es.len(),
        forall|i: int| 0 <= i < es.len() ==> elems_view(es)[i] == elem_view(es[i]),
    decreases es,
{
    if es.len() > 0 {
        lemma_elems_view(es.subrange(1, es.len() as int));
    }
}

/// The value-type codes of the format.
#[derive(Debug, Clone, Copy, PartialEq, Eq, Structural)]
pub enum ValueType {
    Byte,
    Short,
    Char,
    Int,
    Long,
    Float,
    Double,
    MethodType,
    MethodHandle,
    String,
    Type,
    Field,
    Method,
    Enum,
    Array,
    Annotation,
    Null,
    Boolean,
}

/// The wire code of a value type.
pub open spec fn spec_value_type_code(t: ValueType) -> u8 {
    match t {
        ValueType::Byte => 0x00,
        ValueType::Short => 0x02,
        ValueType::Char => 0x03,
        ValueType::Int => 0x04,
        ValueType::Long => 0x06,
        ValueType::Float => 0x10,
        ValueType::Double => 0x11,
        ValueType::MethodType => 0x15,
        ValueType::MethodHandle => 0x16,
        ValueType::String => 0x17,
        ValueType::Type => 0x18,
        ValueType::Field => 0x19,
        ValueType::Method => 0x1a,
        ValueType::Enum => 0x1b,
        ValueType::Array => 0x1c,
        ValueType::Annotation => 0x1d,
        ValueType::Null => 0x1e,
        ValueType::Boolean => 0x1f,
    }
}

/// The value type a wire code names, if any.
pub open spec fn spec_value_type_from_code(v: u8) -> Option<ValueType> {
    match v {
        0x00 => Some(ValueType::Byte),
        0x02 => Some(ValueType::Short),
        0x03 => Some(ValueType::Char),
        0x04 => Some(ValueType::Int),
        0x06 => Some(ValueType::Long),
        0x10 => Some(ValueType::Float),
        0x11 => Some(ValueType::Double),
        0x15 => Some(ValueType::MethodType),
        0x16 => Some(ValueType::MethodHandle),
        0x17 => Some(ValueType::String),
        0x18 => Some(ValueType::Type),
        0x19 => Some(ValueType::Field),
        0x1a => Some(ValueType::Method),
        0x1b => Some(ValueType::Enum),
        0x1c => Some(ValueType::Array),
        0x1d => Some(ValueType::Annotation),
        0x1e => Some(ValueType::Null),
        0x1f => Some(ValueType::Boolean),
        _ => None,
    }
}

impl ValueType {
    /// The value type a wire code names, if any.
    pub fn from_code(v: u8) -> (r: Option<ValueType>)
        ensures
            r == spec_value_type_from_code(v),
    {
        match v {
            0x00 => Some(ValueType::Byte),
            0x02 => Some(ValueType::Short),
            0x03 => Some(ValueType::Char),
            0x04 => Some(ValueType::Int),
            0x06 => Some(ValueType::Long),
            0x10 => Some(ValueType::Float),
            0x11 => Some(ValueType::Double),
            0x15 => Some(ValueType::MethodType),
            0x16 => Some(ValueType::MethodHandle),
            0x17 => Some(ValueType::String),
            0x18 => Some(ValueType::Type),
            0x19 => Some(ValueType::Field),
            0x1a => Some(ValueType::Method),
            0x1b => Some(ValueType::Enum),
            0x1c => Some(ValueType::Array),
            0x1d => Some(ValueType::Annotation),
            0x1e => Some(ValueType::Null),
            0x1f => Some(ValueType::Boolean),
            _ => None,
        }
    }

    /// The wire code of this value type.
    pub fn code(&self) -> (r: u8)
        ensures
            r == spec_value_type_code(*self),
    {
        match self {
            ValueType::Byte => 0x00,
            ValueType::Short => 0x02,
            ValueType::Char => 0x03,
            ValueType::Int => 0x04,
            ValueType::Long => 0x06,
            ValueType::Float => 0x10,
            ValueType::Double => 0x11,
            ValueType::MethodType => 0x15,
            ValueType::MethodHandle => 0x16,
            ValueType::String => 0x17,
            ValueType::Type => 0x18,
            ValueType::Field => 0x19,
            ValueType::Method => 0x1a,
            ValueType::Enum => 0x1b,
            ValueType::Array => 0x1c,
            ValueType::Annotation => 0x1d,
            ValueType::Null => 0x1e,
            ValueType::Boolean => 0x1f,
        }
    }

    /// The value type of a decoded value.
    pub fn from_value(value: &EncodedValue) -> (r: ValueType)
        ensures
            r == spec_value_type_of(ev_view(*value)),
    {
        match value {
            EncodedValue::Byte(_) => ValueType::Byte,
            EncodedValue::Short(_) => ValueType::Short,
            EncodedValue::Char(_) => ValueType::Char,
            EncodedValue::Int(_) => ValueType::Int,
            EncodedValue::Long(_) => ValueType::Long,
            EncodedValue::Float(_) => ValueType::Float,
            EncodedValue::Double(_) => ValueType::Double,
            EncodedValue::MethodType(_) => ValueType::MethodType,
            EncodedValue::MethodHandle(_) => ValueType::MethodHandle,
            EncodedValue::String(_) => ValueType::String,
            EncodedValue::Type(_) => ValueType::Type,
            EncodedValue::Field(_) => ValueType::Field,
            EncodedValue::Method(_) => ValueType::Method,
            EncodedValue::Enum(_) => ValueType::Enum,
            EncodedValue::Array(_) => ValueType::Array,
            EncodedValue::Annotation(_) => ValueType::Annotation,
            EncodedValue::Null => ValueType::Null,
            EncodedValue::Boolean(_) => ValueType::Boolean,
        }
    }
}

/// The value type of a model value.
pub open spec fn spec_value_type_of(value: EvModel) -> ValueType {
    match value {
        EvModel::Byte(_) => ValueType::Byte,
        EvModel::Short(_) => ValueType::Short,
        EvModel::Char(_) => ValueType::Char,
        EvModel::Int(_) => ValueType::Int,
        EvModel::Long(_) => ValueType::Long,
        EvModel::Float(_) => ValueType::Float,
        EvModel::Double(_) => ValueType::Double,
        EvModel::MethodType(_) => ValueType::MethodType,
        EvModel::MethodHandle(_) => ValueType::MethodHandle,
        EvModel::String(_) => ValueType::String,
        EvModel::Type(_) => ValueType::Type,
        EvModel::Field(_) => ValueType::Field,
        EvModel::Method(_) => ValueType::Method,
        EvModel::Enum(_) => ValueType::Enum,
        EvModel::Array(_) => ValueType::Array,
        EvModel::Annotation(_) => ValueType::Annotation,
        EvModel::Null => ValueType::Null,
        EvModel::Boolean(_) => ValueType::Boolean,
    }
}

/// The widest allowed payload for a scalar or index value type, or 0
/// for the kinds that carry none.
pub open spec fn spec_max_width(t: ValueType) -> nat {
    match t {
        ValueType::Byte => 1,
        ValueType::Short => 2,
        ValueType::Char => 2,
        ValueType::Int => 4,
        ValueType::Long => 8,
        ValueType::Float => 4,
        ValueType::Double => 8,
        ValueType::MethodType => 4,
        ValueType::MethodHandle => 4,
        ValueType::String => 4,
        ValueType::Type => 4,
        ValueType::Field => 4,
        ValueType::Method => 4,
        ValueType::Enum => 4,
        _ => 0,
    }
}

/// The model value a payload denotes for a scalar or index value
/// type.
pub open spec fn spec_scalar_value(t: ValueType, p: Seq<u8>) -> EvModel {
    match t {
        ValueType::Byte => EvModel::Byte(le_sval(p) as i8),
        ValueType::Short => EvModel::Short(le_sval(p) as i16),
        ValueType::Char => EvModel::Char(le_val(p) as u16),
        ValueType::Int => EvModel::Int(le_sval(p) as i32),
        ValueType::Long => EvModel::Long(le_sval(p) as i64),
        ValueType::Float => EvModel::Float((le_val(p) * p256((4 - p.len()) as nat)) as u32),
        ValueType::Double => EvModel::Double((le_val(p) * p256((8 - p.len()) as nat)) as u64),
        ValueType::MethodType => EvModel::MethodType(le_val(p) as u32),
        ValueType::MethodHandle => EvModel::MethodHandle(le_val(p) as u32),
        ValueType::String => EvModel::String(le_val(p) as u32),
        ValueType::Type => EvModel::Type(le_val(p) as u32),
        ValueType::Field => EvModel::Field(le_val(p) as u32),
        ValueType::Method => EvModel::Method(le_val(p) as u32),
        ValueType::Enum => EvModel::Enum(le_val(p) as u32),
        _ => EvModel::Null,
    }
}

/// The parse of one encoded value at the head of `s`.
pub open spec fn ev_dec(s: Seq<u8>) -> Parsed<EvModel>
    decreases s.len(), 0nat, 0nat,
{
    if s.len() == 0 {
        Parsed::Truncated
    } else {
        let arg = (s[0] / 32) as nat;
        let code = s[0] % 32;
        match spec_value_type_from_code(code) {
            None => Parsed::Invalid,
            Some(ValueType::Null) => if arg == 0 {
                Parsed::Value(EvModel::Null, 1)
            } else {
                Parsed::Invalid
            },
            Some(ValueType::Boolean) => if arg <= 1 {
                Parsed::Value(EvModel::Boolean(arg == 1), 1)
            } else {
                Parsed::Invalid
            },
            Some(ValueType::Array) => if arg != 0 {
                Parsed::Invalid
            } else {
                match uleb_dec(s.skip(1)) {
                    Some(c) => if 1 <= c.1 && 1 + c.1 <= s.len() {
                        match ev_run(s.skip(1 + c.1 as int), c.0) {
                            Parsed::Value(vs, m) => Parsed::Value(
                                EvModel::Array(vs),
                                1 + c.1 + m,
                            ),
                            Parsed::Truncated => Parsed::Truncated,
                            Parsed::Invalid => Parsed::Invalid,
                        }
                    } else {
                        Parsed::Truncated
                    },
                    None => if uleb_truncated(s.skip(1)) {
                        Parsed::Truncated
                    } else {
                        Parsed::Invalid
                    },
                }
            },
            Some(ValueType::Annotation) => if arg != 0 {
                Parsed::Invalid
            } else {
                match ann_dec(s.skip(1)) {
                    Parsed::Value(a, m) => Parsed::Value(EvModel::Annotation(a), 1 + m),
                    Parsed::Truncated => Parsed::Truncated,
                    Parsed::Invalid => Parsed::Invalid,
                }
            },
            Some(t) => {
                // a scalar or index kind with an inline payload
                if arg + 1 > spec_max_width(t) {
                    Parsed::Invalid
                } else if 1 + arg + 1 > s.len() {
                    Parsed::Truncated
                } else {
                    Parsed::Value(spec_scalar_value(t, s.subrange(1, 2 + arg as int)), 2 + arg)
                }
            },
        }
    }
}

/// The parse of a run of `count` encoded values at the head of `s`.
pub open spec fn ev_run(s: Seq<u8>, count: nat) -> Parsed<Seq<EvModel>>
    decreases s.len(), count, 1nat,
{
    if count == 0 {
        Parsed::Value(Seq::empty(), 0)
    } else {
        match ev_dec(s) {
            Parsed::Value(v, n) => if 1 <= n <= s.len() {
                match ev_run(s.skip(n as int), (count - 1) as nat) {
                    Parsed::Value(vs, m) => Parsed::Value(seq![v] + vs, n + m),
                    Parsed::Truncated => Parsed::Truncated,
                    Parsed::Invalid => Parsed::Invalid,
                }
            } else {
                Parsed::Invalid
            },
            Parsed::Truncated => Parsed::Truncated,
            Parsed::Invalid => Parsed::Invalid,
        }
    }
}

/// The parse of one annotation body (type index, element count and
/// elements) at the head of `s`.
pub open spec fn ann_dec(s: Seq<u8>) -> Parsed<AnnModel>
    decreases s.len(), 0nat, 2nat,
{
    match uleb_dec(s) {
        Some(p1) => match uleb_dec(s.skip(p1.1 as int)) {
            Some(p2) => if 1 <= p1.1 && p1.1 + p2.1 <= s.len() {
                match elem_run(s.skip(p1.1 + p2.1 as int), p2.0) {
                    Parsed::Value(es, m) => Parsed::Value(
                        AnnModel { type_idx: p1.0 as u64, size: p2.0 as u64, elements: es },
                        p1.1 + p2.1 + m,
                    ),
                    Parsed::Truncated => Parsed::Truncated,
                    Parsed::Invalid => Parsed::Invalid,
                }
            } else {
                Parsed::Invalid
            },
            None => if uleb_truncated(s.skip(p1.1 as int)) {
                Parsed::Truncated
            } else {
                Parsed::Invalid
            },
        },
        None => if uleb_truncated(s) {
            Parsed::Truncated
        } else {
            Parsed::Invalid
        },
    }
}

/// The parse of a run of `count` annotation elements at the head of
/// `s`.
pub open spec fn elem_run(s: Seq<u8>, count: nat) -> Parsed<Seq<ElemModel>>
    decreases s.len(), count, 1nat,
{
    if count == 0 {
        Parsed::Value(Seq::empty(), 0)
    } else {
        match elem_dec(s) {
            Parsed::Value(e, n) => if 1 <= n <= s.len() {
                match elem_run(s.skip(n as int), (count - 1) as nat) {
                    Parsed::Value(es, m) => Parsed::Value(seq![e] + es, n + m),
                    Parsed::Truncated => Parsed::Truncated,
                    Parsed::Invalid => Parsed::Invalid,
                }
            } else {
                Parsed::Invalid
            },
            Parsed::Truncated => Parsed::Truncated,
            Parsed::Invalid => Parsed::Invalid,
        }
    }
}

/// The parse of one annotation element (name index and value) at the
/// head of `s`.
pub open spec fn elem_dec(s: Seq<u8>) -> Parsed<ElemModel>
    decreases s.len(), 0nat, 1nat,
{
    match uleb_dec(s) {
        Some(p1) => if 1 <= p1.1 <= s.len() {
            match ev_dec(s.skip(p1.1 as int)) {
                Parsed::Value(v, n) => Parsed::Value(
                    ElemModel { name_idx: p1.0 as u64, value: v },
                    p1.1 + n,
                ),
                Parsed::Truncated => Parsed::Truncated,
                Parsed::Invalid => Parsed::Invalid,
            }
        } else {
            Parsed::Invalid
        },
        None => if uleb_truncated(s) {
            Parsed::Truncated
        } else {
            Parsed::Invalid
        },
    }
}

/// Exact powers of 256 up to seven bytes wide.
fn pow256(k: usize) -> (r: u64)
    requires
        k <= 7,
    ensures
        r == p256(k as nat),
{
    proof {
        lemma_p256_vals();
    }
    match k {
        0 => 1,
        1 => 0x100,
        2 => 0x10000,
        3 => 0x1000000,
        4 => 0x100000000,
        5 => 0x10000000000,
        6 => 0x1000000000000,
        _ => 0x100000000000000,
    }
}

/// Reads `len` little-endian payload bytes as an unsigned value.
fn read_le_bytes(src: &[u8], pos: &mut usize, len: usize) -> (r: Result<u64, EncodedValueError>)
    requires
        *old(pos) <= src@.len(),
        1 <= len <= 8,
    ensures
        match r {
            Ok(v) => {
                &&& *old(pos) + len <= src@.len()
                &&& v == le_val(src@.subrange(*old(pos) as int, *old(pos) + len))
                &&& v < p256(len as nat)
                &&& *final(pos) == *old(pos) + len
            },
            Err(e) => {
                &&& *old(pos) + len > src@.len()
                &&& *final(pos) == *old(pos)
                &&& e == EncodedValueError::BadOffset
            },
        },
    decreases len,
{
    proof {
        lemma_p256_vals();
    }
    if *pos >= src.len() || len > src.len() - *pos {
        return Err(EncodedValueError::BadOffset);
    }
    let b = src[*pos];
    let ghost p = src@.subrange(*old(pos) as int, *old(pos) + len);
    if len == 1 {
        *pos = *pos + 1;
        proof {
            assert(p.len() == 1 && p[0] == b);
            assert(p.skip(1) =~= Seq::<u8>::empty());
            assert(le_val(Seq::<u8>::empty()) == 0);
            assert(le_val(p) == b);
        }
        Ok(b as u64)
    } else {
        let mut pos2 = *pos + 1;
        let rest = match read_le_bytes(src, &mut pos2, len - 1) {
            Ok(v) => v,
            Err(_) => {
                proof {
                    assert(false);
                }
                return Err(EncodedValueError::BadOffset);
            },
        };
        proof {
            assert(p.skip(1) =~= src@.subrange(*old(pos) + 1, *old(pos) + len));
            assert(p[0] == b);
            assert(rest < p256((len - 1) as nat));
            vstd::arithmetic::mul::lemma_mul_inequality(
                rest + 1,
                p256((len - 1) as nat) as int,
                256,
            );
            assert(le_val(p) == b + 256 * rest);
        }
        *pos = pos2;
        Ok(b as u64 + 256 * rest)
    }
}

/// Sign-extends the unsigned value of `len` little-endian bytes.
fn sign_extend(v: u64, len: usize) -> (r: i64)
    requires
        1 <= len <= 8,
        v < p256(len as nat),
    ensures
        ({
            let half = p256(len as nat) / 2;
            if v >= half {
                r == v - p256(len as nat)
            } else {
                r == v
            }
        }),
{
    proof {
        lemma_p256_vals();
    }
    if len == 8 {
        if v >= 0x8000000000000000 {
            let d = u64::MAX - v;
            -(d as i64) - 1
        } else {
            v as i64
        }
    } else {
        let m = pow256(len);
        if v >= m / 2 {
            v as i64 - m as i64
        } else {
            v as i64
        }
    }
}

/// The sign extension of a payload is its two's-complement value.
proof fn lemma_sign_extend_is_sval(p: Seq<u8>)
    requires
        p.len() > 0,
    ensures
        le_sval(p) == if le_val(p) >= p256(p.len()) / 2 {
            le_val(p) - p256(p.len())
        } else {
            le_val(p) as int
        },
{
    lemma_le_val_last(p);
    lemma_le_val_bound(p.drop_last());
    lemma_p256_vals();
    assert(p256(p.len()) == 256 * p256((p.len() - 1) as nat));
    if p.last() >= 128 {
        assert(le_val(p) >= 128 * p256((p.len() - 1) as nat)) by {
            vstd::arithmetic::mul::lemma_mul_inequality(
                128,
                p.last() as int,
                p256((p.len() - 1) as nat) as int,
            );
        }
    } else {
        assert(le_val(p) < 128 * p256((p.len() - 1) as nat)) by {
            vstd::arithmetic::mul::lemma_mul_inequality(
                p.last() + 1,
                128,
                p256((p.len() - 1) as nat) as int,
            );
            vstd::arithmetic::mul::lemma_mul_is_distributive_add_other_way(
                p256((p.len() - 1) as nat) as int,
                p.last() as int,
                1,
            );
        }
    }
}

impl EncodedValue {
    /// Decodes one encoded value at the cursor.
    #[verifier::rlimit(100)]
    pub fn read(src: &[u8], offset: &mut usize) -> (r: Result<EncodedValue, EncodedValueError>)
        requires
            *old(offset) <= src@.len(),
        ensures
            match r {
                Ok(v) => {
                    &&& ev_dec(src@.skip(*old(offset) as int)) == Parsed::Value(
                        ev_view(v),
                        (*final(offset) - *old(offset)) as nat,
                    )
                    &&& *old(offset) < *final(offset) <= src@.len()
                },
                Err(e) => {
                    &&& *final(offset) == *old(offset)
                    &&& !(e is ValueNotFound)
                    &&& (ev_dec(src@.skip(*old(offset) as int)) is Truncated <==> e
                        == EncodedValueError::BadOffset)
                    &&& (ev_dec(src@.skip(*old(offset) as int)) is Invalid <==> (e matches
                        EncodedValueError::InvalidValueType(_) || e
                        == EncodedValueError::BadInput))
                    &&& (e matches EncodedValueError::InvalidValueType(c) ==> c < 32)
                },
            },
        decreases src@.len() - *old(offset), 0nat,
    {
        let ghost s = src@.skip(*old(offset) as int);
        if *offset >= src.len() {
            assert(s.len() == 0);
            return Err(EncodedValueError::BadOffset);
        }
        let header = src[*offset];
        assert(s[0] == header);
        let arg = (header / 32) as usize;
        let code = header % 32;
        let t = match ValueType::from_code(code) {
            Some(t) => t,
            None => {
                return Err(EncodedValueError::InvalidValueType(code));
            },
        };
        let mut pos = *offset + 1;
        match t {
            ValueType::Null => {
                if arg != 0 {
                    return Err(EncodedValueError::InvalidValueType(code));
                }
                *offset = pos;
                Ok(EncodedValue::Null)
            },
            ValueType::Boolean => {
                if arg > 1 {
                    return Err(EncodedValueError::InvalidValueType(code));
                }
                *offset = pos;
                Ok(EncodedValue::Boolean(arg == 1))
            },
            ValueType::Array => {
                if arg != 0 {
                    return Err(EncodedValueError::InvalidValueType(code));
                }
                assert(s.skip(1) =~= src@.skip(*old(offset) + 1));
                let count = match Uleb128::read(src, &mut pos) {
                    Ok(v) => v,
                    Err(LebError::BadOffset) => {
                        return Err(EncodedValueError::BadOffset);
                    },
                    Err(LebError::BadInput) => {
                        return Err(EncodedValueError::BadInput);
                    },
                };
                assert(s.skip(1 + (pos - *old(offset) - 1)) =~= src@.skip(pos as int));
                let values = match Self::read_run(src, &mut pos, count) {
                    Ok(v) => v,
                    Err(e) => {
                        return Err(e);
                    },
                };
                *offset = pos;
                Ok(EncodedValue::Array(values))
            },
            ValueType::Annotation => {
                if arg != 0 {
                    return Err(EncodedValueError::InvalidValueType(code));
                }
                assert(s.skip(1) =~= src@.skip(*old(offset) + 1));
                let a = match EncodedAnnotation::read(src, &mut pos) {
                    Ok(v) => v,
                    Err(e) => {
                        return Err(e);
                    },
                };
                *offset = pos;
                Ok(EncodedValue::Annotation(a))
            },
            _ => {
                // a scalar or index kind with an inline payload
                let width = arg + 1;
                let max_width: usize = match t {
                    ValueType::Byte => 1,
                    ValueType::Short => 2,
                    ValueType::Char => 2,
                    ValueType::Int => 4,
                    ValueType::Long => 8,
                    ValueType::Float => 4,
                    ValueType::Double => 8,
                    _ => 4,
                };
                assert(max_width == spec_max_width(t));
                if width > max_width {
                    return Err(EncodedValueError::InvalidValueType(code));
                }
                let acc = match read_le_bytes(src, &mut pos, width) {
                    Ok(v) => v,
                    Err(e) => {
                        return Err(e);
                    },
                };
                let ghost p = s.subrange(1, 1 + width as int);
                proof {
                    assert(p =~= src@.subrange(*old(offset) + 1, *old(offset) + 1 + width));
                    lemma_p256_vals();
                    lemma_sign_extend_is_sval(p);
                    lemma_le_val_bound(p);
                    if t == ValueType::Float {
                        vstd::arithmetic::mul::lemma_mul_inequality(
                            acc + 1,
                            p256(width as nat) as int,
                            p256((4 - width) as nat) as int,
                        );
                        vstd::arithmetic::mul::lemma_mul_is_distributive_add_other_way(
                            p256((4 - width) as nat) as int,
                            acc as int,
                            1,
                        );
                        lemma_p256_mul(width as nat, (4 - width) as nat);
                        assert(acc * p256((4 - width) as nat) < p256(4));
                    }
                    if t == ValueType::Double {
                        vstd::arithmetic::mul::lemma_mul_inequality(
                            acc + 1,
                            p256(width as nat) as int,
                            p256((8 - width) as nat) as int,
                        );
                        vstd::arithmetic::mul::lemma_mul_is_distributive_add_other_way(
                            p256((8 - width) as nat) as int,
                            acc as int,
                            1,
                        );
                        lemma_p256_mul(width as nat, (8 - width) as nat);
                        assert(acc * p256((8 - width) as nat) < p256(8));
                    }
                }
                let v = match t {
                    ValueType::Byte => EncodedValue::Byte(sign_extend(acc, width) as i8),
                    ValueType::Short => EncodedValue::Short(sign_extend(acc, width) as i16),
                    ValueType::Char => EncodedValue::Char(acc as u16),
                    ValueType::Int => EncodedValue::Int(sign_extend(acc, width) as i32),
                    ValueType::Long => EncodedValue::Long(sign_extend(acc, width)),
                    ValueType::Float => EncodedValue::Float(
                        (acc * pow256(4 - width)) as u32,
                    ),
                    ValueType::Double => EncodedValue::Double(acc * pow256(8 - width)),
                    ValueType::MethodType => EncodedValue::MethodType(acc as u32),
                    ValueType::MethodHandle => EncodedValue::MethodHandle(acc as u32),
                    ValueType::String => EncodedValue::String(acc as u32),
                    ValueType::Type => EncodedValue::Type(acc as u32),
                    ValueType::Field => EncodedValue::Field(acc as u32),
                    ValueType::Method => EncodedValue::Method(acc as u32),
                    _ => EncodedValue::Enum(acc as u32),
                };
                proof {
                    assert(ev_view(v) == spec_scalar_value(t, p));
                }
                *offset = pos;
                Ok(v)
            },
        }
    }

    /// Reads a run of `count` encoded values at the cursor.
    fn read_run(src: &[u8], offset: &mut usize, count: u64) -> (r: Result<
        Vec<EncodedValue>,
        EncodedValueError,
    >)
        requires
            *old(offset) <= src@.len(),
        ensures
            match r {
                Ok(vs) => {
                    &&& ev_run(src@.skip(*old(offset) as int), count as nat) == Parsed::Value(
                        evs_view(vs@),
                        (*final(offset) - *old(offset)) as nat,
                    )
                    &&& *old(offset) <= *final(offset) <= src@.len()
                    &&& vs@.len() == count
                },
                Err(e) => {
                    &&& *final(offset) == *old(offset)
                    &&& !(e is ValueNotFound)
                    &&& (ev_run(src@.skip(*old(offset) as int), count as nat) is Truncated <==> e
                        == EncodedValueError::BadOffset)
                    &&& (ev_run(src@.skip(*old(offset) as int), count as nat) is Invalid <==> (
                    e matches EncodedValueError::InvalidValueType(_) || e
                        == EncodedValueError::BadInput))
                    &&& (e matches EncodedValueError::InvalidValueType(c) ==> c < 32)
                },
            },
        decreases src@.len() - *old(offset), count as nat, 1nat,
    {
        if count == 0 {
            return Ok(Vec::new());
        }
        let ghost s = src@.skip(*old(offset) as int);
        let mut pos = *offset;
        let v = match Self::read(src, &mut pos) {
            Ok(v) => v,
            Err(e) => {
                return Err(e);
            },
        };
        assert(s.skip(pos - *old(offset)) =~= src@.skip(pos as int));
        let mut rest = match Self::read_run(src, &mut pos, count - 1) {
            Ok(vs) => vs,
            Err(e) => {
                return Err(e);
            },
        };
        let ghost tail = rest@;
        rest.insert(0, v);
        proof {
            assert(rest@ =~= seq![v] + tail);
            lemma_evs_view(rest@);
            lemma_evs_view(tail);
            assert(evs_view(rest@) =~= seq![ev_view(v)] + evs_view(tail)) by {
                assert(rest@[0] == v);
                assert(forall|j: int| 0 <= j < tail.len() ==> rest@[j + 1] == tail[j]);
                lemma_evs_view(rest@);
                lemma_evs_view(tail);
            }
            assert(ev_run(s, count as nat) == Parsed::Value(
                evs_view(rest@),
                (pos - *old(offset)) as nat,
            ));
        }
        *offset = pos;
        Ok(rest)
    }

    /// An exact copy of this value.
    #[verifier::loop_isolation(false)]
    pub fn clone_value(&self) -> (r: EncodedValue)
        ensures
            ev_view(r) == ev_view(*self),
        decreases self,
    {
        match self {
            EncodedValue::Byte(v) => EncodedValue::Byte(*v),
            EncodedValue::Short(v) => EncodedValue::Short(*v),
            EncodedValue::Char(v) => EncodedValue::Char(*v),
            EncodedValue::Int(v) => EncodedValue::Int(*v),
            EncodedValue::Long(v) => EncodedValue::Long(*v),
            EncodedValue::Float(v) => EncodedValue::Float(*v),
            EncodedValue::Double(v) => EncodedValue::Double(*v),
            EncodedValue::MethodType(v) => EncodedValue::MethodType(*v),
            EncodedValue::MethodHandle(v) => EncodedValue::MethodHandle(*v),
            EncodedValue::String(v) => EncodedValue::String(*v),
            EncodedValue::Type(v) => EncodedValue::Type(*v),
            EncodedValue::Field(v) => EncodedValue::Field(*v),
            EncodedValue::Method(v) => EncodedValue::Method(*v),
            EncodedValue::Enum(v) => EncodedValue::Enum(*v),
            EncodedValue::Array(vs) => {
                let mut out: Vec<EncodedValue> = Vec::new();
                let mut i: usize = 0;
                while i < vs.len()
                    invariant
                        0 <= i <= vs@.len(),
                        out@.len() == i,
                        forall|j: int| 0 <= j < i ==> ev_view(#[trigger] out@[j]) == ev_view(vs@[j]),
                    decreases vs@.len() - i,
                {
                    proof {
                        assert(decreases_to!(*self => *vs));
                        assert(decreases_to!(*vs => vs@));
                        assert(decreases_to!(vs@ => vs@[i as int]));
                        assert(decreases_to!(*self => vs@[i as int]));
                    }
                    let x = vs[i].clone_value();
                    out.push(x);
                    i = i + 1;
                }
                let r = EncodedValue::Array(out);
                proof {
                    lemma_evs_view(out@);
                    lemma_evs_view(vs@);
                    assert(evs_view(out@) =~= evs_view(vs@));
                }
                r
            },
            EncodedValue::Annotation(a) => EncodedValue::Annotation(a.clone_annotation()),
            EncodedValue::Null => EncodedValue::Null,
            EncodedValue::Boolean(v) => EncodedValue::Boolean(*v),
        }
    }
}

impl EncodedAnnotation {
    /// Decodes an annotation body at the cursor.
    pub fn read(src: &[u8], offset: &mut usize) -> (r: Result<
        EncodedAnnotation,
        EncodedValueError,
    >)
        requires
            *old(offset) <= src@.len(),
        ensures
            match r {
                Ok(a) => {
                    &&& ann_dec(src@.skip(*old(offset) as int)) == Parsed::Value(
                        ann_view(a),
                        (*final(offset) - *old(offset)) as nat,
                    )
                    &&& *old(offset) <= *final(offset) <= src@.len()
                },
                Err(e) => {
                    &&& *final(offset) == *old(offset)
                    &&& !(e is ValueNotFound)
                    &&& (ann_dec(src@.skip(*old(offset) as int)) is Truncated <==> e
                        == EncodedValueError::BadOffset)
                    &&& (ann_dec(src@.skip(*old(offset) as int)) is Invalid <==> (e matches
                        EncodedValueError::InvalidValueType(_) || e
                        == EncodedValueError::BadInput))
                    &&& (e matches EncodedValueError::InvalidValueType(c) ==> c < 32)
                },
            },
        decreases src@.len() - *old(offset), 0nat, 2nat,
    {
        let ghost s = src@.skip(*old(offset) as int);
        let mut pos = *offset;
        let type_idx = match Uleb128::read(src, &mut pos) {
            Ok(v) => v,
            Err(LebError::BadOffset) => {
                return Err(EncodedValueError::BadOffset);
            },
            Err(LebError::BadInput) => {
                return Err(EncodedValueError::BadInput);
            },
        };
        assert(s.skip(pos - *old(offset)) =~= src@.skip(pos as int));
        let size = match Uleb128::read(src, &mut pos) {
            Ok(v) => v,
            Err(LebError::BadOffset) => {
                return Err(EncodedValueError::BadOffset);
            },
            Err(LebError::BadInput) => {
                return Err(EncodedValueError::BadInput);
            },
        };
        assert(s.skip(pos - *old(offset)) =~= src@.skip(pos as int));
        let elements = match read_elem_run(src, &mut pos, size) {
            Ok(v) => v,
            Err(e) => {
                return Err(e);
            },
        };
        *offset = pos;
        let a = EncodedAnnotation { type_idx, size, elements };
        Ok(a)
    }

    /// An exact copy of this annotation.
    #[verifier::loop_isolation(false)]
    pub fn clone_annotation(&self) -> (r: EncodedAnnotation)
        ensures
            ann_view(r) == ann_view(*self),
        decreases self,
    {
        let mut out: Vec<AnnotationElement> = Vec::new();
        let mut i: usize = 0;
        while i < self.elements.len()
            invariant
                0 <= i <= self.elements@.len(),
                out@.len() == i,
                forall|j: int| 0 <= j < i ==> elem_view(#[trigger] out@[j]) == elem_view(self.elements@[j]),
            decreases self.elements@.len() - i,
        {
            let e = &self.elements[i];
            proof {
                assert(decreases_to!(*self => self.elements));
                assert(decreases_to!(self.elements => self.elements@));
                assert(decreases_to!(self.elements@ => self.elements@[i as int]));
                assert(decreases_to!(self.elements@[i as int] => self.elements@[i as int].value));
                assert(decreases_to!(*self => self.elements@[i as int].value));
            }
            let x = AnnotationElement { name_idx: e.name_idx, value: e.value.clone_value() };
            out.push(x);
            i = i + 1;
        }
        let r = EncodedAnnotation { type_idx: self.type_idx, size: self.size, elements: out };
        proof {
            lemma_elems_view(out@);
            lemma_elems_view(self.elements@);
            assert(elems_view(out@) =~= elems_view(self.elements@));
        }
        r
    }
}

/// Reads a run of `count` annotation elements at the cursor.
fn read_elem_run(src: &[u8], offset: &mut usize, count: u64) -> (r: Result<
    Vec<AnnotationElement>,
    EncodedValueError,
>)
    requires
        *old(offset) <= src@.len(),
    ensures
        match r {
            Ok(es) => {
                &&& elem_run(src@.skip(*old(offset) as int), count as nat) == Parsed::Value(
                    elems_view(es@),
                    (*final(offset) - *old(offset)) as nat,
                )
                &&& *old(offset) <= *final(offset) <= src@.len()
                &&& es@.len() == count
            },
            Err(e) => {
                &&& *final(offset) == *old(offset)
                &&& !(e is ValueNotFound)
                &&& (elem_run(src@.skip(*old(offset) as int), count as nat) is Truncated <==> e
                    == EncodedValueError::BadOffset)
                &&& (elem_run(src@.skip(*old(offset) as int), count as nat) is Invalid <==> (
                e matches EncodedValueError::InvalidValueType(_) || e
                    == EncodedValueError::BadInput))
                &&& (e matches EncodedValueError::InvalidValueType(c) ==> c < 32)
            },
        },
    decreases src@.len() - *old(offset), count as nat, 1nat,
{
    if count == 0 {
        return Ok(Vec::new());
    }
    let ghost s = src@.skip(*old(offset) as int);
    let mut pos = *offset;
    let e0 = match read_elem(src, &mut pos) {
        Ok(v) => v,
        Err(e) => {
            return Err(e);
        },
    };
    assert(s.skip(pos - *old(offset)) =~= src@.skip(pos as int));
    let mut rest = match read_elem_run(src, &mut pos, count - 1) {
        Ok(vs) => vs,
        Err(e) => {
            return Err(e);
        },
    };
    let ghost tail = rest@;
    rest.insert(0, e0);
    proof {
        assert(rest@ =~= seq![e0] + tail);
        lemma_elems_view(rest@);
        lemma_elems_view(tail);
        assert(elems_view(rest@) =~= seq![elem_view(e0)] + elems_view(tail)) by {
            assert(rest@[0] == e0);
            assert(forall|j: int| 0 <= j < tail.len() ==> rest@[j + 1] == tail[j]);
            lemma_elems_view(rest@);
            lemma_elems_view(tail);
        }
        assert(elem_run(s, count as nat) == Parsed::Value(
            elems_view(rest@),
            (pos - *old(offset)) as nat,
        ));
    }
    *offset = pos;
    Ok(rest)
}

/// Reads one annotation element at the cursor.
fn read_elem(src: &[u8], offset: &mut usize) -> (r: Result<AnnotationElement, EncodedValueError>)
    requires
        *old(offset) <= src@.len(),
    ensures
        match r {
            Ok(e) => {
                &&& elem_dec(src@.skip(*old(offset) as int)) == Parsed::Value(
                    elem_view(e),
                    (*final(offset) - *old(offset)) as nat,
                )
                &&& *old(offset) < *final(offset) <= src@.len()
            },
            Err(e) => {
                &&& *final(offset) == *old(offset)
                &&& !(e is ValueNotFound)
                &&& (elem_dec(src@.skip(*old(offset) as int)) is Truncated <==> e
                    == EncodedValueError::BadOffset)
                &&& (elem_dec(src@.skip(*old(offset) as int)) is Invalid <==> (e matches
                    EncodedValueError::InvalidValueType(_) || e == EncodedValueError::BadInput))
                &&& (e matches EncodedValueError::InvalidValueType(c) ==> c < 32)
            },
        },
    decreases src@.len() - *old(offset), 0nat, 0nat,
{
    let ghost s = src@.skip(*old(offset) as int);
    let mut pos = *offset;
    let name_idx = match Uleb128::read(src, &mut pos) {
        Ok(v) => v,
        Err(LebError::BadOffset) => {
            return Err(EncodedValueError::BadOffset);
        },
        Err(LebError::BadInput) => {
            return Err(EncodedValueError::BadInput);
        },
    };
    assert(s.skip(pos - *old(offset)) =~= src@.skip(pos as int));
    let value = match EncodedValue::read(src, &mut pos) {
        Ok(v) => v,
        Err(e) => {
            return Err(e);
        },
    };
    *offset = pos;
    Ok(AnnotationElement { name_idx, value })
}

/// Multiplying powers of 256 adds their exponents.
pub proof fn lemma_p256_mul(a: nat, b: nat)
    ensures
        p256(a) * p256(b) == p256(a + b),
    decreases a,
{
    if a == 0 {
        assert(p256(0) == 1);
    } else {
        lemma_p256_mul((a - 1) as nat, b);
        assert(p256(a) * p256(b) == 256 * p256((a - 1) as nat) * p256(b));
        vstd::arithmetic::mul::lemma_mul_is_associative(
            256,
            p256((a - 1) as nat) as int,
            p256(b) as int,
        );
    }
}

/// A decoded floating value keeps its implicit low-order padding: the
/// bytes the payload did not cover are zero.
pub proof fn lemma_float_padding(s: Seq<u8>)
    ensures
        ev_dec(s) matches Parsed::Value(v, n) ==> match v {
            EvModel::Float(bits) => exists|k: nat|
                k <= 4 && (bits as nat) % (#[trigger] p256(k)) == 0 && p256(k) == p256(
                    (4 - (s[0] / 32 + 1)) as nat,
                ),
            EvModel::Double(bits) => exists|k: nat|
                k <= 8 && (bits as nat) % (#[trigger] p256(k)) == 0 && p256(k) == p256(
                    (8 - (s[0] / 32 + 1)) as nat,
                ),
            _ => true,
        },
{
    if let Parsed::Value(v, n) = ev_dec(s) {
        let arg = (s[0] / 32) as nat;
        let code = s[0] % 32;
        match spec_value_type_from_code(code) {
            Some(ValueType::Float) => {
                let p = s.subrange(1, 2 + arg as int);
                let k = (4 - p.len()) as nat;
                lemma_le_val_bound(p);
                lemma_p256_vals();
                assert((le_val(p) * p256(k)) % p256(k) == 0) by {
                    vstd::arithmetic::div_mod::lemma_mod_multiples_basic(
                        le_val(p) as int,
                        p256(k) as int,
                    );
                }
                assert(v == spec_scalar_value(ValueType::Float, p));
                vstd::arithmetic::mul::lemma_mul_inequality(
                    le_val(p) + 1 as int,
                    p256(p.len()) as int,
                    p256(k) as int,
                );
                vstd::arithmetic::mul::lemma_mul_is_distributive_add_other_way(
                    p256(k) as int,
                    le_val(p) as int,
                    1,
                );
                lemma_p256_mul(p.len(), k);
                assert((le_val(p) * p256(k)) < p256(4));
            },
            Some(ValueType::Double) => {
                let p = s.subrange(1, 2 + arg as int);
                let k = (8 - p.len()) as nat;
                lemma_le_val_bound(p);
                lemma_p256_vals();
                assert((le_val(p) * p256(k)) % p256(k) == 0) by {
                    vstd::arithmetic::div_mod::lemma_mod_multiples_basic(
                        le_val(p) as int,
                        p256(k) as int,
                    );
                }
                assert(v == spec_scalar_value(ValueType::Double, p));
                vstd::arithmetic::mul::lemma_mul_inequality(
                    le_val(p) + 1 as int,
                    p256(p.len()) as int,
                    p256(k) as int,
                );
                vstd::arithmetic::mul::lemma_mul_is_distributive_add_other_way(
                    p256(k) as int,
                    le_val(p) as int,
                    1,
                );
                lemma_p256_mul(p.len(), k);
                assert((le_val(p) * p256(k)) < p256(8));
            },
            _ => {},
        }
    }
}


/// The shortest little-endian bytes of an unsigned value: high zero
/// bytes are dropped, but at least one byte remains.
pub open spec fn uint_min_bytes(v: nat) -> Seq<u8>
    decreases v,
{
    if v < 256 {
        seq![v as u8]
    } else {
        seq![(v % 256) as u8] + uint_min_bytes(v / 256)
    }
}

/// The shortest sign-preserving little-endian bytes of a signed
/// value: redundant sign-extension bytes are dropped.
pub open spec fn int_min_bytes(v: int) -> Seq<u8>
    decreases (if v < 0 { -v } else { v }),
{
    if -128 <= v < 128 {
        seq![(v % 256) as u8]
    } else {
        seq![(v % 256) as u8] + int_min_bytes(v / 256)
    }
}

/// The floating payload after dropping implicit low zero bytes: the
/// remaining value and its width.
pub open spec fn float_drop(bits: nat, w: nat) -> (nat, nat)
    decreases w,
{
    if w <= 1 || bits % 256 != 0 {
        (bits, w)
    } else {
        float_drop(bits / 256, (w - 1) as nat)
    }
}

/// Whether a model value satisfies the structural rules the writer
/// needs: every annotation's stored size equals its element count.
pub open spec fn ev_m_wf(m: EvModel) -> bool
    decreases m, 0nat,
{
    match m {
        EvModel::Array(vs) => vs.len() <= u64::MAX && evs_m_wf(vs),
        EvModel::Annotation(a) => ann_m_wf(a),
        _ => true,
    }
}

/// Whether every model value of a sequence is well formed.
pub open spec fn evs_m_wf(vs: Seq<EvModel>) -> bool
    decreases vs, 1nat,
{
    vs.len() == 0 || (ev_m_wf(vs[0]) && evs_m_wf(vs.subrange(1, vs.len() as int)))
}

/// Whether a model annotation satisfies the writer's structural
/// rules.
pub open spec fn ann_m_wf(a: AnnModel) -> bool
    decreases a, 2nat,
    via ann_m_wf_dec
{
    &&& a.size == a.elements.len()
    &&& a.elements.len() <= u64::MAX
    &&& elems_m_wf(a.elements)
}

#[via_fn]
proof fn ann_m_wf_dec(a: AnnModel) {
    assert(decreases_to!(a => a.elements));
}

/// Whether every element of a model element sequence holds a
/// well-formed value.
pub open spec fn elems_m_wf(es: Seq<ElemModel>) -> bool
    decreases es, 1nat,
{
    es.len() == 0 || (ev_m_wf(es[0].value) && elems_m_wf(es.subrange(1, es.len() as int)))
}

/// Sequence well-formedness, element by element.
pub proof fn lemma_evs_m_wf(vs: Seq<EvModel>)
    ensures
        evs_m_wf(vs) <==> (forall|i: int| 0 <= i < vs.len() ==> ev_m_wf(#[trigger] vs[i])),
    decreases vs.len(),
{
    if vs.len() > 0 {
        lemma_evs_m_wf(vs.subrange(1, vs.len() as int));
        if ev_m_wf(vs[0]) && (forall|i: int|
            0 <= i < vs.subrange(1, vs.len() as int).len() ==> ev_m_wf(
                #[trigger] vs.subrange(1, vs.len() as int)[i],
            )) {
            assert forall|i: int| 0 <= i < vs.len() implies ev_m_wf(#[trigger] vs[i]) by {
                if i > 0 {
                    assert(vs.subrange(1, vs.len() as int)[i - 1] == vs[i]);
                    assert(ev_m_wf(vs.subrange(1, vs.len() as int)[i - 1]));
                }
            }
        }
        if forall|i: int| 0 <= i < vs.len() ==> ev_m_wf(#[trigger] vs[i]) {
            assert forall|i: int|
                0 <= i < vs.subrange(1, vs.len() as int).len() implies ev_m_wf(
                #[trigger] vs.subrange(1, vs.len() as int)[i],
            ) by {
                assert(vs.subrange(1, vs.len() as int)[i] == vs[i + 1]);
            }
        }
    }
}

/// Element-sequence well-formedness, element by element.
pub proof fn lemma_elems_m_wf(es: Seq<ElemModel>)
    ensures
        elems_m_wf(es) <==> (forall|i: int|
            0 <= i < es.len() ==> ev_m_wf((#[trigger] es[i]).value)),
    decreases es.len(),
{
    if es.len() > 0 {
        lemma_elems_m_wf(es.subrange(1, es.len() as int));
        if ev_m_wf(es[0].value) && (forall|i: int|
            0 <= i < es.subrange(1, es.len() as int).len() ==> ev_m_wf(
                (#[trigger] es.subrange(1, es.len() as int)[i]).value,
            )) {
            assert forall|i: int| 0 <= i < es.len() implies ev_m_wf((#[trigger] es[i]).value) by {
                if i > 0 {
                    assert(es.subrange(1, es.len() as int)[i - 1] == es[i]);
                    assert(ev_m_wf(es.subrange(1, es.len() as int)[i - 1].value));
                }
            }
        }
        if forall|i: int| 0 <= i < es.len() ==> ev_m_wf((#[trigger] es[i]).value) {
            assert forall|i: int|
                0 <= i < es.subrange(1, es.len() as int).len() implies ev_m_wf(
                (#[trigger] es.subrange(1, es.len() as int)[i]).value,
            ) by {
                assert(es.subrange(1, es.len() as int)[i] == es[i + 1]);
            }
        }
    }
}

/// The wire bytes of a model value, at the shortest accepted widths.
pub open spec fn ev_enc(m: EvModel) -> Seq<u8>
    decreases m, 0nat,
{
    match m {
        EvModel::Byte(x) => seq![0x00u8, (x as int % 256) as u8],
        EvModel::Short(x) => scalar_enc(0x02, int_min_bytes(x as int)),
        EvModel::Char(x) => scalar_enc(0x03, uint_min_bytes(x as nat)),
        EvModel::Int(x) => scalar_enc(0x04, int_min_bytes(x as int)),
        EvModel::Long(x) => scalar_enc(0x06, int_min_bytes(x as int)),
        EvModel::Float(bits) => scalar_enc(
            0x10,
            le_bytes_w(float_drop(bits as nat, 4).0, float_drop(bits as nat, 4).1),
        ),
        EvModel::Double(bits) => scalar_enc(
            0x11,
            le_bytes_w(float_drop(bits as nat, 8).0, float_drop(bits as nat, 8).1),
        ),
        EvModel::MethodType(x) => scalar_enc(0x15, uint_min_bytes(x as nat)),
        EvModel::MethodHandle(x) => scalar_enc(0x16, uint_min_bytes(x as nat)),
        EvModel::String(x) => scalar_enc(0x17, uint_min_bytes(x as nat)),
        EvModel::Type(x) => scalar_enc(0x18, uint_min_bytes(x as nat)),
        EvModel::Field(x) => scalar_enc(0x19, uint_min_bytes(x as nat)),
        EvModel::Method(x) => scalar_enc(0x1a, uint_min_bytes(x as nat)),
        EvModel::Enum(x) => scalar_enc(0x1b, uint_min_bytes(x as nat)),
        EvModel::Array(vs) => seq![0x1cu8] + crate::leb128::uleb_enc(vs.len()) + evs_enc(vs),
        EvModel::Annotation(a) => seq![0x1du8] + ann_enc(a),
        EvModel::Null => seq![0x1eu8],
        EvModel::Boolean(b) => seq![if b { 0x3fu8 } else { 0x1fu8 }],
    }
}

/// A scalar header byte (type code plus width) followed by its
/// payload.
pub open spec fn scalar_enc(code: u8, payload: Seq<u8>) -> Seq<u8> {
    seq![(code + 32 * (payload.len() - 1)) as u8] + payload
}

/// The concatenated wire bytes of a sequence of model values.
pub open spec fn evs_enc(vs: Seq<EvModel>) -> Seq<u8>
    decreases vs, 1nat,
{
    if vs.len() == 0 {
        Seq::empty()
    } else {
        ev_enc(vs[0]) + evs_enc(vs.subrange(1, vs.len() as int))
    }
}

/// The wire bytes of a model annotation body.
pub open spec fn ann_enc(a: AnnModel) -> Seq<u8>
    decreases a, 2nat,
    via ann_enc_dec
{
    crate::leb128::uleb_enc(a.type_idx as nat) + crate::leb128::uleb_enc(a.size as nat)
        + elems_enc(a.elements)
}

#[via_fn]
proof fn ann_enc_dec(a: AnnModel) {
    assert(decreases_to!(a => a.elements));
}

/// The concatenated wire bytes of a sequence of model elements.
pub open spec fn elems_enc(es: Seq<ElemModel>) -> Seq<u8>
    decreases es, 1nat,
{
    if es.len() == 0 {
        Seq::empty()
    } else {
        elem_enc(es[0]) + elems_enc(es.subrange(1, es.len() as int))
    }
}

/// The wire bytes of a model annotation element.
pub open spec fn elem_enc(e: ElemModel) -> Seq<u8>
    decreases e, 0nat,
{
    crate::leb128::uleb_enc(e.name_idx as nat) + ev_enc(e.value)
}

/// The shortest little-endian bytes of an unsigned value.
fn uint_min_vec(v: u64) -> (r: Vec<u8>)
    ensures
        r@ == uint_min_bytes(v as nat),
        1 <= r@.len(),
    decreases v,
{
    if v < 256 {
        let mut out: Vec<u8> = Vec::new();
        out.push(v as u8);
        assert(out@ =~= uint_min_bytes(v as nat));
        out
    } else {
        let mut out = uint_min_vec(v / 256);
        out.insert(0, (v % 256) as u8);
        assert(out@ =~= uint_min_bytes(v as nat));
        out
    }
}

/// The shortest sign-preserving little-endian bytes of a signed
/// value.
fn int_min_vec(v: i64) -> (r: Vec<u8>)
    ensures
        r@ == int_min_bytes(v as int),
        1 <= r@.len(),
    decreases (if v < 0 { -(v as int) } else { v as int }),
{
    if -128 <= v && v < 128 {
        let b: u8 = if v >= 0 {
            v as u8
        } else {
            (v + 256) as u8
        };
        proof {
            if v >= 0 {
                vstd::arithmetic::div_mod::lemma_small_mod(v as nat, 256);
            } else {
                vstd::arithmetic::div_mod::lemma_fundamental_div_mod_converse(
                    v as int,
                    256,
                    -1,
                    v + 256,
                );
            }
        }
        let mut out: Vec<u8> = Vec::new();
        out.push(b);
        assert(out@ =~= int_min_bytes(v as int));
        out
    } else {
        let r = match v.checked_rem_euclid(256) {
            Some(r) => r,
            None => 0,
        };
        let q = match v.checked_div_euclid(256) {
            Some(q) => q,
            None => 0,
        };
        assert(r == v as int % 256 && q == v as int / 256) by {
            vstd::arithmetic::div_mod::lemma_mod_division_less_than_divisor(v as int, 256);
        }
        proof {
            lemma_int_min_decreases(v as int);
        }
        let mut out = int_min_vec(q);
        out.insert(0, r as u8);
        assert(out@ =~= int_min_bytes(v as int));
        out
    }
}

/// The quotient by 256 shrinks in magnitude outside the single-byte
/// range.
proof fn lemma_int_min_decreases(v: int)
    requires
        !(-128 <= v < 128),
    ensures
        (if v / 256 < 0 { -(v / 256) } else { v / 256 }) < (if v < 0 { -v } else { v }),
{
    if v >= 128 {
        assert(v / 256 < v) by {
            vstd::arithmetic::div_mod::lemma_multiply_divide_lt(v, 256, v);
        }
        assert(v / 256 >= 0) by {
            vstd::arithmetic::div_mod::lemma_div_pos_is_pos(v, 256);
        }
    } else {
        assert(-v <= 256 * (-(v / 256))) by {
            vstd::arithmetic::div_mod::lemma_fundamental_div_mod(v, 256);
            vstd::arithmetic::div_mod::lemma_mod_division_less_than_divisor(v, 256);
        }
        assert(v / 256 <= -1) by {
            vstd::arithmetic::div_mod::lemma_fundamental_div_mod(v, 256);
            vstd::arithmetic::div_mod::lemma_mod_division_less_than_divisor(v, 256);
        }
        assert(-(v / 256) < -v);
    }
}

/// The exact little-endian bytes of a value at a given width.
fn le_bytes_vec(v: u64, w: usize) -> (r: Vec<u8>)
    requires
        w <= 8,
        v < p256(w as nat),
    ensures
        r@ == le_bytes_w(v as nat, w as nat),
        r@.len() == w,
    decreases w,
{
    proof {
        lemma_p256_vals();
        lemma_le_bytes_w_len(v as nat, w as nat);
    }
    if w == 0 {
        let out: Vec<u8> = Vec::new();
        assert(out@ =~= le_bytes_w(v as nat, w as nat));
        out
    } else {
        proof {
            vstd::arithmetic::div_mod::lemma_multiply_divide_lt(
                v as int,
                256,
                p256((w - 1) as nat) as int,
            );
        }
        let mut out = le_bytes_vec(v / 256, w - 1);
        out.insert(0, (v % 256) as u8);
        assert(out@ =~= le_bytes_w(v as nat, w as nat));
        out
    }
}

/// An exact-width byte string has its stated length.
pub proof fn lemma_le_bytes_w_len(v: nat, w: nat)
    ensures
        le_bytes_w(v, w).len() == w,
    decreases w,
{
    if w > 0 {
        lemma_le_bytes_w_len(v / 256, (w - 1) as nat);
    }
}

/// The floating payload after dropping implicit low zero bytes.
fn float_drop_exec(bits: u64, w: usize) -> (r: (u64, usize))
    requires
        1 <= w <= 8,
        bits < p256(w as nat),
    ensures
        (r.0 as nat, r.1 as nat) == float_drop(bits as nat, w as nat),
        1 <= r.1 <= w,
        r.0 < p256(r.1 as nat),
    decreases w,
{
    proof {
        lemma_p256_vals();
    }
    if w <= 1 || bits % 256 != 0 {
        (bits, w)
    } else {
        proof {
            vstd::arithmetic::div_mod::lemma_multiply_divide_lt(
                bits as int,
                256,
                p256((w - 1) as nat) as int,
            );
        }
        float_drop_exec(bits / 256, w - 1)
    }
}

/// Appends the bytes of a vector.
fn append_bytes(dst: &mut Vec<u8>, src: &Vec<u8>)
    ensures
        final(dst)@ == old(dst)@ + src@,
{
    let mut i: usize = 0;
    while i < src.len()
        invariant
            0 <= i <= src@.len(),
            dst@ == old(dst)@ + src@.take(i as int),
        decreases src@.len() - i,
    {
        let b = src[i];
        dst.push(b);
        assert(src@.take(i + 1) =~= src@.take(i as int).push(b));
        i = i + 1;
    }
    assert(src@.take(src@.len() as int) =~= src@);
}

impl EncodedValue {
    /// Appends this value's wire bytes, choosing the shortest accepted
    /// payload width for each scalar.
    #[verifier::loop_isolation(false)]
    pub fn write(&self, dst: &mut Vec<u8>)
        requires
            ev_m_wf(ev_view(*self)),
        ensures
            final(dst)@ == old(dst)@ + ev_enc(ev_view(*self)),
        decreases self, 0nat,
    {
        proof {
            lemma_p256_vals();
        }
        match self {
            EncodedValue::Byte(x) => {
                dst.push(0x00);
                let wide = *x as i16;
                let b: u8 = if wide >= 0 {
                    wide as u8
                } else {
                    (wide + 256) as u8
                };
                proof {
                    if *x >= 0 {
                        vstd::arithmetic::div_mod::lemma_small_mod(*x as nat, 256);
                    } else {
                        vstd::arithmetic::div_mod::lemma_fundamental_div_mod_converse(
                            *x as int,
                            256,
                            -1,
                            *x + 256,
                        );
                    }
                }
                dst.push(b);
                assert(dst@ =~= old(dst)@ + ev_enc(ev_view(*self)));
            },
            EncodedValue::Short(x) => {
                let p = int_min_vec(*x as i64);
                proof {
                    lemma_int_min_len(*x as int, 2);
                }
                dst.push(0x02 + 32 * ((p.len() - 1) as u8));
                append_bytes(dst, &p);
                assert(dst@ =~= old(dst)@ + ev_enc(ev_view(*self)));
            },
            EncodedValue::Char(x) => {
                let p = uint_min_vec(*x as u64);
                proof {
                    lemma_uint_min_len(*x as nat, 2);
                }
                dst.push(0x03 + 32 * ((p.len() - 1) as u8));
                append_bytes(dst, &p);
                assert(dst@ =~= old(dst)@ + ev_enc(ev_view(*self)));
            },
            EncodedValue::Int(x) => {
                let p = int_min_vec(*x as i64);
                proof {
                    lemma_int_min_len(*x as int, 4);
                }
                dst.push(0x04 + 32 * ((p.len() - 1) as u8));
                append_bytes(dst, &p);
                assert(dst@ =~= old(dst)@ + ev_enc(ev_view(*self)));
            },
            EncodedValue::Long(x) => {
                let p = int_min_vec(*x);
                proof {
                    lemma_int_min_len(*x as int, 8);
                }
                dst.push(0x06 + 32 * ((p.len() - 1) as u8));
                append_bytes(dst, &p);
                assert(dst@ =~= old(dst)@ + ev_enc(ev_view(*self)));
            },
            EncodedValue::Float(bits) => {
                let (pv, w) = float_drop_exec(*bits as u64, 4);
                let p = le_bytes_vec(pv, w);
                dst.push(0x10 + 32 * ((w - 1) as u8));
                append_bytes(dst, &p);
                assert(dst@ =~= old(dst)@ + ev_enc(ev_view(*self)));
            },
            EncodedValue::Double(bits) => {
                let (pv, w) = float_drop_exec(*bits, 8);
                let p = le_bytes_vec(pv, w);
                dst.push(0x11 + 32 * ((w - 1) as u8));
                append_bytes(dst, &p);
                assert(dst@ =~= old(dst)@ + ev_enc(ev_view(*self)));
            },
            EncodedValue::MethodType(x) => {
                write_index_kind(dst, 0x15, *x);
                assert(dst@ =~= old(dst)@ + ev_enc(ev_view(*self)));
            },
            EncodedValue::MethodHandle(x) => {
                write_index_kind(dst, 0x16, *x);
                assert(dst@ =~= old(dst)@ + ev_enc(ev_view(*self)));
            },
            EncodedValue::String(x) => {
                write_index_kind(dst, 0x17, *x);
                assert(dst@ =~= old(dst)@ + ev_enc(ev_view(*self)));
            },
            EncodedValue::Type(x) => {
                write_index_kind(dst, 0x18, *x);
                assert(dst@ =~= old(dst)@ + ev_enc(ev_view(*self)));
            },
            EncodedValue::Field(x) => {
                write_index_kind(dst, 0x19, *x);
                assert(dst@ =~= old(dst)@ + ev_enc(ev_view(*self)));
            },
            EncodedValue::Method(x) => {
                write_index_kind(dst, 0x1a, *x);
                assert(dst@ =~= old(dst)@ + ev_enc(ev_view(*self)));
            },
            EncodedValue::Enum(x) => {
                write_index_kind(dst, 0x1b, *x);
                assert(dst@ =~= old(dst)@ + ev_enc(ev_view(*self)));
            },
            EncodedValue::Array(vs) => {
                dst.push(0x1c);
                Uleb128::write(dst, vs.len() as u64);
                let ghost mid = dst@;
                let mut i: usize = 0;
                while i < vs.len()
                    invariant
                        0 <= i <= vs@.len(),
                        dst@ == mid + evs_enc(evs_view(vs@).take(i as int)),
                    decreases vs@.len() - i,
                {
                    proof {
                        assert(decreases_to!(*self => *vs));
                        assert(decreases_to!(*vs => vs@));
                        assert(decreases_to!(vs@ => vs@[i as int]));
                        assert(decreases_to!(*self => vs@[i as int]));
                        lemma_evs_view(vs@);
                        assert(ev_view(*self) == EvModel::Array(evs_view(vs@)));
                        assert(evs_m_wf(evs_view(vs@)));
                        lemma_evs_m_wf(evs_view(vs@));
                        assert(ev_m_wf(evs_view(vs@)[i as int]));
                        assert(ev_m_wf(ev_view(vs@[i as int])));
                    }
                    let ghost pre = dst@;
                    vs[i].write(dst);
                    proof {
                        lemma_evs_view(vs@);
                        lemma_evs_enc_snoc(evs_view(vs@), i as int);
                    }
                    i = i + 1;
                }
                proof {
                    lemma_evs_view(vs@);
                    assert(evs_view(vs@).take(vs@.len() as int) =~= evs_view(vs@));
                }
                assert(dst@ =~= old(dst)@ + ev_enc(ev_view(*self)));
            },
            EncodedValue::Annotation(a) => {
                dst.push(0x1d);
                proof {
                    assert(decreases_to!(*self => *a));
                }
                a.write(dst);
                assert(dst@ =~= old(dst)@ + ev_enc(ev_view(*self)));
            },
            EncodedValue::Null => {
                dst.push(0x1e);
                assert(dst@ =~= old(dst)@ + ev_enc(ev_view(*self)));
            },
            EncodedValue::Boolean(b) => {
                if *b {
                    dst.push(0x3f);
                } else {
                    dst.push(0x1f);
                }
                assert(dst@ =~= old(dst)@ + ev_enc(ev_view(*self)));
            },
        }
    }
}

impl EncodedAnnotation {
    /// Appends this annotation body's wire bytes.
    #[verifier::loop_isolation(false)]
    pub fn write(&self, dst: &mut Vec<u8>)
        requires
            ann_m_wf(ann_view(*self)),
        ensures
            final(dst)@ == old(dst)@ + ann_enc(ann_view(*self)),
        decreases self, 2nat,
    {
        Uleb128::write(dst, self.type_idx);
        Uleb128::write(dst, self.size);
        let ghost mid = dst@;
        let mut i: usize = 0;
        while i < self.elements.len()
            invariant
                0 <= i <= self.elements@.len(),
                dst@ == mid + elems_enc(elems_view(self.elements@).take(i as int)),
            decreases self.elements@.len() - i,
        {
            let e = &self.elements[i];
            proof {
                assert(decreases_to!(*self => self.elements));
                assert(decreases_to!(self.elements => self.elements@));
                assert(decreases_to!(self.elements@ => self.elements@[i as int]));
                assert(decreases_to!(
                    self.elements@[i as int] => self.elements@[i as int].value
                ));
                assert(decreases_to!(*self => self.elements@[i as int].value));
                lemma_elems_view(self.elements@);
                assert(ann_view(*self).elements == elems_view(self.elements@));
                assert(elems_m_wf(elems_view(self.elements@)));
                lemma_elems_m_wf(elems_view(self.elements@));
                assert(ev_m_wf(elems_view(self.elements@)[i as int].value));
                assert(elems_view(self.elements@)[i as int] == elem_view(
                    self.elements@[i as int],
                ));
                assert(ev_m_wf(ev_view(self.elements@[i as int].value)));
            }
            Uleb128::write(dst, e.name_idx);
            e.value.write(dst);
            proof {
                lemma_elems_view(self.elements@);
                lemma_elems_enc_snoc(elems_view(self.elements@), i as int);
            }
            i = i + 1;
        }
        proof {
            lemma_elems_view(self.elements@);
            assert(elems_view(self.elements@).take(self.elements@.len() as int) =~= elems_view(
                self.elements@,
            ));
        }
        assert(dst@ =~= old(dst)@ + ann_enc(ann_view(*self)));
    }
}

/// Appends the header-and-payload of an index kind.
fn write_index_kind(dst: &mut Vec<u8>, code: u8, x: u32)
    requires
        code == 0x15 || code == 0x16 || code == 0x17 || code == 0x18 || code == 0x19 || code
            == 0x1a || code == 0x1b,
    ensures
        final(dst)@ == old(dst)@ + scalar_enc(code, uint_min_bytes(x as nat)),
{
    let p = uint_min_vec(x as u64);
    proof {
        lemma_p256_vals();
        lemma_uint_min_len(x as nat, 4);
    }
    dst.push(code + 32 * ((p.len() - 1) as u8));
    append_bytes(dst, &p);
    assert(dst@ =~= old(dst)@ + scalar_enc(code, uint_min_bytes(x as nat)));
}

/// A value below `p256(k)` encodes in at most `k` bytes.
pub proof fn lemma_uint_min_len(v: nat, k: nat)
    requires
        1 <= k,
        v < p256(k),
    ensures
        1 <= uint_min_bytes(v).len() <= k,
    decreases k,
{
    if v >= 256 {
        assert(p256(k) == 256 * p256((k - 1) as nat));
        assert(k >= 2) by {
            if k == 1 {
                assert(p256(1) == 256);
            }
        }
        assert(v / 256 < p256((k - 1) as nat)) by {
            vstd::arithmetic::div_mod::lemma_multiply_divide_lt(
                v as int,
                256,
                p256((k - 1) as nat) as int,
            );
        }
        lemma_uint_min_len(v / 256, (k - 1) as nat);
    }
}

/// A value within the signed `k`-byte range encodes in at most `k`
/// bytes.
#[verifier::spinoff_prover]
#[verifier::rlimit(100)]
pub proof fn lemma_int_min_len(v: int, k: nat)
    requires
        1 <= k,
        -p256(k) <= 2 * v < p256(k),
    ensures
        1 <= int_min_bytes(v).len() <= k,
    decreases k,
{
    if !(-128 <= v < 128) {
        assert(p256(k) == 256 * p256((k - 1) as nat));
        assert(k >= 2) by {
            if k == 1 {
                assert(p256(1) == 256);
            }
        }
        assert(-p256((k - 1) as nat) <= 2 * (v / 256) < p256((k - 1) as nat)) by {
            vstd::arithmetic::div_mod::lemma_fundamental_div_mod(v, 256);
            vstd::arithmetic::div_mod::lemma_mod_division_less_than_divisor(v, 256);
        }
        lemma_int_min_decreases(v);
        lemma_int_min_len(v / 256, (k - 1) as nat);
    }
}

/// Encoding one more value extends the concatenation of a run's
/// encodings.
proof fn lemma_evs_enc_snoc(vs: Seq<EvModel>, i: int)
    requires
        0 <= i < vs.len(),
    ensures
        evs_enc(vs.take(i + 1)) == evs_enc(vs.take(i)) + ev_enc(vs[i]),
    decreases i,
{
    if i == 0 {
        assert(vs.take(1)[0] == vs[0]);
        assert(vs.take(1).subrange(1, 1) =~= Seq::<EvModel>::empty());
        assert(vs.take(0) =~= Seq::<EvModel>::empty());
        assert(evs_enc(Seq::<EvModel>::empty()) =~= Seq::<u8>::empty());
        assert(evs_enc(vs.take(1)) =~= ev_enc(vs[0]));
        assert(evs_enc(vs.take(0)) + ev_enc(vs[0]) =~= ev_enc(vs[0]));
    } else {
        lemma_evs_enc_snoc(vs.subrange(1, vs.len() as int), i - 1);
        assert(vs.take(i + 1)[0] == vs[0]);
        assert(vs.take(i + 1).subrange(1, i + 1) =~= vs.subrange(1, vs.len() as int).take(i));
        assert(vs.take(i).subrange(1, i) =~= vs.subrange(1, vs.len() as int).take(i - 1));
        assert(vs.take(i)[0] == vs[0]);
        assert(vs.subrange(1, vs.len() as int)[i - 1] == vs[i]);
        assert(evs_enc(vs.take(i + 1)) =~= evs_enc(vs.take(i)) + ev_enc(vs[i]));
    }
}

/// Encoding one more element extends the concatenation of a run's
/// encodings.
proof fn lemma_elems_enc_snoc(es: Seq<ElemModel>, i: int)
    requires
        0 <= i < es.len(),
    ensures
        elems_enc(es.take(i + 1)) == elems_enc(es.take(i)) + elem_enc(es[i]),
    decreases i,
{
    if i == 0 {
        assert(es.take(1)[0] == es[0]);
        assert(es.take(1).subrange(1, 1) =~= Seq::<ElemModel>::empty());
        assert(es.take(0) =~= Seq::<ElemModel>::empty());
        assert(elems_enc(Seq::<ElemModel>::empty()) =~= Seq::<u8>::empty());
        assert(elems_enc(es.take(1)) =~= elem_enc(es[0]));
        assert(elems_enc(es.take(0)) + elem_enc(es[0]) =~= elem_enc(es[0]));
    } else {
        lemma_elems_enc_snoc(es.subrange(1, es.len() as int), i - 1);
        assert(es.take(i + 1)[0] == es[0]);
        assert(es.take(i + 1).subrange(1, i + 1) =~= es.subrange(1, es.len() as int).take(i));
        assert(es.take(i).subrange(1, i) =~= es.subrange(1, es.len() as int).take(i - 1));
        assert(es.take(i)[0] == es[0]);
        assert(es.subrange(1, es.len() as int)[i - 1] == es[i]);
        assert(elems_enc(es.take(i + 1)) =~= elems_enc(es.take(i)) + elem_enc(es[i]));
    }
}


/// The model values of the encoded array at `off`, when it parses: a
/// ULEB128 count followed by that many values.
pub open spec fn spec_encoded_array_at(s: Seq<u8>, off: int) -> Option<Seq<EvModel>> {
    match uleb_dec(s.skip(off)) {
        Some(c) => match ev_run(s.skip(off + c.1), c.0) {
            Parsed::Value(vs, n) => Some(vs),
            _ => None,
        },
        None => None,
    }
}

/// An array of encoded values, stored as a count and the values.
#[derive(Debug)]
pub struct EncodedArray(pub Vec<EncodedValue>);

impl EncodedArray {
    /// The stored values.
    pub fn into_inner(self) -> (r: Vec<EncodedValue>)
        ensures
            r@ == self.0@,
    {
        self.0
    }

    /// Decodes an encoded array at the cursor; it succeeds exactly
    /// when an array parses there.
    pub fn read(src: &[u8], offset: &mut usize) -> (r: Result<EncodedArray, EncodedValueError>)
        requires
            *old(offset) <= src@.len(),
        ensures
            r is Ok <==> spec_encoded_array_at(src@, *old(offset) as int) is Some,
            match r {
                Ok(a) => {
                    &&& spec_encoded_array_at(src@, *old(offset) as int) == Some(evs_view(a.0@))
                    &&& *old(offset) <= *final(offset) <= src@.len()
                },
                Err(_) => *final(offset) == *old(offset),
            },
    {
        let ghost s = src@.skip(*old(offset) as int);
        let mut pos = *offset;
        let count = match Uleb128::read(src, &mut pos) {
            Ok(v) => v,
            Err(LebError::BadOffset) => {
                return Err(EncodedValueError::BadOffset);
            },
            Err(LebError::BadInput) => {
                return Err(EncodedValueError::BadInput);
            },
        };
        let values = match EncodedValue::read_run(src, &mut pos, count) {
            Ok(v) => v,
            Err(e) => {
                return Err(e);
            },
        };
        *offset = pos;
        Ok(EncodedArray(values))
    }
}


/// The shortest unsigned bytes decode back to their value and stay
/// within their width.
pub proof fn lemma_uint_min_val(v: nat)
    ensures
        le_val(uint_min_bytes(v)) == v,
        1 <= uint_min_bytes(v).len(),
        v < p256(uint_min_bytes(v).len()),
    decreases v,
{
    lemma_p256_vals();
    if v < 256 {
        let p = uint_min_bytes(v);
        assert(p =~= seq![v as u8]);
        assert(p.skip(1) =~= Seq::<u8>::empty());
        assert(le_val(Seq::<u8>::empty()) == 0);
    } else {
        lemma_uint_min_val(v / 256);
        let p = uint_min_bytes(v);
        let tl = uint_min_bytes(v / 256);
        assert(p =~= seq![(v % 256) as u8] + tl);
        assert(p.skip(1) =~= tl);
        assert(p[0] == (v % 256) as u8);
        vstd::arithmetic::div_mod::lemma_fundamental_div_mod(v as int, 256);
        assert(le_val(p) == v % 256 + 256 * le_val(tl));
        assert(p256(p.len()) == 256 * p256(tl.len()));
        vstd::arithmetic::mul::lemma_mul_inequality(
            le_val(tl) + 1 as int,
            p256(tl.len()) as int,
            256,
        );
    }
}

/// The shortest signed bytes decode back to their value and stay
/// within their signed width.
pub proof fn lemma_int_min_val(v: int)
    ensures
        le_sval(int_min_bytes(v)) == v,
        1 <= int_min_bytes(v).len(),
        -p256(int_min_bytes(v).len()) <= 2 * v < p256(int_min_bytes(v).len()),
    decreases (if v < 0 { -v } else { v }),
{
    lemma_p256_vals();
    if -128 <= v < 128 {
        let p = int_min_bytes(v);
        if v >= 0 {
            vstd::arithmetic::div_mod::lemma_small_mod(v as nat, 256);
        } else {
            vstd::arithmetic::div_mod::lemma_fundamental_div_mod_converse(v, 256, -1, v + 256);
        }
        assert(p =~= seq![(v % 256) as u8]);
        assert(p.skip(1) =~= Seq::<u8>::empty());
        assert(le_val(Seq::<u8>::empty()) == 0);
        assert(p256(1) == 256);
        assert(le_val(p) == v % 256);
        assert(p.last() == (v % 256) as u8);
    } else {
        lemma_int_min_decreases(v);
        lemma_int_min_val(v / 256);
        let p = int_min_bytes(v);
        let tl = int_min_bytes(v / 256);
        vstd::arithmetic::div_mod::lemma_fundamental_div_mod(v, 256);
        vstd::arithmetic::div_mod::lemma_mod_division_less_than_divisor(v, 256);
        assert(p =~= seq![(v % 256) as u8] + tl);
        assert(p.skip(1) =~= tl);
        assert(p[0] == (v % 256) as u8);
        assert(p.last() == tl.last());
        assert(le_val(p) == v % 256 + 256 * le_val(tl));
        assert(p256(p.len()) == 256 * p256(tl.len()));
        if tl.last() >= 128 {
            assert(le_val(tl) == v / 256 + p256(tl.len()));
            vstd::arithmetic::mul::lemma_mul_is_distributive_add(
                256,
                (v / 256) as int,
                p256(tl.len()) as int,
            );
            assert(le_val(p) == v + p256(p.len()));
            lemma_le_val_bound(p);
            assert(le_sval(p) == v);
        } else {
            assert(le_val(tl) == v / 256);
            assert(le_val(p) == v);
            assert(le_sval(p) == v);
        }
        // the doubled value stays within the widened signed range
        assert(p256(tl.len()) % 2 == 0) by {
            vstd::arithmetic::div_mod::lemma_mod_multiples_basic(
                128 * p256((tl.len() - 1) as nat) as int,
                2,
            );
            assert(p256(tl.len()) == 2 * (128 * p256((tl.len() - 1) as nat)));
        }
        assert(2 * (v / 256) <= p256(tl.len()) - 2);
        assert(2 * v == 512 * (v / 256) + 2 * (v % 256));
        assert(512 * (v / 256) <= 256 * (p256(tl.len()) - 2)) by {
            vstd::arithmetic::mul::lemma_mul_inequality(
                2 * (v / 256),
                p256(tl.len()) - 2,
                256,
            );
        }
        assert(512 * (v / 256) >= 256 * (-p256(tl.len()))) by {
            vstd::arithmetic::mul::lemma_mul_inequality(
                -p256(tl.len()),
                2 * (v / 256),
                256,
            );
        }
    }
}

/// Exact-width bytes decode back to their value.
pub proof fn lemma_le_bytes_w_val(v: nat, w: nat)
    requires
        v < p256(w),
    ensures
        le_val(le_bytes_w(v, w)) == v,
    decreases w,
{
    if w == 0 {
        assert(le_val(Seq::<u8>::empty()) == 0);
        assert(le_bytes_w(v, 0) =~= Seq::<u8>::empty());
    } else {
        vstd::arithmetic::div_mod::lemma_multiply_divide_lt(
            v as int,
            256,
            p256((w - 1) as nat) as int,
        );
        lemma_le_bytes_w_val(v / 256, (w - 1) as nat);
        let p = le_bytes_w(v, w);
        assert(p =~= seq![(v % 256) as u8] + le_bytes_w(v / 256, (w - 1) as nat));
        assert(p.skip(1) =~= le_bytes_w(v / 256, (w - 1) as nat));
        assert(p[0] == (v % 256) as u8);
        vstd::arithmetic::div_mod::lemma_fundamental_div_mod(v as int, 256);
    }
}

/// Dropping implicit zero bytes keeps the value: the remaining payload
/// times its padding is the original.
pub proof fn lemma_float_drop(bits: nat, w: nat)
    requires
        1 <= w,
        bits < p256(w),
    ensures
        ({
            let (pv, pw) = float_drop(bits, w);
            &&& 1 <= pw <= w
            &&& pv < p256(pw)
            &&& pv * p256((w - pw) as nat) == bits
        }),
    decreases w,
{
    if w <= 1 || bits % 256 != 0 {
        assert(p256(0) == 1);
        assert(bits * 1 == bits);
    } else {
        vstd::arithmetic::div_mod::lemma_multiply_divide_lt(
            bits as int,
            256,
            p256((w - 1) as nat) as int,
        );
        lemma_float_drop(bits / 256, (w - 1) as nat);
        let (pv, pw) = float_drop(bits / 256, (w - 1) as nat);
        vstd::arithmetic::div_mod::lemma_fundamental_div_mod(bits as int, 256);
        assert(p256((w - pw) as nat) == 256 * p256((w - 1 - pw) as nat));
        assert(pv * p256((w - pw) as nat) == pv * (256 * p256((w - 1 - pw) as nat)));
        vstd::arithmetic::mul::lemma_mul_is_associative(
            pv as int,
            256,
            p256((w - 1 - pw) as nat) as int,
        );
        vstd::arithmetic::mul::lemma_mul_is_commutative(pv as int, 256);
        vstd::arithmetic::mul::lemma_mul_is_associative(
            256,
            pv as int,
            p256((w - 1 - pw) as nat) as int,
        );
    }
}

/// Decoding the encoding of a scalar, index, null or boolean value
/// yields the value back and consumes exactly the encoding.  The
/// nested kinds (arrays and annotations) are exercised by tests.
#[verifier::rlimit(100)]
#[verifier::spinoff_prover]
pub proof fn lemma_ev_scalar_round_trip(m: EvModel, tail: Seq<u8>)
    requires
        !(m is Array),
        !(m is Annotation),
    ensures
        ev_dec(ev_enc(m) + tail) == Parsed::Value(m, ev_enc(m).len() as nat),
{
    lemma_p256_vals();
    let s = ev_enc(m) + tail;
    match m {
        EvModel::Null => {
            assert(s[0] == 0x1e);
        },
        EvModel::Boolean(b) => {
            assert(s[0] == if b { 0x3fu8 } else { 0x1fu8 });
            if b {
                assert(s[0] / 32 == 1 && s[0] % 32 == 0x1f);
            } else {
                assert(s[0] / 32 == 0 && s[0] % 32 == 0x1f);
            }
        },
        EvModel::Byte(x) => {
            let pv = x as int;
            if x >= 0 {
                vstd::arithmetic::div_mod::lemma_small_mod(pv as nat, 256);
            } else {
                vstd::arithmetic::div_mod::lemma_fundamental_div_mod_converse(
                    pv,
                    256,
                    -1,
                    pv + 256,
                );
            }
            lemma_scalar_dec(0x00, seq![(pv % 256) as u8], tail, 1);
            let p = seq![(pv % 256) as u8];
            assert(ev_enc(m) =~= scalar_enc(0x00, p));
            assert(ev_enc(m) + tail =~= scalar_enc(0x00, p) + tail);
            assert(p.skip(1) =~= Seq::<u8>::empty());
            assert(le_val(Seq::<u8>::empty()) == 0);
            assert(le_val(p) == pv % 256);
            assert(p.last() == (pv % 256) as u8);
            assert(le_sval(p) == pv);
            assert(spec_scalar_value(ValueType::Byte, p) == m);
        },
        EvModel::Short(x) => {
            lemma_int_min_val(x as int);
            let p = int_min_bytes(x as int);
            assert(p.len() <= 2) by {
                lemma_int_min_len(x as int, 2);
            }
            lemma_scalar_dec(0x02, p, tail, 2);
            assert(spec_scalar_value(ValueType::Short, p) == m);
        },
        EvModel::Char(x) => {
            lemma_uint_min_val(x as nat);
            let p = uint_min_bytes(x as nat);
            assert(p.len() <= 2) by {
                lemma_uint_min_len(x as nat, 2);
            }
            lemma_scalar_dec(0x03, p, tail, 2);
            assert(spec_scalar_value(ValueType::Char, p) == m);
        },
        EvModel::Int(x) => {
            lemma_int_min_val(x as int);
            let p = int_min_bytes(x as int);
            assert(p.len() <= 4) by {
                lemma_int_min_len(x as int, 4);
            }
            lemma_scalar_dec(0x04, p, tail, 4);
            assert(spec_scalar_value(ValueType::Int, p) == m);
        },
        EvModel::Long(x) => {
            lemma_int_min_val(x as int);
            let p = int_min_bytes(x as int);
            assert(p.len() <= 8) by {
                lemma_int_min_len(x as int, 8);
            }
            lemma_scalar_dec(0x06, p, tail, 8);
            assert(spec_scalar_value(ValueType::Long, p) == m);
        },
        EvModel::Float(bits) => {
            lemma_float_drop(bits as nat, 4);
            let (pv, pw) = float_drop(bits as nat, 4);
            let p = le_bytes_w(pv, pw);
            lemma_le_bytes_w_len(pv, pw);
            lemma_le_bytes_w_val(pv, pw);
            lemma_scalar_dec(0x10, p, tail, 4);
            assert(spec_scalar_value(ValueType::Float, p) == m);
        },
        EvModel::Double(bits) => {
            lemma_float_drop(bits as nat, 8);
            let (pv, pw) = float_drop(bits as nat, 8);
            let p = le_bytes_w(pv, pw);
            lemma_le_bytes_w_len(pv, pw);
            lemma_le_bytes_w_val(pv, pw);
            lemma_scalar_dec(0x11, p, tail, 8);
            assert(spec_scalar_value(ValueType::Double, p) == m);
        },
        EvModel::MethodType(x) => {
            lemma_index_round_trip(0x15, x, tail);
            assert(spec_scalar_value(ValueType::MethodType, uint_min_bytes(x as nat)) == m);
        },
        EvModel::MethodHandle(x) => {
            lemma_index_round_trip(0x16, x, tail);
            assert(spec_scalar_value(ValueType::MethodHandle, uint_min_bytes(x as nat)) == m);
        },
        EvModel::String(x) => {
            lemma_index_round_trip(0x17, x, tail);
            assert(spec_scalar_value(ValueType::String, uint_min_bytes(x as nat)) == m);
        },
        EvModel::Type(x) => {
            lemma_index_round_trip(0x18, x, tail);
            assert(spec_scalar_value(ValueType::Type, uint_min_bytes(x as nat)) == m);
        },
        EvModel::Field(x) => {
            lemma_index_round_trip(0x19, x, tail);
            assert(spec_scalar_value(ValueType::Field, uint_min_bytes(x as nat)) == m);
        },
        EvModel::Method(x) => {
            lemma_index_round_trip(0x1a, x, tail);
            assert(spec_scalar_value(ValueType::Method, uint_min_bytes(x as nat)) == m);
        },
        EvModel::Enum(x) => {
            lemma_index_round_trip(0x1b, x, tail);
            assert(spec_scalar_value(ValueType::Enum, uint_min_bytes(x as nat)) == m);
        },
        _ => {},
    }
}

/// Powers of 256 grow with the exponent.
proof fn lemma_p256_increases(a: nat, b: nat)
    requires
        a <= b,
    ensures
        p256(a) <= p256(b),
    decreases b,
{
    if a < b {
        lemma_p256_increases(a, (b - 1) as nat);
        vstd::arithmetic::mul::lemma_mul_inequality(1, 256, p256((b - 1) as nat) as int);
        vstd::arithmetic::mul::lemma_mul_is_commutative(256, p256((b - 1) as nat) as int);
    }
}

/// An index payload round-trips through its header and shortest
/// encoding.
proof fn lemma_index_round_trip(code: u8, x: u32, tail: Seq<u8>)
    requires
        code == 0x15 || code == 0x16 || code == 0x17 || code == 0x18 || code == 0x19 || code
            == 0x1a || code == 0x1b,
    ensures
        ({
            let p = uint_min_bytes(x as nat);
            &&& ev_dec(scalar_enc(code, p) + tail) == Parsed::Value(
                spec_scalar_value(spec_value_type_from_code(code).unwrap(), p),
                1 + p.len(),
            )
            &&& le_val(p) == x
        }),
{
    lemma_p256_vals();
    lemma_uint_min_val(x as nat);
    let p = uint_min_bytes(x as nat);
    assert(p.len() <= 4) by {
        lemma_uint_min_len(x as nat, 4);
    }
    lemma_scalar_dec(code, p, tail, 4);
}

/// Decoding a scalar header-and-payload: the header byte splits back
/// into its code and width, and the payload is recovered exactly.
proof fn lemma_scalar_dec(code: u8, p: Seq<u8>, tail: Seq<u8>, max_width: nat)
    requires
        spec_value_type_from_code(code) is Some,
        spec_max_width(spec_value_type_from_code(code).unwrap()) == max_width,
        1 <= p.len() <= max_width,
        max_width <= 8,
    ensures
        ev_dec(scalar_enc(code, p) + tail) == Parsed::Value(
            spec_scalar_value(spec_value_type_from_code(code).unwrap(), p),
            1 + p.len(),
        ),
{
    let s = scalar_enc(code, p) + tail;
    let h = (code + 32 * (p.len() - 1)) as u8;
    assert(s[0] == h);
    assert(code < 32);
    assert(h / 32 == p.len() - 1 && h % 32 == code) by {
        vstd::arithmetic::div_mod::lemma_fundamental_div_mod_converse(
            h as int,
            32,
            p.len() - 1,
            code as int,
        );
    }
    assert(s.subrange(1, 1 + p.len() as int) =~= p);
    assert(s.len() >= 1 + p.len());
}


/// Decoding the encoding of any well-formed value yields the value
/// back and consumes exactly the encoding.
#[verifier::spinoff_prover]
#[verifier::rlimit(100)]
pub proof fn lemma_ev_round_trip(m: EvModel, tail: Seq<u8>)
    requires
        ev_m_wf(m),
    ensures
        ev_dec(ev_enc(m) + tail) == Parsed::Value(m, ev_enc(m).len() as nat),
    decreases m, 3nat,
{
    match m {
        EvModel::Array(vs) => {
            lemma_p256_vals();
            let s = ev_enc(m) + tail;
            assert(s[0] == 0x1c);
            let cnt = crate::leb128::uleb_enc(vs.len());
            assert(vs.len() < vstd::arithmetic::power2::pow2(64)) by {
                vstd::arithmetic::power2::lemma2_to64_rest();
            }
            crate::leb128::lemma_uleb_dec_enc(vs.len(), evs_enc(vs) + tail, 10);
            assert(s.skip(1) =~= cnt + (evs_enc(vs) + tail));
            crate::leb128::lemma_uleb_dec_rem_bound(s.skip(1), 10);
            assert(s.skip(1 + cnt.len() as int) =~= evs_enc(vs) + tail);
            lemma_evs_run_round_trip(vs, tail);
            assert(ev_enc(m).len() == 1 + cnt.len() + evs_enc(vs).len());
        },
        EvModel::Annotation(a) => {
            let s = ev_enc(m) + tail;
            assert(s[0] == 0x1d);
            assert(s.skip(1) =~= ann_enc(a) + tail);
            lemma_ann_round_trip(a, tail);
            assert(ev_enc(m).len() == 1 + ann_enc(a).len());
        },
        _ => {
            lemma_ev_scalar_round_trip(m, tail);
        },
    }
}

/// Decoding the concatenated encodings of a run of well-formed values
/// yields them back.
pub proof fn lemma_evs_run_round_trip(vs: Seq<EvModel>, tail: Seq<u8>)
    requires
        evs_m_wf(vs),
    ensures
        ev_run(evs_enc(vs) + tail, vs.len()) == Parsed::Value(vs, evs_enc(vs).len() as nat),
    decreases vs, 4nat,
{
    if vs.len() == 0 {
        assert(evs_enc(vs) =~= Seq::<u8>::empty());
        assert(evs_enc(vs) + tail =~= tail);
        assert(vs =~= Seq::<EvModel>::empty());
    } else {
        let rest = vs.subrange(1, vs.len() as int);
        assert(decreases_to!(vs => vs[0]));
        lemma_ev_round_trip(vs[0], evs_enc(rest) + tail);
        lemma_evs_run_round_trip(rest, tail);
        let e0 = ev_enc(vs[0]);
        assert(evs_enc(vs) + tail =~= e0 + (evs_enc(rest) + tail));
        assert((evs_enc(vs) + tail).skip(e0.len() as int) =~= evs_enc(rest) + tail);
        assert(e0.len() >= 1) by {
            lemma_ev_enc_len(vs[0]);
        }
        assert(e0.len() <= (evs_enc(vs) + tail).len());
        assert(seq![vs[0]] + rest =~= vs);
    }
}

/// Decoding the encoding of a well-formed annotation body yields it
/// back.
pub proof fn lemma_ann_round_trip(a: AnnModel, tail: Seq<u8>)
    requires
        ann_m_wf(a),
    ensures
        ann_dec(ann_enc(a) + tail) == Parsed::Value(a, ann_enc(a).len() as nat),
    decreases a, 4nat,
{
    lemma_p256_vals();
    let s = ann_enc(a) + tail;
    let c1 = crate::leb128::uleb_enc(a.type_idx as nat);
    let c2 = crate::leb128::uleb_enc(a.elements.len());
    assert(a.type_idx < vstd::arithmetic::power2::pow2(64)
        && a.elements.len() < vstd::arithmetic::power2::pow2(64)) by {
        vstd::arithmetic::power2::lemma2_to64_rest();
    }
    crate::leb128::lemma_uleb_dec_enc(
        a.type_idx as nat,
        c2 + (elems_enc(a.elements) + tail),
        10,
    );
    assert(s =~= c1 + (c2 + (elems_enc(a.elements) + tail)));
    crate::leb128::lemma_uleb_dec_rem_bound(s, 10);
    crate::leb128::lemma_uleb_dec_enc(a.elements.len(), elems_enc(a.elements) + tail, 10);
    assert(s.skip(c1.len() as int) =~= c2 + (elems_enc(a.elements) + tail));
    crate::leb128::lemma_uleb_dec_rem_bound(s.skip(c1.len() as int), 10);
    assert(s.skip(c1.len() + c2.len() as int) =~= elems_enc(a.elements) + tail);
    assert(decreases_to!(a => a.elements));
    lemma_elems_run_round_trip(a.elements, tail);
    assert(c1.len() >= 1 && c1.len() + c2.len() <= s.len());
}

/// Decoding the concatenated encodings of a run of well-formed
/// elements yields them back.
pub proof fn lemma_elems_run_round_trip(es: Seq<ElemModel>, tail: Seq<u8>)
    requires
        elems_m_wf(es),
    ensures
        elem_run(elems_enc(es) + tail, es.len()) == Parsed::Value(
            es,
            elems_enc(es).len() as nat,
        ),
    decreases es, 4nat,
{
    if es.len() == 0 {
        assert(elems_enc(es) =~= Seq::<u8>::empty());
        assert(elems_enc(es) + tail =~= tail);
        assert(es =~= Seq::<ElemModel>::empty());
    } else {
        let rest = es.subrange(1, es.len() as int);
        assert(decreases_to!(es => es[0]));
        lemma_elem_round_trip(es[0], elems_enc(rest) + tail);
        lemma_elems_run_round_trip(rest, tail);
        let e0 = elem_enc(es[0]);
        assert(elems_enc(es) + tail =~= e0 + (elems_enc(rest) + tail));
        assert((elems_enc(es) + tail).skip(e0.len() as int) =~= elems_enc(rest) + tail);
        assert(e0.len() >= 1) by {
            assert(crate::leb128::uleb_enc(es[0].name_idx as nat).len() >= 1);
        }
        assert(e0.len() <= (elems_enc(es) + tail).len());
        assert(seq![es[0]] + rest =~= es);
    }
}

/// Decoding the encoding of a well-formed annotation element yields it
/// back.
pub proof fn lemma_elem_round_trip(e: ElemModel, tail: Seq<u8>)
    requires
        ev_m_wf(e.value),
    ensures
        elem_dec(elem_enc(e) + tail) == Parsed::Value(e, elem_enc(e).len() as nat),
    decreases e, 2nat,
{
    let s = elem_enc(e) + tail;
    let c1 = crate::leb128::uleb_enc(e.name_idx as nat);
    assert(e.name_idx < vstd::arithmetic::power2::pow2(64)) by {
        vstd::arithmetic::power2::lemma2_to64_rest();
    }
    crate::leb128::lemma_uleb_dec_enc(e.name_idx as nat, ev_enc(e.value) + tail, 10);
    assert(s =~= c1 + (ev_enc(e.value) + tail));
    crate::leb128::lemma_uleb_dec_rem_bound(s, 10);
    assert(s.skip(c1.len() as int) =~= ev_enc(e.value) + tail);
    assert(decreases_to!(e => e.value));
    lemma_ev_round_trip(e.value, tail);
    assert(c1.len() >= 1 && c1.len() <= s.len());
}

/// Every encoding is at least one byte long.
pub proof fn lemma_ev_enc_len(m: EvModel)
    ensures
        ev_enc(m).len() >= 1,
{
}

} // verus!
