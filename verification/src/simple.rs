//! Fixed-width identifier-pool records.
//!
//! Each record is a handful of little-endian scalars at a fixed stride
//! in its pool.  `read` decodes at a cursor and advances it; `write`
//! appends the record's exact wire bytes, so decoding and re-encoding a
//! record is byte-identical.

use crate::codec::{le16_at, le32_at, read_u16, read_u32, write_u16, write_u32, BadOffset};
use vstd::bytes::{spec_u16_to_le_bytes, spec_u32_to_le_bytes};
use vstd::prelude::*;

verus! {

/// Byte stride of a string-id record.
pub const STRING_ID_SIZE: usize = 4;

/// Byte stride of a type-id record.
pub const TYPE_ID_SIZE: usize = 4;

/// Byte stride of a proto-id record.
pub const PROTO_ID_SIZE: usize = 12;

/// Byte stride of a field-id record.
pub const FIELD_ID_SIZE: usize = 8;

/// Byte stride of a method-id record.
pub const METHOD_ID_SIZE: usize = 8;

/// Byte stride of a class-def record.
pub const CLASS_DEF_SIZE: usize = 32;

/// Byte stride of a call-site-id record.
pub const CALL_SITE_ID_SIZE: usize = 4;

/// Byte stride of a method-handle record.
pub const METHOD_HANDLE_SIZE: usize = 8;

/// A type-id record: one index into the string pool naming the type
/// descriptor.
#[derive(Debug, Clone, Copy, PartialEq, Eq, Structural)]
pub struct TypeId {
    /// Index into the string pool for this type's descriptor.
    pub descriptor_idx: u32,
}

/// The wire bytes of a type-id record.
pub open spec fn type_id_bytes(t: TypeId) -> Seq<u8> {
    spec_u32_to_le_bytes(t.descriptor_idx)
}

impl TypeId {
    /// Decodes a type-id record at the cursor.
    pub fn read(src: &[u8], offset: &mut usize) -> (r: Result<TypeId, BadOffset>)
        ensures
            match r {
                Ok(t) => {
                    &&& *old(offset) + TYPE_ID_SIZE <= src@.len()
                    &&& t.descriptor_idx == le32_at(src@, *old(offset) as int)
                    &&& *final(offset) == *old(offset) + TYPE_ID_SIZE
                },
                Err(_) => {
                    &&& *old(offset) + TYPE_ID_SIZE > src@.len()
                    &&& *final(offset) == *old(offset)
                },
            },
    {
        let descriptor_idx = read_u32(src, offset)?;
        Ok(TypeId { descriptor_idx })
    }

    /// Appends this record's wire bytes.
    pub fn write(&self, dst: &mut Vec<u8>)
        ensures
            final(dst)@ == old(dst)@ + type_id_bytes(*self),
    {
        write_u32(dst, self.descriptor_idx);
    }
}

/// A proto-id record: shorty descriptor, return type, and the offset of
/// the parameter type list.
#[derive(Debug, Clone, Copy, PartialEq, Eq, Structural)]
pub struct ProtoId {
    /// Index into the string pool for the short-form descriptor.
    pub shorty_idx: u32,
    /// Index into the type pool for the return type.
    pub return_type_idx: u32,
    /// Offset of the parameter type list, or 0 if there are none.
    pub parameters_off: u32,
}

/// The wire bytes of a proto-id record.
pub open spec fn proto_id_bytes(p: ProtoId) -> Seq<u8> {
    spec_u32_to_le_bytes(p.shorty_idx) + spec_u32_to_le_bytes(p.return_type_idx)
        + spec_u32_to_le_bytes(p.parameters_off)
}

impl ProtoId {
    /// Decodes a proto-id record at the cursor.
    pub fn read(src: &[u8], offset: &mut usize) -> (r: Result<ProtoId, BadOffset>)
        ensures
            match r {
                Ok(p) => {
                    &&& *old(offset) + PROTO_ID_SIZE <= src@.len()
                    &&& p.shorty_idx == le32_at(src@, *old(offset) as int)
                    &&& p.return_type_idx == le32_at(src@, *old(offset) + 4)
                    &&& p.parameters_off == le32_at(src@, *old(offset) + 8)
                    &&& *final(offset) == *old(offset) + PROTO_ID_SIZE
                },
                Err(_) => {
                    &&& *old(offset) + PROTO_ID_SIZE > src@.len()
                    &&& *final(offset) == *old(offset)
                },
            },
    {
        let mut pos = *offset;
        let shorty_idx = read_u32(src, &mut pos)?;
        let return_type_idx = read_u32(src, &mut pos)?;
        let parameters_off = read_u32(src, &mut pos)?;
        *offset = pos;
        Ok(ProtoId { shorty_idx, return_type_idx, parameters_off })
    }

    /// Appends this record's wire bytes.
    pub fn write(&self, dst: &mut Vec<u8>)
        ensures
            final(dst)@ == old(dst)@ + proto_id_bytes(*self),
    {
        write_u32(dst, self.shorty_idx);
        write_u32(dst, self.return_type_idx);
        write_u32(dst, self.parameters_off);
        assert(dst@ =~= old(dst)@ + proto_id_bytes(*self));
    }
}

/// A field-id record: defining class, field type, and field name.
#[derive(Debug, Clone, Copy, PartialEq, Eq, Structural)]
pub struct FieldId {
    /// Index into the type pool for the defining class.
    pub class_idx: u16,
    /// Index into the type pool for the field's type.
    pub type_idx: u16,
    /// Index into the string pool for the field's name.
    pub name_idx: u32,
}

/// The wire bytes of a field-id record.
pub open spec fn field_id_bytes(f: FieldId) -> Seq<u8> {
    spec_u16_to_le_bytes(f.class_idx) + spec_u16_to_le_bytes(f.type_idx) + spec_u32_to_le_bytes(
        f.name_idx,
    )
}

impl FieldId {
    /// Decodes a field-id record at the cursor.
    pub fn read(src: &[u8], offset: &mut usize) -> (r: Result<FieldId, BadOffset>)
        ensures
            match r {
                Ok(f) => {
                    &&& *old(offset) + FIELD_ID_SIZE <= src@.len()
                    &&& f.class_idx == le16_at(src@, *old(offset) as int)
                    &&& f.type_idx == le16_at(src@, *old(offset) + 2)
                    &&& f.name_idx == le32_at(src@, *old(offset) + 4)
                    &&& *final(offset) == *old(offset) + FIELD_ID_SIZE
                },
                Err(_) => {
                    &&& *old(offset) + FIELD_ID_SIZE > src@.len()
                    &&& *final(offset) == *old(offset)
                },
            },
    {
        let mut pos = *offset;
        let class_idx = read_u16(src, &mut pos)?;
        let type_idx = read_u16(src, &mut pos)?;
        let name_idx = read_u32(src, &mut pos)?;
        *offset = pos;
        Ok(FieldId { class_idx, type_idx, name_idx })
    }

    /// Appends this record's wire bytes.
    pub fn write(&self, dst: &mut Vec<u8>)
        ensures
            final(dst)@ == old(dst)@ + field_id_bytes(*self),
    {
        write_u16(dst, self.class_idx);
        write_u16(dst, self.type_idx);
        write_u32(dst, self.name_idx);
        assert(dst@ =~= old(dst)@ + field_id_bytes(*self));
    }
}

/// A method-id record: defining class, prototype, and method name.
#[derive(Debug, Clone, Copy, PartialEq, Eq, Structural)]
pub struct MethodId {
    /// Index into the type pool for the defining class.
    pub class_idx: u16,
    /// Index into the proto pool for the method's prototype.
    pub proto_idx: u16,
    /// Index into the string pool for the method's name.
    pub name_idx: u32,
}

/// The wire bytes of a method-id record.
pub open spec fn method_id_bytes(m: MethodId) -> Seq<u8> {
    spec_u16_to_le_bytes(m.class_idx) + spec_u16_to_le_bytes(m.proto_idx) + spec_u32_to_le_bytes(
        m.name_idx,
    )
}

impl MethodId {
    /// Decodes a method-id record at the cursor.
    pub fn read(src: &[u8], offset: &mut usize) -> (r: Result<MethodId, BadOffset>)
        ensures
            match r {
                Ok(m) => {
                    &&& *old(offset) + METHOD_ID_SIZE <= src@.len()
                    &&& m.class_idx == le16_at(src@, *old(offset) as int)
                    &&& m.proto_idx == le16_at(src@, *old(offset) + 2)
                    &&& m.name_idx == le32_at(src@, *old(offset) + 4)
                    &&& *final(offset) == *old(offset) + METHOD_ID_SIZE
                },
                Err(_) => {
                    &&& *old(offset) + METHOD_ID_SIZE > src@.len()
                    &&& *final(offset) == *old(offset)
                },
            },
    {
        let mut pos = *offset;
        let class_idx = read_u16(src, &mut pos)?;
        let proto_idx = read_u16(src, &mut pos)?;
        let name_idx = read_u32(src, &mut pos)?;
        *offset = pos;
        Ok(MethodId { class_idx, proto_idx, name_idx })
    }

    /// Appends this record's wire bytes.
    pub fn write(&self, dst: &mut Vec<u8>)
        ensures
            final(dst)@ == old(dst)@ + method_id_bytes(*self),
    {
        write_u16(dst, self.class_idx);
        write_u16(dst, self.proto_idx);
        write_u32(dst, self.name_idx);
        assert(dst@ =~= old(dst)@ + method_id_bytes(*self));
    }
}

/// A call-site-id record: the offset of a call-site definition in the
/// data section.
#[derive(Debug, Clone, Copy, PartialEq, Eq, Structural)]
pub struct CallSiteId {
    /// Offset from the start of the file to the call-site definition.
    pub call_site_off: u32,
}

/// The wire bytes of a call-site-id record.
pub open spec fn call_site_id_bytes(c: CallSiteId) -> Seq<u8> {
    spec_u32_to_le_bytes(c.call_site_off)
}

impl CallSiteId {
    /// Decodes a call-site-id record at the cursor.
    pub fn read(src: &[u8], offset: &mut usize) -> (r: Result<CallSiteId, BadOffset>)
        ensures
            match r {
                Ok(c) => {
                    &&& *old(offset) + CALL_SITE_ID_SIZE <= src@.len()
                    &&& c.call_site_off == le32_at(src@, *old(offset) as int)
                    &&& *final(offset) == *old(offset) + CALL_SITE_ID_SIZE
                },
                Err(_) => {
                    &&& *old(offset) + CALL_SITE_ID_SIZE > src@.len()
                    &&& *final(offset) == *old(offset)
                },
            },
    {
        let call_site_off = read_u32(src, offset)?;
        Ok(CallSiteId { call_site_off })
    }

    /// Appends this record's wire bytes.
    pub fn write(&self, dst: &mut Vec<u8>)
        ensures
            final(dst)@ == old(dst)@ + call_site_id_bytes(*self),
    {
        write_u32(dst, self.call_site_off);
    }
}

/// One entry of a code item's exception table: a covered range of code
/// units and the offset of its handler inside the catch-handler list.
#[derive(Debug, Clone, Copy, PartialEq, Eq, Structural)]
pub struct TryItem {
    /// First covered code unit.
    pub start_addr: u32,
    /// Number of covered 16-bit code units.
    pub insn_count: u16,
    /// Byte offset of the handler from the start of the catch-handler
    /// list (not from the start of the file).
    pub handler_off: u16,
}

/// The wire bytes of a try item.
pub open spec fn try_item_bytes(t: TryItem) -> Seq<u8> {
    spec_u32_to_le_bytes(t.start_addr) + spec_u16_to_le_bytes(t.insn_count) + spec_u16_to_le_bytes(
        t.handler_off,
    )
}

impl TryItem {
    /// Decodes a try item at the cursor.
    pub fn read(src: &[u8], offset: &mut usize) -> (r: Result<TryItem, BadOffset>)
        ensures
            match r {
                Ok(t) => {
                    &&& *old(offset) + 8 <= src@.len()
                    &&& t.start_addr == le32_at(src@, *old(offset) as int)
                    &&& t.insn_count == le16_at(src@, *old(offset) + 4)
                    &&& t.handler_off == le16_at(src@, *old(offset) + 6)
                    &&& *final(offset) == *old(offset) + 8
                },
                Err(_) => {
                    &&& *old(offset) + 8 > src@.len()
                    &&& *final(offset) == *old(offset)
                },
            },
    {
        let mut pos = *offset;
        let start_addr = read_u32(src, &mut pos)?;
        let insn_count = read_u16(src, &mut pos)?;
        let handler_off = read_u16(src, &mut pos)?;
        *offset = pos;
        Ok(TryItem { start_addr, insn_count, handler_off })
    }

    /// Appends this item's wire bytes.
    pub fn write(&self, dst: &mut Vec<u8>)
        ensures
            final(dst)@ == old(dst)@ + try_item_bytes(*self),
    {
        write_u32(dst, self.start_addr);
        write_u16(dst, self.insn_count);
        write_u16(dst, self.handler_off);
        assert(dst@ =~= old(dst)@ + try_item_bytes(*self));
    }
}

/// Decoding the wire bytes of a try item yields its fields back: the
/// field projections of `try_item_bytes` are the fields themselves.
pub proof fn lemma_try_item_round_trip(t: TryItem)
    ensures
        try_item_bytes(t).len() == 8,
        le32_at(try_item_bytes(t), 0) == t.start_addr,
        le16_at(try_item_bytes(t), 4) == t.insn_count,
        le16_at(try_item_bytes(t), 6) == t.handler_off,
{
    vstd::bytes::lemma_auto_spec_u16_to_from_le_bytes();
    vstd::bytes::lemma_auto_spec_u32_to_from_le_bytes();
    let s = try_item_bytes(t);
    assert(spec_u32_to_le_bytes(t.start_addr).len() == 4);
    assert(spec_u16_to_le_bytes(t.insn_count).len() == 2);
    assert(spec_u16_to_le_bytes(t.handler_off).len() == 2);
    assert(s.subrange(0, 4) =~= spec_u32_to_le_bytes(t.start_addr));
    assert(s.subrange(4, 6) =~= spec_u16_to_le_bytes(t.insn_count));
    assert(s.subrange(6, 8) =~= spec_u16_to_le_bytes(t.handler_off));
}


/// Re-encoding a decoded try item reproduces its eight bytes exactly.
pub proof fn lemma_try_item_reencode(t: TryItem, s: Seq<u8>)
    requires
        s.len() == 8,
        t.start_addr == le32_at(s, 0),
        t.insn_count == le16_at(s, 4),
        t.handler_off == le16_at(s, 6),
    ensures
        try_item_bytes(t) == s,
{
    vstd::bytes::lemma_auto_spec_u16_to_from_le_bytes();
    vstd::bytes::lemma_auto_spec_u32_to_from_le_bytes();
    assert(s.subrange(0, 4).len() == 4);
    assert(s.subrange(4, 6).len() == 2);
    assert(s.subrange(6, 8).len() == 2);
    assert(try_item_bytes(t) =~= s.subrange(0, 4) + s.subrange(4, 6) + s.subrange(6, 8));
    assert(s.subrange(0, 4) + s.subrange(4, 6) + s.subrange(6, 8) =~= s);
}

} // verus!
