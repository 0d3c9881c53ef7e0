//! Method-handle records.
//!
//! A method handle is an 8-byte record: a handle type, a reserved
//! word, a field or method index, and another reserved word.

use crate::codec::{le16_at, read_u16, write_u16};
use vstd::prelude::*;

verus! {

/// Failure while reading a method handle.
#[derive(Debug, Clone, Copy, PartialEq, Eq, Structural)]
pub enum MethodHandleError {
    /// The record named a handle type the format does not define.
    InvalidType(u16),
    /// The record ran past the end of the buffer.
    BadOffset(u64),
}

/// The kinds of method handle.
#[derive(Debug, Clone, Copy, Eq, PartialEq, Structural)]
pub enum MethodHandleType {
    /// A static field setter.
    StaticPut,
    /// A static field getter.
    StaticGet,
    /// An instance field setter.
    InstancePut,
    /// An instance field getter.
    InstanceGet,
    /// A static method invoker.
    InvokeStatic,
    /// An instance method invoker.
    InvokeInstance,
    /// A constructor invoker.
    InvokeConstructor,
    /// A direct method invoker.
    InvokeDirect,
    /// An interface method invoker.
    InvokeInterface,
}

/// The wire value of a handle type.
pub open spec fn spec_handle_type_to_u16(t: MethodHandleType) -> u16 {
    match t {
        MethodHandleType::StaticPut => 0x00,
        MethodHandleType::StaticGet => 0x01,
        MethodHandleType::InstancePut => 0x02,
        MethodHandleType::InstanceGet => 0x03,
        MethodHandleType::InvokeStatic => 0x04,
        MethodHandleType::InvokeInstance => 0x05,
        MethodHandleType::InvokeConstructor => 0x06,
        MethodHandleType::InvokeDirect => 0x07,
        MethodHandleType::InvokeInterface => 0x08,
    }
}

/// The handle type a wire value names, if any.
pub open spec fn spec_handle_type_from_u16(v: u16) -> Option<MethodHandleType> {
    match v {
        0x00 => Some(MethodHandleType::StaticPut),
        0x01 => Some(MethodHandleType::StaticGet),
        0x02 => Some(MethodHandleType::InstancePut),
        0x03 => Some(MethodHandleType::InstanceGet),
        0x04 => Some(MethodHandleType::InvokeStatic),
        0x05 => Some(MethodHandleType::InvokeInstance),
        0x06 => Some(MethodHandleType::InvokeConstructor),
        0x07 => Some(MethodHandleType::InvokeDirect),
        0x08 => Some(MethodHandleType::InvokeInterface),
        _ => None,
    }
}

impl MethodHandleType {
    /// The wire value of this handle type.
    pub fn to_u16(&self) -> (r: u16)
        ensures
            r == spec_handle_type_to_u16(*self),
    {
        match self {
            MethodHandleType::StaticPut => 0x00,
            MethodHandleType::StaticGet => 0x01,
            MethodHandleType::InstancePut => 0x02,
            MethodHandleType::InstanceGet => 0x03,
            MethodHandleType::InvokeStatic => 0x04,
            MethodHandleType::InvokeInstance => 0x05,
            MethodHandleType::InvokeConstructor => 0x06,
            MethodHandleType::InvokeDirect => 0x07,
            MethodHandleType::InvokeInterface => 0x08,
        }
    }

    /// The handle type a wire value names, or `None` for a reserved
    /// value.
    pub fn from_u16(v: u16) -> (r: Option<MethodHandleType>)
        ensures
            r == spec_handle_type_from_u16(v),
    {
        match v {
            0x00 => Some(MethodHandleType::StaticPut),
            0x01 => Some(MethodHandleType::StaticGet),
            0x02 => Some(MethodHandleType::InstancePut),
            0x03 => Some(MethodHandleType::InstanceGet),
            0x04 => Some(MethodHandleType::InvokeStatic),
            0x05 => Some(MethodHandleType::InvokeInstance),
            0x06 => Some(MethodHandleType::InvokeConstructor),
            0x07 => Some(MethodHandleType::InvokeDirect),
            0x08 => Some(MethodHandleType::InvokeInterface),
            _ => None,
        }
    }
}

/// A method-handle record.
#[derive(Debug, Clone, Copy, PartialEq, Eq, Structural)]
pub struct MethodHandle {
    /// What kind of handle this is.
    pub ty: MethodHandleType,
    /// The field or method the handle refers to, depending on the
    /// kind.
    pub field_or_method_id: u16,
}

impl MethodHandle {
    /// Whether this handle is a field accessor (a getter or setter).
    pub fn is_accessor(&self) -> (r: bool)
        ensures
            r == (self.ty == MethodHandleType::StaticPut || self.ty == MethodHandleType::StaticGet
                || self.ty == MethodHandleType::InstancePut || self.ty
                == MethodHandleType::InstanceGet),
    {
        matches!(
            self.ty,
            MethodHandleType::StaticPut
                | MethodHandleType::StaticGet
                | MethodHandleType::InstancePut
                | MethodHandleType::InstanceGet
        )
    }

    /// Decodes a method-handle record at the cursor.
    pub fn read(src: &[u8], offset: &mut usize) -> (r: Result<MethodHandle, MethodHandleError>)
        ensures
            match r {
                Ok(m) => {
                    &&& *old(offset) + 8 <= src@.len()
                    &&& spec_handle_type_from_u16(le16_at(src@, *old(offset) as int)) == Some(
                        m.ty,
                    )
                    &&& m.field_or_method_id == le16_at(src@, *old(offset) + 4)
                    &&& *final(offset) == *old(offset) + 8
                },
                Err(e) => {
                    &&& *final(offset) == *old(offset)
                    &&& match e {
                        MethodHandleError::BadOffset(_) => *old(offset) + 8 > src@.len(),
                        MethodHandleError::InvalidType(t) => {
                            &&& *old(offset) + 8 <= src@.len()
                            &&& t == le16_at(src@, *old(offset) as int)
                            &&& spec_handle_type_from_u16(t) is None
                        },
                    }
                },
            },
    {
        let mut pos = *offset;
        let ty = match read_u16(src, &mut pos) {
            Ok(v) => v,
            Err(e) => {
                return Err(MethodHandleError::BadOffset(e.0));
            },
        };
        let r1 = match read_u16(src, &mut pos) {
            Ok(v) => v,
            Err(e) => {
                return Err(MethodHandleError::BadOffset(e.0));
            },
        };
        let field_or_method_id = match read_u16(src, &mut pos) {
            Ok(v) => v,
            Err(e) => {
                return Err(MethodHandleError::BadOffset(e.0));
            },
        };
        let r2 = match read_u16(src, &mut pos) {
            Ok(v) => v,
            Err(e) => {
                return Err(MethodHandleError::BadOffset(e.0));
            },
        };
        let _ = r1;
        let _ = r2;
        let ty = match MethodHandleType::from_u16(ty) {
            Some(t) => t,
            None => {
                return Err(MethodHandleError::InvalidType(ty));
            },
        };
        *offset = pos;
        Ok(MethodHandle { ty, field_or_method_id })
    }

    /// Appends this record's wire bytes (with zero reserved words).
    pub fn write(&self, dst: &mut Vec<u8>)
        ensures
            final(dst)@ == old(dst)@ + method_handle_bytes(*self),
    {
        write_u16(dst, self.ty.to_u16());
        write_u16(dst, 0);
        write_u16(dst, self.field_or_method_id);
        write_u16(dst, 0);
        assert(dst@ =~= old(dst)@ + method_handle_bytes(*self));
    }
}

/// The wire bytes of a method-handle record.
pub open spec fn method_handle_bytes(m: MethodHandle) -> Seq<u8> {
    vstd::bytes::spec_u16_to_le_bytes(spec_handle_type_to_u16(m.ty))
        + vstd::bytes::spec_u16_to_le_bytes(0u16) + vstd::bytes::spec_u16_to_le_bytes(
        m.field_or_method_id,
    ) + vstd::bytes::spec_u16_to_le_bytes(0u16)
}

} // verus!
