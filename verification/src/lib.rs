//! Reader for the Dalvik executable (DEX) container format.
//!
//! A DEX image is a single little-endian byte buffer: a fixed 112-byte
//! header, fixed-stride identifier pools, and a variable-length data
//! section linked together by byte offsets.  This crate decodes that
//! buffer into typed records and proves the codecs against sequence-level
//! models of the wire format.

use vstd::prelude::*;

pub mod annotations;
pub mod catch_handlers;
pub mod checksum;
pub mod class_data;
pub mod classes;
pub mod classdef;
pub mod dex;
pub mod header;
pub mod code_item;
pub mod codec;
pub mod encoded_value;
pub mod exceptions;
pub mod fields;
pub mod flags;
pub mod leb128;
pub mod map_list;
pub mod methods;
pub mod method_handle;
pub mod mutf8;
pub mod section;
pub mod string;
pub mod strings;
pub mod type_list;
pub mod simple;

verus! {

/// Any failure of the library, tagged by the layer it arose in.
#[derive(Debug, Clone, Copy, PartialEq, Eq, Structural)]
pub enum Error {
    /// The header failed validation.
    Header(header::HeaderError),
    /// The map list failed validation.
    MapList(map_list::MapListError),
    /// A string could not be read or found.
    StringRead(strings::StringReadError),
    /// A section was absent or an access fell outside it.
    Section(section::SectionError),
    /// A class-data item was malformed.
    ClassData(class_data::ClassDataError),
    /// An encoded value was malformed or named a missing pool entry.
    EncodedValue(encoded_value::EncodedValueError),
    /// An annotation was malformed.
    Annotation(annotations::AnnotationError),
    /// A debug-info item was malformed.
    DebugInfo(code_item::DebugInfoError),
    /// A code item was malformed.
    Code(leb128::LebError),
    /// A required map-list entry is missing.
    InvalidMapList(map_list::ItemType),
    /// A class index was not below the class count.
    ClassIndexOutOfBounds(usize, usize),
    /// A try item's handler offset matches no recorded handler.
    InvalidExceptionHandler(u16),
    /// An index reconstruction overflowed.
    Arithmetic,
}

} // verus!
