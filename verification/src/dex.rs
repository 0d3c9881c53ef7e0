//! The opened DEX file: the validated header, the map list, the
//! string engine, and random access to the class-definition pool.
//!
//! Opening validates the skeleton — magic, checksum, endianness, the
//! map list, and the bounds of every identifier pool — so that later
//! accesses only fail on the interior items they touch.

use crate::classdef::ClassDef;
use crate::codec::le32_at;
use crate::header::{header_acceptable, header_fields_ok, Header};
use crate::map_list::{map_item_at, map_items_ok, ItemType, MapList, MapListError};
use crate::section::{Section, SectionError};
use crate::simple;
use crate::strings::Strings;
use crate::Error;
use vstd::prelude::*;

verus! {

/// The location of a pool taken from the map list.
#[derive(Debug, Clone, Copy, PartialEq, Eq, Structural)]
pub struct OffsetInfo {
    /// How many items the pool holds.
    pub size: usize,
    /// Byte offset of the pool.
    pub offset: usize,
}

/// Whether the map list parses at `map_off`: its count word and all
/// its entries lie inside the buffer and every entry names a defined
/// item type.
pub open spec fn spec_map_parses(s: Seq<u8>, map_off: u32) -> bool {
    &&& map_off + 4 <= s.len()
    &&& map_off + 4 + 12 * (le32_at(s, map_off as int) as int) <= s.len()
    &&& map_items_ok(s, map_off + 4, le32_at(s, map_off as int) as int)
}

/// Whether every identifier pool the header names lies inside the
/// buffer.
pub open spec fn spec_pools_fit(s: Seq<u8>, h: Header) -> bool {
    &&& h.string_ids_off + 4 * h.string_ids_size <= s.len()
    &&& h.type_ids_off + 4 * h.type_ids_size <= s.len()
    &&& h.proto_ids_off + 12 * h.proto_ids_size <= s.len()
    &&& h.field_ids_off + 8 * h.field_ids_size <= s.len()
    &&& h.method_ids_off + 8 * h.method_ids_size <= s.len()
}

/// Whether some map entry names the class-definition pool.
pub open spec fn spec_has_class_def_entry(s: Seq<u8>, map_off: u32) -> bool {
    exists|k: int|
        0 <= k < le32_at(s, map_off as int) && (#[trigger] map_item_at(
            s,
            map_off + 4 + 12 * k,
        )).item_type == ItemType::ClassDefItem
}

/// Whether every map entry naming the class-definition pool names a
/// region inside the buffer.
pub open spec fn spec_class_def_entries_fit(s: Seq<u8>, map_off: u32) -> bool {
    forall|k: int|
        0 <= k < le32_at(s, map_off as int) && (#[trigger] map_item_at(
            s,
            map_off + 4 + 12 * k,
        )).item_type == ItemType::ClassDefItem ==> map_item_at(s, map_off + 4 + 12 * k).offset
            + 32 * (map_item_at(s, map_off + 4 + 12 * k).size as int) <= s.len()
}

/// An opened DEX image.
pub struct DexFile<'a> {
    /// The whole file image.
    pub src: &'a [u8],
    /// The validated header.
    pub header: Header,
    /// The validated map list.
    pub map_list: MapList,
    /// The string engine.
    pub strings: Strings<'a>,
    /// The class-definition pool, as named by the map list.
    pub classdef_info: OffsetInfo,
}

impl<'a> DexFile<'a> {
    /// Whether every pool this file hands out lies inside the buffer
    /// and the string engine mirrors the header.
    pub open spec fn wf(&self) -> bool {
        &&& self.strings.wf()
        &&& self.strings.src@ == self.src@
        &&& self.strings.string_ids_off == self.header.string_ids_off
        &&& self.strings.string_ids_size == self.header.string_ids_size
        &&& self.strings.type_ids_off == self.header.type_ids_off
        &&& self.strings.type_ids_size == self.header.type_ids_size
        &&& self.strings.data_off == self.header.data_off
        &&& self.strings.data_size == self.header.data_size
        &&& self.header.proto_ids_off + 12 * self.header.proto_ids_size <= self.src@.len()
        &&& self.header.field_ids_off + 8 * self.header.field_ids_size <= self.src@.len()
        &&& self.header.method_ids_off + 8 * self.header.method_ids_size <= self.src@.len()
        &&& self.classdef_info.offset + 32 * self.classdef_info.size <= self.src@.len()
    }

    /// Opens a DEX image: validates the header (magic, checksum,
    /// endian tag), reads the map list, and checks every pool's
    /// bounds.
    pub fn open(src: &'a [u8]) -> (r: Result<DexFile<'a>, Error>)
        ensures
            match r {
                Ok(d) => {
                    &&& d.wf()
                    &&& d.src@ == src@
                    &&& header_acceptable(src@)
                    &&& header_fields_ok(d.header, src@)
                    &&& spec_map_parses(src@, d.header.map_off)
                    &&& d.map_list.0@.len() == le32_at(src@, d.header.map_off as int)
                    &&& forall|i: int|
                        0 <= i < d.map_list.0@.len() ==> #[trigger] d.map_list.0@[i]
                            == map_item_at(src@, d.header.map_off + 4 + 12 * i)
                    &&& exists|k: int|
                        0 <= k < d.map_list.0@.len() && (#[trigger] d.map_list.0@[k]).item_type
                            == ItemType::ClassDefItem && d.classdef_info.size
                            == d.map_list.0@[k].size && d.classdef_info.offset
                            == d.map_list.0@[k].offset
                },
                Err(e) => match e {
                    Error::Header(_) => !header_acceptable(src@),
                    Error::MapList(_) => header_acceptable(src@) && !spec_map_parses(
                        src@,
                        le32_at(src@, 52),
                    ),
                    Error::Section(_) => header_acceptable(src@),
                    Error::InvalidMapList(t) => {
                        &&& header_acceptable(src@)
                        &&& t == ItemType::ClassDefItem
                        &&& !spec_has_class_def_entry(src@, le32_at(src@, 52))
                    },
                    _ => false,
                },
            },
            // a fully valid image is always opened
            (header_acceptable(src@) && spec_map_parses(src@, le32_at(src@, 52))
                && (exists|h: Header| header_fields_ok(h, src@) && spec_pools_fit(src@, h))
                && spec_has_class_def_entry(src@, le32_at(src@, 52))
                && spec_class_def_entries_fit(src@, le32_at(src@, 52))) ==> r is Ok,
    {
        let header = match Header::read(src) {
            Ok(h) => h,
            Err(e) => {
                return Err(Error::Header(e));
            },
        };
        if header.map_off as u64 > src.len() as u64 {
            return Err(Error::MapList(MapListError::BadOffset(header.map_off as u64)));
        }
        let mut map_pos = header.map_off as usize;
        let map_list = match MapList::read(src, &mut map_pos) {
            Ok(m) => m,
            Err(e) => {
                return Err(Error::MapList(e));
            },
        };
        let strings = match Strings::new(src, &header) {
            Some(s) => s,
            None => {
                return Err(Error::Section(SectionError::BadSection(ItemType::StringIdItem)));
            },
        };
        if header.proto_ids_off as u64 + 12 * (header.proto_ids_size as u64) > src.len() as u64 {
            return Err(Error::Section(SectionError::BadSection(ItemType::ProtoIdItem)));
        }
        if header.field_ids_off as u64 + 8 * (header.field_ids_size as u64) > src.len() as u64 {
            return Err(Error::Section(SectionError::BadSection(ItemType::FieldIdItem)));
        }
        if header.method_ids_off as u64 + 8 * (header.method_ids_size as u64) > src.len() as u64 {
            return Err(Error::Section(SectionError::BadSection(ItemType::MethodIdItem)));
        }
        let classdef_item = match map_list.get(ItemType::ClassDefItem) {
            Some(m) => *m,
            None => {
                proof {
                    let mo = le32_at(src@, 52);
                    assert(header.map_off == mo);
                    assert forall|k: int|
                        0 <= k < le32_at(src@, mo as int) implies (#[trigger] map_item_at(
                        src@,
                        mo + 4 + 12 * k,
                    )).item_type != ItemType::ClassDefItem by {
                        assert(map_list.0@[k] == map_item_at(src@, header.map_off + 4 + 12 * k));
                        assert(map_list.0@[k].item_type != ItemType::ClassDefItem);
                    }
                    assert(!spec_has_class_def_entry(src@, mo));
                }
                return Err(Error::InvalidMapList(ItemType::ClassDefItem));
            },
        };
        if classdef_item.offset as u64 + 32 * (classdef_item.size as u64) > src.len() as u64 {
            return Err(Error::Section(SectionError::BadSection(ItemType::ClassDefItem)));
        }
        let classdef_info = OffsetInfo {
            size: classdef_item.size as usize,
            offset: classdef_item.offset as usize,
        };
        let d = DexFile { src, header, map_list, strings, classdef_info };
        proof {
            assert(exists|i: int|
                0 <= i < d.map_list.0@.len() && d.map_list.0@[i].item_type
                    == ItemType::ClassDefItem && classdef_item == d.map_list.0@[i]);
            let k = choose|i: int|
                0 <= i < d.map_list.0@.len() && d.map_list.0@[i].item_type
                    == ItemType::ClassDefItem && classdef_item == d.map_list.0@[i];
            assert(0 <= k < d.map_list.0@.len() && (#[trigger] d.map_list.0@[k]).item_type
                == ItemType::ClassDefItem && d.classdef_info.size == d.map_list.0@[k].size
                && d.classdef_info.offset == d.map_list.0@[k].offset);
        }
        Ok(d)
    }

    /// The validated header.
    pub fn header(&self) -> (r: &Header)
        ensures
            r == &self.header,
    {
        &self.header
    }

    /// The validated map list.
    pub fn map_list(&self) -> (r: &MapList)
        ensures
            r == &self.map_list,
    {
        &self.map_list
    }

    /// The string engine.
    pub fn strings(&self) -> (r: &Strings<'a>)
        ensures
            r == &self.strings,
    {
        &self.strings
    }

    /// The class definition at pool index `idx`.
    pub fn class_def(&self, idx: usize) -> (r: Result<ClassDef, Error>)
        requires
            self.wf(),
        ensures
            match r {
                Ok(c) => {
                    &&& idx < self.classdef_info.size
                    &&& ({
                        let base = self.classdef_info.offset + 32 * idx;
                        &&& c.class_idx == le32_at(self.src@, base)
                        &&& c.access_flags.bits == le32_at(self.src@, base + 4)
                            & crate::flags::ACCESS_FLAGS_MASK
                        &&& c.superclass_idx == le32_at(self.src@, base + 8)
                        &&& c.interfaces_off == le32_at(self.src@, base + 12)
                        &&& c.source_file_idx == le32_at(self.src@, base + 16)
                        &&& c.annotations_off == le32_at(self.src@, base + 20)
                        &&& c.class_data_off == le32_at(self.src@, base + 24)
                        &&& c.static_values_off == le32_at(self.src@, base + 28)
                    })
                },
                Err(e) => idx >= self.classdef_info.size && e == Error::ClassIndexOutOfBounds(
                    idx,
                    self.classdef_info.size,
                ),
            },
    {
        if idx >= self.classdef_info.size {
            return Err(Error::ClassIndexOutOfBounds(idx, self.classdef_info.size));
        }
        let n = self.src.len();
        proof {
            assert(32 * (idx as int) + 32 <= 32 * (self.classdef_info.size as int)) by {
                vstd::arithmetic::mul::lemma_mul_inequality(
                    idx as int + 1,
                    self.classdef_info.size as int,
                    32,
                );
            }
            assert(self.classdef_info.offset + 32 * (idx as int) + 32 <= n);
        }
        let mut pos = self.classdef_info.offset + 32 * idx;
        match ClassDef::read(self.src, &mut pos) {
            Ok(c) => Ok(c),
            Err(_) => {
                proof {
                    assert(false);
                }
                Err(Error::ClassIndexOutOfBounds(idx, self.classdef_info.size))
            },
        }
    }

    /// A fixed-stride view of the string-id pool.
    pub fn string_ids_section(&self) -> (r: Section<'a>)
        requires
            self.wf(),
        ensures
            r.spec_type_size() == simple::STRING_ID_SIZE,
    {
        self.pool_section(
            self.header.string_ids_off,
            self.header.string_ids_size,
            simple::STRING_ID_SIZE,
        )
    }

    /// A fixed-stride view of the type-id pool.
    pub fn type_ids_section(&self) -> (r: Section<'a>)
        requires
            self.wf(),
        ensures
            r.spec_type_size() == simple::TYPE_ID_SIZE,
    {
        self.pool_section(
            self.header.type_ids_off,
            self.header.type_ids_size,
            simple::TYPE_ID_SIZE,
        )
    }

    /// A fixed-stride view of the proto-id pool.
    pub fn proto_ids_section(&self) -> (r: Section<'a>)
        requires
            self.wf(),
        ensures
            r.spec_type_size() == simple::PROTO_ID_SIZE,
    {
        self.pool_section(
            self.header.proto_ids_off,
            self.header.proto_ids_size,
            simple::PROTO_ID_SIZE,
        )
    }

    /// A fixed-stride view of the field-id pool.
    pub fn field_ids_section(&self) -> (r: Section<'a>)
        requires
            self.wf(),
        ensures
            r.spec_type_size() == simple::FIELD_ID_SIZE,
    {
        self.pool_section(
            self.header.field_ids_off,
            self.header.field_ids_size,
            simple::FIELD_ID_SIZE,
        )
    }

    /// A fixed-stride view of the method-id pool.
    pub fn method_ids_section(&self) -> (r: Section<'a>)
        requires
            self.wf(),
        ensures
            r.spec_type_size() == simple::METHOD_ID_SIZE,
    {
        self.pool_section(
            self.header.method_ids_off,
            self.header.method_ids_size,
            simple::METHOD_ID_SIZE,
        )
    }

    /// A fixed-stride view of the call-site-id pool, located through
    /// the map list.
    pub fn call_site_ids_section(&self) -> (r: Result<Section<'a>, SectionError>)
        ensures
            r matches Ok(sec) ==> sec.spec_type_size() == simple::CALL_SITE_ID_SIZE,
    {
        self.map_section(ItemType::CallSiteIdItem, simple::CALL_SITE_ID_SIZE)
    }

    /// A fixed-stride view of the method-handle pool, located through
    /// the map list.
    pub fn method_handles_section(&self) -> (r: Result<Section<'a>, SectionError>)
        ensures
            r matches Ok(sec) ==> sec.spec_type_size() == simple::METHOD_HANDLE_SIZE,
    {
        self.map_section(ItemType::MethodHandleItem, simple::METHOD_HANDLE_SIZE)
    }

    /// A fixed-stride view of a pool located through the map list:
    /// absent from the map or out of bounds is an error.
    fn map_section(&self, item: ItemType, stride: usize) -> (r: Result<Section<'a>, SectionError>)
        requires
            1 <= stride <= 32,
        ensures
            r matches Ok(sec) ==> sec.spec_type_size() == stride,
    {
        let entry = match self.map_list.get(item) {
            Some(m) => *m,
            None => {
                return Err(SectionError::BadSection(item));
            },
        };
        proof {
            vstd::arithmetic::mul::lemma_mul_inequality(stride as int, 32, entry.size as int);
            vstd::arithmetic::mul::lemma_mul_nonnegative(stride as int, entry.size as int);
        }
        let need: u64 = entry.offset as u64 + (stride as u64) * (entry.size as u64);
        if need > self.src.len() as u64 {
            return Err(SectionError::BadSection(item));
        }
        let end = entry.offset as usize + stride * (entry.size as usize);
        let window = vstd::slice::slice_subrange(self.src, entry.offset as usize, end);
        Ok(Section::new(window, stride))
    }

    /// A fixed-stride view of a pool known to lie inside the buffer.
    fn pool_section(&self, off: u32, size: u32, stride: usize) -> (r: Section<'a>)
        requires
            1 <= stride,
            off + (stride as int) * size <= self.src@.len(),
        ensures
            r.spec_type_size() == stride,
            r.spec_inner() == self.src@.subrange(off as int, off + (stride as int) * size),
    {
        let n = self.src.len();
        proof {
            vstd::arithmetic::mul::lemma_mul_nonnegative(stride as int, size as int);
            assert(off + (stride as int) * (size as int) <= n);
        }
        let end = off as usize + stride * (size as usize);
        let window = vstd::slice::slice_subrange(self.src, off as usize, end);
        Section::new(window, stride)
    }

    /// The field-id record at pool index `idx`.
    pub fn field_id(&self, idx: u64) -> (r: Result<simple::FieldId, Error>)
        requires
            self.wf(),
        ensures
            match r {
                Ok(f) => {
                    &&& idx < self.header.field_ids_size
                    &&& ({
                        let base = self.header.field_ids_off + 8 * (idx as int);
                        &&& f.class_idx == crate::codec::le16_at(self.src@, base)
                        &&& f.type_idx == crate::codec::le16_at(self.src@, base + 2)
                        &&& f.name_idx == le32_at(self.src@, base + 4)
                    })
                },
                Err(e) => idx >= self.header.field_ids_size && e == Error::Section(
                    SectionError::BadOffset(idx),
                ),
            },
    {
        if idx >= self.header.field_ids_size as u64 {
            return Err(Error::Section(SectionError::BadOffset(idx)));
        }
        let n = self.src.len();
        proof {
            assert(8 * (idx as int) + 8 <= 8 * (self.header.field_ids_size as int)) by {
                vstd::arithmetic::mul::lemma_mul_inequality(
                    idx as int + 1,
                    self.header.field_ids_size as int,
                    8,
                );
            }
            assert(self.header.field_ids_off + 8 * (idx as int) + 8 <= n);
        }
        let mut pos = self.header.field_ids_off as usize + 8 * (idx as usize);
        match simple::FieldId::read(self.src, &mut pos) {
            Ok(f) => Ok(f),
            Err(_) => {
                proof {
                    assert(false);
                }
                Err(Error::Section(SectionError::BadOffset(idx)))
            },
        }
    }

    /// The method-id record at pool index `idx`.
    pub fn method_id(&self, idx: u64) -> (r: Result<simple::MethodId, Error>)
        requires
            self.wf(),
        ensures
            match r {
                Ok(m) => {
                    &&& idx < self.header.method_ids_size
                    &&& ({
                        let base = self.header.method_ids_off + 8 * (idx as int);
                        &&& m.class_idx == crate::codec::le16_at(self.src@, base)
                        &&& m.proto_idx == crate::codec::le16_at(self.src@, base + 2)
                        &&& m.name_idx == le32_at(self.src@, base + 4)
                    })
                },
                Err(e) => idx >= self.header.method_ids_size && e == Error::Section(
                    SectionError::BadOffset(idx),
                ),
            },
    {
        if idx >= self.header.method_ids_size as u64 {
            return Err(Error::Section(SectionError::BadOffset(idx)));
        }
        let n = self.src.len();
        proof {
            assert(8 * (idx as int) + 8 <= 8 * (self.header.method_ids_size as int)) by {
                vstd::arithmetic::mul::lemma_mul_inequality(
                    idx as int + 1,
                    self.header.method_ids_size as int,
                    8,
                );
            }
            assert(self.header.method_ids_off + 8 * (idx as int) + 8 <= n);
        }
        let mut pos = self.header.method_ids_off as usize + 8 * (idx as usize);
        match simple::MethodId::read(self.src, &mut pos) {
            Ok(m) => Ok(m),
            Err(_) => {
                proof {
                    assert(false);
                }
                Err(Error::Section(SectionError::BadOffset(idx)))
            },
        }
    }

    /// The proto-id record at pool index `idx`.
    pub fn proto_id(&self, idx: u64) -> (r: Result<simple::ProtoId, Error>)
        requires
            self.wf(),
        ensures
            match r {
                Ok(p) => {
                    &&& idx < self.header.proto_ids_size
                    &&& ({
                        let base = self.header.proto_ids_off + 12 * (idx as int);
                        &&& p.shorty_idx == le32_at(self.src@, base)
                        &&& p.return_type_idx == le32_at(self.src@, base + 4)
                        &&& p.parameters_off == le32_at(self.src@, base + 8)
                    })
                },
                Err(e) => idx >= self.header.proto_ids_size && e == Error::Section(
                    SectionError::BadOffset(idx),
                ),
            },
    {
        if idx >= self.header.proto_ids_size as u64 {
            return Err(Error::Section(SectionError::BadOffset(idx)));
        }
        let n = self.src.len();
        proof {
            assert(12 * (idx as int) + 12 <= 12 * (self.header.proto_ids_size as int)) by {
                vstd::arithmetic::mul::lemma_mul_inequality(
                    idx as int + 1,
                    self.header.proto_ids_size as int,
                    12,
                );
            }
            assert(self.header.proto_ids_off + 12 * (idx as int) + 12 <= n);
        }
        let mut pos = self.header.proto_ids_off as usize + 12 * (idx as usize);
        match simple::ProtoId::read(self.src, &mut pos) {
            Ok(p) => Ok(p),
            Err(_) => {
                proof {
                    assert(false);
                }
                Err(Error::Section(SectionError::BadOffset(idx)))
            },
        }
    }
}

} // verus!
