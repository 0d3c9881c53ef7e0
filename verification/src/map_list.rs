//! The map list: an index of every region in the file.
//!
//! The list is a `u32` count followed by 12-byte entries, each naming an
//! item type, a count and a byte offset.  Unknown item types are
//! rejected.

use crate::codec::{le16_at, le32_at, read_u16, read_u32, write_u16, write_u32};
use vstd::prelude::*;

verus! {

/// Failure while reading the map list.
#[derive(Debug, Clone, Copy, PartialEq, Eq, Structural)]
pub enum MapListError {
    /// An entry named an item type the format does not define.
    InvalidTypeId(u16),
    /// The list ran past the end of the buffer.
    BadOffset(u64),
}

/// The kinds of region a map-list entry may name.
#[derive(Debug, Clone, Copy, Eq, PartialEq, Structural, Hash)]
pub enum ItemType {
    HeaderItem,
    StringIdItem,
    TypeIdItem,
    ProtoIdItem,
    FieldIdItem,
    MethodIdItem,
    ClassDefItem,
    CallSiteIdItem,
    MethodHandleItem,
    MapList,
    TypeList,
    AnnotationSetRefList,
    AnnotationSetItem,
    ClassDataItem,
    CodeItem,
    StringDataItem,
    DebugInfoItem,
    AnnotationItem,
    EncodedArrayItem,
    AnnotationsDirectoryItem,
    HiddenapiClassDataItem,
}

/// The wire value of an item type.
pub open spec fn spec_item_type_to_u16(t: ItemType) -> u16 {
    match t {
        ItemType::HeaderItem => 0x0,
        ItemType::StringIdItem => 0x1,
        ItemType::TypeIdItem => 0x2,
        ItemType::ProtoIdItem => 0x3,
        ItemType::FieldIdItem => 0x4,
        ItemType::MethodIdItem => 0x5,
        ItemType::ClassDefItem => 0x6,
        ItemType::CallSiteIdItem => 0x7,
        ItemType::MethodHandleItem => 0x8,
        ItemType::MapList => 0x1000,
        ItemType::TypeList => 0x1001,
        ItemType::AnnotationSetRefList => 0x1002,
        ItemType::AnnotationSetItem => 0x1003,
        ItemType::ClassDataItem => 0x2000,
        ItemType::CodeItem => 0x2001,
        ItemType::StringDataItem => 0x2002,
        ItemType::DebugInfoItem => 0x2003,
        ItemType::AnnotationItem => 0x2004,
        ItemType::EncodedArrayItem => 0x2005,
        ItemType::AnnotationsDirectoryItem => 0x2006,
        ItemType::HiddenapiClassDataItem => 0xf000,
    }
}

/// The item type a wire value names, if any.
pub open spec fn spec_item_type_from_u16(v: u16) -> Option<ItemType> {
    match v {
        0x0 => Some(ItemType::HeaderItem),
        0x1 => Some(ItemType::StringIdItem),
        0x2 => Some(ItemType::TypeIdItem),
        0x3 => Some(ItemType::ProtoIdItem),
        0x4 => Some(ItemType::FieldIdItem),
        0x5 => Some(ItemType::MethodIdItem),
        0x6 => Some(ItemType::ClassDefItem),
        0x7 => Some(ItemType::CallSiteIdItem),
        0x8 => Some(ItemType::MethodHandleItem),
        0x1000 => Some(ItemType::MapList),
        0x1001 => Some(ItemType::TypeList),
        0x1002 => Some(ItemType::AnnotationSetRefList),
        0x1003 => Some(ItemType::AnnotationSetItem),
        0x2000 => Some(ItemType::ClassDataItem),
        0x2001 => Some(ItemType::CodeItem),
        0x2002 => Some(ItemType::StringDataItem),
        0x2003 => Some(ItemType::DebugInfoItem),
        0x2004 => Some(ItemType::AnnotationItem),
        0x2005 => Some(ItemType::EncodedArrayItem),
        0x2006 => Some(ItemType::AnnotationsDirectoryItem),
        0xf000 => Some(ItemType::HiddenapiClassDataItem),
        _ => None,
    }
}

impl ItemType {
    /// The wire value of this item type.
    pub fn to_u16(&self) -> (r: u16)
        ensures
            r == spec_item_type_to_u16(*self),
    {
        match self {
            ItemType::HeaderItem => 0x0,
            ItemType::StringIdItem => 0x1,
            ItemType::TypeIdItem => 0x2,
            ItemType::ProtoIdItem => 0x3,
            ItemType::FieldIdItem => 0x4,
            ItemType::MethodIdItem => 0x5,
            ItemType::ClassDefItem => 0x6,
            ItemType::CallSiteIdItem => 0x7,
            ItemType::MethodHandleItem => 0x8,
            ItemType::MapList => 0x1000,
            ItemType::TypeList => 0x1001,
            ItemType::AnnotationSetRefList => 0x1002,
            ItemType::AnnotationSetItem => 0x1003,
            ItemType::ClassDataItem => 0x2000,
            ItemType::CodeItem => 0x2001,
            ItemType::StringDataItem => 0x2002,
            ItemType::DebugInfoItem => 0x2003,
            ItemType::AnnotationItem => 0x2004,
            ItemType::EncodedArrayItem => 0x2005,
            ItemType::AnnotationsDirectoryItem => 0x2006,
            ItemType::HiddenapiClassDataItem => 0xf000,
        }
    }

    /// The item type a wire value names, or `None` for a reserved
    /// value.
    pub fn from_u16(v: u16) -> (r: Option<ItemType>)
        ensures
            r == spec_item_type_from_u16(v),
    {
        match v {
            0x0 => Some(ItemType::HeaderItem),
            0x1 => Some(ItemType::StringIdItem),
            0x2 => Some(ItemType::TypeIdItem),
            0x3 => Some(ItemType::ProtoIdItem),
            0x4 => Some(ItemType::FieldIdItem),
            0x5 => Some(ItemType::MethodIdItem),
            0x6 => Some(ItemType::ClassDefItem),
            0x7 => Some(ItemType::CallSiteIdItem),
            0x8 => Some(ItemType::MethodHandleItem),
            0x1000 => Some(ItemType::MapList),
            0x1001 => Some(ItemType::TypeList),
            0x1002 => Some(ItemType::AnnotationSetRefList),
            0x1003 => Some(ItemType::AnnotationSetItem),
            0x2000 => Some(ItemType::ClassDataItem),
            0x2001 => Some(ItemType::CodeItem),
            0x2002 => Some(ItemType::StringDataItem),
            0x2003 => Some(ItemType::DebugInfoItem),
            0x2004 => Some(ItemType::AnnotationItem),
            0x2005 => Some(ItemType::EncodedArrayItem),
            0x2006 => Some(ItemType::AnnotationsDirectoryItem),
            0xf000 => Some(ItemType::HiddenapiClassDataItem),
            _ => None,
        }
    }
}

/// Wire values round-trip through the item-type enum in both
/// directions.
pub proof fn lemma_item_type_round_trip(t: ItemType, v: u16)
    ensures
        spec_item_type_from_u16(spec_item_type_to_u16(t)) == Some(t),
        spec_item_type_from_u16(v) matches Some(u) ==> spec_item_type_to_u16(u) == v,
{
}

/// One entry of the map list.
#[derive(Debug, Clone, Copy, PartialEq, Eq, Structural)]
pub struct MapItem {
    /// The kind of region this entry names.
    pub item_type: ItemType,
    /// How many items the region holds.
    pub size: u32,
    /// Byte offset of the region from the start of the file.
    pub offset: u32,
}

/// Whether the 12-byte map entry at `pos` names a defined item type.
pub open spec fn map_item_type_ok(s: Seq<u8>, pos: int) -> bool {
    spec_item_type_from_u16(le16_at(s, pos)) is Some
}

/// The map entry stored at `pos`, given that its item type is defined.
pub open spec fn map_item_at(s: Seq<u8>, pos: int) -> MapItem {
    MapItem {
        item_type: spec_item_type_from_u16(le16_at(s, pos)).unwrap(),
        size: le32_at(s, pos + 4),
        offset: le32_at(s, pos + 8),
    }
}

impl MapItem {
    /// Decodes one map entry at the cursor.
    pub fn read(src: &[u8], offset: &mut usize) -> (r: Result<MapItem, MapListError>)
        ensures
            match r {
                Ok(m) => {
                    &&& *old(offset) + 12 <= src@.len()
                    &&& map_item_type_ok(src@, *old(offset) as int)
                    &&& m == map_item_at(src@, *old(offset) as int)
                    &&& *final(offset) == *old(offset) + 12
                },
                Err(e) => {
                    &&& *final(offset) == *old(offset)
                    &&& match e {
                        MapListError::BadOffset(_) => *old(offset) + 12 > src@.len(),
                        MapListError::InvalidTypeId(t) => {
                            &&& *old(offset) + 12 <= src@.len()
                            &&& t == le16_at(src@, *old(offset) as int)
                            &&& spec_item_type_from_u16(t) is None
                        },
                    }
                },
            },
    {
        let mut pos = *offset;
        let ty = match read_u16(src, &mut pos) {
            Ok(v) => v,
            Err(e) => {
                return Err(MapListError::BadOffset(e.0));
            },
        };
        let reserved = match read_u16(src, &mut pos) {
            Ok(v) => v,
            Err(e) => {
                return Err(MapListError::BadOffset(e.0));
            },
        };
        let size = match read_u32(src, &mut pos) {
            Ok(v) => v,
            Err(e) => {
                return Err(MapListError::BadOffset(e.0));
            },
        };
        let item_offset = match read_u32(src, &mut pos) {
            Ok(v) => v,
            Err(e) => {
                return Err(MapListError::BadOffset(e.0));
            },
        };
        let _ = reserved;
        let item_type = match ItemType::from_u16(ty) {
            Some(t) => t,
            None => {
                return Err(MapListError::InvalidTypeId(ty));
            },
        };
        *offset = pos;
        Ok(MapItem { item_type, size, offset: item_offset })
    }

    /// Appends this entry's wire bytes (with a zero reserved word).
    pub fn write(&self, dst: &mut Vec<u8>)
        ensures
            final(dst)@ == old(dst)@ + map_item_bytes(*self),
    {
        write_u16(dst, self.to_u16_value());
        write_u16(dst, 0);
        write_u32(dst, self.size);
        write_u32(dst, self.offset);
        assert(dst@ =~= old(dst)@ + map_item_bytes(*self));
    }

    /// The wire value of this entry's item type.
    fn to_u16_value(&self) -> (r: u16)
        ensures
            r == spec_item_type_to_u16(self.item_type),
    {
        self.item_type.to_u16()
    }
}

/// The wire bytes of one map entry.
pub open spec fn map_item_bytes(m: MapItem) -> Seq<u8> {
    vstd::bytes::spec_u16_to_le_bytes(spec_item_type_to_u16(m.item_type))
        + vstd::bytes::spec_u16_to_le_bytes(0u16) + vstd::bytes::spec_u32_to_le_bytes(m.size)
        + vstd::bytes::spec_u32_to_le_bytes(m.offset)
}

/// Whether every entry of a map list of `size` entries starting at
/// `base` names a defined item type.
pub open spec fn map_items_ok(s: Seq<u8>, base: int, size: int) -> bool {
    forall|i: int| 0 <= i < size ==> #[trigger] map_item_type_ok(s, base + 12 * i)
}

/// The contents of the file, region by region.  A given item type
/// appears at most once; entries are ordered by offset.
#[derive(Debug, PartialEq, Eq)]
pub struct MapList(pub Vec<MapItem>);

impl MapList {
    /// The map's own invariants in a valid file: each item type
    /// appears at most once, entries are sorted by offset, and the
    /// regions they name do not overlap (each entry's offset is not
    /// below the previous entry's).  The decoder carries the stored
    /// entries either way; `get` returns the first match, which under
    /// this predicate is the only one.
    pub open spec fn spec_wf(&self) -> bool {
        &&& forall|i: int, j: int|
            0 <= i < j < self.0@.len() ==> (#[trigger] self.0@[i]).item_type != (
            #[trigger] self.0@[j]).item_type
        &&& forall|i: int, j: int|
            0 <= i < j < self.0@.len() ==> (#[trigger] self.0@[i]).offset <= (
            #[trigger] self.0@[j]).offset
    }

    /// Decodes the map list at the cursor.
    pub fn read(src: &[u8], offset: &mut usize) -> (r: Result<MapList, MapListError>)
        ensures
            ({
                let base = *old(offset) + 4;
                let size = le32_at(src@, *old(offset) as int) as int;
                match r {
                    Ok(m) => {
                        &&& *old(offset) + 4 <= src@.len()
                        &&& base + 12 * size <= src@.len()
                        &&& map_items_ok(src@, base, size)
                        &&& m.0@.len() == size
                        &&& forall|i: int|
                            0 <= i < size ==> m.0@[i] == map_item_at(src@, base + 12 * i)
                        &&& *final(offset) == base + 12 * size
                    },
                    Err(e) => {
                        &&& *final(offset) == *old(offset)
                        &&& match e {
                            MapListError::BadOffset(_) => *old(offset) + 4 > src@.len() || base
                                + 12 * size > src@.len(),
                            MapListError::InvalidTypeId(t) => {
                                &&& *old(offset) + 4 <= src@.len()
                                &&& base + 12 * size <= src@.len()
                                &&& exists|i: int|
                                    0 <= i < size && !(#[trigger] map_item_type_ok(
                                        src@,
                                        base + 12 * i,
                                    )) && t == le16_at(src@, base + 12 * i)
                            },
                        }
                    },
                }
            }),
    {
        let mut pos = *offset;
        let size = match read_u32(src, &mut pos) {
            Ok(v) => v,
            Err(e) => {
                return Err(MapListError::BadOffset(e.0));
            },
        };
        let avail = src.len() - pos;
        if (size as u64) > (avail as u64) / 12 {
            proof {
                vstd::arithmetic::div_mod::lemma_fundamental_div_mod(avail as int, 12);
            }
            return Err(MapListError::BadOffset(pos as u64));
        }
        proof {
            vstd::arithmetic::div_mod::lemma_fundamental_div_mod(avail as int, 12);
            vstd::arithmetic::mul::lemma_mul_inequality(size as int, (avail as int) / 12, 12);
        }
        assert(pos + 12 * (size as int) <= src@.len());
        let ghost base = pos as int;
        let mut items: Vec<MapItem> = Vec::new();
        let mut i: u32 = 0;
        while i < size
            invariant
                0 <= i <= size,
                pos == base + 12 * (i as int),
                base == *old(offset) + 4,
                *offset == *old(offset),
                size as int == le32_at(src@, *old(offset) as int) as int,
                base + 12 * (size as int) <= src@.len(),
                items@.len() == i,
                forall|j: int| 0 <= j < i ==> #[trigger] map_item_type_ok(src@, base + 12 * j),
                forall|j: int| 0 <= j < i ==> items@[j] == map_item_at(src@, base + 12 * j),
            decreases size - i,
        {
            match MapItem::read(src, &mut pos) {
                Ok(item) => {
                    items.push(item);
                },
                Err(e) => {
                    match e {
                        MapListError::InvalidTypeId(t) => {
                            proof {
                                let gi = i as int;
                                assert(!map_item_type_ok(src@, base + 12 * gi));
                                assert(t == le16_at(src@, base + 12 * gi));
                                assert(0 <= gi < size as int);
                                assert(base == *old(offset) + 4);
                            }
                            return Err(MapListError::InvalidTypeId(t));
                        },
                        MapListError::BadOffset(o) => {
                            assert(false);
                            return Err(MapListError::BadOffset(o));
                        },
                    }
                },
            }
            i = i + 1;
        }
        *offset = pos;
        Ok(MapList(items))
    }

    /// Appends the map list's wire bytes.
    pub fn write(&self, dst: &mut Vec<u8>)
        requires
            self.0@.len() <= u32::MAX,
        ensures
            final(dst)@ == old(dst)@ + vstd::bytes::spec_u32_to_le_bytes(
                self.0@.len() as u32,
            ) + map_items_bytes(self.0@),
    {
        write_u32(dst, self.0.len() as u32);
        let ghost header_done = dst@;
        let mut i: usize = 0;
        while i < self.0.len()
            invariant
                0 <= i <= self.0@.len(),
                dst@ == header_done + map_items_bytes(self.0@.take(i as int)),
                header_done == old(dst)@ + vstd::bytes::spec_u32_to_le_bytes(
                    self.0@.len() as u32,
                ),
            decreases self.0@.len() - i,
        {
            self.0[i].write(dst);
            proof {
                lemma_map_items_bytes_push(self.0@, i as int);
            }
            i = i + 1;
        }
        assert(self.0@.take(self.0@.len() as int) =~= self.0@);
    }

    /// The first entry of the given item type, if any.
    pub fn get(&self, item_type: ItemType) -> (r: Option<&MapItem>)
        ensures
            match r {
                Some(m) => {
                    &&& exists|i: int|
                        0 <= i < self.0@.len() && self.0@[i].item_type == item_type && *m
                            == self.0@[i]
                    &&& m.item_type == item_type
                },
                None => forall|i: int|
                    0 <= i < self.0@.len() ==> self.0@[i].item_type != item_type,
            },
    {
        let mut i: usize = 0;
        while i < self.0.len()
            invariant
                0 <= i <= self.0@.len(),
                forall|j: int| 0 <= j < i ==> self.0@[j].item_type != item_type,
            decreases self.0@.len() - i,
        {
            if self.0[i].item_type == item_type {
                return Some(&self.0[i]);
            }
            i = i + 1;
        }
        None
    }

    /// The offset of the region of the given item type, if present.
    pub fn get_offset(&self, item_type: ItemType) -> (r: Option<u32>)
        ensures
            match r {
                Some(off) => exists|i: int|
                    0 <= i < self.0@.len() && self.0@[i].item_type == item_type && off
                        == self.0@[i].offset,
                None => forall|i: int|
                    0 <= i < self.0@.len() ==> self.0@[i].item_type != item_type,
            },
    {
        match self.get(item_type) {
            Some(m) => Some(m.offset),
            None => None,
        }
    }

    /// The item count of the region of the given item type, if present.
    pub fn get_len(&self, item_type: ItemType) -> (r: Option<u32>)
        ensures
            match r {
                Some(n) => exists|i: int|
                    0 <= i < self.0@.len() && self.0@[i].item_type == item_type && n
                        == self.0@[i].size,
                None => forall|i: int|
                    0 <= i < self.0@.len() ==> self.0@[i].item_type != item_type,
            },
    {
        match self.get(item_type) {
            Some(m) => Some(m.size),
            None => None,
        }
    }
}

/// In a well-formed map, the item type determines the entry: two
/// entries of the same type are the same entry.
pub proof fn lemma_wf_map_type_unique(m: &MapList, i: int, j: int)
    requires
        m.spec_wf(),
        0 <= i < m.0@.len(),
        0 <= j < m.0@.len(),
        m.0@[i].item_type == m.0@[j].item_type,
    ensures
        i == j,
{
}

/// The concatenated wire bytes of a run of map entries.
pub open spec fn map_items_bytes(items: Seq<MapItem>) -> Seq<u8>
    decreases items.len(),
{
    if items.len() == 0 {
        Seq::empty()
    } else {
        map_items_bytes(items.drop_last()) + map_item_bytes(items.last())
    }
}

/// Appending one entry's bytes extends the concatenation by one entry.
proof fn lemma_map_items_bytes_push(items: Seq<MapItem>, i: int)
    requires
        0 <= i < items.len(),
    ensures
        map_items_bytes(items.take(i + 1)) == map_items_bytes(items.take(i)) + map_item_bytes(
            items[i],
        ),
{
    assert(items.take(i + 1).drop_last() =~= items.take(i));
    assert(items.take(i + 1).last() == items[i]);
}

} // verus!
