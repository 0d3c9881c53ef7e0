//! Type lists: the interface lists of classes and the parameter lists
//! of prototypes.
//!
//! A type list is a `u32` count followed by that many 2-byte type-pool
//! indices.

use crate::codec::{le16_at, le32_at, read_u16, read_u32, write_u16, write_u32, BadOffset};
use vstd::prelude::*;

verus! {

/// One entry of a type list.
#[derive(Debug, Clone, Copy, PartialEq, Eq, Structural)]
pub struct TypeItem {
    /// Index into the type pool.
    pub type_idx: u16,
}

/// An ordered list of type-pool indices.
#[derive(Debug, PartialEq, Eq)]
pub struct TypeList(pub Vec<TypeItem>);

impl TypeList {
    /// Decodes a type list at the cursor; it succeeds exactly when
    /// the count word and all its entries lie inside the buffer.
    pub fn read(src: &[u8], offset: &mut usize) -> (r: Result<TypeList, BadOffset>)
        ensures
            ({
                let base = *old(offset) + 4;
                let size = le32_at(src@, *old(offset) as int) as int;
                &&& (r is Ok <==> *old(offset) + 4 <= src@.len() && base + 2 * size
                    <= src@.len())
                &&& match r {
                    Ok(t) => {
                        &&& *old(offset) + 4 <= src@.len()
                        &&& base + 2 * size <= src@.len()
                        &&& t.0@.len() == size
                        &&& forall|i: int|
                            0 <= i < size ==> t.0@[i].type_idx == le16_at(src@, base + 2 * i)
                        &&& *final(offset) == base + 2 * size
                    },
                    Err(_) => {
                        &&& *final(offset) == *old(offset)
                        &&& *old(offset) + 4 > src@.len() || base + 2 * size > src@.len()
                    },
                }
            }),
    {
        let mut pos = *offset;
        let size = read_u32(src, &mut pos)?;
        let avail = src.len() - pos;
        if (size as u64) > (avail as u64) / 2 {
            proof {
                vstd::arithmetic::div_mod::lemma_fundamental_div_mod(avail as int, 2);
                vstd::arithmetic::mul::lemma_mul_inequality(
                    (avail as int) / 2 + 1,
                    size as int,
                    2,
                );
            }
            return Err(BadOffset(pos as u64));
        }
        proof {
            vstd::arithmetic::div_mod::lemma_fundamental_div_mod(avail as int, 2);
            vstd::arithmetic::mul::lemma_mul_inequality(size as int, (avail as int) / 2, 2);
        }
        assert(pos + 2 * (size as int) <= src@.len());
        let ghost base = pos as int;
        let mut items: Vec<TypeItem> = Vec::new();
        let mut i: u32 = 0;
        while i < size
            invariant
                0 <= i <= size,
                pos == base + 2 * (i as int),
                base + 2 * (size as int) <= src@.len(),
                items@.len() == i,
                forall|j: int| 0 <= j < i ==> items@[j].type_idx == le16_at(src@, base + 2 * j),
            decreases size - i,
        {
            let type_idx = match read_u16(src, &mut pos) {
                Ok(v) => v,
                Err(e) => {
                    proof {
                        assert(false);
                    }
                    return Err(e);
                },
            };
            items.push(TypeItem { type_idx });
            i = i + 1;
        }
        *offset = pos;
        Ok(TypeList(items))
    }

    /// Appends the list's wire bytes.
    pub fn write(&self, dst: &mut Vec<u8>)
        requires
            self.0@.len() <= u32::MAX,
        ensures
            final(dst)@ == old(dst)@ + vstd::bytes::spec_u32_to_le_bytes(self.0@.len() as u32)
                + type_items_bytes(self.0@),
    {
        write_u32(dst, self.0.len() as u32);
        let ghost header_done = dst@;
        let mut i: usize = 0;
        while i < self.0.len()
            invariant
                0 <= i <= self.0@.len(),
                dst@ == header_done + type_items_bytes(self.0@.take(i as int)),
                header_done == old(dst)@ + vstd::bytes::spec_u32_to_le_bytes(
                    self.0@.len() as u32,
                ),
            decreases self.0@.len() - i,
        {
            write_u16(dst, self.0[i].type_idx);
            proof {
                lemma_type_items_bytes_push(self.0@, i as int);
            }
            i = i + 1;
        }
        assert(self.0@.take(self.0@.len() as int) =~= self.0@);
    }

    /// The entries of the list.
    pub fn into_inner(self) -> (r: Vec<TypeItem>)
        ensures
            r@ == self.0@,
    {
        self.0
    }
}

/// The concatenated wire bytes of a run of type items.
pub open spec fn type_items_bytes(items: Seq<TypeItem>) -> Seq<u8>
    decreases items.len(),
{
    if items.len() == 0 {
        Seq::empty()
    } else {
        type_items_bytes(items.drop_last()) + vstd::bytes::spec_u16_to_le_bytes(
            items.last().type_idx,
        )
    }
}

/// Appending one entry's bytes extends the concatenation by one entry.
proof fn lemma_type_items_bytes_push(items: Seq<TypeItem>, i: int)
    requires
        0 <= i < items.len(),
    ensures
        type_items_bytes(items.take(i + 1)) == type_items_bytes(items.take(i))
            + vstd::bytes::spec_u16_to_le_bytes(items[i].type_idx),
{
    assert(items.take(i + 1).drop_last() =~= items.take(i));
    assert(items.take(i + 1).last() == items[i]);
}

} // verus!
