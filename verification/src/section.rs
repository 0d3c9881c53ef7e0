//! Fixed-stride section views over the identifier pools.
//!
//! A section is a window of the file holding records of one fixed
//! size, addressed by dense index.

use vstd::prelude::*;

verus! {

/// Failure while locating or reading a section.
#[derive(Debug, Clone, Copy, PartialEq, Eq, Structural)]
pub enum SectionError {
    /// The named section is absent from the map list.
    BadSection(crate::map_list::ItemType),
    /// A record index fell outside the section.
    BadOffset(u64),
}

/// A fixed-stride window over a pool of records.
pub struct Section<'a> {
    /// The bytes of the section.
    pub inner: &'a [u8],
    /// The byte stride of one record.
    pub type_size: usize,
}

impl<'a> Section<'a> {
    /// The bytes of the section.
    pub open spec fn spec_inner(&self) -> Seq<u8> {
        self.inner@
    }

    /// The byte stride of one record.
    pub open spec fn spec_type_size(&self) -> usize {
        self.type_size
    }

    /// Wraps a byte window holding records of `type_size` bytes each.
    pub fn new(inner: &'a [u8], type_size: usize) -> (r: Section<'a>)
        ensures
            r.spec_inner() == inner@,
            r.spec_type_size() == type_size,
    {
        Section { inner, type_size }
    }

    /// The section's bytes.
    pub fn as_ref(&self) -> (r: &'a [u8])
        ensures
            r@ == self.spec_inner(),
    {
        self.inner
    }

    /// The byte offset of the record at `index`, or `None` when the
    /// record would start outside the section.
    pub fn offset_of(&self, index: usize) -> (r: Option<usize>)
        requires
            self.spec_type_size() > 0,
        ensures
            match r {
                Some(off) => {
                    &&& off == index * self.spec_type_size()
                    &&& off < self.spec_inner().len()
                },
                None => index * self.spec_type_size() >= self.spec_inner().len(),
            },
    {
        let q = self.inner.len() / self.type_size;
        if index > q {
            proof {
                vstd::arithmetic::div_mod::lemma_fundamental_div_mod(
                    self.inner@.len() as int,
                    self.type_size as int,
                );
                vstd::arithmetic::div_mod::lemma_mod_division_less_than_divisor(
                    self.inner@.len() as int,
                    self.type_size as int,
                );
                vstd::arithmetic::mul::lemma_mul_inequality(
                    q + 1,
                    index as int,
                    self.type_size as int,
                );
                vstd::arithmetic::mul::lemma_mul_is_distributive_add_other_way(
                    self.type_size as int,
                    q as int,
                    1,
                );
            }
            return None;
        }
        proof {
            vstd::arithmetic::div_mod::lemma_fundamental_div_mod(
                self.inner@.len() as int,
                self.type_size as int,
            );
            vstd::arithmetic::div_mod::lemma_mod_division_less_than_divisor(
                self.inner@.len() as int,
                self.type_size as int,
            );
            vstd::arithmetic::mul::lemma_mul_inequality(index as int, q as int, self.type_size as int);
        }
        let off = index * self.type_size;
        if off >= self.inner.len() {
            None
        } else {
            Some(off)
        }
    }
}

} // verus!
