//! Annotation containers: the visibility-tagged annotation item, the
//! per-class annotations directory, and annotation-set lists.

use crate::codec::{le32_at, read_u32, write_u32, Parsed};
use crate::encoded_value::{ann_dec, ann_view, AnnModel, EncodedAnnotation, EncodedValueError};
use vstd::prelude::*;

verus! {

/// Failure while reading an annotation item.
#[derive(Debug, Clone, Copy, PartialEq, Eq, Structural)]
pub enum AnnotationError {
    /// The item opened with an undefined visibility byte.
    InvalidVisibility(u8),
    /// The nested encoded annotation was malformed.
    EncodedValue(EncodedValueError),
    /// The item ran past the end of the buffer.
    BadOffset,
}

/// When an annotation is visible.
#[derive(Debug, Clone, Copy, Eq, PartialEq, Structural)]
pub enum Visibility {
    /// Visible only at build time.
    Build,
    /// Visible at run time through reflection.
    Runtime,
    /// Visible only to the runtime itself.
    System,
}

/// The visibility a wire byte names, if any.
pub open spec fn spec_visibility_from_u8(v: u8) -> Option<Visibility> {
    match v {
        0x00 => Some(Visibility::Build),
        0x01 => Some(Visibility::Runtime),
        0x02 => Some(Visibility::System),
        _ => None,
    }
}

impl Visibility {
    /// The visibility a wire byte names, if any.
    pub fn from_u8(v: u8) -> (r: Option<Visibility>)
        ensures
            r == spec_visibility_from_u8(v),
    {
        match v {
            0x00 => Some(Visibility::Build),
            0x01 => Some(Visibility::Runtime),
            0x02 => Some(Visibility::System),
            _ => None,
        }
    }

    /// The wire byte of this visibility.
    pub fn to_u8(&self) -> (r: u8)
        ensures
            spec_visibility_from_u8(r) == Some(*self),
    {
        match self {
            Visibility::Build => 0x00,
            Visibility::Runtime => 0x01,
            Visibility::System => 0x02,
        }
    }
}

/// A visibility-tagged annotation.
#[derive(Debug)]
pub struct Annotation {
    /// When the annotation is visible.
    pub visibility: Visibility,
    /// The annotation body.
    pub annotation: EncodedAnnotation,
}

impl Annotation {
    /// Decodes an annotation item at the cursor: a visibility byte and
    /// an encoded annotation.
    pub fn read(src: &[u8], offset: &mut usize) -> (r: Result<Annotation, AnnotationError>)
        requires
            *old(offset) <= src@.len(),
        ensures
            match r {
                Ok(a) => {
                    &&& *old(offset) < src@.len()
                    &&& spec_visibility_from_u8(src@[*old(offset) as int]) == Some(a.visibility)
                    &&& ann_dec(src@.skip(*old(offset) + 1)) == Parsed::<AnnModel>::Value(
                        ann_view(a.annotation),
                        (*final(offset) - *old(offset) - 1) as nat,
                    )
                    &&& *old(offset) < *final(offset) <= src@.len()
                },
                Err(e) => {
                    &&& *final(offset) == *old(offset)
                    &&& match e {
                        AnnotationError::BadOffset => *old(offset) >= src@.len(),
                        AnnotationError::InvalidVisibility(b) => {
                            &&& *old(offset) < src@.len()
                            &&& b == src@[*old(offset) as int]
                            &&& spec_visibility_from_u8(b) is None
                        },
                        AnnotationError::EncodedValue(_) => {
                            &&& *old(offset) < src@.len()
                            &&& spec_visibility_from_u8(src@[*old(offset) as int]) is Some
                            &&& !(ann_dec(src@.skip(*old(offset) + 1)) is Value)
                        },
                    }
                },
            },
    {
        if *offset >= src.len() {
            return Err(AnnotationError::BadOffset);
        }
        let b = src[*offset];
        let visibility = match Visibility::from_u8(b) {
            Some(v) => v,
            None => {
                return Err(AnnotationError::InvalidVisibility(b));
            },
        };
        let mut pos = *offset + 1;
        let annotation = match EncodedAnnotation::read(src, &mut pos) {
            Ok(a) => a,
            Err(e) => {
                return Err(AnnotationError::EncodedValue(e));
            },
        };
        *offset = pos;
        Ok(Annotation { visibility, annotation })
    }

    /// Appends this item's wire bytes.
    pub fn write(&self, dst: &mut Vec<u8>)
        requires
            crate::encoded_value::ann_m_wf(ann_view(self.annotation)),
        ensures
            final(dst)@ == old(dst)@ + seq![self.visibility.spec_byte()]
                + crate::encoded_value::ann_enc(ann_view(self.annotation)),
    {
        dst.push(self.visibility.to_u8());
        self.annotation.write(dst);
        assert(dst@ =~= old(dst)@ + seq![self.visibility.spec_byte()]
            + crate::encoded_value::ann_enc(ann_view(self.annotation)));
    }
}

impl Visibility {
    /// The wire byte of this visibility, for specifications.
    pub open spec fn spec_byte(&self) -> u8 {
        match self {
            Visibility::Build => 0x00,
            Visibility::Runtime => 0x01,
            Visibility::System => 0x02,
        }
    }
}

/// One field's annotation-set reference in a directory.
#[derive(Debug, Clone, Copy, PartialEq, Eq, Structural)]
pub struct FieldAnnotation {
    /// Index into the field pool.
    pub field_idx: u32,
    /// Offset of the field's annotation set.
    pub annotations_off: u32,
}

/// One method's annotation-set reference in a directory.
#[derive(Debug, Clone, Copy, PartialEq, Eq, Structural)]
pub struct MethodAnnotation {
    /// Index into the method pool.
    pub method_idx: u32,
    /// Offset of the method's annotation set.
    pub annotations_off: u32,
}

/// One method's parameter-annotation reference in a directory.
#[derive(Debug, Clone, Copy, PartialEq, Eq, Structural)]
pub struct ParameterAnnotation {
    /// Index into the method pool.
    pub method_idx: u32,
    /// Offset of the method's annotation-set reference list.
    pub annotations_off: u32,
}

/// The annotations directory of a class: the class's own annotation
/// set and the per-field, per-method and per-parameter sets.  Each
/// inner list is sorted ascending by its index in a valid file.
#[derive(Debug, PartialEq, Eq)]
pub struct AnnotationsDirectory {
    /// Offset of the class's own annotation set, or 0.
    pub class_annotations_off: u32,
    /// The field annotations, sorted by field index.
    pub field_annotations: Vec<FieldAnnotation>,
    /// The method annotations, sorted by method index.
    pub method_annotations: Vec<MethodAnnotation>,
    /// The parameter annotations, sorted by method index.
    pub parameter_annotations: Vec<ParameterAnnotation>,
}

impl AnnotationsDirectory {
    /// Whether the three inner lists are sorted ascending by their
    /// index, as the format requires of a valid file.  The decoder
    /// carries the stored order either way.
    pub open spec fn spec_sorted(&self) -> bool {
        &&& forall|i: int, j: int|
            0 <= i < j < self.field_annotations@.len() ==> (
            #[trigger] self.field_annotations@[i]).field_idx <= (
            #[trigger] self.field_annotations@[j]).field_idx
        &&& forall|i: int, j: int|
            0 <= i < j < self.method_annotations@.len() ==> (
            #[trigger] self.method_annotations@[i]).method_idx <= (
            #[trigger] self.method_annotations@[j]).method_idx
        &&& forall|i: int, j: int|
            0 <= i < j < self.parameter_annotations@.len() ==> (
            #[trigger] self.parameter_annotations@[i]).method_idx <= (
            #[trigger] self.parameter_annotations@[j]).method_idx
    }

    /// Decodes an annotations directory at the cursor; it succeeds
    /// exactly when the four header words and the three inner lists
    /// lie inside the buffer.
    pub fn read(src: &[u8], offset: &mut usize) -> (r: Result<
        AnnotationsDirectory,
        crate::codec::BadOffset,
    >)
        ensures
            ({
                let start = *old(offset) as int;
                let fs = le32_at(src@, start + 4) as int;
                let ms = le32_at(src@, start + 8) as int;
                let ps = le32_at(src@, start + 12) as int;
                let fbase = start + 16;
                let mbase = fbase + 8 * fs;
                let pbase = mbase + 8 * ms;
                &&& (r is Ok <==> start + 16 <= src@.len() && pbase + 8 * ps <= src@.len())
                &&& match r {
                    Ok(d) => {
                        &&& start + 16 <= src@.len()
                        &&& pbase + 8 * ps <= src@.len()
                        &&& d.class_annotations_off == le32_at(src@, start)
                        &&& d.field_annotations@.len() == fs
                        &&& d.method_annotations@.len() == ms
                        &&& d.parameter_annotations@.len() == ps
                        &&& forall|i: int|
                            0 <= i < fs ==> #[trigger] d.field_annotations@[i]
                                == (FieldAnnotation {
                                field_idx: le32_at(src@, fbase + 8 * i),
                                annotations_off: le32_at(src@, fbase + 8 * i + 4),
                            })
                        &&& forall|i: int|
                            0 <= i < ms ==> #[trigger] d.method_annotations@[i]
                                == (MethodAnnotation {
                                method_idx: le32_at(src@, mbase + 8 * i),
                                annotations_off: le32_at(src@, mbase + 8 * i + 4),
                            })
                        &&& forall|i: int|
                            0 <= i < ps ==> #[trigger] d.parameter_annotations@[i]
                                == (ParameterAnnotation {
                                method_idx: le32_at(src@, pbase + 8 * i),
                                annotations_off: le32_at(src@, pbase + 8 * i + 4),
                            })
                        &&& *final(offset) == pbase + 8 * ps
                    },
                    Err(_) => *final(offset) == *old(offset),
                }
            }),
    {
        let mut pos = *offset;
        let class_annotations_off = read_u32(src, &mut pos)?;
        let fields_size = read_u32(src, &mut pos)?;
        let methods_size = read_u32(src, &mut pos)?;
        let parameters_size = read_u32(src, &mut pos)?;
        let total: u64 = fields_size as u64 + methods_size as u64 + parameters_size as u64;
        let avail = src.len() - pos;
        if total > (avail as u64) / 8 {
            proof {
                vstd::arithmetic::div_mod::lemma_fundamental_div_mod(avail as int, 8);
                vstd::arithmetic::mul::lemma_mul_inequality(
                    (avail as int) / 8 + 1,
                    total as int,
                    8,
                );
                vstd::arithmetic::mul::lemma_mul_is_distributive_add(
                    8,
                    fields_size as int + methods_size as int,
                    parameters_size as int,
                );
                vstd::arithmetic::mul::lemma_mul_is_distributive_add(
                    8,
                    fields_size as int,
                    methods_size as int,
                );
            }
            return Err(crate::codec::BadOffset(pos as u64));
        }
        proof {
            vstd::arithmetic::div_mod::lemma_fundamental_div_mod(avail as int, 8);
            vstd::arithmetic::mul::lemma_mul_inequality(total as int, (avail as int) / 8, 8);
            vstd::arithmetic::mul::lemma_mul_is_distributive_add(
                8,
                fields_size as int + methods_size as int,
                parameters_size as int,
            );
            vstd::arithmetic::mul::lemma_mul_is_distributive_add(
                8,
                fields_size as int,
                methods_size as int,
            );
        }
        assert(pos + 8 * (fields_size as int) + 8 * (methods_size as int) + 8 * (
        parameters_size as int) <= src@.len());
        let ghost fbase = pos as int;
        let mut field_annotations: Vec<FieldAnnotation> = Vec::new();
        let mut i: u32 = 0;
        while i < fields_size
            invariant
                0 <= i <= fields_size,
                pos == fbase + 8 * (i as int),
                fbase + 8 * (fields_size as int) + 8 * (methods_size as int) + 8 * (
                parameters_size as int) <= src@.len(),
                field_annotations@.len() == i,
                forall|j: int|
                    0 <= j < i ==> #[trigger] field_annotations@[j] == (FieldAnnotation {
                        field_idx: le32_at(src@, fbase + 8 * j),
                        annotations_off: le32_at(src@, fbase + 8 * j + 4),
                    }),
            decreases fields_size - i,
        {
            let field_idx = match read_u32(src, &mut pos) {
                Ok(v) => v,
                Err(e) => {
                    proof {
                        assert(false);
                    }
                    return Err(e);
                },
            };
            let annotations_off = match read_u32(src, &mut pos) {
                Ok(v) => v,
                Err(e) => {
                    proof {
                        assert(false);
                    }
                    return Err(e);
                },
            };
            field_annotations.push(FieldAnnotation { field_idx, annotations_off });
            i = i + 1;
        }
        let ghost mbase = pos as int;
        let mut method_annotations: Vec<MethodAnnotation> = Vec::new();
        let mut k: u32 = 0;
        while k < methods_size
            invariant
                0 <= k <= methods_size,
                pos == mbase + 8 * (k as int),
                mbase + 8 * (methods_size as int) + 8 * (parameters_size as int) <= src@.len(),
                method_annotations@.len() == k,
                forall|j: int|
                    0 <= j < k ==> #[trigger] method_annotations@[j] == (MethodAnnotation {
                        method_idx: le32_at(src@, mbase + 8 * j),
                        annotations_off: le32_at(src@, mbase + 8 * j + 4),
                    }),
            decreases methods_size - k,
        {
            let method_idx = match read_u32(src, &mut pos) {
                Ok(v) => v,
                Err(e) => {
                    proof {
                        assert(false);
                    }
                    return Err(e);
                },
            };
            let annotations_off = match read_u32(src, &mut pos) {
                Ok(v) => v,
                Err(e) => {
                    proof {
                        assert(false);
                    }
                    return Err(e);
                },
            };
            method_annotations.push(MethodAnnotation { method_idx, annotations_off });
            k = k + 1;
        }
        let ghost pbase = pos as int;
        let mut parameter_annotations: Vec<ParameterAnnotation> = Vec::new();
        let mut m: u32 = 0;
        while m < parameters_size
            invariant
                0 <= m <= parameters_size,
                pos == pbase + 8 * (m as int),
                pbase + 8 * (parameters_size as int) <= src@.len(),
                parameter_annotations@.len() == m,
                forall|j: int|
                    0 <= j < m ==> #[trigger] parameter_annotations@[j] == (ParameterAnnotation {
                        method_idx: le32_at(src@, pbase + 8 * j),
                        annotations_off: le32_at(src@, pbase + 8 * j + 4),
                    }),
            decreases parameters_size - m,
        {
            let method_idx = match read_u32(src, &mut pos) {
                Ok(v) => v,
                Err(e) => {
                    proof {
                        assert(false);
                    }
                    return Err(e);
                },
            };
            let annotations_off = match read_u32(src, &mut pos) {
                Ok(v) => v,
                Err(e) => {
                    proof {
                        assert(false);
                    }
                    return Err(e);
                },
            };
            parameter_annotations.push(ParameterAnnotation { method_idx, annotations_off });
            m = m + 1;
        }
        *offset = pos;
        Ok(
            AnnotationsDirectory {
                class_annotations_off,
                field_annotations,
                method_annotations,
                parameter_annotations,
            },
        )
    }

    /// Appends this directory's wire bytes, keeping the stored order
    /// of each inner list.
    pub fn write(&self, dst: &mut Vec<u8>)
        requires
            self.field_annotations@.len() <= u32::MAX,
            self.method_annotations@.len() <= u32::MAX,
            self.parameter_annotations@.len() <= u32::MAX,
        ensures
            final(dst)@ == old(dst)@ + directory_bytes(self),
    {
        write_u32(dst, self.class_annotations_off);
        write_u32(dst, self.field_annotations.len() as u32);
        write_u32(dst, self.method_annotations.len() as u32);
        write_u32(dst, self.parameter_annotations.len() as u32);
        let ghost header_done = dst@;
        let mut i: usize = 0;
        while i < self.field_annotations.len()
            invariant
                0 <= i <= self.field_annotations@.len(),
                dst@ == header_done + field_anns_bytes(self.field_annotations@.take(i as int)),
            decreases self.field_annotations@.len() - i,
        {
            write_u32(dst, self.field_annotations[i].field_idx);
            write_u32(dst, self.field_annotations[i].annotations_off);
            proof {
                assert(self.field_annotations@.take(i + 1).drop_last()
                    =~= self.field_annotations@.take(i as int));
                assert(self.field_annotations@.take(i + 1).last() == self.field_annotations@[
                    i as int
                ]);
                assert(dst@ =~= header_done + field_anns_bytes(
                    self.field_annotations@.take(i + 1),
                ));
            }
            i = i + 1;
        }
        assert(self.field_annotations@.take(self.field_annotations@.len() as int)
            =~= self.field_annotations@);
        let ghost fields_done = dst@;
        let mut k: usize = 0;
        while k < self.method_annotations.len()
            invariant
                0 <= k <= self.method_annotations@.len(),
                dst@ == fields_done + method_anns_bytes(
                    self.method_annotations@.take(k as int),
                ),
            decreases self.method_annotations@.len() - k,
        {
            write_u32(dst, self.method_annotations[k].method_idx);
            write_u32(dst, self.method_annotations[k].annotations_off);
            proof {
                assert(self.method_annotations@.take(k + 1).drop_last()
                    =~= self.method_annotations@.take(k as int));
                assert(self.method_annotations@.take(k + 1).last() == self.method_annotations@[
                    k as int
                ]);
                assert(dst@ =~= fields_done + method_anns_bytes(
                    self.method_annotations@.take(k + 1),
                ));
            }
            k = k + 1;
        }
        assert(self.method_annotations@.take(self.method_annotations@.len() as int)
            =~= self.method_annotations@);
        let ghost methods_done = dst@;
        let mut m: usize = 0;
        while m < self.parameter_annotations.len()
            invariant
                0 <= m <= self.parameter_annotations@.len(),
                dst@ == methods_done + parameter_anns_bytes(
                    self.parameter_annotations@.take(m as int),
                ),
            decreases self.parameter_annotations@.len() - m,
        {
            write_u32(dst, self.parameter_annotations[m].method_idx);
            write_u32(dst, self.parameter_annotations[m].annotations_off);
            proof {
                assert(self.parameter_annotations@.take(m + 1).drop_last()
                    =~= self.parameter_annotations@.take(m as int));
                assert(self.parameter_annotations@.take(m + 1).last()
                    == self.parameter_annotations@[m as int]);
                assert(dst@ =~= methods_done + parameter_anns_bytes(
                    self.parameter_annotations@.take(m + 1),
                ));
            }
            m = m + 1;
        }
        assert(self.parameter_annotations@.take(self.parameter_annotations@.len() as int)
            =~= self.parameter_annotations@);
        assert(dst@ =~= old(dst)@ + directory_bytes(self));
    }
}

/// The wire bytes of one field-annotation entry.
pub open spec fn field_ann_bytes(e: FieldAnnotation) -> Seq<u8> {
    vstd::bytes::spec_u32_to_le_bytes(e.field_idx) + vstd::bytes::spec_u32_to_le_bytes(
        e.annotations_off,
    )
}

/// The wire bytes of one method-annotation entry.
pub open spec fn method_ann_bytes(e: MethodAnnotation) -> Seq<u8> {
    vstd::bytes::spec_u32_to_le_bytes(e.method_idx) + vstd::bytes::spec_u32_to_le_bytes(
        e.annotations_off,
    )
}

/// The wire bytes of one parameter-annotation entry.
pub open spec fn parameter_ann_bytes(e: ParameterAnnotation) -> Seq<u8> {
    vstd::bytes::spec_u32_to_le_bytes(e.method_idx) + vstd::bytes::spec_u32_to_le_bytes(
        e.annotations_off,
    )
}

/// The concatenated wire bytes of a run of field-annotation entries.
pub open spec fn field_anns_bytes(items: Seq<FieldAnnotation>) -> Seq<u8>
    decreases items.len(),
{
    if items.len() == 0 {
        Seq::empty()
    } else {
        field_anns_bytes(items.drop_last()) + field_ann_bytes(items.last())
    }
}

/// The concatenated wire bytes of a run of method-annotation entries.
pub open spec fn method_anns_bytes(items: Seq<MethodAnnotation>) -> Seq<u8>
    decreases items.len(),
{
    if items.len() == 0 {
        Seq::empty()
    } else {
        method_anns_bytes(items.drop_last()) + method_ann_bytes(items.last())
    }
}

/// The concatenated wire bytes of a run of parameter-annotation
/// entries.
pub open spec fn parameter_anns_bytes(items: Seq<ParameterAnnotation>) -> Seq<u8>
    decreases items.len(),
{
    if items.len() == 0 {
        Seq::empty()
    } else {
        parameter_anns_bytes(items.drop_last()) + parameter_ann_bytes(items.last())
    }
}

/// The wire bytes of a whole annotations directory, with its lists in
/// their stored order.
pub open spec fn directory_bytes(d: &AnnotationsDirectory) -> Seq<u8> {
    vstd::bytes::spec_u32_to_le_bytes(d.class_annotations_off) + vstd::bytes::spec_u32_to_le_bytes(
        d.field_annotations@.len() as u32,
    ) + vstd::bytes::spec_u32_to_le_bytes(d.method_annotations@.len() as u32)
        + vstd::bytes::spec_u32_to_le_bytes(d.parameter_annotations@.len() as u32)
        + field_anns_bytes(d.field_annotations@) + method_anns_bytes(d.method_annotations@)
        + parameter_anns_bytes(d.parameter_annotations@)
}

/// A list of annotation-set offsets, one per parameter.
#[derive(Debug, PartialEq, Eq)]
pub struct AnnotationSetRefList(pub Vec<u32>);

impl AnnotationSetRefList {
    /// The stored offsets.
    pub fn into_inner(self) -> (r: Vec<u32>)
        ensures
            r@ == self.0@,
    {
        self.0
    }

    /// Decodes an annotation-set reference list at the cursor; it succeeds
    /// exactly when the count word and all its entries lie inside the
    /// buffer.
    pub fn read(src: &[u8], offset: &mut usize) -> (r: Result<
        AnnotationSetRefList,
        crate::codec::BadOffset,
    >)
        ensures
            r is Ok <==> *old(offset) + 4 <= src@.len() && *old(offset) + 4 + 4 * (le32_at(
                src@,
                *old(offset) as int,
            ) as int) <= src@.len(),
            match r {
                Ok(l) => {
                    &&& *old(offset) + 4 <= src@.len()
                    &&& l.0@.len() == le32_at(src@, *old(offset) as int)
                    &&& forall|i: int|
                        0 <= i < l.0@.len() ==> l.0@[i] == le32_at(
                            src@,
                            *old(offset) + 4 + 4 * i,
                        )
                    &&& *final(offset) == *old(offset) + 4 + 4 * l.0@.len()
                },
                Err(_) => *final(offset) == *old(offset),
            },
    {
        let items = read_u32_list(src, offset)?;
        Ok(AnnotationSetRefList(items))
    }
}

/// The offsets of the annotation items of one annotation set.
#[derive(Debug, PartialEq, Eq)]
pub struct AnnotationSetItem(pub Vec<u32>);

impl AnnotationSetItem {
    /// The stored offsets.
    pub fn into_inner(self) -> (r: Vec<u32>)
        ensures
            r@ == self.0@,
    {
        self.0
    }

    /// Decodes an annotation set at the cursor; it succeeds
    /// exactly when the count word and all its entries lie inside the
    /// buffer.
    pub fn read(src: &[u8], offset: &mut usize) -> (r: Result<
        AnnotationSetItem,
        crate::codec::BadOffset,
    >)
        ensures
            r is Ok <==> *old(offset) + 4 <= src@.len() && *old(offset) + 4 + 4 * (le32_at(
                src@,
                *old(offset) as int,
            ) as int) <= src@.len(),
            match r {
                Ok(l) => {
                    &&& *old(offset) + 4 <= src@.len()
                    &&& l.0@.len() == le32_at(src@, *old(offset) as int)
                    &&& forall|i: int|
                        0 <= i < l.0@.len() ==> l.0@[i] == le32_at(
                            src@,
                            *old(offset) + 4 + 4 * i,
                        )
                    &&& *final(offset) == *old(offset) + 4 + 4 * l.0@.len()
                },
                Err(_) => *final(offset) == *old(offset),
            },
    {
        let items = read_u32_list(src, offset)?;
        Ok(AnnotationSetItem(items))
    }
}

/// Reads a `u32` count followed by that many `u32` entries.
fn read_u32_list(src: &[u8], offset: &mut usize) -> (r: Result<Vec<u32>, crate::codec::BadOffset>)
    ensures
        r is Ok <==> *old(offset) + 4 <= src@.len() && *old(offset) + 4 + 4 * (le32_at(
            src@,
            *old(offset) as int,
        ) as int) <= src@.len(),
        match r {
            Ok(l) => {
                &&& *old(offset) + 4 <= src@.len()
                &&& l@.len() == le32_at(src@, *old(offset) as int)
                &&& forall|i: int|
                    0 <= i < l@.len() ==> l@[i] == le32_at(src@, *old(offset) + 4 + 4 * i)
                &&& *final(offset) == *old(offset) + 4 + 4 * l@.len()
            },
            Err(_) => *final(offset) == *old(offset),
        },
{
    let mut pos = *offset;
    let size = read_u32(src, &mut pos)?;
    let avail = src.len() - pos;
    if (size as u64) > (avail as u64) / 4 {
        proof {
            vstd::arithmetic::div_mod::lemma_fundamental_div_mod(avail as int, 4);
            vstd::arithmetic::mul::lemma_mul_inequality((avail as int) / 4 + 1, size as int, 4);
        }
        return Err(crate::codec::BadOffset(pos as u64));
    }
    proof {
        vstd::arithmetic::div_mod::lemma_fundamental_div_mod(avail as int, 4);
        vstd::arithmetic::mul::lemma_mul_inequality(size as int, (avail as int) / 4, 4);
    }
    assert(pos + 4 * (size as int) <= src@.len());
    let ghost base = pos as int;
    let mut items: Vec<u32> = Vec::new();
    let mut i: u32 = 0;
    while i < size
        invariant
            0 <= i <= size,
            pos == base + 4 * (i as int),
            base == *old(offset) + 4,
            base + 4 * (size as int) <= src@.len(),
            items@.len() == i,
            forall|j: int| 0 <= j < i ==> items@[j] == le32_at(src@, base + 4 * j),
        decreases size - i,
    {
        let v = match read_u32(src, &mut pos) {
            Ok(v) => v,
            Err(e) => {
                proof {
                    assert(false);
                }
                return Err(e);
            },
        };
        items.push(v);
        i = i + 1;
    }
    *offset = pos;
    Ok(items)
}

} // verus!
