//! The field view: one field of a class, with its reconstructed pool
//! index, resolved identity and optional initial value.

use crate::annotations::{Annotation, AnnotationsDirectory};
use crate::codec::le32_at;
use crate::dex::DexFile;
use crate::encoded_value::EncodedValue;
use crate::flags::AccessFlags;
use crate::mutf8::mutf8_decoded;
use crate::simple::FieldId;
use crate::strings::string_bytes_at;
use crate::Error;
use vstd::prelude::*;

verus! {

/// One field of a class.
pub struct DexField<'a> {
    /// The file the field belongs to.
    pub dex: &'a DexFile<'a>,
    /// The reconstructed absolute index into the field pool.
    pub idx: u64,
    /// The field's identity record.
    pub fid: FieldId,
    /// Index into the type pool of the defining class.
    pub class_type_idx: u32,
    /// Access flags for the field.
    pub access_flags: AccessFlags,
    /// The field's initial value, for static fields the static-value
    /// array covers.
    pub initial_value: Option<EncodedValue>,
}

impl<'a> DexField<'a> {
    /// The descriptor of the class that declares this field; it
    /// succeeds exactly when that type is resolvable.
    pub fn defining_class(&self) -> (r: Result<String, Error>)
        requires
            self.dex.wf(),
        ensures
            r is Ok <==> self.dex.strings.spec_type_resolvable(self.class_type_idx as int),
            r matches Ok(s) ==> mutf8_decoded(
                self.dex.strings.spec_type_desc_bytes(self.class_type_idx as int),
            ) == Some(s@),
    {
        resolve_type(self.dex, self.class_type_idx)
    }

    /// The field's name; it succeeds exactly when the name string is
    /// resolvable.
    pub fn name(&self) -> (r: Result<String, Error>)
        requires
            self.dex.wf(),
        ensures
            r is Ok <==> self.dex.strings.spec_string_resolvable(self.fid.name_idx as int),
            r matches Ok(s) ==> {
                &&& self.fid.name_idx < self.dex.strings.string_ids_size
                &&& mutf8_decoded(
                    string_bytes_at(
                        self.dex.src@,
                        self.dex.strings.spec_id_at(self.fid.name_idx as int) as int,
                    ),
                ) == Some(s@)
            },
    {
        resolve_string(self.dex, self.fid.name_idx)
    }

    /// The descriptor of the field's type; it succeeds exactly when
    /// that type is resolvable.
    pub fn descriptor(&self) -> (r: Result<String, Error>)
        requires
            self.dex.wf(),
        ensures
            r is Ok <==> self.dex.strings.spec_type_resolvable(self.fid.type_idx as int),
            r matches Ok(s) ==> mutf8_decoded(
                self.dex.strings.spec_type_desc_bytes(self.fid.type_idx as int),
            ) == Some(s@),
    {
        resolve_type(self.dex, self.fid.type_idx as u32)
    }

    /// Access flags for the field.
    pub fn access_flags(&self) -> (r: &AccessFlags)
        ensures
            r == &self.access_flags,
    {
        &self.access_flags
    }

    /// The field's initial value, if the class records one.
    pub fn initial_value(&self) -> (r: Option<&EncodedValue>)
        ensures
            match r {
                Some(v) => self.initial_value matches Some(w) && v == &w,
                None => self.initial_value is None,
            },
    {
        self.initial_value.as_ref()
    }

    /// The annotations attached to this field: the annotations of
    /// every directory entry whose field index is this field's
    /// reconstructed index, in directory order.
    pub fn annotations(&self, dir: &AnnotationsDirectory) -> (r: Result<Vec<Annotation>, Error>)
        requires
            self.dex.wf(),
        ensures
            r is Ok <==> spec_sets_ok(
                self.dex.src@,
                spec_filtered_sets(field_entry_pairs(dir), self.idx),
            ),
            r matches Ok(v) ==> ann_views_of(v@) == spec_sets_views(
                self.dex.src@,
                spec_filtered_sets(field_entry_pairs(dir), self.idx),
            ),
    {
        let entries = field_entries(dir);
        collect_annotations(self.dex, &entries, self.idx)
    }
}

/// Resolves a type-pool index to its descriptor string; it succeeds
/// exactly when the type is resolvable.
pub fn resolve_type(dex: &DexFile<'_>, type_idx: u32) -> (r: Result<String, Error>)
    requires
        dex.wf(),
    ensures
        r is Ok <==> dex.strings.spec_type_resolvable(type_idx as int),
        r matches Ok(s) ==> mutf8_decoded(dex.strings.spec_type_desc_bytes(type_idx as int))
            == Some(s@),
        r matches Err(e) ==> e is StringRead,
{
    let id = match dex.strings.id_at_type_idx(type_idx) {
        Ok(id) => id,
        Err(e) => {
            return Err(Error::StringRead(e));
        },
    };
    match dex.strings.get(&id) {
        Ok(s) => Ok(s),
        Err(e) => Err(Error::StringRead(e)),
    }
}

/// Resolves a string-pool index to its string; it succeeds exactly
/// when the string is resolvable.
pub fn resolve_string(dex: &DexFile<'_>, idx: u32) -> (r: Result<String, Error>)
    requires
        dex.wf(),
    ensures
        r is Ok <==> dex.strings.spec_string_resolvable(idx as int),
        r matches Ok(s) ==> {
            &&& idx < dex.strings.string_ids_size
            &&& mutf8_decoded(
                string_bytes_at(dex.src@, dex.strings.spec_id_at(idx as int) as int),
            ) == Some(s@)
        },
        r matches Err(e) ==> e is StringRead,
{
    let id = match dex.strings.id_at(idx) {
        Ok(id) => id,
        Err(e) => {
            return Err(Error::StringRead(e));
        },
    };
    match dex.strings.get(&id) {
        Ok(s) => Ok(s),
        Err(e) => Err(Error::StringRead(e)),
    }
}

/// The `(index, set offset)` pairs of a directory's field entries.
pub open spec fn field_entry_pairs(dir: &AnnotationsDirectory) -> Seq<(u32, u32)> {
    Seq::new(
        dir.field_annotations@.len(),
        |i: int|
            (dir.field_annotations@[i].field_idx, dir.field_annotations@[i].annotations_off),
    )
}

/// The `(index, set offset)` pairs of a directory's method entries.
pub open spec fn method_entry_pairs(dir: &AnnotationsDirectory) -> Seq<(u32, u32)> {
    Seq::new(
        dir.method_annotations@.len(),
        |i: int|
            (dir.method_annotations@[i].method_idx, dir.method_annotations@[i].annotations_off),
    )
}

/// The `(index, set offset)` pairs of a directory's parameter
/// entries.
pub open spec fn parameter_entry_pairs(dir: &AnnotationsDirectory) -> Seq<(u32, u32)> {
    Seq::new(
        dir.parameter_annotations@.len(),
        |i: int|
            (
                dir.parameter_annotations@[i].method_idx,
                dir.parameter_annotations@[i].annotations_off,
            ),
    )
}

/// The field entries of a directory as plain pairs.
pub(crate) fn field_entries(dir: &AnnotationsDirectory) -> (r: Vec<(u32, u32)>)
    ensures
        r@ == field_entry_pairs(dir),
{
    let mut out: Vec<(u32, u32)> = Vec::new();
    let mut i: usize = 0;
    while i < dir.field_annotations.len()
        invariant
            0 <= i <= dir.field_annotations@.len(),
            out@.len() == i,
            forall|j: int| 0 <= j < i ==> out@[j] == field_entry_pairs(dir)[j],
        decreases dir.field_annotations@.len() - i,
    {
        let e = dir.field_annotations[i];
        out.push((e.field_idx, e.annotations_off));
        i = i + 1;
    }
    assert(out@ =~= field_entry_pairs(dir));
    out
}

/// The method entries of a directory as plain pairs.
pub(crate) fn method_entries(dir: &AnnotationsDirectory) -> (r: Vec<(u32, u32)>)
    ensures
        r@ == method_entry_pairs(dir),
{
    let mut out: Vec<(u32, u32)> = Vec::new();
    let mut i: usize = 0;
    while i < dir.method_annotations.len()
        invariant
            0 <= i <= dir.method_annotations@.len(),
            out@.len() == i,
            forall|j: int| 0 <= j < i ==> out@[j] == method_entry_pairs(dir)[j],
        decreases dir.method_annotations@.len() - i,
    {
        let e = dir.method_annotations[i];
        out.push((e.method_idx, e.annotations_off));
        i = i + 1;
    }
    assert(out@ =~= method_entry_pairs(dir));
    out
}

/// The parameter entries of a directory as plain pairs.
pub(crate) fn parameter_entries(dir: &AnnotationsDirectory) -> (r: Vec<(u32, u32)>)
    ensures
        r@ == parameter_entry_pairs(dir),
{
    let mut out: Vec<(u32, u32)> = Vec::new();
    let mut i: usize = 0;
    while i < dir.parameter_annotations.len()
        invariant
            0 <= i <= dir.parameter_annotations@.len(),
            out@.len() == i,
            forall|j: int| 0 <= j < i ==> out@[j] == parameter_entry_pairs(dir)[j],
        decreases dir.parameter_annotations@.len() - i,
    {
        let e = dir.parameter_annotations[i];
        out.push((e.method_idx, e.annotations_off));
        i = i + 1;
    }
    assert(out@ =~= parameter_entry_pairs(dir));
    out
}

/// Reads the annotation offsets of the annotation set at `off`; it
/// succeeds exactly when the count word and the offsets lie inside
/// the buffer.
pub(crate) fn read_annotation_set(dex: &DexFile<'_>, off: u32) -> (r: Result<Vec<u32>, Error>)
    requires
        dex.wf(),
    ensures
        r is Ok <==> off + 4 <= dex.src@.len() && off + 4 + 4 * (le32_at(
            dex.src@,
            off as int,
        ) as int) <= dex.src@.len(),
        r matches Ok(v) ==> {
            &&& v@.len() == le32_at(dex.src@, off as int)
            &&& forall|i: int| 0 <= i < v@.len() ==> v@[i] == le32_at(dex.src@, off + 4 + 4 * i)
        },
{
    if off as u64 > dex.src.len() as u64 {
        return Err(Error::Section(crate::section::SectionError::BadOffset(off as u64)));
    }
    let mut pos = off as usize;
    match crate::annotations::AnnotationSetItem::read(dex.src, &mut pos) {
        Ok(set) => Ok(set.into_inner()),
        Err(e) => Err(Error::Section(crate::section::SectionError::BadOffset(e.0))),
    }
}

/// Reads the annotation item at `off`; it succeeds exactly when an
/// annotation parses there.
pub(crate) fn read_annotation(dex: &DexFile<'_>, off: u32) -> (r: Result<Annotation, Error>)
    requires
        dex.wf(),
    ensures
        r is Ok <==> spec_ann_ok(dex.src@, off as int),
        r matches Ok(a) ==> ann_pair_view(a) == spec_ann_view_at(dex.src@, off as int),
{
    if off as u64 > dex.src.len() as u64 {
        return Err(Error::Section(crate::section::SectionError::BadOffset(off as u64)));
    }
    let mut pos = off as usize;
    match Annotation::read(dex.src, &mut pos) {
        Ok(a) => Ok(a),
        Err(e) => Err(Error::Annotation(e)),
    }
}


/// The visibility-and-body view of a resolved annotation.
pub open spec fn ann_pair_view(a: Annotation) -> (crate::annotations::Visibility, crate::encoded_value::AnnModel) {
    (a.visibility, crate::encoded_value::ann_view(a.annotation))
}

/// The views of a run of annotations, element by element.
pub open spec fn ann_views_of(items: Seq<Annotation>) -> Seq<
    (crate::annotations::Visibility, crate::encoded_value::AnnModel),
> {
    Seq::new(items.len(), |i: int| ann_pair_view(items[i]))
}

/// Whether an annotation item parses at `off`: a defined visibility
/// byte and a well-formed encoded annotation.
pub open spec fn spec_ann_ok(s: Seq<u8>, off: int) -> bool {
    &&& 0 <= off < s.len()
    &&& crate::annotations::spec_visibility_from_u8(s[off]) is Some
    &&& crate::encoded_value::ann_dec(s.skip(off + 1)) is Value
}

/// The view of the annotation item at `off`, when it parses.
pub open spec fn spec_ann_view_at(s: Seq<u8>, off: int) -> (
    crate::annotations::Visibility,
    crate::encoded_value::AnnModel,
) {
    (
        crate::annotations::spec_visibility_from_u8(s[off])->Some_0,
        crate::encoded_value::ann_dec(s.skip(off + 1))->Value_0,
    )
}

/// Whether the annotation set at `off` parses whole: the count word,
/// its offsets, and every item they name.
pub open spec fn spec_set_ok(s: Seq<u8>, off: int) -> bool {
    &&& off + 4 <= s.len()
    &&& off + 4 + 4 * (le32_at(s, off) as int) <= s.len()
    &&& forall|i: int|
        0 <= i < le32_at(s, off) ==> spec_ann_ok(s, #[trigger] le32_at(s, off + 4 + 4 * i) as int)
}

/// The views of the annotations of the set at `off`, in set order.
pub open spec fn spec_set_views(s: Seq<u8>, off: int) -> Seq<
    (crate::annotations::Visibility, crate::encoded_value::AnnModel),
> {
    Seq::new(
        le32_at(s, off) as nat,
        |i: int| spec_ann_view_at(s, le32_at(s, off + 4 + 4 * i) as int),
    )
}

/// The set offsets of the directory entries whose index is `idx`, in
/// directory order.
pub open spec fn spec_filtered_sets(entries: Seq<(u32, u32)>, idx: u64) -> Seq<u32>
    decreases entries.len(),
{
    if entries.len() == 0 {
        Seq::empty()
    } else {
        let rest = spec_filtered_sets(entries.drop_last(), idx);
        if entries.last().0 as u64 == idx {
            rest + seq![entries.last().1]
        } else {
            rest
        }
    }
}

/// Whether every set in a run parses whole.
pub open spec fn spec_sets_ok(s: Seq<u8>, sets: Seq<u32>) -> bool {
    forall|i: int| 0 <= i < sets.len() ==> spec_set_ok(s, (#[trigger] sets[i]) as int)
}

/// The concatenated views of the annotations of a run of sets.
pub open spec fn spec_sets_views(s: Seq<u8>, sets: Seq<u32>) -> Seq<
    (crate::annotations::Visibility, crate::encoded_value::AnnModel),
>
    decreases sets.len(),
{
    if sets.len() == 0 {
        Seq::empty()
    } else {
        spec_sets_views(s, sets.drop_last()) + spec_set_views(s, sets.last() as int)
    }
}

/// Reads and resolves every annotation of the set at `off`; it
/// succeeds exactly when the whole set parses.
#[verifier::loop_isolation(false)]
pub(crate) fn read_set_annotations(dex: &DexFile<'_>, off: u32) -> (r: Result<
    Vec<Annotation>,
    Error,
>)
    requires
        dex.wf(),
    ensures
        r is Ok <==> spec_set_ok(dex.src@, off as int),
        r matches Ok(v) ==> ann_views_of(v@) == spec_set_views(dex.src@, off as int),
{
    let offs = read_annotation_set(dex, off)?;
    let mut out: Vec<Annotation> = Vec::new();
    let mut k: usize = 0;
    while k < offs.len()
        invariant
            0 <= k <= offs@.len(),
            dex.wf(),
            out@.len() == k,
            offs@.len() == le32_at(dex.src@, off as int),
            forall|i: int| 0 <= i < offs@.len() ==> offs@[i] == le32_at(dex.src@, off + 4 + 4 * i),
            forall|q: int|
                0 <= q < k ==> spec_ann_ok(dex.src@, (#[trigger] offs@[q]) as int)
                    && ann_pair_view(out@[q]) == spec_ann_view_at(dex.src@, offs@[q] as int),
        decreases offs@.len() - k,
    {
        let item_off = offs[k];
        let a = read_annotation(dex, item_off)?;
        out.push(a);
        k = k + 1;
    }
    proof {
        assert forall|q: int|
            0 <= q < out@.len() implies ann_views_of(out@)[q] == spec_set_views(
            dex.src@,
            off as int,
        )[q] by {
            assert(offs@[q] == le32_at(dex.src@, off + 4 + 4 * q));
            assert(ann_pair_view(out@[q]) == spec_ann_view_at(dex.src@, offs@[q] as int));
        }
        assert(ann_views_of(out@) =~= spec_set_views(dex.src@, off as int));
        assert forall|i: int|
            0 <= i < le32_at(dex.src@, off as int) implies spec_ann_ok(
            dex.src@,
            (#[trigger] le32_at(dex.src@, off + 4 + 4 * i)) as int,
        ) by {
            assert(offs@[i] == le32_at(dex.src@, off + 4 + 4 * i));
            assert(spec_ann_ok(dex.src@, offs@[i] as int));
        }
        assert(spec_set_ok(dex.src@, off as int));
    }
    Ok(out)
}

/// Appending one entry extends the filtered set run by that entry's
/// set when it matches, and leaves it unchanged otherwise.
proof fn lemma_filtered_snoc(entries: Seq<(u32, u32)>, idx: u64, i: int)
    requires
        0 <= i < entries.len(),
    ensures
        spec_filtered_sets(entries.take(i + 1), idx) == if entries[i].0 as u64 == idx {
            spec_filtered_sets(entries.take(i), idx) + seq![entries[i].1]
        } else {
            spec_filtered_sets(entries.take(i), idx)
        },
{
    assert(entries.take(i + 1).drop_last() =~= entries.take(i));
    assert(entries.take(i + 1).last() == entries[i]);
}

/// Moves the annotations of `more` to the end of `out`.
fn append_annotations(out: &mut Vec<Annotation>, more: Vec<Annotation>)
    ensures
        final(out)@ == old(out)@ + more@,
{
    let mut rest = more;
    let ghost whole = rest@;
    while rest.len() > 0
        invariant
            out@ + rest@ == old(out)@ + whole,
        decreases rest@.len(),
    {
        let ghost pre_out = out@;
        let ghost pre_rest = rest@;
        let a = rest.remove(0);
        out.push(a);
        proof {
            assert(out@ =~= pre_out.push(a));
            assert(rest@ =~= pre_rest.skip(1));
            assert(out@ + rest@ =~= pre_out + pre_rest);
        }
    }
    assert(out@ =~= out@ + rest@);
}

/// Reads and resolves the annotations of every directory entry whose
/// index is `idx`, in directory order; it succeeds exactly when every
/// matching set parses whole.
#[verifier::loop_isolation(false)]
pub(crate) fn collect_annotations(dex: &DexFile<'_>, entries: &Vec<(u32, u32)>, idx: u64) -> (r:
    Result<Vec<Annotation>, Error>)
    requires
        dex.wf(),
    ensures
        r is Ok <==> spec_sets_ok(dex.src@, spec_filtered_sets(entries@, idx)),
        r matches Ok(v) ==> ann_views_of(v@) == spec_sets_views(
            dex.src@,
            spec_filtered_sets(entries@, idx),
        ),
{
    let mut out: Vec<Annotation> = Vec::new();
    let mut i: usize = 0;
    while i < entries.len()
        invariant
            0 <= i <= entries@.len(),
            dex.wf(),
            spec_sets_ok(dex.src@, spec_filtered_sets(entries@.take(i as int), idx)),
            ann_views_of(out@) == spec_sets_views(
                dex.src@,
                spec_filtered_sets(entries@.take(i as int), idx),
            ),
        decreases entries@.len() - i,
    {
        let ghost pre_sets = spec_filtered_sets(entries@.take(i as int), idx);
        proof {
            lemma_filtered_snoc(entries@, idx, i as int);
        }
        let e = entries[i];
        if e.0 as u64 == idx {
            let part = match read_set_annotations(dex, e.1) {
                Ok(p) => p,
                Err(err) => {
                    proof {
                        let bad = spec_filtered_sets(entries@, idx);
                        lemma_filtered_prefix(entries@, idx, i as int);
                    }
                    return Err(err);
                },
            };
            let ghost pre_out = out@;
            append_annotations(&mut out, part);
            proof {
                assert(ann_views_of(out@) =~= ann_views_of(pre_out) + spec_set_views(
                    dex.src@,
                    e.1 as int,
                ));
                assert(ann_views_of(out@) =~= spec_sets_views(
                    dex.src@,
                    spec_filtered_sets(entries@.take(i + 1), idx),
                )) by {
                    assert(spec_filtered_sets(entries@.take(i + 1), idx).drop_last()
                        =~= pre_sets);
                }
                assert(spec_sets_ok(
                    dex.src@,
                    spec_filtered_sets(entries@.take(i + 1), idx),
                )) by {
                    let new_sets = spec_filtered_sets(entries@.take(i + 1), idx);
                    assert forall|q: int|
                        0 <= q < new_sets.len() implies spec_set_ok(
                        dex.src@,
                        (#[trigger] new_sets[q]) as int,
                    ) by {
                        if q < pre_sets.len() {
                            assert(new_sets[q] == pre_sets[q]);
                        } else {
                            assert(new_sets[q] == e.1);
                        }
                    }
                }
            }
        }
        i = i + 1;
    }
    proof {
        assert(entries@.take(entries@.len() as int) =~= entries@);
    }
    Ok(out)
}

/// Every set filtered from a prefix of the entries is filtered from
/// the whole: the whole run's sets contain the prefix's and the entry
/// at `i` when it matches.
proof fn lemma_filtered_prefix(entries: Seq<(u32, u32)>, idx: u64, i: int)
    requires
        0 <= i < entries.len(),
        entries[i].0 as u64 == idx,
    ensures
        exists|q: int|
            0 <= q < spec_filtered_sets(entries, idx).len() && (#[trigger] spec_filtered_sets(
                entries,
                idx,
            )[q]) == entries[i].1,
    decreases entries.len(),
{
    if i == entries.len() - 1 {
        assert(entries.drop_last() =~= entries.take(entries.len() - 1));
        let f = spec_filtered_sets(entries, idx);
        assert(f[f.len() - 1] == entries[i].1);
    } else {
        lemma_filtered_prefix(entries.drop_last(), idx, i);
        assert(entries.drop_last()[i] == entries[i]);
        let fp = spec_filtered_sets(entries.drop_last(), idx);
        let f = spec_filtered_sets(entries, idx);
        let q = choose|q: int| 0 <= q < fp.len() && (#[trigger] fp[q]) == entries[i].1;
        assert(f[q] == entries[i].1);
    }
}

} // verus!
