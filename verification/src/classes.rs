//! The class view: one class definition with its decoded member
//! lists, reconstructed member indices and resolved names.

use crate::annotations::{Annotation, AnnotationsDirectory};
use crate::class_data::{member_index_at, ClassData, EncodedField, EncodedMethod};
use crate::classdef::{ClassDef, NO_INDEX};
use crate::codec::{le16_at, le32_at};
use crate::dex::DexFile;
use crate::encoded_value::{ev_view, evs_view, lemma_evs_view, spec_encoded_array_at, EncodedArray, EncodedValue};
use crate::fields::{resolve_string, resolve_type, DexField};
use crate::flags::AccessFlags;
use crate::methods::DexMethod;
use crate::mutf8::mutf8_decoded;
use crate::Error;
use vstd::prelude::*;

verus! {

/// The stored index differences of a field run.
pub open spec fn field_diffs(efs: Seq<EncodedField>) -> Seq<nat> {
    Seq::new(efs.len(), |i: int| efs[i].field_idx_diff as nat)
}

/// The stored index differences of a method run.
pub open spec fn method_diffs(ems: Seq<EncodedMethod>) -> Seq<nat> {
    Seq::new(ems.len(), |i: int| ems[i].method_idx_diff as nat)
}

/// Whether the `k`-th member of a field run can be resolved: its
/// reconstructed index lies inside the field pool.
pub open spec fn spec_field_entry_ok(d: &DexFile<'_>, raw: Seq<EncodedField>, k: int) -> bool {
    member_index_at(field_diffs(raw), k) < d.header.field_ids_size
}

/// Whether the `k`-th member of a method run can be resolved: its
/// reconstructed index lies inside the method pool and the method's
/// prototype index lies inside the proto pool.
pub open spec fn spec_method_entry_ok(d: &DexFile<'_>, raw: Seq<EncodedMethod>, k: int) -> bool {
    &&& member_index_at(method_diffs(raw), k) < d.header.method_ids_size
    &&& (le16_at(
        d.src@,
        d.header.method_ids_off + 8 * (member_index_at(method_diffs(raw), k) as int) + 2,
    ) as int) < d.header.proto_ids_size
}

/// One class of a DEX file.
pub struct DexClass<'a> {
    /// The file the class belongs to.
    pub dex: &'a DexFile<'a>,
    /// The class-definition record.
    pub def: ClassDef,
    /// The class's member lists; absent when the class has no data.
    pub data: Option<ClassData>,
}

impl<'a> DexClass<'a> {
    /// Whether the static-value array (when recorded) parses.
    pub open spec fn spec_static_values_ok(&self) -> bool {
        self.def.static_values_off == 0 || (self.def.static_values_off <= self.dex.src@.len()
            && spec_encoded_array_at(self.dex.src@, self.def.static_values_off as int) is Some)
    }

    /// Whether every static field of the class can be resolved.
    pub open spec fn spec_static_fields_ok(&self) -> bool {
        self.data is None || (self.spec_static_values_ok() && forall|k: int|
            0 <= k < (self.data->Some_0).static_fields@.len()
                ==> #[trigger] spec_field_entry_ok(
                self.dex,
                (self.data->Some_0).static_fields@,
                k,
            ))
    }

    /// Whether every instance field of the class can be resolved.
    pub open spec fn spec_instance_fields_ok(&self) -> bool {
        self.data is None || (forall|k: int|
            0 <= k < (self.data->Some_0).instance_fields@.len()
                ==> #[trigger] spec_field_entry_ok(
                self.dex,
                (self.data->Some_0).instance_fields@,
                k,
            ))
    }

    /// Whether every direct method of the class can be resolved.
    pub open spec fn spec_direct_methods_ok(&self) -> bool {
        self.data is None || (forall|k: int|
            0 <= k < (self.data->Some_0).direct_methods@.len()
                ==> #[trigger] spec_method_entry_ok(
                self.dex,
                (self.data->Some_0).direct_methods@,
                k,
            ))
    }

    /// Whether every virtual method of the class can be resolved.
    pub open spec fn spec_virtual_methods_ok(&self) -> bool {
        self.data is None || (forall|k: int|
            0 <= k < (self.data->Some_0).virtual_methods@.len()
                ==> #[trigger] spec_method_entry_ok(
                self.dex,
                (self.data->Some_0).virtual_methods@,
                k,
            ))
    }

    /// Builds the view of one class, decoding its class data when the
    /// definition points at some.
    pub fn new(dex: &'a DexFile<'a>, def: ClassDef) -> (r: Result<DexClass<'a>, Error>)
        requires
            dex.wf(),
        ensures
            match r {
                Ok(c) => {
                    &&& c.dex == dex
                    &&& c.def == def
                    &&& (def.class_data_off == 0 <==> c.data is None)
                    &&& c.data matches Some(cd) ==> {
                        &&& cd.static_fields@.len() == cd.static_fields_size
                        &&& cd.instance_fields@.len() == cd.instance_fields_size
                        &&& cd.direct_methods@.len() == cd.direct_methods_size
                        &&& cd.virtual_methods@.len() == cd.virtual_methods_size
                        &&& exists|end: int|
                            crate::class_data::class_data_parts_ok(
                                cd,
                                dex.src@,
                                def.class_data_off as int,
                                end,
                            )
                    }
                },
                Err(_) => def.class_data_off != 0,
            },
            r is Ok <==> (def.class_data_off == 0 || (def.class_data_off <= dex.src@.len()
                && crate::class_data::class_data_ok(dex.src@, def.class_data_off as int))),
    {
        if def.class_data_off == 0 {
            return Ok(DexClass { dex, def, data: None });
        }
        if def.class_data_off as u64 > dex.src.len() as u64 {
            return Err(Error::Section(
                crate::section::SectionError::BadOffset(def.class_data_off as u64),
            ));
        }
        let mut pos = def.class_data_off as usize;
        let cd = match ClassData::read(dex.src, &mut pos) {
            Ok(cd) => cd,
            Err(e) => {
                return Err(Error::ClassData(e));
            },
        };
        proof {
            assert(crate::class_data::class_data_parts_ok(
                cd,
                dex.src@,
                def.class_data_off as int,
                pos as int,
            ));
        }
        Ok(DexClass { dex, def, data: Some(cd) })
    }

    /// The class's type descriptor; it succeeds exactly when the
    /// class's type is resolvable.
    pub fn descriptor(&self) -> (r: Result<String, Error>)
        requires
            self.dex.wf(),
        ensures
            r is Ok <==> self.dex.strings.spec_type_resolvable(self.def.class_idx as int),
            r matches Ok(s) ==> mutf8_decoded(
                self.dex.strings.spec_type_desc_bytes(self.def.class_idx as int),
            ) == Some(s@),
    {
        resolve_type(self.dex, self.def.class_idx)
    }

    /// The superclass descriptor, or `None` for a root class (one
    /// whose superclass index is the `NO_INDEX` sentinel).
    pub fn superclass(&self) -> (r: Result<Option<String>, Error>)
        requires
            self.dex.wf(),
        ensures
            self.def.superclass_idx == NO_INDEX <==> (r matches Ok(o) && o is None),
            self.def.superclass_idx != NO_INDEX ==> (r is Ok
                <==> self.dex.strings.spec_type_resolvable(self.def.superclass_idx as int)),
            r matches Ok(o) ==> (o matches Some(s) ==> mutf8_decoded(
                self.dex.strings.spec_type_desc_bytes(self.def.superclass_idx as int),
            ) == Some(s@)),
    {
        if self.def.superclass_idx == NO_INDEX {
            return Ok(None);
        }
        match resolve_type(self.dex, self.def.superclass_idx) {
            Ok(s) => Ok(Some(s)),
            Err(e) => Err(e),
        }
    }

    /// Access flags for the class.
    pub fn access_flags(&self) -> (r: &AccessFlags)
        ensures
            r == &self.def.access_flags,
    {
        &self.def.access_flags
    }

    /// The source-file name, or `None` when the file records none
    /// (the index is the `NO_INDEX` sentinel).
    pub fn source_file(&self) -> (r: Result<Option<String>, Error>)
        requires
            self.dex.wf(),
        ensures
            self.def.source_file_idx == NO_INDEX <==> (r matches Ok(o) && o is None),
            self.def.source_file_idx != NO_INDEX ==> (r is Ok
                <==> self.dex.strings.spec_string_resolvable(self.def.source_file_idx as int)),
            r matches Ok(o) ==> (o matches Some(s) ==> mutf8_decoded(
                crate::strings::string_bytes_at(
                    self.dex.src@,
                    self.dex.strings.spec_id_at(self.def.source_file_idx as int) as int,
                ),
            ) == Some(s@)),
    {
        if self.def.source_file_idx == NO_INDEX {
            return Ok(None);
        }
        match resolve_string(self.dex, self.def.source_file_idx) {
            Ok(s) => Ok(Some(s)),
            Err(e) => Err(e),
        }
    }

    /// The descriptors of the class's interfaces; empty when the
    /// interface-list offset is 0.
    #[verifier::loop_isolation(false)]
    pub fn interfaces(&self) -> (r: Result<Vec<String>, Error>)
        requires
            self.dex.wf(),
        ensures
            self.def.interfaces_off == 0 ==> (r matches Ok(v) && v@.len() == 0),
            self.def.interfaces_off != 0 ==> (r is Ok <==> {
                let n = le32_at(self.dex.src@, self.def.interfaces_off as int) as int;
                &&& self.def.interfaces_off + 4 <= self.dex.src@.len()
                &&& self.def.interfaces_off + 4 + 2 * n <= self.dex.src@.len()
                &&& forall|i: int|
                    0 <= i < n ==> self.dex.strings.spec_type_resolvable(
                        (#[trigger] le16_at(
                            self.dex.src@,
                            self.def.interfaces_off + 4 + 2 * i,
                        )) as int,
                    )
            }),
            r matches Ok(v) ==> (self.def.interfaces_off != 0 ==> v@.len() == le32_at(
                self.dex.src@,
                self.def.interfaces_off as int,
            )),
            r matches Ok(v) ==> forall|i: int|
                0 <= i < v@.len() ==> mutf8_decoded(
                    self.dex.strings.spec_type_desc_bytes(
                        le16_at(
                            self.dex.src@,
                            self.def.interfaces_off + 4 + 2 * i,
                        ) as int,
                    ),
                ) == Some((#[trigger] v@[i])@),
    {
        let mut out: Vec<String> = Vec::new();
        if self.def.interfaces_off == 0 {
            return Ok(out);
        }
        if self.def.interfaces_off as u64 > self.dex.src.len() as u64 {
            return Err(Error::Section(
                crate::section::SectionError::BadOffset(self.def.interfaces_off as u64),
            ));
        }
        let mut pos = self.def.interfaces_off as usize;
        let tl = match crate::type_list::TypeList::read(self.dex.src, &mut pos) {
            Ok(t) => t,
            Err(e) => {
                return Err(Error::Section(crate::section::SectionError::BadOffset(e.0)));
            },
        };
        let items = tl.into_inner();
        let mut i: usize = 0;
        while i < items.len()
            invariant
                0 <= i <= items@.len(),
                out@.len() == i,
                forall|j: int|
                    0 <= j < i ==> self.dex.strings.spec_type_resolvable(
                        (#[trigger] le16_at(
                            self.dex.src@,
                            self.def.interfaces_off + 4 + 2 * j,
                        )) as int,
                    ),
                forall|j: int|
                    0 <= j < i ==> mutf8_decoded(
                        self.dex.strings.spec_type_desc_bytes(
                            le16_at(
                                self.dex.src@,
                                self.def.interfaces_off + 4 + 2 * j,
                            ) as int,
                        ),
                    ) == Some((#[trigger] out@[j])@),
            decreases items@.len() - i,
        {
            let s = match resolve_type(self.dex, items[i].type_idx as u32) {
                Ok(v) => v,
                Err(e) => {
                    proof {
                        assert(items@[i as int].type_idx == le16_at(
                            self.dex.src@,
                            self.def.interfaces_off + 4 + 2 * (i as int),
                        ));
                        assert(!self.dex.strings.spec_type_resolvable(
                            le16_at(
                                self.dex.src@,
                                self.def.interfaces_off + 4 + 2 * (i as int),
                            ) as int,
                        ));
                    }
                    return Err(e);
                },
            };
            out.push(s);
            i = i + 1;
        }
        Ok(out)
    }

    /// The class's annotations directory, or `None` when the
    /// definition records none; a recorded directory is decoded
    /// exactly when it lies inside the buffer.
    pub fn annotations_dir(&self) -> (r: Result<Option<AnnotationsDirectory>, Error>)
        requires
            self.dex.wf(),
        ensures
            self.def.annotations_off == 0 <==> (r matches Ok(o) && o is None),
            r matches Ok(o) ==> (o matches Some(d) ==> {
                let start = self.def.annotations_off as int;
                let fs = le32_at(self.dex.src@, start + 4) as int;
                let ms = le32_at(self.dex.src@, start + 8) as int;
                let ps = le32_at(self.dex.src@, start + 12) as int;
                &&& d.class_annotations_off == le32_at(self.dex.src@, start)
                &&& d.field_annotations@.len() == fs
                &&& d.method_annotations@.len() == ms
                &&& d.parameter_annotations@.len() == ps
            }),
    {
        if self.def.annotations_off == 0 {
            return Ok(None);
        }
        if self.def.annotations_off as u64 > self.dex.src.len() as u64 {
            return Err(Error::Section(
                crate::section::SectionError::BadOffset(self.def.annotations_off as u64),
            ));
        }
        let mut pos = self.def.annotations_off as usize;
        match AnnotationsDirectory::read(self.dex.src, &mut pos) {
            Ok(d) => Ok(Some(d)),
            Err(e) => Err(Error::Section(crate::section::SectionError::BadOffset(e.0))),
        }
    }

    /// The annotations on the class itself: the resolved annotation
    /// set the directory names, or nothing when there is no directory
    /// or the directory records none.
    pub fn annotations(&self) -> (r: Result<Vec<Annotation>, Error>)
        requires
            self.dex.wf(),
        ensures
            self.def.annotations_off == 0 ==> (r matches Ok(v) && v@.len() == 0),
            r matches Ok(v) ==> (self.def.annotations_off != 0 && le32_at(
                self.dex.src@,
                self.def.annotations_off as int,
            ) != 0 ==> crate::fields::ann_views_of(v@) == crate::fields::spec_set_views(
                self.dex.src@,
                le32_at(self.dex.src@, self.def.annotations_off as int) as int,
            )),
    {
        let offset = match self.annotations_dir()? {
            Some(dir) => {
                if dir.class_annotations_off == 0 {
                    return Ok(Vec::new());
                }
                dir.class_annotations_off
            },
            None => {
                return Ok(Vec::new());
            },
        };
        crate::fields::read_set_annotations(self.dex, offset)
    }

    /// The class's static-value array, or `None` when the definition
    /// records none.
    pub fn static_values(&self) -> (r: Result<Option<Vec<EncodedValue>>, Error>)
        requires
            self.dex.wf(),
        ensures
            self.def.static_values_off == 0 <==> (r matches Ok(o) && o is None),
            self.def.static_values_off != 0 ==> (r is Ok <==> self.def.static_values_off
                <= self.dex.src@.len() && spec_encoded_array_at(
                self.dex.src@,
                self.def.static_values_off as int,
            ) is Some),
            r matches Ok(o) ==> (o matches Some(vs) ==> spec_encoded_array_at(
                self.dex.src@,
                self.def.static_values_off as int,
            ) == Some(evs_view(vs@))),
    {
        if self.def.static_values_off == 0 {
            return Ok(None);
        }
        if self.def.static_values_off as u64 > self.dex.src.len() as u64 {
            return Err(Error::Section(
                crate::section::SectionError::BadOffset(self.def.static_values_off as u64),
            ));
        }
        let mut pos = self.def.static_values_off as usize;
        match EncodedArray::read(self.dex.src, &mut pos) {
            Ok(a) => Ok(Some(a.into_inner())),
            Err(e) => Err(Error::EncodedValue(e)),
        }
    }

    /// The class's static fields, in class-data order: member indices
    /// reconstructed from the stored differences, the first entries
    /// paired with the static-value array.
    #[verifier::loop_isolation(false)]
    pub fn static_fields(&self) -> (r: Result<Vec<DexField<'a>>, Error>)
        requires
            self.dex.wf(),
        ensures
            r is Ok <==> self.spec_static_fields_ok(),
            match r {
                Ok(fs) => {
                    &&& self.data is None ==> fs@.len() == 0
                    &&& self.data matches Some(cd) ==> {
                        &&& fs@.len() == cd.static_fields@.len()
                        &&& forall|k: int|
                            0 <= k < fs@.len() ==> {
                                &&& (#[trigger] fs@[k]).idx == member_index_at(
                                    field_diffs(cd.static_fields@),
                                    k,
                                )
                                &&& fs@[k].idx < self.dex.header.field_ids_size
                                &&& fs@[k].access_flags == cd.static_fields@[k].access_flags
                                &&& fs@[k].class_type_idx == self.def.class_idx
                            }
                        &&& (self.def.static_values_off == 0 ==> forall|k: int|
                            0 <= k < fs@.len() ==> (#[trigger] fs@[k]).initial_value is None)
                        &&& (self.def.static_values_off != 0 ==> (spec_encoded_array_at(
                            self.dex.src@,
                            self.def.static_values_off as int,
                        ) matches Some(ms) && forall|k: int|
                            0 <= k < fs@.len() ==> if k < ms.len() {
                                (#[trigger] fs@[k]).initial_value matches Some(v) && ev_view(v)
                                    == ms[k]
                            } else {
                                fs@[k].initial_value is None
                            }))
                    }
                },
                Err(_) => true,
            },
    {
        let mut out: Vec<DexField<'a>> = Vec::new();
        let efs = match &self.data {
            Some(cd) => &cd.static_fields,
            None => {
                return Ok(out);
            },
        };
        let values = self.static_values()?;
        let ghost diffs = field_diffs(efs@);
        let mut prev: u64 = 0;
        let mut i: usize = 0;
        while i < efs.len()
            invariant
                out@.len() == i,
                0 <= i <= efs@.len(),
                i == 0 ==> prev == 0,
                i > 0 ==> prev == member_index_at(diffs, i - 1),
                forall|k: int|
                    0 <= k < i ==> {
                        &&& (#[trigger] out@[k]).idx == member_index_at(diffs, k)
                        &&& out@[k].idx < self.dex.header.field_ids_size
                        &&& out@[k].access_flags == efs@[k].access_flags
                        &&& out@[k].class_type_idx == self.def.class_idx
                        &&& match values {
                            Some(vs) => if k < vs@.len() {
                                out@[k].initial_value matches Some(v) && ev_view(v) == ev_view(
                                    vs@[k],
                                )
                            } else {
                                out@[k].initial_value is None
                            },
                            None => out@[k].initial_value is None,
                        }
                    },
            decreases efs@.len() - i,
        {
            let ef = &efs[i];
            proof {
                assert(diffs[i as int] == efs@[i as int].field_idx_diff as nat);
                if i > 0 {
                    assert(member_index_at(diffs, i as int) == member_index_at(
                        diffs,
                        i as int - 1,
                    ) + diffs[i as int]);
                }
            }
            let idx = match prev.checked_add(ef.field_idx_diff) {
                Some(v) => v,
                None => {
                    proof {
                        assert(member_index_at(diffs, i as int) > u64::MAX);
                        assert(!spec_field_entry_ok(self.dex, efs@, i as int));
                    }
                    return Err(Error::Arithmetic);
                },
            };
            assert(idx == member_index_at(diffs, i as int));
            let fid = match self.dex.field_id(idx) {
                Ok(f) => f,
                Err(e) => {
                    proof {
                        assert(!spec_field_entry_ok(self.dex, efs@, i as int));
                    }
                    return Err(e);
                },
            };
            let initial_value = match &values {
                Some(vs) => {
                    if i < vs.len() {
                        let v = vs[i].clone_value();
                        Some(v)
                    } else {
                        None
                    }
                },
                None => None,
            };
            out.push(
                DexField {
                    dex: self.dex,
                    idx,
                    fid,
                    class_type_idx: self.def.class_idx,
                    access_flags: ef.access_flags,
                    initial_value,
                },
            );
            prev = idx;
            i = i + 1;
        }
        proof {
            if self.def.static_values_off != 0 {
                match values {
                    Some(vs) => {
                        lemma_evs_view(vs@);
                    },
                    None => {},
                }
            }
            assert forall|k: int| 0 <= k < efs@.len() implies #[trigger] spec_field_entry_ok(
                self.dex,
                efs@,
                k,
            ) by {
                assert(out@[k].idx == member_index_at(diffs, k));
            }
        }
        Ok(out)
    }

    /// The class's instance fields, in class-data order, with member
    /// indices reconstructed from the stored differences.
    #[verifier::loop_isolation(false)]
    pub fn instance_fields(&self) -> (r: Result<Vec<DexField<'a>>, Error>)
        requires
            self.dex.wf(),
        ensures
            r is Ok <==> self.spec_instance_fields_ok(),
            match r {
                Ok(fs) => {
                    &&& self.data is None ==> fs@.len() == 0
                    &&& self.data matches Some(cd) ==> {
                        &&& fs@.len() == cd.instance_fields@.len()
                        &&& forall|k: int|
                            0 <= k < fs@.len() ==> {
                                &&& (#[trigger] fs@[k]).idx == member_index_at(
                                    field_diffs(cd.instance_fields@),
                                    k,
                                )
                                &&& fs@[k].idx < self.dex.header.field_ids_size
                                &&& fs@[k].access_flags == cd.instance_fields@[k].access_flags
                                &&& fs@[k].initial_value is None
                            }
                    }
                },
                Err(_) => true,
            },
    {
        let mut out: Vec<DexField<'a>> = Vec::new();
        let efs = match &self.data {
            Some(cd) => &cd.instance_fields,
            None => {
                return Ok(out);
            },
        };
        let ghost diffs = field_diffs(efs@);
        let mut prev: u64 = 0;
        let mut i: usize = 0;
        while i < efs.len()
            invariant
                out@.len() == i,
                0 <= i <= efs@.len(),
                i == 0 ==> prev == 0,
                i > 0 ==> prev == member_index_at(diffs, i - 1),
                forall|k: int|
                    0 <= k < i ==> {
                        &&& (#[trigger] out@[k]).idx == member_index_at(diffs, k)
                        &&& out@[k].idx < self.dex.header.field_ids_size
                        &&& out@[k].access_flags == efs@[k].access_flags
                        &&& out@[k].initial_value is None
                    },
            decreases efs@.len() - i,
        {
            let ef = &efs[i];
            proof {
                assert(diffs[i as int] == efs@[i as int].field_idx_diff as nat);
                if i > 0 {
                    assert(member_index_at(diffs, i as int) == member_index_at(
                        diffs,
                        i as int - 1,
                    ) + diffs[i as int]);
                }
            }
            let idx = match prev.checked_add(ef.field_idx_diff) {
                Some(v) => v,
                None => {
                    proof {
                        assert(member_index_at(diffs, i as int) > u64::MAX);
                        assert(!spec_field_entry_ok(self.dex, efs@, i as int));
                    }
                    return Err(Error::Arithmetic);
                },
            };
            assert(idx == member_index_at(diffs, i as int));
            let fid = match self.dex.field_id(idx) {
                Ok(f) => f,
                Err(e) => {
                    proof {
                        assert(!spec_field_entry_ok(self.dex, efs@, i as int));
                    }
                    return Err(e);
                },
            };
            out.push(
                DexField {
                    dex: self.dex,
                    idx,
                    fid,
                    class_type_idx: self.def.class_idx,
                    access_flags: ef.access_flags,
                    initial_value: None,
                },
            );
            prev = idx;
            i = i + 1;
        }
        proof {
            assert forall|k: int| 0 <= k < efs@.len() implies #[trigger] spec_field_entry_ok(
                self.dex,
                efs@,
                k,
            ) by {
                assert(out@[k].idx == member_index_at(diffs, k));
            }
        }
        Ok(out)
    }

    /// Every field of the class: the static fields, then the instance
    /// fields; it succeeds exactly when both halves can be resolved.
    pub fn fields(&self) -> (r: Result<Vec<DexField<'a>>, Error>)
        requires
            self.dex.wf(),
        ensures
            r is Ok <==> self.spec_static_fields_ok() && self.spec_instance_fields_ok(),
            r matches Ok(fs) ==> (self.data is None ==> fs@.len() == 0),
            r matches Ok(fs) ==> (self.data matches Some(cd) ==> {
                let slen = cd.static_fields@.len() as int;
                &&& fs@.len() == cd.static_fields@.len() + cd.instance_fields@.len()
                &&& forall|k: int|
                    0 <= k < slen ==> {
                        &&& (#[trigger] fs@[k]).idx == member_index_at(
                            field_diffs(cd.static_fields@),
                            k,
                        )
                        &&& fs@[k].access_flags == cd.static_fields@[k].access_flags
                    }
                &&& forall|k: int|
                    slen <= k < fs@.len() ==> {
                        &&& (#[trigger] fs@[k]).idx == member_index_at(
                            field_diffs(cd.instance_fields@),
                            k - slen,
                        )
                        &&& fs@[k].access_flags == cd.instance_fields@[k - slen].access_flags
                        &&& fs@[k].initial_value is None
                    }
            }),
    {
        let mut fs = self.static_fields()?;
        let more = self.instance_fields()?;
        append_fields(&mut fs, more);
        Ok(fs)
    }

    /// The class's direct methods, in class-data order; it succeeds
    /// exactly when every direct method can be resolved.
    pub fn direct_methods(&self) -> (r: Result<Vec<DexMethod<'a>>, Error>)
        requires
            self.dex.wf(),
        ensures
            r is Ok <==> self.spec_direct_methods_ok(),
            match r {
                Ok(ms) => {
                    &&& self.data is None ==> ms@.len() == 0
                    &&& self.data matches Some(cd) ==> methods_reconstructed(
                        ms@,
                        cd.direct_methods@,
                        self.dex,
                        self.def.class_idx,
                    )
                },
                Err(_) => true,
            },
    {
        match &self.data {
            Some(cd) => self.parse_methods(&cd.direct_methods),
            None => Ok(Vec::new()),
        }
    }

    /// The class's virtual methods, in class-data order; it succeeds
    /// exactly when every virtual method can be resolved.
    pub fn virtual_methods(&self) -> (r: Result<Vec<DexMethod<'a>>, Error>)
        requires
            self.dex.wf(),
        ensures
            r is Ok <==> self.spec_virtual_methods_ok(),
            match r {
                Ok(ms) => {
                    &&& self.data is None ==> ms@.len() == 0
                    &&& self.data matches Some(cd) ==> methods_reconstructed(
                        ms@,
                        cd.virtual_methods@,
                        self.dex,
                        self.def.class_idx,
                    )
                },
                Err(_) => true,
            },
    {
        match &self.data {
            Some(cd) => self.parse_methods(&cd.virtual_methods),
            None => Ok(Vec::new()),
        }
    }

    /// Every method of the class: the direct methods, then the
    /// virtual methods; it succeeds exactly when both halves can be
    /// resolved.
    pub fn methods(&self) -> (r: Result<Vec<DexMethod<'a>>, Error>)
        requires
            self.dex.wf(),
        ensures
            r is Ok <==> self.spec_direct_methods_ok() && self.spec_virtual_methods_ok(),
            r matches Ok(ms) ==> (self.data is None ==> ms@.len() == 0),
            r matches Ok(ms) ==> (self.data matches Some(cd) ==> {
                let dlen = cd.direct_methods@.len() as int;
                &&& ms@.len() == cd.direct_methods@.len() + cd.virtual_methods@.len()
                &&& forall|k: int|
                    0 <= k < dlen ==> {
                        &&& (#[trigger] ms@[k]).idx == member_index_at(
                            method_diffs(cd.direct_methods@),
                            k,
                        )
                        &&& ms@[k].access_flags == cd.direct_methods@[k].access_flags
                        &&& ms@[k].code_off == cd.direct_methods@[k].code_off
                    }
                &&& forall|k: int|
                    dlen <= k < ms@.len() ==> {
                        &&& (#[trigger] ms@[k]).idx == member_index_at(
                            method_diffs(cd.virtual_methods@),
                            k - dlen,
                        )
                        &&& ms@[k].access_flags == cd.virtual_methods@[k - dlen].access_flags
                        &&& ms@[k].code_off == cd.virtual_methods@[k - dlen].code_off
                    }
            }),
    {
        let mut ms = self.direct_methods()?;
        let more = self.virtual_methods()?;
        append_methods(&mut ms, more);
        Ok(ms)
    }

    /// Builds the method views of one run, reconstructing member
    /// indices from the stored differences and resolving each
    /// method's identity and prototype; it succeeds exactly when
    /// every member can be resolved.
    #[verifier::loop_isolation(false)]
    fn parse_methods(&self, raw: &Vec<EncodedMethod>) -> (r: Result<Vec<DexMethod<'a>>, Error>)
        requires
            self.dex.wf(),
        ensures
            r is Ok <==> forall|k: int|
                0 <= k < raw@.len() ==> #[trigger] spec_method_entry_ok(self.dex, raw@, k),
            r matches Ok(ms) ==> methods_reconstructed(ms@, raw@, self.dex, self.def.class_idx),
    {
        let mut out: Vec<DexMethod<'a>> = Vec::new();
        let ghost diffs = method_diffs(raw@);
        let mut prev: u64 = 0;
        let mut i: usize = 0;
        while i < raw.len()
            invariant
                out@.len() == i,
                0 <= i <= raw@.len(),
                i == 0 ==> prev == 0,
                i > 0 ==> prev == member_index_at(diffs, i - 1),
                forall|k: int|
                    0 <= k < i ==> {
                        let mm = #[trigger] out@[k];
                        let mbase = self.dex.header.method_ids_off + 8 * (mm.idx as int);
                        let pbase = self.dex.header.proto_ids_off + 12 * (
                        mm.mid.proto_idx as int);
                        &&& mm.idx == member_index_at(diffs, k)
                        &&& mm.idx < self.dex.header.method_ids_size
                        &&& mm.access_flags == raw@[k].access_flags
                        &&& mm.code_off == raw@[k].code_off
                        &&& mm.class_type_idx == self.def.class_idx
                        &&& mm.mid.class_idx == le16_at(self.dex.src@, mbase)
                        &&& mm.mid.proto_idx == le16_at(self.dex.src@, mbase + 2)
                        &&& mm.mid.name_idx == le32_at(self.dex.src@, mbase + 4)
                        &&& mm.mid.proto_idx < self.dex.header.proto_ids_size
                        &&& mm.pid.shorty_idx == le32_at(self.dex.src@, pbase)
                        &&& mm.pid.return_type_idx == le32_at(self.dex.src@, pbase + 4)
                        &&& mm.pid.parameters_off == le32_at(self.dex.src@, pbase + 8)
                    },
            decreases raw@.len() - i,
        {
            let em = &raw[i];
            proof {
                assert(diffs[i as int] == raw@[i as int].method_idx_diff as nat);
                if i > 0 {
                    assert(member_index_at(diffs, i as int) == member_index_at(
                        diffs,
                        i as int - 1,
                    ) + diffs[i as int]);
                }
            }
            let idx = match prev.checked_add(em.method_idx_diff) {
                Some(v) => v,
                None => {
                    proof {
                        assert(member_index_at(diffs, i as int) > u64::MAX);
                        assert(!spec_method_entry_ok(self.dex, raw@, i as int));
                    }
                    return Err(Error::Arithmetic);
                },
            };
            assert(idx == member_index_at(diffs, i as int));
            let mid = match self.dex.method_id(idx) {
                Ok(m) => m,
                Err(e) => {
                    proof {
                        assert(!spec_method_entry_ok(self.dex, raw@, i as int));
                    }
                    return Err(e);
                },
            };
            let pid = match self.dex.proto_id(mid.proto_idx as u64) {
                Ok(p) => p,
                Err(e) => {
                    proof {
                        assert(!spec_method_entry_ok(self.dex, raw@, i as int));
                    }
                    return Err(e);
                },
            };
            out.push(
                DexMethod {
                    dex: self.dex,
                    idx,
                    mid,
                    pid,
                    class_type_idx: self.def.class_idx,
                    access_flags: em.access_flags,
                    code_off: em.code_off,
                },
            );
            prev = idx;
            i = i + 1;
        }
        proof {
            assert forall|k: int| 0 <= k < raw@.len() implies #[trigger] spec_method_entry_ok(
                self.dex,
                raw@,
                k,
            ) by {
                assert(out@[k].idx == member_index_at(diffs, k));
            }
        }
        Ok(out)
    }
}

/// How a run of method views relates to its encoded run: one view per
/// member, indices reconstructed, flags and code offsets carried
/// over, and each view's identity and prototype equal to the pool
/// records at the reconstructed index and at its stored prototype
/// index.
pub open spec fn methods_reconstructed(
    ms: Seq<DexMethod<'_>>,
    raw: Seq<EncodedMethod>,
    d: &DexFile<'_>,
    class_idx: u32,
) -> bool {
    &&& ms.len() == raw.len()
    &&& forall|k: int|
        0 <= k < ms.len() ==> {
            let mm = #[trigger] ms[k];
            let mbase = d.header.method_ids_off + 8 * (mm.idx as int);
            let pbase = d.header.proto_ids_off + 12 * (mm.mid.proto_idx as int);
            &&& mm.idx == member_index_at(method_diffs(raw), k)
            &&& mm.idx < d.header.method_ids_size
            &&& mm.access_flags == raw[k].access_flags
            &&& mm.code_off == raw[k].code_off
            &&& mm.class_type_idx == class_idx
            &&& mm.mid.class_idx == le16_at(d.src@, mbase)
            &&& mm.mid.proto_idx == le16_at(d.src@, mbase + 2)
            &&& mm.mid.name_idx == le32_at(d.src@, mbase + 4)
            &&& mm.mid.proto_idx < d.header.proto_ids_size
            &&& mm.pid.shorty_idx == le32_at(d.src@, pbase)
            &&& mm.pid.return_type_idx == le32_at(d.src@, pbase + 4)
            &&& mm.pid.parameters_off == le32_at(d.src@, pbase + 8)
        }
}

/// Moves the fields of `more` to the end of `fs`.
fn append_fields<'a>(fs: &mut Vec<DexField<'a>>, more: Vec<DexField<'a>>)
    ensures
        final(fs)@ == old(fs)@ + more@,
{
    let mut rest = more;
    let ghost whole = rest@;
    while rest.len() > 0
        invariant
            fs@ + rest@ == old(fs)@ + whole,
        decreases rest@.len(),
    {
        let ghost pre_fs = fs@;
        let ghost pre_rest = rest@;
        let f = rest.remove(0);
        fs.push(f);
        proof {
            assert(fs@ =~= pre_fs.push(f));
            assert(rest@ =~= pre_rest.skip(1));
            assert(fs@ + rest@ =~= pre_fs + pre_rest);
        }
    }
    assert(fs@ =~= fs@ + rest@);
}

/// Moves the methods of `more` to the end of `ms`.
fn append_methods<'a>(ms: &mut Vec<DexMethod<'a>>, more: Vec<DexMethod<'a>>)
    ensures
        final(ms)@ == old(ms)@ + more@,
{
    let mut rest = more;
    let ghost whole = rest@;
    while rest.len() > 0
        invariant
            ms@ + rest@ == old(ms)@ + whole,
        decreases rest@.len(),
    {
        let ghost pre_ms = ms@;
        let ghost pre_rest = rest@;
        let m = rest.remove(0);
        ms.push(m);
        proof {
            assert(ms@ =~= pre_ms.push(m));
            assert(rest@ =~= pre_rest.skip(1));
            assert(ms@ + rest@ =~= pre_ms + pre_rest);
        }
    }
    assert(ms@ =~= ms@ + rest@);
}

/// A counting iterator over the classes of a file.
pub struct ClassIterator<'a> {
    /// The file being walked.
    pub dex: &'a DexFile<'a>,
    /// The next class index to yield.
    pub index: usize,
    /// The number of classes.
    pub count: usize,
}

impl<'a> ClassIterator<'a> {
    /// Builds an iterator over the first `count` classes.
    pub fn new(dex: &'a DexFile<'a>, count: usize) -> (r: ClassIterator<'a>)
        ensures
            r.dex == dex,
            r.index == 0,
            r.count == count,
    {
        ClassIterator { dex, index: 0, count }
    }

    /// How many classes the iterator walks in total.
    pub fn size(&self) -> (r: usize)
        ensures
            r == self.count,
    {
        self.count
    }

    /// The next class, or `None` when the iterator is exhausted.
    pub fn next(&mut self) -> (r: Option<Result<DexClass<'a>, Error>>)
        requires
            old(self).dex.wf(),
        ensures
            final(self).dex == old(self).dex,
            final(self).count == old(self).count,
            old(self).index >= old(self).count ==> r is None && final(self).index == old(
                self,
            ).index,
            old(self).index < old(self).count ==> r is Some && final(self).index == old(
                self,
            ).index + 1,
    {
        if self.index >= self.count {
            return None;
        }
        let class_def = match self.dex.class_def(self.index) {
            Ok(d) => d,
            Err(e) => {
                self.index = self.index + 1;
                return Some(Err(e));
            },
        };
        let class = match DexClass::new(self.dex, class_def) {
            Ok(c) => c,
            Err(e) => {
                self.index = self.index + 1;
                return Some(Err(e));
            },
        };
        self.index = self.index + 1;
        Some(Ok(class))
    }
}

impl<'a> DexFile<'a> {
    /// An iterator over the classes of this file.
    pub fn classes(&'a self) -> (r: ClassIterator<'a>)
        ensures
            r.dex == self,
            r.index == 0,
            r.count == self.classdef_info.size,
    {
        ClassIterator::new(self, self.classdef_info.size)
    }
}

} // verus!
