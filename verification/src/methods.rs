//! The method view: one method of a class, its prototype, parameters
//! and — when it has code — its implementation with the resolved
//! exception table.

use crate::annotations::{Annotation, AnnotationsDirectory};
use crate::catch_handlers::{EncodedCatchHandlerList, ExceptionType as RawExceptionType};
use crate::code_item::{CodeItem, DebugInfoItem};
use crate::codec::{le16_at, le32_at};
use crate::dex::DexFile;
use crate::exceptions::{CatchHandler, ExceptionType, TryCatchBlock};
use crate::fields::{resolve_string, resolve_type};
use crate::flags::AccessFlags;
use crate::mutf8::mutf8_decoded;
use crate::simple::{MethodId, ProtoId};
use crate::strings::string_bytes_at;
use crate::Error;
use vstd::prelude::*;

verus! {

/// One method of a class.
pub struct DexMethod<'a> {
    /// The file the method belongs to.
    pub dex: &'a DexFile<'a>,
    /// The reconstructed absolute index into the method pool.
    pub idx: u64,
    /// The method's identity record.
    pub mid: MethodId,
    /// The method's prototype record.
    pub pid: ProtoId,
    /// Index into the type pool of the defining class.
    pub class_type_idx: u32,
    /// Access flags for the method.
    pub access_flags: AccessFlags,
    /// Offset of the method's code item, or 0 for an `abstract` or
    /// `native` method.
    pub code_off: u64,
}

impl<'a> DexMethod<'a> {
    /// The descriptor of the class that declares this method; it
    /// succeeds exactly when that type is resolvable.
    pub fn defining_class(&self) -> (r: Result<String, Error>)
        requires
            self.dex.wf(),
        ensures
            r is Ok <==> self.dex.strings.spec_type_resolvable(self.class_type_idx as int),
            r matches Ok(s) ==> mutf8_decoded(
                self.dex.strings.spec_type_desc_bytes(self.class_type_idx as int),
            ) == Some(s@),
    {
        resolve_type(self.dex, self.class_type_idx)
    }

    /// The method's name; it succeeds exactly when the name string is
    /// resolvable.
    pub fn name(&self) -> (r: Result<String, Error>)
        requires
            self.dex.wf(),
        ensures
            r is Ok <==> self.dex.strings.spec_string_resolvable(self.mid.name_idx as int),
            r matches Ok(s) ==> {
                &&& self.mid.name_idx < self.dex.strings.string_ids_size
                &&& mutf8_decoded(
                    string_bytes_at(
                        self.dex.src@,
                        self.dex.strings.spec_id_at(self.mid.name_idx as int) as int,
                    ),
                ) == Some(s@)
            },
    {
        resolve_string(self.dex, self.mid.name_idx)
    }

    /// The descriptor of the method's return type; it succeeds exactly
    /// when that type is resolvable.
    pub fn return_type(&self) -> (r: Result<String, Error>)
        requires
            self.dex.wf(),
        ensures
            r is Ok <==> self.dex.strings.spec_type_resolvable(self.pid.return_type_idx as int),
            r matches Ok(s) ==> mutf8_decoded(
                self.dex.strings.spec_type_desc_bytes(self.pid.return_type_idx as int),
            ) == Some(s@),
    {
        resolve_type(self.dex, self.pid.return_type_idx)
    }

    /// Access flags for the method.
    pub fn access_flags(&self) -> (r: &AccessFlags)
        ensures
            r == &self.access_flags,
    {
        &self.access_flags
    }

    /// The annotations attached to this method: the annotations of
    /// every directory entry whose method index is this method's
    /// reconstructed index, in directory order.
    pub fn annotations(&self, dir: &AnnotationsDirectory) -> (r: Result<Vec<Annotation>, Error>)
        requires
            self.dex.wf(),
        ensures
            r is Ok <==> crate::fields::spec_sets_ok(
                self.dex.src@,
                crate::fields::spec_filtered_sets(
                    crate::fields::method_entry_pairs(dir),
                    self.idx,
                ),
            ),
            r matches Ok(v) ==> crate::fields::ann_views_of(v@)
                == crate::fields::spec_sets_views(
                self.dex.src@,
                crate::fields::spec_filtered_sets(
                    crate::fields::method_entry_pairs(dir),
                    self.idx,
                ),
            ),
    {
        let entries = crate::fields::method_entries(dir);
        crate::fields::collect_annotations(self.dex, &entries, self.idx)
    }

    /// The method's implementation: its decoded code item, or `None`
    /// for an `abstract` or `native` method (whose code offset is 0).
    /// For a method with code it succeeds exactly when a code item
    /// parses at the code offset.
    pub fn implementation(&self) -> (r: Result<Option<DexMethodImplementation<'a>>, Error>)
        requires
            self.dex.wf(),
        ensures
            self.code_off == 0 ==> (r matches Ok(o) && o is None),
            self.code_off != 0 ==> (r is Ok <==> self.code_off <= self.dex.src@.len()
                && crate::code_item::code_item_ok(self.dex.src@, self.code_off as int)),
            r matches Ok(o) ==> (o matches Some(imp) ==> {
                &&& self.code_off != 0
                &&& imp.dex == self.dex
                &&& imp.midx == self.idx
                &&& exists|end: int|
                    crate::code_item::code_item_parts_ok(
                        imp.raw,
                        self.dex.src@,
                        self.code_off as int,
                        end,
                    )
            }),
    {
        if self.code_off == 0 {
            return Ok(None);
        }
        if self.code_off > self.dex.src.len() as u64 {
            return Err(Error::Section(
                crate::section::SectionError::BadOffset(self.code_off),
            ));
        }
        let mut pos = self.code_off as usize;
        let raw = match CodeItem::read(self.dex.src, &mut pos) {
            Ok(c) => c,
            Err(e) => {
                return Err(Error::Code(e));
            },
        };
        proof {
            assert(crate::code_item::code_item_parts_ok(
                raw,
                self.dex.src@,
                self.code_off as int,
                pos as int,
            ));
        }
        Ok(Some(DexMethodImplementation { dex: self.dex, midx: self.idx, raw }))
    }

    /// The method's parameters: the prototype's type list, each type
    /// paired with its debug-info name where one is recorded.
    #[verifier::loop_isolation(false)]
    pub fn parameters(&self) -> (r: Result<Vec<DexMethodParameter<'a>>, Error>)
        requires
            self.dex.wf(),
        ensures
            r matches Ok(ps) ==> (self.pid.parameters_off == 0 ==> ps@.len() == 0),
            r matches Ok(ps) ==> (self.pid.parameters_off != 0 ==> {
                &&& ps@.len() == le32_at(self.dex.src@, self.pid.parameters_off as int)
                &&& forall|i: int|
                    0 <= i < ps@.len() ==> {
                        &&& (#[trigger] ps@[i]).type_idx == le16_at(
                            self.dex.src@,
                            self.pid.parameters_off + 4 + 2 * i,
                        )
                        &&& ps@[i].dex == self.dex
                        &&& ps@[i].midx == self.idx
                    }
            }),
            self.code_off == 0 ==> (r matches Ok(ps) ==> forall|i: int|
                0 <= i < ps@.len() ==> (#[trigger] ps@[i]).name_idx is None),
    {
        let mut params: Vec<DexMethodParameter<'a>> = Vec::new();
        if self.pid.parameters_off == 0 {
            return Ok(params);
        }
        if self.pid.parameters_off as u64 > self.dex.src.len() as u64 {
            return Err(Error::Section(
                crate::section::SectionError::BadOffset(self.pid.parameters_off as u64),
            ));
        }
        let mut pos = self.pid.parameters_off as usize;
        let tl = match crate::type_list::TypeList::read(self.dex.src, &mut pos) {
            Ok(t) => t,
            Err(e) => {
                return Err(Error::Section(crate::section::SectionError::BadOffset(e.0)));
            },
        };
        let names: Vec<Option<u64>> = match self.implementation()? {
            Some(imp) => {
                if imp.raw.debug_info_off != 0 {
                    let di = imp.debug_info()?;
                    di.parameter_names
                } else {
                    Vec::new()
                }
            },
            None => Vec::new(),
        };
        let items = tl.into_inner();
        let mut i: usize = 0;
        while i < items.len()
            invariant
                0 <= i <= items@.len(),
                params@.len() == i,
                forall|j: int|
                    0 <= j < i ==> {
                        &&& (#[trigger] params@[j]).type_idx == le16_at(
                            self.dex.src@,
                            self.pid.parameters_off + 4 + 2 * j,
                        )
                        &&& params@[j].dex == self.dex
                        &&& params@[j].midx == self.idx
                    },
                self.code_off == 0 ==> names@.len() == 0,
                self.code_off == 0 ==> forall|j: int|
                    0 <= j < i ==> (#[trigger] params@[j]).name_idx is None,
            decreases items@.len() - i,
        {
            let name_idx = if i < names.len() {
                names[i]
            } else {
                None
            };
            params.push(
                DexMethodParameter {
                    dex: self.dex,
                    midx: self.idx,
                    name_idx,
                    type_idx: items[i].type_idx as u32,
                },
            );
            i = i + 1;
        }
        Ok(params)
    }
}

/// One parameter of a method.
pub struct DexMethodParameter<'a> {
    /// The file the parameter belongs to.
    pub dex: &'a DexFile<'a>,
    /// The reconstructed index of the owning method.
    pub midx: u64,
    /// Index into the string pool of the parameter's name, when the
    /// debug info records one.
    pub name_idx: Option<u64>,
    /// Index into the type pool of the parameter's type.
    pub type_idx: u32,
}

impl<'a> DexMethodParameter<'a> {
    /// The parameter's recorded name, if any; a recorded index is
    /// resolved exactly when the string is resolvable.
    pub fn name(&self) -> (r: Result<Option<String>, Error>)
        requires
            self.dex.wf(),
        ensures
            self.name_idx is None ==> (r matches Ok(o) && o is None),
            self.name_idx matches Some(ix) ==> (r is Ok <==> ix <= u32::MAX
                && self.dex.strings.spec_string_resolvable(ix as int)),
            r matches Ok(o) ==> (o matches Some(nm) ==> self.name_idx matches Some(ix)
                && mutf8_decoded(
                string_bytes_at(
                    self.dex.src@,
                    self.dex.strings.spec_id_at(ix as int) as int,
                ),
            ) == Some(nm@)),
    {
        match self.name_idx {
            Some(idx) => {
                if idx > u32::MAX as u64 {
                    return Err(
                        Error::StringRead(
                            crate::strings::StringReadError::IndexOutOfBounds(u32::MAX),
                        ),
                    );
                }
                match resolve_string(self.dex, idx as u32) {
                    Ok(s) => Ok(Some(s)),
                    Err(e) => Err(e),
                }
            },
            None => Ok(None),
        }
    }

    /// The descriptor of the parameter's type; it succeeds exactly
    /// when that type is resolvable.
    pub fn descriptor(&self) -> (r: Result<String, Error>)
        requires
            self.dex.wf(),
        ensures
            r is Ok <==> self.dex.strings.spec_type_resolvable(self.type_idx as int),
            r matches Ok(s) ==> mutf8_decoded(
                self.dex.strings.spec_type_desc_bytes(self.type_idx as int),
            ) == Some(s@),
    {
        resolve_type(self.dex, self.type_idx)
    }

    /// The annotations attached to this parameter: the annotations of
    /// every directory entry whose method index is the owning
    /// method's reconstructed index, in directory order.
    pub fn annotations(&self, dir: &AnnotationsDirectory) -> (r: Result<Vec<Annotation>, Error>)
        requires
            self.dex.wf(),
        ensures
            r is Ok <==> crate::fields::spec_sets_ok(
                self.dex.src@,
                crate::fields::spec_filtered_sets(
                    crate::fields::parameter_entry_pairs(dir),
                    self.midx,
                ),
            ),
            r matches Ok(v) ==> crate::fields::ann_views_of(v@)
                == crate::fields::spec_sets_views(
                self.dex.src@,
                crate::fields::spec_filtered_sets(
                    crate::fields::parameter_entry_pairs(dir),
                    self.midx,
                ),
            ),
    {
        let entries = crate::fields::parameter_entries(dir);
        crate::fields::collect_annotations(self.dex, &entries, self.midx)
    }

    /// The parameter's generic signature: the concatenated string
    /// elements of the `value` array of a signature annotation among
    /// `annotations`, or `None` when no annotation carries one.
    #[verifier::loop_isolation(false)]
    pub fn signature(&self, annotations: &Vec<Annotation>) -> (r: Result<Option<String>, Error>)
        requires
            self.dex.wf(),
        ensures
            annotations@.len() == 0 ==> r == Ok::<Option<String>, Error>(None),
            r matches Ok(o) ==> (o matches Some(sig) ==> exists|i: int, k: int|
                {
                    &&& 0 <= i < annotations@.len()
                    &&& spec_is_signature_annotation(
                        self.dex.strings,
                        #[trigger] annotations@[i],
                    )
                    &&& 0 <= k < annotations@[i].annotation.elements@.len()
                    &&& (#[trigger] annotations@[i].annotation.elements@[k]).value matches
                        crate::encoded_value::EncodedValue::Array(parts) && sig@
                        == spec_sig_concat(self.dex.strings, parts@)
                }),
    {
        let mut i: usize = 0;
        while i < annotations.len()
            invariant
                0 <= i <= annotations@.len(),
            decreases annotations@.len() - i,
        {
            let a = &annotations[i];
            if self.is_signature_annotation(a)? {
                let elements = &a.annotation.elements;
                let mut k: usize = 0;
                while k < elements.len()
                    invariant
                        0 <= k <= elements@.len(),
                    decreases elements@.len() - k,
                {
                    let el = &elements[k];
                    if self.is_value_element(el)? {
                        if let crate::encoded_value::EncodedValue::Array(parts) = &el.value {
                            let mut sig = String::new();
                            let mut m: usize = 0;
                            while m < parts.len()
                                invariant
                                    0 <= m <= parts@.len(),
                                    sig@ == spec_sig_concat(
                                        self.dex.strings,
                                        parts@.take(m as int),
                                    ),
                                decreases parts@.len() - m,
                            {
                                if let crate::encoded_value::EncodedValue::String(sidx) =
                                    &parts[m] {
                                    let part = resolve_string(self.dex, *sidx)?;
                                    sig.append(part.as_str());
                                }
                                proof {
                                    assert(parts@.take(m + 1).drop_last() =~= parts@.take(
                                        m as int,
                                    ));
                                    assert(parts@.take(m + 1).last() == parts@[m as int]);
                                }
                                m = m + 1;
                            }
                            proof {
                                assert(parts@.take(parts@.len() as int) =~= parts@);
                                let wi = i as int;
                                let wk = k as int;
                                assert(spec_is_signature_annotation(
                                    self.dex.strings,
                                    annotations@[wi],
                                ));
                                assert((annotations@[wi].annotation.elements@[wk]).value
                                    matches crate::encoded_value::EncodedValue::Array(ps) && sig@
                                    == spec_sig_concat(self.dex.strings, ps@));
                            }
                            return Ok(Some(sig));
                        }
                    }
                    k = k + 1;
                }
            }
            i = i + 1;
        }
        Ok(None)
    }

    /// Whether an annotation's type descriptor is the signature
    /// marker `Ldalvik/annotation/Signature;`.
    fn is_signature_annotation(&self, a: &Annotation) -> (r: Result<bool, Error>)
        requires
            self.dex.wf(),
        ensures
            r matches Ok(b) ==> (b ==> spec_is_signature_annotation(self.dex.strings, *a)),
    {
        if a.annotation.type_idx > u32::MAX as u64 {
            return Ok(false);
        }
        let desc = resolve_type(self.dex, a.annotation.type_idx as u32)?;
        Ok(str_eq(&desc, "Ldalvik/annotation/Signature;"))
    }

    /// Whether an annotation element's name is `value`.
    fn is_value_element(&self, el: &crate::encoded_value::AnnotationElement) -> (r: Result<
        bool,
        Error,
    >)
        requires
            self.dex.wf(),
    {
        if el.name_idx > u32::MAX as u64 {
            return Ok(false);
        }
        let name = resolve_string(self.dex, el.name_idx as u32)?;
        Ok(str_eq(&name, "value"))
    }
}

/// Whether a string holds the same characters as a literal.
fn str_eq(a: &String, b: &str) -> (r: bool)
    ensures
        r == (a@ == b@),
{
    let bo = b.to_owned();
    (*a).eq(&bo)
}

/// Whether an annotation's type index resolves to the marker
/// descriptor of a generic-signature annotation.
pub open spec fn spec_is_signature_annotation(
    st: crate::strings::Strings<'_>,
    a: Annotation,
) -> bool {
    &&& a.annotation.type_idx <= u32::MAX
    &&& mutf8_decoded(st.spec_type_desc_bytes(a.annotation.type_idx as int)) == Some(
        "Ldalvik/annotation/Signature;"@,
    )
}

/// The concatenation of the decoded strings of the string-kind
/// entries of an encoded-value run; other kinds contribute nothing.
pub open spec fn spec_sig_concat(
    st: crate::strings::Strings<'_>,
    parts: Seq<crate::encoded_value::EncodedValue>,
) -> Seq<char>
    decreases parts.len(),
{
    if parts.len() == 0 {
        Seq::empty()
    } else {
        spec_sig_concat(st, parts.drop_last()) + (match parts.last() {
            crate::encoded_value::EncodedValue::String(ix) => mutf8_decoded(
                string_bytes_at(st.src@, st.spec_id_at(ix as int) as int),
            )->Some_0,
            _ => Seq::empty(),
        })
    }
}

/// Whether a resolved catch corresponds to a raw one: same address,
/// and the exception either the catch-all or the decoded descriptor
/// of the raw type index.
pub open spec fn spec_catch_resolved(
    c: CatchHandler,
    rh: crate::catch_handlers::CatchHandler,
    st: crate::strings::Strings<'_>,
) -> bool {
    &&& c.addr == rh.addr
    &&& match rh.exception {
        RawExceptionType::BaseException => c.exception is Base,
        RawExceptionType::Type(tid) => {
            &&& tid <= u32::MAX
            &&& c.exception matches ExceptionType::Type(desc) && mutf8_decoded(
                st.spec_type_desc_bytes(tid as int),
            ) == Some(desc@)
        },
    }
}

/// Whether a resolved handler list matches one encoded catch handler:
/// one catch per typed pair, descriptors decoded, and the catch-all
/// appended last when the handler records one.
pub open spec fn spec_handler_resolved(
    ch: Seq<CatchHandler>,
    h: crate::catch_handlers::EncodedCatchHandler,
    st: crate::strings::Strings<'_>,
) -> bool {
    &&& ch.len() == h.handlers@.len() + (if h.catch_all_addr is Some {
        1int
    } else {
        0int
    })
    &&& forall|m: int|
        0 <= m < h.handlers@.len() ==> {
            let pair = #[trigger] h.handlers@[m];
            &&& ch[m].addr == pair.addr
            &&& pair.type_id <= u32::MAX
            &&& ch[m].exception matches ExceptionType::Type(desc) && mutf8_decoded(
                st.spec_type_desc_bytes(pair.type_id as int),
            ) == Some(desc@)
        }
    &&& h.catch_all_addr matches Some(a) ==> ch.last().exception is Base && ch.last().addr == a
}

/// Whether a try block is resolved against a handler list: some
/// recorded handler sits at the block's offset and the block's
/// catches are that handler's resolved view.
pub open spec fn spec_block_resolved(
    b: TryCatchBlock,
    l: EncodedCatchHandlerList,
    st: crate::strings::Strings<'_>,
    off: u16,
) -> bool {
    exists|j: int|
        0 <= j < l.0@.len() && (#[trigger] l.0@[j]).0 == off as usize && spec_handler_resolved(
            b.catch_handlers@,
            l.0@[j].1,
            st,
        )
}

/// Whether `off` is one of the byte offsets recorded in a handler
/// list.
pub open spec fn spec_resolves(l: EncodedCatchHandlerList, off: u16) -> bool {
    exists|j: int| 0 <= j < l.0@.len() && (#[trigger] l.0@[j]).0 == off as usize
}

/// Whether every try item of a code item resolves: its handler offset
/// is one of the recorded handler-list offsets.
pub open spec fn spec_tries_resolve(ci: CodeItem) -> bool {
    if ci.handlers is Some {
        forall|k: int|
            0 <= k < ci.tries@.len() ==> spec_resolves(
                ci.handlers->Some_0,
                (#[trigger] ci.tries@[k]).handler_off,
            )
    } else {
        ci.tries@.len() == 0
    }
}

/// The decoded body of a method.
pub struct DexMethodImplementation<'a> {
    /// The file the method belongs to.
    pub dex: &'a DexFile<'a>,
    /// The reconstructed index of the owning method.
    pub midx: u64,
    /// The decoded code item.
    pub raw: CodeItem,
}

impl<'a> DexMethodImplementation<'a> {
    /// The number of registers the method uses.
    pub fn registers(&self) -> (r: u16)
        ensures
            r == self.raw.registers_size,
    {
        self.raw.registers_size
    }

    /// The method's instructions, as 16-bit code units.
    pub fn instructions(&self) -> (r: &Vec<u16>)
        ensures
            r@ == self.raw.insns@,
    {
        &self.raw.insns
    }

    /// The resolved exception table: one block per try item, each
    /// handler offset resolved against the recorded handler-list
    /// offsets, typed catches resolved to descriptors and the
    /// catch-all appended last.
    #[verifier::loop_isolation(false)]
    pub fn try_blocks(&self) -> (r: Result<Vec<TryCatchBlock>, Error>)
        requires
            self.dex.wf(),
        ensures
            match r {
                Ok(bs) => {
                    &&& bs@.len() == self.raw.tries@.len()
                    &&& forall|k: int|
                        0 <= k < bs@.len() ==> {
                            &&& (#[trigger] bs@[k]).start_addr == self.raw.tries@[k].start_addr
                            &&& bs@[k].insn_count == self.raw.tries@[k].insn_count
                            &&& spec_block_resolved(
                                bs@[k],
                                self.raw.handlers->Some_0,
                                self.dex.strings,
                                self.raw.tries@[k].handler_off,
                            )
                        }
                    &&& spec_tries_resolve(self.raw)
                },
                Err(e) => e matches Error::InvalidExceptionHandler(off) ==> {
                    &&& self.raw.handlers matches Some(l) ==> exists|k: int|
                        0 <= k < self.raw.tries@.len() && (#[trigger] self.raw.tries@[
                            k
                        ]).handler_off == off && forall|j: int|
                            0 <= j < l.0@.len() ==> (#[trigger] l.0@[j]).0 != off as usize
                },
            },
    {
        let mut blocks: Vec<TryCatchBlock> = Vec::new();
        let handlers = match &self.raw.handlers {
            Some(h) => h,
            None => {
                if self.raw.tries.len() == 0 {
                    return Ok(blocks);
                } else {
                    // a decoded code item with tries always carries handlers;
                    // a hand-built one without them resolves nothing
                    let off = self.raw.tries[0].handler_off;
                    return Err(Error::InvalidExceptionHandler(off));
                }
            },
        };
        let mut k: usize = 0;
        while k < self.raw.tries.len()
            invariant
                0 <= k <= self.raw.tries@.len(),
                blocks@.len() == k,
                forall|j: int|
                    0 <= j < k ==> {
                        &&& (#[trigger] blocks@[j]).start_addr == self.raw.tries@[j].start_addr
                        &&& blocks@[j].insn_count == self.raw.tries@[j].insn_count
                        &&& spec_block_resolved(
                            blocks@[j],
                            self.raw.handlers->Some_0,
                            self.dex.strings,
                            self.raw.tries@[j].handler_off,
                        )
                    },
                forall|j: int|
                    0 <= j < k ==> spec_resolves(
                        self.raw.handlers->Some_0,
                        (#[trigger] self.raw.tries@[j]).handler_off,
                    ),
            decreases self.raw.tries@.len() - k,
        {
            let item = self.raw.tries[k];
            let eh = match handlers.find(item.handler_off) {
                Some(h) => h,
                None => {
                    return Err(Error::InvalidExceptionHandler(item.handler_off));
                },
            };
            proof {
                assert(spec_resolves(*handlers, item.handler_off));
                assert(*handlers == self.raw.handlers->Some_0);
                assert(spec_resolves(self.raw.handlers->Some_0, item.handler_off));
            }
            let raw_handlers = eh.handlers();
            let mut catch_handlers: Vec<CatchHandler> = Vec::new();
            let mut m: usize = 0;
            while m < raw_handlers.len()
                invariant
                    0 <= m <= raw_handlers@.len(),
                    catch_handlers@.len() == m,
                    forall|q: int|
                        0 <= q < m ==> spec_catch_resolved(
                            #[trigger] catch_handlers@[q],
                            raw_handlers@[q],
                            self.dex.strings,
                        ),
                decreases raw_handlers@.len() - m,
            {
                let rh = raw_handlers[m];
                let resolved = match rh.exception {
                    RawExceptionType::BaseException => ExceptionType::Base,
                    RawExceptionType::Type(type_id) => {
                        if type_id > u32::MAX as u64 {
                            return Err(
                                Error::StringRead(
                                    crate::strings::StringReadError::IndexOutOfBounds(u32::MAX),
                                ),
                            );
                        }
                        ExceptionType::Type(resolve_type(self.dex, type_id as u32)?)
                    },
                };
                catch_handlers.push(CatchHandler { exception: resolved, addr: rh.addr });
                m = m + 1;
            }
            let block = TryCatchBlock {
                start_addr: item.start_addr,
                insn_count: item.insn_count,
                catch_handlers,
            };
            proof {
                assert(spec_handler_resolved(block.catch_handlers@, *eh, self.dex.strings)) by {
                    assert forall|q: int|
                        0 <= q < eh.handlers@.len() implies {
                        let pair = #[trigger] eh.handlers@[q];
                        &&& block.catch_handlers@[q].addr == pair.addr
                        &&& pair.type_id <= u32::MAX
                        &&& block.catch_handlers@[q].exception matches ExceptionType::Type(desc)
                            && mutf8_decoded(
                            self.dex.strings.spec_type_desc_bytes(pair.type_id as int),
                        ) == Some(desc@)
                    } by {
                        assert(raw_handlers@[q] == (crate::catch_handlers::CatchHandler {
                            exception: RawExceptionType::Type(eh.handlers@[q].type_id),
                            addr: eh.handlers@[q].addr,
                        }));
                        assert(spec_catch_resolved(
                            block.catch_handlers@[q],
                            raw_handlers@[q],
                            self.dex.strings,
                        ));
                    }
                    if let Some(a) = eh.catch_all_addr {
                        let last = raw_handlers@.len() - 1;
                        assert(spec_catch_resolved(
                            block.catch_handlers@[last],
                            raw_handlers@[last],
                            self.dex.strings,
                        ));
                    }
                }
                let j = choose|j: int|
                    0 <= j < handlers.0@.len() && (#[trigger] handlers.0@[j]).0
                        == item.handler_off as usize && *eh == handlers.0@[j].1;
                assert(*handlers == self.raw.handlers->Some_0);
                assert(spec_handler_resolved(
                    block.catch_handlers@,
                    (self.raw.handlers->Some_0).0@[j].1,
                    self.dex.strings,
                ));
                assert(spec_block_resolved(
                    block,
                    self.raw.handlers->Some_0,
                    self.dex.strings,
                    item.handler_off,
                ));
            }
            blocks.push(block);
            k = k + 1;
        }
        proof {
            assert(self.raw.handlers is Some);
            assert(spec_tries_resolve(self.raw));
        }
        Ok(blocks)
    }

    /// The method's debug-info item; the read succeeds whenever the
    /// item's prefix parses at the debug-info offset and ends at
    /// once, and on success the starting line and parameter names are
    /// the decoded values.
    pub fn debug_info(&self) -> (r: Result<DebugInfoItem, Error>)
        requires
            self.dex.wf(),
        ensures
            (self.raw.debug_info_off <= self.dex.src@.len()
                && crate::code_item::debug_info_prefix_ends(
                self.dex.src@,
                self.raw.debug_info_off as int,
            )) ==> r is Ok,
            r matches Ok(di) ==> (crate::leb128::uleb_dec(
                self.dex.src@.skip(self.raw.debug_info_off as int),
            ) matches Some(p1) && {
                &&& di.line_start == p1.0
                &&& crate::leb128::uleb_dec(
                    self.dex.src@.skip(self.raw.debug_info_off + p1.1),
                ) matches Some(p2) && (crate::code_item::p1_run(
                    self.dex.src@.skip(self.raw.debug_info_off + p1.1 + p2.1),
                    p2.0,
                ) matches crate::codec::Parsed::Value(vs, nlen) && vs == di.parameter_names@)
            }),
    {
        if self.raw.debug_info_off as u64 > self.dex.src.len() as u64 {
            return Err(Error::Section(
                crate::section::SectionError::BadOffset(self.raw.debug_info_off as u64),
            ));
        }
        let mut pos = self.raw.debug_info_off as usize;
        match DebugInfoItem::read(self.dex.src, &mut pos) {
            Ok(d) => Ok(d),
            Err(e) => Err(Error::DebugInfo(e)),
        }
    }
}

} // verus!
