//! End-to-end tests over synthetic DEX images: opening, the string
//! engine, and the class object model.

use dexlib::catch_handlers::{EncodedCatchHandler, EncodedCatchHandlerList, EncodedTypeAddrPair};
use dexlib::class_data::{ClassData, EncodedField, EncodedMethod};
use dexlib::code_item::CodeItem;
use dexlib::dex::DexFile;
use dexlib::encoded_value::EncodedValue;
use dexlib::exceptions::ExceptionType;
use dexlib::flags::AccessFlags;
use dexlib::simple::TryItem;
use dexlib::map_list::ItemType;
use dexlib::strings::StringReadError;
use dexlib::Error;

const NO_INDEX: u32 = 0xffff_ffff;

struct ClassSpec {
    class_idx: u32,
    flags: u32,
    superclass_idx: u32,
    source_file_idx: u32,
    /// Offset of the annotations directory relative to the extra
    /// region, if any.
    annotations_rel: Option<u32>,
    /// Offset of the class data relative to the extra region, if any.
    class_data_rel: Option<u32>,
    /// Offset of the static-value array relative to the extra region.
    static_values_rel: Option<u32>,
}

struct DexSpec {
    /// MUTF-8 payloads (without length or NUL), sorted by byte order.
    strings: Vec<Vec<u8>>,
    /// UTF-16 code-unit length of each string.
    utf16_lens: Vec<u32>,
    /// Descriptor string index of each type.
    types: Vec<u32>,
    /// (shorty string, return type, parameters offset) of each proto.
    protos: Vec<(u32, u32, u32)>,
    /// (class type, field type, name string) of each field.
    fields: Vec<(u16, u16, u32)>,
    /// (class type, proto, name string) of each method.
    methods: Vec<(u16, u16, u32)>,
    classes: Vec<ClassSpec>,
}

fn push_u16(out: &mut Vec<u8>, v: u16) {
    out.extend_from_slice(&v.to_le_bytes());
}

fn push_u32(out: &mut Vec<u8>, v: u32) {
    out.extend_from_slice(&v.to_le_bytes());
}

fn push_uleb(out: &mut Vec<u8>, mut v: u32) {
    loop {
        let mut b = (v & 0x7f) as u8;
        v >>= 7;
        if v != 0 {
            b |= 0x80;
        }
        out.push(b);
        if v == 0 {
            break;
        }
    }
}

/// Assembles a DEX image.  `make_extra` receives the absolute offset
/// of the extra data region and produces its bytes.
fn build_dex(spec: &DexSpec, make_extra: impl Fn(u32) -> Vec<u8>) -> Vec<u8> {
    let s = spec.strings.len() as u32;
    let t = spec.types.len() as u32;
    let p = spec.protos.len() as u32;
    let f = spec.fields.len() as u32;
    let m = spec.methods.len() as u32;
    let c = spec.classes.len() as u32;
    let string_ids_off = 112u32;
    let type_ids_off = string_ids_off + 4 * s;
    let proto_ids_off = type_ids_off + 4 * t;
    let field_ids_off = proto_ids_off + 12 * p;
    let method_ids_off = field_ids_off + 8 * f;
    let class_defs_off = method_ids_off + 8 * m;
    let map_off = class_defs_off + 32 * c;
    let data_off = map_off + 4 + 12;
    // string data region first, then the extra region
    let mut string_data: Vec<u8> = Vec::new();
    let mut string_offs: Vec<u32> = Vec::new();
    for (i, payload) in spec.strings.iter().enumerate() {
        string_offs.push(data_off + string_data.len() as u32);
        push_uleb(&mut string_data, spec.utf16_lens[i]);
        string_data.extend_from_slice(payload);
        string_data.push(0);
    }
    let extra_base = data_off + string_data.len() as u32;
    let extra = make_extra(extra_base);
    let data_size = string_data.len() as u32 + extra.len() as u32;

    let mut out: Vec<u8> = Vec::new();
    out.extend_from_slice(b"dex\n035\0");
    push_u32(&mut out, 0); // checksum, patched below
    out.extend_from_slice(&[0u8; 20]); // signature
    let file_size = data_off + data_size;
    push_u32(&mut out, file_size);
    push_u32(&mut out, 112);
    push_u32(&mut out, 0x12345678);
    push_u32(&mut out, 0); // link_size
    push_u32(&mut out, 0); // link_off
    push_u32(&mut out, map_off);
    push_u32(&mut out, s);
    push_u32(&mut out, if s == 0 { 0 } else { string_ids_off });
    push_u32(&mut out, t);
    push_u32(&mut out, if t == 0 { 0 } else { type_ids_off });
    push_u32(&mut out, p);
    push_u32(&mut out, if p == 0 { 0 } else { proto_ids_off });
    push_u32(&mut out, f);
    push_u32(&mut out, if f == 0 { 0 } else { field_ids_off });
    push_u32(&mut out, m);
    push_u32(&mut out, if m == 0 { 0 } else { method_ids_off });
    push_u32(&mut out, c);
    push_u32(&mut out, if c == 0 { 0 } else { class_defs_off });
    push_u32(&mut out, data_size);
    push_u32(&mut out, data_off);
    assert_eq!(out.len(), 112);
    for off in &string_offs {
        push_u32(&mut out, *off);
    }
    for d in &spec.types {
        push_u32(&mut out, *d);
    }
    for (shorty, ret, params) in &spec.protos {
        push_u32(&mut out, *shorty);
        push_u32(&mut out, *ret);
        push_u32(&mut out, *params);
    }
    for (ct, ft, name) in &spec.fields {
        push_u16(&mut out, *ct);
        push_u16(&mut out, *ft);
        push_u32(&mut out, *name);
    }
    for (ct, proto, name) in &spec.methods {
        push_u16(&mut out, *ct);
        push_u16(&mut out, *proto);
        push_u32(&mut out, *name);
    }
    for cls in &spec.classes {
        push_u32(&mut out, cls.class_idx);
        push_u32(&mut out, cls.flags);
        push_u32(&mut out, cls.superclass_idx);
        push_u32(&mut out, 0); // interfaces_off
        push_u32(&mut out, cls.source_file_idx);
        push_u32(&mut out, cls.annotations_rel.map_or(0, |r| extra_base + r));
        push_u32(&mut out, cls.class_data_rel.map_or(0, |r| extra_base + r));
        push_u32(&mut out, cls.static_values_rel.map_or(0, |r| extra_base + r));
    }
    // the map list: one entry naming the class-definition pool
    push_u32(&mut out, 1);
    push_u16(&mut out, 0x0006); // class-def item
    push_u16(&mut out, 0);
    push_u32(&mut out, c);
    push_u32(&mut out, class_defs_off);
    assert_eq!(out.len() as u32, data_off);
    out.extend_from_slice(&string_data);
    out.extend_from_slice(&extra);
    let sum = adler32::RollingAdler32::from_buffer(&out[12..]).hash();
    out[8..12].copy_from_slice(&sum.to_le_bytes());
    out
}

fn empty_spec() -> DexSpec {
    DexSpec {
        strings: vec![],
        utf16_lens: vec![],
        types: vec![],
        protos: vec![],
        fields: vec![],
        methods: vec![],
        classes: vec![],
    }
}

#[test]
fn empty_header_opens() {
    let buf = build_dex(&empty_spec(), |_| Vec::new());
    let dex = DexFile::open(&buf).unwrap();
    assert_eq!(dex.strings().len(), 0);
    let mut it = dex.classes();
    assert_eq!(it.size(), 0);
    assert!(it.next().is_none());
}

#[test]
fn empty_pool_find_is_not_found() {
    let buf = build_dex(&empty_spec(), |_| Vec::new());
    let dex = DexFile::open(&buf).unwrap();
    assert_eq!(
        dex.strings().find("anything"),
        Err(StringReadError::StringNotFound)
    );
}

fn strings_spec(items: &[&str]) -> DexSpec {
    let mut spec = empty_spec();
    for s in items {
        spec.strings.push(s.as_bytes().to_vec());
        spec.utf16_lens.push(s.encode_utf16().count() as u32);
    }
    spec
}

#[test]
fn test() {
    // picking the middle string, decoding it and searching for its
    // content leads back to the same id
    let buf = build_dex(&strings_spec(&["AA", "BB", "CC", "DD", "EE"]), |_| Vec::new());
    let dex = DexFile::open(&buf).unwrap();
    let sidx = dex.strings().len() / 2;
    let sid_1 = dex.strings().id_at(sidx).unwrap();
    let s = dex.strings().get(&sid_1).unwrap();
    assert_eq!(s, "CC");
    let sid_2 = dex.strings().find(&s).unwrap();
    assert_eq!(sid_1, sid_2);
}

#[test]
fn strings_test() {
    let buf = build_dex(&strings_spec(&["alpha", "beta", "gamma"]), |_| Vec::new());
    let dex = DexFile::open(&buf).unwrap();
    let sidx = dex.strings().len() / 2;
    let sid_1 = dex.strings().id_at(sidx).unwrap();
    let s = dex.strings().get(&sid_1).unwrap();
    let sid_2 = dex.strings().find(&s).unwrap();
    assert_eq!(sid_1, sid_2);
}

#[test]
fn find_every_string() {
    let items = ["", "A", "AB", "B", "Z"];
    let buf = build_dex(&strings_spec(&items), |_| Vec::new());
    let dex = DexFile::open(&buf).unwrap();
    for i in 0..items.len() as u32 {
        let id = dex.strings().id_at(i).unwrap();
        let s = dex.strings().get(&id).unwrap();
        assert_eq!(s, items[i as usize]);
        assert_eq!(dex.strings().find(&s).unwrap(), id);
    }
    assert_eq!(
        dex.strings().find("missing"),
        Err(StringReadError::StringNotFound)
    );
}

#[test]
fn mutf8_supplementary_and_nul() {
    // U+10000 is stored as a six-byte surrogate pair; NUL as 0xC0 0x80
    let mut spec = empty_spec();
    spec.strings.push(vec![0xc0, 0x80]);
    spec.utf16_lens.push(1);
    spec.strings.push(vec![0xed, 0xa0, 0x80, 0xed, 0xb0, 0x80]);
    spec.utf16_lens.push(2);
    let buf = build_dex(&spec, |_| Vec::new());
    let dex = DexFile::open(&buf).unwrap();
    let nul = dex.strings().get(&dex.strings().id_at(0).unwrap()).unwrap();
    assert_eq!(nul, "\0");
    let supp = dex.strings().get(&dex.strings().id_at(1).unwrap()).unwrap();
    assert_eq!(supp, "\u{10000}");
    assert_eq!(supp.len(), 4);
    // searching by decoded content re-encodes and finds the pair
    assert_eq!(
        dex.strings().find("\u{10000}").unwrap(),
        dex.strings().id_at(1).unwrap()
    );
}

#[test]
fn string_id_out_of_bounds() {
    let buf = build_dex(&strings_spec(&["only"]), |_| Vec::new());
    let dex = DexFile::open(&buf).unwrap();
    assert_eq!(
        dex.strings().id_at(1),
        Err(StringReadError::IndexOutOfBounds(1))
    );
}

#[test]
fn string_offset_out_of_bounds() {
    let buf = build_dex(&strings_spec(&["only"]), |_| Vec::new());
    let dex = DexFile::open(&buf).unwrap();
    let id = dexlib::string::StringId(7);
    assert_eq!(dex.strings().get(&id), Err(StringReadError::OffsetOutOfBounds(7)));
}

#[test]
fn malformed_string_data() {
    let mut spec = empty_spec();
    spec.strings.push(vec![0xff, 0xfe]);
    spec.utf16_lens.push(1);
    let buf = build_dex(&spec, |_| Vec::new());
    let dex = DexFile::open(&buf).unwrap();
    let id = dex.strings().id_at(0).unwrap();
    assert!(matches!(
        dex.strings().get(&id),
        Err(StringReadError::Malformed(_))
    ));
}

fn class_spec() -> DexSpec {
    let mut spec = strings_spec(&["I", "Lfoo/Bar;", "Ljava/lang/Exception;", "V", "m", "x"]);
    spec.types = vec![0, 1, 2, 3];
    spec.protos = vec![(3, 3, 0)];
    spec.fields = vec![(1, 0, 5)];
    spec.methods = vec![(1, 0, 4)];
    spec.classes = vec![ClassSpec {
        class_idx: 1,
        flags: 0x1,
        superclass_idx: NO_INDEX,
        source_file_idx: NO_INDEX,
        annotations_rel: None,
        class_data_rel: Some(0),
        static_values_rel: None,
    }];
    spec
}

#[test]
fn single_class_without_data() {
    let mut spec = class_spec();
    spec.classes[0].class_data_rel = None;
    let buf = build_dex(&spec, |_| Vec::new());
    let dex = DexFile::open(&buf).unwrap();
    let mut it = dex.classes();
    assert_eq!(it.size(), 1);
    let class = it.next().unwrap().unwrap();
    assert_eq!(class.descriptor().unwrap(), "Lfoo/Bar;");
    assert_eq!(class.superclass().unwrap(), None);
    assert_eq!(class.source_file().unwrap(), None);
    assert_eq!(class.interfaces().unwrap().len(), 0);
    assert_eq!(class.fields().unwrap().len(), 0);
    assert_eq!(class.methods().unwrap().len(), 0);
    assert!(it.next().is_none());
}

/// Builds the extra region of the full class scenario: a static-value
/// array, a code item with one try block, and the class data.
fn class_extra(extra_base: u32) -> Vec<u8> {
    let mut extra: Vec<u8> = Vec::new();
    // the static-value array: one int initialized to -1
    push_uleb(&mut extra, 1);
    EncodedValue::Int(-1).write(&mut extra);
    let code_rel = extra.len() as u32;
    let code = CodeItem {
        registers_size: 1,
        ins_size: 0,
        outs_size: 0,
        debug_info_off: 0,
        insns: vec![0, 0, 0],
        tries: vec![TryItem { start_addr: 0, insn_count: 3, handler_off: 1 }],
        handlers: Some(EncodedCatchHandlerList(vec![(
            1,
            EncodedCatchHandler {
                size: 1,
                handlers: vec![EncodedTypeAddrPair { type_id: 2, addr: 5 }],
                catch_all_addr: None,
            },
        )])),
    };
    code.write(&mut extra);
    let class_data_rel = extra.len() as u32;
    assert_eq!(class_data_rel, code_rel + 16 + 6 + 2 + 8 + 4);
    let cd = ClassData {
        static_fields_size: 1,
        instance_fields_size: 0,
        direct_methods_size: 1,
        virtual_methods_size: 0,
        static_fields: vec![EncodedField {
            field_idx_diff: 0,
            access_flags: AccessFlags::from_bits_truncate(0x9),
        }],
        instance_fields: vec![],
        direct_methods: vec![EncodedMethod {
            method_idx_diff: 0,
            access_flags: AccessFlags::from_bits_truncate(0x1),
            code_off: (extra_base + code_rel) as u64,
        }],
        virtual_methods: vec![],
    };
    cd.write(&mut extra);
    extra
}

fn full_class_spec() -> DexSpec {
    let mut spec = class_spec();
    // the class data sits after the 3-byte static array and the code
    // item (16 header + 6 insns + 2 pad + 8 try + 4 handler bytes)
    spec.classes[0].class_data_rel = Some(3 + 16 + 6 + 2 + 8 + 4);
    spec.classes[0].static_values_rel = Some(0);
    spec
}

#[test]
fn static_field_with_initial_value() {
    let buf = build_dex(&full_class_spec(), class_extra);
    let dex = DexFile::open(&buf).unwrap();
    let class = dex.classes().next().unwrap().unwrap();
    let fields = class.static_fields().unwrap();
    assert_eq!(fields.len(), 1);
    assert_eq!(fields[0].idx, 0);
    assert_eq!(fields[0].name().unwrap(), "x");
    assert_eq!(fields[0].descriptor().unwrap(), "I");
    assert_eq!(fields[0].defining_class().unwrap(), "Lfoo/Bar;");
    assert!(matches!(
        fields[0].initial_value(),
        Some(EncodedValue::Int(-1))
    ));
    assert_eq!(class.instance_fields().unwrap().len(), 0);
}

#[test]
fn try_catch_blocks_resolve() {
    let buf = build_dex(&full_class_spec(), class_extra);
    let dex = DexFile::open(&buf).unwrap();
    let class = dex.classes().next().unwrap().unwrap();
    let methods = class.direct_methods().unwrap();
    assert_eq!(methods.len(), 1);
    assert_eq!(methods[0].name().unwrap(), "m");
    assert_eq!(methods[0].return_type().unwrap(), "V");
    let imp = methods[0].implementation().unwrap().expect("code present");
    assert_eq!(imp.registers(), 1);
    assert_eq!(imp.instructions().len(), 3);
    let blocks = imp.try_blocks().unwrap();
    assert_eq!(blocks.len(), 1);
    assert_eq!(blocks[0].start_addr, 0);
    assert_eq!(blocks[0].insn_count, 3);
    assert_eq!(blocks[0].catch_handlers.len(), 1);
    assert_eq!(blocks[0].catch_handlers[0].addr, 5);
    match &blocks[0].catch_handlers[0].exception {
        ExceptionType::Type(desc) => assert_eq!(desc, "Ljava/lang/Exception;"),
        ExceptionType::Base => panic!("expected a typed handler"),
    }
}

#[test]
fn abstract_method_has_no_implementation() {
    let mut spec = class_spec();
    spec.classes[0].class_data_rel = Some(0);
    let buf = build_dex(&spec, |_| {
        let mut extra: Vec<u8> = Vec::new();
        let cd = ClassData {
            static_fields_size: 0,
            instance_fields_size: 0,
            direct_methods_size: 1,
            virtual_methods_size: 0,
            static_fields: vec![],
            instance_fields: vec![],
            direct_methods: vec![EncodedMethod {
                method_idx_diff: 0,
                access_flags: AccessFlags::from_bits_truncate(0x400),
                code_off: 0,
            }],
            virtual_methods: vec![],
        };
        cd.write(&mut extra);
        extra
    });
    let dex = DexFile::open(&buf).unwrap();
    let class = dex.classes().next().unwrap().unwrap();
    let methods = class.direct_methods().unwrap();
    assert!(methods[0].implementation().unwrap().is_none());
    assert_eq!(methods[0].parameters().unwrap().len(), 0);
}

#[test]
fn member_indices_reconstruct_strictly_increasing() {
    // two static fields stored as differences 3 and 2 reconstruct to
    // the strictly increasing indices 3 and 5
    let mut spec = class_spec();
    spec.fields = vec![(1, 0, 5), (1, 0, 5), (1, 0, 5), (1, 0, 5), (1, 0, 4), (1, 0, 5)];
    spec.classes[0].class_data_rel = Some(0);
    let buf = build_dex(&spec, |_| {
        let mut extra: Vec<u8> = Vec::new();
        let cd = ClassData {
            static_fields_size: 2,
            instance_fields_size: 0,
            direct_methods_size: 0,
            virtual_methods_size: 0,
            static_fields: vec![
                EncodedField {
                    field_idx_diff: 3,
                    access_flags: AccessFlags::from_bits_truncate(0x9),
                },
                EncodedField {
                    field_idx_diff: 2,
                    access_flags: AccessFlags::from_bits_truncate(0x9),
                },
            ],
            instance_fields: vec![],
            direct_methods: vec![],
            virtual_methods: vec![],
        };
        cd.write(&mut extra);
        extra
    });
    let dex = DexFile::open(&buf).unwrap();
    let class = dex.classes().next().unwrap().unwrap();
    let fields = class.static_fields().unwrap();
    assert_eq!(fields.len(), 2);
    assert_eq!(fields[0].idx, 3);
    assert_eq!(fields[1].idx, 5);
    assert!(fields[0].idx < fields[1].idx);
}

#[test]
fn unresolved_handler_offset_is_an_error() {
    // a try item pointing at a handler offset the list never recorded
    let mut spec = class_spec();
    // the code item (36 bytes) comes first, the class data after it
    spec.classes[0].class_data_rel = Some(36);
    let buf = build_dex(&spec, |extra_base| {
        let mut extra: Vec<u8> = Vec::new();
        let code = CodeItem {
            registers_size: 1,
            ins_size: 0,
            outs_size: 0,
            debug_info_off: 0,
            insns: vec![0, 0, 0],
            tries: vec![TryItem { start_addr: 0, insn_count: 3, handler_off: 9 }],
            handlers: Some(EncodedCatchHandlerList(vec![(
                1,
                EncodedCatchHandler {
                    size: 1,
                    handlers: vec![EncodedTypeAddrPair { type_id: 2, addr: 5 }],
                    catch_all_addr: None,
                },
            )])),
        };
        code.write(&mut extra);
        assert_eq!(extra.len(), 36);
        class_data_with_code(extra_base as u64).write(&mut extra);
        extra
    });
    let dex = DexFile::open(&buf).unwrap();
    let class = dex.classes().next().unwrap().unwrap();
    let methods = class.direct_methods().unwrap();
    let imp = methods[0].implementation().unwrap().expect("code present");
    assert!(matches!(
        imp.try_blocks(),
        Err(Error::InvalidExceptionHandler(9))
    ));
}

fn class_data_with_code(code_off: u64) -> ClassData {
    ClassData {
        static_fields_size: 0,
        instance_fields_size: 0,
        direct_methods_size: 1,
        virtual_methods_size: 0,
        static_fields: vec![],
        instance_fields: vec![],
        direct_methods: vec![EncodedMethod {
            method_idx_diff: 0,
            access_flags: AccessFlags::from_bits_truncate(0x1),
            code_off,
        }],
        virtual_methods: vec![],
    }
}

#[test]
fn catch_all_handler_is_base() {
    let mut spec = class_spec();
    // the code item (31 bytes, no pad for an even count) comes first
    spec.classes[0].class_data_rel = Some(31);
    let buf = build_dex(&spec, |extra_base| {
        let mut extra: Vec<u8> = Vec::new();
        let code = CodeItem {
            registers_size: 1,
            ins_size: 0,
            outs_size: 0,
            debug_info_off: 0,
            insns: vec![0, 0],
            tries: vec![TryItem { start_addr: 0, insn_count: 2, handler_off: 1 }],
            handlers: Some(EncodedCatchHandlerList(vec![(
                1,
                EncodedCatchHandler { size: 0, handlers: vec![], catch_all_addr: Some(7) },
            )])),
        };
        code.write(&mut extra);
        assert_eq!(extra.len(), 31);
        class_data_with_code(extra_base as u64).write(&mut extra);
        extra
    });
    let dex = DexFile::open(&buf).unwrap();
    let class = dex.classes().next().unwrap().unwrap();
    let methods = class.direct_methods().unwrap();
    let imp = methods[0].implementation().unwrap().expect("code present");
    let blocks = imp.try_blocks().unwrap();
    assert_eq!(blocks[0].catch_handlers.len(), 1);
    assert!(matches!(
        blocks[0].catch_handlers[0].exception,
        ExceptionType::Base
    ));
    assert_eq!(blocks[0].catch_handlers[0].addr, 7);
}

#[test]
fn open_rejects_bad_magic() {
    let mut buf = build_dex(&empty_spec(), |_| Vec::new());
    buf[0] = b'x';
    assert!(matches!(
        DexFile::open(&buf),
        Err(Error::Header(dexlib::header::HeaderError::InvalidMagic(_)))
    ));
}

#[test]
fn open_rejects_bad_checksum() {
    let mut buf = build_dex(&empty_spec(), |_| Vec::new());
    let last = buf.len() - 1;
    buf[last] ^= 0xff;
    assert!(matches!(
        DexFile::open(&buf),
        Err(Error::Header(dexlib::header::HeaderError::InvalidChecksum))
    ));
}

#[test]
fn open_rejects_bad_endian_tag() {
    let mut buf = build_dex(&empty_spec(), |_| Vec::new());
    buf[40] = 0x12;
    buf[41] = 0x34;
    buf[42] = 0x56;
    buf[43] = 0x78;
    let sum = adler32::RollingAdler32::from_buffer(&buf[12..]).hash();
    buf[8..12].copy_from_slice(&sum.to_le_bytes());
    assert!(matches!(
        DexFile::open(&buf),
        Err(Error::Header(dexlib::header::HeaderError::InvalidEndianTag(_)))
    ));
}

#[test]
fn open_rejects_short_buffer() {
    let buf = build_dex(&empty_spec(), |_| Vec::new());
    assert!(matches!(
        DexFile::open(&buf[..50]),
        Err(Error::Header(dexlib::header::HeaderError::InvalidLength(50)))
    ));
}

#[test]
fn open_rejects_unknown_map_item_type() {
    let mut buf = build_dex(&empty_spec(), |_| Vec::new());
    // the single map entry starts four bytes after the map offset
    let map_off = u32::from_le_bytes([buf[52], buf[53], buf[54], buf[55]]) as usize;
    buf[map_off + 4] = 0x09;
    let sum = adler32::RollingAdler32::from_buffer(&buf[12..]).hash();
    buf[8..12].copy_from_slice(&sum.to_le_bytes());
    assert!(matches!(
        DexFile::open(&buf),
        Err(Error::MapList(dexlib::map_list::MapListError::InvalidTypeId(9)))
    ));
}

#[test]
fn class_index_out_of_bounds() {
    let buf = build_dex(&empty_spec(), |_| Vec::new());
    let dex = DexFile::open(&buf).unwrap();
    assert!(matches!(
        dex.class_def(0),
        Err(Error::ClassIndexOutOfBounds(0, 0))
    ));
}

#[test]
fn map_list_lookups() {
    let buf = build_dex(&empty_spec(), |_| Vec::new());
    let dex = DexFile::open(&buf).unwrap();
    assert_eq!(dex.map_list().get_len(ItemType::ClassDefItem), Some(0));
    assert!(dex.map_list().get_offset(ItemType::ClassDefItem).is_some());
    assert_eq!(dex.map_list().get(ItemType::CodeItem).is_none(), true);
}

#[test]
fn annotation_visibility_bad_byte() {
    let bytes = [0x07u8, 0x00, 0x00];
    let mut off = 0usize;
    assert!(matches!(
        dexlib::annotations::Annotation::read(&bytes, &mut off),
        Err(dexlib::annotations::AnnotationError::InvalidVisibility(7))
    ));
}

#[test]
fn added_strings_are_queued_encoded() {
    let buf = build_dex(&strings_spec(&["AA"]), |_| Vec::new());
    let header = dexlib::header::Header::read(&buf).unwrap();
    let mut strings = dexlib::strings::Strings::new(&buf, &header).unwrap();
    assert_eq!(strings.added_strings.len(), 0);
    strings.add("zz");
    assert_eq!(strings.added_strings.len(), 1);
    assert_eq!(strings.added_strings[0], b"zz");
    // a NUL is re-encoded as the two-byte MUTF-8 form
    strings.add("\0");
    assert_eq!(strings.added_strings[1], [0xc0, 0x80]);
}

#[test]
fn class_and_field_annotations_resolve() {
    // extra region: an annotation item, a one-item annotation set,
    // class data with one static field, and the directory
    let mut spec = class_spec();
    spec.classes[0].annotations_rel = Some(3 + 8 + 6);
    spec.classes[0].class_data_rel = Some(3 + 8);
    let buf = build_dex(&spec, |extra_base| {
        let mut extra: Vec<u8> = Vec::new();
        // the annotation item: runtime visibility, type 2, no elements
        extra.extend_from_slice(&[0x01, 0x02, 0x00]);
        // the set: one entry naming the item
        push_u32(&mut extra, 1);
        push_u32(&mut extra, extra_base);
        // class data: one static field at index 0
        let cd = ClassData {
            static_fields_size: 1,
            instance_fields_size: 0,
            direct_methods_size: 0,
            virtual_methods_size: 0,
            static_fields: vec![EncodedField {
                field_idx_diff: 0,
                access_flags: AccessFlags::from_bits_truncate(0x9),
            }],
            instance_fields: vec![],
            direct_methods: vec![],
            virtual_methods: vec![],
        };
        cd.write(&mut extra);
        assert_eq!(extra.len(), 3 + 8 + 6);
        // the directory: the class's set and one field entry
        push_u32(&mut extra, extra_base + 3);
        push_u32(&mut extra, 1);
        push_u32(&mut extra, 0);
        push_u32(&mut extra, 0);
        push_u32(&mut extra, 0);
        push_u32(&mut extra, extra_base + 3);
        extra
    });
    let dex = DexFile::open(&buf).unwrap();
    let class = dex.classes().next().unwrap().unwrap();
    let anns = class.annotations().unwrap();
    assert_eq!(anns.len(), 1);
    assert!(matches!(anns[0].visibility, dexlib::annotations::Visibility::Runtime));
    assert_eq!(anns[0].annotation.type_idx, 2);
    let dir = class.annotations_dir().unwrap().expect("directory present");
    assert_eq!(dir.field_annotations.len(), 1);
    let fields = class.static_fields().unwrap();
    let fanns = fields[0].annotations(&dir).unwrap();
    assert_eq!(fanns.len(), 1);
    assert_eq!(fanns[0].annotation.type_idx, 2);
}

#[test]
fn header_accessors() {
    let buf = build_dex(&strings_spec(&["A"]), |_| Vec::new());
    let dex = DexFile::open(&buf).unwrap();
    let h = dex.header();
    assert_eq!(h.header_size, 112);
    assert_eq!(h.endian_tag, 0x12345678);
    assert_eq!(h.string_ids_size, 1);
    let id = dex.strings().id_at(0).unwrap();
    assert!(h.in_data_section(id.offset()));
    let (start, end) = h.data_section();
    assert!(start as u64 <= id.offset() as u64 && (id.offset() as u64) < end);
}
