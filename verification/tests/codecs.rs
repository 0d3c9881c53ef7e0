//! Round-trip and boundary tests for the byte-level codecs.

use dexlib::classdef::ClassDef;
use dexlib::code_item::{CodeItem, DebugInfoItem};
use dexlib::encoded_value::{EncodedAnnotation, EncodedValue};
use dexlib::flags::{AccessFlags, RestrictionFlag};
use dexlib::header::{Header, Version};
use dexlib::leb128::{LebError, Sleb128, Uleb128};
use dexlib::map_list::{ItemType, MapItem};
use dexlib::method_handle::{MethodHandle, MethodHandleError, MethodHandleType};
use dexlib::simple::{FieldId, MethodId, ProtoId, TryItem, TypeId};

#[test]
fn debug_info() {
    let v = DebugInfoItem {
        line_start: 256,
        parameter_names: vec![Some(256), None, Some(1)],
    };
    let mut buf: Vec<u8> = Vec::new();
    v.write(&mut buf);
    let mut off = 0usize;
    let v2 = DebugInfoItem::read(&buf, &mut off).unwrap();
    assert_eq!(v, v2);
}

#[test]
fn uleb128_round_trip() {
    for &v in &[0u64, 1, 127, 128, 300, 16384, u32::MAX as u64, u64::MAX] {
        let mut buf: Vec<u8> = Vec::new();
        Uleb128::write(&mut buf, v);
        let mut off = 0usize;
        let back = Uleb128::read(&buf, &mut off).unwrap();
        assert_eq!(back, v);
        assert_eq!(off, buf.len());
    }
}

#[test]
fn sleb128_round_trip() {
    for &v in &[0i64, 1, -1, 63, 64, -64, -65, 127, -128, i64::MAX, i64::MIN] {
        let mut buf: Vec<u8> = Vec::new();
        Sleb128::write(&mut buf, v);
        let mut off = 0usize;
        let back = Sleb128::read(&buf, &mut off).unwrap();
        assert_eq!(back, v);
        assert_eq!(off, buf.len());
    }
}

#[test]
fn uleb128_minimal_reencode() {
    // decoding minimal bytes and re-encoding reproduces them exactly
    for bytes in [
        vec![0x00u8],
        vec![0x7f],
        vec![0x80, 0x01],
        vec![0xff, 0x7f],
        vec![0x80, 0x80, 0x01],
    ] {
        let mut off = 0usize;
        let v = Uleb128::read(&bytes, &mut off).unwrap();
        assert_eq!(off, bytes.len());
        let mut out: Vec<u8> = Vec::new();
        Uleb128::write(&mut out, v);
        assert_eq!(out, bytes);
    }
}

#[test]
fn uleb128_ten_byte_overflow_is_bad_input() {
    // a tenth byte above 1 does not fit in 64 payload bits
    let mut bytes = vec![0x80u8; 9];
    bytes.push(0x02);
    let mut off = 0usize;
    assert_eq!(Uleb128::read(&bytes, &mut off), Err(LebError::BadInput));
    // while a tenth byte of 1 is accepted as the top bit
    let mut ok = vec![0x80u8; 9];
    ok.push(0x01);
    let mut off2 = 0usize;
    assert_eq!(Uleb128::read(&ok, &mut off2), Ok(1u64 << 63));
}

#[test]
fn uleb128_p1_round_trip() {
    // an encoded 0 means "absent"; anything else is the value plus one
    let bytes = [0x00u8, 0x01, 0x81, 0x02];
    let mut off = 0usize;
    assert_eq!(Uleb128::read_p1(&bytes, &mut off), Ok(None));
    assert_eq!(Uleb128::read_p1(&bytes, &mut off), Ok(Some(0)));
    assert_eq!(Uleb128::read_p1(&bytes, &mut off), Ok(Some(256)));
    assert_eq!(off, 4);
}

#[test]
fn sleb128_minimal_reencode() {
    for bytes in [
        vec![0x00u8],
        vec![0x7f],
        vec![0x3f],
        vec![0x40],
        vec![0x80, 0x01],
        vec![0xff, 0x7e],
    ] {
        let mut off = 0usize;
        let v = Sleb128::read(&bytes, &mut off).unwrap();
        assert_eq!(off, bytes.len());
        let mut out: Vec<u8> = Vec::new();
        Sleb128::write(&mut out, v);
        assert_eq!(out, bytes);
    }
}

#[test]
fn uleb128_truncated_is_bad_offset() {
    let bytes = vec![0x80u8, 0x80];
    let mut off = 0usize;
    assert_eq!(Uleb128::read(&bytes, &mut off), Err(LebError::BadOffset));
}

fn value_round_trip(v: &EncodedValue) {
    let mut buf: Vec<u8> = Vec::new();
    v.write(&mut buf);
    let mut off = 0usize;
    let back = EncodedValue::read(&buf, &mut off).unwrap();
    assert_eq!(off, buf.len());
    assert_eq!(format!("{:?}", back), format!("{:?}", v));
}

#[test]
fn encoded_value_byte() {
    value_round_trip(&EncodedValue::Byte(0x7f));
    value_round_trip(&EncodedValue::Byte(-1));
}

#[test]
fn encoded_value_short() {
    value_round_trip(&EncodedValue::Short(12345));
    value_round_trip(&EncodedValue::Short(-12345));
}

#[test]
fn encoded_value_char() {
    value_round_trip(&EncodedValue::Char(12345));
}

#[test]
fn encoded_value_int() {
    value_round_trip(&EncodedValue::Int(i32::MIN));
    value_round_trip(&EncodedValue::Int(-1));
}

#[test]
fn encoded_value_long() {
    value_round_trip(&EncodedValue::Long(i64::MAX));
    value_round_trip(&EncodedValue::Long(i64::MIN));
}

#[test]
fn encoded_value_float() {
    value_round_trip(&EncodedValue::Float(12345.0f32.to_bits()));
}

#[test]
fn encoded_value_double() {
    value_round_trip(&EncodedValue::Double(12345.0f64.to_bits()));
}

#[test]
fn encoded_value_indices() {
    value_round_trip(&EncodedValue::MethodType(256));
    value_round_trip(&EncodedValue::MethodHandle(256));
    value_round_trip(&EncodedValue::String(256));
    value_round_trip(&EncodedValue::Type(256));
    value_round_trip(&EncodedValue::Field(256));
    value_round_trip(&EncodedValue::Method(256));
    value_round_trip(&EncodedValue::Enum(256));
}

#[test]
fn encoded_value_array() {
    value_round_trip(&EncodedValue::Array(vec![
        EncodedValue::Byte(0x7f),
        EncodedValue::Boolean(true),
    ]));
}

#[test]
fn encoded_value_annotation() {
    value_round_trip(&EncodedValue::Annotation(EncodedAnnotation {
        type_idx: 256,
        size: 0,
        elements: vec![],
    }));
}

#[test]
fn encoded_value_null_and_boolean() {
    value_round_trip(&EncodedValue::Null);
    value_round_trip(&EncodedValue::Boolean(true));
    value_round_trip(&EncodedValue::Boolean(false));
}

#[test]
fn encoded_value_int_minus_one_bytes() {
    // header 0x24 packs value_arg 1 and value type 4; the two payload
    // bytes sign-extend to -1
    let bytes = [0x24u8, 0xff, 0xff];
    let mut off = 0usize;
    let v = EncodedValue::read(&bytes, &mut off).unwrap();
    assert!(matches!(v, EncodedValue::Int(-1)));
    assert_eq!(off, 3);
}

#[test]
fn encoded_value_float_low_padding() {
    // a one-byte float payload fills the high-order end; the low
    // bytes are implicitly zero
    let bytes = [0x10u8, 0x3f];
    let mut off = 0usize;
    let v = EncodedValue::read(&bytes, &mut off).unwrap();
    match v {
        EncodedValue::Float(bits) => {
            assert_eq!(bits, 0x3f00_0000);
            assert_eq!(bits % 0x0100_0000, 0);
            assert_eq!(f32::from_bits(bits), 0.5f32);
        }
        _ => panic!("expected a float"),
    }
}

#[test]
fn encoded_value_bad_type_code() {
    let bytes = [0x01u8];
    let mut off = 0usize;
    assert!(EncodedValue::read(&bytes, &mut off).is_err());
}

#[test]
fn debug_info_opcode_tail_is_walked() {
    // line 9, no parameters, then an advance-pc op, an advance-line
    // op, a special opcode and the end marker
    let bytes = [0x09u8, 0x00, 0x01, 0x05, 0x02, 0x7f, 0x0a, 0x00];
    let mut off = 0usize;
    let di = DebugInfoItem::read(&bytes, &mut off).unwrap();
    assert_eq!(di.line_start, 9);
    assert_eq!(di.parameter_names.len(), 0);
    assert_eq!(off, bytes.len());
}

#[test]
fn try_item_round_trip() {
    let t = TryItem { start_addr: 7, insn_count: 3, handler_off: 2 };
    let mut buf: Vec<u8> = Vec::new();
    t.write(&mut buf);
    assert_eq!(buf.len(), 8);
    let mut off = 0usize;
    let t2 = TryItem::read(&buf, &mut off).unwrap();
    assert_eq!(t, t2);
}

#[test]
fn id_records_round_trip() {
    let mut buf: Vec<u8> = Vec::new();
    TypeId { descriptor_idx: 9 }.write(&mut buf);
    ProtoId { shorty_idx: 1, return_type_idx: 2, parameters_off: 3 }.write(&mut buf);
    FieldId { class_idx: 4, type_idx: 5, name_idx: 6 }.write(&mut buf);
    MethodId { class_idx: 7, proto_idx: 8, name_idx: 9 }.write(&mut buf);
    let mut off = 0usize;
    assert_eq!(TypeId::read(&buf, &mut off).unwrap().descriptor_idx, 9);
    let p = ProtoId::read(&buf, &mut off).unwrap();
    assert_eq!((p.shorty_idx, p.return_type_idx, p.parameters_off), (1, 2, 3));
    let f = FieldId::read(&buf, &mut off).unwrap();
    assert_eq!((f.class_idx, f.type_idx, f.name_idx), (4, 5, 6));
    let m = MethodId::read(&buf, &mut off).unwrap();
    assert_eq!((m.class_idx, m.proto_idx, m.name_idx), (7, 8, 9));
    assert_eq!(off, buf.len());
}

#[test]
fn class_def_round_trip() {
    let c = ClassDef {
        class_idx: 1,
        access_flags: AccessFlags::from_bits_truncate(0x1),
        superclass_idx: 0xffff_ffff,
        interfaces_off: 0,
        source_file_idx: 2,
        annotations_off: 0,
        class_data_off: 0,
        static_values_off: 0,
    };
    let mut buf: Vec<u8> = Vec::new();
    c.write(&mut buf);
    assert_eq!(buf.len(), 32);
    let mut off = 0usize;
    let c2 = ClassDef::read(&buf, &mut off).unwrap();
    assert_eq!(c, c2);
    // re-encoding the decoded record is byte-identical
    let mut buf2: Vec<u8> = Vec::new();
    c2.write(&mut buf2);
    assert_eq!(buf, buf2);
}

#[test]
fn map_item_round_trip() {
    let m = MapItem { item_type: ItemType::ClassDefItem, size: 2, offset: 96 };
    let mut buf: Vec<u8> = Vec::new();
    m.write(&mut buf);
    assert_eq!(buf.len(), 12);
    let mut off = 0usize;
    let m2 = MapItem::read(&buf, &mut off).unwrap();
    assert_eq!(m, m2);
}

#[test]
fn header_round_trip() {
    let h = Header {
        version: Version(0, 3, 5),
        checksum: 0x1234,
        signature: vec![0u8; 20],
        file_size: 112,
        header_size: 112,
        endian_tag: 0x12345678,
        link_size: 0,
        link_off: 0,
        map_off: 0,
        string_ids_size: 0,
        string_ids_off: 0,
        type_ids_size: 0,
        type_ids_off: 0,
        proto_ids_size: 0,
        proto_ids_off: 0,
        field_ids_size: 0,
        field_ids_off: 0,
        method_ids_size: 0,
        method_ids_off: 0,
        class_defs_size: 0,
        class_defs_off: 0,
        data_size: 0,
        data_off: 112,
    };
    let mut buf: Vec<u8> = Vec::new();
    h.write(&mut buf);
    assert_eq!(buf.len(), 112);
    assert_eq!(&buf[0..8], b"dex\n035\0");
}

#[test]
fn code_item_round_trip_with_padding() {
    // an odd instruction count with tries forces a two-byte pad
    let ci = CodeItem {
        registers_size: 2,
        ins_size: 1,
        outs_size: 0,
        debug_info_off: 0,
        insns: vec![1, 2, 3],
        tries: vec![TryItem { start_addr: 0, insn_count: 3, handler_off: 1 }],
        handlers: Some(dexlib::catch_handlers::EncodedCatchHandlerList(vec![(
            1,
            dexlib::catch_handlers::EncodedCatchHandler {
                size: 1,
                handlers: vec![dexlib::catch_handlers::EncodedTypeAddrPair {
                    type_id: 0,
                    addr: 5,
                }],
                catch_all_addr: None,
            },
        )])),
    };
    let mut buf: Vec<u8> = Vec::new();
    ci.write(&mut buf);
    // header (16) + insns (6) + pad (2) + try (8) + handlers;
    // the pad keeps the first try item 4-byte aligned
    assert_eq!(&buf[16 + 6..16 + 8], &[0u8, 0u8]);
    assert_eq!((16 + 6 + 2) % 4, 0);
    let mut off = 0usize;
    let back = CodeItem::read(&buf, &mut off).unwrap();
    assert_eq!(back.insns, vec![1, 2, 3]);
    assert_eq!(back.tries.len(), 1);
    assert_eq!(back.tries[0].handler_off, 1);
    let handlers = back.handlers.as_ref().expect("handlers present");
    assert_eq!(handlers.0.len(), 1);
    assert_eq!(handlers.0[0].0, 1);
    assert_eq!(handlers.0[0].1.handlers[0].addr, 5);
    // re-encoding the decoded item is byte-identical
    let mut buf2: Vec<u8> = Vec::new();
    back.write(&mut buf2);
    assert_eq!(buf, buf2);
}

#[test]
fn class_data_round_trip() {
    let cd = dexlib::class_data::ClassData {
        static_fields_size: 1,
        instance_fields_size: 1,
        direct_methods_size: 0,
        virtual_methods_size: 1,
        static_fields: vec![dexlib::class_data::EncodedField {
            field_idx_diff: 2,
            access_flags: AccessFlags::from_bits_truncate(0x9),
        }],
        instance_fields: vec![dexlib::class_data::EncodedField {
            field_idx_diff: 1,
            access_flags: AccessFlags::from_bits_truncate(0x2),
        }],
        direct_methods: vec![],
        virtual_methods: vec![dexlib::class_data::EncodedMethod {
            method_idx_diff: 4,
            access_flags: AccessFlags::from_bits_truncate(0x1),
            code_off: 300,
        }],
    };
    let mut buf: Vec<u8> = Vec::new();
    cd.write(&mut buf);
    let mut off = 0usize;
    let back = dexlib::class_data::ClassData::read(&buf, &mut off).unwrap();
    assert_eq!(cd, back);
    assert_eq!(off, buf.len());
    // re-encoding the decoded item is byte-identical
    let mut buf2: Vec<u8> = Vec::new();
    back.write(&mut buf2);
    assert_eq!(buf, buf2);
}

#[test]
fn method_handle_accessors() {
    let m = MethodHandle { ty: MethodHandleType::StaticGet, field_or_method_id: 3 };
    assert!(m.is_accessor());
    let m2 = MethodHandle { ty: MethodHandleType::InvokeStatic, field_or_method_id: 3 };
    assert!(!m2.is_accessor());
    let mut buf: Vec<u8> = Vec::new();
    m.write(&mut buf);
    let mut off = 0usize;
    let back = MethodHandle::read(&buf, &mut off).unwrap();
    assert_eq!(m, back);
}

#[test]
fn method_handle_bad_type() {
    let bytes = [0x09u8, 0, 0, 0, 0, 0, 0, 0];
    let mut off = 0usize;
    assert_eq!(
        MethodHandle::read(&bytes, &mut off),
        Err(MethodHandleError::InvalidType(9))
    );
}

#[test]
fn restriction_flags_uleb_round_trip() {
    let f = RestrictionFlag::from_bits_truncate(0x3);
    let mut buf: Vec<u8> = Vec::new();
    f.try_into_uleb128(&mut buf);
    let mut off = 0usize;
    let back = RestrictionFlag::try_from_uleb128(&buf, &mut off).unwrap();
    assert_eq!(f, back);
    assert_eq!(back.bits(), 0x3);
}

#[test]
fn access_flags_uleb_round_trip() {
    let f = AccessFlags::from_bits_truncate(0x10001);
    let mut buf: Vec<u8> = Vec::new();
    f.try_into_uleb128(&mut buf);
    let mut off = 0usize;
    let back = AccessFlags::try_from_uleb128(&buf, &mut off).unwrap();
    assert_eq!(f, back);
    assert!(back.contains(dexlib::flags::ACC_PUBLIC));
    assert!(back.contains(dexlib::flags::ACC_CONSTRUCTOR));
}
