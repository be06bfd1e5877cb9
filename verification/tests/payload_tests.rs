use nbt_rust::payload::checked_len_to_bytes;
use nbt_rust::{
    read_payload, read_payload_with_config, read_payload_with_limits, write_payload, BigEndian,
    ByteReader, CompoundTag, Encoding, Error, IoErrorKind, ListTag, LittleEndian, NbtLimits,
    NbtReadConfig, NetworkLittleEndian, Tag, TagType,
};

fn sample_compound_tag() -> Tag {
    let mut root = CompoundTag::new();
    root.insert("health".to_string(), Tag::Int(20));
    root.insert("name".to_string(), Tag::String("Steve".to_string()));
    root.insert(
        "pos".to_string(),
        Tag::List(
            ListTag::new(
                TagType::Float,
                vec![
                    Tag::Float(1.0f32.to_bits()),
                    Tag::Float(64.0f32.to_bits()),
                    Tag::Float((-3.5f32).to_bits()),
                ],
            )
            .unwrap(),
        ),
    );
    root.insert("flags".to_string(), Tag::ByteArray(vec![1, 0, 1]));
    root.insert("scores".to_string(), Tag::IntArray(vec![1, 2, 3]));
    root.insert("history".to_string(), Tag::LongArray(vec![9, -3, 27]));
    Tag::Compound(root)
}

fn assert_array_roundtrip<E: Encoding>(tag: &Tag, tag_type: TagType) {
    let mut out = Vec::new();
    write_payload::<E>(&mut out, tag).unwrap();
    let mut input = ByteReader::new(out);
    let decoded = read_payload::<E>(&mut input, tag_type).unwrap();
    assert_eq!(decoded, *tag);
    assert_eq!(decoded.tag_type(), tag_type);
}

#[test]
fn be_roundtrip_compound_payload() {
    let tag = sample_compound_tag();
    let mut out = Vec::new();
    write_payload::<BigEndian>(&mut out, &tag).unwrap();
    let mut input = ByteReader::new(out);
    let decoded = read_payload::<BigEndian>(&mut input, TagType::Compound).unwrap();
    assert_eq!(decoded, tag);
}

#[test]
fn int_array_roundtrip_all_encodings_preserves_variant() {
    let tag = Tag::IntArray(vec![-2, -1, 0, 1, 2, i32::MIN, i32::MAX]);
    assert_array_roundtrip::<BigEndian>(&tag, TagType::IntArray);
    assert_array_roundtrip::<LittleEndian>(&tag, TagType::IntArray);
    assert_array_roundtrip::<NetworkLittleEndian>(&tag, TagType::IntArray);
}

#[test]
fn long_array_roundtrip_all_encodings_preserves_variant() {
    let tag = Tag::LongArray(vec![-2, -1, 0, 1, 2, i64::MIN, i64::MAX]);
    assert_array_roundtrip::<BigEndian>(&tag, TagType::LongArray);
    assert_array_roundtrip::<LittleEndian>(&tag, TagType::LongArray);
    assert_array_roundtrip::<NetworkLittleEndian>(&tag, TagType::LongArray);
}

#[test]
fn le_roundtrip_compound_payload() {
    let tag = sample_compound_tag();
    let mut out = Vec::new();
    write_payload::<LittleEndian>(&mut out, &tag).unwrap();
    let mut input = ByteReader::new(out);
    let decoded = read_payload::<LittleEndian>(&mut input, TagType::Compound).unwrap();
    assert_eq!(decoded, tag);
}

#[test]
fn nle_roundtrip_compound_payload() {
    let tag = sample_compound_tag();
    let mut out = Vec::new();
    write_payload::<NetworkLittleEndian>(&mut out, &tag).unwrap();
    let mut input = ByteReader::new(out);
    let decoded = read_payload::<NetworkLittleEndian>(&mut input, TagType::Compound).unwrap();
    assert_eq!(decoded, tag);
}

#[test]
fn list_constructor_rejects_mixed_types() {
    let err = ListTag::new(TagType::Int, vec![Tag::Int(1), Tag::String("bad".into())]);
    assert!(matches!(err, Err(Error::UnexpectedType { .. })));
}

#[test]
fn list_decode_rejects_end_type_with_non_zero_length() {
    let payload = vec![0x00, 0x00, 0x00, 0x00, 0x01];
    let mut input = ByteReader::new(payload);
    let err = read_payload::<BigEndian>(&mut input, TagType::List);
    let err = err.unwrap_err();
    assert!(matches!(err.innermost(), Error::InvalidListHeader { .. }));
}

#[test]
fn list_decode_compatible_mode_accepts_end_type_with_non_zero_length() {
    let payload = vec![0x00, 0x00, 0x00, 0x00, 0x01];
    let mut input = ByteReader::new(payload);
    let config = NbtReadConfig::compatible(NbtLimits::default());
    let decoded = read_payload_with_config::<BigEndian>(&mut input, TagType::List, &config).unwrap();
    assert_eq!(decoded, Tag::List(ListTag::empty(TagType::End)));
}

#[test]
fn empty_list_encode_be_writes_elem_type_and_zero_len() {
    let int_empty = Tag::List(ListTag::empty(TagType::Int));
    let end_empty = Tag::List(ListTag::empty(TagType::End));

    let mut be_int = Vec::new();
    write_payload::<BigEndian>(&mut be_int, &int_empty).unwrap();
    assert_eq!(be_int, vec![TagType::Int.id(), 0x00, 0x00, 0x00, 0x00]);

    let mut be_end = Vec::new();
    write_payload::<BigEndian>(&mut be_end, &end_empty).unwrap();
    assert_eq!(be_end, vec![TagType::End.id(), 0x00, 0x00, 0x00, 0x00]);

    let mut input = ByteReader::new(be_int);
    let decoded = read_payload::<BigEndian>(&mut input, TagType::List).unwrap();
    assert_eq!(decoded, int_empty);
}

#[test]
fn empty_list_encode_le_writes_elem_type_and_zero_len() {
    let int_empty = Tag::List(ListTag::empty(TagType::Int));
    let end_empty = Tag::List(ListTag::empty(TagType::End));

    let mut le_int = Vec::new();
    write_payload::<LittleEndian>(&mut le_int, &int_empty).unwrap();
    assert_eq!(le_int, vec![TagType::Int.id(), 0x00, 0x00, 0x00, 0x00]);

    let mut le_end = Vec::new();
    write_payload::<LittleEndian>(&mut le_end, &end_empty).unwrap();
    assert_eq!(le_end, vec![TagType::End.id(), 0x00, 0x00, 0x00, 0x00]);

    let mut input = ByteReader::new(le_int);
    let decoded = read_payload::<LittleEndian>(&mut input, TagType::List).unwrap();
    assert_eq!(decoded, int_empty);
}

#[test]
fn empty_list_encode_nle_writes_elem_type_and_zero_len() {
    let int_empty = Tag::List(ListTag::empty(TagType::Int));
    let end_empty = Tag::List(ListTag::empty(TagType::End));

    let mut nle_int = Vec::new();
    write_payload::<NetworkLittleEndian>(&mut nle_int, &int_empty).unwrap();
    assert_eq!(nle_int, vec![TagType::Int.id(), 0x00]);

    let mut nle_end = Vec::new();
    write_payload::<NetworkLittleEndian>(&mut nle_end, &end_empty).unwrap();
    assert_eq!(nle_end, vec![TagType::End.id(), 0x00]);

    let mut input = ByteReader::new(nle_int);
    let decoded = read_payload::<NetworkLittleEndian>(&mut input, TagType::List).unwrap();
    assert_eq!(decoded, int_empty);
}

#[test]
fn byte_array_negative_length_is_rejected() {
    let payload = (-1i32).to_le_bytes().to_vec();
    let mut input = ByteReader::new(payload);
    let err = read_payload::<LittleEndian>(&mut input, TagType::ByteArray);
    let err = err.unwrap_err();
    assert!(matches!(err.innermost(), Error::NegativeLength { .. }));
}

#[test]
fn compound_rejects_unknown_inner_tag_id() {
    let payload = vec![
        99, // unknown type id
        0x00, 0x00, // empty name
        0,    // end
    ];
    let mut input = ByteReader::new(payload);
    let err = read_payload::<BigEndian>(&mut input, TagType::Compound);
    let err = err.unwrap_err();
    assert!(matches!(err.innermost(), Error::UnknownTag { id: 99 }));
}

#[test]
fn string_limit_rejects_large_string() {
    let payload = vec![0x00, 0x05, b'h', b'e', b'l', b'l', b'o'];
    let mut input = ByteReader::new(payload);
    let limits = NbtLimits::default().with_max_string_len(4);
    let err = read_payload_with_limits::<BigEndian>(&mut input, TagType::String, &limits);
    let err = err.unwrap_err();
    assert!(matches!(
        err.innermost(),
        Error::SizeExceeded {
            field: "string_length",
            ..
        }
    ));
}

#[test]
fn array_limit_rejects_large_byte_array() {
    let payload = (5i32).to_be_bytes().to_vec();
    let mut input = ByteReader::new(payload);
    let limits = NbtLimits::default().with_max_array_len(4);
    let err = read_payload_with_limits::<BigEndian>(&mut input, TagType::ByteArray, &limits);
    let err = err.unwrap_err();
    assert!(matches!(
        err.innermost(),
        Error::SizeExceeded {
            field: "byte_array_length",
            ..
        }
    ));
}

#[test]
fn read_budget_rejects_over_budget_payload() {
    let payload = vec![0x00, 0x04, b't', b'e', b's', b't'];
    let mut input = ByteReader::new(payload);
    let limits = NbtLimits::default().with_max_read_bytes(3);
    let err = read_payload_with_limits::<BigEndian>(&mut input, TagType::String, &limits);
    let err = err.unwrap_err();
    assert!(matches!(
        err.innermost(),
        Error::SizeExceeded {
            field: "string_bytes",
            ..
        }
    ));
}

#[test]
fn checked_len_to_bytes_overflow_is_rejected() {
    let err = checked_len_to_bytes(usize::MAX, 2, "int_array_bytes").unwrap_err();
    assert!(matches!(
        err,
        Error::LengthOverflow {
            field: "int_array_bytes",
            ..
        }
    ));
}

#[test]
fn int_array_budget_guard_rejects_before_value_reads() {
    let payload = (4i32).to_be_bytes().to_vec();
    let mut input = ByteReader::new(payload);
    let limits = NbtLimits::default().with_max_read_bytes(6);
    let err = read_payload_with_limits::<BigEndian>(&mut input, TagType::IntArray, &limits).unwrap_err();
    assert!(matches!(
        err.innermost(),
        Error::SizeExceeded {
            field: "int_array_bytes",
            ..
        }
    ));
}

#[test]
fn long_array_budget_guard_rejects_before_value_reads() {
    let payload = (4i32).to_be_bytes().to_vec();
    let mut input = ByteReader::new(payload);
    let limits = NbtLimits::default().with_max_read_bytes(6);
    let err = read_payload_with_limits::<BigEndian>(&mut input, TagType::LongArray, &limits).unwrap_err();
    assert!(matches!(
        err.innermost(),
        Error::SizeExceeded {
            field: "long_array_bytes",
            ..
        }
    ));
}

#[test]
fn depth_limit_rejects_nested_compound() {
    let mut inner = CompoundTag::new();
    inner.insert("value".to_string(), Tag::Int(1));

    let mut outer = CompoundTag::new();
    outer.insert("nested".to_string(), Tag::Compound(inner));

    let tag = Tag::Compound(outer);
    let mut bytes = Vec::new();
    write_payload::<BigEndian>(&mut bytes, &tag).unwrap();

    let mut input = ByteReader::new(bytes);
    let limits = NbtLimits::default().with_max_depth(1);
    let err = read_payload_with_limits::<BigEndian>(&mut input, TagType::Compound, &limits);
    let err = err.unwrap_err();
    assert!(matches!(err.innermost(), Error::DepthExceeded { .. }));
}

#[test]
fn contextual_error_contains_op_offset_and_field() {
    let payload = vec![0x00, 0x00, 0x00, 0x00, 0x01];
    let mut input = ByteReader::new(payload);
    let err = read_payload::<BigEndian>(&mut input, TagType::List).unwrap_err();

    assert!(err.has_context("validate_list_header", Some("list_length")));
    assert!(err.has_context("read_payload_with_config", Some("payload")));
}

#[test]
fn nested_compound_end_only_closes_nested_scope() {
    let payload = vec![
        0x0A, // nested compound
        0x00, 0x06, b'n', b'e', b's', b't', b'e', b'd', // name = "nested"
        0x03, // int
        0x00, 0x01, b'a', // name = "a"
        0x00, 0x00, 0x00, 0x01, // a = 1
        0x00, // end nested compound
        0x03, // int
        0x00, 0x01, b'b', // name = "b"
        0x00, 0x00, 0x00, 0x02, // b = 2
        0x00, // end root compound
    ];

    let mut input = ByteReader::new(payload);
    let decoded = read_payload::<BigEndian>(&mut input, TagType::Compound).unwrap();

    let mut nested = CompoundTag::new();
    nested.insert("a".to_string(), Tag::Int(1));

    let mut expected = CompoundTag::new();
    expected.insert("nested".to_string(), Tag::Compound(nested));
    expected.insert("b".to_string(), Tag::Int(2));

    assert_eq!(decoded, Tag::Compound(expected));
}

#[test]
fn missing_compound_end_reports_contextual_io_error() {
    let payload = vec![
        0x03, // int
        0x00, 0x01, b'a', // name = "a"
        0x00, 0x00, 0x00, 0x01, // value
              // missing TAG_End for compound
    ];
    let mut input = ByteReader::new(payload);
    let err = read_payload::<BigEndian>(&mut input, TagType::Compound).unwrap_err();

    assert!(matches!(err.innermost(), Error::Io(_)));
    assert!(err.has_context("read_exact", Some("tag_type_id")));
}

#[test]
fn write_payload_rejects_end_tag_value() {
    let mut out = Vec::new();
    let err = write_payload::<BigEndian>(&mut out, &Tag::End).unwrap_err();
    assert!(matches!(err, Error::UnexpectedEndTagPayload));
    assert!(out.is_empty());
}

#[test]
fn compound_write_rejects_end_tag_member_without_partial_write() {
    let mut map = CompoundTag::new();
    map.insert("bad".to_string(), Tag::End);

    let mut out = Vec::new();
    let err = write_payload::<BigEndian>(&mut out, &Tag::Compound(map)).unwrap_err();
    assert!(matches!(err, Error::UnexpectedEndTagPayload));
    assert!(out.is_empty());
}

// Cases of this library's own.

#[test]
fn compound_write_rejects_later_end_member_without_partial_write() {
    let mut map = CompoundTag::new();
    map.insert("ok".to_string(), Tag::Int(1));
    map.insert("bad".to_string(), Tag::End);

    let mut out = vec![0x55];
    let err = write_payload::<BigEndian>(&mut out, &Tag::Compound(map)).unwrap_err();
    assert!(matches!(err, Error::UnexpectedEndTagPayload));
    assert_eq!(out, vec![0x55]);
}

#[test]
fn payload_reader_stops_after_the_value_and_keeps_trailing_bytes() {
    let mut bytes = Vec::new();
    write_payload::<BigEndian>(&mut bytes, &Tag::Int(7)).unwrap();
    bytes.push(0xEE);
    let mut input = ByteReader::new(bytes);
    let decoded = read_payload::<BigEndian>(&mut input, TagType::Int).unwrap();
    assert_eq!(decoded, Tag::Int(7));
    assert_eq!(input.position(), 4);
}

#[test]
fn truncated_int_payload_reports_unexpected_eof() {
    let mut input = ByteReader::new(vec![0x00, 0x01]);
    let err = read_payload::<BigEndian>(&mut input, TagType::Int).unwrap_err();
    assert!(matches!(err.innermost(), Error::Io(IoErrorKind::UnexpectedEof)));
    assert!(err.has_context("read_i32", Some("int_payload")));
}

#[test]
fn invalid_utf8_string_is_rejected() {
    let mut input = ByteReader::new(vec![0x00, 0x02, 0xC3, 0x28]);
    let err = read_payload::<BigEndian>(&mut input, TagType::String).unwrap_err();
    assert!(matches!(err.innermost(), Error::InvalidUtf8 { field: "string_payload" }));
}

#[test]
fn repeated_compound_name_keeps_first_position_and_last_value() {
    let payload = vec![
        0x03, 0x00, 0x01, b'a', 0x00, 0x00, 0x00, 0x01, // a = 1
        0x03, 0x00, 0x01, b'b', 0x00, 0x00, 0x00, 0x02, // b = 2
        0x03, 0x00, 0x01, b'a', 0x00, 0x00, 0x00, 0x03, // a = 3
        0x00,
    ];
    let mut input = ByteReader::new(payload);
    let decoded = read_payload::<BigEndian>(&mut input, TagType::Compound).unwrap();
    let mut expected = CompoundTag::new();
    expected.insert("a".to_string(), Tag::Int(3));
    expected.insert("b".to_string(), Tag::Int(2));
    assert_eq!(decoded, Tag::Compound(expected));
}

#[test]
fn list_write_rejects_mismatched_elements_without_partial_write() {
    let list = ListTag {
        element_type: TagType::Int,
        elements: vec![Tag::Int(1), Tag::Byte(2)],
    };
    let mut out = vec![0xAA];
    let err = write_payload::<BigEndian>(&mut out, &Tag::List(list)).unwrap_err();
    assert!(matches!(err, Error::UnexpectedType { .. }));
    assert_eq!(out, vec![0xAA]);
}

#[test]
fn negative_byte_value_roundtrips() {
    let mut out = Vec::new();
    write_payload::<LittleEndian>(&mut out, &Tag::Byte(-5)).unwrap();
    assert_eq!(out, vec![0xFB]);
    let decoded = read_payload::<LittleEndian>(&mut ByteReader::new(out), TagType::Byte).unwrap();
    assert_eq!(decoded, Tag::Byte(-5));
}

#[test]
fn values_at_the_limits_read_back() {
    // A string of exactly `max_string_len` bytes, a list of exactly
    // `max_list_len` elements, and nesting up to `max_depth` read back.
    let limits = NbtLimits::default()
        .with_max_string_len(3)
        .with_max_list_len(2)
        .with_max_depth(2);
    let list = ListTag::new(
        TagType::String,
        vec![Tag::String("abc".to_string()), Tag::String("xy".to_string())],
    )
    .unwrap();
    let value = Tag::List(list);
    let mut out = Vec::new();
    write_payload::<NetworkLittleEndian>(&mut out, &value).unwrap();
    let total = out.len();
    let mut reader = ByteReader::new(out);
    let back = read_payload_with_limits::<NetworkLittleEndian>(&mut reader, TagType::List, &limits).unwrap();
    assert_eq!(back, value);
    assert_eq!(reader.position(), total);

    // One byte more than the string limit is refused.
    let mut longer = Vec::new();
    write_payload::<NetworkLittleEndian>(&mut longer, &Tag::String("abcd".to_string())).unwrap();
    let mut reader = ByteReader::new(longer);
    let err = read_payload_with_limits::<NetworkLittleEndian>(&mut reader, TagType::String, &limits).unwrap_err();
    assert!(matches!(err.innermost(), Error::SizeExceeded { .. }));
}

#[test]
fn read_compound_names_each_entry_once() {
    // Two entries named "a": the later value replaces the earlier in place.
    let bytes = vec![
        0x03, 0x00, 0x01, b'a', 0x00, 0x00, 0x00, 0x01, // Int "a" = 1
        0x03, 0x00, 0x01, b'b', 0x00, 0x00, 0x00, 0x02, // Int "b" = 2
        0x03, 0x00, 0x01, b'a', 0x00, 0x00, 0x00, 0x03, // Int "a" = 3
        0x00,
    ];
    let mut reader = ByteReader::new(bytes);
    let back = read_payload::<BigEndian>(&mut reader, TagType::Compound).unwrap();
    let compound = match back {
        Tag::Compound(c) => c,
        other => panic!("expected compound, got {other:?}"),
    };
    assert_eq!(compound.len(), 2);
    assert_eq!(compound.get("a"), Some(&Tag::Int(3)));
    assert_eq!(compound.entries()[0].key, "a");
}
