use nbt_rust::{
    from_headless_bytes, read_headless, read_headless_by_id, read_headless_prefixed,
    to_headless_bytes, write_headless_prefixed, write_value, BigEndian, ByteReader, CompoundTag,
    Error, ListTag, NetworkLittleEndian, Tag, TagType,
};

#[test]
fn value_aliases_roundtrip_be() {
    let value = Tag::String("hello".to_string());
    let mut out = Vec::new();
    write_value::<BigEndian>(&mut out, &value).unwrap();

    let mut input = ByteReader::new(out);
    let decoded = read_headless::<BigEndian>(&mut input, TagType::String).unwrap();
    assert_eq!(decoded, value);
}

#[test]
fn prefixed_roundtrip_nle_compound() {
    let mut map = CompoundTag::new();
    map.insert("score".to_string(), Tag::Int(42));
    map.insert(
        "flags".to_string(),
        Tag::List(ListTag::new(TagType::Byte, vec![Tag::Byte(1), Tag::Byte(0)]).unwrap()),
    );
    let value = Tag::Compound(map);

    let mut out = Vec::new();
    write_headless_prefixed::<NetworkLittleEndian>(&mut out, &value).unwrap();

    let mut input = ByteReader::new(out);
    let decoded = read_headless_prefixed::<NetworkLittleEndian>(&mut input).unwrap();
    assert_eq!(decoded, value);
}

#[test]
fn headless_by_id_rejects_unknown_tag_id() {
    let mut input = ByteReader::new(Vec::<u8>::new());
    let err = read_headless_by_id::<BigEndian>(&mut input, 99);
    let err = err.unwrap_err();
    assert!(matches!(err.innermost(), Error::UnknownTag { id: 99 }));
}

#[test]
fn headless_prefixed_rejects_tag_end_payload() {
    let mut input = ByteReader::new(vec![TagType::End.id()]);
    let err = read_headless_prefixed::<BigEndian>(&mut input);
    let err = err.unwrap_err();
    assert!(matches!(err.innermost(), Error::UnexpectedEndTagPayload));
}

#[test]
fn to_from_headless_bytes_helpers_work() {
    let value = Tag::IntArray(vec![1, 2, 3, 4]);
    let bytes = to_headless_bytes::<BigEndian>(&value).unwrap();
    let decoded = from_headless_bytes::<BigEndian>(&bytes, TagType::IntArray).unwrap();
    assert_eq!(decoded, value);
}

#[test]
fn to_from_headless_bytes_preserves_long_array_variant() {
    let value = Tag::LongArray(vec![-5, 0, 7, i64::MIN, i64::MAX]);
    let bytes = to_headless_bytes::<BigEndian>(&value).unwrap();
    let decoded = from_headless_bytes::<BigEndian>(&bytes, TagType::LongArray).unwrap();
    assert_eq!(decoded, value);
}

#[test]
fn write_headless_prefixed_rejects_end_tag_without_writing_bytes() {
    let mut out = Vec::new();
    let err = write_headless_prefixed::<BigEndian>(&mut out, &Tag::End).unwrap_err();
    assert!(matches!(err, Error::UnexpectedEndTagPayload));
    assert!(out.is_empty());
}

// Cases of this library's own.

#[test]
fn prefixed_layout_is_type_id_then_payload() {
    let mut out = Vec::new();
    write_headless_prefixed::<BigEndian>(&mut out, &Tag::Short(0x0102)).unwrap();
    assert_eq!(out, vec![TagType::Short.id(), 0x01, 0x02]);
}

#[test]
fn prefixed_read_of_empty_input_reports_the_type_id_field() {
    let mut input = ByteReader::new(Vec::new());
    let err = read_headless_prefixed::<BigEndian>(&mut input).unwrap_err();
    assert!(err.has_context("read_exact", Some("tag_type_id")));
}

#[test]
fn by_id_reads_the_payload_of_a_known_type() {
    let mut input = ByteReader::new(vec![0x00, 0x00, 0x00, 0x05]);
    let decoded = read_headless_by_id::<BigEndian>(&mut input, TagType::Int.id()).unwrap();
    assert_eq!(decoded, Tag::Int(5));
    assert_eq!(input.position(), 4);
}
