use nbt_rust::{
    serde_value_to_tag, tag_to_serde_value, Error, ListTag, NbtLimits, NbtReadConfig,
    ProtocolNbtAdapter, RootTag, SerdeValue, Tag, TagType,
};

/// The serde data model value of a player state
/// `{ username: "Alex", hp: 20, scores: [10, 20, 30], flags: [1, 0, 1, 1] }`,
/// fields in the order a serde map keeps them.
fn sample() -> SerdeValue {
    SerdeValue::Mapping(vec![
        (
            SerdeValue::String("flags".to_string()),
            SerdeValue::Sequence(vec![
                SerdeValue::U8(1),
                SerdeValue::U8(0),
                SerdeValue::U8(1),
                SerdeValue::U8(1),
            ]),
        ),
        (SerdeValue::String("hp".to_string()), SerdeValue::I32(20)),
        (
            SerdeValue::String("scores".to_string()),
            SerdeValue::Sequence(vec![SerdeValue::I32(10), SerdeValue::I32(20), SerdeValue::I32(30)]),
        ),
        (SerdeValue::String("username".to_string()), SerdeValue::String("Alex".to_string())),
    ])
}

#[test]
fn network_headless_typed_roundtrip() {
    let adapter = ProtocolNbtAdapter::network();
    let input = sample();
    let tag = serde_value_to_tag(&input).unwrap();
    let tag_type = tag.tag_type();
    let bytes = adapter.encode_headless_tag(&tag).unwrap();
    let decoded = adapter.decode_headless_tag(tag_type, &bytes).unwrap();
    let output = tag_to_serde_value(&decoded).unwrap();
    assert_eq!(output, input);
}

#[test]
fn network_prefixed_typed_roundtrip() {
    let adapter = ProtocolNbtAdapter::network();
    let input = sample();
    let tag = serde_value_to_tag(&input).unwrap();
    let bytes = adapter.encode_prefixed_tag(&tag).unwrap();
    let decoded = adapter.decode_prefixed_tag(&bytes).unwrap();
    let output = tag_to_serde_value(&decoded).unwrap();
    assert_eq!(output, input);
}

#[test]
fn little_endian_root_named_roundtrip() {
    let adapter = ProtocolNbtAdapter::little_endian();
    let input = sample();
    let root = RootTag::new("PlayerState", serde_value_to_tag(&input).unwrap());
    let bytes = adapter.encode_root_tag(&root).unwrap();
    let decoded = adapter.decode_root_tag(&bytes).unwrap();
    assert_eq!(decoded.name, "PlayerState");
    let output = tag_to_serde_value(&decoded.payload).unwrap();
    assert_eq!(output, input);
}

#[test]
fn strict_vs_compatible_list_header_behavior() {
    let payload = vec![0x00, 0x00, 0x00, 0x00, 0x01];

    let strict = ProtocolNbtAdapter::big_endian();
    let strict_err = strict.decode_headless_tag(TagType::List, &payload).unwrap_err();
    assert!(matches!(strict_err.innermost(), Error::InvalidListHeader { .. }));

    let compat_cfg = NbtReadConfig::compatible(NbtLimits::default());
    let compat = ProtocolNbtAdapter::big_endian().with_config(compat_cfg);
    let compat_tag = compat.decode_headless_tag(TagType::List, &payload).unwrap();
    assert_eq!(compat_tag, Tag::List(ListTag::empty(TagType::End)));
}

#[test]
fn prefixed_decode_rejects_trailing_bytes() {
    let adapter = ProtocolNbtAdapter::network();
    let bytes = {
        let tag = serde_value_to_tag(&sample()).unwrap();
        let mut out = adapter.encode_prefixed_tag(&tag).unwrap();
        out.extend_from_slice(&[0xAA, 0xBB]);
        out
    };
    let err = adapter.decode_prefixed_tag(&bytes).unwrap_err();
    assert!(matches!(err.innermost(), Error::TrailingPayloadBytes { unread: 2 }));
}

// Cases of this library's own.

#[test]
fn root_decode_rejects_trailing_bytes() {
    let adapter = ProtocolNbtAdapter::big_endian();
    let root = RootTag::new("r", Tag::Compound(nbt_rust::CompoundTag::new()));
    let mut bytes = adapter.encode_root_tag(&root).unwrap();
    bytes.push(0x00);
    let err = adapter.decode_root_tag(&bytes).unwrap_err();
    assert!(matches!(err, Error::TrailingPayloadBytes { unread: 1 }));
}

#[test]
fn adapter_builders_set_limits_and_mode() {
    let limits = NbtLimits::default().with_max_depth(3);
    let adapter = ProtocolNbtAdapter::little_endian()
        .with_limits(limits)
        .with_parse_mode(nbt_rust::ParseMode::Compatible);
    assert_eq!(adapter.read_config.limits.max_depth, 3);
    assert_eq!(adapter.read_config.parse_mode, nbt_rust::ParseMode::Compatible);
    assert_eq!(adapter.encoding, nbt_rust::ProtocolNbtEncoding::LittleEndian);
    assert_eq!(ProtocolNbtAdapter::default(), ProtocolNbtAdapter::network());
}

#[test]
fn prefixed_encode_rejects_end_tag() {
    let adapter = ProtocolNbtAdapter::network();
    let err = adapter.encode_prefixed_tag(&Tag::End).unwrap_err();
    assert!(matches!(err, Error::UnexpectedEndTagPayload));
}

#[test]
fn headless_adapter_roundtrip_and_trailing_bytes() {
    let adapter = ProtocolNbtAdapter::little_endian();
    let tag = Tag::Int(-7);
    let bytes = adapter.encode_headless_tag(&tag).unwrap();
    assert_eq!(bytes, vec![0xF9, 0xFF, 0xFF, 0xFF]);
    assert_eq!(adapter.decode_headless_tag(TagType::Int, &bytes).unwrap(), tag);

    let mut longer = bytes.clone();
    longer.extend_from_slice(&[1, 2, 3]);
    let err = adapter.decode_headless_tag(TagType::Int, &longer).unwrap_err();
    assert!(matches!(err, Error::TrailingPayloadBytes { unread: 3 }));
}
