use nbt_rust::{
    serde_value_to_tag, tag_to_serde_value, Error, NbtCodecProfile, NbtLimits, NbtReadConfig,
    ProtocolNbtAdapter, ProtocolNbtEncoding, RootTag, SerdeValue, TagType,
};

struct NetPacket;

impl NbtCodecProfile for NetPacket {
    fn nbt_encoding() -> ProtocolNbtEncoding {
        ProtocolNbtEncoding::Network
    }
}

struct LePacket;

impl NbtCodecProfile for LePacket {
    fn nbt_encoding() -> ProtocolNbtEncoding {
        ProtocolNbtEncoding::LittleEndian
    }
}

struct StrictListPacket;

impl NbtCodecProfile for StrictListPacket {
    fn nbt_encoding() -> ProtocolNbtEncoding {
        ProtocolNbtEncoding::BigEndian
    }

    fn nbt_read_config() -> NbtReadConfig {
        NbtReadConfig::strict(NbtLimits::default())
    }
}

fn adapter<P: NbtCodecProfile>() -> ProtocolNbtAdapter {
    ProtocolNbtAdapter { encoding: P::nbt_encoding(), read_config: P::nbt_read_config() }
}

fn field(name: &str, value: SerdeValue) -> (SerdeValue, SerdeValue) {
    (SerdeValue::String(name.to_string()), value)
}

/// `{ username: "Steve", hp: 20, flags: [1, 0, 1] }` in the serde data model.
fn net_packet() -> SerdeValue {
    SerdeValue::Mapping(vec![
        field(
            "flags",
            SerdeValue::Sequence(vec![SerdeValue::U8(1), SerdeValue::U8(0), SerdeValue::U8(1)]),
        ),
        field("hp", SerdeValue::I32(20)),
        field("username", SerdeValue::String("Steve".to_string())),
    ])
}

/// `{ id, values }` in the serde data model.
fn le_packet(id: i32, values: &[i32]) -> SerdeValue {
    SerdeValue::Mapping(vec![
        field("id", SerdeValue::I32(id)),
        field("values", SerdeValue::Sequence(values.iter().map(|v| SerdeValue::I32(*v)).collect())),
    ])
}

#[test]
fn net_profile_root_roundtrip() {
    let input = net_packet();
    let a = adapter::<NetPacket>();
    let bytes = a.encode_root_tag(&RootTag::new("Packet", serde_value_to_tag(&input).unwrap())).unwrap();
    let root = a.decode_root_tag(&bytes).unwrap();
    let output = tag_to_serde_value(&root.payload).unwrap();
    assert_eq!(root.name, "Packet");
    assert_eq!(output, input);
}

#[test]
fn le_profile_prefixed_roundtrip() {
    let input = le_packet(7, &[2, 4, 6, 8]);
    let a = adapter::<LePacket>();
    let bytes = a.encode_prefixed_tag(&serde_value_to_tag(&input).unwrap()).unwrap();
    let output = tag_to_serde_value(&a.decode_prefixed_tag(&bytes).unwrap()).unwrap();
    assert_eq!(output, input);
}

#[test]
fn headless_profile_roundtrip() {
    let input = le_packet(99, &[1, 3, 5]);
    let a = adapter::<LePacket>();
    let tag = serde_value_to_tag(&input).unwrap();
    let tag_type = tag.tag_type();
    let bytes = a.encode_headless_tag(&tag).unwrap();
    let output = tag_to_serde_value(&a.decode_headless_tag(tag_type, &bytes).unwrap()).unwrap();
    assert_eq!(output, input);
}

#[test]
fn profile_with_config_uses_declared_parse_mode() {
    // BE list payload: elem_type=TAG_End, len=1 (invalid in strict mode)
    let bytes = vec![0x00, 0x00, 0x00, 0x00, 0x01];
    let err = adapter::<StrictListPacket>().decode_headless_tag(TagType::List, &bytes).unwrap_err();
    assert!(matches!(err.innermost(), Error::InvalidListHeader { .. }));
}

#[test]
fn profile_read_config_defaults_to_the_default_configuration() {
    assert_eq!(NetPacket::nbt_read_config(), NbtReadConfig::default());
}
