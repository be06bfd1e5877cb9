use nbt_rust::{
    from_byte_array_tag, read_tag, serde_value_to_tag, tag_to_serde_value, to_byte_array_tag,
    write_tag, BigEndian, ByteReader, CompoundTag, Encoding, Error, ListTag, LittleEndian,
    NetworkLittleEndian, RootTag, SerdeBehaviorContract, SerdeValue, Tag, TagType,
};

fn field(name: &str, value: SerdeValue) -> (SerdeValue, SerdeValue) {
    (SerdeValue::String(name.to_string()), value)
}

/// The serde data model value of `{ name: "Steve", health: 20, pitch: 11.5,
/// bytes: [1, 2, 3, 250], scores: [7, 11, 42] }`, fields in map order.
fn sample() -> SerdeValue {
    SerdeValue::Mapping(vec![
        field(
            "bytes",
            SerdeValue::Sequence(vec![
                SerdeValue::U8(1),
                SerdeValue::U8(2),
                SerdeValue::U8(3),
                SerdeValue::U8(250),
            ]),
        ),
        field("health", SerdeValue::I32(20)),
        field("name", SerdeValue::String("Steve".to_string())),
        field("pitch", SerdeValue::F32(11.5f32.to_bits())),
        field(
            "scores",
            SerdeValue::Sequence(vec![SerdeValue::I32(7), SerdeValue::I32(11), SerdeValue::I32(42)]),
        ),
    ])
}

#[test]
fn tag_roundtrip_typed() {
    let input = sample();
    let tag = serde_value_to_tag(&input).unwrap();
    let output = tag_to_serde_value(&tag).unwrap();
    assert_eq!(output, input);
}

/// Serialises `value` as a root named `name` in the layout `E`, reads the bytes
/// back as a whole, and gives back the value of the payload.
fn bytes_roundtrip<E: Encoding>(name: &str, value: &SerdeValue) -> SerdeValue {
    let root = RootTag::new(name, serde_value_to_tag(value).unwrap());
    let mut bytes = Vec::new();
    write_tag::<E>(&mut bytes, &root).unwrap();
    let total = bytes.len();
    let mut reader = ByteReader::new(bytes);
    let decoded = read_tag::<E>(&mut reader).unwrap();
    assert_eq!(reader.position(), total);
    assert_eq!(decoded.name, name);
    tag_to_serde_value(&decoded.payload).unwrap()
}

#[test]
fn be_bytes_roundtrip_typed() {
    let input = sample();
    let output = bytes_roundtrip::<BigEndian>("", &input);
    assert_eq!(output, input);
}

#[test]
fn le_bytes_roundtrip_typed() {
    let input = sample();
    let output = bytes_roundtrip::<LittleEndian>("demo", &input);
    assert_eq!(output, input);
}

#[test]
fn net_bytes_roundtrip_typed() {
    let input = sample();
    let output = bytes_roundtrip::<NetworkLittleEndian>("", &input);
    assert_eq!(output, input);
}

#[test]
fn none_option_is_rejected() {
    let value = SerdeValue::Mapping(vec![field("maybe", SerdeValue::Option(None))]);
    let err = serde_value_to_tag(&value).unwrap_err();
    assert!(matches!(err.innermost(), Error::Serde { .. }));
}

#[test]
fn some_option_is_serialized_as_inner_tag() {
    let value = SerdeValue::Mapping(vec![field("maybe", SerdeValue::Option(Some(Box::new(SerdeValue::I32(42)))))]);
    let tag = serde_value_to_tag(&value).unwrap();
    let compound = match tag {
        Tag::Compound(value) => value,
        other => panic!("expected compound, got {other:?}"),
    };
    assert_eq!(compound.get("maybe"), Some(&Tag::Int(42)));

    let decoded = tag_to_serde_value(&Tag::Compound(compound)).unwrap();
    assert_eq!(decoded, SerdeValue::Mapping(vec![field("maybe", SerdeValue::I32(42))]));
}

#[test]
fn vec_u8_non_empty_encodes_as_byte_array() {
    let value = SerdeValue::Sequence(vec![
        SerdeValue::U8(1),
        SerdeValue::U8(2),
        SerdeValue::U8(3),
        SerdeValue::U8(250),
    ]);
    let tag = serde_value_to_tag(&value).unwrap();
    assert_eq!(tag, Tag::ByteArray(vec![1, 2, 3, 250]));
}

#[test]
fn empty_vec_u8_without_wrapper_is_encoded_as_empty_list() {
    let tag = serde_value_to_tag(&SerdeValue::Sequence(Vec::new())).unwrap();
    assert_eq!(tag, Tag::List(ListTag::empty(TagType::End)));
    let contract = SerdeBehaviorContract::current();
    assert!(contract.empty_vec_u8_requires_wrapper);
}

#[test]
fn nbt_byte_array_wrapper_forces_empty_byte_array_semantics() {
    // The wrapper serializes as serde bytes.
    let value = SerdeValue::Mapping(vec![field("bytes", SerdeValue::Bytes(Vec::new()))]);
    let tag = serde_value_to_tag(&value).unwrap();
    let compound = match tag {
        Tag::Compound(value) => value,
        other => panic!("expected compound, got {other:?}"),
    };
    assert_eq!(compound.get("bytes"), Some(&Tag::ByteArray(Vec::new())));

    let decoded = tag_to_serde_value(&Tag::Compound(compound)).unwrap();
    assert_eq!(decoded, SerdeValue::Mapping(vec![field("bytes", SerdeValue::Sequence(Vec::new()))]));
}

#[test]
fn byte_array_helper_roundtrip() {
    let tag = to_byte_array_tag(vec![9u8, 8, 7]);
    let bytes = from_byte_array_tag(&tag).unwrap();
    assert_eq!(bytes, vec![9, 8, 7]);

    let wrong = Tag::Int(1);
    let err = from_byte_array_tag(&wrong).unwrap_err();
    assert!(matches!(
        err,
        Error::UnexpectedType {
            context: "byte_array_tag_decode",
            expected_id,
            actual_id
        } if expected_id == TagType::ByteArray.id() && actual_id == TagType::Int.id()
    ));
}

#[test]
fn contract_flags_are_expected() {
    let contract = SerdeBehaviorContract::current();
    assert!(contract.option_some_as_inner_tag);
    assert!(contract.option_none_rejected);
    assert!(contract.vec_u8_non_empty_as_byte_array);
    assert!(contract.empty_vec_u8_requires_wrapper);
}

#[test]
fn byte_array_tag_decodes_to_vec_u8() {
    let mut compound = CompoundTag::new();
    compound.insert("bytes".to_string(), Tag::ByteArray(vec![4, 5, 6]));
    let decoded = tag_to_serde_value(&Tag::Compound(compound)).unwrap();
    assert_eq!(
        decoded,
        SerdeValue::Mapping(vec![field(
            "bytes",
            SerdeValue::Sequence(vec![SerdeValue::U8(4), SerdeValue::U8(5), SerdeValue::U8(6)])
        )])
    );
}

// Cases of this library's own.

#[test]
fn unsigned_values_widen_to_the_next_signed_type() {
    assert_eq!(serde_value_to_tag(&SerdeValue::U8(200)).unwrap(), Tag::Short(200));
    assert_eq!(serde_value_to_tag(&SerdeValue::U16(40000)).unwrap(), Tag::Int(40000));
    assert_eq!(serde_value_to_tag(&SerdeValue::U16(7)).unwrap(), Tag::Short(7));
    assert_eq!(serde_value_to_tag(&SerdeValue::U32(3_000_000_000)).unwrap(), Tag::Long(3_000_000_000));
    assert_eq!(serde_value_to_tag(&SerdeValue::U64(5)).unwrap(), Tag::Long(5));
    let err = serde_value_to_tag(&SerdeValue::U64(u64::MAX)).unwrap_err();
    assert!(matches!(err, Error::Serde { message } if message == "u64 out of i64 range"));
}

#[test]
fn bool_char_and_unit_values() {
    assert_eq!(serde_value_to_tag(&SerdeValue::Bool(true)).unwrap(), Tag::Byte(1));
    assert_eq!(serde_value_to_tag(&SerdeValue::Bool(false)).unwrap(), Tag::Byte(0));
    assert_eq!(serde_value_to_tag(&SerdeValue::Char('x')).unwrap(), Tag::String("x".to_string()));
    assert!(matches!(serde_value_to_tag(&SerdeValue::Unit), Err(Error::Serde { .. })));
    assert_eq!(
        serde_value_to_tag(&SerdeValue::Newtype(Box::new(SerdeValue::I16(-3)))).unwrap(),
        Tag::Short(-3)
    );
}

#[test]
fn sequences_become_int_and_long_arrays_or_lists() {
    let ints = SerdeValue::Sequence(vec![SerdeValue::I32(-1), SerdeValue::U32(5)]);
    assert_eq!(serde_value_to_tag(&ints).unwrap(), Tag::IntArray(vec![-1, 5]));
    let longs = SerdeValue::Sequence(vec![SerdeValue::I64(-1), SerdeValue::U64(5)]);
    assert_eq!(serde_value_to_tag(&longs).unwrap(), Tag::LongArray(vec![-1, 5]));
    let shorts = SerdeValue::Sequence(vec![SerdeValue::I16(1), SerdeValue::I16(2)]);
    assert_eq!(
        serde_value_to_tag(&shorts).unwrap(),
        Tag::List(ListTag::new(TagType::Short, vec![Tag::Short(1), Tag::Short(2)]).unwrap())
    );
    let mixed = SerdeValue::Sequence(vec![SerdeValue::I16(1), SerdeValue::String("a".to_string())]);
    assert!(matches!(serde_value_to_tag(&mixed), Err(Error::UnexpectedType { .. })));
}

#[test]
fn map_keys_are_written_as_decimal_text() {
    let value = SerdeValue::Mapping(vec![
        (SerdeValue::I32(-42), SerdeValue::Bool(true)),
        (SerdeValue::U64(u64::MAX), SerdeValue::I8(1)),
        (SerdeValue::Bool(false), SerdeValue::I8(2)),
        (SerdeValue::Char('k'), SerdeValue::I8(3)),
    ]);
    let tag = serde_value_to_tag(&value).unwrap();
    let compound = match tag {
        Tag::Compound(value) => value,
        other => panic!("expected compound, got {other:?}"),
    };
    assert_eq!(compound.get("-42"), Some(&Tag::Byte(1)));
    assert_eq!(compound.get("18446744073709551615"), Some(&Tag::Byte(1)));
    assert_eq!(compound.get("false"), Some(&Tag::Byte(2)));
    assert_eq!(compound.get("k"), Some(&Tag::Byte(3)));
    let bad = SerdeValue::Mapping(vec![(SerdeValue::Unit, SerdeValue::I8(1))]);
    assert!(matches!(serde_value_to_tag(&bad), Err(Error::Serde { .. })));
}

#[test]
fn end_tag_has_no_serde_value() {
    assert!(matches!(tag_to_serde_value(&Tag::End), Err(Error::Serde { .. })));
}

#[test]
fn player_data_net_roundtrip() {
    let input = SerdeValue::Mapping(vec![
        field("hp", SerdeValue::I32(20)),
        field("username", SerdeValue::String("Steve".to_string())),
    ]);
    let output = bytes_roundtrip::<NetworkLittleEndian>("", &input);
    assert_eq!(output, input);
}

#[test]
fn serde_value_comes_back_widened() {
    let input = SerdeValue::Mapping(vec![
        field("flag", SerdeValue::Bool(true)),
        field("n", SerdeValue::U16(40000)),
        field("c", SerdeValue::Char('x')),
        field("b", SerdeValue::Bytes(vec![1, 2])),
        field("o", SerdeValue::Option(Some(Box::new(SerdeValue::I32(3))))),
    ]);
    let tag = serde_value_to_tag(&input).unwrap();
    let back = tag_to_serde_value(&tag).unwrap();
    assert_eq!(
        back,
        SerdeValue::Mapping(vec![
            field("flag", SerdeValue::I8(1)),
            field("n", SerdeValue::I32(40000)),
            field("c", SerdeValue::String("x".to_string())),
            field("b", SerdeValue::Sequence(vec![SerdeValue::U8(1), SerdeValue::U8(2)])),
            field("o", SerdeValue::I32(3)),
        ])
    );
}
