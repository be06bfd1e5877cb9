use nbt_rust::text::parse_usize;
use nbt_rust::{
    decode_zigzag_i32, decode_zigzag_i64, encode_zigzag_i32, encode_zigzag_i64, read_var_i32,
    read_var_i64, write_var_i32, write_var_i64, write_var_u32, ByteReader, EncodingKind, Error,
    ListTag, NbtLimits, NbtReadConfig, ParseMode, RootTag, Tag, TagType,
};

#[test]
fn end_tag_maps_to_end_tag_type() {
    assert_eq!(Tag::End.tag_type(), TagType::End);
}

#[test]
fn tag_type_ids_roundtrip_and_unknown_ids_are_refused() {
    for id in 0u8..=12 {
        let t = TagType::try_from(id).unwrap();
        assert_eq!(t.id(), id);
        assert_eq!(TagType::from_id(id).unwrap(), t);
    }
    assert!(matches!(TagType::try_from(13u8), Err(Error::UnknownTag { id: 13 })));
    assert!(matches!(TagType::from_id(255), Err(Error::UnknownTag { id: 255 })));
}

#[test]
fn zigzag_values() {
    assert_eq!(encode_zigzag_i32(0), 0);
    assert_eq!(encode_zigzag_i32(-1), 1);
    assert_eq!(encode_zigzag_i32(1), 2);
    assert_eq!(encode_zigzag_i32(-2), 3);
    assert_eq!(encode_zigzag_i32(i32::MAX), u32::MAX - 1);
    assert_eq!(encode_zigzag_i32(i32::MIN), u32::MAX);
    assert_eq!(encode_zigzag_i64(i64::MIN), u64::MAX);
    for v in [0i32, 1, -1, 12345, -12345, i32::MIN, i32::MAX] {
        assert_eq!(decode_zigzag_i32(encode_zigzag_i32(v)), v);
    }
    for v in [0i64, 1, -1, 1 << 40, -(1 << 40), i64::MIN, i64::MAX] {
        assert_eq!(decode_zigzag_i64(encode_zigzag_i64(v)), v);
    }
    assert_eq!(decode_zigzag_i64(3), -2);
}

#[test]
fn signed_varints_roundtrip_and_have_the_expected_bytes() {
    let mut out = Vec::new();
    write_var_i32(&mut out, -1).unwrap();
    assert_eq!(out, vec![0x01]);
    let mut out = Vec::new();
    write_var_i32(&mut out, 150).unwrap();
    assert_eq!(out, vec![0xAC, 0x02]);
    assert_eq!(read_var_i32(&mut ByteReader::new(out)).unwrap(), 150);
    let mut out = Vec::new();
    write_var_i64(&mut out, i64::MIN).unwrap();
    assert_eq!(out.len(), 10);
    assert_eq!(read_var_i64(&mut ByteReader::new(out)).unwrap(), i64::MIN);
    let mut out = Vec::new();
    write_var_u32(&mut out, u32::MAX).unwrap();
    assert_eq!(out, vec![0xFF, 0xFF, 0xFF, 0xFF, 0x0F]);
}

#[test]
fn reader_position_follows_what_was_consumed() {
    let mut input = ByteReader::new(vec![0xAC, 0x02, 0x07]);
    assert_eq!(nbt_rust::read_var_u32(&mut input).unwrap(), 300);
    assert_eq!(input.position(), 2);
    assert_eq!(nbt_rust::read_var_u32(&mut input).unwrap(), 7);
    assert_eq!(input.position(), 3);
    assert!(nbt_rust::read_var_u32(&mut input).is_err());
    assert_eq!(input.position(), 3);
}

#[test]
fn error_context_layers() {
    let e = Error::UnknownTag { id: 7 }
        .with_context("inner_op", 3, Some("inner_field"))
        .with_context("outer_op", 0, None);
    assert!(matches!(e.innermost(), Error::UnknownTag { id: 7 }));
    assert!(e.has_context("inner_op", Some("inner_field")));
    assert!(e.has_context("outer_op", None));
    assert!(!e.has_context("inner_op", None));
    assert!(!e.has_context("missing", Some("inner_field")));
    let plain = Error::UnexpectedEndTagPayload;
    assert!(!plain.has_context("inner_op", None));
    assert!(matches!(plain.innermost(), Error::UnexpectedEndTagPayload));
}

#[test]
fn limits_and_configs() {
    let d = NbtLimits::default();
    assert_eq!(d.max_depth, 512);
    assert_eq!(d.max_read_bytes, 16 * 1024 * 1024);
    assert_eq!(d.max_string_len, 1024 * 1024);
    assert_eq!(d.max_array_len, 4 * 1024 * 1024);
    assert_eq!(d.max_list_len, 1024 * 1024);
    assert_eq!(d.max_compound_entries, 1024 * 1024);
    let l = NbtLimits::new(1, 2, 3, 4, 5, 6)
        .with_max_depth(10)
        .with_max_read_bytes(20)
        .with_max_string_len(30)
        .with_max_array_len(40)
        .with_max_list_len(50)
        .with_max_compound_entries(60);
    assert_eq!(l, NbtLimits::new(10, 20, 30, 40, 50, 60));
    let c = NbtReadConfig::strict(l).with_parse_mode(ParseMode::Compatible);
    assert_eq!(c, NbtReadConfig::compatible(l));
    assert_eq!(c.with_limits(d).limits, d);
    assert_eq!(NbtReadConfig::default(), NbtReadConfig::new(d, ParseMode::Strict));
    assert_eq!(ParseMode::default(), ParseMode::Strict);
    assert!(EncodingKind::NetworkLittleEndian.is_network());
    assert!(!EncodingKind::BigEndian.is_network());
}

#[test]
fn list_constructor_rules() {
    assert!(matches!(
        ListTag::new(TagType::End, vec![Tag::Int(1)]),
        Err(Error::InvalidListHeader { element_type_id: 0, length: 1 })
    ));
    let empty = ListTag::new(TagType::End, Vec::new()).unwrap();
    assert_eq!(empty, ListTag::empty(TagType::End));
    let ok = ListTag::new(TagType::Int, vec![Tag::Int(1), Tag::Int(2)]).unwrap();
    assert!(ok.validate().is_ok());
}

#[test]
fn compound_insert_replace_and_remove() {
    let mut c = nbt_rust::CompoundTag::new();
    assert!(c.is_empty());
    assert_eq!(c.insert("a".to_string(), Tag::Int(1)), None);
    assert_eq!(c.insert("b".to_string(), Tag::Int(2)), None);
    assert_eq!(c.insert("a".to_string(), Tag::Int(3)), Some(Tag::Int(1)));
    assert_eq!(c.len(), 2);
    assert_eq!(c.entries()[0].key, "a");
    assert_eq!(c.get("a"), Some(&Tag::Int(3)));
    assert!(c.contains_key("b"));
    assert_eq!(c.shift_remove("a"), Some(Tag::Int(3)));
    assert_eq!(c.entries()[0].key, "b");
    assert_eq!(c.shift_remove("a"), None);
    let copy = c.clone();
    assert_eq!(copy, c);
}

#[test]
fn decimal_parsing_follows_usize_from_str() {
    assert_eq!(parse_usize("0"), Some(0));
    assert_eq!(parse_usize("42"), Some(42));
    assert_eq!(parse_usize("+7"), Some(7));
    assert_eq!(parse_usize("007"), Some(7));
    assert_eq!(parse_usize(&usize::MAX.to_string()), Some(usize::MAX));
    assert_eq!(parse_usize(""), None);
    assert_eq!(parse_usize("+"), None);
    assert_eq!(parse_usize("-1"), None);
    assert_eq!(parse_usize("1a"), None);
    assert_eq!(parse_usize(" 1"), None);
    assert_eq!(parse_usize("18446744073709551616"), None);
    for s in ["0", "42", "+7", "007", "", "+", "-1", "1a", "99999999999999999999"] {
        assert_eq!(parse_usize(s), s.parse::<usize>().ok(), "{s}");
    }
}

#[test]
fn root_tag_clone_and_new() {
    let root = RootTag::new("n", Tag::Int(1));
    assert_eq!(root.name, "n");
    assert_eq!(root.payload.clone(), Tag::Int(1));
}

#[test]
fn compounds_compare_as_maps() {
    let mut a = nbt_rust::CompoundTag::new();
    a.insert("a".to_string(), nbt_rust::Tag::Int(1));
    a.insert("b".to_string(), nbt_rust::Tag::Int(2));
    let mut b = nbt_rust::CompoundTag::new();
    b.insert("b".to_string(), nbt_rust::Tag::Int(2));
    b.insert("a".to_string(), nbt_rust::Tag::Int(1));
    assert_eq!(a, b);
    assert_eq!(nbt_rust::Tag::Compound(a), nbt_rust::Tag::Compound(b));

    let mut c = nbt_rust::CompoundTag::new();
    c.insert("a".to_string(), nbt_rust::Tag::Int(1));
    let mut d = nbt_rust::CompoundTag::new();
    d.insert("a".to_string(), nbt_rust::Tag::Int(1));
    d.insert("b".to_string(), nbt_rust::Tag::Int(2));
    assert_ne!(c, d);
}

#[test]
fn floats_compare_as_numbers() {
    let nan = f32::NAN.to_bits();
    assert_ne!(Tag::Float(nan), Tag::Float(nan));
    assert_eq!(Tag::Float(0.0f32.to_bits()), Tag::Float((-0.0f32).to_bits()));
    assert_eq!(Tag::Float(1.5f32.to_bits()), Tag::Float(1.5f32.to_bits()));
    assert_ne!(Tag::Double(f64::NAN.to_bits()), Tag::Double(f64::NAN.to_bits()));
    assert_eq!(Tag::Double(0.0f64.to_bits()), Tag::Double((-0.0f64).to_bits()));
}

#[test]
fn experiments_clone_compare_and_default() {
    let mut a = nbt_rust::Experiments::default();
    assert!(a.is_empty());
    a.set("gametest", 1);
    a.set("custom_biomes", 0);
    let b = a.clone();
    assert_eq!(a, b);
    let mut c = nbt_rust::Experiments::new();
    c.set("custom_biomes", 0);
    c.set("gametest", 1);
    assert_eq!(a, c);
}

#[test]
fn names_once_holds_for_a_built_tag() {
    let mut a = nbt_rust::CompoundTag::new();
    a.insert("x".to_string(), nbt_rust::Tag::Int(1));
    let t = nbt_rust::Tag::Compound(a);
    t.names_once();
    assert_eq!(t.tag_type(), nbt_rust::TagType::Compound);
}
