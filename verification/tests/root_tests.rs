use nbt_rust::{
    read_tag, read_tag_with_config, read_with_header_mode, read_with_header_mode_with_limits,
    write_tag, write_with_header_mode, BigEndian, ByteReader, CompoundTag, Error,
    HeaderReadMode, HeaderWriteMode, IoErrorKind, ListTag, LittleEndian, NbtLimits, NbtReadConfig,
    NetworkLittleEndian, RootTag, Tag, TagType, BEDROCK_FILE_HEADER_MAGIC,
};

fn sample_root(name: &str) -> RootTag {
    let mut map = CompoundTag::new();
    map.insert("health".to_string(), Tag::Int(20));
    map.insert("name".to_string(), Tag::String("Steve".to_string()));
    RootTag::new(name, Tag::Compound(map))
}

#[test]
fn root_roundtrip_preserves_name_be() {
    let root = sample_root("PlayerData");
    let mut out = Vec::new();
    write_tag::<BigEndian>(&mut out, &root).unwrap();

    let mut input = ByteReader::new(out);
    let decoded = read_tag::<BigEndian>(&mut input).unwrap();
    assert_eq!(decoded, root);
}

#[test]
fn root_roundtrip_empty_name_nle() {
    let root = sample_root("");
    let mut out = Vec::new();
    write_tag::<NetworkLittleEndian>(&mut out, &root).unwrap();

    let mut input = ByteReader::new(out);
    let decoded = read_tag::<NetworkLittleEndian>(&mut input).unwrap();
    assert_eq!(decoded.name, "");
    assert_eq!(decoded.payload, root.payload);
}

#[test]
fn root_rejects_tag_end_id() {
    let mut input = ByteReader::new(vec![TagType::End.id(), 0x00, 0x00]);
    let err = read_tag::<LittleEndian>(&mut input);
    let err = err.unwrap_err();
    assert!(matches!(err.innermost(), Error::InvalidRoot { id: 0 }));
}

#[test]
fn root_rejects_primitive_tag_id() {
    let mut input = ByteReader::new(vec![TagType::Int.id(), 0x00, 0x00, 0x00, 0x00, 0x00, 0x2A]);
    let err = read_tag::<BigEndian>(&mut input).unwrap_err();
    assert!(matches!(
        err.innermost(),
        Error::InvalidRoot { id } if *id == TagType::Int.id()
    ));
    assert!(err.has_context("validate_root_tag_type", Some("root_tag_type")));
}

#[test]
fn compatible_mode_accepts_primitive_root_tag_id() {
    let mut input = ByteReader::new(vec![TagType::Int.id(), 0x00, 0x00, 0x00, 0x00, 0x00, 0x2A]);
    let config = NbtReadConfig::compatible(NbtLimits::default());
    let decoded = read_tag_with_config::<BigEndian>(&mut input, &config).unwrap();
    assert_eq!(decoded.name, "");
    assert_eq!(decoded.payload, Tag::Int(42));
}

#[test]
fn write_tag_rejects_primitive_root_payload() {
    let root = RootTag::new("bad", Tag::Int(7));
    let mut out = Vec::new();
    let err = write_tag::<BigEndian>(&mut out, &root).unwrap_err();
    assert!(matches!(
        err.innermost(),
        Error::InvalidRoot { id } if *id == TagType::Int.id()
    ));
}

#[test]
fn refused_root_leaves_writer_unchanged_in_every_header_mode() {
    let root = RootTag::new("bad", Tag::Int(7));
    for mode in [
        HeaderWriteMode::NoHeader,
        HeaderWriteMode::BedrockFileHeader,
        HeaderWriteMode::LevelDatHeader { storage_version: 10 },
    ] {
        let mut out = vec![1, 2, 3];
        let err = write_with_header_mode::<LittleEndian>(&mut out, &root, mode).unwrap_err();
        assert!(err.has_context("validate_root_tag_type", Some("root_tag_type")));
        assert_eq!(out, vec![1, 2, 3]);
    }
}

#[test]
fn root_list_roundtrip_is_allowed() {
    let list = ListTag::new(TagType::Int, vec![Tag::Int(1), Tag::Int(2)]).unwrap();
    let root = RootTag::new("list_root", Tag::List(list));
    let mut out = Vec::new();
    write_tag::<BigEndian>(&mut out, &root).unwrap();

    let mut input = ByteReader::new(out);
    let decoded = read_tag::<BigEndian>(&mut input).unwrap();
    assert_eq!(decoded, root);
}

#[test]
fn no_header_read_stops_at_root_end_and_leaves_trailing_bytes() {
    let bytes = vec![
        TagType::Compound.id(),
        0x00,
        0x00, // root name len = 0
        0x00, // empty compound end
        0xAB, // trailing byte
    ];

    let mut input = ByteReader::new(bytes);
    let root = read_tag::<BigEndian>(&mut input).unwrap();
    assert!(matches!(root.payload, Tag::Compound(_)));
    assert_eq!(input.position(), 4);
}

#[test]
fn no_header_mode_rejects_bedrock_header_stream_in_strict_mode() {
    let root = sample_root("BedrockRoot");
    let mut out = Vec::new();
    write_with_header_mode::<LittleEndian>(&mut out, &root, HeaderWriteMode::BedrockFileHeader).unwrap();

    let mut input = ByteReader::new(out);
    let err = read_with_header_mode::<LittleEndian>(&mut input, HeaderReadMode::NoHeader).unwrap_err();
    assert!(matches!(
        err.innermost(),
        Error::InvalidRoot { id } if *id == TagType::String.id()
    ));
}

#[test]
fn no_header_mode_rejects_leveldat_header_stream_in_strict_mode() {
    let root = sample_root("LevelDatRoot");
    let mut out = Vec::new();
    write_with_header_mode::<LittleEndian>(
        &mut out,
        &root,
        HeaderWriteMode::LevelDatHeader { storage_version: 11 },
    )
    .unwrap();

    let mut input = ByteReader::new(out);
    let err = read_with_header_mode::<LittleEndian>(&mut input, HeaderReadMode::NoHeader).unwrap_err();
    assert!(matches!(
        err.innermost(),
        Error::InvalidRoot { id } if *id == TagType::IntArray.id()
    ));
}

#[test]
fn bedrock_header_roundtrip() {
    let root = sample_root("BedrockRoot");
    let mut out = Vec::new();
    write_with_header_mode::<LittleEndian>(&mut out, &root, HeaderWriteMode::BedrockFileHeader).unwrap();

    let mut input = ByteReader::new(out);
    let decoded =
        read_with_header_mode::<LittleEndian>(&mut input, HeaderReadMode::BedrockFileHeader).unwrap();
    assert_eq!(decoded, root);
}

#[test]
fn bedrock_header_rejects_invalid_magic() {
    let root = sample_root("BedrockRoot");
    let mut payload = Vec::new();
    write_tag::<LittleEndian>(&mut payload, &root).unwrap();

    let mut bytes = Vec::new();
    bytes.extend_from_slice(&7u32.to_le_bytes());
    bytes.extend_from_slice(&(payload.len() as u32).to_le_bytes());
    bytes.extend_from_slice(&payload);

    let mut input = ByteReader::new(bytes);
    let err = read_with_header_mode::<LittleEndian>(&mut input, HeaderReadMode::BedrockFileHeader);
    let err = err.unwrap_err();
    assert!(matches!(
        err.innermost(),
        Error::InvalidHeader {
            detail: "bedrock_header_magic_mismatch",
            expected: Some(BEDROCK_FILE_HEADER_MAGIC),
            actual: Some(7)
        }
    ));
}

#[test]
fn bedrock_header_rejects_no_header_stream() {
    let root = sample_root("NoHeaderRoot");
    let mut out = Vec::new();
    write_tag::<LittleEndian>(&mut out, &root).unwrap();

    let mut input = ByteReader::new(out);
    let err =
        read_with_header_mode::<LittleEndian>(&mut input, HeaderReadMode::BedrockFileHeader).unwrap_err();
    assert!(matches!(
        err.innermost(),
        Error::InvalidHeader {
            detail: "bedrock_header_magic_mismatch",
            expected: Some(BEDROCK_FILE_HEADER_MAGIC),
            ..
        }
    ));
}

#[test]
fn bedrock_header_rejects_leveldat_stream_when_storage_version_is_not_magic() {
    let root = sample_root("LevelDatRoot");
    let mut out = Vec::new();
    write_with_header_mode::<LittleEndian>(
        &mut out,
        &root,
        HeaderWriteMode::LevelDatHeader { storage_version: 11 },
    )
    .unwrap();

    let mut input = ByteReader::new(out);
    let err =
        read_with_header_mode::<LittleEndian>(&mut input, HeaderReadMode::BedrockFileHeader).unwrap_err();
    assert!(matches!(
        err.innermost(),
        Error::InvalidHeader {
            detail: "bedrock_header_magic_mismatch",
            expected: Some(BEDROCK_FILE_HEADER_MAGIC),
            actual: Some(11)
        }
    ));
}

#[test]
fn leveldat_header_accepts_non_eight_storage_version() {
    let root = sample_root("LevelDatRoot");
    let mut out = Vec::new();
    write_with_header_mode::<LittleEndian>(
        &mut out,
        &root,
        HeaderWriteMode::LevelDatHeader { storage_version: 11 },
    )
    .unwrap();

    let mut input = ByteReader::new(out);
    let decoded =
        read_with_header_mode::<LittleEndian>(&mut input, HeaderReadMode::LevelDatHeader).unwrap();
    assert_eq!(decoded, root);
}

#[test]
fn leveldat_header_can_read_bedrock_stream_due_to_layout_compatibility() {
    let root = sample_root("BedrockRoot");
    let mut out = Vec::new();
    write_with_header_mode::<LittleEndian>(&mut out, &root, HeaderWriteMode::BedrockFileHeader).unwrap();

    let mut input = ByteReader::new(out);
    let decoded =
        read_with_header_mode::<LittleEndian>(&mut input, HeaderReadMode::LevelDatHeader).unwrap();
    assert_eq!(decoded, root);
}

#[test]
fn header_payload_trailing_bytes_are_rejected() {
    let root = sample_root("BedrockRoot");
    let mut payload = Vec::new();
    write_tag::<LittleEndian>(&mut payload, &root).unwrap();
    payload.extend_from_slice(&[0xAA, 0xBB, 0xCC]);

    let mut bytes = Vec::new();
    bytes.extend_from_slice(&BEDROCK_FILE_HEADER_MAGIC.to_le_bytes());
    bytes.extend_from_slice(&(payload.len() as u32).to_le_bytes());
    bytes.extend_from_slice(&payload);

    let mut input = ByteReader::new(bytes);
    let err = read_with_header_mode::<LittleEndian>(&mut input, HeaderReadMode::BedrockFileHeader);
    let err = err.unwrap_err();
    assert!(matches!(err.innermost(), Error::TrailingPayloadBytes { unread: 3 }));
}

#[test]
fn bedrock_header_rejects_payload_size_larger_than_stream() {
    let root = sample_root("BedrockRoot");
    let mut payload = Vec::new();
    write_tag::<LittleEndian>(&mut payload, &root).unwrap();

    let mut bytes = Vec::new();
    bytes.extend_from_slice(&BEDROCK_FILE_HEADER_MAGIC.to_le_bytes());
    bytes.extend_from_slice(&((payload.len() as u32) + 5).to_le_bytes());
    bytes.extend_from_slice(&payload);

    let mut input = ByteReader::new(bytes);
    let err =
        read_with_header_mode::<LittleEndian>(&mut input, HeaderReadMode::BedrockFileHeader).unwrap_err();
    assert!(matches!(err.innermost(), Error::Io(IoErrorKind::UnexpectedEof)));
}

#[test]
fn bedrock_header_payload_length_over_limit_is_rejected_before_allocation() {
    let mut bytes = Vec::new();
    bytes.extend_from_slice(&BEDROCK_FILE_HEADER_MAGIC.to_le_bytes());
    bytes.extend_from_slice(&(1024u32).to_le_bytes());

    let mut input = ByteReader::new(bytes);
    let limits = NbtLimits::default().with_max_read_bytes(64);
    let err = read_with_header_mode_with_limits::<LittleEndian>(
        &mut input,
        HeaderReadMode::BedrockFileHeader,
        &limits,
    )
    .unwrap_err();
    assert!(matches!(
        err.innermost(),
        Error::SizeExceeded {
            field: "header_payload_length",
            max: 64,
            actual: 1024
        }
    ));
}

#[test]
fn bedrock_header_rejects_payload_size_smaller_than_payload() {
    let root = sample_root("BedrockRoot");
    let mut payload = Vec::new();
    write_tag::<LittleEndian>(&mut payload, &root).unwrap();
    assert!(!payload.is_empty());

    let mut bytes = Vec::new();
    bytes.extend_from_slice(&BEDROCK_FILE_HEADER_MAGIC.to_le_bytes());
    bytes.extend_from_slice(&((payload.len() as u32) - 1).to_le_bytes());
    bytes.extend_from_slice(&payload);

    let mut input = ByteReader::new(bytes);
    let err =
        read_with_header_mode::<LittleEndian>(&mut input, HeaderReadMode::BedrockFileHeader).unwrap_err();
    assert!(matches!(err.innermost(), Error::Io(IoErrorKind::UnexpectedEof)));
}

#[test]
fn leveldat_header_payload_length_over_limit_is_rejected_before_allocation() {
    let mut bytes = Vec::new();
    bytes.extend_from_slice(&(11u32).to_le_bytes());
    bytes.extend_from_slice(&(1024u32).to_le_bytes());

    let mut input = ByteReader::new(bytes);
    let limits = NbtLimits::default().with_max_read_bytes(64);
    let err = read_with_header_mode_with_limits::<LittleEndian>(
        &mut input,
        HeaderReadMode::LevelDatHeader,
        &limits,
    )
    .unwrap_err();
    assert!(matches!(
        err.innermost(),
        Error::SizeExceeded {
            field: "header_payload_length",
            max: 64,
            actual: 1024
        }
    ));
}

// Cases of this library's own.

#[test]
fn bedrock_header_layout_is_magic_length_payload() {
    let root = sample_root("R");
    let mut payload = Vec::new();
    write_tag::<LittleEndian>(&mut payload, &root).unwrap();
    let mut out = Vec::new();
    write_with_header_mode::<LittleEndian>(&mut out, &root, HeaderWriteMode::BedrockFileHeader).unwrap();
    let mut expected = Vec::new();
    expected.extend_from_slice(&8u32.to_le_bytes());
    expected.extend_from_slice(&(payload.len() as u32).to_le_bytes());
    expected.extend_from_slice(&payload);
    assert_eq!(out, expected);
}

#[test]
fn root_name_over_limit_is_refused() {
    let root = sample_root("LongName");
    let mut out = Vec::new();
    write_tag::<BigEndian>(&mut out, &root).unwrap();
    let config = NbtReadConfig::strict(NbtLimits::default().with_max_string_len(3));
    let err = read_tag_with_config::<BigEndian>(&mut ByteReader::new(out), &config).unwrap_err();
    assert!(matches!(
        err.innermost(),
        Error::SizeExceeded { field: "root_name_length", max: 3, actual: 8 }
    ));
}

#[test]
fn root_payload_error_is_placed_in_context() {
    // Compound root with an empty name and an unknown entry type.
    let mut input = ByteReader::new(vec![TagType::Compound.id(), 0x00, 0x00, 99]);
    let err = read_tag::<BigEndian>(&mut input).unwrap_err();
    assert!(matches!(err.innermost(), Error::UnknownTag { id: 99 }));
    assert!(err.has_context("read_root_payload", Some("root_payload")));
}

#[test]
fn level_dat_header_reads_with_bedrock_reader_only_for_the_magic_version() {
    let root = sample_root("");
    for (version, ok) in [(BEDROCK_FILE_HEADER_MAGIC, true), (10u32, false)] {
        let mut out = Vec::new();
        write_with_header_mode::<LittleEndian>(
            &mut out,
            &root,
            HeaderWriteMode::LevelDatHeader { storage_version: version },
        )
        .unwrap();
        let mut input = ByteReader::new(out);
        let res = read_with_header_mode::<LittleEndian>(&mut input, HeaderReadMode::BedrockFileHeader);
        if ok {
            assert_eq!(res.unwrap(), root);
        } else {
            let err = res.unwrap_err();
            assert!(matches!(
                err.innermost(),
                Error::InvalidHeader {
                    detail: "bedrock_header_magic_mismatch",
                    expected: Some(8),
                    actual: Some(10)
                }
            ));
        }
    }
}
