use nbt_rust::{
    validate_mcstructure_root, validate_mcstructure_tag, zyx_flatten_index, zyx_unflatten_index,
    CompoundTag, Error, ListTag, McStructureSemanticReport, ParseMode, RootTag, Tag, TagType,
};

fn int_list(values: &[i32]) -> Tag {
    Tag::List(ListTag::new(TagType::Int, values.iter().copied().map(Tag::Int).collect()).unwrap())
}

/// The parts a valid structure is built from; tests change one before building.
struct Parts {
    format_version: Option<Tag>,
    primary: Tag,
    default_palette: Option<CompoundTag>,
}

fn valid_parts() -> Parts {
    let mut default = CompoundTag::new();
    default.insert(
        "block_palette".to_string(),
        Tag::List(
            ListTag::new(
                TagType::Compound,
                vec![Tag::Compound(CompoundTag::new()), Tag::Compound(CompoundTag::new())],
            )
            .unwrap(),
        ),
    );
    Parts {
        format_version: Some(Tag::Int(1)),
        primary: int_list(&[0, 1, -1, 0]),
        default_palette: Some(default),
    }
}

fn build(parts: Parts) -> RootTag {
    let mut root = CompoundTag::new();
    if let Some(v) = parts.format_version {
        root.insert("format_version".to_string(), v);
    }
    root.insert("size".to_string(), int_list(&[2, 1, 2]));

    let mut structure = CompoundTag::new();
    let secondary = int_list(&[-1, -1, -1, -1]);
    structure.insert(
        "block_indices".to_string(),
        Tag::List(ListTag::new(TagType::List, vec![parts.primary, secondary]).unwrap()),
    );
    let mut palette = CompoundTag::new();
    if let Some(default) = parts.default_palette {
        palette.insert("default".to_string(), Tag::Compound(default));
    }
    structure.insert("palette".to_string(), Tag::Compound(palette));

    root.insert("structure".to_string(), Tag::Compound(structure));
    root.insert("structure_world_origin".to_string(), int_list(&[0, 64, 0]));
    RootTag::new("", Tag::Compound(root))
}

fn build_valid_mcstructure_root() -> RootTag {
    build(valid_parts())
}

#[test]
fn strict_validator_accepts_valid_fixture_shape() {
    let root = build_valid_mcstructure_root();
    let report = validate_mcstructure_root(&root, ParseMode::Strict).unwrap();
    assert_eq!(report.size, [2, 1, 2]);
    assert_eq!(report.volume, 4);
    assert_eq!(report.layer_count, 2);
    assert_eq!(report.palette_len, 2);
    assert_eq!(report.no_block_indices, 5);
    assert_eq!(report.out_of_range_indices, 0);
}

#[test]
fn strict_validator_requires_format_version() {
    let mut root = build_valid_mcstructure_root();
    let top = match &mut root.payload {
        Tag::Compound(value) => value,
        _ => unreachable!(),
    };
    top.shift_remove("format_version");

    let err = validate_mcstructure_root(&root, ParseMode::Strict).unwrap_err();
    assert!(matches!(
        err,
        Error::InvalidStructureShape {
            detail: "mcstructure_format_version_missing"
        }
    ));
}

#[test]
fn strict_validator_rejects_non_one_format_version() {
    let mut root = build_valid_mcstructure_root();
    let top = match &mut root.payload {
        Tag::Compound(value) => value,
        _ => unreachable!(),
    };
    top.insert("format_version".to_string(), Tag::Int(2));

    let err = validate_mcstructure_root(&root, ParseMode::Strict).unwrap_err();
    assert!(matches!(
        err,
        Error::InvalidStructureShape {
            detail: "mcstructure_format_version_must_be_one"
        }
    ));
}

#[test]
fn compatible_validator_accepts_non_one_format_version() {
    let mut root = build_valid_mcstructure_root();
    let top = match &mut root.payload {
        Tag::Compound(value) => value,
        _ => unreachable!(),
    };
    top.insert("format_version".to_string(), Tag::Int(2));

    let report = validate_mcstructure_root(&root, ParseMode::Compatible).unwrap();
    assert_eq!(report.volume, 4);
}

#[test]
fn strict_validator_rejects_missing_default_palette() {
    let mut parts = valid_parts();
    parts.default_palette = None;
    let root = build(parts);

    let err = validate_mcstructure_root(&root, ParseMode::Strict).unwrap_err();
    assert!(matches!(
        err,
        Error::InvalidStructureShape {
            detail: "mcstructure_default_palette_missing"
        }
    ));
}

#[test]
fn compatible_validator_accepts_missing_default_palette() {
    let mut parts = valid_parts();
    parts.default_palette = None;
    let root = build(parts);

    let report = validate_mcstructure_root(&root, ParseMode::Compatible).unwrap();
    assert!(!report.has_default_palette);
    assert_eq!(report.palette_len, 0);
}

#[test]
fn strict_validator_rejects_out_of_range_palette_index() {
    let mut parts = valid_parts();
    parts.primary = int_list(&[99, 1, -1, 0]);
    let root = build(parts);

    let err = validate_mcstructure_root(&root, ParseMode::Strict).unwrap_err();
    assert!(matches!(
        err,
        Error::InvalidPaletteIndex {
            index: 99,
            palette_len: 2
        }
    ));
}

#[test]
fn compatible_validator_falls_back_for_non_int_layer_entries() {
    let mut parts = valid_parts();
    parts.primary = Tag::List(
        ListTag::new(
            TagType::Byte,
            vec![Tag::Byte(5), Tag::Byte(6), Tag::Byte(7), Tag::Byte(8)],
        )
        .unwrap(),
    );
    let root = build(parts);

    let report = validate_mcstructure_root(&root, ParseMode::Compatible).unwrap();
    assert_eq!(report.out_of_range_indices, 0);
}

#[test]
fn compatible_validator_counts_out_of_range_palette_indices() {
    let mut parts = valid_parts();
    parts.primary = int_list(&[-2, 9, -1, 0]);
    let root = build(parts);

    let report = validate_mcstructure_root(&root, ParseMode::Compatible).unwrap();
    assert_eq!(report.out_of_range_indices, 2);
}

#[test]
fn zyx_flatten_and_unflatten_roundtrip() {
    let size = [2, 3, 4];
    for x in 0..size[0] {
        for y in 0..size[1] {
            for z in 0..size[2] {
                let flat = zyx_flatten_index(size, x, y, z).unwrap();
                let (rx, ry, rz) = zyx_unflatten_index(size, flat).unwrap();
                assert_eq!((rx, ry, rz), (x, y, z));
            }
        }
    }
}

// Cases of this library's own.

#[test]
fn zyx_flatten_orders_z_fastest() {
    let size = [2, 3, 4];
    assert_eq!(zyx_flatten_index(size, 0, 0, 1).unwrap(), 1);
    assert_eq!(zyx_flatten_index(size, 0, 1, 0).unwrap(), 4);
    assert_eq!(zyx_flatten_index(size, 1, 0, 0).unwrap(), 12);
    assert_eq!(zyx_flatten_index(size, 1, 2, 3).unwrap(), 23);
}

#[test]
fn zyx_errors() {
    assert!(matches!(
        zyx_flatten_index([2, 3, 4], 2, 0, 0),
        Err(Error::InvalidStructureShape { detail: "mcstructure_coordinate_out_of_bounds" })
    ));
    assert!(matches!(
        zyx_unflatten_index([2, 3, 4], 24),
        Err(Error::InvalidStructureShape { detail: "mcstructure_flat_index_out_of_bounds" })
    ));
    assert!(matches!(
        zyx_unflatten_index([usize::MAX, 2, 1], 0),
        Err(Error::LengthOverflow { field: "mcstructure_volume", .. })
    ));
    assert!(matches!(
        zyx_flatten_index([usize::MAX, usize::MAX, 2], usize::MAX - 1, 1, 1),
        Err(Error::LengthOverflow { field: "mcstructure_flatten_index", .. })
    ));
}

#[test]
fn non_compound_payload_is_refused() {
    let err = validate_mcstructure_tag(&Tag::Int(1), ParseMode::Strict).unwrap_err();
    assert!(matches!(
        err,
        Error::UnexpectedType { context: "mcstructure_root_payload_type", .. }
    ));
}

#[test]
fn block_position_keys_are_checked_against_the_volume() {
    let mut parts = valid_parts();
    let mut data = CompoundTag::new();
    data.insert("3".to_string(), Tag::Compound(CompoundTag::new()));
    data.insert("+2".to_string(), Tag::Compound(CompoundTag::new()));
    data.insert("4".to_string(), Tag::Compound(CompoundTag::new()));
    let mut default = parts.default_palette.take().unwrap();
    default.insert("block_position_data".to_string(), Tag::Compound(data));
    parts.default_palette = Some(default);
    let root = build(parts);

    let err = validate_mcstructure_root(&root, ParseMode::Strict).unwrap_err();
    assert!(matches!(
        err,
        Error::InvalidStructureShape { detail: "mcstructure_block_position_data_key_out_of_bounds" }
    ));
    let report = validate_mcstructure_root(&root, ParseMode::Compatible).unwrap();
    assert_eq!(report.invalid_block_position_data_keys, 1);
}

#[test]
fn default_report_is_all_zero() {
    let report = McStructureSemanticReport::default();
    assert_eq!(report.size, [0, 0, 0]);
    assert_eq!(report.volume, 0);
    assert!(!report.has_default_palette);
}

#[test]
fn compatible_mode_reports_what_strict_mode_reports() {
    let root = build_valid_mcstructure_root();
    let strict = validate_mcstructure_root(&root, ParseMode::Strict).unwrap();
    let compatible = validate_mcstructure_root(&root, ParseMode::Compatible).unwrap();
    assert_eq!(strict, compatible);
}
