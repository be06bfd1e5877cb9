use nbt_rust::{
    classify_experiment_key, is_known_experiment_key, read_experiments_from_root,
    write_experiments_to_root, CompoundTag, Error, ExperimentKeyKind, Experiments, RootTag, Tag,
    TagType,
};

#[test]
fn registry_classifies_known_and_unknown_keys() {
    assert!(is_known_experiment_key("caves_and_cliffs"));
    assert_eq!(classify_experiment_key("caves_and_cliffs"), ExperimentKeyKind::Known);

    assert!(!is_known_experiment_key("my_future_toggle"));
    assert_eq!(classify_experiment_key("my_future_toggle"), ExperimentKeyKind::Unknown);
}

#[test]
fn experiments_roundtrip_preserves_unknown_keys() {
    let mut map = CompoundTag::new();
    map.insert("caves_and_cliffs".to_string(), Tag::Byte(1));
    map.insert("my_future_toggle".to_string(), Tag::Byte(1));
    map.insert("another_unknown".to_string(), Tag::Byte(0));

    let experiments = Experiments::from_compound(&map).unwrap();
    let roundtrip = experiments.to_compound();
    assert_eq!(roundtrip, map);

    let unknown: Vec<_> = experiments.iter_unknown();
    assert_eq!(unknown.len(), 2);
}

#[test]
fn experiments_reject_non_byte_values() {
    let mut map = CompoundTag::new();
    map.insert("caves_and_cliffs".to_string(), Tag::Int(1));
    let err = Experiments::from_compound(&map).unwrap_err();
    assert!(matches!(
        err,
        Error::UnexpectedType {
            context: "level_dat_experiments_value_type",
            expected_id,
            actual_id
        } if expected_id == TagType::Byte.id() && actual_id == TagType::Int.id()
    ));
}

// Cases of this library's own.

#[test]
fn every_registered_key_is_known() {
    for key in [
        "caves_and_cliffs",
        "upcoming_creator_features",
        "gametest",
        "holiday_creator_features",
        "data_driven_items",
        "custom_biomes",
        "next_major_update",
        "molang_features",
    ] {
        assert!(is_known_experiment_key(key), "{key}");
    }
    assert!(!is_known_experiment_key(""));
    assert!(!is_known_experiment_key("Caves_and_cliffs"));
}

#[test]
fn set_get_remove_keep_insertion_order() {
    let mut e = Experiments::new();
    assert!(e.is_empty());
    assert_eq!(e.set("b", 1), None);
    assert_eq!(e.set("a", 0), None);
    assert_eq!(e.set("b", 5), Some(1));
    assert_eq!(e.len(), 2);
    assert_eq!(e.get("b"), Some(5));
    assert_eq!(e.get("zz"), None);
    let keys: Vec<String> = e.iter().into_iter().map(|(k, _)| k).collect();
    assert_eq!(keys, vec!["b".to_string(), "a".to_string()]);
    assert_eq!(e.remove("b"), Some(5));
    assert_eq!(e.remove("b"), None);
    assert_eq!(e.iter(), vec![("a".to_string(), 0)]);
}

#[test]
fn known_and_unknown_views_split_the_flags() {
    let mut e = Experiments::new();
    e.set("gametest", 1);
    e.set("custom_thing", 0);
    e.set("molang_features", 1);
    assert_eq!(
        e.iter_known(),
        vec![("gametest".to_string(), 1), ("molang_features".to_string(), 1)]
    );
    assert_eq!(e.iter_unknown(), vec![("custom_thing".to_string(), 0)]);
}

#[test]
fn root_helpers_read_and_write_the_experiments_compound() {
    let mut top = CompoundTag::new();
    top.insert("LevelName".to_string(), Tag::String("w".to_string()));
    let mut root = RootTag::new("", Tag::Compound(top));
    assert!(matches!(
        read_experiments_from_root(&root),
        Err(Error::InvalidStructureShape { detail: "level_dat_experiments_missing" })
    ));

    let mut e = Experiments::new();
    e.set("gametest", 1);
    write_experiments_to_root(&mut root, &e).unwrap();
    let back = read_experiments_from_root(&root).unwrap();
    assert_eq!(back.get("gametest"), Some(1));

    let mut bad = RootTag::new("", Tag::Int(3));
    let err = write_experiments_to_root(&mut bad, &e).unwrap_err();
    assert!(matches!(err, Error::UnexpectedType { context: "level_dat_root_payload_type", .. }));
}

#[test]
fn written_experiments_read_back_in_order() {
    let mut top = CompoundTag::new();
    top.insert("experiments".to_string(), Tag::Int(0));
    let mut root = RootTag::new("", Tag::Compound(top));
    let mut e = Experiments::new();
    e.set("zeta_unknown", 1);
    e.set("gametest", 0);
    write_experiments_to_root(&mut root, &e).unwrap();
    let back = read_experiments_from_root(&root).unwrap();
    assert_eq!(back.iter(), e.iter());
}
