use quanergy_client::station::{
    config_hash, default_length_unit, default_min_points, hex_lower, validate_hammer_ids, validate_station,
    FrameConfigToml, HammerAssignment, HammerOutline, HammersOutline, ScannerOutline, StationIssue,
    StationOutline, SupportedHammerAxis,
};

fn item(id: &str) -> HammerOutline {
    HammerOutline { id: id.to_string(), enabled: true, numbers_ok: true }
}

fn outline(items: Vec<HammerOutline>) -> StationOutline {
    StationOutline {
        schema_version: 1,
        station_id: "test".to_string(),
        frames: Some(FrameConfigToml {
            source: "quanergy_sensor".to_string(),
            target: "station".to_string(),
            length_unit: "m".to_string(),
        }),
        scanner: Some(ScannerOutline {
            extrinsic_id: "test".to_string(),
            extrinsic_kind: "matrix".to_string(),
            matrix_ok: true,
        }),
        hammers: Some(HammersOutline {
            axis: "y".to_string(),
            vertical_axis: "z".to_string(),
            assignment: String::new(),
            minimum_points: 100,
            items,
        }),
    }
}

const EXAMPLE: &str = "schema_version = 1\nstation_id = \"tamping-station-01\"\n";

#[test]
fn invalid_schema_rejected() {
    let mut o = outline(vec![item("H01")]);
    o.schema_version = 99;
    assert!(matches!(validate_station(o), Err(StationIssue::UnsupportedSchema { found: 99, expected: 1 })));
}

#[test]
fn empty_hammer_list_rejected() {
    assert!(matches!(validate_station(outline(Vec::new())), Err(StationIssue::EmptyHammers)));
}

#[test]
fn duplicate_hammer_id_rejected() {
    let o = outline(vec![item("H01"), item("H01")]);
    assert!(matches!(validate_station(o), Err(StationIssue::DuplicateHammerId { id }) if id == "H01"));
}

#[test]
fn hash_stable_for_same_input() {
    assert_eq!(config_hash(EXAMPLE), config_hash(EXAMPLE));
}

#[test]
fn hash_differs_for_different_input() {
    let modified = EXAMPLE.replace("tamping-station-01", "tamping-station-02");
    assert_ne!(config_hash(EXAMPLE), config_hash(&modified));
}

#[test]
fn validate_non_empty_rejects_empty() {
    assert!(validate_hammer_ids(&Vec::new()).is_err());
}

#[test]
fn validate_rejects_duplicate_ids() {
    let ids = vec!["H01".to_string(), "H01".to_string()];
    assert_eq!(validate_hammer_ids(&ids).unwrap_err(), "duplicate hammer id: H01");
}

#[test]
fn valid_outline_is_settled() {
    let plan = validate_station(outline(vec![item("H01"), item("H02"), item("H03")])).unwrap();
    assert_eq!(plan.station_id, "test");
    assert_eq!(plan.source_frame, "quanergy_sensor");
    assert_eq!(plan.target_frame, "station");
    assert_eq!(plan.extrinsic_id, "test");
    assert_eq!(plan.hammer_ids, vec!["H01".to_string(), "H02".to_string(), "H03".to_string()]);
    assert_eq!(plan.minimum_points, 100);
    assert_eq!(plan.axis, SupportedHammerAxis::Y);
    assert_eq!(plan.assignment, HammerAssignment::NearestYCenter);
    assert!(validate_hammer_ids(&plan.hammer_ids).is_ok());
}

#[test]
fn missing_frames_get_the_defaults() {
    let mut o = outline(vec![item("H01")]);
    o.frames = None;
    let plan = validate_station(o).unwrap();
    assert_eq!(plan.source_frame, "quanergy_sensor");
    assert_eq!(plan.target_frame, "station");
    assert_eq!(default_length_unit(), "m");
    assert_eq!(default_min_points(), 100);
}

#[test]
fn checks_come_in_file_order() {
    let mut o = outline(vec![item("")]);
    o.station_id = String::new();
    assert!(matches!(validate_station(o), Err(StationIssue::EmptyField { field }) if field == "station_id"));

    let mut o = outline(vec![item("H01")]);
    o.frames = Some(FrameConfigToml { source: "a".to_string(), target: "a".to_string(), length_unit: "mm".to_string() });
    assert!(matches!(validate_station(o), Err(StationIssue::FramesIdentical { .. })));

    let mut o = outline(vec![item("H01")]);
    o.frames = Some(FrameConfigToml { source: "a".to_string(), target: "b".to_string(), length_unit: "mm".to_string() });
    assert!(matches!(validate_station(o), Err(StationIssue::UnsupportedUnit { unit }) if unit == "mm"));

    let mut o = outline(vec![item("H01")]);
    o.scanner = None;
    assert!(matches!(validate_station(o), Err(StationIssue::EmptyField { field }) if field == "scanner"));

    let mut o = outline(vec![item("H01")]);
    o.scanner = Some(ScannerOutline { extrinsic_id: "e".to_string(), extrinsic_kind: "quat".to_string(), matrix_ok: false });
    assert!(matches!(validate_station(o), Err(StationIssue::UnsupportedExtrinsicKind { kind }) if kind == "quat"));

    let mut o = outline(vec![item("H01")]);
    o.scanner = Some(ScannerOutline { extrinsic_id: "e".to_string(), extrinsic_kind: "matrix".to_string(), matrix_ok: false });
    assert!(matches!(validate_station(o), Err(StationIssue::InvalidMatrix)));

    let mut o = outline(vec![item("H01")]);
    if let Some(h) = o.hammers.as_mut() {
        h.assignment = "round_robin".to_string();
    }
    assert!(matches!(
        validate_station(o),
        Err(StationIssue::UnsupportedUnit { unit }) if unit == "assignment 'round_robin' \u{2014} expected 'nearest_y_center'"
    ));

    let mut o = outline(vec![item("H01")]);
    if let Some(h) = o.hammers.as_mut() {
        h.minimum_points = 0;
        h.vertical_axis = "x".to_string();
    }
    assert!(matches!(validate_station(o), Err(StationIssue::InvalidVerticalAxis { axis }) if axis == "x"));

    let mut bad = item("H02");
    bad.numbers_ok = false;
    let o = outline(vec![item("H01"), bad, item("H01")]);
    assert!(matches!(validate_station(o), Err(StationIssue::InvalidHammerNumbers { index: 1 })));

    let o = outline(vec![item("H01"), item("")]);
    assert!(matches!(validate_station(o), Err(StationIssue::EmptyField { field }) if field == "hammer id"));
}

#[test]
fn digest_is_lower_case_hex_sha256() {
    assert_eq!(config_hash(""), "e3b0c44298fc1c149afbf4c8996fb92427ae41e4649b934ca495991b7852b855");
    assert_eq!(config_hash("abc"), "ba7816bf8f01cfea414140de5dae2223b00361a396177a9cb410ff61f20015ad");
    assert_eq!(hex_lower(&[0x00, 0x0f, 0xa0, 0xff]), "000fa0ff");
}
