use quanergy_client::cloud::Frame;
use quanergy_client::error::QuanergyError;
use quanergy_client::storage::{
    database_path, default_session_id, encode_qpcd, frame_file_name, from_i64, packet_type_mask, qpcd_layout, qpcd_points_end,
    session_id_or_default, tmp_path, to_i64, validate_frame_dimensions, PcdEncoding, PcdFileInfo, QpcdHeader,
    QpcdLayout, ScanFrameId, QPCD_POINT_STRIDE,
};

#[test]
fn qpcd_rejects_invalid_magic() {
    let error = qpcd_layout(b"not-qpcd").unwrap_err();
    assert!(matches!(error, QuanergyError::StorageFormat(m) if m.contains("invalid qpcd magic")));
}

#[test]
fn mismatched_dimensions_rejected() {
    let frame = Frame { stamp_micros: 0, sequence: 0, frame_id: "test".into(), width: 3, height: 2, is_dense: true, points: vec![0u8] };
    let err = validate_frame_dimensions(&frame).unwrap_err();
    assert!(matches!(err, QuanergyError::StorageFormat(m) if m.contains("dimension mismatch") && m == "frame dimension mismatch: 3\u{d7}2 = 6, but points.len() = 1"));
}

#[test]
fn frame_dimensions_must_be_positive_and_match() {
    let mut frame = Frame::with_points("f", vec![1u8, 2, 3, 4, 5, 6]);
    frame.width = 3;
    frame.height = 2;
    assert!(validate_frame_dimensions(&frame).is_ok());
    frame.height = 0;
    assert!(matches!(validate_frame_dimensions(&frame), Err(QuanergyError::StorageFormat(m)) if m == "frame dimensions must be > 0"));
    frame.height = usize::MAX;
    assert!(matches!(validate_frame_dimensions(&frame), Err(QuanergyError::StorageFormat(m)) if m == "frame dimensions overflow"));
}

#[test]
fn qpcd_container_round_trip() {
    let json = br#"{"format_version":1}"#;
    let points = [7u8; 40];
    let bytes = encode_qpcd(json, &points).unwrap();
    assert_eq!(&bytes[0..8], b"QPCDv1\0\0");
    assert_eq!(&bytes[8..12], &[0, 0, 0, 0]);
    assert_eq!(&bytes[12..16], &(json.len() as u32).to_le_bytes());
    let layout = qpcd_layout(&bytes).unwrap();
    assert_eq!(layout, QpcdLayout { header_start: 16, header_len: json.len() });
    assert_eq!(&bytes[16..16 + json.len()], &json[..]);
    let start = 16 + json.len();
    assert_eq!(qpcd_points_end(bytes.len(), start, 2).unwrap(), bytes.len());
    assert!(matches!(qpcd_points_end(bytes.len(), start, 3), Err(QuanergyError::Io(_))));
}

#[test]
fn qpcd_prefix_errors() {
    assert!(matches!(qpcd_layout(b"QPCD"), Err(QuanergyError::Io(_))));
    assert!(matches!(qpcd_layout(b"QPCDv1\0\0\0\0"), Err(QuanergyError::Io(_))));
    let mut b = b"QPCDv1\0\0".to_vec();
    b.extend_from_slice(&[1, 0, 0, 0, 4, 0, 0, 0]);
    assert!(matches!(qpcd_layout(&b), Err(QuanergyError::StorageFormat(m)) if m == "unsupported qpcd reserved header flags"));
    let mut b = b"QPCDv1\0\0".to_vec();
    b.extend_from_slice(&[0, 0, 0, 0, 0, 0, 0, 0]);
    assert!(matches!(qpcd_layout(&b), Err(QuanergyError::StorageFormat(m)) if m == "empty qpcd header"));
    let mut b = b"QPCDv1\0\0".to_vec();
    b.extend_from_slice(&[0, 0, 0, 0, 9, 0, 0, 0, b'{']);
    assert!(matches!(qpcd_layout(&b), Err(QuanergyError::Io(_))));
}

#[test]
fn qpcd_header_from_frame() {
    let mut frame = Frame::with_points("lidar", vec![1u8, 2, 3]);
    frame.stamp_micros = 9;
    frame.sequence = 4;
    let h = QpcdHeader::from_frame(&frame, "station".to_string());
    assert_eq!(h.format_version, 1);
    assert_eq!(h.point_stride, QPCD_POINT_STRIDE);
    assert_eq!(h.point_count, 3);
    assert_eq!(h.coord_frame, "station");
    assert_eq!(h.frame_id, "lidar");
    assert_eq!(h.width, 3);
    assert!(h.station_id.is_none());
    assert_eq!(h.checked_point_count().unwrap(), 3);
    let p = QpcdHeader::from_frame_with_provenance(
        &frame,
        "station".to_string(),
        Some("quanergy_sensor".to_string()),
        Some("station".to_string()),
        Some("st-1".to_string()),
        Some("x1".to_string()),
        Some("abc".to_string()),
    );
    assert_eq!(p.station_id.as_deref(), Some("st-1"));
    assert_eq!(p.point_count, 3);
    let mut bad = h.clone();
    bad.format_version = 2;
    assert!(matches!(bad.checked_point_count(), Err(QuanergyError::StorageFormat(m)) if m == "unsupported qpcd version 2"));
    let mut bad = h;
    bad.point_stride = 16;
    assert!(matches!(bad.checked_point_count(), Err(QuanergyError::StorageFormat(m)) if m == "unsupported qpcd point stride 16"));
}

#[test]
fn database_integers() {
    assert_eq!(to_i64(5).unwrap(), 5);
    assert!(matches!(to_i64(u64::MAX), Err(QuanergyError::StorageFormat(m)) if m == "18446744073709551615 does not fit in SQLite i64"));
    assert_eq!(from_i64(7), Some(7));
    assert_eq!(from_i64(-1), None);
    assert_eq!(from_i64(to_i64(123).unwrap()), Some(123));
}

#[test]
fn packet_type_masks() {
    assert_eq!(packet_type_mask(0), Some(1));
    assert_eq!(packet_type_mask(6), Some(64));
    assert_eq!(packet_type_mask(31), Some(1 << 31));
    assert_eq!(packet_type_mask(32), None);
}

#[test]
fn file_and_session_names() {
    assert_eq!(tmp_path("out/frame.qpcd"), "out/frame.qpcd.tmp");
    assert_eq!(database_path(None, "out"), "out/capture.sqlite");
    assert_eq!(database_path(None, "out/"), "out/capture.sqlite");
    assert_eq!(database_path(None, ""), "capture.sqlite");
    assert_eq!(database_path(Some("db.sqlite".to_string()), "out"), "db.sqlite");
    assert_eq!(session_id_or_default(Some("s1"), "fallback".to_string()), "s1");
    assert_eq!(session_id_or_default(Some(""), "fallback".to_string()), "fallback");
    assert_eq!(session_id_or_default(None, "fallback".to_string()), "fallback");
    assert_eq!(default_session_id("2024-01-02T03:04:05Z", 42), "session-2024-01-02T03-04-05Z-42");
}

#[test]
fn pcd_file_summary() {
    let frame = Frame::with_points("f", vec![0u8; 6]);
    let info = PcdFileInfo::for_frame(&frame, PcdEncoding::Binary, 1234);
    assert_eq!(info.point_count, 6);
    assert_eq!(info.width, 6);
    assert_eq!(info.height, 1);
    assert_eq!(info.encoding, PcdEncoding::Binary);
    assert_eq!(info.file_size_bytes, 1234);
    assert_eq!(ScanFrameId(3), ScanFrameId(3));
}

#[test]
fn frame_files_are_numbered_in_twelve_digits() {
    assert_eq!(frame_file_name(1), "frame_000000000001.qpcd");
    assert_eq!(frame_file_name(0), "frame_000000000000.qpcd");
    assert_eq!(frame_file_name(u64::MAX), "frame_18446744073709551615.qpcd");
}
