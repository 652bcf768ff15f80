use quanergy_client::cloud::Frame;
use quanergy_client::pipeline::PipelineCounters;
use quanergy_client::protocol::ReturnSelection;
use quanergy_client::station::config_hash;

#[test]
fn parsed_selection_codes() {
    assert_eq!(ReturnSelection::parse("ALL").unwrap().as_cpp_value(), -1);
    for (text, code) in [("0", 0i8), ("1", 1), ("+2", 2)] {
        assert_eq!(ReturnSelection::parse(text).unwrap().as_cpp_value(), code);
    }
}

#[test]
fn one_packet_accounting_on_counters() {
    let mut c = PipelineCounters::default();
    let parsed: quanergy_client::error::Result<u8> = Ok(1);
    c.on_packet(parsed, false).unwrap();
    c.on_frame_emitted();
    c.on_frame_emitted();
    assert_eq!((c.packets_seen, c.frames_emitted, c.bad_packets, c.dropped_packets), (1, 2, 0, 0));
    let failed: quanergy_client::error::Result<u8> =
        Err(quanergy_client::error::QuanergyError::Config("x".to_string()));
    assert!(c.on_packet(failed, false).unwrap().is_none());
    assert_eq!((c.packets_seen, c.frames_emitted, c.bad_packets, c.dropped_packets), (2, 2, 1, 0));
}

#[test]
fn config_hash_is_64_lower_hex_and_depends_on_text() {
    let a = config_hash("station_id = \"tamping-station-01\"");
    let b = config_hash("station_id = \"tamping-station-01\"");
    let c = config_hash("station_id = \"tamping-station-02\"");
    assert_eq!(a.len(), 64);
    assert!(a.chars().all(|ch| ch.is_ascii_digit() || ('a'..='f').contains(&ch)));
    assert_eq!(a, b);
    assert_ne!(a, c);
}

#[test]
fn mapped_frame_keeps_metadata_and_order() {
    let mut f = Frame::with_points("lidar", vec![1u32, 2, 3, 4]);
    f.width = 2;
    f.height = 2;
    f.sequence = 9;
    f.stamp_micros = 77;
    f.is_dense = false;
    let g = f.map_points(|p: &u32| *p * 10);
    assert_eq!(g.points, vec![10, 20, 30, 40]);
    assert_eq!((g.width, g.height, g.sequence, g.stamp_micros, g.is_dense), (2, 2, 9, 77, false));
    assert_eq!(g.frame_id, "lidar");
}
