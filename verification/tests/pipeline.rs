use quanergy_client::cloud::Frame;
use quanergy_client::error::QuanergyError;
use quanergy_client::pipeline::{
    check_firing_position, m1_point_slots, m_series_point_slots, organizes_cloud,
    all_returns, decode_hvdir_list, decode_m1, decode_m_series, decode_m_series_reduced, decode_packet,
    ensure_packet_len, m_series_stamp_micros, organize_cloud, sweep_direction, validate_status, CloudAssembler,
    DecodedPacket, PacketClock, PipelineCounters,
};
use quanergy_client::protocol::{
    PacketHeader, ReturnSelection, HEADER_LEN, M_SERIES_FIRINGS_PER_PACKET, M_SERIES_NUM_LASERS,
    M_SERIES_NUM_RETURNS, PACKET_TYPE_HVDIR_LIST, PACKET_TYPE_M1, PACKET_TYPE_M_SERIES,
    PACKET_TYPE_M_SERIES_REDUCED, SIGNATURE,
};

fn be16(out: &mut Vec<u8>, v: u16) {
    out.extend_from_slice(&v.to_be_bytes());
}

fn be32(out: &mut Vec<u8>, v: u32) {
    out.extend_from_slice(&v.to_be_bytes());
}

fn packet_with_header(packet_type: u8, body: Vec<u8>) -> Vec<u8> {
    let mut packet = Vec::new();
    PacketHeader {
        signature: SIGNATURE,
        size: (HEADER_LEN + body.len()) as u32,
        seconds: 10,
        nanoseconds: 20_000,
        version_major: 0,
        version_minor: 1,
        version_patch: 0,
        packet_type,
    }
    .write_to(&mut packet)
    .unwrap();
    packet.extend(body);
    packet
}

fn packet_00_with_positions(start_position: u16) -> Vec<u8> {
    let mut body = Vec::new();
    for firing in 0..M_SERIES_FIRINGS_PER_PACKET {
        be16(&mut body, start_position + firing as u16);
        be16(&mut body, 0);
        for return_index in 0..M_SERIES_NUM_RETURNS {
            for laser in 0..M_SERIES_NUM_LASERS {
                let distance = if return_index == 0 { 200_000 + firing as u32 * 100 + laser as u32 } else { 0 };
                be32(&mut body, distance);
            }
        }
        for return_index in 0..M_SERIES_NUM_RETURNS {
            for laser in 0..M_SERIES_NUM_LASERS {
                body.push(if return_index == 0 { 10 + laser as u8 } else { 0 });
            }
        }
        body.extend([0; M_SERIES_NUM_LASERS]);
    }
    be32(&mut body, 1);
    be32(&mut body, 2_000);
    be16(&mut body, 5);
    be16(&mut body, 0);
    packet_with_header(PACKET_TYPE_M_SERIES, body)
}

fn packet_04_with_positions(start_position: u16) -> Vec<u8> {
    let mut body = Vec::new();
    be16(&mut body, 0);
    body.push(0);
    body.push(0);
    for firing in 0..M_SERIES_FIRINGS_PER_PACKET {
        be16(&mut body, start_position + firing as u16);
        be16(&mut body, 0);
        for laser in 0..M_SERIES_NUM_LASERS {
            be32(&mut body, 200_000 + firing as u32 * 100 + laser as u32);
        }
        for laser in 0..M_SERIES_NUM_LASERS {
            body.push(20 + laser as u8);
        }
    }
    packet_with_header(PACKET_TYPE_M_SERIES_REDUCED, body)
}

fn packet_06_with_positions(start_position: u16) -> Vec<u8> {
    let mut body = Vec::new();
    be16(&mut body, 0);
    body.push(0);
    body.push(0);
    for firing in 0..M_SERIES_FIRINGS_PER_PACKET {
        be16(&mut body, start_position + firing as u16);
        be16(&mut body, 0);
        be32(&mut body, 200_000 + firing as u32 * 100);
        body.push(30);
        body.extend([0; 3]);
    }
    packet_with_header(PACKET_TYPE_M1, body)
}

fn lenient_drop() {
    let mut counters = PipelineCounters::default();
    let parsed = decode_packet(&[0; HEADER_LEN], ReturnSelection::default(), false);
    let out = counters.on_packet(parsed, false).unwrap();
    assert!(out.is_none());
    assert_eq!(counters.bad_packets, 1);
    assert_eq!(counters.packets_seen, 1);
}

fn strict_failure() {
    let mut counters = PipelineCounters::default();
    let parsed = decode_packet(&[0; HEADER_LEN], ReturnSelection::default(), false);
    assert!(counters.on_packet(parsed, true).is_err());
    assert_eq!(counters.bad_packets, 0);
}

#[test]
fn pipeline_invalid_packet_is_dropped_when_lenient() {
    lenient_drop();
}

#[test]
fn tests_invalid_packet_is_dropped_when_lenient() {
    lenient_drop();
}

#[test]
fn pipeline_invalid_packet_fails_when_strict() {
    strict_failure();
}

#[test]
fn tests_invalid_packet_fails_when_strict() {
    strict_failure();
}

#[test]
fn m_series_packet_decodes_every_firing() {
    let packet = packet_00_with_positions(5150);
    assert_eq!(packet.len(), 6632);
    let header = PacketHeader::parse(&packet).unwrap();
    let m = decode_m_series(&packet, header).unwrap();
    assert_eq!(m.firings.len(), M_SERIES_FIRINGS_PER_PACKET);
    assert_eq!(m.seconds, 1);
    assert_eq!(m.nanoseconds, 2_000);
    assert_eq!(m.api_version, 5);
    for (i, f) in m.firings.iter().enumerate() {
        assert_eq!(f.position, 5150 + i as u16);
        for laser in 0..M_SERIES_NUM_LASERS {
            assert_eq!(f.distance(0, laser), 200_000 + i as u32 * 100 + laser as u32);
            assert_eq!(f.intensity(0, laser), 10 + laser as u8);
            assert_eq!(f.distance(1, laser), 0);
        }
    }
    assert_eq!(m_series_stamp_micros(m.seconds, m.nanoseconds, m.api_version), 1_000_002);
    assert_eq!(m_series_stamp_micros(1, 2_000, 3), 1_000_020);
    assert_eq!(m_series_stamp_micros(1, 2_000, 0), 1_000_002);
}

#[test]
fn reduced_and_m1_packets_decode() {
    let packet = packet_04_with_positions(10);
    let header = PacketHeader::parse(&packet).unwrap();
    let r = decode_m_series_reduced(&packet, header, ReturnSelection::default(), false).unwrap();
    assert_eq!(r.returns_per_firing, 1);
    assert_eq!(r.firings.len(), 50);
    assert_eq!(r.firings[3].position, 13);
    assert_eq!(r.firings[3].distance(0, 7), 200_307);
    assert_eq!(r.firings[3].intensity(0, 7), 27);

    let packet = packet_06_with_positions(7);
    let header = PacketHeader::parse(&packet).unwrap();
    let m = decode_m1(&packet, header, ReturnSelection::default(), false).unwrap();
    assert_eq!(m.returns_per_firing, 1);
    assert_eq!(m.firings.len(), 50);
    assert_eq!(m.firings[49].position, 56);
    assert_eq!(m.firings[49].distance(0, 0), 204_900);
    assert_eq!(m.firings[49].intensity(0, 0), 30);
}

#[test]
fn reduced_packet_refuses_other_return() {
    let mut packet = packet_04_with_positions(10);
    packet[22] = 2;
    let header = PacketHeader::parse(&packet).unwrap();
    assert!(matches!(
        decode_m_series_reduced(&packet, header, ReturnSelection::Single(1), true),
        Err(QuanergyError::ReturnIdMismatch { requested: 1, actual: 2 })
    ));
    assert!(decode_m_series_reduced(&packet, header, ReturnSelection::Single(1), false).is_ok());
    packet[21] = 1;
    let header = PacketHeader::parse(&packet).unwrap();
    assert!(matches!(
        decode_m_series_reduced(&packet, header, ReturnSelection::All, false),
        Err(QuanergyError::InvalidSensorStatus(1))
    ));
}

#[test]
fn hvdir_list_decodes_points() {
    let mut body = Vec::new();
    be32(&mut body, 7);
    be32(&mut body, 0);
    be32(&mut body, 1);
    be32(&mut body, 0);
    be16(&mut body, (-3i16) as u16);
    be16(&mut body, 4);
    be32(&mut body, 2_000_000);
    be16(&mut body, 42);
    body.push(0);
    body.push(0);
    let packet = packet_with_header(PACKET_TYPE_HVDIR_LIST, body);
    let header = PacketHeader::parse(&packet).unwrap();
    let h = decode_hvdir_list(&packet, header).unwrap();
    assert_eq!(h.sequence, 7);
    assert_eq!(h.stamp_micros, 10_000_020);
    assert_eq!(h.points.len(), 1);
    assert_eq!(h.points[0].horizontal, -3);
    assert_eq!(h.points[0].vertical, 4);
    assert_eq!(h.points[0].range, 2_000_000);
    assert_eq!(h.points[0].intensity, 42);

    match decode_packet(&packet, ReturnSelection::default(), false).unwrap() {
        (hd, DecodedPacket::HvdirList(p)) => {
            assert_eq!(hd, header);
            assert_eq!(p.points.len(), 1);
        },
        _ => panic!("expected an HVDIR list"),
    }
}

#[test]
fn packet_dispatch_by_type() {
    let packet = packet_with_header(9, Vec::new());
    assert!(matches!(
        decode_packet(&packet, ReturnSelection::default(), false),
        Err(QuanergyError::UnsupportedPacketType(9))
    ));
    let packet = packet_00_with_positions(0);
    assert!(matches!(decode_packet(&packet, ReturnSelection::All, false), Ok((_, DecodedPacket::MSeries(_)))));
    let packet = packet_04_with_positions(0);
    assert!(matches!(
        decode_packet(&packet, ReturnSelection::All, false),
        Ok((_, DecodedPacket::MSeriesReduced(_)))
    ));
    let packet = packet_06_with_positions(0);
    assert!(matches!(decode_packet(&packet, ReturnSelection::All, false), Ok((_, DecodedPacket::M1(_)))));
}

#[test]
fn status_and_length_checks() {
    assert!(validate_status(0b100).is_ok());
    assert!(matches!(validate_status(0b10), Err(QuanergyError::InvalidSensorStatus(2))));
    assert!(ensure_packet_len(&[1, 2, 3], 3).is_ok());
    assert!(matches!(
        ensure_packet_len(&[1, 2, 3], 4),
        Err(QuanergyError::PacketSizeMismatch { expected: 4, actual: 3 })
    ));
}

#[test]
fn all_returns_and_direction() {
    assert_eq!(all_returns(5, 6, 7), vec![0, 1, 2]);
    assert_eq!(all_returns(7, 6, 7), vec![1, 2]);
    assert_eq!(all_returns(0, 0, 0), Vec::<usize>::new());
    assert_eq!(all_returns(3, 0, 0), vec![0]);
    assert_eq!(sweep_direction(1, 2, 3, -1), 1);
    assert_eq!(sweep_direction(3, 2, 1, 1), -1);
    assert_eq!(sweep_direction(3, 3, 1, -1), -1);
}

#[test]
fn organized_cloud_is_laid_out_ring_by_ring() {
    // 3 firings of 2 rings, stored firing by firing.
    let frame = Frame::with_points("f", vec![10, 11, 20, 21, 30, 31]);
    let f = organize_cloud(frame, 2).unwrap();
    assert_eq!(f.height, 2);
    assert_eq!(f.width, 3);
    assert_eq!(f.points, vec![11, 21, 31, 10, 20, 30]);
    let frame = Frame::with_points("f", vec![1, 2, 3]);
    assert!(matches!(organize_cloud(frame, 2), Err(QuanergyError::Config(_))));
    let frame = Frame::with_points("f", vec![1, 2, 3]);
    let f = organize_cloud(frame, 1).unwrap();
    assert_eq!(f.points, vec![1, 2, 3]);
    assert_eq!(f.width, 3);
}

#[test]
fn packet_clock_interpolates_frame_time() {
    let mut clock = PacketClock::new();
    clock.register(1_000);
    assert_eq!(clock.previous_packet_stamp_micros, 1_000);
    clock.register(1_500);
    assert_eq!(clock.previous_packet_stamp_micros, 1_000);
    assert_eq!(clock.frame_stamp(25), 1_250);
}

#[test]
fn assembler_hands_out_clouds_above_the_minimum() {
    let mut a: CloudAssembler<u32> = CloudAssembler::new("quanergy", 2, 5);
    a.register_packet(1_000, 1, 2, 3);
    assert_eq!(a.direction(), 1);
    a.add_firing(vec![1, 2], false);
    a.add_firing(Vec::new(), true);
    assert!(a.stamp_ok());
    // Two points do not exceed the minimum of two: discarded.
    assert!(a.close_cloud().is_none());
    a.add_firing(vec![1, 2], true);
    a.add_firing(vec![3, 4], false);
    a.add_firing(vec![5, 6], false);
    assert!(a.cloud_full());
    a.add_firing(vec![7], false);
    assert_eq!(a.firing_count(), 4);
    assert_eq!(a.clouds_emitted(), 0);
    let f = a.close_cloud().unwrap();
    assert_eq!(a.clouds_emitted(), 1);
    assert_eq!(f.points, vec![1, 2, 3, 4, 5, 6]);
    assert!(!f.is_dense);
    assert_eq!(f.sequence, 0);
    assert_eq!(f.frame_id, "quanergy");
    assert_eq!(f.width, 6);
    assert_eq!(f.height, 1);
    assert_eq!(f.stamp_micros, 1_000);
    a.register_packet(3_000, 9, 5, 1);
    assert_eq!(a.direction(), -1);
    for k in 0..25u32 {
        a.add_firing(vec![k], false);
    }
    let f = a.close_cloud().unwrap();
    assert_eq!(f.sequence, 1);
    assert_eq!(f.points.len(), 5);
    assert_eq!(f.stamp_micros, 1_000 + 2_000 * 5 / 50);
}

#[test]
fn counters_count_frames() {
    let mut c = PipelineCounters::default();
    c.on_frame_emitted();
    c.on_frame_emitted();
    assert_eq!(c.frames_emitted, 2);
    let out = c.on_packet(Ok::<u8, QuanergyError>(3), true).unwrap();
    assert_eq!(out, Some(3));
    assert_eq!(c.packets_seen, 1);
    assert_eq!(c.dropped_packets, 0);
}

#[test]
fn point_slots_follow_the_return_selection() {
    let packet = packet_00_with_positions(0);
    let header = PacketHeader::parse(&packet).unwrap();
    let m = decode_m_series(&packet, header).unwrap();
    let f = &m.firings[0];
    assert_eq!(m_series_point_slots(f, ReturnSelection::Single(0)), vec![0, 1, 2, 3, 4, 5, 6, 7]);
    assert_eq!(m_series_point_slots(f, ReturnSelection::Single(2)), vec![16, 17, 18, 19, 20, 21, 22, 23]);
    // Only the first return carries a distance, and it differs from the (empty) third.
    assert_eq!(m_series_point_slots(f, ReturnSelection::All), vec![0, 1, 2, 3, 4, 5, 6, 7]);
    assert_eq!(m1_point_slots(f, ReturnSelection::All, 1), vec![0]);
    assert_eq!(m1_point_slots(f, ReturnSelection::Single(2), 3), vec![16]);
    assert_eq!(m1_point_slots(f, ReturnSelection::All, 3), vec![0]);
    assert_eq!(check_firing_position(10_400).unwrap(), 10_400);
    assert!(matches!(check_firing_position(10_401), Err(QuanergyError::Config(m)) if m == "invalid firing position 10401"));
    assert!(organizes_cloud(PACKET_TYPE_M_SERIES, ReturnSelection::Single(0)));
    assert!(!organizes_cloud(PACKET_TYPE_M_SERIES, ReturnSelection::All));
    assert!(organizes_cloud(PACKET_TYPE_M_SERIES_REDUCED, ReturnSelection::All));
    assert!(!organizes_cloud(PACKET_TYPE_M1, ReturnSelection::Single(0)));
}

#[test]
fn organizing_keeps_every_point_once() {
    let points: Vec<u32> = (0..24).collect();
    let frame = Frame::with_points("f", points.clone());
    let f = organize_cloud(frame, 8).unwrap();
    let mut sorted = f.points.clone();
    sorted.sort();
    assert_eq!(sorted, points);
    assert_eq!(f.width, 3);
}

#[test]
fn frame_time_stays_between_packets() {
    let mut clock = PacketClock::new();
    clock.register(2_000);
    clock.register(2_600);
    assert_eq!(clock.frame_stamp(0), 2_000);
    assert_eq!(clock.frame_stamp(50), 2_600);
    let t = clock.frame_stamp(37);
    assert!(2_000 <= t && t <= 2_600);
}

#[test]
fn hvdir_list_size_mismatch_names_both_sizes() {
    let mut body = Vec::new();
    be32(&mut body, 1);
    be32(&mut body, 0);
    be32(&mut body, 2);
    be32(&mut body, 0);
    body.extend_from_slice(&[0u8; 12]);
    let packet = packet_with_header(PACKET_TYPE_HVDIR_LIST, body);
    let header = PacketHeader::parse(&packet).unwrap();
    assert!(matches!(
        decode_hvdir_list(&packet, header),
        Err(QuanergyError::PacketSizeMismatch { expected: 60, actual: 48 })
    ));
}
