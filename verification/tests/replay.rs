use quanergy_client::error::QuanergyError;
use quanergy_client::protocol::{PacketHeader, HEADER_LEN, PACKET_TYPE_HVDIR_LIST, SIGNATURE};
use quanergy_client::replay::{current_time_string, sidecar_path, QrawReader, QrawWriter};

fn header_packet() -> Vec<u8> {
    let mut packet = Vec::new();
    PacketHeader {
        signature: SIGNATURE,
        size: HEADER_LEN as u32,
        seconds: 1,
        nanoseconds: 2,
        version_major: 0,
        version_minor: 1,
        version_patch: 0,
        packet_type: PACKET_TYPE_HVDIR_LIST,
    }
    .write_to(&mut packet)
    .unwrap();
    packet
}

fn round_trip() {
    let packet = header_packet();

    let buffer = {
        let mut writer = QrawWriter::new(Vec::new()).unwrap();
        writer.write_packet(123, &packet).unwrap();
        writer.into_inner()
    };

    let mut reader = QrawReader::new(&buffer[..]).unwrap();
    let raw = reader.next_packet().unwrap().unwrap();
    assert_eq!(raw.arrival_delta_ns, 123);
    assert_eq!(raw.bytes, packet);
    assert!(reader.next_packet().unwrap().is_none());
}

#[test]
fn tests_qraw_round_trip_preserves_delta_and_packet() {
    round_trip();
}

#[test]
fn replay_qraw_round_trip_preserves_delta_and_packet() {
    round_trip();
}

#[test]
fn qraw_layout_is_magic_then_little_endian_records() {
    let packet = header_packet();
    let mut writer = QrawWriter::new(Vec::new()).unwrap();
    writer.write_packet(0x0102, &packet).unwrap();
    let bytes = writer.into_inner();
    assert_eq!(&bytes[0..8], b"QRAWv1\0\0");
    assert_eq!(&bytes[8..16], &[2, 1, 0, 0, 0, 0, 0, 0]);
    assert_eq!(&bytes[16..20], &[20, 0, 0, 0]);
    assert_eq!(&bytes[20..], &packet[..]);
}

#[test]
fn qraw_flush_hands_out_pending_bytes_once() {
    let packet = header_packet();
    let mut writer = QrawWriter::new(vec![7]).unwrap();
    let first = writer.flush();
    assert_eq!(first.len(), 9);
    assert_eq!(first[0], 7);
    writer.write_packet(5, &packet).unwrap();
    let second = writer.flush();
    assert_eq!(second.len(), 12 + packet.len());
    assert!(writer.flush().is_empty());
}

#[test]
fn qraw_reader_rejects_bad_input() {
    assert!(matches!(QrawReader::new(b"QRAW"), Err(QuanergyError::Io(_))));
    assert!(matches!(QrawReader::new(b"QPCDv1\0\0"), Err(QuanergyError::ReplayFormat(m)) if m == "invalid qraw magic"));
    let mut bytes = b"QRAWv1\0\0".to_vec();
    bytes.extend_from_slice(&[0, 0, 0, 0, 0, 0, 0, 0, 50, 0, 0, 0, 1, 2]);
    let mut reader = QrawReader::new(&bytes).unwrap();
    assert!(matches!(reader.next_packet(), Err(QuanergyError::Io(_))));
    assert!(reader.next_packet().unwrap().is_none());
}

#[test]
fn qraw_reader_reports_bad_packets() {
    let mut writer = QrawWriter::new(Vec::new()).unwrap();
    writer.write_packet(1, &[0u8; 20]).unwrap();
    let bytes = writer.into_inner();
    let mut reader = QrawReader::new(&bytes).unwrap();
    assert!(matches!(reader.next_packet(), Err(QuanergyError::InvalidSignature(0))));
    assert!(reader.next_packet().unwrap().is_none());
}

#[test]
fn sidecar_and_time_text() {
    assert_eq!(sidecar_path("run/a.qraw"), "run/a.qraw.toml");
    let now = current_time_string();
    assert!(now.len() >= 20);
    assert!(now.contains('T'));
}

#[test]
fn current_time_has_the_rfc3339_shape() {
    let t: Vec<char> = quanergy_client::replay::current_time_string().chars().collect();
    assert!(t.len() >= 20);
    for (i, c) in t.iter().take(19).enumerate() {
        match i {
            4 | 7 => assert_eq!(*c, '-'),
            10 => assert_eq!(*c, 'T'),
            13 | 16 => assert_eq!(*c, ':'),
            _ => assert!(c.is_ascii_digit()),
        }
    }
}

#[test]
fn reader_gives_each_record_once_then_nothing() {
    let packet = header_packet();
    let mut writer = QrawWriter::new(Vec::new()).unwrap();
    for d in [5u64, 7, 11] {
        writer.write_packet(d, &packet).unwrap();
    }
    let bytes = writer.into_inner();
    let mut reader = QrawReader::new(&bytes[..]).unwrap();
    for d in [5u64, 7, 11] {
        let raw = reader.next_packet().unwrap().unwrap();
        assert_eq!(raw.arrival_delta_ns, d);
        assert_eq!(raw.bytes, packet);
    }
    for _ in 0..3 {
        assert!(reader.next_packet().unwrap().is_none());
    }
}

#[test]
fn reader_errors_carry_their_messages() {
    assert!(matches!(QrawReader::new(b"QRAW"), Err(QuanergyError::Io(m)) if m == "failed to fill whole buffer"));
    assert!(matches!(QrawReader::new(b"QRAWv2\0\0"), Err(QuanergyError::ReplayFormat(m)) if m == "invalid qraw magic"));
    let mut bytes = b"QRAWv1\0\0".to_vec();
    bytes.extend_from_slice(&[0, 0, 0, 0, 0, 0, 0, 0, 20, 0, 0, 0, 1, 2]);
    let mut reader = QrawReader::new(&bytes[..]).unwrap();
    assert!(matches!(reader.next_packet(), Err(QuanergyError::Io(m)) if m == "failed to fill whole buffer"));
}
