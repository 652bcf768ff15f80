use quanergy_client::error::QuanergyError;
use quanergy_client::protocol::{
    device_info_url, PacketHeader, RawPacket, ReturnSelection, DEFAULT_TCP_PORT, DEVICE_INFO_PORT, HEADER_LEN,
    PACKET_TYPE_HVDIR_LIST, PACKET_TYPE_M1, PACKET_TYPE_M_SERIES, PACKET_TYPE_M_SERIES_REDUCED, SIGNATURE,
};

fn header(size: u32, packet_type: u8) -> PacketHeader {
    PacketHeader {
        signature: SIGNATURE,
        size,
        seconds: 1,
        nanoseconds: 2_000,
        version_major: 0,
        version_minor: 1,
        version_patch: 0,
        packet_type,
    }
}

#[test]
fn parses_big_endian_header() {
    let header = header(HEADER_LEN as u32, PACKET_TYPE_HVDIR_LIST);
    let mut bytes = Vec::new();
    header.write_to(&mut bytes).unwrap();

    assert_eq!(PacketHeader::parse(&bytes).unwrap(), header);
}

#[test]
fn rejects_invalid_signature() {
    let mut bytes = vec![0; HEADER_LEN];
    bytes[3] = 1;
    bytes[7] = HEADER_LEN as u8;

    assert!(matches!(PacketHeader::parse(&bytes), Err(QuanergyError::InvalidSignature(_))));
}

#[test]
fn header_bytes_are_big_endian() {
    let mut bytes = Vec::new();
    header(0x0102_0304, 6).write_to(&mut bytes).unwrap();
    assert_eq!(&bytes[0..4], &[0x75, 0xbd, 0x7e, 0x97]);
    assert_eq!(&bytes[4..8], &[1, 2, 3, 4]);
    assert_eq!(&bytes[8..12], &[0, 0, 0, 1]);
    assert_eq!(&bytes[12..16], &[0, 0, 0x07, 0xd0]);
    assert_eq!(&bytes[16..20], &[0, 1, 0, 6]);
}

#[test]
fn header_checks_size_and_version() {
    let mut bytes = Vec::new();
    header(40, PACKET_TYPE_M_SERIES).write_to(&mut bytes).unwrap();
    assert!(matches!(
        PacketHeader::parse(&bytes),
        Err(QuanergyError::PacketSizeMismatch { expected: 40, actual: 20 })
    ));
    assert!(matches!(
        PacketHeader::parse(&bytes[..10]),
        Err(QuanergyError::PacketTooShort { actual: 10, minimum: 20 })
    ));
    let h = header(20, PACKET_TYPE_M_SERIES);
    assert!(h.require_version(0, 1, 0).is_ok());
    assert!(matches!(
        h.require_version(0, 2, 0),
        Err(QuanergyError::UnsupportedPacketVersion { packet_type: 0, major: 0, minor: 1, patch: 0 })
    ));
    assert_eq!(h.timestamp_micros(), 1_000_002);
}

#[test]
fn read_from_needs_a_whole_header() {
    assert!(matches!(PacketHeader::read_from(&[0u8; 5]), Err(QuanergyError::Io(_))));
    let mut bytes = Vec::new();
    header(99, 1).write_to(&mut bytes).unwrap();
    let h = PacketHeader::read_from(&bytes).unwrap();
    assert_eq!(h.size, 99);
}

#[test]
fn stream_packets_are_assembled_from_header_and_body() {
    let mut head = Vec::new();
    header(24, PACKET_TYPE_HVDIR_LIST).write_to(&mut head).unwrap();
    let h = PacketHeader::read_from(&head).unwrap();
    assert_eq!(RawPacket::body_len(h).unwrap(), 4);
    let p = RawPacket::assemble(&head, &[9, 8, 7, 6], 55).unwrap();
    assert_eq!(p.bytes.len(), 24);
    assert_eq!(&p.bytes[20..], &[9, 8, 7, 6]);
    assert_eq!(p.arrival_delta_ns, 55);
    assert_eq!(p.header, h);
    assert!(matches!(
        RawPacket::body_len(header(12, 0)),
        Err(QuanergyError::PacketSizeMismatch { expected: 20, actual: 12 })
    ));
}

#[test]
fn return_selection_parsing() {
    assert_eq!(ReturnSelection::parse("all").unwrap(), ReturnSelection::All);
    assert_eq!(ReturnSelection::parse("ALL").unwrap(), ReturnSelection::All);
    assert_eq!(ReturnSelection::parse("2").unwrap(), ReturnSelection::Single(2));
    assert!(matches!(ReturnSelection::parse("3"), Err(QuanergyError::InvalidReturnSelection(s)) if s == "3"));
    assert!(matches!(ReturnSelection::parse("x"), Err(QuanergyError::InvalidReturnSelection(_))));
    assert_eq!(ReturnSelection::All.as_cpp_value(), -1);
    assert_eq!(ReturnSelection::Single(1).as_cpp_value(), 1);
    assert_eq!(ReturnSelection::default(), ReturnSelection::Single(0));
}

#[test]
fn device_info_address() {
    assert_eq!(device_info_url("10.0.0.3"), "http://10.0.0.3:7780/PSIA/System/deviceInfo");
}

#[test]
fn protocol_constants_match_the_sensor() {
    assert_eq!(HEADER_LEN, 20);
    assert_eq!(SIGNATURE, 0x75bd7e97);
    assert_eq!(DEFAULT_TCP_PORT, 4141);
    assert_eq!(DEVICE_INFO_PORT, 7780);
    assert_eq!(
        [PACKET_TYPE_M_SERIES, PACKET_TYPE_HVDIR_LIST, PACKET_TYPE_M_SERIES_REDUCED, PACKET_TYPE_M1],
        [0x00, 0x01, 0x04, 0x06]
    );
}
