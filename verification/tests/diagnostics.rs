use quanergy_client::diagnostics::{
    points_to_show, ConnectTestStats, FrameStep, ReadFailure, ReadStep, GIVE_UP_AFTER_ERRORS,
};

#[test]
fn silent_sensor_is_given_up_after_the_limit() {
    let mut stats = ConnectTestStats::new();
    for _ in 0..GIVE_UP_AFTER_ERRORS {
        assert_eq!(stats.on_read_error(), (ReadFailure::Warmup, ReadStep::Retry));
    }
    assert_eq!(stats.consecutive_errors, 10);
    assert_eq!(stats.on_read_error(), (ReadFailure::Warmup, ReadStep::GiveUp));
    assert_eq!(stats.warmup_errors, 11);
    assert_eq!(stats.packets_received, 11);
    assert_eq!(stats.bad_packets, 0);
    assert_eq!(stats.good_packets(), 11);
}

#[test]
fn read_errors_after_a_packet_count_as_bad() {
    let mut stats = ConnectTestStats::default();
    stats.on_read_error();
    stats.on_packet();
    assert_eq!(stats.consecutive_errors, 0);
    assert_eq!(stats.on_read_error(), (ReadFailure::BadPacket, ReadStep::Retry));
    stats.on_parse_error();
    assert_eq!(stats.bad_packets, 2);
    assert_eq!(stats.warmup_errors, 1);
    assert_eq!(stats.packets_received, 3);
    assert_eq!(stats.good_packets(), 1);
}

#[test]
fn frames_finish_at_the_wanted_count() {
    let mut stats = ConnectTestStats::new();
    assert_eq!(stats.on_frame(0, 2), FrameStep::Skip);
    assert_eq!(stats.frames_emitted, 0);
    assert_eq!(stats.on_frame(5, 2), FrameStep::Show);
    assert_eq!(stats.on_frame(5, 2), FrameStep::ShowAndFinish);
    assert_eq!(stats.frames_emitted, 2);
}

#[test]
fn good_packets_never_go_below_zero() {
    let mut stats = ConnectTestStats::new();
    stats.on_parse_error();
    assert_eq!(stats.good_packets(), 0);
}

#[test]
fn listed_points_are_capped() {
    assert_eq!(points_to_show(25, 10), (10, 15));
    assert_eq!(points_to_show(4, 10), (4, 0));
    assert_eq!(points_to_show(0, 10), (0, 0));
}
