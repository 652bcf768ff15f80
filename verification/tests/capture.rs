use quanergy_client::capture::{
    check_transform_options, offers_without_waiting, raw_queue_result, require_capture_host, storage_queue_result,
    OverflowPolicy, QueueFailure, QueueOutcome,
};
use quanergy_client::error::QuanergyError;

#[test]
fn raw_queue_under_each_policy() {
    let mut dropped = 0u64;
    assert!(raw_queue_result(OverflowPolicy::DropNewest, QueueOutcome::Full, &mut dropped).is_ok());
    assert!(raw_queue_result(OverflowPolicy::DropNewest, QueueOutcome::Disconnected, &mut dropped).is_ok());
    assert!(raw_queue_result(OverflowPolicy::DropNewest, QueueOutcome::Sent, &mut dropped).is_ok());
    assert_eq!(dropped, 2);
    assert_eq!(
        raw_queue_result(OverflowPolicy::Fail, QueueOutcome::Disconnected, &mut dropped),
        Err(QueueFailure::RawRecorderDisconnected)
    );
    assert!(raw_queue_result(OverflowPolicy::Block, QueueOutcome::Sent, &mut dropped).is_ok());
    assert_eq!(dropped, 2);
    assert!(offers_without_waiting(OverflowPolicy::DropNewest));
    assert!(!offers_without_waiting(OverflowPolicy::Block));
}

#[test]
fn storage_queue_under_each_policy() {
    let mut dropped = 0u64;
    assert!(storage_queue_result(OverflowPolicy::DropNewest, QueueOutcome::Full, &mut dropped).is_ok());
    assert_eq!(dropped, 1);
    assert_eq!(
        storage_queue_result(OverflowPolicy::DropNewest, QueueOutcome::Disconnected, &mut dropped),
        Err(QueueFailure::StorageDisconnected)
    );
    assert_eq!(
        storage_queue_result(OverflowPolicy::Fail, QueueOutcome::Disconnected, &mut dropped),
        Err(QueueFailure::StorageDisconnected)
    );
    assert!(storage_queue_result(OverflowPolicy::Block, QueueOutcome::Sent, &mut dropped).is_ok());
    assert_eq!(dropped, 1);
}

#[test]
fn legacy_options_clash_with_station_file() {
    let none = vec![false; 6];
    assert!(check_transform_options(&none, true).is_ok());
    let some = vec![true, false, false, true, false, true];
    assert!(check_transform_options(&some, false).is_ok());
    match check_transform_options(&some, true) {
        Err(QuanergyError::Config(m)) => assert_eq!(
            m,
            "--station-config is mutually exclusive with: --x-m, --yaw-deg, --roll-deg. Remove these flags and define the transform in station.toml instead."
        ),
        other => panic!("unexpected {other:?}"),
    }
}

#[test]
fn capture_needs_a_host() {
    assert_eq!(require_capture_host(&"10.0.0.2".to_string()).unwrap(), "10.0.0.2");
    match require_capture_host(&String::new()) {
        Err(QuanergyError::Config(m)) => {
            assert!(m.starts_with("no host provided"));
            assert!(m.contains("capture-store live --host <SENSOR_IP>"));
        },
        other => panic!("unexpected {other:?}"),
    }
}
