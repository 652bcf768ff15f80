//! Decisions of a capture run: what a full or closed queue means under
//! each overflow policy, which legacy transform options clash with a
//! station file, and what a capture needs before it starts.

use vstd::prelude::*;

use crate::error::{QuanergyError, Result};

verus! {

/// What a capture does when a queue towards a worker is full.
#[derive(Debug, Clone, Copy, PartialEq, Eq, Structural)]
pub enum OverflowPolicy {
    /// Wait for room, and fail when the worker is gone.
    Fail,
    /// Drop the newest item and count it.
    DropNewest,
    /// Wait for room (not advised for live capture).
    Block,
}

/// How handing an item to a queue went.
#[derive(Debug, Clone, Copy, PartialEq, Eq, Structural)]
pub enum QueueOutcome {
    Sent,
    Full,
    Disconnected,
}

/// The worker a capture lost.
#[derive(Debug, Clone, Copy, PartialEq, Eq, Structural)]
pub enum QueueFailure {
    RawRecorderDisconnected,
    StorageDisconnected,
}

/// Whether items are offered without waiting under `policy`.
pub fn offers_without_waiting(policy: OverflowPolicy) -> (r: bool)
    ensures
        r == (policy == OverflowPolicy::DropNewest),
{
    match policy {
        OverflowPolicy::DropNewest => true,
        _ => false,
    }
}

/// What handing a raw packet to the recorder came to: when offered
/// without waiting any refusal drops the packet; when waiting, a lost
/// recorder ends the capture.
pub fn raw_queue_result(policy: OverflowPolicy, outcome: QueueOutcome, dropped: &mut u64) -> (r: core::result::Result<(), QueueFailure>)
    requires
        *old(dropped) < u64::MAX,
    ensures
        policy == OverflowPolicy::DropNewest ==> r is Ok && *final(dropped) == if outcome == QueueOutcome::Sent {
            *old(dropped) as int
        } else {
            *old(dropped) + 1
        },
        policy != OverflowPolicy::DropNewest ==> *final(dropped) == *old(dropped) && if outcome == QueueOutcome::Sent {
            r is Ok
        } else {
            r == Err::<(), QueueFailure>(QueueFailure::RawRecorderDisconnected)
        },
{
    match policy {
        OverflowPolicy::DropNewest => {
            match outcome {
                QueueOutcome::Sent => {},
                _ => {
                    *dropped = *dropped + 1;
                },
            }
            Ok(())
        },
        _ => match outcome {
            QueueOutcome::Sent => Ok(()),
            _ => Err(QueueFailure::RawRecorderDisconnected),
        },
    }
}

/// What handing a frame to the storage worker came to: when offered
/// without waiting a full queue drops the frame; a lost worker always ends
/// the capture.
pub fn storage_queue_result(policy: OverflowPolicy, outcome: QueueOutcome, dropped: &mut u64) -> (r: core::result::Result<(), QueueFailure>)
    requires
        *old(dropped) < u64::MAX,
    ensures
        outcome == QueueOutcome::Sent ==> r is Ok && *final(dropped) == *old(dropped),
        outcome == QueueOutcome::Disconnected ==> r == Err::<(), QueueFailure>(QueueFailure::StorageDisconnected)
            && *final(dropped) == *old(dropped),
        outcome == QueueOutcome::Full ==> if policy == OverflowPolicy::DropNewest {
            r is Ok && *final(dropped) == *old(dropped) + 1
        } else {
            r == Err::<(), QueueFailure>(QueueFailure::StorageDisconnected) && *final(dropped) == *old(dropped)
        },
{
    match outcome {
        QueueOutcome::Sent => Ok(()),
        QueueOutcome::Disconnected => Err(QueueFailure::StorageDisconnected),
        QueueOutcome::Full => {
            if offers_without_waiting(policy) {
                *dropped = *dropped + 1;
                Ok(())
            } else {
                Err(QueueFailure::StorageDisconnected)
            }
        },
    }
}

/// The legacy transform options, in the order they are reported.
pub open spec fn legacy_option(i: int) -> Seq<char> {
    if i == 0 {
        "--x-m"@
    } else if i == 1 {
        "--y-m"@
    } else if i == 2 {
        "--z-m"@
    } else if i == 3 {
        "--yaw-deg"@
    } else if i == 4 {
        "--pitch-deg"@
    } else {
        "--roll-deg"@
    }
}

/// The options among the six legacy ones that were set, joined by `, `.
pub open spec fn spec_conflict_list(set: Seq<bool>, n: int) -> Seq<char>
    decreases n,
{
    if n <= 0 {
        Seq::empty()
    } else {
        let before = spec_conflict_list(set, n - 1);
        if !set[n - 1] {
            before
        } else if before.len() == 0 {
            legacy_option(n - 1)
        } else {
            before + ", "@ + legacy_option(n - 1)
        }
    }
}

/// The literal of a legacy option.
fn legacy_option_text(i: usize) -> (r: &'static str)
    requires
        i < 6,
    ensures
        r@ == legacy_option(i as int),
{
    if i == 0 {
        "--x-m"
    } else if i == 1 {
        "--y-m"
    } else if i == 2 {
        "--z-m"
    } else if i == 3 {
        "--yaw-deg"
    } else if i == 4 {
        "--pitch-deg"
    } else {
        "--roll-deg"
    }
}

/// Refuses legacy transform options given beside a station file, which
/// defines the transform itself. `set` tells, for `--x-m`, `--y-m`,
/// `--z-m`, `--yaw-deg`, `--pitch-deg` and `--roll-deg` in that order,
/// whether the option was given a value other than zero.
pub fn check_transform_options(set: &Vec<bool>, has_station_config: bool) -> (r: Result<()>)
    requires
        set.len() == 6,
    ensures
        (!has_station_config || spec_conflict_list(set@, 6).len() == 0) ==> r is Ok,
        (has_station_config && spec_conflict_list(set@, 6).len() > 0) ==> (r matches Err(QuanergyError::Config(m))
            && m@ == "--station-config is mutually exclusive with: "@ + spec_conflict_list(set@, 6)
                + ". Remove these flags and define the transform in station.toml instead."@),
{
    if !has_station_config {
        return Ok(());
    }
    let mut list = String::new();
    let mut any = false;
    let mut i: usize = 0;
    while i < 6
        invariant
            i <= 6,
            set.len() == 6,
            list@ == spec_conflict_list(set@, i as int),
            any == (list@.len() > 0),
        decreases 6 - i,
    {
        if set[i] {
            proof {
                reveal_strlit("--x-m");
                reveal_strlit("--y-m");
                reveal_strlit("--z-m");
                reveal_strlit("--yaw-deg");
                reveal_strlit("--pitch-deg");
                reveal_strlit("--roll-deg");
            }
            if any {
                list = list.concat(", ").concat(legacy_option_text(i));
            } else {
                list = list.concat(legacy_option_text(i));
            }
            assert(list@.len() > 0);
            any = true;
        }
        i = i + 1;
    }
    if !any {
        return Ok(());
    }
    let m = String::from_str("--station-config is mutually exclusive with: ").concat(list.as_str()).concat(
        ". Remove these flags and define the transform in station.toml instead.",
    );
    Err(QuanergyError::Config(m))
}

/// The explanation given when a capture has no sensor host.
pub open spec fn capture_missing_host_text() -> Seq<char> {
    "no host provided\n\nProvide a sensor host, for example:\n  capture-store live --host <SENSOR_IP>\n  capture-store live --settings-file <client.xml>"@
}

/// The sensor host a live capture connects to; none configured is a
/// configuration error that says how to give one.
pub fn require_capture_host(host: &String) -> (r: Result<String>)
    ensures
        host@.len() > 0 ==> r == Ok::<String, QuanergyError>(*host),
        host@.len() == 0 ==> (r matches Err(QuanergyError::Config(m)) && m@ == capture_missing_host_text()),
{
    if host.as_str().is_empty() {
        Err(QuanergyError::Config(String::from_str(
            "no host provided\n\nProvide a sensor host, for example:\n  capture-store live --host <SENSOR_IP>\n  capture-store live --settings-file <client.xml>",
        )))
    } else {
        Ok(host.clone())
    }
}

} // verus!
