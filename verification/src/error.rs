//! The error type shared by the library's fallible operations.

use vstd::prelude::*;

verus! {

/// Everything that can go wrong while framing, decoding or storing sensor
/// data. Variants that carry text hold a human-readable explanation.
#[derive(Debug)]
#[allow(inconsistent_fields)]
pub enum QuanergyError {
    InvalidSignature(u32),
    PacketTooShort { actual: usize, minimum: usize },
    PacketSizeMismatch { expected: usize, actual: usize },
    UnsupportedPacketType(u8),
    UnsupportedPacketVersion { packet_type: u8, major: u8, minor: u8, patch: u8 },
    InvalidReturnSelection(String),
    ReturnIdMismatch { requested: u8, actual: u8 },
    InvalidVerticalAngles(String),
    InvalidSensorStatus(u16),
    Calibration(String),
    Config(String),
    ReplayFormat(String),
    StorageFormat(String),
    Io(String),
    Xml(String),
    TomlDe(String),
    TomlSer(String),
    Http(String),
    Visualizer(String),
}

/// Result of the library's fallible operations.
pub type Result<T> = core::result::Result<T, QuanergyError>;

/// `r` is a size-mismatch error with these two lengths.
pub open spec fn is_size_mismatch<T>(r: Result<T>, expected: int, actual: int) -> bool {
    match r {
        Err(QuanergyError::PacketSizeMismatch { expected: e, actual: a }) => e == expected && a == actual,
        _ => false,
    }
}

/// `r` is a too-short error with these two lengths.
pub open spec fn is_too_short<T>(r: Result<T>, actual: int, minimum: int) -> bool {
    match r {
        Err(QuanergyError::PacketTooShort { actual: a, minimum: m }) => a == actual && m == minimum,
        _ => false,
    }
}

/// `r` is an invalid-status error for `status`.
pub open spec fn is_status_error<T>(r: Result<T>, status: int) -> bool {
    match r {
        Err(QuanergyError::InvalidSensorStatus(s)) => s == status,
        _ => false,
    }
}

/// `r` is a return-id mismatch reporting `requested` and `actual`.
pub open spec fn is_return_mismatch<T>(r: Result<T>, requested: int, actual: int) -> bool {
    match r {
        Err(QuanergyError::ReturnIdMismatch { requested: q, actual: a }) => q == requested && a == actual,
        _ => false,
    }
}

} // verus!
