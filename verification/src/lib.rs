//! Verified core of a Quanergy lidar client: packet framing, replay
//! recording format, packet body decoding and the small text rules used by
//! configuration and visualization.

pub mod calibration;
pub mod capture;
pub mod cloud;
pub mod codec;
pub mod config;
pub mod diagnostics;
pub mod error;
pub mod extrinsic;
pub mod measure;
pub mod pipeline;
pub mod protocol;
pub mod replay;
pub mod station;
pub mod storage;
pub mod text;
pub mod visualizer;
