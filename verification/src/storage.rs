//! Storage of captured frames: the `.qpcd` container layout, frame shape
//! checks, the records kept in the capture database and the names of the
//! files and sessions a capture produces.

use vstd::prelude::*;

use crate::cloud::Frame;
use crate::codec::{le_u32_at, le_u32_bytes, push_le_u32, read_le_u32};
use crate::error::{QuanergyError, Result};
use crate::text::{push_char_to, push_decimal, spec_decimal};

verus! {

/// Bytes per stored point: x, y, z and intensity as 32-bit floats, the
/// ring as a 16-bit integer and two bytes of flags.
pub const QPCD_POINT_STRIDE: u32 = 20;

/// The container version this library writes and reads.
pub const QPCD_FORMAT_VERSION: u8 = 1;

/// Bytes before the JSON header: magic, reserved flags, header length.
pub const QPCD_PREFIX_LEN: usize = 16;

/// The container magic `QPCDv1\0\0`.
pub open spec fn qpcd_magic() -> Seq<u8> {
    seq![0x51u8, 0x50u8, 0x43u8, 0x44u8, 0x76u8, 0x31u8, 0u8, 0u8]
}

/// A `.qpcd` file: magic, zero reserved flags, the length of the JSON
/// header, the header, then the point records.
pub open spec fn qpcd_bytes(header_json: Seq<u8>, point_records: Seq<u8>) -> Seq<u8> {
    qpcd_magic() + le_u32_bytes(0) + le_u32_bytes(header_json.len() as u32) + header_json + point_records
}

/// Lays out a `.qpcd` file from its JSON header and its point records; a
/// header longer than a 32-bit length can say is refused.
pub fn encode_qpcd(header_json: &[u8], point_records: &[u8]) -> (r: Result<Vec<u8>>)
    ensures
        header_json@.len() > u32::MAX ==> r matches Err(QuanergyError::StorageFormat(_)),
        header_json@.len() <= u32::MAX ==> (r matches Ok(v) && v@ == qpcd_bytes(header_json@, point_records@)),
{
    if header_json.len() > 0xffff_ffff {
        return Err(QuanergyError::StorageFormat(String::from_str("qpcd header JSON is too large for v1")));
    }
    let mut out: Vec<u8> = Vec::new();
    out.push(0x51);
    out.push(0x50);
    out.push(0x43);
    out.push(0x44);
    out.push(0x76);
    out.push(0x31);
    out.push(0);
    out.push(0);
    assert(out@ =~= qpcd_magic());
    push_le_u32(&mut out, 0);
    push_le_u32(&mut out, header_json.len() as u32);
    let ghost prefix = out@;
    let mut i: usize = 0;
    while i < header_json.len()
        invariant
            i <= header_json.len(),
            out@ =~= prefix + header_json@.subrange(0, i as int),
        decreases header_json.len() - i,
    {
        out.push(header_json[i]);
        i = i + 1;
        assert(out@ =~= prefix + header_json@.subrange(0, i as int));
    }
    let ghost with_header = out@;
    let mut k: usize = 0;
    while k < point_records.len()
        invariant
            k <= point_records.len(),
            out@ =~= with_header + point_records@.subrange(0, k as int),
        decreases point_records.len() - k,
    {
        out.push(point_records[k]);
        k = k + 1;
        assert(out@ =~= with_header + point_records@.subrange(0, k as int));
    }
    assert(header_json@.subrange(0, header_json@.len() as int) =~= header_json@);
    assert(point_records@.subrange(0, point_records@.len() as int) =~= point_records@);
    assert(out@ =~= qpcd_bytes(header_json@, point_records@));
    Ok(out)
}

/// Where the JSON header of a `.qpcd` file lies: it starts after the
/// prefix and has the length the prefix gives.
#[derive(Debug, Copy, Clone, PartialEq, Eq, Structural)]
pub struct QpcdLayout {
    pub header_start: usize,
    pub header_len: usize,
}

/// The length of the JSON header of a well-formed `.qpcd` prefix.
pub open spec fn spec_qpcd_header_len(b: Seq<u8>) -> Option<int> {
    if b.len() >= QPCD_PREFIX_LEN && b.subrange(0, 8) == qpcd_magic() && le_u32_at(b, 8) == 0
        && le_u32_at(b, 12) != 0 && b.len() - QPCD_PREFIX_LEN >= le_u32_at(b, 12) {
        Some(le_u32_at(b, 12))
    } else {
        None
    }
}

/// Reads the prefix of a `.qpcd` file: the magic, the reserved flags
/// (which must be zero) and the header length (which must not be zero),
/// and checks that the header is all there. Missing bytes are an I/O error,
/// wrong values a format error, each at the first place it shows.
pub fn qpcd_layout(bytes: &[u8]) -> (r: Result<QpcdLayout>)
    ensures
        match spec_qpcd_header_len(bytes@) {
            Some(n) => r == Ok::<QpcdLayout, QuanergyError>(QpcdLayout { header_start: QPCD_PREFIX_LEN, header_len: n as usize }),
            None => r is Err,
        },
        bytes@.len() < 8 ==> r matches Err(QuanergyError::Io(_)),
        bytes@.len() >= 8 && bytes@.subrange(0, 8) != qpcd_magic() ==> r matches Err(QuanergyError::StorageFormat(_)),
        bytes@.len() >= 8 && bytes@.subrange(0, 8) == qpcd_magic() && bytes@.len() < 12 ==> r matches Err(QuanergyError::Io(_)),
        bytes@.len() >= 12 && bytes@.subrange(0, 8) == qpcd_magic() && le_u32_at(bytes@, 8) != 0
            ==> r matches Err(QuanergyError::StorageFormat(_)),
        bytes@.len() >= 12 && bytes@.subrange(0, 8) == qpcd_magic() && le_u32_at(bytes@, 8) == 0 && bytes@.len() < 16
            ==> r matches Err(QuanergyError::Io(_)),
        bytes@.len() >= 16 && bytes@.subrange(0, 8) == qpcd_magic() && le_u32_at(bytes@, 8) == 0 && le_u32_at(bytes@, 12) == 0
            ==> r matches Err(QuanergyError::StorageFormat(_)),
        bytes@.len() >= 16 && bytes@.subrange(0, 8) == qpcd_magic() && le_u32_at(bytes@, 8) == 0 && le_u32_at(bytes@, 12) != 0
            && bytes@.len() - 16 < le_u32_at(bytes@, 12) ==> r matches Err(QuanergyError::Io(_)),
{
    if bytes.len() < 8 {
        return Err(QuanergyError::Io(String::from_str("failed to fill whole buffer")));
    }
    let ok = bytes[0] == 0x51 && bytes[1] == 0x50 && bytes[2] == 0x43 && bytes[3] == 0x44 && bytes[4] == 0x76
        && bytes[5] == 0x31 && bytes[6] == 0 && bytes[7] == 0;
    if !ok {
        assert(bytes@.subrange(0, 8) != qpcd_magic()) by {
            if bytes@.subrange(0, 8) == qpcd_magic() {
                assert(bytes@.subrange(0, 8)[0] == bytes@[0]);
                assert(bytes@.subrange(0, 8)[1] == bytes@[1]);
                assert(bytes@.subrange(0, 8)[2] == bytes@[2]);
                assert(bytes@.subrange(0, 8)[3] == bytes@[3]);
                assert(bytes@.subrange(0, 8)[4] == bytes@[4]);
                assert(bytes@.subrange(0, 8)[5] == bytes@[5]);
                assert(bytes@.subrange(0, 8)[6] == bytes@[6]);
                assert(bytes@.subrange(0, 8)[7] == bytes@[7]);
            }
        }
        return Err(QuanergyError::StorageFormat(String::from_str("invalid qpcd magic")));
    }
    assert(bytes@.subrange(0, 8) =~= qpcd_magic());
    if bytes.len() < 12 {
        return Err(QuanergyError::Io(String::from_str("failed to fill whole buffer")));
    }
    let reserved = read_le_u32(bytes, 8);
    if reserved != 0 {
        return Err(QuanergyError::StorageFormat(String::from_str("unsupported qpcd reserved header flags")));
    }
    if bytes.len() < 16 {
        return Err(QuanergyError::Io(String::from_str("failed to fill whole buffer")));
    }
    let header_len = read_le_u32(bytes, 12) as usize;
    if header_len == 0 {
        return Err(QuanergyError::StorageFormat(String::from_str("empty qpcd header")));
    }
    if bytes.len() - QPCD_PREFIX_LEN < header_len {
        return Err(QuanergyError::Io(String::from_str("failed to fill whole buffer")));
    }
    Ok(QpcdLayout { header_start: QPCD_PREFIX_LEN, header_len })
}

/// Reading back a laid-out `.qpcd` file finds its header where it was put
/// and the point records right after it.
pub proof fn lemma_qpcd_roundtrip(header_json: Seq<u8>, point_records: Seq<u8>)
    requires
        0 < header_json.len() <= u32::MAX,
    ensures
        ({
            let b = qpcd_bytes(header_json, point_records);
            &&& spec_qpcd_header_len(b) == Some(header_json.len() as int)
            &&& b.subrange(QPCD_PREFIX_LEN as int, QPCD_PREFIX_LEN + header_json.len()) == header_json
            &&& b.subrange(QPCD_PREFIX_LEN + header_json.len(), b.len() as int) == point_records
        }),
{
    let b = qpcd_bytes(header_json, point_records);
    let n = header_json.len() as u32;
    let rest = le_u32_bytes(n) + header_json + point_records;
    let tail = header_json + point_records;
    assert(b =~= qpcd_magic() + le_u32_bytes(0) + rest);
    assert(b.subrange(0, 8) =~= qpcd_magic());
    crate::codec::lemma_le_u32_roundtrip(0, qpcd_magic(), rest);
    crate::codec::lemma_le_u32_roundtrip(n, qpcd_magic() + le_u32_bytes(0), tail);
    assert(b =~= (qpcd_magic() + le_u32_bytes(0)) + le_u32_bytes(n) + tail);
    assert(b.subrange(QPCD_PREFIX_LEN as int, QPCD_PREFIX_LEN + header_json.len()) =~= header_json);
    assert(b.subrange(QPCD_PREFIX_LEN + header_json.len(), b.len() as int) =~= point_records);
}

/// The metadata stored in front of a frame's points.
#[derive(Debug, Clone, PartialEq)]
pub struct QpcdHeader {
    pub format_version: u8,
    pub point_stride: u32,
    pub point_count: u64,
    pub stamp_micros: u64,
    pub sequence: u64,
    pub coord_frame: String,
    pub frame_id: String,
    pub width: usize,
    pub height: usize,
    pub is_dense: bool,
    pub source_frame: Option<String>,
    pub target_frame: Option<String>,
    pub station_id: Option<String>,
    pub transform_id: Option<String>,
    pub station_config_sha256: Option<String>,
}

impl QpcdHeader {
    /// The header of `frame` stored in coordinate frame `coord_frame`,
    /// without provenance.
    pub fn from_frame<T>(frame: &Frame<T>, coord_frame: String) -> (r: Self)
        ensures
            r.format_version == QPCD_FORMAT_VERSION,
            r.point_stride == QPCD_POINT_STRIDE,
            r.point_count == frame.points@.len(),
            r.stamp_micros == frame.stamp_micros,
            r.sequence == frame.sequence,
            r.coord_frame == coord_frame,
            r.frame_id@ == frame.frame_id@,
            r.width == frame.width,
            r.height == frame.height,
            r.is_dense == frame.is_dense,
            r.source_frame is None,
            r.target_frame is None,
            r.station_id is None,
            r.transform_id is None,
            r.station_config_sha256 is None,
    {
        QpcdHeader {
            format_version: QPCD_FORMAT_VERSION,
            point_stride: QPCD_POINT_STRIDE,
            point_count: frame.points.len() as u64,
            stamp_micros: frame.stamp_micros,
            sequence: frame.sequence,
            coord_frame,
            frame_id: frame.frame_id.clone(),
            width: frame.width,
            height: frame.height,
            is_dense: frame.is_dense,
            source_frame: None,
            target_frame: None,
            station_id: None,
            transform_id: None,
            station_config_sha256: None,
        }
    }

    /// The header of `frame` with the station provenance it was captured
    /// under.
    pub fn from_frame_with_provenance<T>(
        frame: &Frame<T>,
        coord_frame: String,
        source_frame: Option<String>,
        target_frame: Option<String>,
        station_id: Option<String>,
        transform_id: Option<String>,
        station_config_sha256: Option<String>,
    ) -> (r: Self)
        ensures
            r.format_version == QPCD_FORMAT_VERSION,
            r.point_stride == QPCD_POINT_STRIDE,
            r.point_count == frame.points@.len(),
            r.stamp_micros == frame.stamp_micros,
            r.sequence == frame.sequence,
            r.coord_frame == coord_frame,
            r.frame_id@ == frame.frame_id@,
            r.width == frame.width,
            r.height == frame.height,
            r.is_dense == frame.is_dense,
            r.source_frame == source_frame,
            r.target_frame == target_frame,
            r.station_id == station_id,
            r.transform_id == transform_id,
            r.station_config_sha256 == station_config_sha256,
    {
        let base = Self::from_frame(frame, coord_frame);
        QpcdHeader { source_frame, target_frame, station_id, transform_id, station_config_sha256, ..base }
    }

    /// Checks that a header read back describes this container version and
    /// point layout, and gives the number of points to read.
    pub fn checked_point_count(&self) -> (r: Result<usize>)
        ensures
            self.format_version != QPCD_FORMAT_VERSION ==> r matches Err(QuanergyError::StorageFormat(_)),
            self.format_version == QPCD_FORMAT_VERSION && self.point_stride != QPCD_POINT_STRIDE
                ==> r matches Err(QuanergyError::StorageFormat(_)),
            self.format_version == QPCD_FORMAT_VERSION && self.point_stride == QPCD_POINT_STRIDE ==> (
                if self.point_count <= usize::MAX {
                    r == Ok::<usize, QuanergyError>(self.point_count as usize)
                } else {
                    r matches Err(QuanergyError::StorageFormat(_))
                }),
    {
        if self.format_version != QPCD_FORMAT_VERSION {
            let mut m = String::from_str("unsupported qpcd version ");
            push_decimal(&mut m, self.format_version as u64);
            return Err(QuanergyError::StorageFormat(m));
        }
        if self.point_stride != QPCD_POINT_STRIDE {
            let mut m = String::from_str("unsupported qpcd point stride ");
            push_decimal(&mut m, self.point_stride as u64);
            return Err(QuanergyError::StorageFormat(m));
        }
        if self.point_count > usize::MAX as u64 {
            return Err(QuanergyError::StorageFormat(String::from_str("qpcd point count does not fit in memory")));
        }
        Ok(self.point_count as usize)
    }
}

/// Where the point records of a `.qpcd` file end: `count` records of the
/// point stride from `start`; a file cut short is an I/O error.
pub fn qpcd_points_end(total_len: usize, start: usize, count: usize) -> (r: Result<usize>)
    requires
        start <= total_len,
    ensures
        (start + count * QPCD_POINT_STRIDE <= total_len) ==> r == Ok::<usize, QuanergyError>((start + count * QPCD_POINT_STRIDE) as usize),
        (start + count * QPCD_POINT_STRIDE > total_len) ==> r matches Err(QuanergyError::Io(_)),
{
    let room = total_len - start;
    if count > room / 20 {
        assert(count * 20 > room) by (nonlinear_arith)
            requires count > room / 20, room >= 0;
        return Err(QuanergyError::Io(String::from_str("failed to fill whole buffer")));
    }
    assert(count * 20 <= room) by (nonlinear_arith)
        requires count <= room / 20, room >= 0;
    Ok(start + count * 20)
}

/// The message for a grid of `width` by `height` that does not hold the
/// frame's `count` points: it names both sizes.
pub open spec fn dimension_mismatch_text(width: nat, height: nat, count: nat) -> Seq<char> {
    "frame dimension mismatch: "@ + spec_decimal(width) + seq!['\u{d7}'] + spec_decimal(height) + " = "@
        + spec_decimal(width * height) + ", but points.len() = "@ + spec_decimal(count)
}

/// Checks that a frame's layout is a non-empty grid holding exactly its
/// points.
pub fn validate_frame_dimensions<T>(frame: &Frame<T>) -> (r: Result<()>)
    ensures
        (frame.width == 0 || frame.height == 0) ==> (r matches Err(QuanergyError::StorageFormat(m))
            && m@ == "frame dimensions must be > 0"@),
        (frame.width > 0 && frame.height > 0 && frame.width * frame.height > usize::MAX) ==> (r matches Err(
            QuanergyError::StorageFormat(m),
        ) && m@ == "frame dimensions overflow"@),
        (frame.width > 0 && frame.height > 0 && frame.width * frame.height <= usize::MAX) ==> (
            if frame.width * frame.height == frame.points@.len() {
                r is Ok
            } else {
                r matches Err(QuanergyError::StorageFormat(m)) && m@ == dimension_mismatch_text(
                    frame.width as nat,
                    frame.height as nat,
                    frame.points@.len(),
                )
            }),
{
    if frame.width == 0 || frame.height == 0 {
        return Err(QuanergyError::StorageFormat(String::from_str("frame dimensions must be > 0")));
    }
    let count = frame.points.len();
    let expected = match frame.width.checked_mul(frame.height) {
        Some(e) => e,
        None => {
            return Err(QuanergyError::StorageFormat(String::from_str("frame dimensions overflow")));
        },
    };
    if expected != frame.points.len() {
        let mut m = String::from_str("frame dimension mismatch: ");
        push_decimal(&mut m, frame.width as u64);
        push_char_to(&mut m, '\u{d7}');
        push_decimal(&mut m, frame.height as u64);
        let mut m = m.concat(" = ");
        push_decimal(&mut m, expected as u64);
        let mut m = m.concat(", but points.len() = ");
        push_decimal(&mut m, frame.points.len() as u64);
        return Err(QuanergyError::StorageFormat(m));
    }
    Ok(())
}

/// How a PCD file stores its points.
#[derive(Debug, Clone, Copy, PartialEq, Eq, Structural)]
pub enum PcdEncoding {
    Ascii,
    Binary,
    BinaryCompressed,
}

/// What was written to a PCD file.
#[derive(Debug, Clone, PartialEq, Eq, Structural)]
pub struct PcdFileInfo {
    pub point_count: u64,
    pub width: usize,
    pub height: usize,
    pub encoding: PcdEncoding,
    pub file_size_bytes: u64,
}

impl PcdFileInfo {
    /// The summary of writing `frame` with `encoding` into a file of
    /// `file_size_bytes` bytes.
    pub fn for_frame<T>(frame: &Frame<T>, encoding: PcdEncoding, file_size_bytes: u64) -> (r: Self)
        ensures
            r.point_count == frame.points@.len(),
            r.width == frame.width,
            r.height == frame.height,
            r.encoding == encoding,
            r.file_size_bytes == file_size_bytes,
    {
        PcdFileInfo {
            point_count: frame.points.len() as u64,
            width: frame.width,
            height: frame.height,
            encoding,
            file_size_bytes,
        }
    }
}

/// The identifier a metadata store gives a saved frame.
#[derive(Debug, Clone, Copy, PartialEq, Eq, Hash, Structural)]
pub struct ScanFrameId(pub i64);

/// A capture session about to be recorded.
#[derive(Debug, Clone, PartialEq)]
pub struct NewCaptureSession {
    pub session_id: String,
    pub started_at: String,
    pub sensor_host: String,
    pub sensor_model: Option<String>,
    pub sdk_version: String,
    pub status: String,
    pub notes: Option<String>,
    pub station_id: Option<String>,
    pub source_frame: Option<String>,
    pub target_frame: Option<String>,
    pub transform_id: Option<String>,
    pub station_config_json: Option<String>,
    pub station_config_sha256: Option<String>,
}

/// A recorded capture session.
#[derive(Debug, Clone, PartialEq)]
pub struct CaptureSession {
    pub session_id: String,
    pub started_at: String,
    pub ended_at: Option<String>,
    pub sensor_host: String,
    pub sensor_model: Option<String>,
    pub sdk_version: String,
    pub status: String,
    pub notes: Option<String>,
    pub station_id: Option<String>,
    pub source_frame: Option<String>,
    pub target_frame: Option<String>,
    pub transform_id: Option<String>,
    pub station_config_json: Option<String>,
    pub station_config_sha256: Option<String>,
}

/// A database integer for an unsigned count; values beyond the signed
/// 64-bit range are refused.
pub fn to_i64(value: u64) -> (r: Result<i64>)
    ensures
        value <= i64::MAX ==> r == Ok::<i64, QuanergyError>(value as i64),
        value > i64::MAX ==> (r matches Err(QuanergyError::StorageFormat(m)) && m@ == spec_decimal(value as nat)
            + " does not fit in SQLite i64"@),
{
    if value <= i64::MAX as u64 {
        Ok(value as i64)
    } else {
        let mut m = String::new();
        push_decimal(&mut m, value);
        let m = m.concat(" does not fit in SQLite i64");
        assert(m@ =~= spec_decimal(value as nat) + " does not fit in SQLite i64"@);
        Err(QuanergyError::StorageFormat(m))
    }
}

/// An unsigned count read back from a database integer; negative values
/// are refused.
pub fn from_i64(value: i64) -> (r: Option<u64>)
    ensures
        value >= 0 ==> r == Some(value as u64),
        value < 0 ==> r is None,
{
    if value >= 0 {
        Some(value as u64)
    } else {
        None
    }
}

/// The bit a packet type sets in a frame's packet-type mask; types beyond
/// the mask's 32 bits have none.
pub fn packet_type_mask(packet_type: u8) -> (r: Option<u32>)
    ensures
        packet_type < 32 ==> r == Some(1u32 << packet_type),
        packet_type >= 32 ==> r is None,
{
    if packet_type < 32 {
        Some(1u32 << packet_type)
    } else {
        None
    }
}

/// Distinct packet types set distinct bits of a packet-type mask.
pub proof fn lemma_packet_type_masks_distinct(a: u8, b: u8)
    requires
        a < 32,
        b < 32,
        a != b,
    ensures
        (1u32 << a) != (1u32 << b),
{
    assert((1u32 << a) != (1u32 << b)) by (bit_vector)
        requires a < 32, b < 32, a != b;
}

/// A count stored as a database integer reads back unchanged.
pub proof fn lemma_i64_roundtrip(value: u64)
    requires
        value <= i64::MAX,
    ensures
        ((value as i64) as u64) == value,
        (value as i64) >= 0,
{
}

/// The temporary file a file is first written to: its path with `.tmp`
/// appended.
pub fn tmp_path(path: &str) -> (r: String)
    ensures
        r@ == path@ + ".tmp"@,
{
    String::from_str(path).concat(".tmp")
}

/// `name` inside directory `dir`, joined as a relative path is: a
/// separator is put between them unless `dir` is empty or already ends
/// with one.
pub open spec fn spec_join_relative(dir: Seq<char>, name: Seq<char>) -> Seq<char> {
    if dir.len() == 0 {
        name
    } else if dir.last() == '/' {
        dir + name
    } else {
        dir + seq!['/'] + name
    }
}

/// The capture database: the configured path, else `capture.sqlite` in
/// the output directory.
pub fn database_path(database: Option<String>, output_dir: &str) -> (r: String)
    ensures
        match database {
            Some(d) => r == d,
            None => r@ == spec_join_relative(output_dir@, "capture.sqlite"@),
        },
{
    match database {
        Some(d) => d,
        None => {
            let dir = String::from_str(output_dir);
            let n = output_dir.unicode_len();
            if n == 0 {
                String::from_str("capture.sqlite")
            } else if output_dir.get_char(n - 1) == '/' {
                dir.concat("capture.sqlite")
            } else {
                let mut d = dir;
                push_char_to(&mut d, '/');
                d.concat("capture.sqlite")
            }
        },
    }
}

/// The session name to record under: the given one unless it is missing
/// or empty, else `fallback`.
pub fn session_id_or_default(session_id: Option<&str>, fallback: String) -> (r: String)
    ensures
        match session_id {
            Some(s) => if s@.len() > 0 { r@ == s@ } else { r == fallback },
            None => r == fallback,
        },
{
    match session_id {
        Some(s) => {
            if s.is_empty() {
                fallback
            } else {
                s.to_owned()
            }
        },
        None => fallback,
    }
}

/// Whether a character is an ASCII letter or digit.
pub open spec fn spec_is_ascii_alphanumeric(c: char) -> bool {
    ('0' <= c && c <= '9') || ('a' <= c && c <= 'z') || ('A' <= c && c <= 'Z')
}

/// A timestamp text made safe for a file name: every character but ASCII
/// letters and digits becomes `-`.
pub open spec fn spec_sanitized(s: Seq<char>) -> Seq<char> {
    s.map_values(|c: char| if spec_is_ascii_alphanumeric(c) { c } else { '-' })
}

/// The session name made up when none is given:
/// `session-<sanitized time>-<process id>`.
pub fn default_session_id(time_text: &str, process_id: u32) -> (r: String)
    ensures
        r@ == "session-"@ + spec_sanitized(time_text@) + seq!['-'] + spec_decimal(process_id as nat),
{
    let mut r = String::from_str("session-");
    let ghost start = r@;
    let mut i: usize = 0;
    let n = time_text.unicode_len();
    while i < n
        invariant
            i <= n,
            n == time_text@.len(),
            r@ =~= start + spec_sanitized(time_text@.subrange(0, i as int)),
        decreases n - i,
    {
        let c = time_text.get_char(i);
        let keep = ('0' <= c && c <= '9') || ('a' <= c && c <= 'z') || ('A' <= c && c <= 'Z');
        if keep {
            push_char_to(&mut r, c);
        } else {
            push_char_to(&mut r, '-');
        }
        i = i + 1;
        assert(r@ =~= start + spec_sanitized(time_text@.subrange(0, i as int)));
    }
    assert(time_text@.subrange(0, n as int) =~= time_text@);
    push_char_to(&mut r, '-');
    push_decimal(&mut r, process_id as u64);
    r
}

/// The decimal notation of `n`, padded with leading zeros to at least
/// `width` digits.
pub open spec fn spec_zero_padded(n: nat, width: int) -> Seq<char> {
    let d = spec_decimal(n);
    if d.len() >= width {
        d
    } else {
        Seq::new((width - d.len()) as nat, |i: int| '0') + d
    }
}

/// The file a captured frame is stored in: `frame_` and its sequence
/// number in twelve digits, with the `.qpcd` extension.
pub fn frame_file_name(sequence: u64) -> (r: String)
    ensures
        r@ == "frame_"@ + spec_zero_padded(sequence as nat, 12) + ".qpcd"@,
{
    let mut digits = String::new();
    push_decimal(&mut digits, sequence);
    assert(digits@ =~= spec_decimal(sequence as nat));
    let n = digits.as_str().unicode_len();
    let mut r = String::from_str("frame_");
    let ghost start = r@;
    let mut i: usize = n;
    while i < 12
        invariant
            n == digits@.len(),
            n <= i <= 12 || (n > 12 && i == n),
            r@ =~= start + Seq::new((i - n) as nat, |k: int| '0'),
        decreases 12 - i,
    {
        push_char_to(&mut r, '0');
        i = i + 1;
    }
    let r = r.concat(digits.as_str());
    let r = r.concat(".qpcd");
    assert(r@ =~= "frame_"@ + spec_zero_padded(sequence as nat, 12) + ".qpcd"@);
    r
}

} // verus!
