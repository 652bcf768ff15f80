//! Decoding of sensor packet bodies into integer records, and the
//! integer rules of the point-cloud pipeline: status and length checks,
//! return selection, frame timestamps, scan direction and the organized
//! layout of M-Series clouds.

use vstd::prelude::*;

use crate::cloud::Frame;
use crate::codec::{be_i16_at, be_u16_at, be_u32_at, read_be_i16, read_be_u16, read_be_u32};
use crate::error::{is_return_mismatch, is_size_mismatch, is_status_error, is_too_short, QuanergyError, Result};
use crate::protocol::{
    spec_parse_header, spec_require_version, spec_timestamp_micros, PacketHeader, ReturnSelection,
    HEADER_LEN, M_SERIES_FIRINGS_PER_PACKET, M_SERIES_NUM_LASERS, M_SERIES_NUM_RETURNS,
    PACKET_TYPE_HVDIR_LIST, PACKET_TYPE_M1, PACKET_TYPE_M_SERIES, PACKET_TYPE_M_SERIES_REDUCED,
};

verus! {

/// Bytes of one firing in an M-Series (0x00) packet.
pub const M_SERIES_FIRING_LEN: usize = 132;
/// Total length of an M-Series (0x00) packet.
pub const M_SERIES_PACKET_LEN: usize = 6632;
/// Bytes of one firing in a reduced M-Series (0x04) packet.
pub const M_SERIES_REDUCED_FIRING_LEN: usize = 44;
/// Total length of a reduced M-Series (0x04) packet.
pub const M_SERIES_REDUCED_PACKET_LEN: usize = 2224;
/// Bytes before the first firing of a 0x04 or 0x06 packet.
pub const REDUCED_PREFIX_LEN: usize = 24;
/// Bytes before the first point of an HVDIR list (0x01) packet.
pub const HVDIR_PREFIX_LEN: usize = 36;
/// Bytes of one point of an HVDIR list (0x01) packet.
pub const HVDIR_POINT_LEN: usize = 12;
/// Slots of distances and intensities per firing: one per return and laser.
pub const FIRING_SLOTS: usize = 24;

/// Slot of `(return, laser)` in a firing's distances and intensities.
pub open spec fn slot(ret: int, laser: int) -> int {
    ret * 8 + laser
}

/// Whether the two low status bits are clear.
pub open spec fn status_ok(status: u16) -> bool {
    status % 4 == 0
}

/// Fails on a status word with either of its two low bits set.
pub fn validate_status(status: u16) -> (r: Result<()>)
    ensures
        status_ok(status) ==> r is Ok,
        !status_ok(status) ==> r == Err::<(), QuanergyError>(QuanergyError::InvalidSensorStatus(status)),
{
    assert((status & 3u16) == status % 4) by (bit_vector);
    if status & 0b11 != 0 {
        Err(QuanergyError::InvalidSensorStatus(status))
    } else {
        Ok(())
    }
}

/// Fails unless `packet` is exactly `expected` bytes long.
pub fn ensure_packet_len(packet: &[u8], expected: usize) -> (r: Result<()>)
    ensures
        packet@.len() == expected ==> r is Ok,
        packet@.len() != expected ==> r == Err::<(), QuanergyError>(
            QuanergyError::PacketSizeMismatch { expected, actual: packet.len() },
        ),
{
    if packet.len() == expected {
        Ok(())
    } else {
        Err(QuanergyError::PacketSizeMismatch { expected, actual: packet.len() })
    }
}

/// One firing: the encoder position and, per return and laser, a distance
/// and an intensity (slots not present in the packet hold zero).
#[derive(Debug, Clone)]
pub struct MSeriesFiring {
    pub position: u16,
    pub distances: Vec<u32>,
    pub intensities: Vec<u8>,
}

impl MSeriesFiring {
    /// Distance of `ret` for `laser`.
    pub fn distance(&self, ret: usize, laser: usize) -> (r: u32)
        requires
            self.distances@.len() == FIRING_SLOTS,
            ret < M_SERIES_NUM_RETURNS,
            laser < M_SERIES_NUM_LASERS,
        ensures
            r == self.distances@[slot(ret as int, laser as int)],
    {
        self.distances[ret * 8 + laser]
    }

    /// Intensity of `ret` for `laser`.
    pub fn intensity(&self, ret: usize, laser: usize) -> (r: u8)
        requires
            self.intensities@.len() == FIRING_SLOTS,
            ret < M_SERIES_NUM_RETURNS,
            laser < M_SERIES_NUM_LASERS,
        ensures
            r == self.intensities@[slot(ret as int, laser as int)],
    {
        self.intensities[ret * 8 + laser]
    }
}

/// The firing of an 0x00 packet at byte offset `o`: position, 24
/// big-endian distances, 24 intensities (then padding and status bytes).
pub open spec fn full_firing_at(f: MSeriesFiring, p: Seq<u8>, o: int) -> bool {
    &&& f.position == be_u16_at(p, o)
    &&& f.distances@.len() == FIRING_SLOTS
    &&& f.intensities@.len() == FIRING_SLOTS
    &&& forall|j: int| 0 <= j < FIRING_SLOTS ==> #[trigger] f.distances@[j] == be_u32_at(p, o + 4 + 4 * j)
    &&& forall|j: int| 0 <= j < FIRING_SLOTS ==> #[trigger] f.intensities@[j] == p[o + 100 + j]
}

/// Distance slot `j` of the 0x04 firing at `o`: the first return's eight
/// lasers, zero elsewhere.
pub open spec fn reduced_distance(p: Seq<u8>, o: int, j: int) -> int {
    if j < 8 {
        be_u32_at(p, o + 4 + 4 * j)
    } else {
        0
    }
}

/// Intensity slot `j` of the 0x04 firing at `o`.
pub open spec fn reduced_intensity(p: Seq<u8>, o: int, j: int) -> int {
    if j < 8 {
        p[o + 36 + j] as int
    } else {
        0
    }
}

/// Distance slot `j` of the 0x06 firing at `o` with `return_count` returns:
/// laser 0 of each present return, zero elsewhere.
pub open spec fn m1_distance(p: Seq<u8>, o: int, return_count: int, j: int) -> int {
    if j % 8 == 0 && j / 8 < return_count {
        be_u32_at(p, o + 4 + 4 * (j / 8))
    } else {
        0
    }
}

/// Intensity slot `j` of the 0x06 firing at `o` with `return_count` returns.
pub open spec fn m1_intensity(p: Seq<u8>, o: int, return_count: int, j: int) -> int {
    if j % 8 == 0 && j / 8 < return_count {
        p[o + 4 + 4 * return_count + j / 8] as int
    } else {
        0
    }
}

/// The firing of an 0x04 packet at byte offset `o`: position, then the
/// first return's eight distances and eight intensities.
pub open spec fn reduced_firing_at(f: MSeriesFiring, p: Seq<u8>, o: int) -> bool {
    &&& f.position == be_u16_at(p, o)
    &&& f.distances@.len() == FIRING_SLOTS
    &&& f.intensities@.len() == FIRING_SLOTS
    &&& forall|j: int| 0 <= j < FIRING_SLOTS ==> #[trigger] f.distances@[j] == reduced_distance(p, o, j)
    &&& forall|j: int| 0 <= j < FIRING_SLOTS ==> #[trigger] f.intensities@[j] == reduced_intensity(p, o, j)
}

/// The firing of an 0x06 packet at byte offset `o` with `return_count` returns:
/// position, one distance per return, one intensity per return, all for
/// the single laser.
pub open spec fn m1_firing_at(f: MSeriesFiring, p: Seq<u8>, o: int, return_count: int) -> bool {
    &&& f.position == be_u16_at(p, o)
    &&& f.distances@.len() == FIRING_SLOTS
    &&& f.intensities@.len() == FIRING_SLOTS
    &&& forall|j: int| 0 <= j < FIRING_SLOTS ==> #[trigger] f.distances@[j] == m1_distance(p, o, return_count, j)
    &&& forall|j: int| 0 <= j < FIRING_SLOTS ==> #[trigger] f.intensities@[j] == m1_intensity(p, o, return_count, j)
}

fn decode_full_firing(p: &[u8], o: usize) -> (f: MSeriesFiring)
    requires
        o + M_SERIES_FIRING_LEN <= p.len(),
    ensures
        full_firing_at(f, p@, o as int),
{
    let position = read_be_u16(p, o);
    let mut distances: Vec<u32> = Vec::new();
    let mut intensities: Vec<u8> = Vec::new();
    let mut j: usize = 0;
    while j < FIRING_SLOTS
        invariant
            o + M_SERIES_FIRING_LEN <= p.len(),
            j <= FIRING_SLOTS,
            distances@.len() == j,
            intensities@.len() == j,
            forall|k: int| 0 <= k < j ==> #[trigger] distances@[k] == be_u32_at(p@, o + 4 + 4 * k),
            forall|k: int| 0 <= k < j ==> #[trigger] intensities@[k] == p@[o + 100 + k],
        decreases FIRING_SLOTS - j,
    {
        distances.push(read_be_u32(p, o + 4 + 4 * j));
        intensities.push(p[o + 100 + j]);
        j = j + 1;
    }
    MSeriesFiring { position, distances, intensities }
}

fn decode_reduced_firing(p: &[u8], o: usize) -> (f: MSeriesFiring)
    requires
        o + M_SERIES_REDUCED_FIRING_LEN <= p.len(),
    ensures
        reduced_firing_at(f, p@, o as int),
{
    let position = read_be_u16(p, o);
    let mut distances: Vec<u32> = Vec::new();
    let mut intensities: Vec<u8> = Vec::new();
    let mut j: usize = 0;
    while j < FIRING_SLOTS
        invariant
            o + M_SERIES_REDUCED_FIRING_LEN <= p.len(),
            j <= FIRING_SLOTS,
            distances@.len() == j,
            intensities@.len() == j,
            forall|k: int| 0 <= k < j ==> #[trigger] distances@[k] == reduced_distance(p@, o as int, k),
            forall|k: int| 0 <= k < j ==> #[trigger] intensities@[k] == reduced_intensity(p@, o as int, k),
        decreases FIRING_SLOTS - j,
    {
        if j < 8 {
            distances.push(read_be_u32(p, o + 4 + 4 * j));
            intensities.push(p[o + 36 + j]);
        } else {
            distances.push(0);
            intensities.push(0);
        }
        j = j + 1;
    }
    MSeriesFiring { position, distances, intensities }
}

fn decode_m1_firing(p: &[u8], o: usize, return_count: usize) -> (f: MSeriesFiring)
    requires
        return_count == 1 || return_count == 3,
        o + 4 + 5 * return_count <= p.len(),
    ensures
        m1_firing_at(f, p@, o as int, return_count as int),
{
    let position = read_be_u16(p, o);
    let mut distances: Vec<u32> = Vec::new();
    let mut intensities: Vec<u8> = Vec::new();
    let mut j: usize = 0;
    while j < FIRING_SLOTS
        invariant
            return_count == 1 || return_count == 3,
            o + 4 + 5 * return_count <= p.len(),
            j <= FIRING_SLOTS,
            distances@.len() == j,
            intensities@.len() == j,
            forall|k: int| 0 <= k < j ==> #[trigger] distances@[k] == m1_distance(p@, o as int, return_count as int, k),
            forall|k: int| 0 <= k < j ==> #[trigger] intensities@[k] == m1_intensity(p@, o as int, return_count as int, k),
        decreases FIRING_SLOTS - j,
    {
        if j % 8 == 0 && j / 8 < return_count {
            distances.push(read_be_u32(p, o + 4 + 4 * (j / 8)));
            intensities.push(p[o + 4 + 4 * return_count + j / 8]);
        } else {
            distances.push(0);
            intensities.push(0);
        }
        j = j + 1;
    }
    MSeriesFiring { position, distances, intensities }
}

/// The integer content of an M-Series (0x00) packet.
#[derive(Debug, Clone)]
pub struct MSeriesPacket {
    pub firings: Vec<MSeriesFiring>,
    pub seconds: u32,
    pub nanoseconds: u32,
    pub api_version: u16,
    pub status: u16,
}

/// The integer content of a reduced M-Series (0x04) or M1 (0x06) packet.
#[derive(Debug, Clone)]
pub struct ReducedPacket {
    pub status: u16,
    pub return_id: u8,
    pub returns_per_firing: usize,
    pub firings: Vec<MSeriesFiring>,
}

/// Whether a packet carrying `return_id` may be used with the configured
/// selection: only an explicitly configured single return must match.
pub open spec fn return_id_accepted(selection: ReturnSelection, selection_set: bool, return_id: u8) -> bool {
    !(selection_set && (selection matches ReturnSelection::Single(requested) && requested != return_id))
}

/// Fails when an explicitly configured single return differs from the
/// packet's return.
pub fn check_return_id(selection: ReturnSelection, selection_set: bool, return_id: u8) -> (r: Result<()>)
    ensures
        return_id_accepted(selection, selection_set, return_id) ==> r is Ok,
        !return_id_accepted(selection, selection_set, return_id) ==> (selection matches ReturnSelection::Single(q) && is_return_mismatch(r, q as int, return_id as int)),
{
    if selection_set {
        if let ReturnSelection::Single(requested) = selection {
            if requested != return_id {
                return Err(QuanergyError::ReturnIdMismatch { requested, actual: return_id });
            }
        }
    }
    Ok(())
}

/// Decodes an M-Series (0x00) packet: version 0.1.0, exactly 6632 bytes,
/// 50 firings of 132 bytes, then seconds, nanoseconds, API version and a
/// status that must be clear.
pub fn decode_m_series(packet: &[u8], header: PacketHeader) -> (r: Result<MSeriesPacket>)
    ensures
        spec_require_version(header, 0, 1, 0) is Err ==> (r matches Err(e) && spec_require_version(header, 0, 1, 0) == Err::<(), QuanergyError>(e)),
        spec_require_version(header, 0, 1, 0) is Ok && packet@.len() != M_SERIES_PACKET_LEN
            ==> is_size_mismatch(r, M_SERIES_PACKET_LEN as int, packet@.len() as int),
        spec_require_version(header, 0, 1, 0) is Ok && packet@.len() == M_SERIES_PACKET_LEN
            && !status_ok(be_u16_at(packet@, 6630) as u16)
            ==> is_status_error(r, be_u16_at(packet@, 6630)),
        spec_require_version(header, 0, 1, 0) is Ok && packet@.len() == M_SERIES_PACKET_LEN
            && status_ok(be_u16_at(packet@, 6630) as u16) ==> (r matches Ok(m) && {
                &&& m.firings@.len() == M_SERIES_FIRINGS_PER_PACKET
                &&& forall|i: int| 0 <= i < M_SERIES_FIRINGS_PER_PACKET ==> full_firing_at(
                    #[trigger] m.firings@[i], packet@, HEADER_LEN + M_SERIES_FIRING_LEN * i)
                &&& m.seconds == be_u32_at(packet@, 6620)
                &&& m.nanoseconds == be_u32_at(packet@, 6624)
                &&& m.api_version == be_u16_at(packet@, 6628)
                &&& m.status == be_u16_at(packet@, 6630)
            }),
{
    match header.require_version(0, 1, 0) {
        Ok(()) => {},
        Err(e) => return Err(e),
    }
    match ensure_packet_len(packet, M_SERIES_PACKET_LEN) {
        Ok(()) => {},
        Err(e) => return Err(e),
    }
    let mut firings: Vec<MSeriesFiring> = Vec::new();
    let mut i: usize = 0;
    while i < M_SERIES_FIRINGS_PER_PACKET
        invariant
            packet@.len() == M_SERIES_PACKET_LEN,
            i <= M_SERIES_FIRINGS_PER_PACKET,
            firings@.len() == i,
            forall|k: int| 0 <= k < i ==> full_firing_at(#[trigger] firings@[k], packet@, HEADER_LEN + M_SERIES_FIRING_LEN * k),
        decreases M_SERIES_FIRINGS_PER_PACKET - i,
    {
        let f = decode_full_firing(packet, HEADER_LEN + M_SERIES_FIRING_LEN * i);
        firings.push(f);
        i = i + 1;
    }
    let seconds = read_be_u32(packet, 6620);
    let nanoseconds = read_be_u32(packet, 6624);
    let api_version = read_be_u16(packet, 6628);
    let status = read_be_u16(packet, 6630);
    match validate_status(status) {
        Ok(()) => {},
        Err(e) => return Err(e),
    }
    Ok(MSeriesPacket { firings, seconds, nanoseconds, api_version, status })
}

/// Decodes a reduced M-Series (0x04) packet: version 0.1.0, exactly 2224
/// bytes, a clear status, an accepted return id, then 50 firings of 44
/// bytes carrying one return.
pub fn decode_m_series_reduced(
    packet: &[u8],
    header: PacketHeader,
    selection: ReturnSelection,
    selection_set: bool,
) -> (r: Result<ReducedPacket>)
    ensures
        spec_require_version(header, 0, 1, 0) is Err ==> (r matches Err(e) && spec_require_version(header, 0, 1, 0) == Err::<(), QuanergyError>(e)),
        spec_require_version(header, 0, 1, 0) is Ok && packet@.len() != M_SERIES_REDUCED_PACKET_LEN
            ==> is_size_mismatch(r, M_SERIES_REDUCED_PACKET_LEN as int, packet@.len() as int),
        spec_require_version(header, 0, 1, 0) is Ok && packet@.len() == M_SERIES_REDUCED_PACKET_LEN
            && !status_ok(be_u16_at(packet@, 20) as u16)
            ==> is_status_error(r, be_u16_at(packet@, 20)),
        spec_require_version(header, 0, 1, 0) is Ok && packet@.len() == M_SERIES_REDUCED_PACKET_LEN
            && status_ok(be_u16_at(packet@, 20) as u16)
            && !return_id_accepted(selection, selection_set, packet@[22])
            ==> (selection matches ReturnSelection::Single(q) && is_return_mismatch(r, q as int, packet@[22] as int)),
        spec_require_version(header, 0, 1, 0) is Ok && packet@.len() == M_SERIES_REDUCED_PACKET_LEN
            && status_ok(be_u16_at(packet@, 20) as u16)
            && return_id_accepted(selection, selection_set, packet@[22]) ==> (r matches Ok(m) && {
                &&& m.status == be_u16_at(packet@, 20)
                &&& m.return_id == packet@[22]
                &&& m.returns_per_firing == 1
                &&& m.firings@.len() == M_SERIES_FIRINGS_PER_PACKET
                &&& forall|i: int| 0 <= i < M_SERIES_FIRINGS_PER_PACKET ==> reduced_firing_at(
                    #[trigger] m.firings@[i], packet@, REDUCED_PREFIX_LEN + M_SERIES_REDUCED_FIRING_LEN * i)
            }),
{
    match header.require_version(0, 1, 0) {
        Ok(()) => {},
        Err(e) => return Err(e),
    }
    match ensure_packet_len(packet, M_SERIES_REDUCED_PACKET_LEN) {
        Ok(()) => {},
        Err(e) => return Err(e),
    }
    let status = read_be_u16(packet, HEADER_LEN);
    match validate_status(status) {
        Ok(()) => {},
        Err(e) => return Err(e),
    }
    let return_id = packet[HEADER_LEN + 2];
    match check_return_id(selection, selection_set, return_id) {
        Ok(()) => {},
        Err(e) => return Err(e),
    }
    let mut firings: Vec<MSeriesFiring> = Vec::new();
    let mut i: usize = 0;
    while i < M_SERIES_FIRINGS_PER_PACKET
        invariant
            packet@.len() == M_SERIES_REDUCED_PACKET_LEN,
            i <= M_SERIES_FIRINGS_PER_PACKET,
            firings@.len() == i,
            forall|k: int| 0 <= k < i ==> reduced_firing_at(#[trigger] firings@[k], packet@, REDUCED_PREFIX_LEN + M_SERIES_REDUCED_FIRING_LEN * k),
        decreases M_SERIES_FIRINGS_PER_PACKET - i,
    {
        let f = decode_reduced_firing(packet, REDUCED_PREFIX_LEN + M_SERIES_REDUCED_FIRING_LEN * i);
        firings.push(f);
        i = i + 1;
    }
    Ok(ReducedPacket { status, return_id, returns_per_firing: 1, firings })
}

/// Returns per firing of an M1 packet: all three when the return id is 3.
pub open spec fn m1_returns(return_id: u8) -> int {
    if return_id == 3 {
        3
    } else {
        1
    }
}

/// Bytes of one firing of an M1 packet.
pub open spec fn m1_firing_len(return_id: u8) -> int {
    if return_id == 3 {
        20
    } else {
        12
    }
}

/// Decodes an M1 (0x06) packet: version 0.1.0, at least 24 bytes, a
/// clear status, then 50 firings whose size depends on whether all three
/// returns are sent (return id 3); a single-return packet must carry an
/// accepted return id.
pub fn decode_m1(
    packet: &[u8],
    header: PacketHeader,
    selection: ReturnSelection,
    selection_set: bool,
) -> (r: Result<ReducedPacket>)
    ensures
        spec_require_version(header, 0, 1, 0) is Err ==> (r matches Err(e) && spec_require_version(header, 0, 1, 0) == Err::<(), QuanergyError>(e)),
        spec_require_version(header, 0, 1, 0) is Ok && packet@.len() < REDUCED_PREFIX_LEN
            ==> is_too_short(r, packet@.len() as int, REDUCED_PREFIX_LEN as int),
        spec_require_version(header, 0, 1, 0) is Ok && packet@.len() >= REDUCED_PREFIX_LEN
            && !status_ok(be_u16_at(packet@, 20) as u16)
            ==> is_status_error(r, be_u16_at(packet@, 20)),
        spec_require_version(header, 0, 1, 0) is Ok && packet@.len() >= REDUCED_PREFIX_LEN
            && status_ok(be_u16_at(packet@, 20) as u16)
            && packet@.len() != REDUCED_PREFIX_LEN + 50 * m1_firing_len(packet@[22])
            ==> is_size_mismatch(r, REDUCED_PREFIX_LEN + 50 * m1_firing_len(packet@[22]), packet@.len() as int),
        spec_require_version(header, 0, 1, 0) is Ok && packet@.len() >= REDUCED_PREFIX_LEN
            && status_ok(be_u16_at(packet@, 20) as u16)
            && packet@.len() == REDUCED_PREFIX_LEN + 50 * m1_firing_len(packet@[22])
            && m1_returns(packet@[22]) == 1
            && !return_id_accepted(selection, selection_set, packet@[22])
            ==> (selection matches ReturnSelection::Single(q) && is_return_mismatch(r, q as int, packet@[22] as int)),
        spec_require_version(header, 0, 1, 0) is Ok && packet@.len() >= REDUCED_PREFIX_LEN
            && status_ok(be_u16_at(packet@, 20) as u16)
            && packet@.len() == REDUCED_PREFIX_LEN + 50 * m1_firing_len(packet@[22])
            && (m1_returns(packet@[22]) == 3 || return_id_accepted(selection, selection_set, packet@[22]))
            ==> (r matches Ok(m) && {
                &&& m.status == be_u16_at(packet@, 20)
                &&& m.return_id == packet@[22]
                &&& m.returns_per_firing == m1_returns(packet@[22])
                &&& m.firings@.len() == M_SERIES_FIRINGS_PER_PACKET
                &&& forall|i: int| 0 <= i < M_SERIES_FIRINGS_PER_PACKET ==> m1_firing_at(
                    #[trigger] m.firings@[i], packet@, REDUCED_PREFIX_LEN + m1_firing_len(packet@[22]) * i,
                    m1_returns(packet@[22]))
            }),
{
    match header.require_version(0, 1, 0) {
        Ok(()) => {},
        Err(e) => return Err(e),
    }
    if packet.len() < REDUCED_PREFIX_LEN {
        return Err(QuanergyError::PacketTooShort { actual: packet.len(), minimum: REDUCED_PREFIX_LEN });
    }
    let status = read_be_u16(packet, HEADER_LEN);
    match validate_status(status) {
        Ok(()) => {},
        Err(e) => return Err(e),
    }
    let return_id = packet[HEADER_LEN + 2];
    let return_count: usize = if return_id == 3 { 3 } else { 1 };
    let firing_len: usize = if return_count == 3 { 20 } else { 12 };
    match ensure_packet_len(packet, REDUCED_PREFIX_LEN + M_SERIES_FIRINGS_PER_PACKET * firing_len) {
        Ok(()) => {},
        Err(e) => return Err(e),
    }
    if return_count == 1 {
        match check_return_id(selection, selection_set, return_id) {
            Ok(()) => {},
            Err(e) => return Err(e),
        }
    }
    let mut firings: Vec<MSeriesFiring> = Vec::new();
    let mut i: usize = 0;
    while i < M_SERIES_FIRINGS_PER_PACKET
        invariant
            return_count == 1 || return_count == 3,
            firing_len == 4 + 5 * return_count + (4 - return_count),
            packet@.len() == REDUCED_PREFIX_LEN + M_SERIES_FIRINGS_PER_PACKET * firing_len,
            i <= M_SERIES_FIRINGS_PER_PACKET,
            firings@.len() == i,
            forall|k: int| 0 <= k < i ==> m1_firing_at(#[trigger] firings@[k], packet@, REDUCED_PREFIX_LEN + firing_len * k, return_count as int),
        decreases M_SERIES_FIRINGS_PER_PACKET - i,
    {
        assert(firing_len * i + firing_len <= firing_len * 50) by (nonlinear_arith)
            requires
                i < 50;
        let f = decode_m1_firing(packet, REDUCED_PREFIX_LEN + firing_len * i, return_count);
        firings.push(f);
        i = i + 1;
    }
    Ok(ReducedPacket { status, return_id, returns_per_firing: return_count, firings })
}

/// One point of an HVDIR list packet, in sensor units: angles in 1e-4
/// radians, range in micrometres.
#[derive(Debug, Copy, Clone, PartialEq, Eq, Structural)]
pub struct HvdirRecord {
    pub horizontal: i16,
    pub vertical: i16,
    pub range: u32,
    pub intensity: u16,
}

/// The point of an HVDIR list packet at byte offset `o`.
pub open spec fn hvdir_record_at(r: HvdirRecord, p: Seq<u8>, o: int) -> bool {
    &&& r.horizontal == be_i16_at(p, o)
    &&& r.vertical == be_i16_at(p, o + 2)
    &&& r.range == be_u32_at(p, o + 4)
    &&& r.intensity == be_u16_at(p, o + 8)
}

/// The integer content of an HVDIR list (0x01) packet.
#[derive(Debug, Clone)]
pub struct HvdirPacket {
    pub sequence: u32,
    pub stamp_micros: u64,
    pub points: Vec<HvdirRecord>,
}

/// Decodes an HVDIR list (0x01) packet: version 0.1.0, a 16-byte prefix
/// (sequence, status, point count, reserved), then exactly as many 12-byte
/// points as announced.
pub fn decode_hvdir_list(packet: &[u8], header: PacketHeader) -> (r: Result<HvdirPacket>)
    ensures
        spec_require_version(header, 0, 1, 0) is Err ==> (r matches Err(e) && spec_require_version(header, 0, 1, 0) == Err::<(), QuanergyError>(e)),
        spec_require_version(header, 0, 1, 0) is Ok && packet@.len() < HVDIR_PREFIX_LEN
            ==> is_too_short(r, packet@.len() as int, HVDIR_PREFIX_LEN as int),
        spec_require_version(header, 0, 1, 0) is Ok && packet@.len() >= HVDIR_PREFIX_LEN
            && packet@.len() != HVDIR_PREFIX_LEN + HVDIR_POINT_LEN * be_u32_at(packet@, 28)
            ==> (r matches Err(QuanergyError::PacketSizeMismatch { expected, actual })
                && expected == (HVDIR_PREFIX_LEN + HVDIR_POINT_LEN * be_u32_at(packet@, 28)) as usize
                && actual == packet@.len()),
        spec_require_version(header, 0, 1, 0) is Ok && packet@.len() >= HVDIR_PREFIX_LEN
            && packet@.len() == HVDIR_PREFIX_LEN + HVDIR_POINT_LEN * be_u32_at(packet@, 28)
            ==> (r matches Ok(m) && {
                &&& m.sequence == be_u32_at(packet@, 20)
                &&& m.stamp_micros == spec_timestamp_micros(header)
                &&& m.points@.len() == be_u32_at(packet@, 28)
                &&& forall|i: int| 0 <= i < m.points@.len() ==> hvdir_record_at(
                    #[trigger] m.points@[i], packet@, HVDIR_PREFIX_LEN + HVDIR_POINT_LEN * i)
            }),
{
    match header.require_version(0, 1, 0) {
        Ok(()) => {},
        Err(e) => return Err(e),
    }
    if packet.len() < HVDIR_PREFIX_LEN {
        return Err(QuanergyError::PacketTooShort { actual: packet.len(), minimum: HVDIR_PREFIX_LEN });
    }
    let sequence = read_be_u32(packet, HEADER_LEN);
    let point_count = read_be_u32(packet, HEADER_LEN + 8);
    let expected: u64 = HVDIR_PREFIX_LEN as u64 + (point_count as u64) * (HVDIR_POINT_LEN as u64);
    if expected != packet.len() as u64 {
        return Err(QuanergyError::PacketSizeMismatch { expected: #[verifier::truncate] (expected as usize), actual: packet.len() });
    }
    let count = point_count as usize;
    let mut points: Vec<HvdirRecord> = Vec::new();
    let mut i: usize = 0;
    while i < count
        invariant
            count == point_count,
            packet.len() == HVDIR_PREFIX_LEN + HVDIR_POINT_LEN * count,
            i <= count,
            points@.len() == i,
            forall|k: int| 0 <= k < i ==> hvdir_record_at(#[trigger] points@[k], packet@, HVDIR_PREFIX_LEN + HVDIR_POINT_LEN * k),
        decreases count - i,
    {
        let o = HVDIR_PREFIX_LEN + HVDIR_POINT_LEN * i;
        let rec = HvdirRecord {
            horizontal: read_be_i16(packet, o),
            vertical: read_be_i16(packet, o + 2),
            range: read_be_u32(packet, o + 4),
            intensity: read_be_u16(packet, o + 8),
        };
        points.push(rec);
        i = i + 1;
    }
    Ok(HvdirPacket { sequence, stamp_micros: header.timestamp_micros(), points })
}

/// A packet body decoded by type.
#[derive(Debug, Clone)]
pub enum DecodedPacket {
    MSeries(MSeriesPacket),
    HvdirList(HvdirPacket),
    MSeriesReduced(ReducedPacket),
    M1(ReducedPacket),
}

/// Parses the header of `packet` and decodes its body according to its
/// packet type; types other than 0x00, 0x01, 0x04 and 0x06 are refused.
pub fn decode_packet(packet: &[u8], selection: ReturnSelection, selection_set: bool) -> (r: Result<(PacketHeader, DecodedPacket)>)
    ensures
        spec_parse_header(packet@) is Err ==> (r matches Err(e) && spec_parse_header(packet@) == Err::<PacketHeader, QuanergyError>(e)),
        spec_parse_header(packet@) matches Ok(h) ==> {
            &&& (r matches Ok((h2, d)) ==> h2 == h && match d {
                DecodedPacket::MSeries(_) => h.packet_type == PACKET_TYPE_M_SERIES,
                DecodedPacket::HvdirList(_) => h.packet_type == PACKET_TYPE_HVDIR_LIST,
                DecodedPacket::MSeriesReduced(_) => h.packet_type == PACKET_TYPE_M_SERIES_REDUCED,
                DecodedPacket::M1(_) => h.packet_type == PACKET_TYPE_M1,
            })
            &&& (h.packet_type != PACKET_TYPE_M_SERIES && h.packet_type != PACKET_TYPE_HVDIR_LIST
                && h.packet_type != PACKET_TYPE_M_SERIES_REDUCED && h.packet_type != PACKET_TYPE_M1
                ==> (r matches Err(QuanergyError::UnsupportedPacketType(t)) && t == h.packet_type))
        },
{
    let header = match PacketHeader::parse(packet) {
        Ok(h) => h,
        Err(e) => return Err(e),
    };
    if header.packet_type == PACKET_TYPE_M_SERIES {
        match decode_m_series(packet, header) {
            Ok(m) => Ok((header, DecodedPacket::MSeries(m))),
            Err(e) => Err(e),
        }
    } else if header.packet_type == PACKET_TYPE_HVDIR_LIST {
        match decode_hvdir_list(packet, header) {
            Ok(m) => Ok((header, DecodedPacket::HvdirList(m))),
            Err(e) => Err(e),
        }
    } else if header.packet_type == PACKET_TYPE_M_SERIES_REDUCED {
        match decode_m_series_reduced(packet, header, selection, selection_set) {
            Ok(m) => Ok((header, DecodedPacket::MSeriesReduced(m))),
            Err(e) => Err(e),
        }
    } else if header.packet_type == PACKET_TYPE_M1 {
        match decode_m1(packet, header, selection, selection_set) {
            Ok(m) => Ok((header, DecodedPacket::M1(m))),
            Err(e) => Err(e),
        }
    } else {
        Err(QuanergyError::UnsupportedPacketType(header.packet_type))
    }
}

/// Microseconds of an M-Series packet trailer timestamp: API versions 1 to
/// 3 count the sub-second part in units of 100 ns, others in nanoseconds.
pub open spec fn spec_m_series_stamp(seconds: u32, nanoseconds: u32, api_version: u16) -> int {
    if api_version <= 3 && api_version != 0 {
        seconds * 1_000_000 + nanoseconds / 100
    } else {
        seconds * 1_000_000 + nanoseconds / 1_000
    }
}

/// The timestamp of an M-Series packet in microseconds.
pub fn m_series_stamp_micros(seconds: u32, nanoseconds: u32, api_version: u16) -> (r: u64)
    ensures
        r == spec_m_series_stamp(seconds, nanoseconds, api_version),
{
    if api_version <= 3 && api_version != 0 {
        seconds as u64 * 1_000_000 + nanoseconds as u64 / 100
    } else {
        seconds as u64 * 1_000_000 + nanoseconds as u64 / 1_000
    }
}

/// The returns of one laser that an all-returns cloud keeps, in order: the
/// first and second returns when present and different from the third,
/// and the third when present (a distance of zero means no return).
pub open spec fn spec_all_returns(d0: u32, d1: u32, d2: u32) -> Seq<usize> {
    (if d0 != 0 && d0 != d2 { seq![0usize] } else { Seq::<usize>::empty() })
        + (if d1 != 0 && d1 != d2 { seq![1usize] } else { Seq::<usize>::empty() })
        + (if d2 != 0 { seq![2usize] } else { Seq::<usize>::empty() })
}

/// The returns of one laser that an all-returns cloud keeps.
pub fn all_returns(d0: u32, d1: u32, d2: u32) -> (r: Vec<usize>)
    ensures
        r@ == spec_all_returns(d0, d1, d2),
{
    let mut r: Vec<usize> = Vec::new();
    if d0 != 0 && d0 != d2 {
        r.push(0);
    }
    if d1 != 0 && d1 != d2 {
        r.push(1);
    }
    if d2 != 0 {
        r.push(2);
    }
    assert(r@ =~= spec_all_returns(d0, d1, d2));
    r
}

/// The scan direction after a packet whose first, middle and last firing
/// positions are given: increasing positions turn it forward (1),
/// decreasing ones backward (-1); otherwise it stays as it was.
pub open spec fn spec_sweep_direction(start: u16, mid: u16, end: u16, current: i32) -> i32 {
    if start < mid && mid < end {
        1
    } else if start > mid && mid > end {
        -1i32
    } else {
        current
    }
}

/// The scan direction after a packet with these firing positions.
pub fn sweep_direction(start: u16, mid: u16, end: u16, current: i32) -> (r: i32)
    ensures
        r == spec_sweep_direction(start, mid, end, current),
{
    let start = start as i32;
    let mid = mid as i32;
    let end = end as i32;
    if start - mid < 0 && mid - end < 0 {
        1
    } else if start - mid > 0 && mid - end > 0 {
        -1
    } else {
        current
    }
}

/// The timestamps of the current and the previous packet, from which the
/// time of a completed cloud is interpolated.
#[derive(Debug, Copy, Clone, PartialEq, Eq, Structural)]
pub struct PacketClock {
    pub previous_packet_stamp_micros: u64,
    pub current_packet_stamp_micros: u64,
}

impl PacketClock {
    /// A clock that has seen no packet.
    pub open spec fn spec_new() -> PacketClock {
        PacketClock { previous_packet_stamp_micros: 0, current_packet_stamp_micros: 0 }
    }

    /// The clock after a packet at `stamp_micros`; the first packet counts
    /// as its own predecessor.
    pub open spec fn spec_register(self, stamp_micros: u64) -> PacketClock {
        PacketClock {
            previous_packet_stamp_micros: if self.current_packet_stamp_micros == 0 {
                stamp_micros
            } else {
                self.current_packet_stamp_micros
            },
            current_packet_stamp_micros: stamp_micros,
        }
    }

    /// A clock that has seen no packet.
    pub fn new() -> (r: Self)
        ensures
            r.previous_packet_stamp_micros == 0,
            r.current_packet_stamp_micros == 0,
    {
        PacketClock { previous_packet_stamp_micros: 0, current_packet_stamp_micros: 0 }
    }

    /// Registers the timestamp of a new packet. The first packet counts as
    /// its own predecessor.
    pub fn register(&mut self, stamp_micros: u64)
        ensures
            final(self).current_packet_stamp_micros == stamp_micros,
            final(self).previous_packet_stamp_micros == if old(self).current_packet_stamp_micros == 0 {
                stamp_micros
            } else {
                old(self).current_packet_stamp_micros
            },
    {
        self.previous_packet_stamp_micros = if self.current_packet_stamp_micros == 0 {
            stamp_micros
        } else {
            self.current_packet_stamp_micros
        };
        self.current_packet_stamp_micros = stamp_micros;
    }

    /// The time of a cloud completed after `firing_number` firings of the
    /// current packet: the previous packet's time plus that share of the
    /// time between the two packets.
    pub fn frame_stamp(&self, firing_number: usize) -> (r: u64)
        requires
            self.previous_packet_stamp_micros <= self.current_packet_stamp_micros,
            (self.current_packet_stamp_micros - self.previous_packet_stamp_micros) * firing_number <= u64::MAX,
            self.previous_packet_stamp_micros + (self.current_packet_stamp_micros - self.previous_packet_stamp_micros) * firing_number / 50 <= u64::MAX,
        ensures
            r == self.previous_packet_stamp_micros + (self.current_packet_stamp_micros
                - self.previous_packet_stamp_micros) * firing_number / 50,
    {
        let elapsed = self.current_packet_stamp_micros - self.previous_packet_stamp_micros;
        let share = elapsed * firing_number as u64 / M_SERIES_FIRINGS_PER_PACKET as u64;
        self.previous_packet_stamp_micros + share
    }
}

/// Ring-by-ring layout, read by row and column: in an organized cloud of
/// `width` columns and `height` rings made from a cloud stored column by
/// column, the point at row `i` and column `c` is the column's ring
/// `height - 1 - i`, so the rows run from the highest ring down to ring 0.
pub proof fn lemma_organized_rows<T>(stored: Seq<T>, organized: Seq<T>, width: int, height: int, i: int, c: int)
    requires
        width > 0,
        height > 0,
        stored.len() == width * height,
        organized.len() == width * height,
        forall|k: int| 0 <= k < organized.len() ==> #[trigger] organized[k] == stored[organized_source(k, width, height)],
        0 <= i < height,
        0 <= c < width,
    ensures
        0 <= i * width + c < width * height,
        0 <= c * height + (height - 1 - i) < width * height,
        organized[i * width + c] == stored[c * height + (height - 1 - i)],
{
    let k = i * width + c;
    assert(0 <= k < width * height) by (nonlinear_arith)
        requires
            0 <= i < height,
            0 <= c < width,
            k == i * width + c;
    assert(k == width * i + c) by (nonlinear_arith)
        requires
            k == i * width + c;
    vstd::arithmetic::div_mod::lemma_fundamental_div_mod_converse(k, width, i, c);
    assert(0 <= c * height + (height - 1 - i) < width * height) by (nonlinear_arith)
        requires
            0 <= i < height,
            0 <= c < width;
    assert(organized[k] == stored[organized_source(k, width, height)]);
}

/// A cloud completed within a packet (after at most its 50 firings) is
/// timed between the previous packet and the current one.
pub proof fn lemma_frame_stamp_within_packets(clock: PacketClock, firing_number: int)
    requires
        clock.previous_packet_stamp_micros <= clock.current_packet_stamp_micros,
        0 <= firing_number <= M_SERIES_FIRINGS_PER_PACKET,
    ensures
        clock.previous_packet_stamp_micros <= clock.previous_packet_stamp_micros + (clock.current_packet_stamp_micros
            - clock.previous_packet_stamp_micros) * firing_number / 50 <= clock.current_packet_stamp_micros,
{
    let gap: int = clock.current_packet_stamp_micros - clock.previous_packet_stamp_micros;
    assert(0 <= gap * firing_number / 50 <= gap) by (nonlinear_arith)
        requires
            gap >= 0,
            0 <= firing_number <= 50;
}

/// Index of the point that lands at position `k` when a column-major
/// cloud of `height` rings is laid out ring by ring, top ring first.
pub open spec fn organized_source(k: int, width: int, height: int) -> int {
    (k % width) * height + (height - 1 - k / width)
}

proof fn lemma_organized_source_in_bounds(k: int, width: int, height: int)
    requires
        width > 0,
        height > 0,
        0 <= k < width * height,
    ensures
        0 <= organized_source(k, width, height) < width * height,
        0 <= k / width < height,
        0 <= k % width < width,
        (k % width) * height + height <= width * height,
{
    let c = k % width;
    let r = k / width;
    assert(k == width * r + c && 0 <= c < width) by {
        vstd::arithmetic::div_mod::lemma_fundamental_div_mod(k, width);
    }
    assert(0 <= r < height) by (nonlinear_arith)
        requires
            k == width * r + c,
            0 <= c < width,
            0 <= k < width * height,
            width > 0;
    assert(0 <= c * height + (height - 1 - r) < width * height && c * height + height <= width * height) by (nonlinear_arith)
        requires
            0 <= c < width,
            0 <= r < height,
            width > 0;
}

/// Laying a cloud out ring by ring keeps every point exactly once: the
/// positions of a `width` by `height` cloud take their points from
/// distinct places of the original order, all within it.
pub proof fn lemma_organize_keeps_every_point(width: int, height: int)
    requires
        width > 0,
        height > 0,
    ensures
        forall|k: int| 0 <= k < width * height ==> 0 <= #[trigger] organized_source(k, width, height) < width * height,
        forall|k1: int, k2: int|
            0 <= k1 < width * height && 0 <= k2 < width * height && k1 != k2 ==> #[trigger] organized_source(k1, width, height)
                != #[trigger] organized_source(k2, width, height),
{
    assert forall|k: int| 0 <= k < width * height implies 0 <= #[trigger] organized_source(k, width, height) < width
        * height by {
        lemma_organized_source_in_bounds(k, width, height);
    }
    assert forall|k1: int, k2: int|
        0 <= k1 < width * height && 0 <= k2 < width * height && k1 != k2 implies #[trigger] organized_source(
        k1,
        width,
        height,
    ) != #[trigger] organized_source(k2, width, height) by {
        lemma_organized_source_in_bounds(k1, width, height);
        lemma_organized_source_in_bounds(k2, width, height);
        let (c1, r1) = (k1 % width, k1 / width);
        let (c2, r2) = (k2 % width, k2 / width);
        vstd::arithmetic::div_mod::lemma_fundamental_div_mod(k1, width);
        vstd::arithmetic::div_mod::lemma_fundamental_div_mod(k2, width);
        if organized_source(k1, width, height) == organized_source(k2, width, height) {
            let s = organized_source(k1, width, height);
            vstd::arithmetic::div_mod::lemma_fundamental_div_mod_converse(s, height, c1, height - 1 - r1);
            vstd::arithmetic::div_mod::lemma_fundamental_div_mod_converse(s, height, c2, height - 1 - r2);
            assert(k1 == width * r1 + c1);
            assert(k2 == width * r2 + c2);
        }
    }
}

/// Lays an M-Series cloud, stored firing by firing (columns of `height`
/// rings), out ring by ring with the top ring first; refused when the
/// points do not fill whole columns.
pub fn organize_cloud<T: Copy>(frame: Frame<T>, height: usize) -> (r: Result<Frame<T>>)
    ensures
        (height == 0 || (frame.points@.len() as int) % (height as int) != 0) ==> r matches Err(QuanergyError::Config(_)),
        (height > 0 && (frame.points@.len() as int) % (height as int) == 0) ==> (r matches Ok(f) && {
            &&& f.height == height
            &&& f.width == (frame.points@.len() as int) / (height as int)
            &&& f.points@.len() == frame.points@.len()
            &&& forall|k: int| 0 <= k < f.points@.len() ==> #[trigger] f.points@[k]
                == frame.points@[organized_source(k, f.width as int, height as int)]
            &&& f.stamp_micros == frame.stamp_micros
            &&& f.sequence == frame.sequence
            &&& f.frame_id == frame.frame_id
            &&& f.is_dense == frame.is_dense
        }),
{
    let len = frame.points.len();
    if height == 0 || len % height != 0 {
        return Err(QuanergyError::Config(
            String::from_str("cannot organize cloud when size is not divisible by height"),
        ));
    }
    let width = len / height;
    assert(len == width * height) by {
        vstd::arithmetic::div_mod::lemma_fundamental_div_mod(len as int, height as int);
        vstd::arithmetic::mul::lemma_mul_is_commutative(width as int, height as int);
    }
    let mut frame = frame;
    if height != 1 {
        let mut points: Vec<T> = Vec::new();
        let mut k: usize = 0;
        while k < len
            invariant
                len == frame.points@.len(),
                len == width * height,
                width == len / height,
                height > 1,
                k <= len,
                points@.len() == k,
                forall|j: int| 0 <= j < k ==> #[trigger] points@[j] == frame.points@[organized_source(j, width as int, height as int)],
            decreases len - k,
        {
            proof {
                lemma_organized_source_in_bounds(k as int, width as int, height as int);
            }
            let source = (k % width) * height + (height - 1 - k / width);
            points.push(frame.points[source]);
            k = k + 1;
        }
        frame.points = points;
    } else {
        assert forall|k: int| 0 <= k < frame.points@.len() implies organized_source(k, width as int, 1) == k by {
            vstd::arithmetic::div_mod::lemma_small_mod(k as nat, width as nat);
            vstd::arithmetic::div_mod::lemma_basic_div(k, width as int);
        }
    }
    frame.height = height;
    frame.width = width;
    Ok(frame)
}

/// How many packets a pipeline has seen, how many frames it produced, how
/// many packets it could not parse and how many it dropped.
#[derive(Debug, Clone, Copy, PartialEq, Eq, Structural)]
pub struct PipelineCounters {
    pub packets_seen: u64,
    pub frames_emitted: u64,
    pub bad_packets: u64,
    pub dropped_packets: u64,
}

impl Default for PipelineCounters {
    fn default() -> (r: Self)
        ensures
            r == (PipelineCounters { packets_seen: 0, frames_emitted: 0, bad_packets: 0, dropped_packets: 0 }),
    {
        PipelineCounters { packets_seen: 0, frames_emitted: 0, bad_packets: 0, dropped_packets: 0 }
    }
}

impl PipelineCounters {
    /// The counters after a packet whose parsing succeeded (`parsed_ok`)
    /// or failed, in strict mode or not.
    pub open spec fn spec_after_packet(self, parsed_ok: bool, strict: bool) -> PipelineCounters {
        PipelineCounters {
            packets_seen: (self.packets_seen + 1) as u64,
            bad_packets: if !parsed_ok && !strict {
                (self.bad_packets + 1) as u64
            } else {
                self.bad_packets
            },
            ..self
        }
    }

    /// The counters after one more frame handed out.
    pub open spec fn spec_after_frame(self) -> PipelineCounters {
        PipelineCounters { frames_emitted: (self.frames_emitted + 1) as u64, ..self }
    }

    /// The counters after `n` more frames handed out.
    pub open spec fn spec_after_frames(self, n: nat) -> PipelineCounters
        decreases n,
    {
        if n == 0 {
            self
        } else {
            self.spec_after_frames((n - 1) as nat).spec_after_frame()
        }
    }

    /// Accounts for one packet and what parsing it gave. A parse error is
    /// passed on in strict mode; otherwise the packet counts as bad and
    /// yields nothing.
    pub fn on_packet<T>(&mut self, parsed: Result<T>, strict: bool) -> (r: Result<Option<T>>)
        requires
            old(self).packets_seen < u64::MAX,
            old(self).bad_packets < u64::MAX,
        ensures
            final(self).packets_seen == old(self).packets_seen + 1,
            final(self).frames_emitted == old(self).frames_emitted,
            final(self).dropped_packets == old(self).dropped_packets,
            *final(self) == old(self).spec_after_packet(parsed is Ok, strict),
            match parsed {
                Ok(t) => r == Ok::<Option<T>, QuanergyError>(Some(t)) && final(self).bad_packets == old(self).bad_packets,
                Err(e) => if strict {
                    r == Err::<Option<T>, QuanergyError>(e) && final(self).bad_packets == old(self).bad_packets
                } else {
                    r == Ok::<Option<T>, QuanergyError>(None) && final(self).bad_packets == old(self).bad_packets + 1
                },
            },
    {
        self.packets_seen = self.packets_seen + 1;
        match parsed {
            Ok(t) => Ok(Some(t)),
            Err(e) => {
                if strict {
                    Err(e)
                } else {
                    self.bad_packets = self.bad_packets + 1;
                    Ok(None)
                }
            },
        }
    }

    /// Accounts for one frame handed out.
    pub fn on_frame_emitted(&mut self)
        requires
            old(self).frames_emitted < u64::MAX,
        ensures
            *final(self) == (PipelineCounters { frames_emitted: (old(self).frames_emitted + 1) as u64, ..*old(self) }),
            *final(self) == old(self).spec_after_frame(),
    {
        self.frames_emitted = self.frames_emitted + 1;
    }
}

proof fn lemma_after_frames(c: PipelineCounters, n: nat)
    requires
        c.frames_emitted + n <= u64::MAX,
    ensures
        c.spec_after_frames(n) == (PipelineCounters { frames_emitted: (c.frames_emitted + n) as u64, ..c }),
    decreases n,
{
    if n > 0 {
        lemma_after_frames(c, (n - 1) as nat);
    }
}

/// What one packet does to the counters, once its frames are handed out:
/// the packet is counted once; a packet that could not be parsed is
/// counted bad unless strict mode passes its error on, and then yields no
/// frame; each frame handed out is counted once; no drop is counted.
pub proof fn lemma_one_packet_accounting(c0: PipelineCounters, parsed_ok: bool, strict: bool, frames: nat)
    requires
        c0.packets_seen < u64::MAX,
        c0.bad_packets < u64::MAX,
        c0.frames_emitted + frames <= u64::MAX,
        parsed_ok || frames == 0,
    ensures
        ({
            let c = c0.spec_after_packet(parsed_ok, strict).spec_after_frames(frames);
            &&& c.packets_seen == c0.packets_seen + 1
            &&& c.frames_emitted == c0.frames_emitted + frames
            &&& c.bad_packets == if !parsed_ok && !strict { c0.bad_packets + 1 } else { c0.bad_packets as int }
            &&& c.dropped_packets == c0.dropped_packets
        }),
{
    lemma_after_frames(c0.spec_after_packet(parsed_ok, strict), frames);
}

/// The integer state of assembling M-Series firings into clouds: size
/// limits, cloud numbering, scan direction, packet times and the cloud
/// being filled. When a sweep is complete is decided from firing angles by
/// the caller; what then happens to the cloud is decided here.
pub struct CloudAssembler<T> {
    frame_id: String,
    min_cloud_size: usize,
    max_cloud_size: usize,
    cloud_counter: u64,
    direction: i32,
    firing_number: usize,
    clock: PacketClock,
    current: Frame<T>,
}

impl<T> CloudAssembler<T> {
    /// The name given to the clouds.
    pub closed spec fn name(&self) -> Seq<char> {
        self.frame_id@
    }

    /// The fewest points a cloud must exceed to be handed out.
    pub closed spec fn min_size(&self) -> int {
        self.min_cloud_size as int
    }

    /// The most points a cloud takes.
    pub closed spec fn max_size(&self) -> int {
        self.max_cloud_size as int
    }

    /// The number of clouds handed out so far.
    pub closed spec fn clouds_out(&self) -> int {
        self.cloud_counter as int
    }

    /// The scan direction: 1 forward, -1 backward.
    pub closed spec fn sweep(&self) -> i32 {
        self.direction
    }

    /// Firings added since the current packet was registered.
    pub closed spec fn firings(&self) -> int {
        self.firing_number as int
    }

    /// The times of the current and previous packet.
    pub closed spec fn packet_clock(&self) -> PacketClock {
        self.clock
    }

    /// The points of the cloud being filled.
    pub closed spec fn pending(&self) -> Seq<T> {
        self.current.points@
    }

    /// Whether the cloud being filled has only valid distances so far.
    pub closed spec fn pending_dense(&self) -> bool {
        self.current.is_dense
    }

    /// The assembler's own invariant: the limits are ordered and at least
    /// one, and the cloud being filled carries the assembler's name.
    pub closed spec fn wf(&self) -> bool {
        &&& 1 <= self.min_cloud_size <= self.max_cloud_size
        &&& self.current.frame_id@ == self.frame_id@
    }

    /// The time a cloud completed now is given: the previous packet's time
    /// plus the share of the gap between the packets that the firings so
    /// far make up.
    pub open spec fn spec_stamp(&self) -> int {
        self.packet_clock().previous_packet_stamp_micros + (self.packet_clock().current_packet_stamp_micros
            - self.packet_clock().previous_packet_stamp_micros) * self.firings() / 50
    }

    /// Whether that time can be computed: packet times do not go back and
    /// nothing overflows.
    pub open spec fn spec_stamp_ok(&self) -> bool {
        &&& self.packet_clock().previous_packet_stamp_micros <= self.packet_clock().current_packet_stamp_micros
        &&& (self.packet_clock().current_packet_stamp_micros - self.packet_clock().previous_packet_stamp_micros)
            * self.firings() <= u64::MAX
        &&& self.spec_stamp() <= u64::MAX
    }

    /// An assembler for clouds named `frame_id`, keeping clouds of more
    /// than `min_cloud_size` (at least 1) and at most `max_cloud_size` (at
    /// least the minimum) points.
    pub fn new(frame_id: &str, min_cloud_size: usize, max_cloud_size: usize) -> (r: Self)
        ensures
            r.wf(),
            r.name() == frame_id@,
            r.min_size() == if min_cloud_size > 1 { min_cloud_size as int } else { 1 },
            r.max_size() == if max_cloud_size > r.min_size() { max_cloud_size as int } else { r.min_size() },
            r.clouds_out() == 0,
            r.sweep() == 1,
            r.firings() == 0,
            r.packet_clock() == PacketClock::spec_new(),
            r.pending().len() == 0,
            r.pending_dense(),
    {
        let min = if min_cloud_size > 1 { min_cloud_size } else { 1 };
        let max = if max_cloud_size > min { max_cloud_size } else { min };
        CloudAssembler {
            frame_id: String::from_str(frame_id),
            min_cloud_size: min,
            max_cloud_size: max,
            cloud_counter: 0,
            direction: 1,
            firing_number: 0,
            clock: PacketClock::new(),
            current: Frame::new(frame_id),
        }
    }

    /// The current scan direction.
    pub fn direction(&self) -> (r: i32)
        ensures
            r == self.sweep(),
    {
        self.direction
    }

    /// The number of points in the cloud being filled.
    pub fn pending_len(&self) -> (r: usize)
        ensures
            r == self.pending().len(),
    {
        self.current.points.len()
    }

    /// The number of firings of the current packet added so far.
    pub fn firing_count(&self) -> (r: usize)
        ensures
            r == self.firings(),
    {
        self.firing_number
    }

    /// The number of clouds handed out so far.
    pub fn clouds_emitted(&self) -> (r: u64)
        ensures
            r == self.clouds_out(),
    {
        self.cloud_counter
    }

    /// The smallest and largest cloud sizes, as settled.
    pub fn size_limits(&self) -> (r: (usize, usize))
        ensures
            r.0 == self.min_size(),
            r.1 == self.max_size(),
    {
        (self.min_cloud_size, self.max_cloud_size)
    }

    /// Whether the cloud being filled has reached its size limit.
    pub fn cloud_full(&self) -> (r: bool)
        ensures
            r == (self.pending().len() >= self.max_size()),
    {
        self.current.points.len() >= self.max_cloud_size
    }

    /// Whether a cloud completed now can be given its time.
    pub fn stamp_ok(&self) -> (r: bool)
        ensures
            r == self.spec_stamp_ok(),
    {
        let prev = self.clock.previous_packet_stamp_micros;
        let cur = self.clock.current_packet_stamp_micros;
        if prev > cur {
            return false;
        }
        let gap = (cur - prev) as u128;
        let count = self.firing_number as u128;
        assert(gap * count <= 0xffff_ffff_ffff_ffffu128 * 0xffff_ffff_ffff_ffffu128) by (nonlinear_arith)
            requires gap <= 0xffff_ffff_ffff_ffffu128, count <= 0xffff_ffff_ffff_ffffu128;
        let product = gap * count;
        assert(product == (cur - prev) * self.firing_number) by (nonlinear_arith)
            requires gap == cur - prev, product == gap * count, count == self.firing_number;
        if product > u64::MAX as u128 {
            return false;
        }
        (prev as u128) + product / 50 <= u64::MAX as u128
    }

    /// Starts a new packet at time `stamp_micros` whose first, middle and
    /// last firing positions are given: the packet clock advances, the scan
    /// direction follows the positions and the firing count restarts.
    pub fn register_packet(&mut self, stamp_micros: u64, start: u16, mid: u16, end: u16)
        requires
            old(self).wf(),
        ensures
            final(self).wf(),
            final(self).packet_clock() == old(self).packet_clock().spec_register(stamp_micros),
            final(self).sweep() == spec_sweep_direction(start, mid, end, old(self).sweep()),
            final(self).firings() == 0,
            final(self).name() == old(self).name(),
            final(self).min_size() == old(self).min_size(),
            final(self).max_size() == old(self).max_size(),
            final(self).clouds_out() == old(self).clouds_out(),
            final(self).pending() == old(self).pending(),
            final(self).pending_dense() == old(self).pending_dense(),
    {
        self.clock.register(stamp_micros);
        self.direction = sweep_direction(start, mid, end, self.direction);
        self.firing_number = 0;
    }

    /// Adds the points of one firing to the cloud being filled, unless the
    /// firing has none or the cloud is full. A firing with a missing
    /// distance makes the cloud not dense.
    pub fn add_firing(&mut self, points: Vec<T>, has_missing: bool)
        requires
            old(self).wf(),
            old(self).firings() < usize::MAX,
        ensures
            final(self).wf(),
            final(self).name() == old(self).name(),
            final(self).min_size() == old(self).min_size(),
            final(self).max_size() == old(self).max_size(),
            final(self).clouds_out() == old(self).clouds_out(),
            final(self).sweep() == old(self).sweep(),
            final(self).packet_clock() == old(self).packet_clock(),
            (points@.len() == 0 || old(self).pending().len() >= old(self).max_size()) ==> {
                &&& final(self).pending() == old(self).pending()
                &&& final(self).firings() == old(self).firings()
                &&& final(self).pending_dense() == old(self).pending_dense()
            },
            (points@.len() > 0 && old(self).pending().len() < old(self).max_size()) ==> {
                &&& final(self).pending() == old(self).pending() + points@
                &&& final(self).firings() == old(self).firings() + 1
                &&& final(self).pending_dense() == (old(self).pending_dense() && !has_missing)
            },
    {
        if points.len() == 0 || self.current.points.len() >= self.max_cloud_size {
            return;
        }
        self.firing_number = self.firing_number + 1;
        if has_missing {
            self.current.is_dense = false;
        }
        let mut points = points;
        self.current.points.append(&mut points);
    }

    /// Closes the cloud being filled at the end of a sweep. A cloud of more
    /// than the minimum size is handed out, numbered and timed, with an
    /// unorganized layout; a smaller one is discarded. Either way a new,
    /// empty cloud is started.
    pub fn close_cloud(&mut self) -> (r: Option<Frame<T>>)
        requires
            old(self).wf(),
            old(self).spec_stamp_ok(),
            old(self).clouds_out() < u64::MAX,
        ensures
            final(self).wf(),
            final(self).name() == old(self).name(),
            final(self).min_size() == old(self).min_size(),
            final(self).max_size() == old(self).max_size(),
            final(self).sweep() == old(self).sweep(),
            final(self).firings() == old(self).firings(),
            final(self).packet_clock() == old(self).packet_clock(),
            final(self).pending().len() == 0,
            final(self).pending_dense(),
            old(self).pending().len() > old(self).min_size() ==> (r matches Some(f) && {
                &&& f.points@ == old(self).pending()
                &&& f.is_dense == old(self).pending_dense()
                &&& f.stamp_micros == old(self).spec_stamp()
                &&& f.sequence == old(self).clouds_out()
                &&& f.frame_id@ == old(self).name()
                &&& f.height == 1
                &&& f.width == f.points@.len()
                &&& final(self).clouds_out() == old(self).clouds_out() + 1
            }),
            old(self).pending().len() <= old(self).min_size() ==> (r is None
                && final(self).clouds_out() == old(self).clouds_out()),
    {
        let mut fresh: Frame<T> = Frame::new(self.frame_id.as_str());
        if self.current.points.len() > self.min_cloud_size {
            core::mem::swap(&mut fresh, &mut self.current);
            let mut complete = fresh;
            complete.stamp_micros = self.clock.frame_stamp(self.firing_number);
            complete.sequence = self.cloud_counter;
            complete.frame_id = self.frame_id.clone();
            complete.refresh_unorganized_dims();
            self.cloud_counter = self.cloud_counter + 1;
            Some(complete)
        } else {
            self.current = fresh;
            None
        }
    }
}

/// The number of clouds handed out among closes whose outcomes are
/// `handed` (true where a cloud was handed out).
pub open spec fn clouds_handed(handed: Seq<bool>) -> nat
    decreases handed.len(),
{
    if handed.len() == 0 {
        0
    } else {
        clouds_handed(handed.drop_last()) + if handed.last() { 1nat } else { 0nat }
    }
}

/// Clouds are numbered in the order they are handed out, from zero. Let
/// `counts[i]` be an assembler's count of clouds handed out (`clouds_out`)
/// just before its `i`-th close, and `handed[i]` whether that close handed
/// a cloud out: `new` starts the count at zero, only a close that hands a
/// cloud out raises it, by one, and that cloud's `sequence` is the count
/// before the close. Then before each close the count is the number of
/// clouds handed out by the closes before it, so the clouds handed out
/// carry the numbers 0, 1, 2, ... in turn.
pub proof fn lemma_cloud_numbering(counts: Seq<int>, handed: Seq<bool>)
    requires
        counts.len() == handed.len() + 1,
        counts[0] == 0,
        forall|i: int| 0 <= i < handed.len() ==> #[trigger] counts[i + 1] == counts[i] + if handed[i] { 1int } else { 0int },
    ensures
        forall|i: int| 0 <= i <= handed.len() ==> #[trigger] counts[i] == clouds_handed(handed.take(i)),
{
    assert forall|i: int| 0 <= i <= handed.len() implies #[trigger] counts[i] == clouds_handed(handed.take(i)) by {
        lemma_cloud_numbering_upto(counts, handed, i);
    }
}

proof fn lemma_cloud_numbering_upto(counts: Seq<int>, handed: Seq<bool>, i: int)
    requires
        counts.len() == handed.len() + 1,
        counts[0] == 0,
        forall|j: int| 0 <= j < handed.len() ==> #[trigger] counts[j + 1] == counts[j] + if handed[j] { 1int } else { 0int },
        0 <= i <= handed.len(),
    ensures
        counts[i] == clouds_handed(handed.take(i)),
    decreases i,
{
    if i == 0 {
        assert(handed.take(0) =~= Seq::<bool>::empty());
    } else {
        lemma_cloud_numbering_upto(counts, handed, i - 1);
        assert(handed.take(i).drop_last() =~= handed.take(i - 1));
        assert(counts[(i - 1) + 1] == counts[i - 1] + if handed[i - 1] { 1int } else { 0int });
    }
}

/// The slots (return × 8 + laser) of one laser whose returns make points:
/// every kept return with all returns selected, else the selected one.
pub open spec fn laser_slots(distances: Seq<u32>, selection: ReturnSelection, laser: int) -> Seq<usize> {
    match selection {
        ReturnSelection::All => spec_all_returns(
            distances[slot(0, laser)], distances[slot(1, laser)], distances[slot(2, laser)],
        ).map_values(|ret: usize| (ret * 8 + laser) as usize),
        ReturnSelection::Single(k) => seq![(k * 8 + laser) as usize],
    }
}

/// The slots of the first `n` lasers of a firing that make points, laser
/// by laser.
pub open spec fn firing_slots(distances: Seq<u32>, selection: ReturnSelection, n: int) -> Seq<usize>
    decreases n,
{
    if n <= 0 {
        Seq::empty()
    } else {
        firing_slots(distances, selection, n - 1) + laser_slots(distances, selection, n - 1)
    }
}

/// With all returns selected, the slots a laser keeps are, in return
/// order: return 0 when its distance is nonzero and differs from return
/// 2's, return 1 likewise, and return 2 when its distance is nonzero. A
/// slot is `return × 8 + laser`.
pub proof fn lemma_all_returns_laser_slots(distances: Seq<u32>, laser: int)
    requires
        distances.len() == FIRING_SLOTS,
        0 <= laser < M_SERIES_NUM_LASERS,
    ensures
        ({
            let d0 = distances[laser];
            let d1 = distances[8 + laser];
            let d2 = distances[16 + laser];
            laser_slots(distances, ReturnSelection::All, laser) == (if d0 != 0 && d0 != d2 {
                seq![laser as usize]
            } else {
                Seq::<usize>::empty()
            }) + (if d1 != 0 && d1 != d2 {
                seq![(8 + laser) as usize]
            } else {
                Seq::<usize>::empty()
            }) + (if d2 != 0 {
                seq![(16 + laser) as usize]
            } else {
                Seq::<usize>::empty()
            })
        }),
{
    let d0 = distances[laser];
    let d1 = distances[8 + laser];
    let d2 = distances[16 + laser];
    let rets = spec_all_returns(distances[slot(0, laser)], distances[slot(1, laser)], distances[slot(2, laser)]);
    let f = |ret: usize| (ret * 8 + laser) as usize;
    let a = if d0 != 0 && d0 != d2 { seq![0usize] } else { Seq::<usize>::empty() };
    let b = if d1 != 0 && d1 != d2 { seq![1usize] } else { Seq::<usize>::empty() };
    let c = if d2 != 0 { seq![2usize] } else { Seq::<usize>::empty() };
    assert(rets == a + b + c);
    assert((a + b + c).map_values(f) =~= a.map_values(f) + b.map_values(f) + c.map_values(f));
    assert(a.map_values(f) =~= (if d0 != 0 && d0 != d2 { seq![laser as usize] } else { Seq::<usize>::empty() }));
    assert(b.map_values(f) =~= (if d1 != 0 && d1 != d2 { seq![(8 + laser) as usize] } else { Seq::<usize>::empty() }));
    assert(c.map_values(f) =~= (if d2 != 0 { seq![(16 + laser) as usize] } else { Seq::<usize>::empty() }));
}

/// With all returns selected, a firing whose lasers all have three
/// nonzero returns, the first two differing from the third, keeps all
/// three returns of each laser: laser by laser, in return order, so the
/// first `n` lasers give `3n` slots, slot `3l + r` being `r × 8 + l`.
pub proof fn lemma_all_returns_full_firing(distances: Seq<u32>, n: int)
    requires
        distances.len() == FIRING_SLOTS,
        0 <= n <= M_SERIES_NUM_LASERS,
        forall|l: int| 0 <= l < M_SERIES_NUM_LASERS ==> {
            &&& #[trigger] distances[l] != 0
            &&& distances[8 + l] != 0
            &&& distances[16 + l] != 0
            &&& distances[l] != distances[16 + l]
            &&& distances[8 + l] != distances[16 + l]
        },
    ensures
        firing_slots(distances, ReturnSelection::All, n).len() == 3 * n,
        forall|l: int, r: int| 0 <= l < n && 0 <= r < 3 ==> #[trigger] firing_slots(distances, ReturnSelection::All, n)[3
            * l + r] == r * 8 + l,
    decreases n,
{
    if n > 0 {
        lemma_all_returns_full_firing(distances, n - 1);
        lemma_all_returns_laser_slots(distances, n - 1);
        let prev = firing_slots(distances, ReturnSelection::All, n - 1);
        let last = laser_slots(distances, ReturnSelection::All, n - 1);
        assert(distances[n - 1] != 0);
        assert(last =~= seq![(n - 1) as usize, (8 + n - 1) as usize, (16 + n - 1) as usize]);
        let cur = firing_slots(distances, ReturnSelection::All, n);
        assert(cur == prev + last);
        assert forall|l: int, r: int| 0 <= l < n && 0 <= r < 3 implies #[trigger] cur[3 * l + r] == r * 8 + l by {
            if l < n - 1 {
                assert(3 * l + r < 3 * (n - 1));
                assert(cur[3 * l + r] == prev[3 * l + r]);
            } else {
                assert(cur[3 * l + r] == last[r]);
            }
        }
    }
}

/// The slots of an M-Series (0x00) firing that make points, in the order
/// the points are laid down.
pub fn m_series_point_slots(firing: &MSeriesFiring, selection: ReturnSelection) -> (r: Vec<usize>)
    requires
        firing.distances@.len() == FIRING_SLOTS,
        selection matches ReturnSelection::Single(k) ==> k < M_SERIES_NUM_RETURNS,
    ensures
        r@ == firing_slots(firing.distances@, selection, M_SERIES_NUM_LASERS as int),
{
    let mut r: Vec<usize> = Vec::new();
    let mut laser: usize = 0;
    while laser < M_SERIES_NUM_LASERS
        invariant
            laser <= M_SERIES_NUM_LASERS,
            firing.distances@.len() == FIRING_SLOTS,
            selection matches ReturnSelection::Single(k) ==> k < M_SERIES_NUM_RETURNS,
            r@ == firing_slots(firing.distances@, selection, laser as int),
        decreases M_SERIES_NUM_LASERS - laser,
    {
        let ghost before = r@;
        match selection {
            ReturnSelection::All => {
                let rets = all_returns(firing.distance(0, laser), firing.distance(1, laser), firing.distance(2, laser));
                let mut j: usize = 0;
                while j < rets.len()
                    invariant
                        j <= rets.len(),
                        laser < M_SERIES_NUM_LASERS,
                        rets@.len() <= 3,
                        forall|q: int| 0 <= q < rets@.len() ==> #[trigger] rets@[q] < 3,
                        r@ == before + rets@.subrange(0, j as int).map_values(|ret: usize| (ret * 8 + laser) as usize),
                    decreases rets.len() - j,
                {
                    r.push(rets[j] * 8 + laser);
                    j = j + 1;
                    assert(r@ =~= before + rets@.subrange(0, j as int).map_values(|ret: usize| (ret * 8 + laser) as usize));
                }
                assert(rets@.subrange(0, rets@.len() as int) =~= rets@);
            },
            ReturnSelection::Single(k) => {
                r.push((k as usize) * 8 + laser);
            },
        }
        assert(r@ =~= firing_slots(firing.distances@, selection, laser + 1));
        laser = laser + 1;
    }
    r
}

/// The slots of an M1 (0x06) firing that make a point: with three returns
/// per firing, the kept returns when all are selected, else the selected
/// return; with one return per firing, that return.
pub open spec fn m1_slots(distances: Seq<u32>, selection: ReturnSelection, returns_per_firing: int) -> Seq<usize> {
    if returns_per_firing == 3 {
        match selection {
            ReturnSelection::All => spec_all_returns(distances[0], distances[8], distances[16]).map_values(
                |ret: usize| (ret * 8) as usize,
            ),
            ReturnSelection::Single(k) => seq![(k * 8) as usize],
        }
    } else {
        seq![0usize]
    }
}

/// The slots of an M1 (0x06) firing that make a point.
pub fn m1_point_slots(firing: &MSeriesFiring, selection: ReturnSelection, returns_per_firing: usize) -> (r: Vec<usize>)
    requires
        firing.distances@.len() == FIRING_SLOTS,
        selection matches ReturnSelection::Single(k) ==> k < M_SERIES_NUM_RETURNS,
    ensures
        r@ == m1_slots(firing.distances@, selection, returns_per_firing as int),
{
    let mut r: Vec<usize> = Vec::new();
    if returns_per_firing == 3 {
        match selection {
            ReturnSelection::All => {
                let rets = all_returns(firing.distance(0, 0), firing.distance(1, 0), firing.distance(2, 0));
                let mut j: usize = 0;
                while j < rets.len()
                    invariant
                        j <= rets.len(),
                        forall|q: int| 0 <= q < rets@.len() ==> #[trigger] rets@[q] < 3,
                        r@ == rets@.subrange(0, j as int).map_values(|ret: usize| (ret * 8) as usize),
                    decreases rets.len() - j,
                {
                    r.push(rets[j] * 8);
                    j = j + 1;
                    assert(r@ =~= rets@.subrange(0, j as int).map_values(|ret: usize| (ret * 8) as usize));
                }
                assert(rets@.subrange(0, rets@.len() as int) =~= rets@);
            },
            ReturnSelection::Single(k) => {
                r.push((k as usize) * 8);
                assert(r@ =~= seq![(k * 8) as usize]);
            },
        }
    } else {
        r.push(0);
        assert(r@ =~= seq![0usize]);
    }
    r
}

/// The number of encoder positions a revolution is divided into; the
/// table of horizontal angles has one entry per position and one more for
/// the closing position.
pub open spec fn rotation_steps() -> int {
    10_400
}

/// Checks that a firing position indexes the table of horizontal angles.
pub fn check_firing_position(position: u16) -> (r: Result<usize>)
    ensures
        position <= rotation_steps() ==> r == Ok::<usize, QuanergyError>(position as usize),
        position > rotation_steps() ==> (r matches Err(QuanergyError::Config(m)) && m@ == "invalid firing position "@
            + crate::text::spec_decimal(position as nat)),
{
    if (position as usize) <= 10_400 {
        Ok(position as usize)
    } else {
        let mut m = String::from_str("invalid firing position ");
        crate::text::push_decimal(&mut m, position as u64);
        Err(QuanergyError::Config(m))
    }
}

/// Whether clouds from packets of this type are laid out ring by ring:
/// M-Series clouds of a single return and reduced M-Series clouds are, M1
/// clouds (one ring) and all-return clouds are not.
pub fn organizes_cloud(packet_type: u8, selection: ReturnSelection) -> (r: bool)
    ensures
        r == ((packet_type == PACKET_TYPE_M_SERIES && selection != ReturnSelection::All)
            || packet_type == PACKET_TYPE_M_SERIES_REDUCED),
{
    if packet_type == PACKET_TYPE_M_SERIES {
        match selection {
            ReturnSelection::All => false,
            ReturnSelection::Single(_) => true,
        }
    } else {
        packet_type == PACKET_TYPE_M_SERIES_REDUCED
    }
}

} // verus!
