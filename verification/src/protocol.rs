//! The Quanergy packet header: a fixed 20-byte big-endian prefix carrying
//! a signature, the total packet size, a timestamp, a version and a type.

use vstd::prelude::*;
use vstd::arithmetic::div_mod::lemma_fundamental_div_mod_converse;

use crate::codec::{be_u32_at, be_u32_bytes, push_be_u32, read_be_u32};
use crate::error::{is_size_mismatch, QuanergyError, Result};
use crate::codec::lemma_be_u32_roundtrip;
use crate::text::{ascii_eq_ignore_case, chars_of, parse_unsigned_chars, spec_ascii_eq_ignore_case, spec_parse_unsigned};

verus! {

pub const SIGNATURE: u32 = 0x75bd_7e97;
pub const HEADER_LEN: usize = 20;
pub const DEFAULT_TCP_PORT: u16 = 4141;
pub const DEVICE_INFO_PORT: u16 = 7780;
/// The HTTP path of a sensor's device description.
pub const DEVICE_INFO_PATH: &'static str = "/PSIA/System/deviceInfo";

pub const M_SERIES_FIRINGS_PER_PACKET: usize = 50;
pub const M_SERIES_NUM_RETURNS: usize = 3;
pub const M_SERIES_NUM_LASERS: usize = 8;
pub const M_SERIES_NUM_ROT_ANGLES: usize = 10_400;
pub const ALL_RETURNS: i8 = -1;

pub const PACKET_TYPE_M_SERIES: u8 = 0x00;
pub const PACKET_TYPE_HVDIR_LIST: u8 = 0x01;
pub const PACKET_TYPE_M_SERIES_REDUCED: u8 = 0x04;
pub const PACKET_TYPE_M1: u8 = 0x06;

/// The decoded 20-byte packet header.
#[derive(Debug, Copy, Clone, PartialEq, Eq, Structural)]
pub struct PacketHeader {
    pub signature: u32,
    pub size: u32,
    pub seconds: u32,
    pub nanoseconds: u32,
    pub version_major: u8,
    pub version_minor: u8,
    pub version_patch: u8,
    pub packet_type: u8,
}

/// The header fields as they stand in the first 20 bytes of `b`.
pub open spec fn spec_header(b: Seq<u8>) -> PacketHeader {
    PacketHeader {
        signature: be_u32_at(b, 0) as u32,
        size: be_u32_at(b, 4) as u32,
        seconds: be_u32_at(b, 8) as u32,
        nanoseconds: be_u32_at(b, 12) as u32,
        version_major: b[16],
        version_minor: b[17],
        version_patch: b[18],
        packet_type: b[19],
    }
}

/// The 20 bytes that encode `h`.
pub open spec fn spec_header_bytes(h: PacketHeader) -> Seq<u8> {
    be_u32_bytes(h.signature) + be_u32_bytes(h.size) + be_u32_bytes(h.seconds)
        + be_u32_bytes(h.nanoseconds) + seq![
        h.version_major,
        h.version_minor,
        h.version_patch,
        h.packet_type,
    ]
}

/// The outcome of `validate` on `h`: the signature must match and the
/// announced size must cover at least the header.
pub open spec fn spec_validate(h: PacketHeader) -> Result<()> {
    if h.signature != SIGNATURE {
        Err(QuanergyError::InvalidSignature(h.signature))
    } else if h.size < HEADER_LEN {
        Err(QuanergyError::PacketSizeMismatch { expected: HEADER_LEN, actual: h.size as usize })
    } else {
        Ok(())
    }
}

/// `h` when it passes `validate`, its error otherwise.
pub open spec fn spec_checked(h: PacketHeader) -> Result<PacketHeader> {
    match spec_validate(h) {
        Ok(_) => Ok(h),
        Err(e) => Err(e),
    }
}

/// The outcome of `parse` on a whole packet `b`: a valid header whose
/// announced size is exactly the length of `b`.
pub open spec fn spec_parse_header(b: Seq<u8>) -> Result<PacketHeader> {
    if b.len() < HEADER_LEN {
        Err(QuanergyError::PacketTooShort { actual: b.len() as usize, minimum: HEADER_LEN })
    } else {
        match spec_checked(spec_header(b)) {
            Err(e) => Err(e),
            Ok(h) => if h.size != b.len() {
                Err(QuanergyError::PacketSizeMismatch { expected: h.size as usize, actual: b.len() as usize })
            } else {
                Ok(h)
            },
        }
    }
}

/// The outcome of `require_version(major, minor, patch)` on `h`.
pub open spec fn spec_require_version(h: PacketHeader, major: u8, minor: u8, patch: u8) -> Result<()> {
    if h.version_major == major && h.version_minor == minor && h.version_patch == patch {
        Ok(())
    } else {
        Err(QuanergyError::UnsupportedPacketVersion {
            packet_type: h.packet_type,
            major: h.version_major,
            minor: h.version_minor,
            patch: h.version_patch,
        })
    }
}

/// Microseconds since the epoch of the header's timestamp.
pub open spec fn spec_timestamp_micros(h: PacketHeader) -> int {
    h.seconds * 1_000_000 + h.nanoseconds / 1_000
}

impl PacketHeader {
    /// Reads the header from the first 20 bytes of `reader` and validates it.
    pub fn read_from(reader: &[u8]) -> (r: Result<Self>)
        ensures
            reader@.len() < HEADER_LEN ==> r matches Err(QuanergyError::Io(_)),
            reader@.len() >= HEADER_LEN ==> r == spec_checked(spec_header(reader@)),
    {
        if reader.len() < HEADER_LEN {
            return Err(QuanergyError::Io(String::from_str("failed to fill whole buffer")));
        }
        let header = PacketHeader {
            signature: read_be_u32(reader, 0),
            size: read_be_u32(reader, 4),
            seconds: read_be_u32(reader, 8),
            nanoseconds: read_be_u32(reader, 12),
            version_major: reader[16],
            version_minor: reader[17],
            version_patch: reader[18],
            packet_type: reader[19],
        };
        match header.validate() {
            Ok(()) => Ok(header),
            Err(e) => Err(e),
        }
    }

    /// Decodes the header of a whole packet and checks that the packet is
    /// exactly as long as the header announces.
    pub fn parse(packet: &[u8]) -> (r: Result<Self>)
        ensures
            r == spec_parse_header(packet@),
    {
        if packet.len() < HEADER_LEN {
            return Err(QuanergyError::PacketTooShort { actual: packet.len(), minimum: HEADER_LEN });
        }
        let header = match Self::read_from(packet) {
            Ok(h) => h,
            Err(e) => return Err(e),
        };
        let expected = header.size as usize;
        if expected != packet.len() {
            return Err(QuanergyError::PacketSizeMismatch { expected, actual: packet.len() });
        }
        Ok(header)
    }

    /// Appends the 20 header bytes to `writer`.
    pub fn write_to(self, writer: &mut Vec<u8>) -> (r: Result<()>)
        ensures
            r is Ok,
            final(writer)@ == old(writer)@ + spec_header_bytes(self),
    {
        push_be_u32(writer, self.signature);
        push_be_u32(writer, self.size);
        push_be_u32(writer, self.seconds);
        push_be_u32(writer, self.nanoseconds);
        writer.push(self.version_major);
        writer.push(self.version_minor);
        writer.push(self.version_patch);
        writer.push(self.packet_type);
        assert(writer@ =~= old(writer)@ + spec_header_bytes(self));
        Ok(())
    }

    /// Checks the signature and that the announced size covers the header.
    pub fn validate(self) -> (r: Result<()>)
        ensures
            r == spec_validate(self),
    {
        if self.signature != SIGNATURE {
            return Err(QuanergyError::InvalidSignature(self.signature));
        }
        if self.size < HEADER_LEN as u32 {
            return Err(QuanergyError::PacketSizeMismatch { expected: HEADER_LEN, actual: self.size as usize });
        }
        Ok(())
    }

    /// The header timestamp in microseconds.
    pub fn timestamp_micros(self) -> (r: u64)
        ensures
            r == spec_timestamp_micros(self),
    {
        self.seconds as u64 * 1_000_000 + self.nanoseconds as u64 / 1_000
    }

    /// Succeeds only when the header carries exactly this version.
    pub fn require_version(self, major: u8, minor: u8, patch: u8) -> (r: Result<()>)
        ensures
            r == spec_require_version(self, major, minor, patch),
    {
        if self.version_major == major && self.version_minor == minor && self.version_patch == patch {
            Ok(())
        } else {
            Err(QuanergyError::UnsupportedPacketVersion {
                packet_type: self.packet_type,
                major: self.version_major,
                minor: self.version_minor,
                patch: self.version_patch,
            })
        }
    }
}

/// A whole packet as received: its decoded header, all of its bytes and
/// the time since the previous packet arrived.
#[derive(Debug, Clone)]
pub struct RawPacket {
    pub header: PacketHeader,
    pub bytes: Vec<u8>,
    pub arrival_delta_ns: u64,
}

impl RawPacket {
    /// The number of body bytes that follow a header read from a stream:
    /// the announced size less the header, which the size must cover.
    pub fn body_len(header: PacketHeader) -> (r: Result<usize>)
        ensures
            header.size >= HEADER_LEN ==> r == Ok::<usize, QuanergyError>((header.size - HEADER_LEN) as usize),
            header.size < HEADER_LEN ==> is_size_mismatch(r, HEADER_LEN as int, header.size as int),
    {
        let total = header.size as usize;
        if total < HEADER_LEN {
            return Err(QuanergyError::PacketSizeMismatch { expected: HEADER_LEN, actual: total });
        }
        Ok(total - HEADER_LEN)
    }

    /// A packet from the header bytes and the body bytes read after them.
    pub fn assemble(header_bytes: &[u8], body: &[u8], arrival_delta_ns: u64) -> (r: Result<Self>)
        ensures
            match spec_parse_header(header_bytes@ + body@) {
                Ok(h) => r matches Ok(p) && p.header == h && p.bytes@ == header_bytes@ + body@
                    && p.arrival_delta_ns == arrival_delta_ns,
                Err(e) => r matches Err(e2) && e2 == e,
            },
    {
        let mut bytes: Vec<u8> = Vec::new();
        let mut i: usize = 0;
        while i < header_bytes.len()
            invariant
                i <= header_bytes.len(),
                bytes@ =~= header_bytes@.subrange(0, i as int),
            decreases header_bytes.len() - i,
        {
            bytes.push(header_bytes[i]);
            i = i + 1;
            assert(bytes@ =~= header_bytes@.subrange(0, i as int));
        }
        let mut k: usize = 0;
        while k < body.len()
            invariant
                k <= body.len(),
                i == header_bytes.len(),
                bytes@ =~= header_bytes@ + body@.subrange(0, k as int),
            decreases body.len() - k,
        {
            bytes.push(body[k]);
            k = k + 1;
            assert(bytes@ =~= header_bytes@ + body@.subrange(0, k as int));
        }
        assert(header_bytes@.subrange(0, header_bytes@.len() as int) =~= header_bytes@);
        assert(body@.subrange(0, body@.len() as int) =~= body@);
        Self::parse(bytes, arrival_delta_ns)
    }

    /// Decodes the header of `bytes` and keeps the bytes with it.
    pub fn parse(bytes: Vec<u8>, arrival_delta_ns: u64) -> (r: Result<Self>)
        ensures
            match spec_parse_header(bytes@) {
                Ok(h) => r matches Ok(p) && p.header == h && p.bytes@ == bytes@
                    && p.arrival_delta_ns == arrival_delta_ns,
                Err(e) => r matches Err(e2) && e2 == e,
            },
    {
        let header = match PacketHeader::parse(bytes.as_slice()) {
            Ok(h) => h,
            Err(e) => return Err(e),
        };
        Ok(RawPacket { header, bytes, arrival_delta_ns })
    }
}

/// Which laser return a sensor stream is read for.
#[derive(Debug, Copy, Clone, PartialEq, Eq, Structural)]
pub enum ReturnSelection {
    Single(u8),
    All,
}

impl Default for ReturnSelection {
    fn default() -> (r: Self)
        ensures
            r == ReturnSelection::Single(0),
    {
        ReturnSelection::Single(0)
    }
}

/// The return selection a text names: `all` in any case, or a return
/// index below the number of returns.
pub open spec fn spec_return_selection(value: Seq<char>) -> Option<ReturnSelection> {
    if spec_ascii_eq_ignore_case(value, "all"@) {
        Some(ReturnSelection::All)
    } else {
        match spec_parse_unsigned(value, 255) {
            Some(v) => if v < M_SERIES_NUM_RETURNS {
                Some(ReturnSelection::Single(v as u8))
            } else {
                None
            },
            None => None,
        }
    }
}

impl ReturnSelection {
    /// Parses `all` (in any case) or a return index below the number of
    /// returns.
    pub fn parse(value: &str) -> (r: Result<Self>)
        ensures
            match spec_return_selection(value@) {
                Some(sel) => r == Ok::<ReturnSelection, QuanergyError>(sel),
                None => r matches Err(QuanergyError::InvalidReturnSelection(s)) && s@ == value@,
            },
    {
        if ascii_eq_ignore_case(value, "all") {
            return Ok(ReturnSelection::All);
        }
        let chars = chars_of(value);
        match parse_unsigned_chars(&chars, 255) {
            Some(id) => {
                assert(spec_parse_unsigned(value@, 255) == Some(id as int));
                if id < 3 {
                    Ok(ReturnSelection::Single(id as u8))
                } else {
                    let owned = value.to_owned();
                    assert(owned@ == value@);
                    Err(QuanergyError::InvalidReturnSelection(owned))
                }
            },
            None => {
                let owned = value.to_owned();
                Err(QuanergyError::InvalidReturnSelection(owned))
            },
        }
    }

    /// The integer code of this selection: the return index, or -1
    /// for all returns.
    pub fn as_cpp_value(self) -> (r: i8)
        ensures
            r == spec_selection_code(self),
            match self {
                ReturnSelection::Single(id) => r == id as i8,
                ReturnSelection::All => r == ALL_RETURNS,
            },
    {
        match self {
            ReturnSelection::Single(id) => id as i8,
            ReturnSelection::All => ALL_RETURNS,
        }
    }
}

/// The integer code of a return selection: the return index, or -1 for
/// all returns.
pub open spec fn spec_selection_code(sel: ReturnSelection) -> i8 {
    match sel {
        ReturnSelection::Single(id) => id as i8,
        ReturnSelection::All => ALL_RETURNS,
    }
}

/// The code of a selection read from text is -1 for `all` (in any case)
/// and otherwise the return index the text names, one of 0, 1 and 2.
pub proof fn lemma_parsed_selection_code(value: Seq<char>)
    requires
        spec_return_selection(value) is Some,
    ensures
        spec_ascii_eq_ignore_case(value, "all"@) ==> spec_selection_code(spec_return_selection(value)->0) == -1,
        !spec_ascii_eq_ignore_case(value, "all"@) ==> {
            let code = spec_selection_code(spec_return_selection(value)->0);
            &&& 0 <= code < M_SERIES_NUM_RETURNS
            &&& spec_parse_unsigned(value, 255) == Some(code as int)
        },
{
    if !spec_ascii_eq_ignore_case(value, "all"@) {
        assert(spec_parse_unsigned(value, 255) is Some);
        crate::text::lemma_decimal_prefix(crate::text::unsigned_digits(value), 0);
        let v = spec_parse_unsigned(value, 255)->0;
        assert(0 <= v < 3);
        let id = v as u8;
        assert(id == v);
        assert(id < 128u8 ==> (id as i8) as int == id as int) by (bit_vector);
    }
}

proof fn lemma_be_u32_bytes_of_value(b: Seq<u8>, at: int)
    requires
        0 <= at,
        at + 4 <= b.len(),
    ensures
        be_u32_bytes(be_u32_at(b, at) as u32) =~= b.subrange(at, at + 4),
{
    let v = be_u32_at(b, at);
    let b0 = b[at] as int;
    let b1 = b[at + 1] as int;
    let b2 = b[at + 2] as int;
    let b3 = b[at + 3] as int;
    assert(v == b0 * 16777216 + b1 * 65536 + b2 * 256 + b3);
    assert(0 <= v < 4294967296);
    lemma_fundamental_div_mod_converse(v, 16777216, b0, b1 * 65536 + b2 * 256 + b3);
    lemma_fundamental_div_mod_converse(v, 65536, b0 * 256 + b1, b2 * 256 + b3);
    lemma_fundamental_div_mod_converse(b0 * 256 + b1, 256, b0, b1);
    lemma_fundamental_div_mod_converse(v, 256, b0 * 65536 + b1 * 256 + b2, b3);
    lemma_fundamental_div_mod_converse(b0 * 65536 + b1 * 256 + b2, 256, b0 * 256 + b1, b2);
}

/// Writing a header and parsing the result gives the header back, for
/// every header whose signature is right and whose size is that of the
/// header plus the body that follows it.
pub proof fn lemma_header_write_parse(h: PacketHeader, body: Seq<u8>)
    requires
        h.signature == SIGNATURE,
        h.size == HEADER_LEN + body.len(),
    ensures
        spec_parse_header(spec_header_bytes(h) + body) == Ok::<PacketHeader, QuanergyError>(h),
{
    let b = spec_header_bytes(h) + body;
    let e = Seq::<u8>::empty();
    assert(b =~= e + be_u32_bytes(h.signature) + (be_u32_bytes(h.size) + be_u32_bytes(h.seconds)
        + be_u32_bytes(h.nanoseconds) + seq![h.version_major, h.version_minor, h.version_patch, h.packet_type] + body));
    lemma_be_u32_roundtrip(h.signature, e, be_u32_bytes(h.size) + be_u32_bytes(h.seconds)
        + be_u32_bytes(h.nanoseconds) + seq![h.version_major, h.version_minor, h.version_patch, h.packet_type] + body);
    assert(b =~= be_u32_bytes(h.signature) + be_u32_bytes(h.size) + (be_u32_bytes(h.seconds)
        + be_u32_bytes(h.nanoseconds) + seq![h.version_major, h.version_minor, h.version_patch, h.packet_type] + body));
    lemma_be_u32_roundtrip(h.size, be_u32_bytes(h.signature), be_u32_bytes(h.seconds)
        + be_u32_bytes(h.nanoseconds) + seq![h.version_major, h.version_minor, h.version_patch, h.packet_type] + body);
    assert(b =~= be_u32_bytes(h.signature) + be_u32_bytes(h.size) + be_u32_bytes(h.seconds) + (
        be_u32_bytes(h.nanoseconds) + seq![h.version_major, h.version_minor, h.version_patch, h.packet_type] + body));
    lemma_be_u32_roundtrip(h.seconds, be_u32_bytes(h.signature) + be_u32_bytes(h.size),
        be_u32_bytes(h.nanoseconds) + seq![h.version_major, h.version_minor, h.version_patch, h.packet_type] + body);
    assert(b =~= be_u32_bytes(h.signature) + be_u32_bytes(h.size) + be_u32_bytes(h.seconds)
        + be_u32_bytes(h.nanoseconds) + (seq![h.version_major, h.version_minor, h.version_patch, h.packet_type] + body));
    lemma_be_u32_roundtrip(h.nanoseconds, be_u32_bytes(h.signature) + be_u32_bytes(h.size)
        + be_u32_bytes(h.seconds), seq![h.version_major, h.version_minor, h.version_patch, h.packet_type] + body);
    assert(spec_header(b) == h);
}

/// Encoding the header decoded from a packet reproduces the packet's
/// first 20 bytes.
pub proof fn lemma_header_parse_write(b: Seq<u8>)
    requires
        b.len() >= HEADER_LEN,
    ensures
        spec_header_bytes(spec_header(b)) =~= b.subrange(0, HEADER_LEN as int),
{
    lemma_be_u32_bytes_of_value(b, 0);
    lemma_be_u32_bytes_of_value(b, 4);
    lemma_be_u32_bytes_of_value(b, 8);
    lemma_be_u32_bytes_of_value(b, 12);
}

/// The URL of the device description of the sensor at `host`.
pub fn device_info_url(host: &str) -> (r: String)
    ensures
        r@ == "http://"@ + host@ + ":7780/PSIA/System/deviceInfo"@,
{
    String::from_str("http://").concat(host).concat(":7780/PSIA/System/deviceInfo")
}

} // verus!
