//! The `.qraw` recording format: an 8-byte magic followed by one record
//! per packet, each a little-endian `u64` arrival delta in nanoseconds, a
//! little-endian `u32` packet length and the packet bytes.

use vstd::prelude::*;

use crate::codec::{le_u32_at, le_u32_bytes, le_u64_at, le_u64_bytes, lemma_le_u32_roundtrip, lemma_le_u64_roundtrip, push_le_u32, push_le_u64, read_le_u32, read_le_u64};
use crate::error::{QuanergyError, Result};
use crate::protocol::{spec_parse_header, RawPacket};

verus! {

/// Length of the per-record header (delta and length).
pub const QRAW_RECORD_HEADER_LEN: usize = 12;

/// Length of the file magic.
pub const QRAW_MAGIC_LEN: usize = 8;

/// The file magic `QRAWv1\0\0`.
pub open spec fn qraw_magic() -> Seq<u8> {
    seq![0x51u8, 0x52u8, 0x41u8, 0x57u8, 0x76u8, 0x31u8, 0u8, 0u8]
}

/// The bytes of one record.
pub open spec fn record_bytes(delta_ns: u64, packet: Seq<u8>) -> Seq<u8> {
    le_u64_bytes(delta_ns) + le_u32_bytes(packet.len() as u32) + packet
}

/// The bytes of a list of records, in order.
pub open spec fn encode_records(records: Seq<(u64, Seq<u8>)>) -> Seq<u8>
    decreases records.len(),
{
    if records.len() == 0 {
        Seq::empty()
    } else {
        record_bytes(records[0].0, records[0].1) + encode_records(records.drop_first())
    }
}

/// A whole recording of `records`.
pub open spec fn qraw_stream(records: Seq<(u64, Seq<u8>)>) -> Seq<u8> {
    qraw_magic() + encode_records(records)
}

/// Every packet fits the format's 32-bit length field.
pub open spec fn records_fit(records: Seq<(u64, Seq<u8>)>) -> bool {
    forall|i: int| 0 <= i < records.len() ==> (#[trigger] records[i]).1.len() <= u32::MAX
}

/// Whether a whole record header stands at `pos`.
pub open spec fn has_record_header(b: Seq<u8>, pos: int) -> bool {
    0 <= pos && b.len() - pos >= QRAW_RECORD_HEADER_LEN
}

/// The packet length announced by the record header at `pos`.
pub open spec fn announced_len(b: Seq<u8>, pos: int) -> int {
    le_u32_at(b, pos + 8)
}

/// Whether the record at `pos` is complete (header and packet bytes).
pub open spec fn has_record(b: Seq<u8>, pos: int) -> bool {
    has_record_header(b, pos) && b.len() - pos - QRAW_RECORD_HEADER_LEN >= announced_len(b, pos)
}

/// The arrival delta and packet bytes of the complete record at `pos`.
pub open spec fn record_at(b: Seq<u8>, pos: int) -> (u64, Seq<u8>) {
    (
        le_u64_at(b, pos) as u64,
        b.subrange(pos + QRAW_RECORD_HEADER_LEN, pos + QRAW_RECORD_HEADER_LEN + announced_len(b, pos)),
    )
}

/// Where the record after the complete record at `pos` starts.
pub open spec fn next_pos(b: Seq<u8>, pos: int) -> int {
    pos + QRAW_RECORD_HEADER_LEN + announced_len(b, pos)
}

/// The records a reader finds from `pos` on, up to the first incomplete one.
pub open spec fn decode_records(b: Seq<u8>, pos: int) -> Seq<(u64, Seq<u8>)>
    decreases b.len() - pos,
{
    if has_record(b, pos) && announced_len(b, pos) >= 0 {
        seq![record_at(b, pos)] + decode_records(b, next_pos(b, pos))
    } else {
        Seq::empty()
    }
}

/// Appends the magic to `out`.
fn push_magic(out: &mut Vec<u8>)
    ensures
        final(out)@ == old(out)@ + qraw_magic(),
{
    out.push(0x51);
    out.push(0x52);
    out.push(0x41);
    out.push(0x57);
    out.push(0x76);
    out.push(0x31);
    out.push(0);
    out.push(0);
    assert(out@ =~= old(out)@ + qraw_magic());
}

/// Encodes packets into a recording. The bytes produced so far are those
/// already handed out by `flush` followed by those still held.
pub struct QrawWriter {
    writer: Vec<u8>,
    handed_out: Ghost<Seq<u8>>,
    initial: Ghost<Seq<u8>>,
    records: Ghost<Seq<(u64, Seq<u8>)>>,
}

impl QrawWriter {
    /// The invariant every writer keeps: what it produced is the bytes it
    /// started with followed by the recording of its records, and every
    /// record fits the format.
    pub closed spec fn wf(self) -> bool {
        &&& self.handed_out@ + self.writer@ == self.initial@ + qraw_stream(self.records@)
        &&& records_fit(self.records@)
    }

    /// Everything this writer has produced: the bytes it started with,
    /// then the recording of its packets.
    pub closed spec fn produced(self) -> Seq<u8> {
        self.handed_out@ + self.writer@
    }

    /// The bytes the writer started with.
    pub closed spec fn initial(self) -> Seq<u8> {
        self.initial@
    }

    /// The packets written so far with their arrival deltas.
    pub closed spec fn records(self) -> Seq<(u64, Seq<u8>)> {
        self.records@
    }

    /// The bytes held and not yet handed out.
    pub closed spec fn pending(self) -> Seq<u8> {
        self.writer@
    }

    /// The bytes already handed out by `flush`.
    pub closed spec fn handed_out(self) -> Seq<u8> {
        self.handed_out@
    }

    /// Starts a recording after the bytes already in `writer`.
    pub fn new(writer: Vec<u8>) -> (r: Result<Self>)
        ensures
            r matches Ok(w) && w.wf() && w.initial() == writer@ && w.records() == Seq::<(u64, Seq<u8>)>::empty()
                && w.handed_out() == Seq::<u8>::empty() && w.pending() == writer@ + qraw_magic(),
    {
        let mut writer = writer;
        let ghost initial = writer@;
        push_magic(&mut writer);
        assert(encode_records(Seq::<(u64, Seq<u8>)>::empty()) =~= Seq::<u8>::empty());
        assert(writer@ =~= initial + qraw_stream(Seq::<(u64, Seq<u8>)>::empty()));
        Ok(QrawWriter {
            writer,
            handed_out: Ghost(Seq::empty()),
            initial: Ghost(initial),
            records: Ghost(Seq::empty()),
        })
    }

    /// Appends one record. Packets longer than the 32-bit length field
    /// allows are refused and nothing is written.
    pub fn write_packet(&mut self, delta_ns: u64, packet: &[u8]) -> (r: Result<()>)
        requires
            old(self).wf(),
        ensures
            final(self).wf(),
            packet@.len() > u32::MAX ==> (r matches Err(QuanergyError::ReplayFormat(m)) && m@ == "packet too large for qraw v1"@
                && *final(self) == *old(self)),
            packet@.len() <= u32::MAX ==> r is Ok
                && final(self).records() == old(self).records().push((delta_ns, packet@))
                && final(self).initial() == old(self).initial()
                && final(self).handed_out() == old(self).handed_out()
                && final(self).pending() == old(self).pending() + record_bytes(delta_ns, packet@),
    {
        if packet.len() > u32::MAX as usize {
            return Err(QuanergyError::ReplayFormat(String::from_str("packet too large for qraw v1")));
        }
        let len = packet.len() as u32;
        let ghost old_records = self.records@;
        push_le_u64(&mut self.writer, delta_ns);
        push_le_u32(&mut self.writer, len);
        let mut i: usize = 0;
        let ghost before = self.writer@;
        while i < packet.len()
            invariant
                i <= packet@.len(),
                self.writer@ =~= before + packet@.subrange(0, i as int),
                self.handed_out == old(self).handed_out,
                self.initial == old(self).initial,
                self.records == old(self).records,
            decreases packet.len() - i,
        {
            self.writer.push(packet[i]);
            i = i + 1;
            assert(self.writer@ =~= before + packet@.subrange(0, i as int));
        }
        assert(packet@.subrange(0, packet@.len() as int) =~= packet@);
        assert(self.writer@ =~= old(self).writer@ + record_bytes(delta_ns, packet@));
        proof {
            lemma_encode_push(old_records, (delta_ns, packet@));
            self.records@ = old_records.push((delta_ns, packet@));
            assert(records_fit(self.records@)) by {
                assert forall|k: int| 0 <= k < self.records@.len() implies (#[trigger] self.records@[k]).1.len() <= u32::MAX by {
                    if k < old_records.len() {
                        assert(self.records@[k] == old_records[k]);
                    }
                }
            }
            assert(qraw_stream(self.records@) =~= qraw_stream(old_records) + record_bytes(delta_ns, packet@));
            assert(old(self).handed_out@ + old(self).writer@ == old(self).initial@ + qraw_stream(old_records));
            assert(self.handed_out@ == old(self).handed_out@);
            assert(self.initial@ == old(self).initial@);
            assert(self.writer@ == old(self).writer@ + record_bytes(delta_ns, packet@));
            let rec = record_bytes(delta_ns, packet@);
            assert(self.handed_out@ + self.writer@ =~= (old(self).handed_out@ + old(self).writer@) + rec);
            assert(self.initial@ + qraw_stream(self.records@) =~= (old(self).initial@ + qraw_stream(old_records)) + rec);
        }
        Ok(())
    }

    /// Hands out the bytes produced since the last flush, for the caller to
    /// write to its sink.
    pub fn flush(&mut self) -> (r: Vec<u8>)
        requires
            old(self).wf(),
        ensures
            final(self).wf(),
            r@ == old(self).pending(),
            final(self).pending() == Seq::<u8>::empty(),
            final(self).handed_out() == old(self).handed_out() + old(self).pending(),
            final(self).records() == old(self).records(),
            final(self).initial() == old(self).initial(),
            final(self).produced() == old(self).produced(),
    {
        let mut out: Vec<u8> = Vec::new();
        std::mem::swap(&mut out, &mut self.writer);
        proof {
            self.handed_out@ = self.handed_out@ + out@;
            assert(self.handed_out@ + self.writer@ =~= self.initial@ + qraw_stream(self.records@));
        }
        out
    }

    /// Everything produced and not yet handed out, consuming the writer.
    pub fn into_inner(self) -> (r: Vec<u8>)
        requires
            self.wf(),
        ensures
            r@ == self.pending(),
            self.handed_out() + r@ == self.initial() + qraw_stream(self.records()),
    {
        self.writer
    }
}

/// Encoding one more record appends its bytes.
pub proof fn lemma_encode_push(records: Seq<(u64, Seq<u8>)>, r: (u64, Seq<u8>))
    ensures
        encode_records(records.push(r)) =~= encode_records(records) + record_bytes(r.0, r.1),
    decreases records.len(),
{
    if records.len() == 0 {
        assert(records.push(r).drop_first() =~= Seq::<(u64, Seq<u8>)>::empty());
        assert(encode_records(Seq::<(u64, Seq<u8>)>::empty()) =~= Seq::<u8>::empty());
    } else {
        assert(records.push(r).drop_first() =~= records.drop_first().push(r));
        lemma_encode_push(records.drop_first(), r);
    }
}

proof fn lemma_decode_first(pre: Seq<u8>, d: u64, pk: Seq<u8>, tail: Seq<u8>)
    requires
        pk.len() <= u32::MAX,
    ensures
        has_record(pre + record_bytes(d, pk) + tail, pre.len() as int),
        announced_len(pre + record_bytes(d, pk) + tail, pre.len() as int) == pk.len(),
        record_at(pre + record_bytes(d, pk) + tail, pre.len() as int) == (d, pk),
        next_pos(pre + record_bytes(d, pk) + tail, pre.len() as int) == (pre + record_bytes(d, pk)).len(),
{
    let b = pre + record_bytes(d, pk) + tail;
    let p = pre.len() as int;
    assert(b =~= pre + le_u64_bytes(d) + (le_u32_bytes(pk.len() as u32) + pk + tail));
    lemma_le_u64_roundtrip(d, pre, le_u32_bytes(pk.len() as u32) + pk + tail);
    assert(b =~= pre + le_u64_bytes(d) + le_u32_bytes(pk.len() as u32) + (pk + tail));
    lemma_le_u32_roundtrip(pk.len() as u32, pre + le_u64_bytes(d), pk + tail);
    assert(b.subrange(p + 12, p + 12 + pk.len()) =~= pk);
}

/// Decoding a record stream that starts at `pos` with `rest` encoded after
/// some prefix yields exactly those records.
proof fn lemma_decode_encoded(pre: Seq<u8>, records: Seq<(u64, Seq<u8>)>)
    requires
        records_fit(records),
    ensures
        decode_records(pre + encode_records(records), pre.len() as int) =~= records,
    decreases records.len(),
{
    let b = pre + encode_records(records);
    let p = pre.len() as int;
    if records.len() == 0 {
        assert(!has_record_header(b, p));
    } else {
        let d = records[0].0;
        let pk = records[0].1;
        assert(records[0].1.len() <= u32::MAX);
        let tail = encode_records(records.drop_first());
        assert(b =~= pre + record_bytes(d, pk) + tail);
        lemma_decode_first(pre, d, pk, tail);
        let pre2 = pre + record_bytes(d, pk);
        assert(b =~= pre2 + tail);
        assert(records_fit(records.drop_first())) by {
            assert forall|k: int| 0 <= k < records.drop_first().len() implies (#[trigger] records.drop_first()[k]).1.len() <= u32::MAX by {
                assert(records.drop_first()[k] == records[k + 1]);
            }
        }
        lemma_decode_encoded(pre2, records.drop_first());
        assert(decode_records(b, p) == seq![record_at(b, p)] + decode_records(b, next_pos(b, p)));
        assert(decode_records(b, p) =~= seq![(d, pk)] + records.drop_first());
    }
}

/// Encoding two lists of records one after the other gives the bytes of
/// each, one after the other.
proof fn lemma_encode_append(a: Seq<(u64, Seq<u8>)>, b: Seq<(u64, Seq<u8>)>)
    ensures
        encode_records(a + b) =~= encode_records(a) + encode_records(b),
    decreases a.len(),
{
    if a.len() == 0 {
        assert(a + b =~= b);
        assert(encode_records(a) =~= Seq::<u8>::empty());
    } else {
        assert((a + b).drop_first() =~= a.drop_first() + b);
        lemma_encode_append(a.drop_first(), b);
    }
}

/// Where the `i`-th record (counted from zero) of a recording of
/// `records` starts: after the magic and the records before it.
pub open spec fn record_start(records: Seq<(u64, Seq<u8>)>, i: int) -> int {
    QRAW_MAGIC_LEN + encode_records(records.take(i)).len()
}

/// Reading a recording of `records` record by record: a reader that
/// stands at the start of record `i < k` finds a whole record there, that
/// record is the `i`-th one written, and reading it leaves the reader at
/// the start of record `i + 1`; at the start of record `k`, the end of the
/// recording, no record header remains. With `QrawReader::new`, which
/// leaves the reader at the start of record 0, and `next_packet`, which
/// reads one whole record per call and otherwise gives `Ok(None)` without
/// moving, the `i`-th call gives back the `i`-th packet with its arrival
/// delta, and every call after the `k`-th gives `Ok(None)`.
pub proof fn lemma_reader_walks_records(records: Seq<(u64, Seq<u8>)>, i: int)
    requires
        records_fit(records),
        0 <= i <= records.len(),
    ensures
        record_start(records, 0) == QRAW_MAGIC_LEN,
        i < records.len() ==> {
            &&& has_record(qraw_stream(records), record_start(records, i))
            &&& record_at(qraw_stream(records), record_start(records, i)) == records[i]
            &&& next_pos(qraw_stream(records), record_start(records, i)) == record_start(records, i + 1)
        },
        i == records.len() ==> record_start(records, i) == qraw_stream(records).len() && !has_record_header(
            qraw_stream(records),
            record_start(records, i),
        ),
{
    assert(records.take(0) =~= Seq::<(u64, Seq<u8>)>::empty());
    assert(encode_records(records.take(0)) =~= Seq::<u8>::empty());
    assert(records =~= records.take(i) + records.skip(i));
    lemma_encode_append(records.take(i), records.skip(i));
    let pre = qraw_magic() + encode_records(records.take(i));
    assert(qraw_stream(records) =~= pre + encode_records(records.skip(i)));
    if i < records.len() {
        let d = records[i].0;
        let pk = records[i].1;
        assert(records[i].1.len() <= u32::MAX);
        let tail = encode_records(records.skip(i + 1));
        assert(records.skip(i) =~= seq![records[i]] + records.skip(i + 1));
        lemma_encode_append(seq![records[i]], records.skip(i + 1));
        assert(seq![records[i]].drop_first() =~= Seq::<(u64, Seq<u8>)>::empty());
        assert(encode_records(Seq::<(u64, Seq<u8>)>::empty()) =~= Seq::<u8>::empty());
        assert(encode_records(seq![records[i]]) =~= record_bytes(d, pk));
        assert(qraw_stream(records) =~= pre + record_bytes(d, pk) + tail);
        lemma_decode_first(pre, d, pk, tail);
        assert(records.take(i + 1) =~= records.take(i).push(records[i]));
        lemma_encode_push(records.take(i), records[i]);
    } else {
        assert(records.skip(i) =~= Seq::<(u64, Seq<u8>)>::empty());
        assert(encode_records(records.skip(i)) =~= Seq::<u8>::empty());
    }
}

/// A reader finds in a recording exactly the packets, with their arrival
/// deltas, that a writer put into it, in the order they were written.
pub proof fn lemma_qraw_roundtrip(records: Seq<(u64, Seq<u8>)>)
    requires
        records_fit(records),
    ensures
        decode_records(qraw_stream(records), QRAW_MAGIC_LEN as int) =~= records,
{
    assert(qraw_magic().len() == QRAW_MAGIC_LEN);
    lemma_decode_encoded(qraw_magic(), records);
}

/// The message of a read that ends before the bytes it needs, as the
/// standard library gives it for an unexpected end of input.
pub open spec fn unexpected_end_text() -> Seq<char> {
    "failed to fill whole buffer"@
}

/// Reads packets back from a recording held in memory.
pub struct QrawReader {
    reader: Vec<u8>,
    pos: usize,
}

impl QrawReader {
    #[verifier::type_invariant]
    spec fn inv(self) -> bool {
        self.pos <= self.reader@.len()
    }

    /// The whole recording.
    pub closed spec fn bytes(self) -> Seq<u8> {
        self.reader@
    }

    /// Where the next record starts.
    pub closed spec fn position(self) -> int {
        self.pos as int
    }

    /// Checks the magic at the start of `reader` and positions the reader
    /// on the first record.
    pub fn new(reader: &[u8]) -> (r: Result<Self>)
        ensures
            reader@.len() < QRAW_MAGIC_LEN ==> (r matches Err(QuanergyError::Io(m)) && m@ == unexpected_end_text()),
            reader@.len() >= QRAW_MAGIC_LEN && reader@.subrange(0, 8) != qraw_magic() ==> (r matches Err(
                QuanergyError::ReplayFormat(m),
            ) && m@ == "invalid qraw magic"@),
            reader@.len() >= QRAW_MAGIC_LEN && reader@.subrange(0, 8) == qraw_magic() ==> (r matches Ok(q)
                && q.bytes() == reader@ && q.position() == QRAW_MAGIC_LEN),
    {
        if reader.len() < QRAW_MAGIC_LEN {
            return Err(QuanergyError::Io(String::from_str("failed to fill whole buffer")));
        }
        let ok = reader[0] == 0x51 && reader[1] == 0x52 && reader[2] == 0x41 && reader[3] == 0x57
            && reader[4] == 0x76 && reader[5] == 0x31 && reader[6] == 0 && reader[7] == 0;
        if !ok {
            assert(reader@.subrange(0, 8) != qraw_magic()) by {
                if reader@.subrange(0, 8) == qraw_magic() {
                    assert(reader@.subrange(0, 8)[0] == reader@[0]);
                    assert(reader@.subrange(0, 8)[1] == reader@[1]);
                    assert(reader@.subrange(0, 8)[2] == reader@[2]);
                    assert(reader@.subrange(0, 8)[3] == reader@[3]);
                    assert(reader@.subrange(0, 8)[4] == reader@[4]);
                    assert(reader@.subrange(0, 8)[5] == reader@[5]);
                    assert(reader@.subrange(0, 8)[6] == reader@[6]);
                    assert(reader@.subrange(0, 8)[7] == reader@[7]);
                }
            }
            return Err(QuanergyError::ReplayFormat(String::from_str("invalid qraw magic")));
        }
        assert(reader@.subrange(0, 8) =~= qraw_magic());
        let mut bytes: Vec<u8> = Vec::new();
        let mut i: usize = 0;
        while i < reader.len()
            invariant
                i <= reader@.len(),
                bytes@ =~= reader@.subrange(0, i as int),
            decreases reader.len() - i,
        {
            bytes.push(reader[i]);
            i = i + 1;
            assert(bytes@ =~= reader@.subrange(0, i as int));
        }
        assert(reader@.subrange(0, reader@.len() as int) =~= reader@);
        Ok(QrawReader { reader: bytes, pos: QRAW_MAGIC_LEN })
    }

    /// Reads the next record. At the end of the recording, where fewer
    /// bytes remain than a record header needs, there is no packet. A
    /// record whose packet bytes are cut short is an I/O error; a packet
    /// whose header does not parse is that parse error.
    pub fn next_packet(&mut self) -> (r: Result<Option<RawPacket>>)
        ensures
            final(self).bytes() == old(self).bytes(),
            !has_record_header(old(self).bytes(), old(self).position()) ==> (r matches Ok(None)
                && final(self).position() == old(self).position()),
            has_record_header(old(self).bytes(), old(self).position()) && !has_record(old(self).bytes(), old(self).position())
                ==> (r matches Err(QuanergyError::Io(m)) && m@ == unexpected_end_text()
                && final(self).position() == old(self).bytes().len()),
            has_record(old(self).bytes(), old(self).position()) ==> {
                let (delta, packet) = record_at(old(self).bytes(), old(self).position());
                &&& final(self).position() == next_pos(old(self).bytes(), old(self).position())
                &&& match spec_parse_header(packet) {
                    Ok(h) => r matches Ok(Some(p)) && p.header == h && p.bytes@ == packet
                        && p.arrival_delta_ns == delta,
                    Err(e) => r matches Err(e2) && e2 == e,
                }
            },
    {
        proof {
            use_type_invariant(&*self);
        }
        let remaining = self.reader.len() - self.pos;
        if remaining < QRAW_RECORD_HEADER_LEN {
            return Ok(None);
        }
        let delta_ns = read_le_u64(self.reader.as_slice(), self.pos);
        let len = read_le_u32(self.reader.as_slice(), self.pos + 8) as usize;
        if remaining - QRAW_RECORD_HEADER_LEN < len {
            self.pos = self.reader.len();
            return Err(QuanergyError::Io(String::from_str("failed to fill whole buffer")));
        }
        let start = self.pos + QRAW_RECORD_HEADER_LEN;
        let mut bytes: Vec<u8> = Vec::new();
        let mut i: usize = 0;
        while i < len
            invariant
                start + len <= self.reader.len(),
                i <= len,
                bytes@ =~= self.reader@.subrange(start as int, start + i),
            decreases len - i,
        {
            bytes.push(self.reader[start + i]);
            i = i + 1;
            assert(bytes@ =~= self.reader@.subrange(start as int, start + i));
        }
        self.pos = start + len;
        match RawPacket::parse(bytes, delta_ns) {
            Ok(p) => Ok(Some(p)),
            Err(e) => Err(e),
        }
    }
}

/// The sidecar file that describes a recording: its path with `.toml`
/// appended.
pub fn sidecar_path(qraw_path: &str) -> (r: String)
    ensures
        r@ == qraw_path@ + ".toml"@,
{
    String::from_str(qraw_path).concat(".toml")
}

/// A moment in time, as the `time` crate keeps it.
#[verifier::external_type_specification]
#[verifier::external_body]
pub struct ExOffsetDateTime(time::OffsetDateTime);

/// `time::OffsetDateTime::now_utc`: the current time. It depends on the
/// clock, so nothing is stated of it.
#[verifier::external_body]
fn now_utc() -> time::OffsetDateTime {
    time::OffsetDateTime::now_utc()
}

/// Whether `c` is an ASCII decimal digit.
pub open spec fn is_ascii_digit(c: char) -> bool {
    '0' <= c && c <= '9'
}

/// The shape of an RFC 3339 timestamp: a date `YYYY-MM-DD`, `T`, a time
/// `HH:MM:SS`, then at least one more character (fraction or offset).
pub open spec fn rfc3339_shaped(s: Seq<char>) -> bool {
    &&& s.len() >= 20
    &&& forall|i: int| #![trigger s[i]] (0 <= i < 4 || 5 <= i < 7 || 8 <= i < 10 || 11 <= i < 13 || 14 <= i < 16
        || 17 <= i < 19) ==> is_ascii_digit(s[i])
    &&& s[4] == '-' && s[7] == '-' && s[10] == 'T' && s[13] == ':' && s[16] == ':'
}

/// `time::OffsetDateTime::format` with the RFC 3339 description; `None`
/// when the time cannot be written in that form (a year outside
/// 0..=9999, an offset with seconds). Its text starts with the zero-padded
/// date and time `YYYY-MM-DDTHH:MM:SS` and goes on with an optional
/// fraction and the offset (`Z` or `+HH:MM`), as the crate's formatter
/// writes it; which moment it names is not stated.
#[verifier::external_body]
fn format_rfc3339(t: time::OffsetDateTime) -> (r: Option<String>)
    ensures
        r matches Some(s) ==> rfc3339_shaped(s@),
{
    t.format(&time::format_description::well_known::Rfc3339).ok()
}

/// The current time in RFC 3339 form, or the Unix epoch when the clock's
/// time cannot be written in that form. Either way the text has the shape
/// of an RFC 3339 timestamp; which moment it names depends on the clock.
pub fn current_time_string() -> (r: String)
    ensures
        rfc3339_shaped(r@),
{
    match format_rfc3339(now_utc()) {
        Some(text) => text,
        None => {
            let text = String::from_str("1970-01-01T00:00:00Z");
            proof {
                reveal_strlit("1970-01-01T00:00:00Z");
            }
            text
        },
    }
}

} // verus!
