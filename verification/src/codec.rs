//! Fixed-width integer encodings used by the sensor protocol (big endian)
//! and by the replay and storage formats (little endian).

use byteorder::{BigEndian, ByteOrder, LittleEndian};
use vstd::prelude::*;

verus! {

/// Big-endian value of the two bytes of `b` starting at `at`.
pub open spec fn be_u16_at(b: Seq<u8>, at: int) -> int {
    b[at] * 256 + b[at + 1]
}

/// Big-endian value of the four bytes of `b` starting at `at`.
pub open spec fn be_u32_at(b: Seq<u8>, at: int) -> int {
    b[at] * 16777216 + b[at + 1] * 65536 + b[at + 2] * 256 + b[at + 3]
}

/// Two's-complement reading of the big-endian 16-bit word at `at`.
pub open spec fn be_i16_at(b: Seq<u8>, at: int) -> int {
    if be_u16_at(b, at) >= 32768 {
        be_u16_at(b, at) - 65536
    } else {
        be_u16_at(b, at)
    }
}

/// Little-endian value of the four bytes of `b` starting at `at`.
pub open spec fn le_u32_at(b: Seq<u8>, at: int) -> int {
    b[at] + b[at + 1] * 256 + b[at + 2] * 65536 + b[at + 3] * 16777216
}

/// Little-endian value of the eight bytes of `b` starting at `at`.
pub open spec fn le_u64_at(b: Seq<u8>, at: int) -> int {
    le_u32_at(b, at) + le_u32_at(b, at + 4) * 4294967296
}

/// The four bytes of `n`, most significant first.
pub open spec fn be_u32_bytes(n: u32) -> Seq<u8> {
    seq![
        (n / 16777216) as u8,
        ((n / 65536) % 256) as u8,
        ((n / 256) % 256) as u8,
        (n % 256) as u8,
    ]
}

/// The four bytes of `n`, least significant first.
pub open spec fn le_u32_bytes(n: u32) -> Seq<u8> {
    seq![
        (n % 256) as u8,
        ((n / 256) % 256) as u8,
        ((n / 65536) % 256) as u8,
        (n / 16777216) as u8,
    ]
}

/// The eight bytes of `n`, least significant first.
pub open spec fn le_u64_bytes(n: u64) -> Seq<u8> {
    le_u32_bytes((n % 4294967296) as u32) + le_u32_bytes((n / 4294967296) as u32)
}

/// `byteorder::BigEndian::read_u16` on the bytes from `at`: the big-endian
/// value of the two bytes there.
#[verifier::external_body]
pub(crate) fn read_be_u16(buf: &[u8], at: usize) -> (v: u16)
    requires
        at + 2 <= buf@.len(),
    ensures
        v as int == be_u16_at(buf@, at as int),
{
    BigEndian::read_u16(&buf[at..])
}

/// `byteorder::BigEndian::read_i16` on the bytes from `at`: the
/// two's-complement big-endian value of the two bytes there.
#[verifier::external_body]
pub(crate) fn read_be_i16(buf: &[u8], at: usize) -> (v: i16)
    requires
        at + 2 <= buf@.len(),
    ensures
        v as int == be_i16_at(buf@, at as int),
{
    BigEndian::read_i16(&buf[at..])
}

/// `byteorder::BigEndian::read_u32` on the bytes from `at`: the big-endian
/// value of the four bytes there.
#[verifier::external_body]
pub(crate) fn read_be_u32(buf: &[u8], at: usize) -> (v: u32)
    requires
        at + 4 <= buf@.len(),
    ensures
        v as int == be_u32_at(buf@, at as int),
{
    BigEndian::read_u32(&buf[at..])
}

/// `byteorder::LittleEndian::read_u32` on the bytes from `at`: the
/// little-endian value of the four bytes there.
#[verifier::external_body]
pub(crate) fn read_le_u32(buf: &[u8], at: usize) -> (v: u32)
    requires
        at + 4 <= buf@.len(),
    ensures
        v as int == le_u32_at(buf@, at as int),
{
    LittleEndian::read_u32(&buf[at..])
}

/// `byteorder::LittleEndian::read_u64` on the bytes from `at`: the
/// little-endian value of the eight bytes there.
#[verifier::external_body]
pub(crate) fn read_le_u64(buf: &[u8], at: usize) -> (v: u64)
    requires
        at + 8 <= buf@.len(),
    ensures
        v as int == le_u64_at(buf@, at as int),
{
    LittleEndian::read_u64(&buf[at..])
}

/// `byteorder::BigEndian::write_u32` into a fresh four-byte buffer: the
/// bytes of `n`, most significant first.
#[verifier::external_body]
fn write_be_u32(n: u32) -> (b: [u8; 4])
    ensures
        b@ == be_u32_bytes(n),
{
    let mut b = [0u8; 4];
    BigEndian::write_u32(&mut b, n);
    b
}

/// `byteorder::LittleEndian::write_u32` into a fresh four-byte buffer: the
/// bytes of `n`, least significant first.
#[verifier::external_body]
fn write_le_u32(n: u32) -> (b: [u8; 4])
    ensures
        b@ == le_u32_bytes(n),
{
    let mut b = [0u8; 4];
    LittleEndian::write_u32(&mut b, n);
    b
}

/// `byteorder::LittleEndian::write_u64` into a fresh eight-byte buffer: the
/// bytes of `n`, least significant first.
#[verifier::external_body]
fn write_le_u64(n: u64) -> (b: [u8; 8])
    ensures
        b@ == le_u64_bytes(n),
{
    let mut b = [0u8; 8];
    LittleEndian::write_u64(&mut b, n);
    b
}

/// Appends the big-endian bytes of `n`.
pub fn push_be_u32(out: &mut Vec<u8>, n: u32)
    ensures
        final(out)@ == old(out)@ + be_u32_bytes(n),
{
    let b = write_be_u32(n);
    out.push(b[0]);
    out.push(b[1]);
    out.push(b[2]);
    out.push(b[3]);
    assert(out@ =~= old(out)@ + be_u32_bytes(n));
}

/// Appends the little-endian bytes of `n`.
pub fn push_le_u32(out: &mut Vec<u8>, n: u32)
    ensures
        final(out)@ == old(out)@ + le_u32_bytes(n),
{
    let b = write_le_u32(n);
    out.push(b[0]);
    out.push(b[1]);
    out.push(b[2]);
    out.push(b[3]);
    assert(out@ =~= old(out)@ + le_u32_bytes(n));
}

/// Appends the little-endian bytes of `n`.
pub fn push_le_u64(out: &mut Vec<u8>, n: u64)
    ensures
        final(out)@ == old(out)@ + le_u64_bytes(n),
{
    let b = write_le_u64(n);
    let mut i: usize = 0;
    while i < 8
        invariant
            0 <= i <= 8,
            b@ == le_u64_bytes(n),
            out@ =~= old(out)@ + b@.subrange(0, i as int),
        decreases 8 - i,
    {
        out.push(b[i]);
        i = i + 1;
        assert(out@ =~= old(out)@ + b@.subrange(0, i as int));
    }
    assert(b@.subrange(0, 8) =~= b@);
}

proof fn lemma_u32_from_bytes(n: u32, b0: u8, b1: u8, b2: u8, b3: u8)
    requires
        b0 == (n / 16777216) as u8,
        b1 == ((n / 65536) % 256) as u8,
        b2 == ((n / 256) % 256) as u8,
        b3 == (n % 256) as u8,
    ensures
        b0 * 16777216 + b1 * 65536 + b2 * 256 + b3 == n,
{
    let q0 = n / 16777216;
    let r0 = n % 16777216;
    assert(q0 < 256);
    assert(n == q0 * 16777216 + r0);
    assert(r0 / 65536 == (n / 65536) % 256);
    assert((r0 % 65536) / 256 == (n / 256) % 256);
    assert(r0 % 256 == n % 256);
}

/// Reading back the big-endian bytes of `n` gives `n`.
pub proof fn lemma_be_u32_roundtrip(n: u32, pre: Seq<u8>, post: Seq<u8>)
    ensures
        be_u32_at(pre + be_u32_bytes(n) + post, pre.len() as int) == n,
{
    let b = pre + be_u32_bytes(n) + post;
    let p = pre.len() as int;
    lemma_u32_from_bytes(n, b[p], b[p + 1], b[p + 2], b[p + 3]);
}

/// Reading back the little-endian bytes of `n` gives `n`.
pub proof fn lemma_le_u32_roundtrip(n: u32, pre: Seq<u8>, post: Seq<u8>)
    ensures
        le_u32_at(pre + le_u32_bytes(n) + post, pre.len() as int) == n,
{
    let b = pre + le_u32_bytes(n) + post;
    let p = pre.len() as int;
    lemma_u32_from_bytes(n, b[p + 3], b[p + 2], b[p + 1], b[p]);
}

/// Reading back the little-endian bytes of `n` gives `n`.
pub proof fn lemma_le_u64_roundtrip(n: u64, pre: Seq<u8>, post: Seq<u8>)
    ensures
        le_u64_at(pre + le_u64_bytes(n) + post, pre.len() as int) == n,
{
    let lo = (n % 4294967296) as u32;
    let hi = (n / 4294967296) as u32;
    let b = pre + le_u64_bytes(n) + post;
    assert(b =~= pre + le_u32_bytes(lo) + (le_u32_bytes(hi) + post));
    lemma_le_u32_roundtrip(lo, pre, le_u32_bytes(hi) + post);
    assert(b =~= (pre + le_u32_bytes(lo)) + le_u32_bytes(hi) + post);
    lemma_le_u32_roundtrip(hi, pre + le_u32_bytes(lo), post);
}

} // verus!
