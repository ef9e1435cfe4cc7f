//! The 22-byte header that precedes every audio payload on the wire.
//!
//! | offset | size | field                         |
//! |--------|------|-------------------------------|
//! | 0      | 2    | magic `RM`                    |
//! | 2      | 4    | sequence, big-endian          |
//! | 6      | 1    | format code                   |
//! | 7      | 1    | channel count                 |
//! | 8      | 4    | sample rate, big-endian       |
//! | 12     | 2    | payload length, big-endian    |
//! | 14     | 8    | timestamp in ns, big-endian   |

use crate::types::FRAME_MAGIC;
use vstd::prelude::*;

verus! {

/// Length of the frame header in bytes.
pub const HEADER_LEN: usize = 22;

/// Largest payload a frame can declare.
pub const MAX_PAYLOAD: usize = 65535;

/// The fields of a frame header.
#[derive(Clone, Copy, Debug, PartialEq, Eq, Structural)]
pub struct FrameHeader {
    pub sequence: u32,
    pub format_code: u8,
    pub channels: u8,
    pub sample_rate: u32,
    pub payload_len: u16,
    pub timestamp_ns: u64,
}

/// The two bytes of `x`, most significant first.
pub open spec fn spec_be16(x: u16) -> Seq<u8> {
    seq![(x / 0x100) as u8, (x % 0x100) as u8]
}

/// The four bytes of `x`, most significant first.
pub open spec fn spec_be32(x: u32) -> Seq<u8> {
    spec_be16((x / 0x1_0000) as u16) + spec_be16((x % 0x1_0000) as u16)
}

/// The eight bytes of `x`, most significant first.
pub open spec fn spec_be64(x: u64) -> Seq<u8> {
    spec_be32((x / 0x1_0000_0000) as u32) + spec_be32((x % 0x1_0000_0000) as u32)
}

/// The number that the bytes of `b` spell, most significant first.
pub open spec fn spec_from_be(b: Seq<u8>) -> nat
    decreases b.len(),
{
    if b.len() == 0 {
        0
    } else {
        spec_from_be(b.drop_last()) * 256 + b.last() as nat
    }
}

/// The 22 header bytes of `h`.
pub open spec fn spec_encode_header(h: FrameHeader) -> Seq<u8> {
    seq![FRAME_MAGIC[0], FRAME_MAGIC[1]] + spec_be32(h.sequence) + seq![h.format_code, h.channels]
        + spec_be32(h.sample_rate) + spec_be16(h.payload_len) + spec_be64(h.timestamp_ns)
}

/// Whether `bytes` begins with a whole header carrying the magic.
pub open spec fn spec_has_header(bytes: Seq<u8>) -> bool {
    &&& bytes.len() >= HEADER_LEN
    &&& bytes[0] == FRAME_MAGIC[0]
    &&& bytes[1] == FRAME_MAGIC[1]
}

/// The header at the start of `bytes`; `None` when `bytes` is shorter than a
/// header or does not start with the magic.
pub open spec fn spec_decode_header(bytes: Seq<u8>) -> Option<FrameHeader> {
    if spec_has_header(bytes) {
        Some(
            FrameHeader {
                sequence: spec_from_be(bytes.subrange(2, 6)) as u32,
                format_code: bytes[6],
                channels: bytes[7],
                sample_rate: spec_from_be(bytes.subrange(8, 12)) as u32,
                payload_len: spec_from_be(bytes.subrange(12, 14)) as u16,
                timestamp_ns: spec_from_be(bytes.subrange(14, 22)) as u64,
            },
        )
    } else {
        None
    }
}

/// Unfolds [`spec_from_be`] on two bytes.
pub proof fn lemma_from_be_2(b: Seq<u8>)
    requires
        b.len() == 2,
    ensures
        spec_from_be(b) == b[0] as nat * 0x100 + b[1] as nat,
{
    reveal_with_fuel(spec_from_be, 3);
    assert(b.drop_last().drop_last().len() == 0);
}

/// Unfolds [`spec_from_be`] on four bytes.
pub proof fn lemma_from_be_4(b: Seq<u8>)
    requires
        b.len() == 4,
    ensures
        spec_from_be(b) == b[0] as nat * 0x100_0000 + b[1] as nat * 0x1_0000 + b[2] as nat * 0x100
            + b[3] as nat,
{
    lemma_from_be_2(b.subrange(0, 2));
    assert(b.drop_last().drop_last() =~= b.subrange(0, 2));
    reveal_with_fuel(spec_from_be, 3);
}

/// Unfolds [`spec_from_be`] on eight bytes.
pub proof fn lemma_from_be_8(b: Seq<u8>)
    requires
        b.len() == 8,
    ensures
        spec_from_be(b) == b[0] as nat * 0x100_0000_0000_0000 + b[1] as nat * 0x1_0000_0000_0000
            + b[2] as nat * 0x100_0000_0000 + b[3] as nat * 0x1_0000_0000 + b[4] as nat
            * 0x100_0000 + b[5] as nat * 0x1_0000 + b[6] as nat * 0x100 + b[7] as nat,
{
    lemma_from_be_4(b.subrange(0, 4));
    let b5 = b.subrange(0, 5);
    let b6 = b.subrange(0, 6);
    let b7 = b.subrange(0, 7);
    assert(b5.drop_last() =~= b.subrange(0, 4));
    assert(b6.drop_last() =~= b5);
    assert(b7.drop_last() =~= b6);
    assert(b.drop_last() =~= b7);
    assert(spec_from_be(b5) == spec_from_be(b.subrange(0, 4)) * 256 + b[4] as nat);
    assert(spec_from_be(b6) == spec_from_be(b5) * 256 + b[5] as nat);
    assert(spec_from_be(b7) == spec_from_be(b6) * 256 + b[6] as nat);
    assert(spec_from_be(b) == spec_from_be(b7) * 256 + b[7] as nat);
}

/// Reading back the big-endian bytes of a 16-bit number gives the number.
pub proof fn lemma_be16_round_trip(x: u16)
    ensures
        spec_be16(x).len() == 2,
        spec_from_be(spec_be16(x)) == x,
{
    lemma_from_be_2(spec_be16(x));
}

/// Reading back the big-endian bytes of a 32-bit number gives the number.
pub proof fn lemma_be32_round_trip(x: u32)
    ensures
        spec_be32(x).len() == 4,
        spec_from_be(spec_be32(x)) == x,
{
    let hi = (x / 0x1_0000) as u16;
    let lo = (x % 0x1_0000) as u16;
    let b = spec_be32(x);
    lemma_from_be_4(b);
    lemma_from_be_2(spec_be16(hi));
    lemma_from_be_2(spec_be16(lo));
    assert(b.subrange(0, 2) =~= spec_be16(hi));
    assert(b.subrange(2, 4) =~= spec_be16(lo));
    assert(spec_from_be(spec_be16(hi)) == hi);
    assert(spec_from_be(spec_be16(lo)) == lo);
    assert(spec_from_be(b) == hi as nat * 0x1_0000 + lo as nat);
}

/// Reading back the big-endian bytes of a 64-bit number gives the number.
pub proof fn lemma_be64_round_trip(x: u64)
    ensures
        spec_be64(x).len() == 8,
        spec_from_be(spec_be64(x)) == x,
{
    let hi = (x / 0x1_0000_0000) as u32;
    let lo = (x % 0x1_0000_0000) as u32;
    let b = spec_be64(x);
    lemma_be32_round_trip(hi);
    lemma_be32_round_trip(lo);
    lemma_from_be_8(b);
    lemma_from_be_4(spec_be32(hi));
    lemma_from_be_4(spec_be32(lo));
    assert(b.subrange(0, 4) =~= spec_be32(hi));
    assert(b.subrange(4, 8) =~= spec_be32(lo));
    assert(spec_from_be(b) == hi as nat * 0x1_0000_0000 + lo as nat);
}

/// Decoding the encoding of a header, with any payload behind it, gives the
/// header back field by field.
pub proof fn lemma_header_round_trip(h: FrameHeader, payload: Seq<u8>)
    ensures
        spec_encode_header(h).len() == HEADER_LEN,
        spec_decode_header(spec_encode_header(h) + payload) == Some(h),
{
    let bytes = spec_encode_header(h) + payload;
    lemma_be16_round_trip(h.payload_len);
    lemma_be32_round_trip(h.sequence);
    lemma_be32_round_trip(h.sample_rate);
    lemma_be64_round_trip(h.timestamp_ns);
    assert(bytes.subrange(2, 6) =~= spec_be32(h.sequence));
    assert(bytes.subrange(8, 12) =~= spec_be32(h.sample_rate));
    assert(bytes.subrange(12, 14) =~= spec_be16(h.payload_len));
    assert(bytes.subrange(14, 22) =~= spec_be64(h.timestamp_ns));
    assert(bytes[6] == h.format_code);
    assert(bytes[7] == h.channels);
}

/// Anything shorter than a header decodes to nothing.
pub proof fn lemma_short_buffer_rejected(bytes: Seq<u8>)
    requires
        bytes.len() < HEADER_LEN,
    ensures
        spec_decode_header(bytes) is None,
{
}

/// Appends the big-endian bytes of `x` to `out`.
pub fn push_be16(out: &mut Vec<u8>, x: u16)
    ensures
        final(out)@ == old(out)@ + spec_be16(x),
{
    out.push((x / 0x100) as u8);
    out.push((x % 0x100) as u8);
    assert(out@ =~= old(out)@ + spec_be16(x));
}

/// Appends the big-endian bytes of `x` to `out`.
pub fn push_be32(out: &mut Vec<u8>, x: u32)
    ensures
        final(out)@ == old(out)@ + spec_be32(x),
{
    push_be16(out, (x / 0x1_0000) as u16);
    push_be16(out, (x % 0x1_0000) as u16);
    assert(out@ =~= old(out)@ + spec_be32(x));
}

/// Appends the big-endian bytes of `x` to `out`.
pub fn push_be64(out: &mut Vec<u8>, x: u64)
    ensures
        final(out)@ == old(out)@ + spec_be64(x),
{
    push_be32(out, (x / 0x1_0000_0000) as u32);
    push_be32(out, (x % 0x1_0000_0000) as u32);
    assert(out@ =~= old(out)@ + spec_be64(x));
}

/// Reads the big-endian `u16` at `at`.
pub fn read_be16(buf: &[u8], at: usize) -> (x: u16)
    requires
        at + 2 <= buf@.len(),
    ensures
        x == spec_from_be(buf@.subrange(at as int, at + 2)),
{
    proof {
        lemma_from_be_2(buf@.subrange(at as int, at + 2));
    }
    (buf[at] as u16) * 0x100 + (buf[at + 1] as u16)
}

/// Reads the big-endian `u32` at `at`.
pub fn read_be32(buf: &[u8], at: usize) -> (x: u32)
    requires
        at + 4 <= buf@.len(),
    ensures
        x == spec_from_be(buf@.subrange(at as int, at + 4)),
{
    proof {
        lemma_from_be_4(buf@.subrange(at as int, at + 4));
    }
    (buf[at] as u32) * 0x100_0000 + (buf[at + 1] as u32) * 0x1_0000 + (buf[at + 2] as u32) * 0x100
        + (buf[at + 3] as u32)
}

/// Reads the big-endian `u64` at `at`.
pub fn read_be64(buf: &[u8], at: usize) -> (x: u64)
    requires
        at + 8 <= buf@.len(),
    ensures
        x == spec_from_be(buf@.subrange(at as int, at + 8)),
{
    proof {
        lemma_from_be_8(buf@.subrange(at as int, at + 8));
    }
    (buf[at] as u64) * 0x100_0000_0000_0000 + (buf[at + 1] as u64) * 0x1_0000_0000_0000 + (buf[at
        + 2] as u64) * 0x100_0000_0000 + (buf[at + 3] as u64) * 0x1_0000_0000 + (buf[at
        + 4] as u64) * 0x100_0000 + (buf[at + 5] as u64) * 0x1_0000 + (buf[at + 6] as u64) * 0x100
        + (buf[at + 7] as u64)
}

/// Writes the 22 header bytes of `h`.
pub fn encode_header(h: &FrameHeader) -> (bytes: Vec<u8>)
    ensures
        bytes@ == spec_encode_header(*h),
        bytes@.len() == HEADER_LEN,
{
    let mut bytes: Vec<u8> = Vec::with_capacity(HEADER_LEN);
    bytes.push(FRAME_MAGIC[0]);
    bytes.push(FRAME_MAGIC[1]);
    push_be32(&mut bytes, h.sequence);
    bytes.push(h.format_code);
    bytes.push(h.channels);
    push_be32(&mut bytes, h.sample_rate);
    push_be16(&mut bytes, h.payload_len);
    push_be64(&mut bytes, h.timestamp_ns);
    assert(bytes@ =~= spec_encode_header(*h));
    bytes
}

/// Reads the header at the start of `buf`. Nothing past the 22nd byte is
/// looked at, and nothing at all when `buf` is shorter than that.
pub fn decode_header(buf: &[u8]) -> (header: Option<FrameHeader>)
    ensures
        header == spec_decode_header(buf@),
{
    if buf.len() < HEADER_LEN {
        return None;
    }
    if buf[0] != FRAME_MAGIC[0] || buf[1] != FRAME_MAGIC[1] {
        return None;
    }
    Some(
        FrameHeader {
            sequence: read_be32(buf, 2),
            format_code: buf[6],
            channels: buf[7],
            sample_rate: read_be32(buf, 8),
            payload_len: read_be16(buf, 12),
            timestamp_ns: read_be64(buf, 14),
        },
    )
}

} // verus!
