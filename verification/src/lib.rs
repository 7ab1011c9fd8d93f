//! A verified codec for the DNS wire message format: a bounded 512-byte
//! packet buffer with a cursor, the compressed domain-name encoding with
//! loop protection, the 12-byte header bit packing, and the codecs for
//! questions, resource records and whole messages, plus the pure parts of
//! a single-query forwarding flow.
use vstd::prelude::*;

pub mod buffer;
pub mod header;
pub mod laws;
pub mod name;
pub mod packet;
pub mod record;
pub mod resolver;

verus! {

/// Number of bytes in one packet buffer: DNS over a datagram transport
/// never carries more than 512 bytes here.
pub const BUF_SIZE: usize = 512;

/// Every failure the codec can report.  All codec operations return one of
/// these instead of panicking, whatever the input bytes hold.
#[derive(Clone, Copy, Debug, PartialEq, Eq, Structural)]
pub enum DnsError {
    /// A read or write would touch a byte outside the 512-byte buffer.
    OutOfBounds,
    /// More than five compression-pointer jumps occurred while decoding
    /// one domain name.
    CompressionLoopExceeded,
    /// A domain-name label longer than 63 bytes was handed to the encoder.
    LabelTooLong,
}

/// The big-endian 16-bit value formed by two bytes.
pub open spec fn u16_of(hi: u8, lo: u8) -> u16 {
    (hi * 256 + lo) as u16
}

/// The big-endian 32-bit value formed by four bytes.
pub open spec fn u32_of(b0: u8, b1: u8, b2: u8, b3: u8) -> u32 {
    (b0 * 0x1000000 + b1 * 0x10000 + b2 * 256 + b3) as u32
}

/// The two big-endian bytes of a 16-bit value, most significant first.
pub open spec fn u16_bytes(v: u16) -> Seq<u8> {
    seq![(v / 256) as u8, (v % 256) as u8]
}

/// The four big-endian bytes of a 32-bit value, most significant first.
pub open spec fn u32_bytes(v: u32) -> Seq<u8> {
    seq![
        (v / 0x1000000) as u8,
        ((v / 0x10000) % 256) as u8,
        ((v / 256) % 256) as u8,
        (v % 256) as u8,
    ]
}

/// The buffer contents after `bytes` has been written at offset `pos`,
/// leaving every byte outside that range as it was.
pub open spec fn splice(buf: Seq<u8>, pos: int, bytes: Seq<u8>) -> Seq<u8> {
    Seq::new(buf.len(), |i: int| if pos <= i < pos + bytes.len() { bytes[i - pos] } else { buf[i] })
}

/// Every byte outside the offset range `[from, to)` holds the same value
/// in `after` as in `before`: what a write run may touch is only the range
/// it spans.
pub open spec fn unchanged_outside(before: Seq<u8>, after: Seq<u8>, from: int, to: int) -> bool {
    after.len() == before.len() && forall|i: int|
        0 <= i < before.len() && !(from <= i < to) ==> after[i] == before[i]
}

/// A splice touches only the range it spans.
pub proof fn lemma_splice_frame(buf: Seq<u8>, pos: int, bytes: Seq<u8>)
    ensures
        unchanged_outside(buf, splice(buf, pos, bytes), pos, pos + bytes.len()),
{
}

/// Two write runs, the second starting where the first ended, touch only
/// the range both together span.
pub proof fn lemma_unchanged_outside_trans(
    b0: Seq<u8>,
    b1: Seq<u8>,
    b2: Seq<u8>,
    from: int,
    mid: int,
    to: int,
)
    requires
        unchanged_outside(b0, b1, from, mid),
        unchanged_outside(b1, b2, mid, to),
        from <= mid <= to,
    ensures
        unchanged_outside(b0, b2, from, to),
{
}

/// Writing `x` and then `y` right after it changes the buffer exactly as
/// writing `x + y` at once does.
pub proof fn lemma_splice_concat(buf: Seq<u8>, pos: int, x: Seq<u8>, y: Seq<u8>)
    requires
        0 <= pos,
        pos + x.len() + y.len() <= buf.len(),
    ensures
        splice(splice(buf, pos, x), pos + x.len(), y) == splice(buf, pos, x + y),
{
    assert(splice(splice(buf, pos, x), pos + x.len(), y) =~= splice(buf, pos, x + y));
}

/// Overwriting one byte is the one-byte case of `splice`.
pub proof fn lemma_update_is_splice(buf: Seq<u8>, pos: int, v: u8)
    requires
        0 <= pos < buf.len(),
    ensures
        buf.update(pos, v) == splice(buf, pos, seq![v]),
{
    assert(buf.update(pos, v) =~= splice(buf, pos, seq![v]));
}

/// Patching the middle part of an already-written run with fresh bytes of
/// the same length gives the buffer that writing the patched run at once
/// would have given.
pub proof fn lemma_splice_patch(
    buf: Seq<u8>,
    pos: int,
    x: Seq<u8>,
    m: Seq<u8>,
    m2: Seq<u8>,
    y: Seq<u8>,
)
    requires
        0 <= pos,
        m.len() == m2.len(),
        pos + x.len() + m.len() + y.len() <= buf.len(),
    ensures
        splice(splice(buf, pos, x + m + y), pos + x.len(), m2) == splice(buf, pos, x + m2 + y),
{
    assert(splice(splice(buf, pos, x + m + y), pos + x.len(), m2) =~= splice(buf, pos, x + m2 + y));
}

/// Reading two big-endian bytes recovers the 16-bit value they encode.
pub proof fn lemma_u16_round_trip(v: u16)
    ensures
        u16_of(u16_bytes(v)[0], u16_bytes(v)[1]) == v,
{
}

/// Reading four big-endian bytes recovers the 32-bit value they encode.
pub proof fn lemma_u32_round_trip(v: u32)
    ensures
        u32_of(u32_bytes(v)[0], u32_bytes(v)[1], u32_bytes(v)[2], u32_bytes(v)[3]) == v,
{
}

} // verus!
