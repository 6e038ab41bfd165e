//! Length-prefixed reliability framing.
//!
//! On the wire (all integers little-endian):
//!
//! ```text
//! | len: u16 | seq: u16 | ack: u16 | ack_bits: u32 | payload: [u8; len] |
//! ```
//!
//! `len` counts only the payload; the 8-byte header is fixed.

use vstd::prelude::*;
use crate::netcode::reliability::AckTracker;

verus! {

/// Fixed header after the length prefix: seq(2) + ack(2) + ack_bits(4).
pub const HEADER_LEN: usize = 8;

/// The length prefix itself: a `u16` payload length.
pub const LEN_PREFIX: usize = 2;

/// Total per-frame overhead on the wire (prefix + header).
pub const OVERHEAD: usize = 10;

/// Largest payload one frame can carry, bounded by the `u16` length prefix.
pub const MAX_PAYLOAD: usize = 65535;

/// A single reliability frame: the ack header plus an opaque payload.
#[derive(Debug, Clone, PartialEq, Eq)]
pub struct Frame {
    /// This frame's own sequence number (wraps at `u16::MAX`).
    pub seq: u16,
    /// The latest sequence the sender has received from the peer.
    pub ack: u16,
    /// Bitfield of the 32 sequences before `ack` that were received.
    pub ack_bits: u32,
    /// The opaque payload.
    pub payload: Vec<u8>,
}

/// The abstract content of a [`Frame`].
pub ghost struct FrameView {
    pub seq: u16,
    pub ack: u16,
    pub ack_bits: u32,
    pub payload: Seq<u8>,
}

impl View for Frame {
    type V = FrameView;

    open spec fn view(&self) -> FrameView {
        FrameView { seq: self.seq, ack: self.ack, ack_bits: self.ack_bits, payload: self.payload@ }
    }
}

/// A frame that could not be parsed or serialized.
#[derive(Debug, PartialEq, Eq, Clone, Copy)]
pub enum FramingError {
    /// The buffer ended before a full frame was present.
    Truncated {
        /// Bytes the frame requires.
        need: usize,
        /// Bytes actually available.
        got: usize,
    },
    /// The payload is larger than a `u16` length prefix can describe.
    PayloadTooLarge(usize),
}

/// Little-endian bytes of a `u16`.
pub open spec fn le16(v: u16) -> Seq<u8> {
    seq![(v & 0xff) as u8, ((v >> 8u16) & 0xff) as u8]
}

/// Little-endian bytes of a `u32`.
pub open spec fn le32(v: u32) -> Seq<u8> {
    seq![
        (v & 0xff) as u8,
        ((v >> 8u32) & 0xff) as u8,
        ((v >> 16u32) & 0xff) as u8,
        ((v >> 24u32) & 0xff) as u8,
    ]
}

/// The `u16` whose little-endian bytes are `b0, b1`.
pub open spec fn u16_le(b0: u8, b1: u8) -> u16 {
    ((b0 as u16) | ((b1 as u16) << 8u16)) as u16
}

/// The `u32` whose little-endian bytes are `b0..b3`.
pub open spec fn u32_le(b0: u8, b1: u8, b2: u8, b3: u8) -> u32 {
    ((b0 as u32) | ((b1 as u32) << 8u32) | ((b2 as u32) << 16u32) | ((b3 as u32) << 24u32)) as u32
}

/// The wire bytes of a frame whose payload fits the length prefix.
pub open spec fn encode_frame(f: FrameView) -> Seq<u8> {
    le16(f.payload.len() as u16) + le16(f.seq) + le16(f.ack) + le32(f.ack_bits) + f.payload
}

/// The payload length announced by the prefix of `buf` (which holds at least two bytes).
pub open spec fn announced_len(buf: Seq<u8>) -> int {
    u16_le(buf[0], buf[1]) as int
}

/// The frame at the front of `buf` and the number of bytes it spans, or
/// `None` when `buf` ends before a whole frame.
pub open spec fn parse_frame(buf: Seq<u8>) -> Option<(FrameView, int)> {
    if buf.len() < OVERHEAD || buf.len() < OVERHEAD + announced_len(buf) {
        None
    } else {
        Some(
            (
                FrameView {
                    seq: u16_le(buf[2], buf[3]),
                    ack: u16_le(buf[4], buf[5]),
                    ack_bits: u32_le(buf[6], buf[7], buf[8], buf[9]),
                    payload: buf.subrange(OVERHEAD as int, OVERHEAD + announced_len(buf)),
                },
                OVERHEAD + announced_len(buf),
            ),
        )
    }
}

/// How many bytes a truncated `buf` would have needed.
pub open spec fn bytes_needed(buf: Seq<u8>) -> int {
    if buf.len() < OVERHEAD {
        OVERHEAD as int
    } else {
        OVERHEAD + announced_len(buf)
    }
}

proof fn lemma_u16_roundtrip(v: u16)
    by (bit_vector)
    ensures
        (((v & 0xff) as u8) as u16 | ((((v >> 8u16) & 0xff) as u8) as u16) << 8u16) == v,
{
}

proof fn lemma_u32_roundtrip(v: u32)
    by (bit_vector)
    ensures
        (((v & 0xff) as u8) as u32 | ((((v >> 8u32) & 0xff) as u8) as u32) << 8u32 | ((((v
            >> 16u32) & 0xff) as u8) as u32) << 16u32 | ((((v >> 24u32) & 0xff) as u8) as u32)
            << 24u32) == v,
{
}

/// Decoding the encoding of a frame gives the frame back and reports exactly
/// the bytes it spans, whatever follows it in the buffer.
pub proof fn lemma_decode_encode(f: FrameView, rest: Seq<u8>)
    requires
        f.payload.len() <= MAX_PAYLOAD,
    ensures
        parse_frame(encode_frame(f) + rest) == Some((f, OVERHEAD + f.payload.len())),
{
    let buf = encode_frame(f) + rest;
    let n = f.payload.len() as u16;
    lemma_u16_roundtrip(n);
    lemma_u16_roundtrip(f.seq);
    lemma_u16_roundtrip(f.ack);
    lemma_u32_roundtrip(f.ack_bits);
    assert(buf[0] == le16(n)[0]);
    assert(buf[1] == le16(n)[1]);
    assert(announced_len(buf) == f.payload.len());
    assert(buf.subrange(OVERHEAD as int, OVERHEAD + announced_len(buf)) =~= f.payload);
    assert(buf[2] == le16(f.seq)[0] && buf[3] == le16(f.seq)[1]);
    assert(buf[4] == le16(f.ack)[0] && buf[5] == le16(f.ack)[1]);
    assert(buf[6] == le32(f.ack_bits)[0] && buf[7] == le32(f.ack_bits)[1]);
    assert(buf[8] == le32(f.ack_bits)[2] && buf[9] == le32(f.ack_bits)[3]);
}

fn push_u16_le(buf: &mut Vec<u8>, v: u16)
    ensures
        final(buf)@ == old(buf)@ + le16(v),
{
    buf.push((v & 0xff) as u8);
    buf.push(((v >> 8) & 0xff) as u8);
    assert(final(buf)@ =~= old(buf)@ + le16(v));
}

fn push_u32_le(buf: &mut Vec<u8>, v: u32)
    ensures
        final(buf)@ == old(buf)@ + le32(v),
{
    buf.push((v & 0xff) as u8);
    buf.push(((v >> 8) & 0xff) as u8);
    buf.push(((v >> 16) & 0xff) as u8);
    buf.push(((v >> 24) & 0xff) as u8);
    assert(final(buf)@ =~= old(buf)@ + le32(v));
}

impl Frame {
    /// A frame with an explicit ack header.
    pub fn new(seq: u16, ack: u16, ack_bits: u32, payload: Vec<u8>) -> (f: Self)
        ensures
            f.seq == seq,
            f.ack == ack,
            f.ack_bits == ack_bits,
            f.payload == payload,
    {
        Self { seq, ack, ack_bits, payload }
    }

    /// A frame stamping the current ack state from `acks`: copies its latest
    /// sequence into `ack` and its bitfield into `ack_bits`.
    pub fn with_acks(seq: u16, acks: &AckTracker, payload: Vec<u8>) -> (f: Self)
        ensures
            f.seq == seq,
            f.ack == acks@.latest,
            f.ack_bits == acks@.bits,
            f.payload == payload,
    {
        Self::new(seq, acks.latest(), acks.ack_bits(), payload)
    }

    /// Serialize to bytes. Errors only if the payload exceeds [`MAX_PAYLOAD`].
    pub fn encode(&self) -> (r: Result<Vec<u8>, FramingError>)
        ensures
            self.payload.len() > MAX_PAYLOAD <==> r == Err::<Vec<u8>, FramingError>(
                FramingError::PayloadTooLarge(self.payload.len()),
            ),
            r is Ok <==> self.payload.len() <= MAX_PAYLOAD,
            r is Ok ==> r->Ok_0@ == encode_frame(self@),
    {
        let n = self.payload.len();
        if n > MAX_PAYLOAD {
            return Err(FramingError::PayloadTooLarge(n));
        }
        let len: u16 = n as u16;
        let mut buf: Vec<u8> = Vec::with_capacity(OVERHEAD + n);
        push_u16_le(&mut buf, len);
        push_u16_le(&mut buf, self.seq);
        push_u16_le(&mut buf, self.ack);
        push_u32_le(&mut buf, self.ack_bits);
        let ghost head = buf@;
        let mut i: usize = 0;
        while i < n
            invariant
                i <= n,
                n == self.payload.len(),
                buf@ == head + self.payload@.take(i as int),
            decreases n - i,
        {
            buf.push(self.payload[i]);
            i = i + 1;
            assert(buf@ =~= head + self.payload@.take(i as int));
        }
        assert(self.payload@.take(n as int) =~= self.payload@);
        Ok(buf)
    }

    /// Parse one frame from the front of `buf`, returning it and the number of
    /// bytes consumed (so a caller can parse the next frame from `buf[n..]`).
    pub fn decode(buf: &[u8]) -> (r: Result<(Self, usize), FramingError>)
        ensures
            match parse_frame(buf@) {
                Some((v, n)) => r matches Ok((f, m)) && f@ == v && m == n,
                None => r == Err::<(Self, usize), FramingError>(
                    FramingError::Truncated { need: bytes_needed(buf@) as usize, got: buf@.len() as usize },
                ),
            },
    {
        if buf.len() < OVERHEAD {
            return Err(FramingError::Truncated { need: OVERHEAD, got: buf.len() });
        }
        let payload_len: usize = ((buf[0] as u16) | ((buf[1] as u16) << 8)) as usize;
        let total: usize = OVERHEAD + payload_len;
        if buf.len() < total {
            return Err(FramingError::Truncated { need: total, got: buf.len() });
        }
        let seq: u16 = (buf[2] as u16) | ((buf[3] as u16) << 8);
        let ack: u16 = (buf[4] as u16) | ((buf[5] as u16) << 8);
        let ack_bits: u32 = (buf[6] as u32) | ((buf[7] as u32) << 8) | ((buf[8] as u32) << 16) | ((
        buf[9] as u32) << 24);
        let mut payload: Vec<u8> = Vec::with_capacity(payload_len);
        let mut i: usize = OVERHEAD;
        while i < total
            invariant
                OVERHEAD <= i <= total,
                total <= buf@.len(),
                payload@ == buf@.subrange(OVERHEAD as int, i as int),
            decreases total - i,
        {
            payload.push(buf[i]);
            i = i + 1;
            assert(payload@ =~= buf@.subrange(OVERHEAD as int, i as int));
        }
        Ok((Self::new(seq, ack, ack_bits, payload), total))
    }
}

} // verus!
