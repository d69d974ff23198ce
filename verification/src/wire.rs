//! Wire encoding and decoding of messages.
//!
//! Frame layout (little-endian):
//! ```text
//! [magic: 4B "ROX\0"] [version: 1B] [flags: 1B] [header_len: 2B]
//! [key_len: 2B] [key: key_len B, UTF-8]
//! [hw_time: 8B] [logical_time: 8B]
//! [priority: 1B] [reliability: 1B] [durability: 1B]
//! [deadline_us: 8B (0 = none)] [lifespan_us: 8B (0 = none)]
//! [source_id_len: 2B] [source_id: source_id_len B, UTF-8]
//! [sequence: 8B]
//! [payload_len: 4B] [payload: payload_len B]
//! ```

use vstd::prelude::*;
use vstd::utf8::{decode_utf8, encode_utf8, valid_utf8};
use crate::keyexpr::KeyExpr;
use crate::message::{HeaderView, MessageHeader, MessageView, RoxMessage, RoxTimestamp};
use crate::zbuf::{bytes_from_vec, bytes_slice, bytes_view};
use bytes::Bytes;
use crate::types::{
    Durability, NodeId, Priority, QoSMetadata, Reliability, priority_code, priority_from_code,
};

verus! {

/// Wire format encoder.
pub struct WireEncoder;

/// Wire format decoder.
pub struct WireDecoder;

/// Why a frame could not be decoded.
#[derive(Clone, Copy, Debug, PartialEq, Eq, Structural)]
pub enum WireError {
    /// Fewer than four bytes: no room for the magic.
    InsufficientMagic,
    /// The frame does not start with `ROX\0`.
    InvalidMagic,
    /// The version byte is not 1.
    UnsupportedVersion(u8),
    /// The key is longer than what is left.
    InsufficientKey,
    /// The key bytes are not UTF-8.
    InvalidKeyUtf8,
    /// The source id is longer than what is left.
    InsufficientSourceId,
    /// The source id bytes are not UTF-8.
    InvalidSourceIdUtf8,
    /// The payload length exceeds the 64 MiB limit.
    PayloadTooLarge(usize),
    /// The payload is longer than what is left.
    InsufficientPayload { expected: usize, remaining: usize },
}

/// The version byte this format writes and accepts.
pub const VERSION: u8 = 1;

/// Largest accepted payload: 64 MiB.
pub const MAX_PAYLOAD_SIZE: usize = 67108864;

/// `ROX\0`.
pub open spec fn magic() -> Seq<u8> {
    seq![0x52u8, 0x4fu8, 0x58u8, 0x00u8]
}

pub open spec fn le_u16_bytes(x: u16) -> Seq<u8> {
    seq![(x & 0xff) as u8, (x >> 8u16) as u8]
}

pub open spec fn le_u32_bytes(x: u32) -> Seq<u8> {
    seq![
        (x & 0xff) as u8,
        ((x >> 8u32) & 0xff) as u8,
        ((x >> 16u32) & 0xff) as u8,
        (x >> 24u32) as u8,
    ]
}

pub open spec fn le_u64_bytes(x: u64) -> Seq<u8> {
    seq![
        (x & 0xff) as u8,
        ((x >> 8u64) & 0xff) as u8,
        ((x >> 16u64) & 0xff) as u8,
        ((x >> 24u64) & 0xff) as u8,
        ((x >> 32u64) & 0xff) as u8,
        ((x >> 40u64) & 0xff) as u8,
        ((x >> 48u64) & 0xff) as u8,
        (x >> 56u64) as u8,
    ]
}

pub open spec fn u16_from(b0: u8, b1: u8) -> u16 {
    (b0 as u16) | ((b1 as u16) << 8u16)
}

pub open spec fn u32_from(b0: u8, b1: u8, b2: u8, b3: u8) -> u32 {
    (b0 as u32) | ((b1 as u32) << 8u32) | ((b2 as u32) << 16u32) | ((b3 as u32) << 24u32)
}

pub open spec fn u64_from(b0: u8, b1: u8, b2: u8, b3: u8, b4: u8, b5: u8, b6: u8, b7: u8) -> u64 {
    (b0 as u64) | ((b1 as u64) << 8u64) | ((b2 as u64) << 16u64) | ((b3 as u64) << 24u64) | ((
    b4 as u64) << 32u64) | ((b5 as u64) << 40u64) | ((b6 as u64) << 48u64) | ((b7 as u64)
        << 56u64)
}

/// The 16-bit little-endian number at position `i` of `s`.
pub open spec fn read_u16_at(s: Seq<u8>, i: int) -> u16 {
    u16_from(s[i], s[i + 1])
}

/// The 32-bit little-endian number at position `i` of `s`.
pub open spec fn read_u32_at(s: Seq<u8>, i: int) -> u32 {
    u32_from(s[i], s[i + 1], s[i + 2], s[i + 3])
}

/// The 64-bit little-endian number at position `i` of `s`.
pub open spec fn read_u64_at(s: Seq<u8>, i: int) -> u64 {
    u64_from(s[i], s[i + 1], s[i + 2], s[i + 3], s[i + 4], s[i + 5], s[i + 6], s[i + 7])
}

/// Byte written for a reliability: 1 for `Reliable`, 0 for `BestEffort`.
pub open spec fn reliability_code(r: Reliability) -> u8 {
    match r {
        Reliability::BestEffort => 0,
        Reliability::Reliable => 1,
    }
}

/// Byte written for a durability: 1 for `TransientLocal`, 0 for `Volatile`.
pub open spec fn durability_code(d: Durability) -> u8 {
    match d {
        Durability::Volatile => 0,
        Durability::TransientLocal => 1,
    }
}

/// An optional duration as written: `None` as 0.
pub open spec fn opt_code(o: Option<u64>) -> u64 {
    match o {
        Some(v) => v,
        None => 0,
    }
}

/// A written optional duration as read back: 0 as `None`.
pub open spec fn opt_from_code(v: u64) -> Option<u64> {
    if v == 0 {
        None
    } else {
        Some(v)
    }
}

/// Number of header bytes after the header-length field, for the given key and
/// source-id byte lengths.
pub open spec fn header_len(key_len: nat, source_len: nat) -> int {
    (2 + key_len + 16 + 3 + 16 + 2 + source_len + 8) as int
}

/// The first ten bytes of a frame: magic, version, flags, header length and key length.
pub open spec fn frame_head(h: HeaderView) -> Seq<u8> {
    let kb = encode_utf8(h.key);
    let sb = encode_utf8(h.source_id);
    magic() + seq![VERSION, 0u8] + le_u16_bytes(header_len(kb.len(), sb.len()) as u16)
        + le_u16_bytes(kb.len() as u16)
}

/// The 37 bytes between key and source id: timestamps, QoS and source-id length.
pub open spec fn frame_mid(h: HeaderView) -> Seq<u8> {
    le_u64_bytes(h.timestamp.hw_time) + le_u64_bytes(h.timestamp.logical_time) + seq![
        priority_code(h.qos.priority),
        reliability_code(h.qos.reliability),
        durability_code(h.qos.durability),
    ] + le_u64_bytes(opt_code(h.qos.deadline_us)) + le_u64_bytes(opt_code(h.qos.lifespan_us))
        + le_u16_bytes(encode_utf8(h.source_id).len() as u16)
}

/// The 12 bytes between source id and payload: sequence and payload length.
pub open spec fn frame_tail(h: HeaderView, payload_len: nat) -> Seq<u8> {
    le_u64_bytes(h.sequence) + le_u32_bytes(payload_len as u32)
}

/// The frame of a header and payload. Lengths are written modulo the width of
/// their field, as the encoder's casts do.
pub open spec fn frame(h: HeaderView, payload: Seq<u8>) -> Seq<u8> {
    frame_head(h) + encode_utf8(h.key) + frame_mid(h) + encode_utf8(h.source_id) + frame_tail(
        h,
        payload.len(),
    ) + payload
}

/// What decoding a byte sequence gives.
pub enum Decoded {
    /// A message.
    Message(MessageView),
    /// An error.
    Failed(WireError),
    /// A fixed-size field runs past the end: the reader would panic there.
    Truncated,
}

/// Decoding of the fields after the key, which starts at `q`.
pub open spec fn decode_after_key(s: Seq<u8>, key: Seq<char>, q: int) -> Decoded {
    if s.len() - q < 37 {
        Decoded::Truncated
    } else {
        let slen = read_u16_at(s, q + 35) as int;
        let r = q + 37;
        if s.len() - r < slen {
            Decoded::Failed(WireError::InsufficientSourceId)
        } else if !valid_utf8(s.subrange(r, r + slen)) {
            Decoded::Failed(WireError::InvalidSourceIdUtf8)
        } else {
            let t = r + slen;
            if s.len() - t < 12 {
                Decoded::Truncated
            } else {
                let plen = read_u32_at(s, t + 8) as int;
                let u = t + 12;
                if plen > MAX_PAYLOAD_SIZE {
                    Decoded::Failed(WireError::PayloadTooLarge(plen as usize))
                } else if s.len() - u < plen {
                    Decoded::Failed(
                        WireError::InsufficientPayload {
                            expected: plen as usize,
                            remaining: (s.len() - u) as usize,
                        },
                    )
                } else {
                    Decoded::Message(
                        MessageView {
                            header: HeaderView {
                                key,
                                timestamp: RoxTimestamp {
                                    hw_time: read_u64_at(s, q),
                                    logical_time: read_u64_at(s, q + 8),
                                },
                                qos: QoSMetadata {
                                    priority: priority_from_code(s[q + 16]),
                                    reliability: if s[q + 17] == 1 {
                                        Reliability::Reliable
                                    } else {
                                        Reliability::BestEffort
                                    },
                                    durability: if s[q + 18] == 1 {
                                        Durability::TransientLocal
                                    } else {
                                        Durability::Volatile
                                    },
                                    deadline_us: opt_from_code(read_u64_at(s, q + 19)),
                                    lifespan_us: opt_from_code(read_u64_at(s, q + 27)),
                                },
                                source_id: decode_utf8(s.subrange(r, r + slen)),
                                sequence: read_u64_at(s, t),
                            },
                            payload: s.subrange(u, u + plen),
                        },
                    )
                }
            }
        }
    }
}

/// Decoding of a byte sequence, checking fields in the order the decoder reads them.
pub open spec fn decode_frame(s: Seq<u8>) -> Decoded {
    if s.len() < 4 {
        Decoded::Failed(WireError::InsufficientMagic)
    } else if s.take(4) != magic() {
        Decoded::Failed(WireError::InvalidMagic)
    } else if s.len() < 5 {
        Decoded::Truncated
    } else if s[4] != VERSION {
        Decoded::Failed(WireError::UnsupportedVersion(s[4]))
    } else if s.len() < 10 {
        Decoded::Truncated
    } else {
        let klen = read_u16_at(s, 8) as int;
        if s.len() - 10 < klen {
            Decoded::Failed(WireError::InsufficientKey)
        } else if !valid_utf8(s.subrange(10, 10 + klen)) {
            Decoded::Failed(WireError::InvalidKeyUtf8)
        } else {
            decode_after_key(s, decode_utf8(s.subrange(10, 10 + klen)), 10 + klen)
        }
    }
}

/// Appends the little-endian bytes of a 16-bit number.
pub(crate) fn put_u16_le(buf: &mut Vec<u8>, x: u16)
    ensures
        final(buf)@ == old(buf)@ + le_u16_bytes(x),
{
    buf.push((x & 0xff) as u8);
    buf.push((x >> 8u16) as u8);
    assert(final(buf)@ =~= old(buf)@ + le_u16_bytes(x));
}

pub(crate) fn put_u32_le(buf: &mut Vec<u8>, x: u32)
    ensures
        final(buf)@ == old(buf)@ + le_u32_bytes(x),
{
    buf.push((x & 0xff) as u8);
    buf.push(((x >> 8u32) & 0xff) as u8);
    buf.push(((x >> 16u32) & 0xff) as u8);
    buf.push((x >> 24u32) as u8);
    assert(final(buf)@ =~= old(buf)@ + le_u32_bytes(x));
}

pub(crate) fn put_u64_le(buf: &mut Vec<u8>, x: u64)
    ensures
        final(buf)@ == old(buf)@ + le_u64_bytes(x),
{
    buf.push((x & 0xff) as u8);
    buf.push(((x >> 8u64) & 0xff) as u8);
    buf.push(((x >> 16u64) & 0xff) as u8);
    buf.push(((x >> 24u64) & 0xff) as u8);
    buf.push(((x >> 32u64) & 0xff) as u8);
    buf.push(((x >> 40u64) & 0xff) as u8);
    buf.push(((x >> 48u64) & 0xff) as u8);
    buf.push((x >> 56u64) as u8);
    assert(final(buf)@ =~= old(buf)@ + le_u64_bytes(x));
}

/// Appends a slice of bytes.
pub(crate) fn put_slice(buf: &mut Vec<u8>, data: &[u8])
    ensures
        final(buf)@ == old(buf)@ + data@,
{
    let mut i: usize = 0;
    while i < data.len()
        invariant
            i <= data@.len(),
            buf@ == old(buf)@ + data@.take(i as int),
        decreases data@.len() - i,
    {
        buf.push(data[i]);
        i += 1;
        assert(buf@ =~= old(buf)@ + data@.take(i as int));
    }
    assert(data@.take(data@.len() as int) =~= data@);
}

fn reliability_byte(r: Reliability) -> (b: u8)
    ensures
        b == reliability_code(r),
{
    match r {
        Reliability::BestEffort => 0,
        Reliability::Reliable => 1,
    }
}

fn durability_byte(d: Durability) -> (b: u8)
    ensures
        b == durability_code(d),
{
    match d {
        Durability::Volatile => 0,
        Durability::TransientLocal => 1,
    }
}

fn opt_value(o: Option<u64>) -> (v: u64)
    ensures
        v == opt_code(o),
{
    match o {
        Some(v) => v,
        None => 0,
    }
}

/// Whether a header and payload fit in memory once framed.
pub open spec fn frame_fits(h: HeaderView, payload: Seq<u8>) -> bool {
    encode_utf8(h.key).len() + encode_utf8(h.source_id).len() + payload.len() + 64
        <= usize::MAX
}

impl WireEncoder {
    /// Encodes a message into a frame. Encoding cannot fail.
    pub fn encode(msg: &RoxMessage) -> (r: Result<Bytes, WireError>)
        requires
            frame_fits(msg.header@, msg@.payload),
        ensures
            r matches Ok(bytes) && bytes_view(bytes) == frame(msg.header@, msg@.payload),
    {
        let key_bytes = msg.header.key.0.as_str().as_bytes();
        let source_bytes = msg.header.source_id.0.as_str().as_bytes();
        let mut buf: Vec<u8> = Vec::new();
        buf.push(0x52u8);
        buf.push(0x4fu8);
        buf.push(0x58u8);
        buf.push(0x00u8);
        buf.push(VERSION);
        buf.push(0u8);
        let hlen: usize = 2 + key_bytes.len() + 16 + 3 + 16 + 2 + source_bytes.len() + 8;
        put_u16_le(&mut buf, hlen as u16);
        put_u16_le(&mut buf, key_bytes.len() as u16);
        put_slice(&mut buf, key_bytes);
        put_u64_le(&mut buf, msg.header.timestamp.hw_time);
        put_u64_le(&mut buf, msg.header.timestamp.logical_time);
        buf.push(msg.header.qos.priority.code());
        buf.push(reliability_byte(msg.header.qos.reliability));
        buf.push(durability_byte(msg.header.qos.durability));
        put_u64_le(&mut buf, opt_value(msg.header.qos.deadline_us));
        put_u64_le(&mut buf, opt_value(msg.header.qos.lifespan_us));
        put_u16_le(&mut buf, source_bytes.len() as u16);
        put_slice(&mut buf, source_bytes);
        put_u64_le(&mut buf, msg.header.sequence);
        let payload = bytes_slice(&msg.payload);
        put_u32_le(&mut buf, payload.len() as u32);
        put_slice(&mut buf, payload);
        proof {
            let h = msg.header@;
            let kb = encode_utf8(h.key);
            let sb = encode_utf8(h.source_id);
            assert(hlen == header_len(kb.len(), sb.len()));
            assert(buf@ =~= frame(h, msg@.payload));
        }
        Ok(bytes_from_vec(buf))
    }

    /// Encodes a header with an empty payload.
    pub fn encode_header(header: &MessageHeader) -> (r: Result<Bytes, WireError>)
        requires
            frame_fits(header@, Seq::<u8>::empty()),
        ensures
            r matches Ok(bytes) && bytes_view(bytes) == frame(header@, Seq::<u8>::empty()),
    {
        let msg = RoxMessage { header: header.clone(), payload: bytes_from_vec(Vec::new()) };
        Self::encode(&msg)
    }
}

/// Calls `std::str::from_utf8` on the bytes and copies the text into a `String`.
/// As its documentation states, it succeeds exactly when the bytes are valid UTF-8,
/// and the text is then the one the bytes encode.
#[verifier::external_body]
pub(crate) fn utf8_to_string(bytes: &[u8]) -> (r: Option<String>)
    ensures
        r is Some <==> valid_utf8(bytes@),
        r matches Some(text) ==> text@ == decode_utf8(bytes@),
{
    std::str::from_utf8(bytes).ok().map(|text| text.to_string())
}

pub(crate) fn get_u16(s: &Vec<u8>, i: usize) -> (x: u16)
    requires
        i + 2 <= s.len(),
    ensures
        x == read_u16_at(s@, i as int),
{
    (s[i] as u16) | ((s[i + 1] as u16) << 8u16)
}

pub(crate) fn get_u32(s: &Vec<u8>, i: usize) -> (x: u32)
    requires
        i + 4 <= s.len(),
    ensures
        x == read_u32_at(s@, i as int),
{
    (s[i] as u32) | ((s[i + 1] as u32) << 8u32) | ((s[i + 2] as u32) << 16u32) | ((s[i
        + 3] as u32) << 24u32)
}

pub(crate) fn get_u64(s: &Vec<u8>, i: usize) -> (x: u64)
    requires
        i + 8 <= s.len(),
    ensures
        x == read_u64_at(s@, i as int),
{
    (s[i] as u64) | ((s[i + 1] as u64) << 8u64) | ((s[i + 2] as u64) << 16u64) | ((s[i
        + 3] as u64) << 24u64) | ((s[i + 4] as u64) << 32u64) | ((s[i + 5] as u64) << 40u64)
        | ((s[i + 6] as u64) << 48u64) | ((s[i + 7] as u64) << 56u64)
}

/// Copies `s[from..to]`.
pub fn copy_range(s: &Vec<u8>, from: usize, to: usize) -> (r: Vec<u8>)
    requires
        from <= to <= s@.len(),
    ensures
        r@ == s@.subrange(from as int, to as int),
{
    let mut r: Vec<u8> = Vec::new();
    let mut i = from;
    while i < to
        invariant
            from <= i <= to <= s@.len(),
            r@ == s@.subrange(from as int, i as int),
        decreases to - i,
    {
        r.push(s[i]);
        i += 1;
        assert(r@ =~= s@.subrange(from as int, i as int));
    }
    r
}

/// The outcome of decoding as the public result type, for a decoding that is not
/// truncated.
pub open spec fn decode_result_matches(d: Decoded, r: Result<RoxMessage, WireError>) -> bool {
    match d {
        Decoded::Message(m) => r matches Ok(msg) && msg@ == m,
        Decoded::Failed(e) => r == Err::<RoxMessage, WireError>(e),
        Decoded::Truncated => false,
    }
}

impl WireDecoder {
    /// Decodes a frame, or gives `None` where a fixed-size field runs past the end of
    /// the data (a frame that the decoder of this format cannot read safely).
    pub fn try_decode(data: &Vec<u8>) -> (r: Option<Result<RoxMessage, WireError>>)
        ensures
            r is None <==> decode_frame(data@) is Truncated,
            r matches Some(res) ==> decode_result_matches(decode_frame(data@), res),
    {
        let n = data.len();
        if n < 4 {
            return Some(Err(WireError::InsufficientMagic));
        }
        if !(data[0] == 0x52u8 && data[1] == 0x4fu8 && data[2] == 0x58u8 && data[3] == 0x00u8) {
            proof {
                if data@.take(4) == magic() {
                    assert(data@.take(4)[0] == data@[0]);
                    assert(data@.take(4)[1] == data@[1]);
                    assert(data@.take(4)[2] == data@[2]);
                    assert(data@.take(4)[3] == data@[3]);
                }
            }
            return Some(Err(WireError::InvalidMagic));
        }
        assert(data@.take(4) =~= magic());
        if n < 5 {
            return None;
        }
        let version = data[4];
        if version != VERSION {
            return Some(Err(WireError::UnsupportedVersion(version)));
        }
        if n < 10 {
            return None;
        }
        let key_len = get_u16(data, 8) as usize;
        if n - 10 < key_len {
            return Some(Err(WireError::InsufficientKey));
        }
        let key_bytes = copy_range(data, 10, 10 + key_len);
        let key_str = match utf8_to_string(key_bytes.as_slice()) {
            Some(text) => text,
            None => {
                return Some(Err(WireError::InvalidKeyUtf8));
            },
        };
        let q = 10 + key_len;
        if n - q < 37 {
            return None;
        }
        let hw_time = get_u64(data, q);
        let logical_time = get_u64(data, q + 8);
        let priority = Priority::from_code(data[q + 16]);
        let reliability = if data[q + 17] == 1 {
            Reliability::Reliable
        } else {
            Reliability::BestEffort
        };
        let durability = if data[q + 18] == 1 {
            Durability::TransientLocal
        } else {
            Durability::Volatile
        };
        let deadline_raw = get_u64(data, q + 19);
        let deadline_us = if deadline_raw == 0 {
            None
        } else {
            Some(deadline_raw)
        };
        let lifespan_raw = get_u64(data, q + 27);
        let lifespan_us = if lifespan_raw == 0 {
            None
        } else {
            Some(lifespan_raw)
        };
        let source_len = get_u16(data, q + 35) as usize;
        let r = q + 37;
        if n - r < source_len {
            return Some(Err(WireError::InsufficientSourceId));
        }
        let source_bytes = copy_range(data, r, r + source_len);
        let source_str = match utf8_to_string(source_bytes.as_slice()) {
            Some(text) => text,
            None => {
                return Some(Err(WireError::InvalidSourceIdUtf8));
            },
        };
        let t = r + source_len;
        if n - t < 12 {
            return None;
        }
        let sequence = get_u64(data, t);
        let payload_len = get_u32(data, t + 8) as usize;
        let u = t + 12;
        if payload_len > MAX_PAYLOAD_SIZE {
            return Some(Err(WireError::PayloadTooLarge(payload_len)));
        }
        if n - u < payload_len {
            return Some(Err(WireError::InsufficientPayload { expected: payload_len, remaining: n - u }));
        }
        let payload = bytes_from_vec(copy_range(data, u, u + payload_len));
        let msg = RoxMessage {
            header: MessageHeader {
                key: KeyExpr(key_str),
                timestamp: RoxTimestamp { hw_time, logical_time },
                qos: QoSMetadata { priority, reliability, durability, deadline_us, lifespan_us },
                source_id: NodeId(source_str),
                sequence,
            },
            payload,
        };
        Some(Ok(msg))
    }

    /// Decodes a frame.
    ///
    /// Data in which a fixed-size field would run past the end is outside this
    /// function's domain (see [`WireDecoder::try_decode`]).
    pub fn decode(data: Bytes) -> (r: Result<RoxMessage, WireError>)
        requires
            !(decode_frame(bytes_view(data)) is Truncated),
        ensures
            decode_result_matches(decode_frame(bytes_view(data)), r),
    {
        let bytes = vstd::slice::slice_to_vec(bytes_slice(&data));
        match Self::try_decode(&bytes) {
            Some(res) => res,
            None => {
                assert(false);
                Err(WireError::InsufficientMagic)
            },
        }
    }
}

proof fn lemma_u16_roundtrip(x: u16)
    ensures
        u16_from((x & 0xff) as u8, (x >> 8u16) as u8) == x,
{
    assert(((((x & 0xff) as u8) as u16) | ((((x >> 8u16) as u8) as u16) << 8u16)) == x)
        by (bit_vector);
}

proof fn lemma_u32_roundtrip(x: u32)
    ensures
        u32_from(
            (x & 0xff) as u8,
            ((x >> 8u32) & 0xff) as u8,
            ((x >> 16u32) & 0xff) as u8,
            (x >> 24u32) as u8,
        ) == x,
{
    assert(((((x & 0xff) as u8) as u32) | (((((x >> 8u32) & 0xff) as u8) as u32) << 8u32) | ((
    (((x >> 16u32) & 0xff) as u8) as u32) << 16u32) | ((((x >> 24u32) as u8) as u32) << 24u32))
        == x) by (bit_vector);
}

proof fn lemma_u64_roundtrip(x: u64)
    ensures
        u64_from(
            (x & 0xff) as u8,
            ((x >> 8u64) & 0xff) as u8,
            ((x >> 16u64) & 0xff) as u8,
            ((x >> 24u64) & 0xff) as u8,
            ((x >> 32u64) & 0xff) as u8,
            ((x >> 40u64) & 0xff) as u8,
            ((x >> 48u64) & 0xff) as u8,
            (x >> 56u64) as u8,
        ) == x,
{
    assert(((((x & 0xff) as u8) as u64) | (((((x >> 8u64) & 0xff) as u8) as u64) << 8u64) | ((
    (((x >> 16u64) & 0xff) as u8) as u64) << 16u64) | (((((x >> 24u64) & 0xff) as u8) as u64)
        << 24u64) | (((((x >> 32u64) & 0xff) as u8) as u64) << 32u64) | (((((x >> 40u64) & 0xff)
        as u8) as u64) << 40u64) | (((((x >> 48u64) & 0xff) as u8) as u64) << 48u64) | ((((x
        >> 56u64) as u8) as u64) << 56u64)) == x) by (bit_vector);
}

/// The piece placed after prefix `p` in `f` is read back from `f`, and `p` is a
/// prefix of `f` too.
proof fn lemma_step(f: Seq<u8>, p: Seq<u8>, piece: Seq<u8>)
    requires
        (p + piece).len() <= f.len(),
        f.take((p + piece).len() as int) == p + piece,
    ensures
        f.subrange(p.len() as int, (p.len() + piece.len()) as int) == piece,
        f.take(p.len() as int) == p,
{
    let n = (p + piece).len() as int;
    assert forall|i: int| 0 <= i < piece.len() implies f.subrange(
        p.len() as int,
        (p.len() + piece.len()) as int,
    )[i] == piece[i] by {
        assert(f.take(n)[p.len() + i] == f[p.len() + i]);
        assert((p + piece)[p.len() + i] == piece[i]);
    }
    assert(f.subrange(p.len() as int, (p.len() + piece.len()) as int) =~= piece);
    assert forall|i: int| 0 <= i < p.len() implies f.take(p.len() as int)[i] == p[i] by {
        assert(f.take(n)[i] == (p + piece)[i]);
    }
    assert(f.take(p.len() as int) =~= p);
}

pub proof fn lemma_read16(f: Seq<u8>, at: int, x: u16)
    requires
        0 <= at,
        at + 2 <= f.len(),
        f.subrange(at, at + 2) == le_u16_bytes(x),
    ensures
        read_u16_at(f, at) == x,
{
    assert(f[at] == f.subrange(at, at + 2)[0]);
    assert(f[at + 1] == f.subrange(at, at + 2)[1]);
    lemma_u16_roundtrip(x);
}

pub proof fn lemma_read32(f: Seq<u8>, at: int, x: u32)
    requires
        0 <= at,
        at + 4 <= f.len(),
        f.subrange(at, at + 4) == le_u32_bytes(x),
    ensures
        read_u32_at(f, at) == x,
{
    let w = f.subrange(at, at + 4);
    assert(f[at] == w[0]);
    assert(f[at + 1] == w[1]);
    assert(f[at + 2] == w[2]);
    assert(f[at + 3] == w[3]);
    lemma_u32_roundtrip(x);
}

pub proof fn lemma_read64(f: Seq<u8>, at: int, x: u64)
    requires
        0 <= at,
        at + 8 <= f.len(),
        f.subrange(at, at + 8) == le_u64_bytes(x),
    ensures
        read_u64_at(f, at) == x,
{
    let w = f.subrange(at, at + 8);
    assert(f[at] == w[0]);
    assert(f[at + 1] == w[1]);
    assert(f[at + 2] == w[2]);
    assert(f[at + 3] == w[3]);
    assert(f[at + 4] == w[4]);
    assert(f[at + 5] == w[5]);
    assert(f[at + 6] == w[6]);
    assert(f[at + 7] == w[7]);
    lemma_u64_roundtrip(x);
}

/// Whether a header and payload survive the frame unchanged: the key and source id
/// fit their 16-bit length fields, the payload is within the limit, and no optional
/// duration is `Some(0)` (which the frame cannot tell from `None`).
pub open spec fn roundtrips(h: HeaderView, payload: Seq<u8>) -> bool {
    &&& encode_utf8(h.key).len() <= 0xffff
    &&& encode_utf8(h.source_id).len() <= 0xffff
    &&& payload.len() <= MAX_PAYLOAD_SIZE
    &&& h.qos.deadline_us != Some(0u64)
    &&& h.qos.lifespan_us != Some(0u64)
}

/// A window of a window.
proof fn lemma_sub_sub(f: Seq<u8>, a: int, m: Seq<u8>, i: int, j: int)
    requires
        0 <= a,
        a + m.len() <= f.len(),
        f.subrange(a, a + m.len()) == m,
        0 <= i <= j <= m.len(),
    ensures
        f.subrange(a + i, a + j) == m.subrange(i, j),
        forall|k: int| i <= k < j ==> f[a + k] == m[k],
{
    assert forall|k: int| i <= k < j implies f[a + k] == m[k] by {
        assert(f.subrange(a, a + m.len())[k] == f[a + k]);
    }
    assert(f.subrange(a + i, a + j) =~= m.subrange(i, j));
}

proof fn lemma_head_layout(h: HeaderView)
    ensures
        frame_head(h).len() == 10,
        frame_head(h).take(4) == magic(),
        frame_head(h)[4] == VERSION,
        frame_head(h).subrange(8, 10) == le_u16_bytes(encode_utf8(h.key).len() as u16),
{
    let x = frame_head(h);
    assert(x.take(4) =~= magic());
    assert(x.subrange(8, 10) =~= le_u16_bytes(encode_utf8(h.key).len() as u16));
}

proof fn lemma_mid_layout(h: HeaderView)
    ensures
        frame_mid(h).len() == 37,
        frame_mid(h).subrange(0, 8) == le_u64_bytes(h.timestamp.hw_time),
        frame_mid(h).subrange(8, 16) == le_u64_bytes(h.timestamp.logical_time),
        frame_mid(h)[16] == priority_code(h.qos.priority),
        frame_mid(h)[17] == reliability_code(h.qos.reliability),
        frame_mid(h)[18] == durability_code(h.qos.durability),
        frame_mid(h).subrange(19, 27) == le_u64_bytes(opt_code(h.qos.deadline_us)),
        frame_mid(h).subrange(27, 35) == le_u64_bytes(opt_code(h.qos.lifespan_us)),
        frame_mid(h).subrange(35, 37) == le_u16_bytes(encode_utf8(h.source_id).len() as u16),
{
    let x = frame_mid(h);
    assert(x.subrange(0, 8) =~= le_u64_bytes(h.timestamp.hw_time));
    assert(x.subrange(8, 16) =~= le_u64_bytes(h.timestamp.logical_time));
    assert(x.subrange(19, 27) =~= le_u64_bytes(opt_code(h.qos.deadline_us)));
    assert(x.subrange(27, 35) =~= le_u64_bytes(opt_code(h.qos.lifespan_us)));
    assert(x.subrange(35, 37) =~= le_u16_bytes(encode_utf8(h.source_id).len() as u16));
}

proof fn lemma_tail_layout(h: HeaderView, n: nat)
    ensures
        frame_tail(h, n).len() == 12,
        frame_tail(h, n).subrange(0, 8) == le_u64_bytes(h.sequence),
        frame_tail(h, n).subrange(8, 12) == le_u32_bytes(n as u32),
{
    let x = frame_tail(h, n);
    assert(x.subrange(0, 8) =~= le_u64_bytes(h.sequence));
    assert(x.subrange(8, 12) =~= le_u32_bytes(n as u32));
}

/// Where the six parts of a frame lie.
proof fn lemma_frame_parts(h: HeaderView, payload: Seq<u8>)
    ensures
        ({
            let f = frame(h, payload);
            let kb = encode_utf8(h.key);
            let sb = encode_utf8(h.source_id);
            let q = 10 + kb.len() as int;
            let r = q + 37;
            let t = r + sb.len() as int;
            let u = t + 12;
            &&& f.len() == u + payload.len()
            &&& f.subrange(0, 10) == frame_head(h)
            &&& f.subrange(10, q) == kb
            &&& f.subrange(q, r) == frame_mid(h)
            &&& f.subrange(r, t) == sb
            &&& f.subrange(t, u) == frame_tail(h, payload.len())
            &&& f.subrange(u, u + payload.len() as int) == payload
        }),
{
    let kb = encode_utf8(h.key);
    let sb = encode_utf8(h.source_id);
    lemma_head_layout(h);
    lemma_mid_layout(h);
    lemma_tail_layout(h, payload.len());
    let p0 = frame_head(h);
    let p1 = p0 + kb;
    let p2 = p1 + frame_mid(h);
    let p3 = p2 + sb;
    let p4 = p3 + frame_tail(h, payload.len());
    let f = p4 + payload;
    assert(f == frame(h, payload));
    assert(f.take(f.len() as int) =~= f);
    lemma_step(f, p4, payload);
    lemma_step(f, p3, frame_tail(h, payload.len()));
    lemma_step(f, p2, sb);
    lemma_step(f, p1, frame_mid(h));
    lemma_step(f, p0, kb);
    assert(f.subrange(0, 10) =~= f.take(10));
}

/// Decoding an encoded message gives the message back.
pub proof fn law_decode_inverts_encode(h: HeaderView, payload: Seq<u8>)
    requires
        roundtrips(h, payload),
    ensures
        decode_frame(frame(h, payload)) == Decoded::Message(MessageView { header: h, payload }),
{
    let f = frame(h, payload);
    let kb = encode_utf8(h.key);
    let sb = encode_utf8(h.source_id);
    let klen = kb.len() as int;
    let slen = sb.len() as int;
    vstd::utf8::encode_utf8_valid_utf8(h.key);
    vstd::utf8::encode_utf8_decode_utf8(h.key);
    vstd::utf8::encode_utf8_valid_utf8(h.source_id);
    vstd::utf8::encode_utf8_decode_utf8(h.source_id);
    lemma_frame_parts(h, payload);
    lemma_head_layout(h);
    lemma_mid_layout(h);
    lemma_tail_layout(h, payload.len());
    let q = 10 + klen;
    let r = q + 37;
    let t = r + slen;
    let u = t + 12;
    let head = frame_head(h);
    let mid = frame_mid(h);
    let tail = frame_tail(h, payload.len());
    lemma_sub_sub(f, 0, head, 0, 4);
    lemma_sub_sub(f, 0, head, 4, 5);
    lemma_sub_sub(f, 0, head, 8, 10);
    assert(f.take(4) =~= f.subrange(0, 4));
    assert(head.subrange(0, 4) =~= head.take(4));
    assert(f[4] == head[4]);
    lemma_read16(f, 8, klen as u16);
    lemma_sub_sub(f, q, mid, 0, 8);
    lemma_sub_sub(f, q, mid, 8, 16);
    lemma_sub_sub(f, q, mid, 16, 19);
    lemma_sub_sub(f, q, mid, 19, 27);
    lemma_sub_sub(f, q, mid, 27, 35);
    lemma_sub_sub(f, q, mid, 35, 37);
    lemma_read64(f, q, h.timestamp.hw_time);
    lemma_read64(f, q + 8, h.timestamp.logical_time);
    lemma_read64(f, q + 19, opt_code(h.qos.deadline_us));
    lemma_read64(f, q + 27, opt_code(h.qos.lifespan_us));
    lemma_read16(f, q + 35, slen as u16);
    assert(f[q + 16] == mid[16]);
    assert(f[q + 17] == mid[17]);
    assert(f[q + 18] == mid[18]);
    lemma_sub_sub(f, t, tail, 0, 8);
    lemma_sub_sub(f, t, tail, 8, 12);
    lemma_read64(f, t, h.sequence);
    lemma_read32(f, t + 8, payload.len() as u32);
    assert(read_u16_at(f, 8) as int == klen);
    assert(read_u16_at(f, q + 35) as int == slen);
    assert(read_u32_at(f, t + 8) as int == payload.len());
    assert(priority_from_code(priority_code(h.qos.priority)) == h.qos.priority);
    assert(opt_from_code(opt_code(h.qos.deadline_us)) == h.qos.deadline_us);
    assert(opt_from_code(opt_code(h.qos.lifespan_us)) == h.qos.lifespan_us);
    let d = decode_frame(f);
    match d {
        Decoded::Message(m) => {
            assert(m.header.qos == h.qos);
            assert(m.header.timestamp == h.timestamp);
            assert(m.payload =~= payload);
        },
        _ => {},
    }
}

/// A header is framed as the message with that header and no payload, which ends
/// with a zero payload length; a message's frame is its header's frame with the
/// length field set to the payload's length, followed by the payload. So
/// [`WireEncoder::encode_header`] gives what [`WireEncoder::encode`] gives for the
/// header with an empty payload.
pub proof fn law_header_frame_is_empty_message(h: HeaderView, payload: Seq<u8>)
    ensures
        ({
            let hf = frame(h, Seq::<u8>::empty());
            &&& hf.len() >= 4
            &&& hf.subrange(hf.len() - 4, hf.len() as int) == seq![0u8, 0u8, 0u8, 0u8]
            &&& frame(h, payload) == hf.subrange(0, hf.len() - 4) + le_u32_bytes(
                payload.len() as u32,
            ) + payload
        }),
{
    let e = Seq::<u8>::empty();
    let a = frame_head(h) + encode_utf8(h.key) + frame_mid(h) + encode_utf8(h.source_id)
        + le_u64_bytes(h.sequence);
    let hf = frame(h, e);
    assert(hf =~= a + le_u32_bytes(0u32));
    assert(frame(h, payload) =~= a + le_u32_bytes(payload.len() as u32) + payload);
    assert(le_u32_bytes(0u32) =~= seq![0u8, 0u8, 0u8, 0u8]) by {
        let z = 0u32;
        assert((z & 0xff) as u8 == 0u8 && ((z >> 8u32) & 0xff) as u8 == 0u8 && ((z >> 16u32)
            & 0xff) as u8 == 0u8 && (z >> 24u32) as u8 == 0u8) by (bit_vector)
            requires
                z == 0u32,
        ;
    }
    assert(hf.subrange(0, hf.len() - 4) =~= a);
    assert(hf.subrange(hf.len() - 4, hf.len() as int) =~= le_u32_bytes(0u32));
}

} // verus!
