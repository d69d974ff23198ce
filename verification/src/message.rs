//! Messages: header (key, timestamp, QoS, source, sequence) and payload.

use vstd::prelude::*;
use crate::keyexpr::KeyExpr;
use crate::types::{NodeId, QoSMetadata, default_qos};
use crate::zbuf::{bytes_clone, bytes_len, bytes_view};
use bytes::Bytes;

verus! {

/// Deterministic timestamp: a hardware clock reading and a logical clock.
#[derive(Clone, Copy, Debug, PartialEq, Eq, Structural)]
pub struct RoxTimestamp {
    /// Wall-clock time in nanoseconds since the Unix epoch.
    pub hw_time: u64,
    /// Logical (hybrid) clock value.
    pub logical_time: u64,
}

/// Header of a message.
#[derive(Debug)]
pub struct MessageHeader {
    pub key: KeyExpr,
    pub timestamp: RoxTimestamp,
    pub qos: QoSMetadata,
    pub source_id: NodeId,
    pub sequence: u64,
}

/// A message: header and payload bytes.
#[derive(Debug)]
pub struct RoxMessage {
    pub header: MessageHeader,
    pub payload: Bytes,
}

/// A header as plain values.
pub struct HeaderView {
    pub key: Seq<char>,
    pub timestamp: RoxTimestamp,
    pub qos: QoSMetadata,
    pub source_id: Seq<char>,
    pub sequence: u64,
}

/// A message as plain values.
pub struct MessageView {
    pub header: HeaderView,
    pub payload: Seq<u8>,
}

impl View for MessageHeader {
    type V = HeaderView;

    open spec fn view(&self) -> HeaderView {
        HeaderView {
            key: self.key.0@,
            timestamp: self.timestamp,
            qos: self.qos,
            source_id: self.source_id.0@,
            sequence: self.sequence,
        }
    }
}

impl View for RoxMessage {
    type V = MessageView;

    open spec fn view(&self) -> MessageView {
        MessageView { header: self.header@, payload: bytes_view(self.payload) }
    }
}

impl Clone for MessageHeader {
    fn clone(&self) -> (h: Self)
        ensures
            h@ == self@,
    {
        MessageHeader {
            key: self.key.clone(),
            timestamp: self.timestamp,
            qos: self.qos,
            source_id: self.source_id.clone(),
            sequence: self.sequence,
        }
    }
}

impl Clone for RoxMessage {
    fn clone(&self) -> (m: Self)
        ensures
            m@ == self@,
    {
        RoxMessage { header: self.header.clone(), payload: bytes_clone(&self.payload) }
    }
}

/// Reads the system clock: nanoseconds since the Unix epoch.
///
/// Calls `std::time::SystemTime::now` and `duration_since(UNIX_EPOCH)`; a clock set
/// before the epoch reads as zero, as `unwrap_or_default` gives. Nothing is promised
/// of the value: it depends on the machine's clock.
#[verifier::external_body]
pub(crate) fn unix_time_nanos() -> (n: u128) {
    std::time::SystemTime::now().duration_since(std::time::UNIX_EPOCH).unwrap_or_default().as_nanos()
}

/// The hardware-clock value of a clock reading: its nanoseconds, kept to 64 bits.
pub open spec fn nanos_to_hw(n: u128) -> u64 {
    (n % 0x1_0000_0000_0000_0000) as u64
}

/// The microsecond count of a clock reading, kept to 64 bits.
pub open spec fn nanos_to_micros(n: u128) -> u64 {
    ((n / 1000) % 0x1_0000_0000_0000_0000) as u64
}

fn hw_from_nanos(n: u128) -> (t: u64)
    ensures
        t == nanos_to_hw(n),
{
    (n % 0x1_0000_0000_0000_0000) as u64
}

fn micros_from_nanos(n: u128) -> (t: u64)
    ensures
        t == nanos_to_micros(n),
{
    ((n / 1000) % 0x1_0000_0000_0000_0000) as u64
}

impl RoxTimestamp {
    /// A timestamp for a clock reading of `nanos` nanoseconds since the Unix epoch
    /// (kept to 64 bits) with the given logical time.
    pub fn from_clock_nanos(nanos: u128, logical_time: u64) -> (t: RoxTimestamp)
        ensures
            t.hw_time == nanos_to_hw(nanos),
            t.logical_time == logical_time,
    {
        RoxTimestamp { hw_time: hw_from_nanos(nanos), logical_time }
    }

    /// A timestamp for the current instant with the given logical time: the one
    /// [`RoxTimestamp::from_clock_nanos`] gives for the system clock's reading.
    pub fn now(logical_time: u64) -> (t: RoxTimestamp)
        ensures
            t.logical_time == logical_time,
    {
        let n = unix_time_nanos();
        RoxTimestamp::from_clock_nanos(n, logical_time)
    }
}

/// The age in microseconds at `now_us` of a message stamped `hw_time` (nanoseconds):
/// zero when the message time is not yet reached.
pub open spec fn age_us(hw_time: u64, now_us: u64) -> int {
    let msg_us = hw_time / 1000;
    if now_us >= msg_us { now_us - msg_us } else { 0 }
}

/// Whether a message stamped `hw_time` has exceeded its deadline at `now_us`
/// (microseconds since the epoch): its age is above the deadline. A message without
/// a deadline never expires.
pub open spec fn expired_at(hw_time: u64, deadline_us: Option<u64>, now_us: u64) -> bool {
    deadline_us matches Some(d) && age_us(hw_time, now_us) > d
}

impl MessageHeader {
    /// Whether the message has exceeded its deadline at the given time, in
    /// microseconds since the Unix epoch.
    pub fn is_expired_at(&self, now_us: u64) -> (r: bool)
        ensures
            r == expired_at(self.timestamp.hw_time, self.qos.deadline_us, now_us),
    {
        match self.qos.deadline_us {
            Some(d) => now_us.saturating_sub(self.timestamp.hw_time / 1000) > d,
            None => false,
        }
    }

    /// Whether the message has exceeded its deadline now.
    pub fn is_expired(&self) -> (r: bool)
        ensures
            self.qos.deadline_us is None ==> !r,
            r ==> exists|now_us: u64| expired_at(self.timestamp.hw_time, self.qos.deadline_us, now_us),
    {
        let n = unix_time_nanos();
        let now_us = micros_from_nanos(n);
        self.is_expired_at(now_us)
    }
}

impl RoxMessage {
    /// A message with the given key, source, sequence and payload, stamped with the
    /// current time, the sequence as logical time, and default QoS.
    pub fn new(key: KeyExpr, source_id: NodeId, sequence: u64, payload: Bytes) -> (m: RoxMessage)
        ensures
            m.header.key == key,
            m.header.source_id == source_id,
            m.header.sequence == sequence,
            m.header.timestamp.logical_time == sequence,
            m.header.qos == default_qos(),
            bytes_view(m.payload) == bytes_view(payload),
    {
        let timestamp = RoxTimestamp::now(sequence);
        RoxMessage {
            header: MessageHeader {
                key,
                timestamp,
                qos: QoSMetadata::default(),
                source_id,
                sequence,
            },
            payload,
        }
    }

    /// The same message with other QoS settings.
    pub fn with_qos(self, qos: QoSMetadata) -> (m: RoxMessage)
        ensures
            m.header.qos == qos,
            m.header.key == self.header.key,
            m.header.source_id == self.header.source_id,
            m.header.sequence == self.header.sequence,
            m.header.timestamp == self.header.timestamp,
            bytes_view(m.payload) == bytes_view(self.payload),
    {
        let mut m = self;
        m.header.qos = qos;
        m
    }

    /// Number of payload bytes.
    pub fn payload_len(&self) -> (n: usize)
        ensures
            n == bytes_view(self.payload).len(),
    {
        bytes_len(&self.payload)
    }

    /// Estimated size on the wire: the in-memory size of a header plus the payload
    /// length (saturating, which no real message reaches).
    pub fn estimated_wire_size(&self) -> (n: usize)
        ensures
            n == if vstd::layout::size_of::<MessageHeader>() + bytes_view(self.payload).len()
                <= usize::MAX {
                vstd::layout::size_of::<MessageHeader>() + bytes_view(self.payload).len()
            } else {
                usize::MAX as nat
            },
    {
        std::mem::size_of::<MessageHeader>().saturating_add(bytes_len(&self.payload))
    }
}

} // verus!
