//! The deterministic log: a binary record of messages, applied policies and cycle
//! boundaries that replay reads back bit for bit.
//!
//! Layout: the header `RLOG` and version byte 1, then entries, each a type byte
//! followed by little-endian fields:
//! - message (1): sequence (8), cycle (8), key length (2), key, hardware time (8),
//!   logical time (8), payload length (4), payload;
//! - policy applied (2): sequence (8), cycle (8), data length (4), data (the
//!   serialised update);
//! - cycle complete (3): cycle (8).
//!
//! The writer produces these bytes and the reader parses them; moving them to and
//! from a file, and serialising policy updates, is up to the caller.

use vstd::prelude::*;
use vstd::utf8::{decode_utf8, encode_utf8, valid_utf8};
use crate::keyexpr::KeyExpr;
use crate::message::{MessageHeader, RoxMessage, RoxTimestamp};
use crate::types::{default_qos, NodeId, QoSMetadata};
use crate::zbuf::{bytes_from_vec, bytes_slice, bytes_view};
use crate::wire::{
    le_u16_bytes, le_u32_bytes, le_u64_bytes, put_slice, put_u16_le, put_u32_le, put_u64_le,
    read_u16_at, read_u32_at, read_u64_at,
};

verus! {

/// Kinds of log entries.
#[derive(Clone, Copy, Debug, PartialEq, Eq, Structural)]
pub enum LogEntryType {
    Message,
    PolicyApplied,
    CycleComplete,
}

/// The type byte of an entry kind.
pub open spec fn entry_type_code(t: LogEntryType) -> u8 {
    match t {
        LogEntryType::Message => 1,
        LogEntryType::PolicyApplied => 2,
        LogEntryType::CycleComplete => 3,
    }
}

impl LogEntryType {
    /// The type byte written for this kind of entry.
    pub fn code(self) -> (b: u8)
        ensures
            b == entry_type_code(self),
    {
        match self {
            LogEntryType::Message => 1,
            LogEntryType::PolicyApplied => 2,
            LogEntryType::CycleComplete => 3,
        }
    }
}

/// Why a log cannot be read.
#[derive(Clone, Copy, Debug, PartialEq, Eq, Structural)]
pub enum LogError {
    /// The bytes end inside the header or inside an entry.
    Truncated,
    /// The file does not start with `RLOG`.
    InvalidMagic,
    /// The version byte is not 1.
    UnsupportedVersion(u8),
    /// An entry starts with an unknown type byte.
    UnknownEntryType(u8),
    /// A message key is not valid UTF-8.
    InvalidKeyUtf8,
}

/// `RLOG`.
pub open spec fn log_magic() -> Seq<u8> {
    seq![0x52u8, 0x4cu8, 0x4fu8, 0x47u8]
}

/// The file header: `RLOG` and version 1.
pub open spec fn log_header() -> Seq<u8> {
    log_magic().push(1u8)
}

/// A log entry as plain values.
pub enum EntryView {
    Message {
        sequence: u64,
        cycle: u64,
        key: Seq<char>,
        hw_time: u64,
        logical_time: u64,
        payload: Seq<u8>,
    },
    PolicyApplied { sequence: u64, cycle: u64, data: Seq<u8> },
    CycleComplete { cycle: u64 },
}

/// The bytes of a message entry. Lengths are written modulo their field width.
pub open spec fn message_entry_bytes(
    sequence: u64,
    cycle: u64,
    key: Seq<char>,
    hw_time: u64,
    logical_time: u64,
    payload: Seq<u8>,
) -> Seq<u8> {
    let kb = encode_utf8(key);
    seq![1u8] + le_u64_bytes(sequence) + le_u64_bytes(cycle) + le_u16_bytes(kb.len() as u16) + kb
        + le_u64_bytes(hw_time) + le_u64_bytes(logical_time) + le_u32_bytes(payload.len() as u32)
        + payload
}

/// The bytes of a policy entry. The length is written modulo 2^32.
pub open spec fn policy_entry_bytes(sequence: u64, cycle: u64, data: Seq<u8>) -> Seq<u8> {
    seq![2u8] + le_u64_bytes(sequence) + le_u64_bytes(cycle) + le_u32_bytes(data.len() as u32)
        + data
}

/// The bytes of a cycle-complete entry.
pub open spec fn cycle_entry_bytes(cycle: u64) -> Seq<u8> {
    seq![3u8] + le_u64_bytes(cycle)
}

/// The bytes of an entry.
pub open spec fn entry_bytes(v: EntryView) -> Seq<u8> {
    match v {
        EntryView::Message { sequence, cycle, key, hw_time, logical_time, payload } =>
            message_entry_bytes(sequence, cycle, key, hw_time, logical_time, payload),
        EntryView::PolicyApplied { sequence, cycle, data } => policy_entry_bytes(
            sequence,
            cycle,
            data,
        ),
        EntryView::CycleComplete { cycle } => cycle_entry_bytes(cycle),
    }
}

/// The bytes of a list of entries, one after the other.
pub open spec fn entries_bytes(vs: Seq<EntryView>) -> Seq<u8>
    decreases vs.len(),
{
    if vs.len() == 0 {
        Seq::empty()
    } else {
        entry_bytes(vs[0]) + entries_bytes(vs.drop_first())
    }
}

/// Deterministic log writer: produces the bytes of the log, which the caller
/// moves to a file.
pub struct RoxLogger {
    output: Vec<u8>,
    sequence: u64,
    cycle: u64,
}

impl RoxLogger {
    /// Bytes produced and not yet taken.
    pub closed spec fn pending(&self) -> Seq<u8> {
        self.output@
    }

    /// The sequence number the next message or policy entry gets.
    pub closed spec fn spec_sequence(&self) -> u64 {
        self.sequence
    }

    /// The cycle message entries are filed under.
    pub closed spec fn spec_cycle(&self) -> u64 {
        self.cycle
    }

    /// A logger at sequence 0 and cycle 0 whose output starts with the file header.
    pub fn new() -> (l: RoxLogger)
        ensures
            l.pending() == log_header(),
            l.spec_sequence() == 0,
            l.spec_cycle() == 0,
    {
        let mut output: Vec<u8> = Vec::new();
        output.push(0x52u8);
        output.push(0x4cu8);
        output.push(0x4fu8);
        output.push(0x47u8);
        output.push(1u8);
        assert(output@ =~= log_header());
        RoxLogger { output, sequence: 0, cycle: 0 }
    }

    /// Records a message under the current cycle with the next sequence number
    /// (which wraps at 2^64).
    pub fn record_message(&mut self, msg: &RoxMessage)
        ensures
            final(self).pending() == old(self).pending() + message_entry_bytes(
                old(self).spec_sequence(),
                old(self).spec_cycle(),
                msg.header.key.0@,
                msg.header.timestamp.hw_time,
                msg.header.timestamp.logical_time,
                bytes_view(msg.payload),
            ),
            final(self).spec_sequence() == old(self).spec_sequence().wrapping_add(1),
            final(self).spec_cycle() == old(self).spec_cycle(),
    {
        let seq = self.sequence;
        self.sequence = self.sequence.wrapping_add(1);
        let key_bytes = msg.header.key.0.as_str().as_bytes();
        self.output.push(1u8);
        put_u64_le(&mut self.output, seq);
        put_u64_le(&mut self.output, self.cycle);
        put_u16_le(&mut self.output, key_bytes.len() as u16);
        put_slice(&mut self.output, key_bytes);
        put_u64_le(&mut self.output, msg.header.timestamp.hw_time);
        put_u64_le(&mut self.output, msg.header.timestamp.logical_time);
        let payload = bytes_slice(&msg.payload);
        put_u32_le(&mut self.output, payload.len() as u32);
        put_slice(&mut self.output, payload);
        assert(self.output@ =~= old(self).output@ + message_entry_bytes(
            seq,
            self.cycle,
            msg.header.key.0@,
            msg.header.timestamp.hw_time,
            msg.header.timestamp.logical_time,
            bytes_view(msg.payload),
        ));
    }

    /// Records that a policy update, serialised as `data`, was applied at `cycle`,
    /// with the next sequence number (which wraps at 2^64).
    pub fn record_policy_applied(&mut self, cycle: u64, data: &[u8])
        ensures
            final(self).pending() == old(self).pending() + policy_entry_bytes(
                old(self).spec_sequence(),
                cycle,
                data@,
            ),
            final(self).spec_sequence() == old(self).spec_sequence().wrapping_add(1),
            final(self).spec_cycle() == old(self).spec_cycle(),
    {
        let seq = self.sequence;
        self.sequence = self.sequence.wrapping_add(1);
        self.output.push(2u8);
        put_u64_le(&mut self.output, seq);
        put_u64_le(&mut self.output, cycle);
        put_u32_le(&mut self.output, data.len() as u32);
        put_slice(&mut self.output, data);
        assert(self.output@ =~= old(self).output@ + policy_entry_bytes(seq, cycle, data@));
    }

    /// Marks `cycle` complete; later messages are filed under the next cycle.
    pub fn record_cycle_complete(&mut self, cycle: u64)
        requires
            cycle < u64::MAX,
        ensures
            final(self).pending() == old(self).pending() + cycle_entry_bytes(cycle),
            final(self).spec_sequence() == old(self).spec_sequence(),
            final(self).spec_cycle() == cycle + 1,
    {
        self.output.push(3u8);
        put_u64_le(&mut self.output, cycle);
        assert(self.output@ =~= old(self).output@ + cycle_entry_bytes(cycle));
        self.cycle = cycle + 1;
    }

    /// Hands over the bytes produced so far; they are no longer pending.
    pub fn take_output(&mut self) -> (bytes: Vec<u8>)
        ensures
            bytes@ == old(self).pending(),
            final(self).pending().len() == 0,
            final(self).spec_sequence() == old(self).spec_sequence(),
            final(self).spec_cycle() == old(self).spec_cycle(),
    {
        let mut bytes: Vec<u8> = Vec::new();
        std::mem::swap(&mut bytes, &mut self.output);
        bytes
    }

    /// The sequence number the next entry gets, which is the number of message and
    /// policy entries recorded (modulo 2^64).
    pub fn sequence(&self) -> (n: u64)
        ensures
            n == self.spec_sequence(),
    {
        self.sequence
    }
}

/// One step of reading: the end of the log, an entry and the position after it, or
/// an error and the position reading stopped at.
pub enum Step {
    End,
    Entry(EntryView, int),
    Error(LogError, int),
}

/// Reads the entry at position `p` of `s`. Reading past the end consumes all that
/// is left.
pub open spec fn parse_entry(s: Seq<u8>, p: int) -> Step {
    let n = s.len() as int;
    if p >= n {
        Step::End
    } else if s[p] == 1 {
        if n - (p + 1) < 18 {
            Step::Error(LogError::Truncated, n)
        } else {
            let q = p + 19;
            let kl = read_u16_at(s, p + 17) as int;
            if n - q < kl {
                Step::Error(LogError::Truncated, n)
            } else if !valid_utf8(s.subrange(q, q + kl)) {
                Step::Error(LogError::InvalidKeyUtf8, q + kl)
            } else {
                let r = q + kl;
                if n - r < 20 {
                    Step::Error(LogError::Truncated, n)
                } else {
                    let pl = read_u32_at(s, r + 16) as int;
                    if n - (r + 20) < pl {
                        Step::Error(LogError::Truncated, n)
                    } else {
                        Step::Entry(
                            EntryView::Message {
                                sequence: read_u64_at(s, p + 1),
                                cycle: read_u64_at(s, p + 9),
                                key: decode_utf8(s.subrange(q, q + kl)),
                                hw_time: read_u64_at(s, r),
                                logical_time: read_u64_at(s, r + 8),
                                payload: s.subrange(r + 20, r + 20 + pl),
                            },
                            r + 20 + pl,
                        )
                    }
                }
            }
        }
    } else if s[p] == 2 {
        if n - (p + 1) < 20 {
            Step::Error(LogError::Truncated, n)
        } else {
            let dl = read_u32_at(s, p + 17) as int;
            if n - (p + 21) < dl {
                Step::Error(LogError::Truncated, n)
            } else {
                Step::Entry(
                    EntryView::PolicyApplied {
                        sequence: read_u64_at(s, p + 1),
                        cycle: read_u64_at(s, p + 9),
                        data: s.subrange(p + 21, p + 21 + dl),
                    },
                    p + 21 + dl,
                )
            }
        }
    } else if s[p] == 3 {
        if n - (p + 1) < 8 {
            Step::Error(LogError::Truncated, n)
        } else {
            Step::Entry(EntryView::CycleComplete { cycle: read_u64_at(s, p + 1) }, p + 9)
        }
    } else {
        Step::Error(LogError::UnknownEntryType(s[p]), p + 1)
    }
}

/// Reads all entries from position `p` to the end, or the first error.
pub open spec fn parse_all(s: Seq<u8>, p: int) -> Result<Seq<EntryView>, LogError>
    decreases s.len() - p,
{
    match parse_entry(s, p) {
        Step::End => Ok(Seq::empty()),
        Step::Error(e, _) => Err(e),
        Step::Entry(v, q) => if p < q {
            match parse_all(s, q) {
                Ok(rest) => Ok(seq![v] + rest),
                Err(e) => Err(e),
            }
        } else {
            Ok(seq![v])
        },
    }
}

/// Checks the file header: where reading starts, or why it cannot.
pub open spec fn parse_header(s: Seq<u8>) -> Result<int, LogError> {
    if s.len() < 4 {
        Err(LogError::Truncated)
    } else if s.take(4) != log_magic() {
        Err(LogError::InvalidMagic)
    } else if s.len() < 5 {
        Err(LogError::Truncated)
    } else if s[4] != 1 {
        Err(LogError::UnsupportedVersion(s[4]))
    } else {
        Ok(5)
    }
}

/// The entries of a whole log file, or why it cannot be read.
pub open spec fn parse_log(s: Seq<u8>) -> Result<Seq<EntryView>, LogError> {
    match parse_header(s) {
        Ok(p) => parse_all(s, p),
        Err(e) => Err(e),
    }
}

/// A single entry read from a log.
#[derive(Debug)]
pub enum LogEntry {
    Message { sequence: u64, cycle: u64, message: RoxMessage },
    PolicyApplied { sequence: u64, cycle: u64, data: Vec<u8> },
    CycleComplete { cycle: u64 },
}

/// The name replayed messages carry as their source.
pub open spec fn replay_source() -> Seq<char> {
    seq!['r', 'e', 'p', 'l', 'a', 'y']
}

/// Whether an entry read from a log is the entry `v`: a message gets default QoS,
/// `replay` as its source and its entry's sequence number.
pub open spec fn entry_is(e: LogEntry, v: EntryView) -> bool {
    match (e, v) {
        (
            LogEntry::Message { sequence, cycle, message },
            EntryView::Message { sequence: vs, cycle: vc, key, hw_time, logical_time, payload },
        ) => sequence == vs && cycle == vc && message.header.key.0@ == key
            && message.header.timestamp == (RoxTimestamp { hw_time, logical_time })
            && message.header.qos == default_qos() && message.header.source_id.0@ == replay_source()
            && message.header.sequence == vs && bytes_view(message.payload) == payload,
        (
            LogEntry::PolicyApplied { sequence, cycle, data },
            EntryView::PolicyApplied { sequence: vs, cycle: vc, data: vd },
        ) => sequence == vs && cycle == vc && data@ == vd,
        (LogEntry::CycleComplete { cycle }, EntryView::CycleComplete { cycle: vc }) => cycle == vc,
        _ => false,
    }
}

/// Reads the entries of a log held in memory.
pub struct LogReader {
    data: Vec<u8>,
    pos: usize,
    entry_count: u64,
}

impl LogReader {
    /// The bytes of the log.
    pub closed spec fn data(&self) -> Seq<u8> {
        self.data@
    }

    /// Where the next entry starts.
    pub closed spec fn position(&self) -> int {
        self.pos as int
    }

    /// The number of entries read so far.
    pub closed spec fn spec_entries_read(&self) -> u64 {
        self.entry_count
    }

    /// Well-formedness: the position is within the log, past at least one byte per
    /// entry read.
    pub closed spec fn wf(&self) -> bool {
        &&& self.pos <= self.data@.len()
        &&& self.entry_count <= self.pos
    }

    /// Opens a log: checks its header and positions the reader at the first entry.
    pub fn open(data: Vec<u8>) -> (r: Result<LogReader, LogError>)
        ensures
            match parse_header(data@) {
                Ok(p) => r matches Ok(rd) && rd.wf() && rd.data() == data@ && rd.position() == p
                    && rd.spec_entries_read() == 0,
                Err(e) => r == Err::<LogReader, LogError>(e),
            },
    {
        if data.len() < 4 {
            return Err(LogError::Truncated);
        }
        if !(data[0] == 0x52u8 && data[1] == 0x4cu8 && data[2] == 0x4fu8 && data[3] == 0x47u8) {
            proof {
                if data@.take(4) == log_magic() {
                    assert(data@.take(4)[0] == data@[0]);
                    assert(data@.take(4)[1] == data@[1]);
                    assert(data@.take(4)[2] == data@[2]);
                    assert(data@.take(4)[3] == data@[3]);
                }
            }
            return Err(LogError::InvalidMagic);
        }
        assert(data@.take(4) =~= log_magic());
        if data.len() < 5 {
            return Err(LogError::Truncated);
        }
        if data[4] != 1 {
            return Err(LogError::UnsupportedVersion(data[4]));
        }
        Ok(LogReader { data, pos: 5, entry_count: 0 })
    }

    /// Reads the next entry (see [`parse_entry`]): `None` at the end of the log, an
    /// error if the entry cannot be read.
    pub fn next_entry(&mut self) -> (r: Result<Option<LogEntry>, LogError>)
        requires
            old(self).wf(),
        ensures
            final(self).wf(),
            final(self).data() == old(self).data(),
            match parse_entry(old(self).data(), old(self).position()) {
                Step::End => r matches Ok(None) && final(self).position() == old(self).position()
                    && final(self).spec_entries_read() == old(self).spec_entries_read(),
                Step::Entry(v, q) => r matches Ok(Some(e)) && entry_is(e, v)
                    && final(self).position() == q && final(self).spec_entries_read()
                    == old(self).spec_entries_read() + 1,
                Step::Error(err, q) => r == Err::<Option<LogEntry>, LogError>(err)
                    && final(self).position() == q && final(self).spec_entries_read()
                    == old(self).spec_entries_read(),
            },
    {
        let n = self.data.len();
        let p = self.pos;
        if p >= n {
            return Ok(None);
        }
        let t = self.data[p];
        if t == 1 {
            if n - (p + 1) < 18 {
                self.pos = n;
                return Err(LogError::Truncated);
            }
            let sequence = crate::wire::get_u64(&self.data, p + 1);
            let cycle = crate::wire::get_u64(&self.data, p + 9);
            let kl = crate::wire::get_u16(&self.data, p + 17) as usize;
            let q = p + 19;
            if n - q < kl {
                self.pos = n;
                return Err(LogError::Truncated);
            }
            let key_bytes = crate::wire::copy_range(&self.data, q, q + kl);
            let key = match crate::wire::utf8_to_string(key_bytes.as_slice()) {
                Some(text) => text,
                None => {
                    self.pos = q + kl;
                    return Err(LogError::InvalidKeyUtf8);
                },
            };
            let r = q + kl;
            if n - r < 20 {
                self.pos = n;
                return Err(LogError::Truncated);
            }
            let hw_time = crate::wire::get_u64(&self.data, r);
            let logical_time = crate::wire::get_u64(&self.data, r + 8);
            let pl = crate::wire::get_u32(&self.data, r + 16) as usize;
            if n - (r + 20) < pl {
                self.pos = n;
                return Err(LogError::Truncated);
            }
            let payload = bytes_from_vec(crate::wire::copy_range(&self.data, r + 20, r + 20 + pl));
            let source = "replay".to_owned();
            proof {
                reveal_strlit("replay");
            }
            assert(source@ =~= replay_source());
            let message = RoxMessage {
                header: MessageHeader {
                    key: KeyExpr(key),
                    timestamp: RoxTimestamp { hw_time, logical_time },
                    qos: QoSMetadata::default(),
                    source_id: NodeId(source),
                    sequence,
                },
                payload,
            };
            self.pos = r + 20 + pl;
            self.entry_count = self.entry_count + 1;
            Ok(Some(LogEntry::Message { sequence, cycle, message }))
        } else if t == 2 {
            if n - (p + 1) < 20 {
                self.pos = n;
                return Err(LogError::Truncated);
            }
            let sequence = crate::wire::get_u64(&self.data, p + 1);
            let cycle = crate::wire::get_u64(&self.data, p + 9);
            let dl = crate::wire::get_u32(&self.data, p + 17) as usize;
            if n - (p + 21) < dl {
                self.pos = n;
                return Err(LogError::Truncated);
            }
            let data = crate::wire::copy_range(&self.data, p + 21, p + 21 + dl);
            self.pos = p + 21 + dl;
            self.entry_count = self.entry_count + 1;
            Ok(Some(LogEntry::PolicyApplied { sequence, cycle, data }))
        } else if t == 3 {
            if n - (p + 1) < 8 {
                self.pos = n;
                return Err(LogError::Truncated);
            }
            let cycle = crate::wire::get_u64(&self.data, p + 1);
            self.pos = p + 9;
            self.entry_count = self.entry_count + 1;
            Ok(Some(LogEntry::CycleComplete { cycle }))
        } else {
            self.pos = p + 1;
            Err(LogError::UnknownEntryType(t))
        }
    }

    /// Reads all remaining entries (see [`parse_all`]), or stops at the first error.
    pub fn read_all(&mut self) -> (r: Result<Vec<LogEntry>, LogError>)
        requires
            old(self).wf(),
        ensures
            final(self).wf(),
            final(self).data() == old(self).data(),
            match parse_all(old(self).data(), old(self).position()) {
                Ok(vs) => r matches Ok(es) && es@.len() == vs.len() && forall|i: int|
                    0 <= i < vs.len() ==> entry_is(#[trigger] es@[i], vs[i]),
                Err(e) => r == Err::<Vec<LogEntry>, LogError>(e),
            },
            r matches Ok(es) ==> final(self).spec_entries_read() == old(self).spec_entries_read()
                + es@.len(),
            final(self).spec_entries_read() >= old(self).spec_entries_read(),
    {
        let mut entries: Vec<LogEntry> = Vec::new();
        let ghost start = self.pos as int;
        loop
            invariant
                self.wf(),
                self.data() == old(self).data(),
                start == old(self).position(),
                start <= self.position(),
                self.spec_entries_read() == old(self).spec_entries_read() + entries@.len(),
                match parse_all(self.data(), start) {
                    Ok(vs) => (parse_all(self.data(), self.position()) matches Ok(rest) && vs
                        == vs.take(entries@.len() as int) + rest) && entries@.len() <= vs.len()
                        && forall|i: int|
                        0 <= i < entries@.len() ==> entry_is(#[trigger] entries@[i], vs[i]),
                    Err(e) => parse_all(self.data(), self.position()) == Err::<
                        Seq<EntryView>,
                        LogError,
                    >(e),
                },
            decreases self.data().len() - self.position(),
        {
            let ghost before = self.position();
            let ghost k = entries@.len();
            proof {
                lemma_parse_entry_advances(self.data(), before);
            }
            match self.next_entry() {
                Ok(None) => {
                    proof {
                        match parse_all(self.data(), start) {
                            Ok(vs) => {
                                assert(vs.take(k as int) + Seq::<EntryView>::empty() =~= vs.take(k as int));
                                assert(vs.take(k as int).len() == k);
                                assert(vs.len() == k);
                                assert(vs =~= vs.take(k as int));
                            },
                            Err(_) => {},
                        }
                    }
                    return Ok(entries);
                },
                Ok(Some(e)) => {
                    entries.push(e);
                    proof {
                        match parse_all(self.data(), start) {
                            Ok(vs) => {
                                let rest0 = parse_all(self.data(), before)->Ok_0;
                                let v = parse_entry(self.data(), before)->Entry_0;
                                let rest1 = parse_all(self.data(), self.position())->Ok_0;
                                assert(rest0 == seq![v] + rest1);
                                assert(vs == vs.take(k as int) + (seq![v] + rest1));
                                assert(vs[k as int] == v);
                                assert(vs.take(k as int + 1) =~= vs.take(k as int) + seq![v]);
                                assert(vs =~= vs.take(k as int + 1) + rest1);
                                assert forall|i: int| 0 <= i < entries@.len() implies entry_is(
                                    #[trigger] entries@[i],
                                    vs[i],
                                ) by {
                                    if i < k {
                                        assert(entries@[i] == old_entry_at(entries@, i));
                                    }
                                }
                            },
                            Err(_) => {},
                        }
                    }
                },
                Err(err) => {
                    return Err(err);
                },
            }
        }
    }

    /// The number of entries read so far.
    pub fn entries_read(&self) -> (n: u64)
        ensures
            n == self.spec_entries_read(),
    {
        self.entry_count
    }
}

/// The entry at `i` (a name for the term, to help the prover relate a list before and
/// after a push).
pub open spec fn old_entry_at(es: Seq<LogEntry>, i: int) -> LogEntry {
    es[i]
}

/// Reading always moves forward: an entry or an error ends past where reading began,
/// and within the log.
pub proof fn lemma_parse_entry_advances(s: Seq<u8>, p: int)
    requires
        0 <= p,
    ensures
        match parse_entry(s, p) {
            Step::End => p >= s.len(),
            Step::Entry(_, q) => p < q <= s.len(),
            Step::Error(_, q) => p < q <= s.len(),
        },
{
}

/// Whether an entry survives the log unchanged: its key fits the 16-bit length
/// field and its payload or data the 32-bit one.
pub open spec fn entry_fits(v: EntryView) -> bool {
    match v {
        EntryView::Message { key, payload, .. } => encode_utf8(key).len() <= u16::MAX
            && payload.len() <= u32::MAX,
        EntryView::PolicyApplied { data, .. } => data.len() <= u32::MAX,
        EntryView::CycleComplete { .. } => true,
    }
}

/// A piece of `e`, where `e` stands at position `at` of `s`, is the same piece of `s`.
proof fn lemma_piece(s: Seq<u8>, at: int, e: Seq<u8>, a: int, b: int)
    requires
        0 <= at,
        at + e.len() <= s.len(),
        s.subrange(at, at + e.len()) == e,
        0 <= a <= b <= e.len(),
    ensures
        s.subrange(at + a, at + b) == e.subrange(a, b),
{
    assert forall|i: int| 0 <= i < b - a implies s.subrange(at + a, at + b)[i] == e.subrange(a, b)[i] by {
        assert(s.subrange(at, at + e.len())[a + i] == s[at + a + i]);
    }
    assert(s.subrange(at + a, at + b) =~= e.subrange(a, b));
}

/// An entry standing at position `at` is read back, and reading ends right after it.
proof fn lemma_parse_one(s: Seq<u8>, at: int, v: EntryView)
    requires
        0 <= at,
        at + entry_bytes(v).len() <= s.len(),
        s.subrange(at, at + entry_bytes(v).len()) == entry_bytes(v),
        entry_fits(v),
    ensures
        parse_entry(s, at) == Step::Entry(v, at + entry_bytes(v).len()),
{
    let e = entry_bytes(v);
    assert(s[at] == s.subrange(at, at + e.len())[0]);
    match v {
        EntryView::Message { sequence, cycle, key, hw_time, logical_time, payload } => {
            let kb = encode_utf8(key);
            let k = kb.len() as int;
            let r = 19 + k;
            let pl = payload.len() as int;
            vstd::utf8::encode_utf8_valid_utf8(key);
            vstd::utf8::encode_utf8_decode_utf8(key);
            assert(e.len() == r + 20 + pl);
            assert(e[0] == 1u8);
            assert(e.subrange(1, 9) =~= le_u64_bytes(sequence));
            assert(e.subrange(9, 17) =~= le_u64_bytes(cycle));
            assert(e.subrange(17, 19) =~= le_u16_bytes(k as u16));
            assert(e.subrange(19, r) =~= kb);
            assert(e.subrange(r, r + 8) =~= le_u64_bytes(hw_time));
            assert(e.subrange(r + 8, r + 16) =~= le_u64_bytes(logical_time));
            assert(e.subrange(r + 16, r + 20) =~= le_u32_bytes(pl as u32));
            assert(e.subrange(r + 20, r + 20 + pl) =~= payload);
            lemma_piece(s, at, e, 1, 9);
            lemma_piece(s, at, e, 9, 17);
            lemma_piece(s, at, e, 17, 19);
            lemma_piece(s, at, e, 19, r);
            lemma_piece(s, at, e, r, r + 8);
            lemma_piece(s, at, e, r + 8, r + 16);
            lemma_piece(s, at, e, r + 16, r + 20);
            lemma_piece(s, at, e, r + 20, r + 20 + pl);
            crate::wire::lemma_read64(s, at + 1, sequence);
            crate::wire::lemma_read64(s, at + 9, cycle);
            crate::wire::lemma_read16(s, at + 17, k as u16);
            crate::wire::lemma_read64(s, at + r, hw_time);
            crate::wire::lemma_read64(s, at + r + 8, logical_time);
            crate::wire::lemma_read32(s, at + r + 16, pl as u32);
            assert(read_u16_at(s, at + 17) as int == k);
            assert(read_u32_at(s, at + r + 16) as int == pl);
        },
        EntryView::PolicyApplied { sequence, cycle, data } => {
            let dl = data.len() as int;
            assert(e.len() == 21 + dl);
            assert(e[0] == 2u8);
            assert(e.subrange(1, 9) =~= le_u64_bytes(sequence));
            assert(e.subrange(9, 17) =~= le_u64_bytes(cycle));
            assert(e.subrange(17, 21) =~= le_u32_bytes(dl as u32));
            assert(e.subrange(21, 21 + dl) =~= data);
            lemma_piece(s, at, e, 1, 9);
            lemma_piece(s, at, e, 9, 17);
            lemma_piece(s, at, e, 17, 21);
            lemma_piece(s, at, e, 21, 21 + dl);
            crate::wire::lemma_read64(s, at + 1, sequence);
            crate::wire::lemma_read64(s, at + 9, cycle);
            crate::wire::lemma_read32(s, at + 17, dl as u32);
            assert(read_u32_at(s, at + 17) as int == dl);
        },
        EntryView::CycleComplete { cycle } => {
            assert(e.len() == 9);
            assert(e[0] == 3u8);
            assert(e.subrange(1, 9) =~= le_u64_bytes(cycle));
            lemma_piece(s, at, e, 1, 9);
            crate::wire::lemma_read64(s, at + 1, cycle);
        },
    }
}

/// The entries standing from position `at` to the end are read back.
proof fn lemma_parse_entries(s: Seq<u8>, at: int, vs: Seq<EntryView>)
    requires
        0 <= at,
        s.len() == at + entries_bytes(vs).len(),
        s.subrange(at, s.len() as int) == entries_bytes(vs),
        forall|i: int| 0 <= i < vs.len() ==> entry_fits(#[trigger] vs[i]),
    ensures
        parse_all(s, at) == Ok::<Seq<EntryView>, LogError>(vs),
    decreases vs.len(),
{
    if vs.len() == 0 {
        assert(parse_entry(s, at) == Step::End);
        assert(vs =~= Seq::<EntryView>::empty());
    } else {
        let v = vs[0];
        let e = entry_bytes(v);
        let rest = entries_bytes(vs.drop_first());
        assert(entries_bytes(vs) == e + rest);
        assert(entry_fits(vs[0]));
        lemma_piece(s, at, e + rest, 0, e.len() as int);
        assert((e + rest).subrange(0, e.len() as int) =~= e);
        lemma_parse_one(s, at, v);
        let next = at + e.len();
        lemma_piece(s, at, e + rest, e.len() as int, (e + rest).len() as int);
        assert((e + rest).subrange(e.len() as int, (e + rest).len() as int) =~= rest);
        assert forall|i: int| 0 <= i < vs.drop_first().len() implies entry_fits(
            #[trigger] vs.drop_first()[i],
        ) by {
            assert(vs.drop_first()[i] == vs[i + 1]);
        }
        assert(next + rest.len() == s.len());
        lemma_parse_entries(s, next, vs.drop_first());
        lemma_parse_entry_advances(s, at);
        assert(parse_entry(s, at) == Step::Entry(v, next));
        assert(at < next);
        assert(parse_all(s, next) == Ok::<Seq<EntryView>, LogError>(vs.drop_first()));
        assert(seq![v] + vs.drop_first() =~= vs);
    }
}

/// Reading a log back gives exactly the entries written to it, in order, provided
/// each key fits its 16-bit length and each payload or policy its 32-bit one.
pub proof fn law_read_gives_back_written(vs: Seq<EntryView>)
    requires
        forall|i: int| 0 <= i < vs.len() ==> entry_fits(#[trigger] vs[i]),
    ensures
        parse_log(log_header() + entries_bytes(vs)) == Ok::<Seq<EntryView>, LogError>(vs),
{
    let s = log_header() + entries_bytes(vs);
    assert(s.take(4) =~= log_magic());
    assert(s[4] == 1u8);
    assert(s.subrange(5, s.len() as int) =~= entries_bytes(vs));
    lemma_parse_entries(s, 5, vs);
}

} // verus!
