//! Tamper-evident audit trail: every entry carries the blake3 hash of the one
//! before it, starting from the hash of a fixed genesis text.
//!
//! Each entry's hash covers its sequence number, timestamp, the previous hash and
//! the entry's description (`{sequence}:{timestamp}:{previous hash}:{description}`).
//! Describing an entry and writing entries out as JSON lines is up to the caller.

use vstd::prelude::*;
use vstd::utf8::encode_utf8;

verus! {

/// The lowercase hex text of the blake3 hash of `data`.
pub uninterp spec fn blake3_hex(data: Seq<u8>) -> Seq<char>;

/// Calls `blake3::hash` and renders the hash with `Hash::to_hex`: the result is
/// determined by the bytes alone.
#[verifier::external_body]
fn hash_hex(data: &[u8]) -> (h: String)
    ensures
        h@ == blake3_hex(data@),
{
    blake3::hash(data).to_hex().to_string()
}

/// `ROX_AUDIT_GENESIS`, the text whose hash starts every chain.
pub open spec fn genesis_text() -> Seq<u8> {
    seq![
        0x52u8, 0x4fu8, 0x58u8, 0x5fu8, 0x41u8, 0x55u8, 0x44u8, 0x49u8, 0x54u8, 0x5fu8, 0x47u8,
        0x45u8, 0x4eu8, 0x45u8, 0x53u8, 0x49u8, 0x53u8,
    ]
}

/// The hash every chain starts from.
pub open spec fn genesis_hash() -> Seq<char> {
    blake3_hex(genesis_text())
}

/// The hash that starts every chain: the blake3 hash of `ROX_AUDIT_GENESIS`.
pub fn genesis() -> (h: String)
    ensures
        h@ == genesis_hash(),
{
    let text: [u8; 17] = [
        0x52u8, 0x4fu8, 0x58u8, 0x5fu8, 0x41u8, 0x55u8, 0x44u8, 0x49u8, 0x54u8, 0x5fu8, 0x47u8,
        0x45u8, 0x4eu8, 0x45u8, 0x53u8, 0x49u8, 0x53u8,
    ];
    let s: &[u8] = vstd::array::array_as_slice(&text);
    assert(s@ =~= genesis_text());
    hash_hex(s)
}

/// The decimal digits of `n`.
pub open spec fn decimal(n: nat) -> Seq<char>
    decreases n,
{
    if n < 10 {
        seq![digit(n)]
    } else {
        decimal(n / 10).push(digit(n % 10))
    }
}

/// The character of a digit.
pub open spec fn digit(d: nat) -> char {
    if d == 0 {
        '0'
    } else if d == 1 {
        '1'
    } else if d == 2 {
        '2'
    } else if d == 3 {
        '3'
    } else if d == 4 {
        '4'
    } else if d == 5 {
        '5'
    } else if d == 6 {
        '6'
    } else if d == 7 {
        '7'
    } else if d == 8 {
        '8'
    } else {
        '9'
    }
}

fn digit_str(d: u64) -> (s: &'static str)
    requires
        d < 10,
    ensures
        s@ == seq![digit(d as nat)],
{
    if d == 0 {
        proof {
            reveal_strlit("0");
        }
        "0"
    } else if d == 1 {
        proof {
            reveal_strlit("1");
        }
        "1"
    } else if d == 2 {
        proof {
            reveal_strlit("2");
        }
        "2"
    } else if d == 3 {
        proof {
            reveal_strlit("3");
        }
        "3"
    } else if d == 4 {
        proof {
            reveal_strlit("4");
        }
        "4"
    } else if d == 5 {
        proof {
            reveal_strlit("5");
        }
        "5"
    } else if d == 6 {
        proof {
            reveal_strlit("6");
        }
        "6"
    } else if d == 7 {
        proof {
            reveal_strlit("7");
        }
        "7"
    } else if d == 8 {
        proof {
            reveal_strlit("8");
        }
        "8"
    } else {
        proof {
            reveal_strlit("9");
        }
        "9"
    }
}

/// Appends the decimal digits of a number.
pub fn push_decimal(s: &mut String, n: u64)
    ensures
        final(s)@ == old(s)@ + decimal(n as nat),
    decreases n,
{
    if n >= 10 {
        push_decimal(s, n / 10);
    }
    s.append(digit_str(n % 10));
    assert(final(s)@ =~= old(s)@ + decimal(n as nat));
}

/// The text an entry's hash covers: `{sequence}:{timestamp}:{previous hash}:{description}`.
pub open spec fn entry_content(
    sequence: u64,
    timestamp_ns: u64,
    prev_hash: Seq<char>,
    description: Seq<char>,
) -> Seq<char> {
    decimal(sequence as nat) + seq![':'] + decimal(timestamp_ns as nat) + seq![':'] + prev_hash
        + seq![':'] + description
}

/// The hash of an entry.
pub open spec fn entry_hash(
    sequence: u64,
    timestamp_ns: u64,
    prev_hash: Seq<char>,
    description: Seq<char>,
) -> Seq<char> {
    blake3_hex(encode_utf8(entry_content(sequence, timestamp_ns, prev_hash, description)))
}

/// An audit entry: what its hash covers, and the hashes it carries.
#[derive(Debug)]
pub struct AuditLink {
    pub sequence: u64,
    pub timestamp_ns: u64,
    /// What the entry records.
    pub description: String,
    /// Hash of the previous entry, hex-encoded.
    pub prev_hash: String,
    /// Hash of this entry, hex-encoded.
    pub hash: String,
}

/// An audit entry as plain values.
pub struct AuditEntryView {
    pub sequence: u64,
    pub timestamp_ns: u64,
    pub description: Seq<char>,
    pub prev_hash: Seq<char>,
    pub hash: Seq<char>,
}

/// The plain values of an entry.
pub open spec fn entry_view(l: AuditLink) -> AuditEntryView {
    AuditEntryView {
        sequence: l.sequence,
        timestamp_ns: l.timestamp_ns,
        description: l.description@,
        prev_hash: l.prev_hash@,
        hash: l.hash@,
    }
}

/// The plain values of a list of entries.
pub open spec fn entry_views(links: Seq<AuditLink>) -> Seq<AuditEntryView> {
    links.map_values(|l: AuditLink| entry_view(l))
}

/// Whether a list of (previous hash, hash) pairs forms a chain from the genesis:
/// the first entry's previous hash is the genesis hash and each later one's is the
/// hash of the entry before.
pub open spec fn chained(links: Seq<(Seq<char>, Seq<char>)>) -> bool {
    forall|i: int|
        0 <= i < links.len() ==> #[trigger] links[i].0 == if i == 0 {
            genesis_hash()
        } else {
            links[i - 1].1
        }
}

/// The (previous hash, hash) pairs of a list of entries.
pub open spec fn link_pairs(es: Seq<AuditEntryView>) -> Seq<(Seq<char>, Seq<char>)> {
    es.map_values(|e: AuditEntryView| (e.prev_hash, e.hash))
}

/// Whether an entry's hash is the hash of its own content.
pub open spec fn sealed(e: AuditEntryView) -> bool {
    e.hash == entry_hash(e.sequence, e.timestamp_ns, e.prev_hash, e.description)
}

/// Whether a trail is intact: every entry's hash covers its own content, and the
/// entries form a chain from the genesis hash.
pub open spec fn trail_intact(es: Seq<AuditEntryView>) -> bool {
    &&& chained(link_pairs(es))
    &&& forall|i: int| 0 <= i < es.len() ==> #[trigger] sealed(es[i])
}

/// The text an entry's hash covers, built as [`entry_content`] says.
fn content_text(sequence: u64, timestamp_ns: u64, prev_hash: &str, description: &str) -> (c: String)
    ensures
        c@ == entry_content(sequence, timestamp_ns, prev_hash@, description@),
{
    let mut content = String::new();
    push_decimal(&mut content, sequence);
    content.append(":");
    push_decimal(&mut content, timestamp_ns);
    content.append(":");
    content.append(prev_hash);
    content.append(":");
    content.append(description);
    proof {
        reveal_strlit(":");
    }
    assert(content@ =~= entry_content(sequence, timestamp_ns, prev_hash@, description@));
    content
}

/// Checks an audit trail: whether every entry's hash is the blake3 hash of its own
/// content, and the entries, in order, form a chain from the genesis hash.
pub fn verify_audit_log(links: &[AuditLink]) -> (ok: bool)
    ensures
        ok == trail_intact(entry_views(links@)),
{
    let ghost es = entry_views(links@);
    let ghost lv = link_pairs(es);
    let mut expected = genesis();
    let mut i: usize = 0;
    while i < links.len()
        invariant
            i <= links@.len(),
            es == entry_views(links@),
            lv == link_pairs(es),
            forall|j: int| 0 <= j < i ==> #[trigger] lv[j].0 == if j == 0 {
                genesis_hash()
            } else {
                lv[j - 1].1
            },
            forall|j: int| 0 <= j < i ==> #[trigger] sealed(es[j]),
            expected@ == if i == 0 {
                genesis_hash()
            } else {
                lv[i - 1].1
            },
        decreases links@.len() - i,
    {
        let link = &links[i];
        assert(es[i as int] == entry_view(*link));
        if link.prev_hash != expected {
            assert(lv[i as int].0 != if i == 0 {
                genesis_hash()
            } else {
                lv[i - 1].1
            });
            return false;
        }
        let content = content_text(
            link.sequence,
            link.timestamp_ns,
            link.prev_hash.as_str(),
            link.description.as_str(),
        );
        let h = hash_hex(content.as_str().as_bytes());
        if h != link.hash {
            assert(!sealed(es[i as int]));
            return false;
        }
        expected = link.hash.clone();
        i += 1;
    }
    true
}

/// The hash chain of an audit trail: the next sequence number and the hash of the
/// last entry.
pub struct AuditLogger {
    sequence: u64,
    prev_hash: String,
}

impl AuditLogger {
    /// The sequence number of the next entry.
    pub closed spec fn spec_sequence(&self) -> u64 {
        self.sequence
    }

    /// The hash the next entry chains to.
    pub closed spec fn spec_prev_hash(&self) -> Seq<char> {
        self.prev_hash@
    }

    /// A chain with no entries, starting at the genesis hash.
    pub fn new() -> (a: AuditLogger)
        ensures
            a.spec_sequence() == 0,
            a.spec_prev_hash() == genesis_hash(),
    {
        AuditLogger { sequence: 0, prev_hash: genesis() }
    }

    /// Appends an entry with the given timestamp and description: it gets the next
    /// sequence number (which wraps at 2^64), chains to the last hash, and its own
    /// hash becomes the one the next entry chains to.
    pub fn append(&mut self, timestamp_ns: u64, description: &str) -> (link: AuditLink)
        ensures
            link.sequence == old(self).spec_sequence(),
            link.timestamp_ns == timestamp_ns,
            link.description@ == description@,
            link.prev_hash@ == old(self).spec_prev_hash(),
            link.hash@ == entry_hash(
                old(self).spec_sequence(),
                timestamp_ns,
                old(self).spec_prev_hash(),
                description@,
            ),
            final(self).spec_sequence() == old(self).spec_sequence().wrapping_add(1),
            final(self).spec_prev_hash() == link.hash@,
    {
        let seq = self.sequence;
        self.sequence = self.sequence.wrapping_add(1);
        let content = content_text(seq, timestamp_ns, self.prev_hash.as_str(), description);
        let hash = hash_hex(content.as_str().as_bytes());
        let link = AuditLink {
            sequence: seq,
            timestamp_ns,
            description: description.to_owned(),
            prev_hash: self.prev_hash.clone(),
            hash: hash.clone(),
        };
        self.prev_hash = hash;
        link
    }

    /// Appends an entry stamped with the current time (see [`Self::append`]); the
    /// timestamp is read from the system clock.
    pub fn append_now(&mut self, description: &str) -> (link: AuditLink)
        ensures
            link.sequence == old(self).spec_sequence(),
            link.description@ == description@,
            link.prev_hash@ == old(self).spec_prev_hash(),
            link.hash@ == entry_hash(
                old(self).spec_sequence(),
                link.timestamp_ns,
                old(self).spec_prev_hash(),
                description@,
            ),
            final(self).spec_sequence() == old(self).spec_sequence().wrapping_add(1),
            final(self).spec_prev_hash() == link.hash@,
    {
        let now = crate::message::unix_time_nanos();
        let ts: u64 = (now % 0x1_0000_0000_0000_0000u128) as u64;
        self.append(ts, description)
    }

    /// The number of entries written (modulo 2^64).
    pub fn entries_written(&self) -> (n: u64)
        ensures
            n == self.spec_sequence(),
    {
        self.sequence
    }
}

/// A trail written by one logger verifies: if each entry chains to the hash the
/// logger held, hands its own hash on, and carries the hash of its own content, the
/// trail is intact.
pub proof fn law_written_trail_verifies(es: Seq<AuditEntryView>, held: Seq<Seq<char>>)
    requires
        held.len() == es.len() + 1,
        held[0] == genesis_hash(),
        forall|i: int| 0 <= i < es.len() ==> #[trigger] es[i].prev_hash == held[i],
        forall|i: int| 0 <= i < es.len() ==> held[i + 1] == #[trigger] es[i].hash,
        forall|i: int|
            0 <= i < es.len() ==> #[trigger] es[i].hash == entry_hash(
                es[i].sequence,
                es[i].timestamp_ns,
                es[i].prev_hash,
                es[i].description,
            ),
    ensures
        trail_intact(es),
{
    let links = link_pairs(es);
    assert forall|i: int| 0 <= i < links.len() implies #[trigger] links[i].0 == if i == 0 {
        genesis_hash()
    } else {
        links[i - 1].1
    } by {
        assert(links[i] == (es[i].prev_hash, es[i].hash));
        if i > 0 {
            assert(links[i - 1] == (es[i - 1].prev_hash, es[i - 1].hash));
            assert(held[(i - 1) + 1] == es[i - 1].hash);
        }
    }
    assert forall|i: int| 0 <= i < es.len() implies #[trigger] sealed(es[i]) by {
        assert(es[i].hash == entry_hash(
            es[i].sequence,
            es[i].timestamp_ns,
            es[i].prev_hash,
            es[i].description,
        ));
    }
}

/// An intact trail carries, in each entry, the blake3 hash of that entry's own
/// content.
pub proof fn law_intact_trail_is_sealed(es: Seq<AuditEntryView>, i: int)
    requires
        trail_intact(es),
        0 <= i < es.len(),
    ensures
        es[i].hash == blake3_hex(
            encode_utf8(
                entry_content(es[i].sequence, es[i].timestamp_ns, es[i].prev_hash, es[i].description),
            ),
        ),
{
    assert(sealed(es[i]));
}

/// Changing the previous hash an entry records breaks the trail.
pub proof fn law_tampered_link_fails(es: Seq<AuditEntryView>, i: int, forged: Seq<char>)
    requires
        trail_intact(es),
        0 <= i < es.len(),
        forged != es[i].prev_hash,
    ensures
        !trail_intact(es.update(i, AuditEntryView { prev_hash: forged, ..es[i] })),
{
    let t = es.update(i, AuditEntryView { prev_hash: forged, ..es[i] });
    let lt = link_pairs(t);
    let le = link_pairs(es);
    assert(lt[i].0 == forged);
    assert(le[i].0 == es[i].prev_hash);
    if i > 0 {
        assert(lt[i - 1] == le[i - 1]);
    }
    assert(lt[i].0 != if i == 0 {
        genesis_hash()
    } else {
        lt[i - 1].1
    });
}

/// Editing what an entry records (its sequence number, timestamp or description)
/// while keeping its hashes breaks the trail, unless the edited content happens to
/// hash to the same value.
pub proof fn law_edited_entry_fails(
    es: Seq<AuditEntryView>,
    i: int,
    sequence: u64,
    timestamp_ns: u64,
    description: Seq<char>,
)
    requires
        0 <= i < es.len(),
        entry_hash(sequence, timestamp_ns, es[i].prev_hash, description) != es[i].hash,
    ensures
        !trail_intact(
            es.update(
                i,
                AuditEntryView { sequence, timestamp_ns, description, ..es[i] },
            ),
        ),
{
    let t = es.update(i, AuditEntryView { sequence, timestamp_ns, description, ..es[i] });
    assert(!sealed(t[i]));
}

} // verus!
