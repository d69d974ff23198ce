//! TopicBridge: translates topic names between the key-expression namespace and
//! external protocols (ROS 2, Zenoh) through configured mappings.

use vstd::prelude::*;
use crate::keyexpr::KeyExpr;
use crate::message::RoxMessage;
use crate::types::{NodeId, default_qos};
use crate::zbuf::{bytes_clone, bytes_view};
use bytes::Bytes;

verus! {

/// Direction in which a mapping carries messages.
#[derive(Clone, Copy, Debug, PartialEq, Eq, Structural)]
pub enum BridgeDirection {
    /// From the key-expression namespace outwards.
    Export,
    /// From outside into the key-expression namespace.
    Import,
    /// Both ways.
    Bidirectional,
}

/// A topic mapping rule.
#[derive(Debug)]
pub struct TopicMapping {
    /// Topic in the key-expression namespace.
    pub rox_topic: String,
    /// Topic name outside.
    pub external_topic: String,
    /// Direction of the mapping.
    pub direction: BridgeDirection,
}

/// A table from topic names to topic names; a later entry for a name replaces an
/// earlier one.
pub open spec fn table_map(entries: Seq<(String, String)>) -> Map<Seq<char>, Seq<char>>
    decreases entries.len(),
{
    if entries.len() == 0 {
        Map::empty()
    } else {
        table_map(entries.drop_last()).insert(entries.last().0@, entries.last().1@)
    }
}

/// Whether the direction exports.
pub open spec fn exports(d: BridgeDirection) -> bool {
    d == BridgeDirection::Export || d == BridgeDirection::Bidirectional
}

/// Whether the direction imports.
pub open spec fn imports(d: BridgeDirection) -> bool {
    d == BridgeDirection::Import || d == BridgeDirection::Bidirectional
}

/// A bridge between the key-expression namespace and one external system.
pub struct TopicBridge {
    name: String,
    mappings: Vec<TopicMapping>,
    rox_to_external: Vec<(String, String)>,
    external_to_rox: Vec<(String, String)>,
    messages_bridged: u64,
}

/// Position of the last entry for `key` in a table.
fn find_entry(entries: &Vec<(String, String)>, key: &String) -> (r: Option<usize>)
    ensures
        match r {
            Some(i) => i < entries@.len() && entries@[i as int].0@ == key@ && forall|j: int|
                i < j < entries@.len() ==> entries@[j].0@ != key@,
            None => forall|j: int| 0 <= j < entries@.len() ==> entries@[j].0@ != key@,
        },
{
    let mut k = entries.len();
    while k > 0
        invariant
            k <= entries.len(),
            forall|j: int| k <= j < entries@.len() ==> entries@[j].0@ != key@,
        decreases k,
    {
        if entries[k - 1].0 == *key {
            return Some(k - 1);
        }
        k -= 1;
    }
    None
}

proof fn lemma_table_absent(entries: Seq<(String, String)>, key: Seq<char>)
    requires
        forall|j: int| 0 <= j < entries.len() ==> entries[j].0@ != key,
    ensures
        !table_map(entries).contains_key(key),
    decreases entries.len(),
{
    if entries.len() > 0 {
        lemma_table_absent(entries.drop_last(), key);
    }
}

proof fn lemma_table_lookup(entries: Seq<(String, String)>, i: int, key: Seq<char>)
    requires
        0 <= i < entries.len(),
        entries[i].0@ == key,
        forall|j: int| i < j < entries.len() ==> entries[j].0@ != key,
    ensures
        table_map(entries).contains_key(key),
        table_map(entries)[key] == entries[i].1@,
    decreases entries.len(),
{
    if i < entries.len() - 1 {
        lemma_table_lookup(entries.drop_last(), i, key);
    }
}

proof fn lemma_table_update(entries: Seq<(String, String)>, i: int, e: (String, String))
    requires
        0 <= i < entries.len(),
        entries[i].0@ == e.0@,
        forall|j: int| i < j < entries.len() ==> entries[j].0@ != e.0@,
    ensures
        table_map(entries.update(i, e)) == table_map(entries).insert(e.0@, e.1@),
    decreases entries.len(),
{
    let u = entries.update(i, e);
    if i == entries.len() - 1 {
        assert(u.drop_last() =~= entries.drop_last());
        assert(table_map(u) =~= table_map(entries).insert(e.0@, e.1@));
    } else {
        assert(u.drop_last() =~= entries.drop_last().update(i, e));
        lemma_table_update(entries.drop_last(), i, e);
        assert(table_map(u) =~= table_map(entries).insert(e.0@, e.1@));
    }
}

/// Sets `key` to `value` in a table: replaces the entry for `key` or appends one.
fn table_insert(entries: &mut Vec<(String, String)>, key: String, value: String)
    ensures
        table_map(final(entries)@) == table_map(old(entries)@).insert(key@, value@),
{
    match find_entry(entries, &key) {
        Some(i) => {
            proof {
                lemma_table_update(entries@, i as int, (key, value));
            }
            entries.set(i, (key, value));
        },
        None => {
            entries.push((key, value));
            assert(entries@.drop_last() =~= old(entries)@);
        },
    }
}

/// Looks `key` up in a table.
fn table_get<'a>(entries: &'a Vec<(String, String)>, key: &str) -> (r: Option<&'a str>)
    ensures
        table_map(entries@).contains_key(key@) ==> (r matches Some(v) && v@ == table_map(
            entries@,
        )[key@]),
        !table_map(entries@).contains_key(key@) ==> r is None,
{
    let k = key.to_owned();
    match find_entry(entries, &k) {
        Some(i) => {
            proof {
                lemma_table_lookup(entries@, i as int, key@);
            }
            Some(entries[i].1.as_str())
        },
        None => {
            proof {
                lemma_table_absent(entries@, key@);
            }
            None
        },
    }
}

impl TopicBridge {
    /// The bridge's name.
    pub closed spec fn spec_name(&self) -> Seq<char> {
        self.name@
    }

    /// Translations from key-expression topics to external topics.
    pub closed spec fn export_map(&self) -> Map<Seq<char>, Seq<char>> {
        table_map(self.rox_to_external@)
    }

    /// Translations from external topics to key-expression topics.
    pub closed spec fn import_map(&self) -> Map<Seq<char>, Seq<char>> {
        table_map(self.external_to_rox@)
    }

    /// Number of mappings added.
    pub closed spec fn spec_mapping_count(&self) -> nat {
        self.mappings@.len()
    }

    /// Number of messages bridged so far.
    pub closed spec fn spec_messages_bridged(&self) -> u64 {
        self.messages_bridged
    }

    /// A bridge with no mappings.
    pub fn new(name: &str) -> (b: TopicBridge)
        ensures
            b.spec_name() == name@,
            b.export_map() == Map::<Seq<char>, Seq<char>>::empty(),
            b.import_map() == Map::<Seq<char>, Seq<char>>::empty(),
            b.spec_mapping_count() == 0,
            b.spec_messages_bridged() == 0,
    {
        TopicBridge {
            name: name.to_owned(),
            mappings: Vec::new(),
            rox_to_external: Vec::new(),
            external_to_rox: Vec::new(),
            messages_bridged: 0,
        }
    }

    /// Adds a mapping. An exporting mapping sets the external name of its topic, an
    /// importing one sets the key-expression name of its external topic; a later
    /// mapping for the same name replaces an earlier one.
    pub fn add_mapping(&mut self, mapping: TopicMapping)
        ensures
            final(self).export_map() == if exports(mapping.direction) {
                old(self).export_map().insert(mapping.rox_topic@, mapping.external_topic@)
            } else {
                old(self).export_map()
            },
            final(self).import_map() == if imports(mapping.direction) {
                old(self).import_map().insert(mapping.external_topic@, mapping.rox_topic@)
            } else {
                old(self).import_map()
            },
            final(self).spec_mapping_count() == old(self).spec_mapping_count() + 1,
            final(self).spec_name() == old(self).spec_name(),
            final(self).spec_messages_bridged() == old(self).spec_messages_bridged(),
    {
        match mapping.direction {
            BridgeDirection::Export | BridgeDirection::Bidirectional => {
                table_insert(
                    &mut self.rox_to_external,
                    mapping.rox_topic.clone(),
                    mapping.external_topic.clone(),
                );
            },
            _ => {},
        }
        match mapping.direction {
            BridgeDirection::Import | BridgeDirection::Bidirectional => {
                table_insert(
                    &mut self.external_to_rox,
                    mapping.external_topic.clone(),
                    mapping.rox_topic.clone(),
                );
            },
            _ => {},
        }
        self.mappings.push(mapping);
    }

    /// The external topic for a key-expression topic.
    pub fn rox_to_external(&self, rox_topic: &str) -> (r: Option<&str>)
        ensures
            self.export_map().contains_key(rox_topic@) ==> (r matches Some(v) && v@
                == self.export_map()[rox_topic@]),
            !self.export_map().contains_key(rox_topic@) ==> r is None,
    {
        table_get(&self.rox_to_external, rox_topic)
    }

    /// The key-expression topic for an external topic.
    pub fn external_to_rox(&self, external_topic: &str) -> (r: Option<&str>)
        ensures
            self.import_map().contains_key(external_topic@) ==> (r matches Some(v) && v@
                == self.import_map()[external_topic@]),
            !self.import_map().contains_key(external_topic@) ==> r is None,
    {
        table_get(&self.external_to_rox, external_topic)
    }

    /// Bridges a message outwards: the external topic of its key and its payload, or
    /// `None` when its key has no exporting mapping. Counts the message when bridged.
    pub fn export_message(&mut self, msg: &RoxMessage) -> (r: Option<(String, Bytes)>)
        requires
            old(self).spec_messages_bridged() < u64::MAX,
        ensures
            old(self).export_map().contains_key(msg.header.key.0@) ==> (r matches Some(p) && p.0@
                == old(self).export_map()[msg.header.key.0@] && bytes_view(p.1) == bytes_view(msg.payload)
                && final(self).spec_messages_bridged() == old(self).spec_messages_bridged() + 1),
            !old(self).export_map().contains_key(msg.header.key.0@) ==> r is None
                && final(self).spec_messages_bridged() == old(self).spec_messages_bridged(),
            final(self).export_map() == old(self).export_map(),
            final(self).import_map() == old(self).import_map(),
            final(self).spec_name() == old(self).spec_name(),
            final(self).spec_mapping_count() == old(self).spec_mapping_count(),
    {
        let external = match table_get(&self.rox_to_external, msg.header.key.as_str()) {
            Some(t) => t.to_owned(),
            None => {
                return None;
            },
        };
        self.messages_bridged = self.messages_bridged + 1;
        Some((external, bytes_clone(&msg.payload)))
    }

    /// Bridges an external message inwards: a message on the mapped key-expression
    /// topic from source `bridge:{name}`, or `None` when the external topic has no
    /// importing mapping. Counts the message when bridged.
    pub fn import_message(&mut self, external_topic: &str, payload: Bytes, sequence: u64) -> (r:
        Option<RoxMessage>)
        requires
            old(self).spec_messages_bridged() < u64::MAX,
        ensures
            old(self).import_map().contains_key(external_topic@) ==> (r matches Some(m)
                && m.header.key.0@ == old(self).import_map()[external_topic@]
                && m.header.source_id.0@ == seq!['b', 'r', 'i', 'd', 'g', 'e', ':'] + old(
                self,
            ).spec_name() && m.header.sequence == sequence && m.header.timestamp.logical_time
                == sequence && m.header.qos == default_qos() && bytes_view(m.payload) == bytes_view(payload)
                && final(self).spec_messages_bridged() == old(self).spec_messages_bridged() + 1),
            !old(self).import_map().contains_key(external_topic@) ==> r is None
                && final(self).spec_messages_bridged() == old(self).spec_messages_bridged(),
            final(self).export_map() == old(self).export_map(),
            final(self).import_map() == old(self).import_map(),
            final(self).spec_name() == old(self).spec_name(),
            final(self).spec_mapping_count() == old(self).spec_mapping_count(),
    {
        let rox_topic = match table_get(&self.external_to_rox, external_topic) {
            Some(t) => t.to_owned(),
            None => {
                return None;
            },
        };
        self.messages_bridged = self.messages_bridged + 1;
        let mut source = String::from_str("bridge:");
        source.append(self.name.as_str());
        proof {
            reveal_strlit("bridge:");
        }
        Some(RoxMessage::new(KeyExpr(rox_topic), NodeId(source), sequence, payload))
    }

    /// The bridge's name.
    pub fn name(&self) -> (s: &str)
        ensures
            s@ == self.spec_name(),
    {
        self.name.as_str()
    }

    /// Number of messages bridged so far.
    pub fn messages_bridged(&self) -> (n: u64)
        ensures
            n == self.spec_messages_bridged(),
    {
        self.messages_bridged
    }

    /// Number of mappings added.
    pub fn mapping_count(&self) -> (n: usize)
        ensures
            n == self.spec_mapping_count(),
    {
        self.mappings.len()
    }
}

/// A bidirectional mapping round-trips: once added, its topic is exported under
/// the external name, and that external name is imported back as the topic.
pub proof fn law_bidirectional_mapping_round_trips(
    export_map: Map<Seq<char>, Seq<char>>,
    import_map: Map<Seq<char>, Seq<char>>,
    rox_topic: Seq<char>,
    external_topic: Seq<char>,
)
    ensures
        ({
            let ex = if exports(BridgeDirection::Bidirectional) {
                export_map.insert(rox_topic, external_topic)
            } else {
                export_map
            };
            let im = if imports(BridgeDirection::Bidirectional) {
                import_map.insert(external_topic, rox_topic)
            } else {
                import_map
            };
            &&& ex.contains_key(rox_topic)
            &&& im.contains_key(ex[rox_topic])
            &&& im[ex[rox_topic]] == rox_topic
        }),
{
}

/// The number of `true` entries.
pub open spec fn count_true(flags: Seq<bool>) -> nat
    decreases flags.len(),
{
    if flags.len() == 0 {
        0
    } else {
        count_true(flags.drop_last()) + if flags.last() {
            1nat
        } else {
            0nat
        }
    }
}

/// A counter that starts at 0 and grows by one exactly at the flagged steps ends at
/// the number of flagged steps.
proof fn lemma_counter(counts: Seq<int>, flags: Seq<bool>)
    requires
        counts.len() == flags.len() + 1,
        counts[0] == 0,
        forall|i: int|
            0 <= i < flags.len() ==> #[trigger] counts[i + 1] == counts[i] + if flags[i] {
                1int
            } else {
                0int
            },
    ensures
        counts.last() == count_true(flags),
    decreases flags.len(),
{
    if flags.len() > 0 {
        let n = flags.len() - 1;
        let cs = counts.drop_last();
        let fs = flags.drop_last();
        assert forall|i: int| 0 <= i < fs.len() implies #[trigger] cs[i + 1] == cs[i] + if fs[i] {
            1int
        } else {
            0int
        } by {
            assert(counts[i + 1] == counts[i] + if flags[i] {
                1int
            } else {
                0int
            });
        }
        lemma_counter(cs, fs);
        assert(counts[n + 1] == counts[n] + if flags[n] {
            1int
        } else {
            0int
        });
    }
}

/// The bridge counts exactly the messages it bridged: over any run of calls on a
/// bridge fresh from [`TopicBridge::new`], where an export or import that returns
/// `Some` adds one to the count and every other call (`add_mapping`, or an export or
/// import that returns `None`) keeps it, the count is the number of calls that
/// bridged a message.
pub proof fn law_bridged_count(bridges: Seq<TopicBridge>, bridged: Seq<bool>)
    requires
        bridges.len() == bridged.len() + 1,
        bridges[0].spec_messages_bridged() == 0,
        forall|i: int|
            0 <= i < bridged.len() ==> #[trigger] bridges[i + 1].spec_messages_bridged()
                == bridges[i].spec_messages_bridged() + if bridged[i] {
                1int
            } else {
                0int
            },
    ensures
        bridges.last().spec_messages_bridged() == count_true(bridged),
{
    let counts = bridges.map_values(|b: TopicBridge| b.spec_messages_bridged() as int);
    assert forall|i: int| 0 <= i < bridged.len() implies #[trigger] counts[i + 1] == counts[i]
        + if bridged[i] {
        1int
    } else {
        0int
    } by {
        assert(bridges[i + 1].spec_messages_bridged() == bridges[i].spec_messages_bridged() + if bridged[i] {
            1int
        } else {
            0int
        });
    }
    lemma_counter(counts, bridged);
}

/// The bridge counts exactly its `add_mapping` calls: over any run of calls on a
/// bridge fresh from [`TopicBridge::new`], where `add_mapping` adds one to the
/// mapping count and exports and imports keep it, the count is the number of
/// `add_mapping` calls, repeated names included.
pub proof fn law_mapping_count(bridges: Seq<TopicBridge>, added: Seq<bool>)
    requires
        bridges.len() == added.len() + 1,
        bridges[0].spec_mapping_count() == 0,
        forall|i: int|
            0 <= i < added.len() ==> #[trigger] bridges[i + 1].spec_mapping_count()
                == bridges[i].spec_mapping_count() + if added[i] {
                1int
            } else {
                0int
            },
    ensures
        bridges.last().spec_mapping_count() == count_true(added),
{
    let counts = bridges.map_values(|b: TopicBridge| b.spec_mapping_count() as int);
    assert forall|i: int| 0 <= i < added.len() implies #[trigger] counts[i + 1] == counts[i]
        + if added[i] {
        1int
    } else {
        0int
    } by {
        assert(bridges[i + 1].spec_mapping_count() == bridges[i].spec_mapping_count() + if added[i] {
            1int
        } else {
            0int
        });
    }
    lemma_counter(counts, added);
}

} // verus!
