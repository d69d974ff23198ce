//! Topic manager: the publish/subscribe topics of a node, with their QoS and the
//! number of publishers and subscribers of each, and the broadcast channels that
//! carry their messages.
//!
//! Sharing the manager between tasks (behind a lock) is up to the caller.

use vstd::prelude::*;
use std::sync::Arc;
use tokio::sync::broadcast::{Receiver, Sender};
use crate::keyexpr::KeyExpr;
use crate::message::RoxMessage;
use crate::table::{find_key, key_index, key_view, keys, keys_distinct, lemma_key_index, lemma_key_index_keys, lemma_key_index_of_entry, lookup};
use crate::types::{default_qos, QoSMetadata};

verus! {

#[verifier::external_type_specification]
#[verifier::external_body]
#[verifier::reject_recursive_types(T)]
pub struct ExSender<T>(Sender<T>);

#[verifier::external_type_specification]
#[verifier::external_body]
#[verifier::reject_recursive_types(T)]
pub struct ExReceiver<T>(Receiver<T>);

/// Sending half of a topic's channel.
pub type MessageSender = Sender<Arc<RoxMessage>>;

/// Receiving half of a topic's channel.
pub type MessageReceiver = Receiver<Arc<RoxMessage>>;

/// Calls `tokio::sync::broadcast::channel`, which panics on a capacity of zero or
/// above `usize::MAX / 2`; nothing is promised of the channel.
#[verifier::external_body]
fn channel_of(capacity: usize) -> (r: (MessageSender, MessageReceiver))
    requires
        0 < capacity <= usize::MAX / 2,
{
    tokio::sync::broadcast::channel(capacity)
}

/// A new message bus: a broadcast channel holding up to 1024 messages.
pub fn new_message_bus() -> (r: (MessageSender, MessageReceiver)) {
    channel_of(1024)
}

/// Calls `tokio::sync::broadcast::Sender::new`: a channel with no receivers yet,
/// which panics on the same capacities as `channel`; nothing is promised of it.
#[verifier::external_body]
fn new_sender(capacity: usize) -> (s: MessageSender)
    requires
        0 < capacity <= usize::MAX / 2,
{
    Sender::new(capacity)
}

/// Calls `Sender::clone`: another handle on the same channel (tokio's clone shares
/// the channel's state), so as a value it is the sender it was cloned from.
#[verifier::external_body]
fn clone_sender(s: &MessageSender) -> (r: MessageSender)
    ensures
        r == *s,
{
    s.clone()
}

/// Calls `Sender::subscribe`: a new receiver on the channel.
#[verifier::external_body]
fn subscribe_to(s: &MessageSender) -> (r: MessageReceiver) {
    s.subscribe()
}

/// Calls `Sender::send` and gives the number of receivers the message reached (0
/// when there are none, which `send` reports as an error). The number depends on
/// the receivers alive at the time, so nothing is promised of it.
#[verifier::external_body]
fn send_to(s: &MessageSender, msg: Arc<RoxMessage>) -> (n: usize) {
    match s.send(msg) {
        Ok(count) => count,
        Err(_) => 0,
    }
}

/// A topic as plain values: its QoS and how many publishers and subscribers it has.
pub struct TopicView {
    pub qos: QoSMetadata,
    pub publishers: usize,
    pub subscribers: usize,
}

/// The topics after a publisher registers on `key`: one more publisher, or a new
/// topic with the publisher's QoS.
pub open spec fn after_publish(t: Seq<(Seq<char>, TopicView)>, key: Seq<char>, qos: QoSMetadata) -> Seq<
    (Seq<char>, TopicView),
> {
    match key_index(t, key) {
        Some(i) => t.update(
            i,
            (key, TopicView { publishers: (t[i].1.publishers + 1) as usize, ..t[i].1 }),
        ),
        None => t.push((key, TopicView { qos, publishers: 1, subscribers: 0 })),
    }
}

/// The topics after a subscriber registers on `key`: one more subscriber, or a new
/// topic with default QoS.
pub open spec fn after_subscribe(t: Seq<(Seq<char>, TopicView)>, key: Seq<char>) -> Seq<
    (Seq<char>, TopicView),
> {
    match key_index(t, key) {
        Some(i) => t.update(
            i,
            (key, TopicView { subscribers: (t[i].1.subscribers + 1) as usize, ..t[i].1 }),
        ),
        None => t.push((key, TopicView { qos: default_qos(), publishers: 0, subscribers: 1 })),
    }
}

/// The topics after a publisher leaves `key`: one publisher fewer (never below
/// zero), and the topic gone once it has neither publishers nor subscribers.
pub open spec fn after_unpublish(t: Seq<(Seq<char>, TopicView)>, key: Seq<char>) -> Seq<
    (Seq<char>, TopicView),
> {
    match key_index(t, key) {
        Some(i) => {
            let p = if t[i].1.publishers > 0 {
                (t[i].1.publishers - 1) as usize
            } else {
                0usize
            };
            if p == 0 && t[i].1.subscribers == 0 {
                t.remove(i)
            } else {
                t.update(i, (key, TopicView { publishers: p, ..t[i].1 }))
            }
        },
        None => t,
    }
}

/// The topics after a message arrives from elsewhere on `key`: a new topic, with the
/// message's QoS and no publishers or subscribers, if there was none.
pub open spec fn after_inject(t: Seq<(Seq<char>, TopicView)>, key: Seq<char>, qos: QoSMetadata) -> Seq<
    (Seq<char>, TopicView),
> {
    match key_index(t, key) {
        Some(_) => t,
        None => t.push((key, TopicView { qos, publishers: 0, subscribers: 0 })),
    }
}

/// State of one topic.
pub struct Topic {
    sender: MessageSender,
    qos: QoSMetadata,
    publisher_count: usize,
    subscriber_count: usize,
}

/// The plain values of a topic.
pub closed spec fn topic_view(t: Topic) -> TopicView {
    TopicView { qos: t.qos, publishers: t.publisher_count, subscribers: t.subscriber_count }
}

/// Manager of the topics of a node.
pub struct TopicManager {
    topics: Vec<(String, Topic)>,
    channel_capacity: usize,
}

impl TopicManager {
    /// The topics, by key, in the order they were created.
    pub closed spec fn table(&self) -> Seq<(Seq<char>, TopicView)> {
        key_view(self.topics@).map_values(|e: (Seq<char>, Topic)| (e.0, topic_view(e.1)))
    }

    /// The topics' senders, in table order: the handle on each topic's channel.
    pub closed spec fn senders(&self) -> Seq<MessageSender> {
        self.topics@.map_values(|e: (String, Topic)| e.1.sender)
    }

    /// The capacity of each topic's channel.
    pub closed spec fn spec_capacity(&self) -> usize {
        self.channel_capacity
    }

    /// Well-formedness: no key twice, and a capacity channels can be made with.
    pub closed spec fn wf(&self) -> bool {
        &&& keys_distinct(key_view(self.topics@))
        &&& 0 < self.channel_capacity <= usize::MAX / 2
    }

    proof fn lemma_table(&self)
        ensures
            self.table().len() == self.topics@.len(),
            forall|i: int|
                0 <= i < self.topics@.len() ==> #[trigger] self.table()[i] == (
                    self.topics@[i].0@,
                    topic_view(self.topics@[i].1),
                ),
            keys_distinct(key_view(self.topics@)) ==> keys_distinct(self.table()),
    {
    }

    /// A manager with no topics and channels of 1024 messages.
    pub fn new() -> (m: TopicManager)
        ensures
            m.wf(),
            m.table().len() == 0,
            m.spec_capacity() == 1024,
    {
        TopicManager::with_capacity(1024)
    }

    /// A manager with no topics and channels of the given capacity.
    pub fn with_capacity(channel_capacity: usize) -> (m: TopicManager)
        requires
            0 < channel_capacity <= usize::MAX / 2,
        ensures
            m.wf(),
            m.table().len() == 0,
            m.spec_capacity() == channel_capacity,
    {
        let m = TopicManager { topics: Vec::new(), channel_capacity };
        assert(m.table() =~= Seq::<(Seq<char>, TopicView)>::empty());
        m
    }

    /// Position of a key, agreeing with the table.
    fn find(&self, key: &KeyExpr) -> (r: Option<usize>)
        ensures
            r matches Some(i) ==> key_index(self.table(), key.0@) == Some(i as int) && i
                < self.topics@.len(),
            r is None ==> key_index(self.table(), key.0@) is None,
    {
        proof {
            self.lemma_table();
            lemma_key_index_keys(key_view(self.topics@), self.table(), key.0@);
        }
        find_key(&self.topics, key.0.as_str())
    }

    /// Replaces the counts of the topic at `i`.
    fn set_counts(&mut self, i: usize, publishers: usize, subscribers: usize)
        requires
            old(self).wf(),
            i < old(self).table().len(),
        ensures
            final(self).wf(),
            final(self).spec_capacity() == old(self).spec_capacity(),
            final(self).table() == old(self).table().update(
                i as int,
                (
                    old(self).table()[i as int].0,
                    TopicView { publishers, subscribers, ..old(self).table()[i as int].1 },
                ),
            ),
            final(self).senders() == old(self).senders(),
    {
        proof {
            self.lemma_table();
        }
        let ghost s0 = self.senders();
        let ghost t0 = self.table();
        let ghost kv0 = key_view(self.topics@);
        let (name, topic) = self.topics.remove(i);
        let updated = Topic {
            sender: topic.sender,
            qos: topic.qos,
            publisher_count: publishers,
            subscriber_count: subscribers,
        };
        self.topics.insert(i, (name, updated));
        assert(self.senders() =~= s0);
        proof {
            self.lemma_table();
            assert(self.table() =~= t0.update(
                i as int,
                (t0[i as int].0, TopicView { publishers, subscribers, ..t0[i as int].1 }),
            ));
            assert forall|a: int, b: int|
                0 <= a < b < self.topics@.len() implies key_view(self.topics@)[a].0 != key_view(
                self.topics@,
            )[b].0 by {
                assert(key_view(self.topics@)[a].0 == kv0[a].0);
                assert(key_view(self.topics@)[b].0 == kv0[b].0);
            }
        }
    }

    /// Adds a topic whose key is not in the table.
    fn add(&mut self, key: &KeyExpr, topic: Topic)
        requires
            old(self).wf(),
            key_index(old(self).table(), key.0@) is None,
        ensures
            final(self).wf(),
            final(self).spec_capacity() == old(self).spec_capacity(),
            final(self).table() == old(self).table().push((key.0@, topic_view(topic))),
            final(self).senders() == old(self).senders().push(topic.sender),
    {
        proof {
            self.lemma_table();
            lemma_key_index(self.table(), key.0@);
        }
        let ghost s0 = self.senders();
        let ghost snd = topic.sender;
        let ghost t0 = self.table();
        let ghost kv0 = key_view(self.topics@);
        let ghost tv = topic_view(topic);
        self.topics.push((key.0.clone(), topic));
        assert(self.senders() =~= s0.push(snd));
        proof {
            self.lemma_table();
            assert(self.table() =~= t0.push((key.0@, tv)));
            assert forall|a: int, b: int|
                0 <= a < b < self.topics@.len() implies key_view(self.topics@)[a].0 != key_view(
                self.topics@,
            )[b].0 by {
                assert(key_view(self.topics@)[a].0 == self.table()[a].0);
                assert(key_view(self.topics@)[b].0 == self.table()[b].0);
                if b < kv0.len() {
                    assert(kv0[a].0 == t0[a].0);
                    assert(kv0[b].0 == t0[b].0);
                } else {
                    assert(t0[a].0 != key.0@);
                }
            }
        }
    }
}

impl TopicManager {
    /// Registers a publisher on a topic and hands out a sender on its channel. An
    /// existing topic gets one more publisher; a new one is created with `qos`.
    pub fn publish(&mut self, key: &KeyExpr, qos: QoSMetadata) -> (tx: MessageSender)
        requires
            old(self).wf(),
            lookup(old(self).table(), key.0@) matches Some(v) ==> v.publishers < usize::MAX,
        ensures
            final(self).wf(),
            final(self).spec_capacity() == old(self).spec_capacity(),
            final(self).table() == after_publish(old(self).table(), key.0@, qos),
            final(self).senders().len() == final(self).table().len(),
            key_index(final(self).table(), key.0@) matches Some(i) && tx == final(self).senders()[i],
            key_index(old(self).table(), key.0@) is Some ==> final(self).senders() == old(
                self,
            ).senders(),
            key_index(old(self).table(), key.0@) is None ==> final(self).senders() == old(
                self,
            ).senders().push(tx),
    {
        proof {
            self.lemma_table();
            lemma_key_index(self.table(), key.0@);
        }
        match self.find(key) {
            Some(i) => {
                let p = self.topics[i].1.publisher_count;
                let s = self.topics[i].1.subscriber_count;
                let tx = clone_sender(&self.topics[i].1.sender);
                assert(tx == self.senders()[i as int]);
                self.set_counts(i, p + 1, s);
                proof {
                    self.lemma_table();
                    lemma_key_index_of_entry(self.table(), i as int);
                }
                tx
            },
            None => {
                let sender = new_sender(self.channel_capacity);
                let tx = clone_sender(&sender);
                let ghost n = self.topics@.len();
                self.add(key, Topic { sender, qos, publisher_count: 1, subscriber_count: 0 });
                proof {
                    self.lemma_table();
                    lemma_key_index_of_entry(self.table(), n as int);
                }
                tx
            },
        }
    }

    /// Registers a subscriber on a topic and hands out a receiver on its channel. An
    /// existing topic gets one more subscriber; a new one is created with default
    /// QoS.
    pub fn subscribe(&mut self, key: &KeyExpr) -> (rx: MessageReceiver)
        requires
            old(self).wf(),
            lookup(old(self).table(), key.0@) matches Some(v) ==> v.subscribers < usize::MAX,
        ensures
            final(self).wf(),
            final(self).spec_capacity() == old(self).spec_capacity(),
            final(self).table() == after_subscribe(old(self).table(), key.0@),
            key_index(old(self).table(), key.0@) is Some ==> final(self).senders() == old(
                self,
            ).senders(),
    {
        proof {
            self.lemma_table();
            lemma_key_index(self.table(), key.0@);
        }
        match self.find(key) {
            Some(i) => {
                let p = self.topics[i].1.publisher_count;
                let s = self.topics[i].1.subscriber_count;
                let rx = subscribe_to(&self.topics[i].1.sender);
                self.set_counts(i, p, s + 1);
                rx
            },
            None => {
                let sender = new_sender(self.channel_capacity);
                let rx = subscribe_to(&sender);
                self.add(
                    key,
                    Topic {
                        sender,
                        qos: QoSMetadata::default(),
                        publisher_count: 0,
                        subscriber_count: 1,
                    },
                );
                rx
            },
        }
    }

    /// Unregisters a publisher: the topic has one publisher fewer (never below
    /// zero) and is removed once it has neither publishers nor subscribers. An
    /// unknown topic is left alone.
    pub fn unpublish(&mut self, key: &KeyExpr)
        requires
            old(self).wf(),
        ensures
            final(self).wf(),
            final(self).spec_capacity() == old(self).spec_capacity(),
            final(self).table() == after_unpublish(old(self).table(), key.0@),
    {
        proof {
            self.lemma_table();
            lemma_key_index(self.table(), key.0@);
        }
        match self.find(key) {
            Some(i) => {
                let p = self.topics[i].1.publisher_count;
                let s = self.topics[i].1.subscriber_count;
                let np = p.saturating_sub(1);
                if np == 0 && s == 0 {
                    let ghost t0 = self.table();
                    let ghost kv0 = key_view(self.topics@);
                    let _gone = self.topics.remove(i);
                    proof {
                        self.lemma_table();
                        assert(self.table() =~= t0.remove(i as int));
                        assert forall|a: int, b: int|
                            0 <= a < b < self.topics@.len() implies key_view(self.topics@)[a].0
                            != key_view(self.topics@)[b].0 by {
                            let a0 = if a < i { a } else { a + 1 };
                            let b0 = if b < i { b } else { b + 1 };
                            assert(key_view(self.topics@)[a].0 == kv0[a0].0);
                            assert(key_view(self.topics@)[b].0 == kv0[b0].0);
                        }
                    }
                } else {
                    self.set_counts(i, np, s);
                }
            },
            None => {},
        }
    }

    /// Delivers a message that arrived from elsewhere to the local subscribers of
    /// its topic, creating the topic (with the message's QoS) if there is none.
    /// Returns how many receivers got it, which depends on the receivers alive.
    pub fn inject(&mut self, msg: Arc<RoxMessage>) -> (n: usize)
        requires
            old(self).wf(),
        ensures
            final(self).wf(),
            final(self).spec_capacity() == old(self).spec_capacity(),
            final(self).table() == after_inject(old(self).table(), msg.header.key.0@, msg.header.qos),
            key_index(old(self).table(), msg.header.key.0@) is Some ==> final(self).senders() == old(
                self,
            ).senders(),
    {
        let key = msg.header.key.clone();
        proof {
            self.lemma_table();
            lemma_key_index(self.table(), key.0@);
        }
        match self.find(&key) {
            Some(i) => send_to(&self.topics[i].1.sender, msg),
            None => {
                let sender = new_sender(self.channel_capacity);
                let qos = msg.header.qos;
                let n = send_to(&sender, msg);
                self.add(&key, Topic { sender, qos, publisher_count: 0, subscriber_count: 0 });
                n
            },
        }
    }

    /// The number of topics.
    pub fn topic_count(&self) -> (n: usize)
        ensures
            n == self.table().len(),
    {
        proof {
            self.lemma_table();
        }
        self.topics.len()
    }

    /// The QoS of a topic, if it exists.
    pub fn get_qos(&self, key: &KeyExpr) -> (q: Option<QoSMetadata>)
        ensures
            match lookup(self.table(), key.0@) {
                Some(v) => q == Some(v.qos),
                None => q is None,
            },
    {
        proof {
            self.lemma_table();
        }
        match self.find(key) {
            Some(i) => Some(self.topics[i].1.qos),
            None => None,
        }
    }

    /// The number of subscribers of a topic (0 if it does not exist).
    pub fn subscriber_count(&self, key: &KeyExpr) -> (n: usize)
        ensures
            match lookup(self.table(), key.0@) {
                Some(v) => n == v.subscribers,
                None => n == 0,
            },
    {
        proof {
            self.lemma_table();
        }
        match self.find(key) {
            Some(i) => self.topics[i].1.subscriber_count,
            None => 0,
        }
    }

    /// Whether a topic exists.
    pub fn has_topic(&self, key: &KeyExpr) -> (b: bool)
        ensures
            b == (key_index(self.table(), key.0@) is Some),
    {
        self.find(key).is_some()
    }

    /// The keys of all topics, in creation order.
    pub fn list_topics(&self) -> (r: Vec<KeyExpr>)
        ensures
            r@.map_values(|k: KeyExpr| k.0@) == keys(self.table()),
    {
        proof {
            self.lemma_table();
        }
        let mut r: Vec<KeyExpr> = Vec::new();
        let mut i: usize = 0;
        while i < self.topics.len()
            invariant
                i <= self.topics@.len(),
                self.table().len() == self.topics@.len(),
                forall|j: int|
                    0 <= j < self.topics@.len() ==> #[trigger] self.table()[j] == (
                        self.topics@[j].0@,
                        topic_view(self.topics@[j].1),
                    ),
                r@.map_values(|k: KeyExpr| k.0@) == keys(self.table()).take(i as int),
            decreases self.topics@.len() - i,
        {
            let ghost r0 = r@.map_values(|k: KeyExpr| k.0@);
            r.push(KeyExpr(self.topics[i].0.clone()));
            assert(self.table()[i as int].0 == self.topics@[i as int].0@);
            assert(r@.map_values(|k: KeyExpr| k.0@) =~= r0.push(keys(self.table())[i as int]));
            assert(keys(self.table()).take(i + 1) =~= keys(self.table()).take(i as int).push(
                keys(self.table())[i as int],
            ));
            i += 1;
        }
        assert(keys(self.table()).take(self.topics@.len() as int) =~= keys(self.table()));
        r
    }
}

/// A topic is removed only when its last publisher leaves and it has no
/// subscribers; every other topic is kept, with its counts.
pub proof fn law_topic_removed_only_when_idle(
    t: Seq<(Seq<char>, TopicView)>,
    key: Seq<char>,
    other: Seq<char>,
)
    requires
        keys_distinct(t),
        other != key,
    ensures
        lookup(after_unpublish(t, key), other) == lookup(t, other),
        lookup(t, key) matches Some(v) ==> (lookup(after_unpublish(t, key), key) is None <==> (
        v.publishers <= 1 && v.subscribers == 0)),
{
    lemma_key_index(t, key);
    lemma_key_index(t, other);
    let u = after_unpublish(t, key);
    lemma_key_index(u, other);
    lemma_key_index(u, key);
    match key_index(t, key) {
        Some(i) => {
            match key_index(t, other) {
                Some(j) => {
                    if u.len() < t.len() {
                        let j2 = if j < i { j } else { j - 1 };
                        assert(u[j2] == t[j]);
                        assert forall|m: int| j2 < m < u.len() implies u[m].0 != other by {
                            let m0 = if m < i { m } else { m + 1 };
                            assert(u[m] == t[m0]);
                        }
                    } else {
                        assert(u[j] == t[j]);
                        assert forall|m: int| j < m < u.len() implies u[m].0 != other by {
                            if m != i {
                                assert(u[m] == t[m]);
                            }
                        }
                    }
                },
                None => {
                    assert forall|m: int| 0 <= m < u.len() implies u[m].0 != other by {
                        if u.len() < t.len() {
                            let m0 = if m < i { m } else { m + 1 };
                            assert(u[m] == t[m0]);
                        } else if m != i {
                            assert(u[m] == t[m]);
                        }
                    }
                },
            }
            if u.len() < t.len() {
                assert forall|m: int| 0 <= m < u.len() implies u[m].0 != key by {
                    let m0 = if m < i { m } else { m + 1 };
                    assert(u[m] == t[m0]);
                }
            } else {
                assert(u[i].0 == key);
            }
        },
        None => {},
    }
}

} // verus!
