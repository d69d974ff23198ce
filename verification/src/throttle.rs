//! Throttle agent: per-topic bandwidth limits and the message interval that keeps
//! a topic within its limit.
//!
//! The interval a topic needs is computed in floating point from the ratio of its
//! bandwidth to its limit; that computation lives with the caller, which hands the
//! result to [`ThrottleAgent::apply_interval`].

use vstd::prelude::*;

verus! {

/// Throttle state of one topic.
#[derive(Clone, Copy, Debug, PartialEq, Eq, Structural)]
pub struct TopicThrottleState {
    /// Current interval between messages, in milliseconds (0 = not throttled).
    pub current_interval_ms: u64,
    /// Bandwidth limit, in bits per second (`u64::MAX` = no limit).
    pub target_bandwidth_bps: u64,
    /// Most recently observed bandwidth, in bits per second.
    pub recent_bandwidth_bps: u64,
    /// Number of observations.
    pub message_count: u64,
}

/// A topic whose observed bandwidth exceeds its limit.
#[derive(Debug)]
pub struct PendingThrottle {
    pub topic: String,
    pub current_interval_ms: u64,
    pub recent_bandwidth_bps: u64,
    pub target_bandwidth_bps: u64,
}

/// Agent that lowers message frequency to keep topics within their bandwidth.
pub struct ThrottleAgent {
    topic_states: Vec<(String, TopicThrottleState)>,
    default_max_bandwidth_bps: u64,
    min_interval_ms: u64,
}

/// Topics and their states, in the order topics were first seen.
pub type ThrottleTable = Seq<(Seq<char>, TopicThrottleState)>;

/// Position of `topic` in the table.
pub open spec fn topic_index(t: ThrottleTable, topic: Seq<char>) -> Option<int>
    decreases t.len(),
{
    if t.len() == 0 {
        None
    } else if t.last().0 == topic {
        Some(t.len() - 1)
    } else {
        topic_index(t.drop_last(), topic)
    }
}

/// The state of `topic`, if it is in the table.
pub open spec fn topic_state(t: ThrottleTable, topic: Seq<char>) -> Option<TopicThrottleState> {
    match topic_index(t, topic) {
        Some(i) => Some(t[i].1),
        None => None,
    }
}

/// No topic appears twice.
pub open spec fn topics_distinct(t: ThrottleTable) -> bool {
    forall|i: int, j: int| 0 <= i < j < t.len() ==> t[i].0 != t[j].0
}

/// The table after setting the limit of `topic` (adding it first if new).
pub open spec fn with_limit(t: ThrottleTable, topic: Seq<char>, max: u64) -> ThrottleTable {
    match topic_index(t, topic) {
        Some(i) => t.update(i, (topic, TopicThrottleState { target_bandwidth_bps: max, ..t[i].1 })),
        None => t.push((topic, fresh_state(max))),
    }
}

/// The table after observing `bps` on `topic` (adding it first, with limit
/// `default_limit`, if new).
pub open spec fn with_observation(
    t: ThrottleTable,
    topic: Seq<char>,
    bps: u64,
    default_limit: u64,
) -> ThrottleTable {
    match topic_index(t, topic) {
        Some(i) => t.update(
            i,
            (
                topic,
                TopicThrottleState {
                    recent_bandwidth_bps: bps,
                    message_count: (t[i].1.message_count + 1) as u64,
                    ..t[i].1
                },
            ),
        ),
        None => t.push(
            (
                topic,
                TopicThrottleState {
                    current_interval_ms: 0,
                    target_bandwidth_bps: default_limit,
                    recent_bandwidth_bps: bps,
                    message_count: 1,
                },
            ),
        ),
    }
}

/// The table after setting the interval of a known `topic`.
pub open spec fn with_interval(t: ThrottleTable, topic: Seq<char>, ms: u64) -> ThrottleTable {
    match topic_index(t, topic) {
        Some(i) => t.update(i, (topic, TopicThrottleState { current_interval_ms: ms, ..t[i].1 })),
        None => t,
    }
}

/// A state with no interval, no observation and the given limit.
pub open spec fn fresh_state(limit: u64) -> TopicThrottleState {
    TopicThrottleState {
        current_interval_ms: 0,
        target_bandwidth_bps: limit,
        recent_bandwidth_bps: 0,
        message_count: 0,
    }
}

/// Whether a state has a limit and is over it.
pub open spec fn over_limit(s: TopicThrottleState) -> bool {
    s.target_bandwidth_bps != u64::MAX && s.recent_bandwidth_bps > s.target_bandwidth_bps
}

/// The topics over their limit, in table order.
pub open spec fn pending_of(t: ThrottleTable) -> ThrottleTable
    decreases t.len(),
{
    if t.len() == 0 {
        Seq::empty()
    } else if over_limit(t.last().1) {
        pending_of(t.drop_last()).push(t.last())
    } else {
        pending_of(t.drop_last())
    }
}

proof fn lemma_topic_index(t: ThrottleTable, topic: Seq<char>)
    ensures
        match topic_index(t, topic) {
            Some(i) => 0 <= i < t.len() && t[i].0 == topic && forall|j: int|
                i < j < t.len() ==> t[j].0 != topic,
            None => forall|j: int| 0 <= j < t.len() ==> t[j].0 != topic,
        },
    decreases t.len(),
{
    if t.len() > 0 {
        if t.last().0 != topic {
            lemma_topic_index(t.drop_last(), topic);
            assert forall|j: int| 0 <= j < t.len() - 1 implies t[j] == t.drop_last()[j] by {}
        }
    }
}

impl ThrottleAgent {
    /// The table of topics and states.
    pub closed spec fn table(&self) -> ThrottleTable {
        self.topic_states@.map_values(|e: (String, TopicThrottleState)| (e.0@, e.1))
    }

    /// The limit a topic gets when first observed (`u64::MAX`: none).
    pub closed spec fn spec_default_limit(&self) -> u64 {
        self.default_max_bandwidth_bps
    }

    /// The shortest interval the agent imposes.
    pub closed spec fn spec_min_interval(&self) -> u64 {
        self.min_interval_ms
    }

    /// Well-formedness: no topic appears twice.
    pub closed spec fn wf(&self) -> bool {
        topics_distinct(self.table())
    }

    /// An agent with no topics, no default limit and a 10 ms minimum interval.
    pub fn new() -> (a: ThrottleAgent)
        ensures
            a.wf(),
            a.table() == Seq::<(Seq<char>, TopicThrottleState)>::empty(),
            a.spec_default_limit() == u64::MAX,
            a.spec_min_interval() == 10,
    {
        let a = ThrottleAgent {
            topic_states: Vec::new(),
            default_max_bandwidth_bps: u64::MAX,
            min_interval_ms: 10,
        };
        assert(a.table() =~= Seq::<(Seq<char>, TopicThrottleState)>::empty());
        a
    }

    /// Position of a topic in the table.
    fn find(&self, topic: &String) -> (r: Option<usize>)
        ensures
            match topic_index(self.table(), topic@) {
                Some(i) => r == Some(i as usize),
                None => r is None,
            },
            r matches Some(i) ==> i < self.topic_states@.len() && self.table()[i as int].1
                == self.topic_states@[i as int].1 && self.table()[i as int].0 == topic@
                && topic_state(self.table(), topic@) == Some(self.topic_states@[i as int].1),
            r is None ==> topic_state(self.table(), topic@) is None,
            r matches Some(i) ==> topic_index(self.table(), topic@) == Some(i as int),
    {
        let ghost t = self.table();
        proof {
            lemma_topic_index(t, topic@);
        }
        let mut k = self.topic_states.len();
        assert(t.take(k as int) =~= t);
        while k > 0
            invariant
                k <= self.topic_states.len(),
                t == self.table(),
                topic_index(t, topic@) == topic_index(t.take(k as int), topic@),
            decreases k,
        {
            assert(t.take(k as int).drop_last() =~= t.take(k - 1));
            assert(t.take(k as int).last() == t[k - 1]);
            if self.topic_states[k - 1].0 == *topic {
                return Some(k - 1);
            }
            k -= 1;
        }
        None
    }

    /// Changes a topic's state in place.
    fn set_state(&mut self, i: usize, st: TopicThrottleState)
        requires
            i < old(self).table().len(),
            old(self).wf(),
        ensures
            final(self).table() == old(self).table().update(i as int, (old(self).table()[i as int].0, st)),
            final(self).wf(),
            final(self).spec_default_limit() == old(self).spec_default_limit(),
            final(self).spec_min_interval() == old(self).spec_min_interval(),
    {
        let name = self.topic_states[i].0.clone();
        self.topic_states.set(i, (name, st));
        assert(self.table() =~= old(self).table().update(i as int, (old(self).table()[i as int].0, st)));
    }

    /// Adds a topic that is not yet in the table.
    fn add_topic(&mut self, topic: String, st: TopicThrottleState)
        requires
            old(self).wf(),
            topic_index(old(self).table(), topic@) is None,
        ensures
            final(self).table() == old(self).table().push((topic@, st)),
            final(self).wf(),
            final(self).spec_default_limit() == old(self).spec_default_limit(),
            final(self).spec_min_interval() == old(self).spec_min_interval(),
    {
        proof {
            lemma_topic_index(self.table(), topic@);
        }
        self.topic_states.push((topic, st));
        assert(self.table() =~= old(self).table().push((topic@, st)));
    }

    /// Sets the bandwidth limit of a topic, adding the topic if it is new.
    pub fn set_topic_limit(&mut self, topic: &str, max_bandwidth_bps: u64)
        requires
            old(self).wf(),
        ensures
            final(self).wf(),
            final(self).table() == with_limit(old(self).table(), topic@, max_bandwidth_bps),
            final(self).spec_default_limit() == old(self).spec_default_limit(),
            final(self).spec_min_interval() == old(self).spec_min_interval(),
    {
        let name = topic.to_owned();
        match self.find(&name) {
            Some(i) => {
                let mut st = self.topic_states[i].1;
                st.target_bandwidth_bps = max_bandwidth_bps;
                self.set_state(i, st);
            },
            None => {
                let st = TopicThrottleState {
                    current_interval_ms: 0,
                    target_bandwidth_bps: max_bandwidth_bps,
                    recent_bandwidth_bps: 0,
                    message_count: 0,
                };
                self.add_topic(name, st);
            },
        }
    }

    /// Records the bandwidth observed on a topic, adding the topic with the default
    /// limit if it is new.
    pub fn observe_throughput(&mut self, topic: &str, throughput_bps: u64)
        requires
            old(self).wf(),
            topic_state(old(self).table(), topic@) matches Some(s) ==> s.message_count < u64::MAX,
        ensures
            final(self).wf(),
            final(self).table() == with_observation(
                old(self).table(),
                topic@,
                throughput_bps,
                old(self).spec_default_limit(),
            ),
            final(self).spec_default_limit() == old(self).spec_default_limit(),
            final(self).spec_min_interval() == old(self).spec_min_interval(),
    {
        let name = topic.to_owned();
        match self.find(&name) {
            Some(i) => {
                let mut st = self.topic_states[i].1;
                st.recent_bandwidth_bps = throughput_bps;
                st.message_count = st.message_count + 1;
                self.set_state(i, st);
            },
            None => {
                let st = TopicThrottleState {
                    current_interval_ms: 0,
                    target_bandwidth_bps: self.default_max_bandwidth_bps,
                    recent_bandwidth_bps: throughput_bps,
                    message_count: 1,
                };
                self.add_topic(name, st);
            },
        }
    }

    /// The current interval of a topic, if the topic is known.
    pub fn throttle_interval(&self, topic: &str) -> (r: Option<u64>)
        ensures
            match topic_state(self.table(), topic@) {
                Some(s) => r == Some(s.current_interval_ms),
                None => r is None,
            },
    {
        let name = topic.to_owned();
        match self.find(&name) {
            Some(i) => Some(self.topic_states[i].1.current_interval_ms),
            None => None,
        }
    }

    /// The shortest interval the agent imposes, in milliseconds.
    pub fn min_interval_ms(&self) -> (r: u64)
        ensures
            r == self.spec_min_interval(),
    {
        self.min_interval_ms
    }

    /// The topics with a limit whose observed bandwidth exceeds it, in table order.
    pub fn pending_throttles(&self) -> (r: Vec<PendingThrottle>)
        ensures
            r@.len() == pending_of(self.table()).len(),
            forall|k: int|
                0 <= k < r@.len() ==> {
                    let p = #[trigger] pending_of(self.table())[k];
                    &&& r@[k].topic@ == p.0
                    &&& r@[k].current_interval_ms == p.1.current_interval_ms
                    &&& r@[k].recent_bandwidth_bps == p.1.recent_bandwidth_bps
                    &&& r@[k].target_bandwidth_bps == p.1.target_bandwidth_bps
                },
    {
        let ghost t = self.table();
        let mut r: Vec<PendingThrottle> = Vec::new();
        let mut i: usize = 0;
        while i < self.topic_states.len()
            invariant
                i <= self.topic_states.len(),
                t == self.table(),
                r@.len() == pending_of(t.take(i as int)).len(),
                forall|k: int|
                    0 <= k < r@.len() ==> {
                        let p = #[trigger] pending_of(t.take(i as int))[k];
                        &&& r@[k].topic@ == p.0
                        &&& r@[k].current_interval_ms == p.1.current_interval_ms
                        &&& r@[k].recent_bandwidth_bps == p.1.recent_bandwidth_bps
                        &&& r@[k].target_bandwidth_bps == p.1.target_bandwidth_bps
                    },
            decreases self.topic_states.len() - i,
        {
            assert(t.take(i + 1).drop_last() =~= t.take(i as int));
            assert(t.take(i + 1).last() == t[i as int]);
            let st = self.topic_states[i].1;
            if st.target_bandwidth_bps != u64::MAX && st.recent_bandwidth_bps > st.target_bandwidth_bps {
                r.push(
                    PendingThrottle {
                        topic: self.topic_states[i].0.clone(),
                        current_interval_ms: st.current_interval_ms,
                        recent_bandwidth_bps: st.recent_bandwidth_bps,
                        target_bandwidth_bps: st.target_bandwidth_bps,
                    },
                );
            }
            i += 1;
        }
        assert(t.take(self.topic_states.len() as int) =~= t);
        r
    }

    /// Sets a topic's interval. Returns whether the topic is known and its interval
    /// changed.
    pub fn apply_interval(&mut self, topic: &str, new_interval_ms: u64) -> (changed: bool)
        requires
            old(self).wf(),
        ensures
            final(self).wf(),
            changed == (topic_state(old(self).table(), topic@) matches Some(s)
                && s.current_interval_ms != new_interval_ms),
            changed ==> final(self).table() == with_interval(old(self).table(), topic@, new_interval_ms),
            !changed ==> final(self).table() == old(self).table(),
            final(self).spec_default_limit() == old(self).spec_default_limit(),
            final(self).spec_min_interval() == old(self).spec_min_interval(),
    {
        let name = topic.to_owned();
        match self.find(&name) {
            Some(i) => {
                let mut st = self.topic_states[i].1;
                if st.current_interval_ms == new_interval_ms {
                    return false;
                }
                st.current_interval_ms = new_interval_ms;
                self.set_state(i, st);
                true
            },
            None => false,
        }
    }
}

impl Default for ThrottleAgent {
    fn default() -> (a: Self)
        ensures
            a.wf(),
            a.table() == Seq::<(Seq<char>, TopicThrottleState)>::empty(),
            a.spec_default_limit() == u64::MAX,
            a.spec_min_interval() == 10,
    {
        Self::new()
    }
}

/// The pending throttles are exactly the topics that have a limit and whose
/// recent bandwidth exceeds it, whatever interval they are already throttled to:
/// every entry of the table that is over its limit is pending, and every pending
/// entry is an entry of the table that is over its limit.
pub proof fn law_pending_are_the_topics_over_limit(t: ThrottleTable)
    ensures
        forall|i: int|
            0 <= i < t.len() && t[i].1.target_bandwidth_bps != u64::MAX
                && t[i].1.recent_bandwidth_bps > t[i].1.target_bandwidth_bps
                ==> #[trigger] pending_of(t).contains(t[i]),
        forall|k: int|
            0 <= k < pending_of(t).len() ==> t.contains(#[trigger] pending_of(t)[k])
                && pending_of(t)[k].1.target_bandwidth_bps != u64::MAX
                && pending_of(t)[k].1.recent_bandwidth_bps > pending_of(t)[k].1.target_bandwidth_bps,
    decreases t.len(),
{
    if t.len() > 0 {
        let u = t.drop_last();
        law_pending_are_the_topics_over_limit(u);
        let pu = pending_of(u);
        assert forall|i: int|
            0 <= i < t.len() && t[i].1.target_bandwidth_bps != u64::MAX
                && t[i].1.recent_bandwidth_bps > t[i].1.target_bandwidth_bps
                implies #[trigger] pending_of(t).contains(t[i]) by {
            if i < t.len() - 1 {
                assert(t[i] == u[i]);
                assert(pu.contains(u[i]));
                let j = choose|j: int| 0 <= j < pu.len() && pu[j] == u[i];
                if over_limit(t.last().1) {
                    assert(pending_of(t)[j] == pu[j]);
                }
            } else {
                assert(pending_of(t) == pu.push(t.last()));
                assert(pending_of(t)[pu.len() as int] == t[i]);
            }
        }
        assert forall|k: int| 0 <= k < pending_of(t).len() implies t.contains(
            #[trigger] pending_of(t)[k],
        ) && pending_of(t)[k].1.target_bandwidth_bps != u64::MAX
            && pending_of(t)[k].1.recent_bandwidth_bps > pending_of(t)[k].1.target_bandwidth_bps by {
            if k < pu.len() {
                assert(pending_of(t)[k] == pu[k]);
                assert(u.contains(pu[k]));
                let j = choose|j: int| 0 <= j < u.len() && u[j] == pu[k];
                assert(t[j] == u[j]);
            } else {
                assert(pending_of(t)[k] == t.last());
                assert(t[t.len() - 1] == t.last());
            }
        }
    }
}

proof fn lemma_pending_names_follow_bandwidth(t: ThrottleTable, t2: ThrottleTable)
    requires
        t2.len() == t.len(),
        forall|i: int|
            0 <= i < t.len() ==> (#[trigger] t2[i]).0 == t[i].0
                && t2[i].1.target_bandwidth_bps == t[i].1.target_bandwidth_bps
                && t2[i].1.recent_bandwidth_bps == t[i].1.recent_bandwidth_bps,
    ensures
        pending_of(t2).map_values(|e: (Seq<char>, TopicThrottleState)| e.0) =~= pending_of(
            t,
        ).map_values(|e: (Seq<char>, TopicThrottleState)| e.0),
    decreases t.len(),
{
    if t.len() > 0 {
        let u = t.drop_last();
        let u2 = t2.drop_last();
        assert forall|i: int| 0 <= i < u.len() implies (#[trigger] u2[i]).0 == u[i].0
            && u2[i].1.target_bandwidth_bps == u[i].1.target_bandwidth_bps
            && u2[i].1.recent_bandwidth_bps == u[i].1.recent_bandwidth_bps by {
            assert(u2[i] == t2[i] && u[i] == t[i]);
        }
        lemma_pending_names_follow_bandwidth(u, u2);
        assert(t2.last() == t2[t.len() - 1] && t.last() == t[t.len() - 1]);
        let f = |e: (Seq<char>, TopicThrottleState)| e.0;
        if over_limit(t.last().1) {
            assert(pending_of(t).map_values(f) =~= pending_of(u).map_values(f).push(t.last().0));
            assert(pending_of(t2).map_values(f) =~= pending_of(u2).map_values(f).push(t2.last().0));
        }
    }
}

/// Throttling a topic does not take it off the pending list: after its interval is
/// set (to any value), the topics pending are the same, in the same order, as
/// before, since only bandwidth and limit decide whether a topic is over its limit.
pub proof fn law_interval_keeps_pending(t: ThrottleTable, topic: Seq<char>, ms: u64)
    ensures
        pending_of(with_interval(t, topic, ms)).map_values(|e: (Seq<char>, TopicThrottleState)| e.0)
            == pending_of(t).map_values(|e: (Seq<char>, TopicThrottleState)| e.0),
{
    lemma_topic_index(t, topic);
    let t2 = with_interval(t, topic, ms);
    assert forall|i: int| 0 <= i < t.len() implies (#[trigger] t2[i]).0 == t[i].0
        && t2[i].1.target_bandwidth_bps == t[i].1.target_bandwidth_bps
        && t2[i].1.recent_bandwidth_bps == t[i].1.recent_bandwidth_bps by {}
    lemma_pending_names_follow_bandwidth(t, t2);
}

} // verus!
