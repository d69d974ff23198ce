//! Self-healing agent: follows the health of each node through failure counts and
//! silence, and reports the nodes that degrade and the nodes that fail.
//!
//! Backup routes around a failed node are searched over a topology whose edge
//! weights are floating point; that search lives with the caller, which turns each
//! [`HealthEvent::NodeFailed`] into a failover when it finds a route.

use vstd::prelude::*;
use std::time::Instant;
use crate::clock::{instant_now, nanos_between};
use crate::keyexpr::{robot_of, KeyExpr};
use crate::table::{
    find_key, key_index, key_view, keys_distinct, lemma_key_index, lemma_key_index_of_entry,
    lemma_store_distinct, lookup, store,
};
use crate::types::{HealthStatus, NodeId};

verus! {

/// Health state of one node.
pub struct NodeHealthState {
    /// When the node was last heard from.
    pub last_seen: Instant,
    /// Failures since the last successful observation.
    pub consecutive_failures: u32,
    /// Current health.
    pub status: HealthStatus,
    /// Observations of the node.
    pub total_messages: u64,
}

/// What the agent reports after an evaluation.
#[derive(Debug)]
pub enum HealthEvent {
    /// The node has gone from healthy to degraded.
    NodeDegraded { node_id: NodeId },
    /// The node has gone from suspected to failed; a backup route is wanted.
    NodeFailed { node_id: NodeId },
}

/// The part of a node's state that its health follows.
pub struct HealthView {
    pub failures: u32,
    pub status: HealthStatus,
    pub total_messages: u64,
}

/// A node's state as the agent's rules see it.
pub open spec fn health_view(s: NodeHealthState) -> HealthView {
    HealthView {
        failures: s.consecutive_failures,
        status: s.status,
        total_messages: s.total_messages,
    }
}

/// The health a node moves to in one evaluation.
pub open spec fn next_status(
    status: HealthStatus,
    failures: u32,
    degraded_threshold: u32,
    suspected_threshold: u32,
    timed_out: bool,
) -> HealthStatus {
    match status {
        HealthStatus::Healthy => if failures >= degraded_threshold {
            HealthStatus::Degraded
        } else {
            HealthStatus::Healthy
        },
        HealthStatus::Degraded => if failures >= suspected_threshold {
            HealthStatus::Suspected
        } else if failures == 0 {
            HealthStatus::Healthy
        } else {
            HealthStatus::Degraded
        },
        HealthStatus::Suspected => if timed_out {
            HealthStatus::Failed
        } else if failures == 0 {
            HealthStatus::Healthy
        } else {
            HealthStatus::Suspected
        },
        HealthStatus::Failed => HealthStatus::Failed,
    }
}

/// The event, if any, that a node's move from `before` to `after` reports.
pub open spec fn event_of(name: Seq<char>, before: HealthStatus, after: HealthStatus) -> Option<
    (bool, Seq<char>),
> {
    if before == HealthStatus::Healthy && after == HealthStatus::Degraded {
        Some((true, name))
    } else if before == HealthStatus::Suspected && after == HealthStatus::Failed {
        Some((false, name))
    } else {
        None
    }
}

/// An event as (whether it reports degradation rather than failure, the node's name).
pub open spec fn event_view(e: HealthEvent) -> (bool, Seq<char>) {
    match e {
        HealthEvent::NodeDegraded { node_id } => (true, node_id.0@),
        HealthEvent::NodeFailed { node_id } => (false, node_id.0@),
    }
}

/// Nodes and their health, in table order.
pub type HealthTable = Seq<(Seq<char>, HealthView)>;

/// The events of the first `n` nodes of an evaluation that took `before` to `after`,
/// in table order.
pub open spec fn events_upto(before: HealthTable, after: HealthTable, n: nat) -> Seq<
    (bool, Seq<char>),
>
    decreases n,
{
    if n == 0 {
        Seq::empty()
    } else {
        let prev = events_upto(before, after, (n - 1) as nat);
        match event_of(before[n - 1].0, before[n - 1].1.status, after[n - 1].1.status) {
            Some(e) => prev.push(e),
            None => prev,
        }
    }
}

/// The table after one evaluation, in which node `i` had been silent longer than the
/// failover timeout exactly when `timed_out[i]`.
pub open spec fn evaluation_of(
    before: HealthTable,
    degraded_threshold: u32,
    suspected_threshold: u32,
    timed_out: Seq<bool>,
) -> HealthTable {
    Seq::new(
        before.len(),
        |i: int|
            (
                before[i].0,
                HealthView {
                    status: next_status(
                        before[i].1.status,
                        before[i].1.failures,
                        degraded_threshold,
                        suspected_threshold,
                        timed_out[i],
                    ),
                    ..before[i].1
                },
            ),
    )
}

/// The health of a node, or a fresh state if the node is unknown.
pub open spec fn current(t: HealthTable, node: Seq<char>) -> HealthView {
    match lookup(t, node) {
        Some(h) => h,
        None => fresh_health(),
    }
}

/// The name under which an observation of `topic` is filed: its robot, or "unknown".
pub open spec fn observed_node(topic: Seq<char>) -> Seq<char> {
    match robot_of(topic) {
        Some(r) => r,
        None => seq!['u', 'n', 'k', 'n', 'o', 'w', 'n'],
    }
}

/// The health after an observation: one more message and, if it was delivered, no
/// failures and no degradation; otherwise one more failure.
pub open spec fn observed(h: HealthView, delivered: bool) -> HealthView {
    if delivered {
        HealthView {
            failures: 0,
            status: if h.status == HealthStatus::Degraded {
                HealthStatus::Healthy
            } else {
                h.status
            },
            total_messages: (h.total_messages + 1) as u64,
        }
    } else {
        HealthView {
            failures: (h.failures + 1) as u32,
            total_messages: (h.total_messages + 1) as u64,
            ..h
        }
    }
}

/// A fresh health state: healthy, no failures, no observations.
pub open spec fn fresh_health() -> HealthView {
    HealthView { failures: 0, status: HealthStatus::Healthy, total_messages: 0 }
}

/// Self-healing agent that detects failures of nodes.
pub struct SelfHealingAgent {
    node_health: Vec<(String, NodeHealthState)>,
    topology_nodes: Vec<String>,
    failover_timeout_ms: u64,
    degraded_threshold: u32,
    suspected_threshold: u32,
}

impl SelfHealingAgent {
    /// The nodes and their health, in the order the nodes were first seen.
    pub closed spec fn table(&self) -> Seq<(Seq<char>, HealthView)> {
        key_view(self.node_health@).map_values(|e: (Seq<char>, NodeHealthState)| (e.0, health_view(e.1)))
    }

    /// The nodes registered in the topology, in registration order.
    pub closed spec fn topology(&self) -> Seq<Seq<char>> {
        self.topology_nodes@.map_values(|s: String| s@)
    }

    /// Silence, in milliseconds, after which a suspected node has failed.
    pub closed spec fn spec_failover_timeout_ms(&self) -> u64 {
        self.failover_timeout_ms
    }

    /// Failures at which a healthy node degrades.
    pub closed spec fn spec_degraded_threshold(&self) -> u32 {
        self.degraded_threshold
    }

    /// Failures at which a degraded node becomes suspected.
    pub closed spec fn spec_suspected_threshold(&self) -> u32 {
        self.suspected_threshold
    }

    /// Well-formedness: no node appears twice in the table or in the topology.
    pub closed spec fn wf(&self) -> bool {
        &&& keys_distinct(key_view(self.node_health@))
        &&& forall|i: int, j: int|
            0 <= i < j < self.topology_nodes@.len() ==> self.topology_nodes@[i]@
                != self.topology_nodes@[j]@
    }

    proof fn lemma_table(&self)
        ensures
            self.table().len() == self.node_health@.len(),
            forall|i: int|
                0 <= i < self.table().len() ==> #[trigger] self.table()[i] == (
                    self.node_health@[i].0@,
                    health_view(self.node_health@[i].1),
                ),
            keys_distinct(key_view(self.node_health@)) ==> keys_distinct(self.table()),
    {
    }

    /// An agent with no nodes, a 50 ms failover timeout, degrading at 3 failures and
    /// suspecting at 5.
    pub fn new() -> (a: SelfHealingAgent)
        ensures
            a.wf(),
            a.table().len() == 0,
            a.topology().len() == 0,
            a.spec_failover_timeout_ms() == 50,
            a.spec_degraded_threshold() == 3,
            a.spec_suspected_threshold() == 5,
    {
        SelfHealingAgent::with_config(50, 3)
    }

    /// An agent with no nodes, the given failover timeout, degrading at
    /// `degraded_threshold` failures and suspecting at two more.
    pub fn with_config(failover_timeout_ms: u64, degraded_threshold: u32) -> (a: SelfHealingAgent)
        requires
            degraded_threshold <= u32::MAX - 2,
        ensures
            a.wf(),
            a.table().len() == 0,
            a.topology().len() == 0,
            a.spec_failover_timeout_ms() == failover_timeout_ms,
            a.spec_degraded_threshold() == degraded_threshold,
            a.spec_suspected_threshold() == degraded_threshold + 2,
    {
        SelfHealingAgent {
            node_health: Vec::new(),
            topology_nodes: Vec::new(),
            failover_timeout_ms,
            degraded_threshold,
            suspected_threshold: degraded_threshold + 2,
        }
    }
}

impl SelfHealingAgent {
    /// Stores a node's state: in place if the node is at `pos`, at the end if `pos`
    /// is `None`.
    fn put(&mut self, pos: Option<usize>, name: String, st: NodeHealthState)
        requires
            old(self).wf(),
            pos matches Some(p) ==> key_index(key_view(old(self).node_health@), name@) == Some(p as int),
            pos is None ==> key_index(key_view(old(self).node_health@), name@) is None,
        ensures
            final(self).wf(),
            final(self).table() == store(old(self).table(), name@, health_view(st)),
            final(self).topology() == old(self).topology(),
            final(self).spec_failover_timeout_ms() == old(self).spec_failover_timeout_ms(),
            final(self).spec_degraded_threshold() == old(self).spec_degraded_threshold(),
            final(self).spec_suspected_threshold() == old(self).spec_suspected_threshold(),
    {
        let ghost t0 = key_view(self.node_health@);
        let ghost h = health_view(st);
        proof {
            self.lemma_table();
            lemma_key_index(t0, name@);
            lemma_key_index(self.table(), name@);
            lemma_store_distinct(t0, name@, st);
            crate::table::lemma_key_index_keys(t0, self.table(), name@);
        }
        let ghost nm = name@;
        match pos {
            Some(i) => {
                self.node_health.set(i, (name, st));
                proof {
                    assert(store(t0, nm, st) == t0.update(i as int, (nm, st)));
                    assert(key_view(self.node_health@) =~= t0.update(i as int, (nm, st)));
                    assert(self.table() =~= old(self).table().update(i as int, (nm, h)));
                }
            },
            None => {
                self.node_health.push((name, st));
                proof {
                    assert(key_view(self.node_health@) =~= t0.push((nm, st)));
                    assert(self.table() =~= old(self).table().push((nm, h)));
                }
            },
        }
    }

    /// Registers a node in the topology with a fresh health state; a node already in
    /// the topology is left as it is.
    pub fn register_node(&mut self, node_id: &str)
        requires
            old(self).wf(),
        ensures
            final(self).wf(),
            old(self).topology().contains(node_id@) ==> final(self).table() == old(self).table()
                && final(self).topology() == old(self).topology(),
            !old(self).topology().contains(node_id@) ==> final(self).table() == store(
                old(self).table(),
                node_id@,
                fresh_health(),
            ) && final(self).topology() == old(self).topology().push(node_id@),
            final(self).spec_failover_timeout_ms() == old(self).spec_failover_timeout_ms(),
            final(self).spec_degraded_threshold() == old(self).spec_degraded_threshold(),
            final(self).spec_suspected_threshold() == old(self).spec_suspected_threshold(),
    {
        let mut k: usize = 0;
        while k < self.topology_nodes.len()
            invariant
                k <= self.topology_nodes.len(),
                *self == *old(self),
                old(self).wf(),
                forall|j: int| 0 <= j < k ==> self.topology_nodes@[j]@ != node_id@,
            decreases self.topology_nodes.len() - k,
        {
            if crate::text::str_eq(self.topology_nodes[k].as_str(), node_id) {
                assert(self.topology()[k as int] == node_id@);
                return;
            }
            k += 1;
        }
        assert(!self.topology().contains(node_id@));
        let pos = find_key(&self.node_health, node_id);
        let st = NodeHealthState {
            last_seen: instant_now(),
            consecutive_failures: 0,
            status: HealthStatus::Healthy,
            total_messages: 0,
        };
        self.put(pos, node_id.to_owned(), st);
        let ghost before = self.topology_nodes@;
        self.topology_nodes.push(node_id.to_owned());
        assert(self.topology_nodes@ == before.push(self.topology_nodes@.last()));
        assert(self.topology() =~= old(self).topology().push(node_id@));
        assert forall|i: int, j: int|
            0 <= i < j < self.topology_nodes@.len() implies self.topology_nodes@[i]@
            != self.topology_nodes@[j]@ by {
            assert(self.topology()[i] == self.topology_nodes@[i]@);
            assert(self.topology()[j] == self.topology_nodes@[j]@);
            if j < before.len() {
                assert(old(self).topology()[i] == old(self).topology_nodes@[i]@);
                assert(old(self).topology()[j] == old(self).topology_nodes@[j]@);
            } else {
                assert(old(self).topology()[i] == self.topology()[i]);
            }
        }
    }

    /// Records a communication failure of a node, adding the node with a fresh
    /// state if it is unknown.
    pub fn record_failure(&mut self, node_id: &str)
        requires
            old(self).wf(),
            current(old(self).table(), node_id@).failures < u32::MAX,
        ensures
            final(self).wf(),
            final(self).table() == store(
                old(self).table(),
                node_id@,
                HealthView {
                    failures: (current(old(self).table(), node_id@).failures + 1) as u32,
                    ..current(old(self).table(), node_id@)
                },
            ),
            final(self).topology() == old(self).topology(),
            final(self).spec_failover_timeout_ms() == old(self).spec_failover_timeout_ms(),
            final(self).spec_degraded_threshold() == old(self).spec_degraded_threshold(),
            final(self).spec_suspected_threshold() == old(self).spec_suspected_threshold(),
    {
        let pos = find_key(&self.node_health, node_id);
        proof {
            self.lemma_table();
            lemma_key_index(self.table(), node_id@);
            lemma_key_index(key_view(self.node_health@), node_id@);
        }
        let st = match pos {
            Some(i) => {
                let old_st = &self.node_health[i].1;
                proof {
                    lemma_key_index_of_entry(self.table(), i as int);
                }
                NodeHealthState {
                    last_seen: old_st.last_seen,
                    consecutive_failures: old_st.consecutive_failures + 1,
                    status: old_st.status,
                    total_messages: old_st.total_messages,
                }
            },
            None => NodeHealthState {
                last_seen: instant_now(),
                consecutive_failures: 1,
                status: HealthStatus::Healthy,
                total_messages: 0,
            },
        };
        self.put(pos, node_id.to_owned(), st);
    }

    /// Observes a message of `topic`, filed under the topic's robot (or "unknown"):
    /// the node was heard from now; `delivered` says whether the link was good.
    pub fn observe(&mut self, topic: &KeyExpr, delivered: bool)
        requires
            old(self).wf(),
            current(old(self).table(), observed_node(topic.0@)).total_messages < u64::MAX,
            !delivered ==> current(old(self).table(), observed_node(topic.0@)).failures < u32::MAX,
        ensures
            final(self).wf(),
            final(self).table() == store(
                old(self).table(),
                observed_node(topic.0@),
                observed(current(old(self).table(), observed_node(topic.0@)), delivered),
            ),
            final(self).topology() == old(self).topology(),
            final(self).spec_failover_timeout_ms() == old(self).spec_failover_timeout_ms(),
            final(self).spec_degraded_threshold() == old(self).spec_degraded_threshold(),
            final(self).spec_suspected_threshold() == old(self).spec_suspected_threshold(),
    {
        let name: String = match topic.robot_id() {
            Some(r) => r.to_owned(),
            None => "unknown".to_owned(),
        };
        proof {
            reveal_strlit("unknown");
        }
        assert(name@ == observed_node(topic.0@));
        let pos = find_key(&self.node_health, name.as_str());
        proof {
            self.lemma_table();
            lemma_key_index(self.table(), name@);
            lemma_key_index(key_view(self.node_health@), name@);
        }
        let (failures, status, total) = match pos {
            Some(i) => {
                proof {
                    lemma_key_index_of_entry(self.table(), i as int);
                }
                (
                    self.node_health[i].1.consecutive_failures,
                    self.node_health[i].1.status,
                    self.node_health[i].1.total_messages,
                )
            },
            None => (0, HealthStatus::Healthy, 0),
        };
        let st = if delivered {
            NodeHealthState {
                last_seen: instant_now(),
                consecutive_failures: 0,
                status: if status == HealthStatus::Degraded {
                    HealthStatus::Healthy
                } else {
                    status
                },
                total_messages: total + 1,
            }
        } else {
            NodeHealthState {
                last_seen: instant_now(),
                consecutive_failures: failures + 1,
                status,
                total_messages: total + 1,
            }
        };
        self.put(pos, name, st);
    }
}

impl SelfHealingAgent {
    /// Evaluates every node, given for each (in table order) whether it has been
    /// silent longer than the failover timeout. Healthy nodes with enough failures
    /// degrade; degraded ones with more become suspected or, with none, recover;
    /// suspected ones fail when silent too long or recover with no failures; failed
    /// ones stay failed. Reports each degradation and each failure, in table order.
    pub fn evaluate_with(&mut self, timed_out: &Vec<bool>) -> (events: Vec<HealthEvent>)
        requires
            old(self).wf(),
            timed_out@.len() == old(self).table().len(),
        ensures
            final(self).wf(),
            final(self).table() == evaluation_of(
                old(self).table(),
                old(self).spec_degraded_threshold(),
                old(self).spec_suspected_threshold(),
                timed_out@,
            ),
            events@.map_values(|e: HealthEvent| event_view(e)) == events_upto(
                old(self).table(),
                final(self).table(),
                old(self).table().len(),
            ),
            final(self).topology() == old(self).topology(),
            final(self).spec_failover_timeout_ms() == old(self).spec_failover_timeout_ms(),
            final(self).spec_degraded_threshold() == old(self).spec_degraded_threshold(),
            final(self).spec_suspected_threshold() == old(self).spec_suspected_threshold(),
    {
        let ghost t0 = old(self).table();
        let ghost target = evaluation_of(
            t0,
            self.degraded_threshold,
            self.suspected_threshold,
            timed_out@,
        );
        let n = self.node_health.len();
        let mut events: Vec<HealthEvent> = Vec::new();
        let mut i: usize = 0;
        proof {
            self.lemma_table();
        }
        while i < n
            invariant
                n == self.node_health@.len(),
                n == t0.len(),
                timed_out@.len() == n,
                i <= n,
                self.table().len() == n,
                forall|j: int| 0 <= j < i ==> #[trigger] self.table()[j] == target[j],
                forall|j: int| i <= j < n ==> #[trigger] self.table()[j] == t0[j],
                keys_distinct(t0),
                keys_distinct(key_view(self.node_health@)),
                self.topology_nodes == old(self).topology_nodes,
                self.failover_timeout_ms == old(self).failover_timeout_ms,
                self.degraded_threshold == old(self).degraded_threshold,
                self.suspected_threshold == old(self).suspected_threshold,
                target == evaluation_of(
                    t0,
                    self.degraded_threshold,
                    self.suspected_threshold,
                    timed_out@,
                ),
                events@.map_values(|e: HealthEvent| event_view(e)) == events_upto(
                    t0,
                    target,
                    i as nat,
                ),
            decreases n - i,
        {
            proof {
                self.lemma_table();
            }
            let failures = self.node_health[i].1.consecutive_failures;
            let status = self.node_health[i].1.status;
            let new_status = match status {
                HealthStatus::Healthy => if failures >= self.degraded_threshold {
                    HealthStatus::Degraded
                } else {
                    HealthStatus::Healthy
                },
                HealthStatus::Degraded => if failures >= self.suspected_threshold {
                    HealthStatus::Suspected
                } else if failures == 0 {
                    HealthStatus::Healthy
                } else {
                    HealthStatus::Degraded
                },
                HealthStatus::Suspected => if timed_out[i] {
                    HealthStatus::Failed
                } else if failures == 0 {
                    HealthStatus::Healthy
                } else {
                    HealthStatus::Suspected
                },
                HealthStatus::Failed => HealthStatus::Failed,
            };
            proof {
                assert(self.table()[i as int] == t0[i as int]);
                assert(t0[i as int].1.failures == failures);
                assert(t0[i as int].1.status == status);
                assert(t0[i as int].0 == self.node_health@[i as int].0@);
                assert(target[i as int].1.status == new_status);
                assert(target[i as int].0 == t0[i as int].0);
                assert(target[i as int].1.failures == failures);
                assert(target[i as int].1.total_messages == t0[i as int].1.total_messages);
            }
            let ghost ev_before = events@.map_values(|e: HealthEvent| event_view(e));
            if status == HealthStatus::Healthy && new_status == HealthStatus::Degraded {
                events.push(HealthEvent::NodeDegraded { node_id: NodeId(self.node_health[i].0.clone()) });
            } else if status == HealthStatus::Suspected && new_status == HealthStatus::Failed {
                events.push(HealthEvent::NodeFailed { node_id: NodeId(self.node_health[i].0.clone()) });
            }
            proof {
                assert(events_upto(t0, target, (i + 1) as nat) == match event_of(
                    t0[i as int].0,
                    t0[i as int].1.status,
                    target[i as int].1.status,
                ) {
                    Some(e) => events_upto(t0, target, i as nat).push(e),
                    None => events_upto(t0, target, i as nat),
                });
                assert(events@.map_values(|e: HealthEvent| event_view(e)) =~= events_upto(
                    t0,
                    target,
                    (i + 1) as nat,
                ));
            }
            let name = self.node_health[i].0.clone();
            let st = NodeHealthState {
                last_seen: self.node_health[i].1.last_seen,
                consecutive_failures: failures,
                status: new_status,
                total_messages: self.node_health[i].1.total_messages,
            };
            let ghost before = self.node_health@;
            let ghost tb = self.table();
            self.node_health.set(i, (name, st));
            proof {
                assert(key_view(self.node_health@) =~= key_view(before).update(
                    i as int,
                    (key_view(before)[i as int].0, st),
                ));
                assert forall|a: int, b: int|
                    0 <= a < b < n implies key_view(self.node_health@)[a].0 != key_view(
                        self.node_health@,
                    )[b].0 by {
                    assert(key_view(before)[a].0 == key_view(self.node_health@)[a].0);
                    assert(key_view(before)[b].0 == key_view(self.node_health@)[b].0);
                }
                self.lemma_table();
                assert(self.table()[i as int] == target[i as int]);
                assert(self.table() =~= tb.update(i as int, target[i as int]));
            }
            i += 1;
        }
        proof {
            assert(self.table() =~= target);
        }
        events
    }

    /// Evaluates every node against the clock (see [`Self::evaluate_with`]): a node
    /// has been silent too long when more than the failover timeout has passed since
    /// it was last seen. The clock decides which suspected nodes fail; everything
    /// else is as `evaluate_with` states.
    pub fn evaluate(&mut self) -> (events: Vec<HealthEvent>)
        requires
            old(self).wf(),
        ensures
            final(self).wf(),
            exists|timed_out: Seq<bool>|
                #![trigger evaluation_of(old(self).table(), old(self).spec_degraded_threshold(), old(self).spec_suspected_threshold(), timed_out)]
                timed_out.len() == old(self).table().len() && final(self).table()
                    == evaluation_of(
                    old(self).table(),
                    old(self).spec_degraded_threshold(),
                    old(self).spec_suspected_threshold(),
                    timed_out,
                ),
            events@.map_values(|e: HealthEvent| event_view(e)) == events_upto(
                old(self).table(),
                final(self).table(),
                old(self).table().len(),
            ),
            final(self).topology() == old(self).topology(),
            final(self).spec_failover_timeout_ms() == old(self).spec_failover_timeout_ms(),
            final(self).spec_degraded_threshold() == old(self).spec_degraded_threshold(),
            final(self).spec_suspected_threshold() == old(self).spec_suspected_threshold(),
    {
        let now = instant_now();
        let limit: u128 = (self.failover_timeout_ms as u128) * 1_000_000;
        let mut timed_out: Vec<bool> = Vec::new();
        let mut i: usize = 0;
        while i < self.node_health.len()
            invariant
                i <= self.node_health@.len(),
                timed_out@.len() == i,
            decreases self.node_health@.len() - i,
        {
            let silent = nanos_between(&self.node_health[i].1.last_seen, &now);
            timed_out.push(silent > limit);
            i += 1;
        }
        proof {
            self.lemma_table();
        }
        self.evaluate_with(&timed_out)
    }

    /// The health state of a node, if it is known.
    pub fn health(&self, node_id: &str) -> (r: Option<&NodeHealthState>)
        requires
            self.wf(),
        ensures
            r is None <==> lookup(self.table(), node_id@) is None,
            r matches Some(h) ==> lookup(self.table(), node_id@) == Some(health_view(*h)),
    {
        proof {
            self.lemma_table();
            crate::table::lemma_key_index_keys(key_view(self.node_health@), self.table(), node_id@);
            lemma_key_index(self.table(), node_id@);
        }
        match find_key(&self.node_health, node_id) {
            Some(i) => Some(&self.node_health[i].1),
            None => None,
        }
    }
}

/// The rank of a health status along the way from healthy to failed.
pub open spec fn severity(s: HealthStatus) -> int {
    match s {
        HealthStatus::Healthy => 0,
        HealthStatus::Degraded => 1,
        HealthStatus::Suspected => 2,
        HealthStatus::Failed => 3,
    }
}

/// A failed node stays failed: no evaluation brings it back.
pub proof fn law_failed_is_final(
    failures: u32,
    degraded_threshold: u32,
    suspected_threshold: u32,
    timed_out: bool,
)
    ensures
        next_status(
            HealthStatus::Failed,
            failures,
            degraded_threshold,
            suspected_threshold,
            timed_out,
        ) == HealthStatus::Failed,
{
}

/// One evaluation moves a node at most one step towards failure, or back to healthy;
/// a node recovers only when it has no failures, and it fails only after being
/// suspected and silent past the timeout.
pub proof fn law_health_moves_one_step(
    status: HealthStatus,
    failures: u32,
    degraded_threshold: u32,
    suspected_threshold: u32,
    timed_out: bool,
)
    ensures
        ({
            let next = next_status(status, failures, degraded_threshold, suspected_threshold, timed_out);
            &&& severity(next) <= severity(status) + 1
            &&& (severity(next) < severity(status) ==> next == HealthStatus::Healthy && failures == 0)
            &&& (next == HealthStatus::Failed && status != HealthStatus::Failed ==> status
                == HealthStatus::Suspected && timed_out)
        }),
{
}

/// A node that has had no failures since it last reported, and has not gone
/// silent past the timeout, is healthy after an evaluation, whether it was
/// healthy, degraded or suspected (with thresholds above zero, so that no failures
/// cross neither of them). Only a failed node stays down.
pub proof fn law_no_failures_means_recovery(
    status: HealthStatus,
    degraded_threshold: u32,
    suspected_threshold: u32,
)
    requires
        status != HealthStatus::Failed,
        degraded_threshold > 0,
        suspected_threshold > 0,
    ensures
        next_status(status, 0, degraded_threshold, suspected_threshold, false)
            == HealthStatus::Healthy,
{
}

/// One evaluation of the whole table brings back every node that is down but not
/// failed, has no failures left and has not been silent past the timeout: its
/// entry keeps its name and is healthy.
pub proof fn law_evaluation_recovers_quiet_nodes(
    before: HealthTable,
    degraded_threshold: u32,
    suspected_threshold: u32,
    timed_out: Seq<bool>,
    i: int,
)
    requires
        timed_out.len() == before.len(),
        0 <= i < before.len(),
        before[i].1.status != HealthStatus::Failed,
        before[i].1.failures == 0,
        !timed_out[i],
        degraded_threshold > 0,
        suspected_threshold > 0,
    ensures
        evaluation_of(before, degraded_threshold, suspected_threshold, timed_out)[i].0
            == before[i].0,
        evaluation_of(before, degraded_threshold, suspected_threshold, timed_out)[i].1.status
            == HealthStatus::Healthy,
{
    law_no_failures_means_recovery(before[i].1.status, degraded_threshold, suspected_threshold);
}

/// A suspected node fails exactly when it has been silent past the timeout; until
/// then it stays suspected while it keeps failing, and is healthy again as soon as
/// its failures are back to zero.
pub proof fn law_suspected_fails_only_on_timeout(
    failures: u32,
    degraded_threshold: u32,
    suspected_threshold: u32,
    timed_out: bool,
)
    ensures
        (next_status(
            HealthStatus::Suspected,
            failures,
            degraded_threshold,
            suspected_threshold,
            timed_out,
        ) == HealthStatus::Failed) == timed_out,
        !timed_out && failures == 0 ==> next_status(
            HealthStatus::Suspected,
            failures,
            degraded_threshold,
            suspected_threshold,
            timed_out,
        ) == HealthStatus::Healthy,
        !timed_out && failures > 0 ==> next_status(
            HealthStatus::Suspected,
            failures,
            degraded_threshold,
            suspected_threshold,
            timed_out,
        ) == HealthStatus::Suspected,
{
}

/// Evaluations report exactly the degradations and failures that happened: a node
/// that neither degraded from healthy nor failed from suspected is not mentioned.
pub proof fn law_events_are_transitions(before: HealthTable, after: HealthTable, n: nat, e: (bool, Seq<char>))
    requires
        n <= before.len(),
        n <= after.len(),
        events_upto(before, after, n).contains(e),
    ensures
        exists|i: int|
            0 <= i < n && before[i].0 == e.1 && #[trigger] event_of(
                before[i].0,
                before[i].1.status,
                after[i].1.status,
            ) == Some(e),
    decreases n,
{
    let prev = events_upto(before, after, (n - 1) as nat);
    let k = n - 1;
    match event_of(before[k].0, before[k].1.status, after[k].1.status) {
        Some(x) => {
            if x == e {
                assert(event_of(before[k].0, before[k].1.status, after[k].1.status) == Some(e));
            } else {
                assert(prev.push(x).contains(e));
                let j = choose|j: int| 0 <= j < prev.push(x).len() && prev.push(x)[j] == e;
                assert(prev[j] == e);
                law_events_are_transitions(before, after, (n - 1) as nat, e);
            }
        },
        None => {
            law_events_are_transitions(before, after, (n - 1) as nat, e);
        },
    }
}

} // verus!
