//! Rule engine: maps agent events to versioned policy updates.

use vstd::prelude::*;
use crate::types::{
    policy_view, route_view, clone_route, AgentEvent, AgentStartMode, AlertLevel, PolicyUpdateType,
    PolicyView, VersionedPolicyUpdate,
};

verus! {

/// Version and target cycle of a proposed policy update.
#[derive(Clone, Copy, Debug, PartialEq, Eq, Structural)]
pub struct PolicyStamp {
    /// Version of the update; versions count up from 1.
    pub version: u64,
    /// Cycle at which the update is to be applied: the cycle after the current one.
    pub apply_at_cycle: u64,
}

/// The alert text for a degraded node: `node {id} degraded`.
pub open spec fn degraded_message(id: Seq<char>) -> Seq<char> {
    seq!['n', 'o', 'd', 'e', ' '] + id + seq![' ', 'd', 'e', 'g', 'r', 'a', 'd', 'e', 'd']
}

/// The policy update an event calls for, if any: congestion raises the topic's
/// priority when escalated and warns otherwise; a failover creates a failover
/// route; an anomaly raises an alert at its level; a throttle throttles the topic; a
/// degraded node raises a warning; an applied policy calls for nothing.
pub open spec fn rule_of(e: AgentEvent) -> Option<PolicyView> {
    match e {
        AgentEvent::CongestionWarning { topic, escalate, recommended_priority, warning } => Some(
            if escalate {
                PolicyView::UpdateQoS { topic: topic.0@, new_priority: recommended_priority }
            } else {
                PolicyView::Alert { level: AlertLevel::Warning, message: warning@ }
            },
        ),
        AgentEvent::FailoverActivated { failed_node, backup_route } => Some(
            PolicyView::CreateFailover {
                failed_node: failed_node.0@,
                backup_route: route_view(backup_route@),
            },
        ),
        AgentEvent::AnomalyDetected { topic, level, message } => Some(
            PolicyView::Alert { level, message: message@ },
        ),
        AgentEvent::ThrottleApplied { topic, new_interval_ms } => Some(
            PolicyView::ThrottleTopic { topic: topic.0@, new_interval_ms },
        ),
        AgentEvent::NodeDegraded { node_id } => Some(
            PolicyView::Alert { level: AlertLevel::Warning, message: degraded_message(node_id.0@) },
        ),
        AgentEvent::PolicyApplied { .. } => None,
    }
}

/// The update an event calls for, built (see [`rule_of`]).
pub fn rule_for(event: &AgentEvent) -> (r: Option<PolicyUpdateType>)
    ensures
        r is None <==> rule_of(*event) is None,
        r matches Some(u) ==> rule_of(*event) == Some(policy_view(u)),
{
    match event {
        AgentEvent::CongestionWarning { topic, escalate, recommended_priority, warning } => {
            if *escalate {
                Some(PolicyUpdateType::UpdateQoS { topic: topic.clone(), new_priority: *recommended_priority })
            } else {
                Some(PolicyUpdateType::Alert { level: AlertLevel::Warning, message: warning.clone() })
            }
        },
        AgentEvent::FailoverActivated { failed_node, backup_route } => Some(
            PolicyUpdateType::CreateFailover {
                failed_node: failed_node.clone(),
                backup_route: clone_route(backup_route),
            },
        ),
        AgentEvent::AnomalyDetected { topic, level, message } => Some(
            PolicyUpdateType::Alert { level: *level, message: message.clone() },
        ),
        AgentEvent::ThrottleApplied { topic, new_interval_ms } => Some(
            PolicyUpdateType::ThrottleTopic { topic: topic.clone(), new_interval_ms: *new_interval_ms },
        ),
        AgentEvent::NodeDegraded { node_id } => {
            let mut message = "node ".to_owned();
            message.append(node_id.0.as_str());
            message.append(" degraded");
            proof {
                reveal_strlit("node ");
                reveal_strlit(" degraded");
            }
            assert(message@ =~= degraded_message(node_id.0@));
            Some(PolicyUpdateType::Alert { level: AlertLevel::Warning, message })
        },
        AgentEvent::PolicyApplied { .. } => None,
    }
}

/// Converts agent events into versioned policy update proposals.
pub struct RuleEngine {
    next_version: u64,
    current_cycle: u64,
}

impl RuleEngine {
    /// The version the next proposal gets.
    pub closed spec fn spec_next_version(&self) -> u64 {
        self.next_version
    }

    /// The current cycle.
    pub closed spec fn spec_current_cycle(&self) -> u64 {
        self.current_cycle
    }

    /// A rule engine at cycle 0 whose first proposal gets version 1.
    pub fn new() -> (e: RuleEngine)
        ensures
            e.spec_next_version() == 1,
            e.spec_current_cycle() == 0,
    {
        RuleEngine { next_version: 1, current_cycle: 0 }
    }

    /// Sets the current cycle.
    pub fn set_cycle(&mut self, cycle: u64)
        ensures
            final(self).spec_current_cycle() == cycle,
            final(self).spec_next_version() == old(self).spec_next_version(),
    {
        self.current_cycle = cycle;
    }

    /// Stamps a proposal: the next version, to be applied at the next cycle.
    pub fn next_stamp(&mut self) -> (s: PolicyStamp)
        requires
            old(self).spec_next_version() < u64::MAX,
            old(self).spec_current_cycle() < u64::MAX,
        ensures
            s.version == old(self).spec_next_version(),
            s.apply_at_cycle == old(self).spec_current_cycle() + 1,
            final(self).spec_next_version() == old(self).spec_next_version() + 1,
            final(self).spec_current_cycle() == old(self).spec_current_cycle(),
    {
        let version = self.next_version;
        self.next_version = self.next_version + 1;
        PolicyStamp { version, apply_at_cycle: self.current_cycle + 1 }
    }
}

impl RuleEngine {
    /// Evaluates an event: when it calls for an update (see [`rule_of`]), proposes it
    /// with the next version, to apply at the next cycle; otherwise proposes nothing
    /// and changes nothing.
    pub fn evaluate(&mut self, event: &AgentEvent) -> (r: Option<VersionedPolicyUpdate>)
        requires
            old(self).spec_next_version() < u64::MAX,
            old(self).spec_current_cycle() < u64::MAX,
        ensures
            r is None <==> rule_of(*event) is None,
            r matches Some(u) ==> rule_of(*event) == Some(policy_view(u.update))
                && u.version == old(self).spec_next_version()
                && u.apply_at_cycle == old(self).spec_current_cycle() + 1,
            final(self).spec_next_version() == if r is Some {
                old(self).spec_next_version() + 1
            } else {
                old(self).spec_next_version() as int
            },
            final(self).spec_current_cycle() == old(self).spec_current_cycle(),
    {
        match rule_for(event) {
            Some(update) => {
                let stamp = self.next_stamp();
                Some(VersionedPolicyUpdate { version: stamp.version, apply_at_cycle: stamp.apply_at_cycle, update })
            },
            None => None,
        }
    }
}

/// The updates a list of events calls for, in event order.
pub open spec fn rules_of(events: Seq<AgentEvent>) -> Seq<PolicyView>
    decreases events.len(),
{
    if events.len() == 0 {
        Seq::empty()
    } else {
        match rule_of(events.last()) {
            Some(u) => rules_of(events.drop_last()).push(u),
            None => rules_of(events.drop_last()),
        }
    }
}

/// Whether a mode applies the updates it proposes: only the autonomous one does;
/// an observer only logs them and a suggesting agent only proposes them.
pub open spec fn applies_policies(mode: AgentStartMode) -> bool {
    mode is Autonomous
}

proof fn lemma_rules_len(events: Seq<AgentEvent>)
    ensures
        rules_of(events).len() <= events.len(),
    decreases events.len(),
{
    if events.len() > 0 {
        lemma_rules_len(events.drop_last());
    }
}

impl RuleEngine {
    /// Processes one evaluation's events in order: each event that calls for an
    /// update is proposed with the next version, to apply at the next cycle.
    /// Returns the proposals to apply, which are all of them in autonomous mode and
    /// none otherwise.
    pub fn process_events(&mut self, mode: AgentStartMode, events: &Vec<AgentEvent>) -> (r: Vec<
        VersionedPolicyUpdate,
    >)
        requires
            old(self).spec_next_version() + events@.len() < u64::MAX,
            old(self).spec_current_cycle() < u64::MAX,
        ensures
            final(self).spec_next_version() == old(self).spec_next_version() + rules_of(
                events@,
            ).len(),
            final(self).spec_current_cycle() == old(self).spec_current_cycle(),
            applies_policies(mode) ==> r@.len() == rules_of(events@).len() && forall|i: int|
                0 <= i < r@.len() ==> policy_view(#[trigger] r@[i].update) == rules_of(events@)[i]
                    && r@[i].version == old(self).spec_next_version() + i
                    && r@[i].apply_at_cycle == old(self).spec_current_cycle() + 1,
            !applies_policies(mode) ==> r@.len() == 0,
    {
        let apply = match mode {
            AgentStartMode::Autonomous => true,
            _ => false,
        };
        let mut out: Vec<VersionedPolicyUpdate> = Vec::new();
        let ghost v0 = self.spec_next_version();
        let mut i: usize = 0;
        while i < events.len()
            invariant
                i <= events@.len(),
                v0 + events@.len() < u64::MAX,
                self.spec_current_cycle() == old(self).spec_current_cycle(),
                self.spec_current_cycle() < u64::MAX,
                v0 == old(self).spec_next_version(),
                self.spec_next_version() == v0 + rules_of(events@.take(i as int)).len(),
                apply == applies_policies(mode),
                apply ==> out@.len() == rules_of(events@.take(i as int)).len() && forall|k: int|
                    0 <= k < out@.len() ==> policy_view(#[trigger] out@[k].update) == rules_of(
                        events@.take(i as int),
                    )[k] && out@[k].version == v0 + k && out@[k].apply_at_cycle
                        == self.spec_current_cycle() + 1,
                !apply ==> out@.len() == 0,
            decreases events@.len() - i,
        {
            proof {
                lemma_rules_len(events@.take(i as int));
                assert(events@.take(i + 1).drop_last() =~= events@.take(i as int));
                assert(events@.take(i + 1).last() == events@[i as int]);
            }
            let ghost before = rules_of(events@.take(i as int));
            match self.evaluate(&events[i]) {
                Some(update) => {
                    if apply {
                        out.push(update);
                        assert forall|k: int| 0 <= k < out@.len() implies policy_view(
                            #[trigger] out@[k].update,
                        ) == rules_of(events@.take(i + 1))[k] && out@[k].version == v0 + k
                            && out@[k].apply_at_cycle == self.spec_current_cycle() + 1 by {
                            if k < out@.len() - 1 {
                                assert(rules_of(events@.take(i + 1))[k] == before[k]);
                            }
                        }
                    }
                },
                None => {},
            }
            i += 1;
        }
        assert(events@.take(events@.len() as int) =~= events@);
        out
    }
}

impl Default for RuleEngine {
    fn default() -> (e: Self)
        ensures
            e.spec_next_version() == 1,
            e.spec_current_cycle() == 0,
    {
        Self::new()
    }
}

/// Successive stamps carry successive versions: the second stamp's version is one
/// more than the first's, so no two stamps of one engine share a version.
pub proof fn law_versions_are_consecutive(
    e0: RuleEngine,
    e1: RuleEngine,
    e2: RuleEngine,
    s1: PolicyStamp,
    s2: PolicyStamp,
)
    requires
        s1.version == e0.spec_next_version(),
        e1.spec_next_version() == e0.spec_next_version() + 1,
        s2.version == e1.spec_next_version(),
    ensures
        s2.version == s1.version + 1,
        s1.version != s2.version,
{
}

/// The versions a run of calls handed out: the versions of the results that are
/// `Some`, in call order.
pub open spec fn issued(results: Seq<Option<u64>>) -> Seq<u64>
    decreases results.len(),
{
    if results.len() == 0 {
        Seq::empty()
    } else {
        match results.last() {
            Some(v) => issued(results.drop_last()).push(v),
            None => issued(results.drop_last()),
        }
    }
}

/// Versions count up from 1 without gaps or repeats: over any run of calls on an
/// engine fresh from [`RuleEngine::new`] (each call an `evaluate`, whose result
/// carries the next version exactly when it is `Some` and then advances it, or a
/// `set_cycle`, which returns nothing and keeps it), the versions handed out are
/// 1, 2, 3, ... in call order, and the next one is one more than their number.
pub proof fn law_versions_count_up_from_one(engines: Seq<RuleEngine>, results: Seq<Option<u64>>)
    requires
        engines.len() == results.len() + 1,
        engines[0].spec_next_version() == 1,
        forall|i: int|
            0 <= i < results.len() ==> (#[trigger] results[i] matches Some(v) ==> v
                == engines[i].spec_next_version()),
        forall|i: int|
            0 <= i < results.len() ==> #[trigger] engines[i + 1].spec_next_version() == if results[i] is Some {
                engines[i].spec_next_version() + 1
            } else {
                engines[i].spec_next_version() as int
            },
    ensures
        engines.last().spec_next_version() == issued(results).len() + 1,
        forall|k: int| 0 <= k < issued(results).len() ==> #[trigger] issued(results)[k] == k + 1,
    decreases results.len(),
{
    if results.len() > 0 {
        let n = results.len() - 1;
        let es = engines.drop_last();
        let rs = results.drop_last();
        assert forall|i: int| 0 <= i < rs.len() implies (#[trigger] rs[i] matches Some(v) ==> v
            == es[i].spec_next_version()) by {
            assert(rs[i] == results[i]);
        }
        assert forall|i: int| 0 <= i < rs.len() implies #[trigger] es[i + 1].spec_next_version() == if rs[i] is Some {
            es[i].spec_next_version() + 1
        } else {
            es[i].spec_next_version() as int
        } by {
            assert(rs[i] == results[i]);
            assert(engines[i + 1].spec_next_version() == if results[i] is Some {
                engines[i].spec_next_version() + 1
            } else {
                engines[i].spec_next_version() as int
            });
        }
        law_versions_count_up_from_one(es, rs);
        assert(es.last() == engines[n]);
        assert(results.last() == results[n]);
        assert(engines.last() == engines[n + 1]);
        assert(engines[n + 1].spec_next_version() == if results[n] is Some {
            engines[n].spec_next_version() + 1
        } else {
            engines[n].spec_next_version() as int
        });
    }
}

/// Batches of proposals applied in autonomous mode continue one another: over any
/// run of `process_events` calls on an engine fresh from [`RuleEngine::new`], where
/// each batch holds the versions from the engine's next version upwards and
/// advances it by the batch's size, the versions of all batches, in order, are 1,
/// 2, 3, ...; outside autonomous mode every batch is empty.
pub proof fn law_applied_versions_continue(
    engines: Seq<RuleEngine>,
    batches: Seq<Seq<u64>>,
    mode: AgentStartMode,
)
    requires
        engines.len() == batches.len() + 1,
        engines[0].spec_next_version() == 1,
        forall|i: int|
            0 <= i < batches.len() ==> #[trigger] engines[i + 1].spec_next_version()
                == engines[i].spec_next_version() + batches[i].len(),
        forall|i: int, k: int|
            0 <= i < batches.len() && 0 <= k < batches[i].len() ==> #[trigger] batches[i][k]
                == engines[i].spec_next_version() + k,
        !applies_policies(mode) ==> forall|i: int| 0 <= i < batches.len() ==> #[trigger] batches[i].len() == 0,
    ensures
        engines.last().spec_next_version() == batches.flatten().len() + 1,
        forall|k: int| 0 <= k < batches.flatten().len() ==> #[trigger] batches.flatten()[k] == k + 1,
        !applies_policies(mode) ==> batches.flatten().len() == 0,
    decreases batches.len(),
{
    if batches.len() > 0 {
        let n = batches.len() - 1;
        let es = engines.drop_last();
        let bs = batches.drop_last();
        assert forall|i: int| 0 <= i < bs.len() implies #[trigger] es[i + 1].spec_next_version()
            == es[i].spec_next_version() + bs[i].len() by {
            assert(bs[i] == batches[i]);
            assert(engines[i + 1].spec_next_version() == engines[i].spec_next_version() + batches[i].len());
        }
        assert forall|i: int, k: int| 0 <= i < bs.len() && 0 <= k < bs[i].len() implies #[trigger] bs[i][k]
            == es[i].spec_next_version() + k by {
            assert(bs[i] == batches[i]);
            assert(batches[i][k] == engines[i].spec_next_version() + k);
        }
        assert(!applies_policies(mode) ==> forall|i: int| 0 <= i < bs.len() ==> #[trigger] bs[i].len() == 0) by {
            if !applies_policies(mode) {
                assert forall|i: int| 0 <= i < bs.len() implies #[trigger] bs[i].len() == 0 by {
                    assert(bs[i] == batches[i]);
                }
            }
        }
        law_applied_versions_continue(es, bs, mode);
        assert(batches =~= bs.push(batches[n]));
        bs.lemma_flatten_push(batches[n]);
        assert(engines.last() == engines[n + 1]);
        assert(es.last() == engines[n]);
        assert(engines[n + 1].spec_next_version() == engines[n].spec_next_version() + batches[n].len());
        let f = bs.flatten();
        assert forall|k: int| 0 <= k < batches.flatten().len() implies #[trigger] batches.flatten()[k]
            == k + 1 by {
            if k < f.len() {
                assert(batches.flatten()[k] == f[k]);
            } else {
                assert(batches.flatten()[k] == batches[n][k - f.len()]);
                assert(batches[n][k - f.len()] == engines[n].spec_next_version() + (k - f.len()));
            }
        }
        if !applies_policies(mode) {
            assert(batches[n].len() == 0);
        }
    } else {
        assert(batches.flatten() =~= Seq::<u64>::empty());
    }
}

/// How many proposals a run of calls made before its `i`-th call: the sum of
/// the first `i` counts.
pub open spec fn proposed_before(proposed: Seq<nat>, i: int) -> nat
    decreases i,
{
    if i <= 0 || proposed.len() == 0 {
        0
    } else if i > proposed.len() {
        proposed_before(proposed, proposed.len() as int)
    } else {
        proposed_before(proposed, i - 1) + proposed[i - 1]
    }
}

proof fn lemma_proposed_before_grows(proposed: Seq<nat>, i: int, j: int)
    requires
        0 <= i <= j <= proposed.len(),
    ensures
        proposed_before(proposed, i) <= proposed_before(proposed, j),
        i < j ==> proposed_before(proposed, i) + proposed[i] <= proposed_before(proposed, j),
    decreases j - i,
{
    if i < j {
        lemma_proposed_before_grows(proposed, i, j - 1);
    }
}

proof fn lemma_next_version_counts(engines: Seq<RuleEngine>, proposed: Seq<nat>, i: int)
    requires
        engines.len() == proposed.len() + 1,
        engines[0].spec_next_version() == 1,
        forall|j: int|
            0 <= j < proposed.len() ==> #[trigger] engines[j + 1].spec_next_version()
                == engines[j].spec_next_version() + proposed[j],
        0 <= i <= proposed.len(),
    ensures
        engines[i].spec_next_version() == 1 + proposed_before(proposed, i),
    decreases i,
{
    if i > 0 {
        lemma_next_version_counts(engines, proposed, i - 1);
        assert(engines[(i - 1) + 1].spec_next_version() == engines[i - 1].spec_next_version()
            + proposed[i - 1]);
    }
}

/// Versions rise by one per proposal across any mix of calls. Over a run of calls
/// on an engine fresh from [`RuleEngine::new`], call `i` takes the engine from
/// `engines[i]` to `engines[i + 1]`, makes `proposed[i]` proposals and hands back
/// the versions `returned[i]`: an `evaluate` makes one proposal when its result is
/// `Some` and returns that result's version, and none otherwise; a `set_cycle`
/// makes none; a `process_events` makes one per update its events call for and
/// returns all their versions in autonomous mode and none in the other modes. Then
/// before call `i` the next version is one more than the number of proposals made
/// so far, the `a`-th version handed back by call `i` is that number plus `a`, and
/// every version handed back is greater than every one handed back by an earlier
/// call, so no version is ever handed out twice.
pub proof fn law_versions_across_calls(
    engines: Seq<RuleEngine>,
    proposed: Seq<nat>,
    returned: Seq<Seq<u64>>,
)
    requires
        engines.len() == proposed.len() + 1,
        returned.len() == proposed.len(),
        engines[0].spec_next_version() == 1,
        forall|i: int|
            0 <= i < proposed.len() ==> #[trigger] engines[i + 1].spec_next_version()
                == engines[i].spec_next_version() + proposed[i],
        forall|i: int|
            0 <= i < returned.len() ==> #[trigger] returned[i].len() == 0 || returned[i].len()
                == proposed[i],
        forall|i: int, a: int|
            0 <= i < returned.len() && 0 <= a < returned[i].len() ==> #[trigger] returned[i][a]
                == engines[i].spec_next_version() + a,
    ensures
        forall|i: int|
            0 <= i <= proposed.len() ==> #[trigger] engines[i].spec_next_version() == 1
                + proposed_before(proposed, i),
        forall|i: int, a: int|
            0 <= i < returned.len() && 0 <= a < returned[i].len() ==> #[trigger] returned[i][a]
                == 1 + proposed_before(proposed, i) + a,
        forall|i: int, j: int, a: int, b: int|
            0 <= i < j < returned.len() && 0 <= a < returned[i].len() && 0 <= b
                < returned[j].len() ==> #[trigger] returned[i][a] < #[trigger] returned[j][b],
{
    assert forall|i: int| 0 <= i <= proposed.len() implies #[trigger] engines[i].spec_next_version()
        == 1 + proposed_before(proposed, i) by {
        lemma_next_version_counts(engines, proposed, i);
    }
    assert forall|i: int, a: int|
        0 <= i < returned.len() && 0 <= a < returned[i].len() implies #[trigger] returned[i][a]
        == 1 + proposed_before(proposed, i) + a by {
        lemma_next_version_counts(engines, proposed, i);
    }
    assert forall|i: int, j: int, a: int, b: int|
        0 <= i < j < returned.len() && 0 <= a < returned[i].len() && 0 <= b
            < returned[j].len() implies #[trigger] returned[i][a] < #[trigger] returned[j][b] by {
        lemma_next_version_counts(engines, proposed, i);
        lemma_next_version_counts(engines, proposed, j);
        lemma_proposed_before_grows(proposed, i, j);
        assert(returned[i].len() == proposed[i]);
    }
}

/// Every update an event calls for acts on what the event names: an escalated
/// congestion warning raises the priority of the congested topic to the
/// recommended one, and an unescalated one warns with its text; a throttle
/// throttles the throttled topic to its interval; a failover is created for the
/// failed node along its backup route; an anomaly raises an alert at its level
/// with its text; a degraded node raises a warning whose text names the node; and
/// an applied policy calls for nothing.
pub proof fn law_updates_act_on_the_event_subject(e: AgentEvent)
    ensures
        e matches AgentEvent::CongestionWarning { topic, escalate, recommended_priority, warning }
            ==> if escalate {
            rule_of(e) matches Some(PolicyView::UpdateQoS { topic: t, new_priority: p }) && t
                == topic.0@ && p == recommended_priority
        } else {
            rule_of(e) matches Some(PolicyView::Alert { level, message }) && level
                == AlertLevel::Warning && message == warning@
        },
        e matches AgentEvent::ThrottleApplied { topic, new_interval_ms } ==> rule_of(e) matches Some(
            PolicyView::ThrottleTopic { topic: t, new_interval_ms: ms },
        ) && t == topic.0@ && ms == new_interval_ms,
        e matches AgentEvent::FailoverActivated { failed_node, backup_route } ==> rule_of(e) matches Some(
            PolicyView::CreateFailover { failed_node: f, backup_route: r },
        ) && f == failed_node.0@ && r == route_view(backup_route@),
        e matches AgentEvent::AnomalyDetected { topic, level, message } ==> rule_of(e) matches Some(
            PolicyView::Alert { level: l, message: m },
        ) && l == level && m == message@,
        e matches AgentEvent::NodeDegraded { node_id } ==> rule_of(e) matches Some(
            PolicyView::Alert { level, message },
        ) && level == AlertLevel::Warning && message.len() == node_id.0@.len() + 14
            && message.subrange(5, 5 + node_id.0@.len() as int) == node_id.0@,
        e is PolicyApplied <==> rule_of(e) is None,
{
    if let AgentEvent::NodeDegraded { node_id } = e {
        let id = node_id.0@;
        let m = degraded_message(id);
        assert(m.subrange(5, 5 + id.len() as int) =~= id);
    }
}

} // verus!
