//! Deterministic scheduler: runs the nodes of a task graph in topological order, one
//! cycle at a time, and applies policy updates at cycle boundaries.
//!
//! Policy updates arrive on a channel that the caller drains at each cycle boundary
//! and hands to [`Scheduler::prepare_cycle`]; the caller then runs the nodes in the
//! plan's order and closes the cycle.

use vstd::prelude::*;
use std::time::{Duration, Instant};
use crate::clock::elapsed_since;
use crate::types::{versioned_view, PolicyView, VersionedPolicyUpdate};

verus! {

/// Plan for one cycle, returned by [`Scheduler::prepare_cycle`].
#[derive(Debug)]
pub struct CyclePlan {
    pub cycle: u64,
    pub execution_order: Vec<String>,
    pub policies: Vec<VersionedPolicyUpdate>,
}

/// Metrics of one cycle.
#[derive(Clone, Copy, Debug)]
pub struct CycleMetrics {
    pub cycle: u64,
    pub duration: Duration,
    pub nodes_executed: usize,
    pub policies_applied: usize,
}

/// A policy update as plain values: (version, cycle to apply at, update).
pub type PolicyEntry = (u64, u64, PolicyView);

/// The updates of `s` that are due at `cycle`, in order.
pub open spec fn due_of(s: Seq<PolicyEntry>, cycle: u64) -> Seq<PolicyEntry>
    decreases s.len(),
{
    if s.len() == 0 {
        Seq::empty()
    } else if s.last().1 <= cycle {
        due_of(s.drop_last(), cycle).push(s.last())
    } else {
        due_of(s.drop_last(), cycle)
    }
}

/// The updates of `s` that are not yet due at `cycle`, in order.
pub open spec fn later_of(s: Seq<PolicyEntry>, cycle: u64) -> Seq<PolicyEntry>
    decreases s.len(),
{
    if s.len() == 0 {
        Seq::empty()
    } else if s.last().1 > cycle {
        later_of(s.drop_last(), cycle).push(s.last())
    } else {
        later_of(s.drop_last(), cycle)
    }
}

/// The updates applied at `cycle` out of a history of (cycle, update) pairs, in order.
pub open spec fn applied_at(h: Seq<(u64, PolicyEntry)>, cycle: u64) -> Seq<PolicyEntry>
    decreases h.len(),
{
    if h.len() == 0 {
        Seq::empty()
    } else if h.last().0 == cycle {
        applied_at(h.drop_last(), cycle).push(h.last().1)
    } else {
        applied_at(h.drop_last(), cycle)
    }
}

/// Each update of `s`, paired with `cycle`.
pub open spec fn tagged(s: Seq<PolicyEntry>, cycle: u64) -> Seq<(u64, PolicyEntry)> {
    s.map_values(|e: PolicyEntry| (cycle, e))
}

/// The plain values of a list of updates.
pub open spec fn entries(s: Seq<VersionedPolicyUpdate>) -> Seq<PolicyEntry> {
    s.map_values(|u: VersionedPolicyUpdate| versioned_view(u))
}

/// The metrics history after recording `m`: the oldest entry goes once the history
/// is longer than `max`.
pub open spec fn recorded(h: Seq<CycleMetrics>, m: CycleMetrics, max: usize) -> Seq<CycleMetrics> {
    if h.push(m).len() > max {
        h.push(m).drop_first()
    } else {
        h.push(m)
    }
}

/// The nanoseconds in a duration, as `Duration::as_nanos` gives them.
pub uninterp spec fn duration_nanos(d: Duration) -> u128;

/// The duration `Duration::new(secs, nanos)` builds.
pub uninterp spec fn duration_of(secs: u64, nanos: u32) -> Duration;

/// The duration `d / n` (`Duration`'s division by a `u32`).
pub uninterp spec fn duration_div(d: Duration, n: u32) -> Duration;

/// The largest number of nanoseconds a `Duration` holds: `u64::MAX` seconds and
/// 999 999 999 nanoseconds.
pub open spec fn max_duration_nanos() -> int {
    18446744073709551615999999999
}

/// Calls `Duration::as_nanos`: the total nanoseconds, which are at most those of
/// `Duration::MAX`.
#[verifier::external_body]
fn nanos_of(d: &Duration) -> (n: u128)
    ensures
        n == duration_nanos(*d),
        n <= max_duration_nanos(),
{
    d.as_nanos()
}

/// Calls `Duration::new` with fewer than a second of nanoseconds, which does not
/// panic; the duration holds the whole seconds and the extra nanoseconds.
#[verifier::external_body]
fn make_duration(secs: u64, nanos: u32) -> (d: Duration)
    requires
        nanos < 1_000_000_000,
    ensures
        d == duration_of(secs, nanos),
        duration_nanos(d) == secs * 1_000_000_000 + nanos,
{
    Duration::new(secs, nanos)
}

/// Calls `Duration / u32`, which panics only on a zero divisor.
#[verifier::external_body]
fn divide_duration(d: Duration, n: u32) -> (q: Duration)
    requires
        n != 0,
    ensures
        q == duration_div(d, n),
{
    d / n
}

/// Calls `Duration::ZERO`: no time at all.
#[verifier::external_body]
fn zero_duration() -> (d: Duration)
    ensures
        d == duration_of(0, 0),
        duration_nanos(d) == 0,
{
    Duration::ZERO
}

/// The total nanoseconds of a list of metrics.
pub open spec fn total_nanos(m: Seq<CycleMetrics>) -> int
    decreases m.len(),
{
    if m.len() == 0 {
        0
    } else {
        total_nanos(m.drop_last()) + duration_nanos(m.last().duration)
    }
}

/// The average duration of a list of metrics, as `Duration` computes it: the sum
/// divided by the count, and zero for an empty list.
pub open spec fn average_duration(m: Seq<CycleMetrics>) -> Duration {
    if m.len() == 0 {
        duration_of(0, 0)
    } else {
        duration_div(
            duration_of(
                (total_nanos(m) / 1_000_000_000) as u64,
                (total_nanos(m) % 1_000_000_000) as u32,
            ),
            m.len() as u32,
        )
    }
}

/// Deterministic scheduler that runs nodes in cycles.
pub struct Scheduler {
    cycle: u64,
    execution_order: Vec<String>,
    policy_pending: Vec<VersionedPolicyUpdate>,
    applied_policies: Vec<(u64, VersionedPolicyUpdate)>,
    cycle_metrics: Vec<CycleMetrics>,
    max_metrics_history: usize,
}

impl Scheduler {
    /// The current cycle.
    pub closed spec fn spec_cycle(&self) -> u64 {
        self.cycle
    }

    /// The node names, in execution order.
    pub closed spec fn order(&self) -> Seq<Seq<char>> {
        self.execution_order@.map_values(|s: String| s@)
    }

    /// Updates received and not yet due, in arrival order.
    pub closed spec fn pending(&self) -> Seq<PolicyEntry> {
        entries(self.policy_pending@)
    }

    /// Updates applied so far, each with the cycle it was applied at, in order.
    pub closed spec fn applied(&self) -> Seq<(u64, PolicyEntry)> {
        self.applied_policies@.map_values(
            |p: (u64, VersionedPolicyUpdate)| (p.0, versioned_view(p.1)),
        )
    }

    /// Metrics of the most recent cycles, oldest first.
    pub closed spec fn metrics(&self) -> Seq<CycleMetrics> {
        self.cycle_metrics@
    }

    /// How many cycles of metrics are kept.
    pub closed spec fn spec_max_history(&self) -> usize {
        self.max_metrics_history
    }

    /// Well-formedness: the history holds at most the cycles it keeps, and keeps
    /// at least one.
    pub closed spec fn wf(&self) -> bool {
        &&& self.cycle_metrics@.len() <= self.max_metrics_history
        &&& 0 < self.max_metrics_history <= 1000
    }

    /// A scheduler at cycle 0 over the given order, keeping 1000 cycles of metrics.
    pub fn new(execution_order: Vec<String>) -> (s: Scheduler)
        ensures
            s.wf(),
            s.spec_cycle() == 0,
            s.order() == execution_order@.map_values(|n: String| n@),
            s.pending().len() == 0,
            s.applied().len() == 0,
            s.metrics().len() == 0,
            s.spec_max_history() == 1000,
    {
        let s = Scheduler {
            cycle: 0,
            execution_order,
            policy_pending: Vec::new(),
            applied_policies: Vec::new(),
            cycle_metrics: Vec::new(),
            max_metrics_history: 1000,
        };
        assert(s.pending() =~= Seq::<PolicyEntry>::empty());
        assert(s.applied() =~= Seq::<(u64, PolicyEntry)>::empty());
        s
    }

    /// A scheduler that receives no policies; it is [`Scheduler::new`], as policies
    /// reach a scheduler only through [`Scheduler::prepare_cycle`].
    pub fn without_policy(execution_order: Vec<String>) -> (s: Scheduler)
        ensures
            s.wf(),
            s.spec_cycle() == 0,
            s.order() == execution_order@.map_values(|n: String| n@),
            s.pending().len() == 0,
            s.applied().len() == 0,
            s.metrics().len() == 0,
            s.spec_max_history() == 1000,
    {
        Scheduler::new(execution_order)
    }

    /// The current cycle.
    pub fn current_cycle(&self) -> (c: u64)
        ensures
            c == self.spec_cycle(),
    {
        self.cycle
    }

    /// The node names, in execution order.
    pub fn execution_order(&self) -> (o: &[String])
        ensures
            o@.map_values(|s: String| s@) == self.order(),
    {
        self.execution_order.as_slice()
    }
}

impl Scheduler {
    /// Prepares a cycle: of the updates that arrived (`incoming`, in arrival order)
    /// and those still pending, the ones due at the current cycle are applied, in
    /// that order, and recorded with the cycle; the rest stay pending, the earlier
    /// pending ones first. Returns the cycle, the execution order and the updates
    /// applied.
    pub fn prepare_cycle(&mut self, incoming: Vec<VersionedPolicyUpdate>) -> (plan: CyclePlan)
        requires
            old(self).wf(),
        ensures
            final(self).wf(),
            plan.cycle == old(self).spec_cycle(),
            plan.execution_order@.map_values(|n: String| n@) == old(self).order(),
            entries(plan.policies@) == due_of(entries(incoming@), old(self).spec_cycle()) + due_of(
                old(self).pending(),
                old(self).spec_cycle(),
            ),
            final(self).applied() == old(self).applied() + tagged(
                entries(plan.policies@),
                old(self).spec_cycle(),
            ),
            final(self).pending() == later_of(old(self).pending(), old(self).spec_cycle())
                + later_of(entries(incoming@), old(self).spec_cycle()),
            final(self).spec_cycle() == old(self).spec_cycle(),
            final(self).order() == old(self).order(),
            final(self).metrics() == old(self).metrics(),
            final(self).spec_max_history() == old(self).spec_max_history(),
    {
        let c = self.cycle;
        let ghost inc = entries(incoming@);
        let ghost pend = self.pending();
        let mut policies: Vec<VersionedPolicyUpdate> = Vec::new();
        let mut later_in: Vec<VersionedPolicyUpdate> = Vec::new();
        let mut i: usize = 0;
        while i < incoming.len()
            invariant
                i <= incoming@.len(),
                inc == entries(incoming@),
                c == self.cycle,
                self.cycle == old(self).cycle,
                self.execution_order == old(self).execution_order,
                self.cycle_metrics == old(self).cycle_metrics,
                self.max_metrics_history == old(self).max_metrics_history,
                self.policy_pending == old(self).policy_pending,
                entries(policies@) == due_of(inc.take(i as int), c),
                entries(later_in@) == later_of(inc.take(i as int), c),
                self.applied() == old(self).applied() + tagged(entries(policies@), c),
            decreases incoming@.len() - i,
        {
            let u = incoming[i].clone();
            assert(inc.take(i + 1).drop_last() =~= inc.take(i as int));
            assert(inc.take(i + 1).last() == inc[i as int]);
            assert(versioned_view(u) == inc[i as int]);
            if u.apply_at_cycle <= c {
                let ghost ap0 = self.applied();
                let ghost pol0 = entries(policies@);
                self.applied_policies.push((c, u.clone()));
                policies.push(u);
                assert(entries(policies@) =~= pol0.push(inc[i as int]));
                assert(self.applied() =~= ap0.push((c, inc[i as int])));
                assert(tagged(entries(policies@), c) =~= tagged(pol0, c).push((c, inc[i as int])));
                assert(self.applied() =~= old(self).applied() + tagged(entries(policies@), c));
            } else {
                let ghost l0 = entries(later_in@);
                later_in.push(u);
                assert(entries(later_in@) =~= l0.push(inc[i as int]));
            }
            i += 1;
        }
        assert(inc.take(incoming@.len() as int) =~= inc);
        let ghost pol_in = entries(policies@);
        let mut still: Vec<VersionedPolicyUpdate> = Vec::new();
        let mut j: usize = 0;
        while j < self.policy_pending.len()
            invariant
                j <= self.policy_pending@.len(),
                pend == entries(self.policy_pending@),
                c == self.cycle,
                self.cycle == old(self).cycle,
                self.execution_order == old(self).execution_order,
                self.cycle_metrics == old(self).cycle_metrics,
                self.max_metrics_history == old(self).max_metrics_history,
                self.policy_pending == old(self).policy_pending,
                pol_in == due_of(inc, c),
                entries(later_in@) == later_of(inc, c),
                entries(policies@) == pol_in + due_of(pend.take(j as int), c),
                entries(still@) == later_of(pend.take(j as int), c),
                self.applied() == old(self).applied() + tagged(entries(policies@), c),
            decreases self.policy_pending@.len() - j,
        {
            let u = self.policy_pending[j].clone();
            assert(pend.take(j + 1).drop_last() =~= pend.take(j as int));
            assert(pend.take(j + 1).last() == pend[j as int]);
            assert(versioned_view(u) == pend[j as int]);
            if u.apply_at_cycle <= c {
                let ghost ap0 = self.applied();
                let ghost pol0 = entries(policies@);
                self.applied_policies.push((c, u.clone()));
                policies.push(u);
                assert(entries(policies@) =~= pol0.push(pend[j as int]));
                assert(self.applied() =~= ap0.push((c, pend[j as int])));
                assert(tagged(entries(policies@), c) =~= tagged(pol0, c).push((c, pend[j as int])));
                assert(self.applied() =~= old(self).applied() + tagged(entries(policies@), c));
                assert(entries(policies@) =~= pol_in + due_of(pend.take(j + 1), c));
            } else {
                let ghost s0 = entries(still@);
                still.push(u);
                assert(entries(still@) =~= s0.push(pend[j as int]));
            }
            j += 1;
        }
        assert(pend.take(self.policy_pending@.len() as int) =~= pend);
        let ghost still0 = entries(still@);
        let mut k: usize = 0;
        while k < later_in.len()
            invariant
                k <= later_in@.len(),
                entries(still@) == still0 + entries(later_in@).take(k as int),
            decreases later_in@.len() - k,
        {
            let u = later_in[k].clone();
            let ghost s0 = entries(still@);
            still.push(u);
            assert(entries(still@) =~= s0.push(entries(later_in@)[k as int]));
            assert(entries(later_in@).take(k + 1) =~= entries(later_in@).take(k as int).push(
                entries(later_in@)[k as int],
            ));
            assert(entries(still@) =~= still0 + entries(later_in@).take(k + 1));
            k += 1;
        }
        assert(entries(later_in@).take(later_in@.len() as int) =~= entries(later_in@));
        self.policy_pending = still;
        let mut order: Vec<String> = Vec::new();
        let mut m: usize = 0;
        while m < self.execution_order.len()
            invariant
                m <= self.execution_order@.len(),
                self.execution_order == old(self).execution_order,
                order@.map_values(|n: String| n@) == self.order().take(m as int),
            decreases self.execution_order@.len() - m,
        {
            let ghost o0 = order@.map_values(|n: String| n@);
            order.push(self.execution_order[m].clone());
            assert(order@.map_values(|n: String| n@) =~= o0.push(self.order()[m as int]));
            assert(self.order().take(m + 1) =~= self.order().take(m as int).push(self.order()[m as int]));
            m += 1;
        }
        assert(self.order().take(self.execution_order@.len() as int) =~= self.order());
        CyclePlan { cycle: c, execution_order: order, policies }
    }
}

impl Scheduler {
    /// Closes the current cycle with the given counts and duration: records its
    /// metrics (dropping the oldest beyond the history kept) and moves to the next
    /// cycle. Returns the metrics recorded.
    pub fn record_cycle(
        &mut self,
        nodes_executed: usize,
        policies_applied: usize,
        duration: Duration,
    ) -> (m: CycleMetrics)
        requires
            old(self).wf(),
            old(self).spec_cycle() < u64::MAX,
        ensures
            final(self).wf(),
            m == (CycleMetrics {
                cycle: old(self).spec_cycle(),
                duration,
                nodes_executed,
                policies_applied,
            }),
            final(self).metrics() == recorded(old(self).metrics(), m, old(self).spec_max_history()),
            final(self).spec_cycle() == old(self).spec_cycle() + 1,
            final(self).order() == old(self).order(),
            final(self).pending() == old(self).pending(),
            final(self).applied() == old(self).applied(),
            final(self).spec_max_history() == old(self).spec_max_history(),
    {
        let metrics = CycleMetrics { cycle: self.cycle, duration, nodes_executed, policies_applied };
        self.cycle_metrics.push(metrics);
        if self.cycle_metrics.len() > self.max_metrics_history {
            let ghost h = self.cycle_metrics@;
            self.cycle_metrics.remove(0);
            assert(self.cycle_metrics@ =~= h.drop_first());
        }
        self.cycle = self.cycle + 1;
        metrics
    }

    /// Completes a cycle: records its metrics, with the time since `cycle_start` as
    /// its duration and no policies, and moves to the next cycle. The duration is
    /// read from the clock.
    pub fn complete_cycle(&mut self, nodes_executed: usize, cycle_start: &Instant)
        requires
            old(self).wf(),
            old(self).spec_cycle() < u64::MAX,
        ensures
            final(self).wf(),
            final(self).metrics().len() > 0,
            final(self).metrics() == recorded(
                old(self).metrics(),
                final(self).metrics().last(),
                old(self).spec_max_history(),
            ),
            final(self).metrics().last().cycle == old(self).spec_cycle(),
            final(self).metrics().last().nodes_executed == nodes_executed,
            final(self).metrics().last().policies_applied == 0,
            final(self).spec_cycle() == old(self).spec_cycle() + 1,
            final(self).order() == old(self).order(),
            final(self).pending() == old(self).pending(),
            final(self).applied() == old(self).applied(),
            final(self).spec_max_history() == old(self).spec_max_history(),
    {
        let d = elapsed_since(cycle_start);
        self.record_cycle(nodes_executed, 0, d);
    }

    /// Runs one cycle: prepares it (see [`Scheduler::prepare_cycle`]), then calls
    /// `execute_node` on each node name in execution order with the cycle number,
    /// stopping at the first error, which it returns; the cycle then stays open.
    /// When every node ran, closes the cycle with the number of nodes, the number of
    /// updates applied and the time since `cycle_start` (read from the clock), and
    /// returns its metrics.
    pub fn run_cycle<E, F: FnMut(&str, u64) -> Result<(), E>>(
        &mut self,
        incoming: Vec<VersionedPolicyUpdate>,
        execute_node: F,
        cycle_start: &Instant,
    ) -> (r: Result<CycleMetrics, E>)
        requires
            old(self).wf(),
            old(self).spec_cycle() < u64::MAX,
            forall|n: &str, c: u64| call_requires(execute_node, (n, c)),
        ensures
            final(self).wf(),
            final(self).applied() == old(self).applied() + tagged(
                due_of(entries(incoming@), old(self).spec_cycle()) + due_of(
                    old(self).pending(),
                    old(self).spec_cycle(),
                ),
                old(self).spec_cycle(),
            ),
            final(self).pending() == later_of(old(self).pending(), old(self).spec_cycle())
                + later_of(entries(incoming@), old(self).spec_cycle()),
            final(self).order() == old(self).order(),
            final(self).spec_max_history() == old(self).spec_max_history(),
            match r {
                Ok(m) => {
                    &&& m.cycle == old(self).spec_cycle()
                    &&& m.nodes_executed == old(self).order().len()
                    &&& m.policies_applied == due_of(entries(incoming@), old(self).spec_cycle()).len()
                        + due_of(old(self).pending(), old(self).spec_cycle()).len()
                    &&& final(self).metrics() == recorded(
                        old(self).metrics(),
                        m,
                        old(self).spec_max_history(),
                    )
                    &&& final(self).spec_cycle() == old(self).spec_cycle() + 1
                    &&& ran_until(
                        execute_node,
                        old(self).order(),
                        old(self).spec_cycle(),
                        old(self).order().len() as int,
                    )
                },
                Err(e) => {
                    &&& final(self).metrics() == old(self).metrics()
                    &&& final(self).spec_cycle() == old(self).spec_cycle()
                    &&& exists|k: int|
                        #[trigger] failed_at(execute_node, old(self).order(), old(self).spec_cycle(), k, e)
                },
            },
    {
        broadcast use vstd::function::group_function_axioms;

        let mut run_node = execute_node;
        let plan = self.prepare_cycle(incoming);
        let ghost order = self.order();
        let ghost c = plan.cycle;
        let ghost mid = *self;
        let mut i: usize = 0;
        let mut failed: Option<E> = None;
        while i < plan.execution_order.len() && failed.is_none()
            invariant
                *self == mid,
                run_node == execute_node,
                mid.wf(),
                mid.spec_cycle() == c,
                mid.order() == order,
                mid.applied() == old(self).applied() + tagged(
                    due_of(entries(incoming@), old(self).spec_cycle()) + due_of(
                        old(self).pending(),
                        old(self).spec_cycle(),
                    ),
                    old(self).spec_cycle(),
                ),
                mid.pending() == later_of(old(self).pending(), old(self).spec_cycle())
                    + later_of(entries(incoming@), old(self).spec_cycle()),
                mid.metrics() == old(self).metrics(),
                mid.spec_max_history() == old(self).spec_max_history(),
                c == old(self).spec_cycle(),
                c < u64::MAX,
                order == old(self).order(),
                entries(plan.policies@) == due_of(entries(incoming@), old(self).spec_cycle()) + due_of(
                    old(self).pending(),
                    old(self).spec_cycle(),
                ),
                i <= plan.execution_order@.len(),
                plan.execution_order@.map_values(|n: String| n@) == order,
                c == plan.cycle,
                forall|n: &str, c: u64| call_requires(run_node, (n, c)),
                failed is None ==> ran_until(execute_node, order, c, i as int),
                failed matches Some(e) ==> failed_at(execute_node, order, c, i as int, e),
            decreases plan.execution_order@.len() - i + if failed is None {
                1int
            } else {
                0int
            },
        {
            let name = plan.execution_order[i].as_str();
            assert(name@ == order[i as int]);
            let res = run_node(name, plan.cycle);
            assert(call_ensures(run_node, (name, c), res));
            match res {
                Ok(u) => {
                    assert(res == Ok::<(), E>(()));
                    i += 1;
                },
                Err(e) => {
                    assert(res == Err::<(), E>(e));
                    assert(exists|n: &str|
                        n@ == order[i as int] && #[trigger] call_ensures(
                            run_node,
                            (n, c),
                            Err::<(), E>(e),
                        ));
                    failed = Some(e);
                },
            }
        }
        if let Some(e) = failed {
            let r: Result<CycleMetrics, E> = Err(e);
            assert(failed_at(execute_node, old(self).order(), old(self).spec_cycle(), i as int, r->Err_0));
            return r;
        }
        let d = elapsed_since(cycle_start);
        assert(entries(plan.policies@).len() == plan.policies@.len());
        let m = self.record_cycle(plan.execution_order.len(), plan.policies.len(), d);
        Ok(m)
    }

    /// The updates applied at a cycle, in the order they were applied.
    pub fn policies_at_cycle(&self, cycle: u64) -> (r: Vec<&VersionedPolicyUpdate>)
        ensures
            r@.map_values(|p: &VersionedPolicyUpdate| versioned_view(*p)) == applied_at(
                self.applied(),
                cycle,
            ),
    {
        let mut r: Vec<&VersionedPolicyUpdate> = Vec::new();
        let mut i: usize = 0;
        while i < self.applied_policies.len()
            invariant
                i <= self.applied_policies@.len(),
                r@.map_values(|p: &VersionedPolicyUpdate| versioned_view(*p)) == applied_at(
                    self.applied().take(i as int),
                    cycle,
                ),
            decreases self.applied_policies@.len() - i,
        {
            assert(self.applied().take(i + 1).drop_last() =~= self.applied().take(i as int));
            assert(self.applied().take(i + 1).last() == self.applied()[i as int]);
            if self.applied_policies[i].0 == cycle {
                let ghost r0 = r@.map_values(|p: &VersionedPolicyUpdate| versioned_view(*p));
                r.push(&self.applied_policies[i].1);
                assert(r@.map_values(|p: &VersionedPolicyUpdate| versioned_view(*p)) =~= r0.push(
                    self.applied()[i as int].1,
                ));
            }
            i += 1;
        }
        assert(self.applied().take(self.applied_policies@.len() as int) =~= self.applied());
        r
    }

    /// The metrics of the last `count` cycles kept (all of them if fewer are kept),
    /// oldest first.
    pub fn recent_metrics(&self, count: usize) -> (r: &[CycleMetrics])
        ensures
            r@ == self.metrics().subrange(
                if count >= self.metrics().len() {
                    0
                } else {
                    self.metrics().len() - count
                },
                self.metrics().len() as int,
            ),
    {
        let start = self.cycle_metrics.len().saturating_sub(count);
        vstd::slice::slice_subrange(self.cycle_metrics.as_slice(), start, self.cycle_metrics.len())
    }

    /// The average duration of the last `n` cycles kept (zero if none), as the sum
    /// of their durations divided by their count. The sum must fit in a `Duration`.
    pub fn avg_cycle_duration(&self, last_n: usize) -> (d: Duration)
        requires
            self.wf(),
            total_nanos(self.metrics().subrange(
                if last_n >= self.metrics().len() {
                    0
                } else {
                    self.metrics().len() - last_n
                },
                self.metrics().len() as int,
            )) <= max_duration_nanos(),
        ensures
            d == average_duration(
                self.metrics().subrange(
                    if last_n >= self.metrics().len() {
                        0
                    } else {
                        self.metrics().len() - last_n
                    },
                    self.metrics().len() as int,
                ),
            ),
    {
        let metrics = self.recent_metrics(last_n);
        if metrics.len() == 0 {
            return zero_duration();
        }
        let ghost ms = metrics@;
        let mut total: u128 = 0;
        let mut i: usize = 0;
        while i < metrics.len()
            invariant
                i <= metrics@.len(),
                ms == metrics@,
                total == total_nanos(ms.take(i as int)),
                total_nanos(ms) <= max_duration_nanos(),
                metrics@.len() <= 1000,
            decreases metrics@.len() - i,
        {
            assert(ms.take(i + 1).drop_last() =~= ms.take(i as int));
            proof {
                lemma_total_nanos_prefix(ms, i as int + 1);
            }
            total = total + nanos_of(&metrics[i].duration);
            i += 1;
        }
        assert(ms.take(metrics@.len() as int) =~= ms);
        let secs: u64 = (total / 1_000_000_000) as u64;
        let nanos: u32 = (total % 1_000_000_000) as u32;
        let sum = make_duration(secs, nanos);
        divide_duration(sum, metrics.len() as u32)
    }
}

/// The total of a prefix is at most the total of the whole list.
proof fn lemma_total_nanos_prefix(m: Seq<CycleMetrics>, k: int)
    requires
        0 <= k <= m.len(),
    ensures
        total_nanos(m.take(k)) <= total_nanos(m),
    decreases m.len() - k,
{
    if k < m.len() {
        lemma_total_nanos_prefix(m, k + 1);
        assert(m.take(k + 1).drop_last() =~= m.take(k));
        lemma_total_nanos_nonneg(m.take(k + 1));
    } else {
        assert(m.take(k) =~= m);
    }
}

proof fn lemma_total_nanos_nonneg(m: Seq<CycleMetrics>)
    ensures
        total_nanos(m) >= 0,
    decreases m.len(),
{
    if m.len() > 0 {
        lemma_total_nanos_nonneg(m.drop_last());
    }
}

/// No update is applied early and none is held back once due: an update taken at a
/// cycle boundary is due at that cycle, and an update kept pending is not.
pub proof fn law_updates_applied_when_due(s: Seq<PolicyEntry>, cycle: u64)
    ensures
        forall|i: int| 0 <= i < due_of(s, cycle).len() ==> #[trigger] due_of(s, cycle)[i].1 <= cycle,
        forall|i: int| 0 <= i < later_of(s, cycle).len() ==> #[trigger] later_of(s, cycle)[i].1 > cycle,
    decreases s.len(),
{
    if s.len() > 0 {
        law_updates_applied_when_due(s.drop_last(), cycle);
        let d0 = due_of(s.drop_last(), cycle);
        let l0 = later_of(s.drop_last(), cycle);
        assert forall|i: int| 0 <= i < due_of(s, cycle).len() implies #[trigger] due_of(s, cycle)[i].1
            <= cycle by {
            if i < d0.len() {
                assert(d0[i].1 <= cycle);
            }
        }
        assert forall|i: int| 0 <= i < later_of(s, cycle).len() implies #[trigger] later_of(
            s,
            cycle,
        )[i].1 > cycle by {
            if i < l0.len() {
                assert(l0[i].1 > cycle);
            }
        }
    }
}

/// A cycle boundary loses no update and invents none: what is applied and what
/// stays pending are, together, exactly the updates there were.
pub proof fn law_updates_conserved(s: Seq<PolicyEntry>, cycle: u64)
    ensures
        due_of(s, cycle).to_multiset().add(later_of(s, cycle).to_multiset()) =~= s.to_multiset(),
    decreases s.len(),
{
    broadcast use vstd::seq_lib::group_to_multiset_ensures;

    if s.len() > 0 {
        law_updates_conserved(s.drop_last(), cycle);
        assert(s =~= s.drop_last().push(s.last()));
    }
}

/// Whether the node callback completed without error for the first `k` nodes of
/// `order` at `cycle`, each called with its node's name.
pub open spec fn ran_until<E, F: FnMut(&str, u64) -> Result<(), E>>(
    f: F,
    order: Seq<Seq<char>>,
    cycle: u64,
    k: int,
) -> bool {
    forall|i: int|
        #![trigger order[i]]
        0 <= i < k ==> exists|n: &str|
            n@ == order[i] && #[trigger] call_ensures(f, (n, cycle), Ok::<(), E>(()))
}

/// Whether the node callback, after completing for the first `k` nodes of `order`
/// at `cycle`, failed with `e` on node `k`.
pub open spec fn failed_at<E, F: FnMut(&str, u64) -> Result<(), E>>(
    f: F,
    order: Seq<Seq<char>>,
    cycle: u64,
    k: int,
    e: E,
) -> bool {
    &&& 0 <= k < order.len()
    &&& ran_until(f, order, cycle, k)
    &&& exists|n: &str| n@ == order[k] && #[trigger] call_ensures(f, (n, cycle), Err::<(), E>(e))
}

} // verus!
