//! Engine decisions: which nodes run in a cycle, given their rates, and which
//! topics each node publishes and subscribes to, given the task graph.
//!
//! The engine itself (creating nodes, awaiting their ticks, the clock) runs in the
//! caller, which asks these functions at each step. Cycle intervals are derived from
//! the nodes' floating-point rates by the caller.

use vstd::prelude::*;
use crate::graph::{last_index_of, names_of, outgoing, incoming, str_views, TaskGraph};
use crate::table::{find_key, key_index, key_view, keys_distinct, lemma_key_index, lemma_store_distinct, lookup, store};

verus! {

/// Rate tracking of one node.
#[derive(Clone, Copy, Debug, PartialEq, Eq, Structural)]
pub struct NodeExecutionState {
    /// Base cycles between executions.
    pub cycle_interval: u64,
    /// The last cycle the node ran in.
    pub last_executed: u64,
}

/// Whether a node runs in `cycle`: always in cycle 0 and when it has no rate; else
/// once its interval has passed since it last ran.
pub open spec fn runs_in(state: Option<NodeExecutionState>, cycle: u64) -> bool {
    match state {
        Some(s) => cycle == 0 || cycle - s.last_executed >= s.cycle_interval,
        None => true,
    }
}

/// Per-node rate tracking.
pub struct ExecutionStates {
    states: Vec<(String, NodeExecutionState)>,
}

impl ExecutionStates {
    /// The nodes' states, in the order they were first set.
    pub closed spec fn table(&self) -> Seq<(Seq<char>, NodeExecutionState)> {
        key_view(self.states@)
    }

    /// Well-formedness: one state per node.
    pub closed spec fn wf(&self) -> bool {
        keys_distinct(self.table())
    }

    /// No node tracked.
    pub fn new() -> (s: ExecutionStates)
        ensures
            s.wf(),
            s.table().len() == 0,
    {
        let s = ExecutionStates { states: Vec::new() };
        assert(s.table() =~= Seq::<(Seq<char>, NodeExecutionState)>::empty());
        s
    }

    fn put(&mut self, node_id: &str, st: NodeExecutionState)
        requires
            old(self).wf(),
        ensures
            final(self).wf(),
            final(self).table() == store(old(self).table(), node_id@, st),
    {
        let ghost t0 = self.table();
        proof {
            lemma_key_index(t0, node_id@);
            lemma_store_distinct(t0, node_id@, st);
        }
        match find_key(&self.states, node_id) {
            Some(i) => {
                self.states.set(i, (node_id.to_owned(), st));
            },
            None => {
                self.states.push((node_id.to_owned(), st));
            },
        }
        assert(self.table() =~= store(t0, node_id@, st));
    }

    /// Starts tracking a node that runs every `cycle_interval` cycles, as if it last
    /// ran in cycle 0.
    pub fn track(&mut self, node_id: &str, cycle_interval: u64)
        requires
            old(self).wf(),
        ensures
            final(self).wf(),
            final(self).table() == store(
                old(self).table(),
                node_id@,
                NodeExecutionState { cycle_interval, last_executed: 0 },
            ),
    {
        self.put(node_id, NodeExecutionState { cycle_interval, last_executed: 0 });
    }

    /// Whether a node runs in `cycle` (see [`runs_in`]).
    pub fn should_execute(&self, node_id: &str, cycle: u64) -> (b: bool)
        requires
            lookup(self.table(), node_id@) matches Some(s) ==> s.last_executed <= cycle,
        ensures
            b == runs_in(lookup(self.table(), node_id@), cycle),
    {
        proof {
            lemma_key_index(self.table(), node_id@);
        }
        match find_key(&self.states, node_id) {
            Some(i) => {
                let st = self.states[i].1;
                if cycle == 0 {
                    return true;
                }
                cycle - st.last_executed >= st.cycle_interval
            },
            None => true,
        }
    }

    /// Records that a tracked node ran in `cycle`; an untracked node stays untracked.
    pub fn mark_executed(&mut self, node_id: &str, cycle: u64)
        requires
            old(self).wf(),
        ensures
            final(self).wf(),
            match lookup(old(self).table(), node_id@) {
                Some(s) => final(self).table() == store(
                    old(self).table(),
                    node_id@,
                    NodeExecutionState { last_executed: cycle, ..s },
                ),
                None => final(self).table() == old(self).table(),
            },
    {
        proof {
            lemma_key_index(self.table(), node_id@);
        }
        match find_key(&self.states, node_id) {
            Some(i) => {
                let st = self.states[i].1;
                self.put(node_id, NodeExecutionState { last_executed: cycle, ..st });
            },
            None => {},
        }
    }
}

/// The topics a node publishes to: `{node}/{dependent}` for each dependent.
pub open spec fn publish_topics(node: Seq<char>, dependents: Seq<Seq<char>>) -> Seq<Seq<char>> {
    dependents.map_values(|d: Seq<char>| node + seq!['/'] + d)
}

/// The topics a node subscribes to: `{dependency}/{node}` for each dependency.
pub open spec fn subscribe_topics(node: Seq<char>, dependencies: Seq<Seq<char>>) -> Seq<Seq<char>> {
    dependencies.map_values(|d: Seq<char>| d + seq!['/'] + node)
}

/// `a/b`.
fn slash_join(a: &str, b: &str) -> (s: String)
    ensures
        s@ == a@ + seq!['/'] + b@,
{
    let mut s = a.to_owned();
    s.append("/");
    s.append(b);
    proof {
        reveal_strlit("/");
    }
    assert(s@ =~= a@ + seq!['/'] + b@);
    s
}

/// The topics of a node's context, from its connections in the graph: those it
/// publishes to (one per dependent) and those it subscribes to (one per
/// dependency), in the graph's neighbour order; none for an unknown node.
pub fn context_topics(graph: &TaskGraph, node_id: &str) -> (r: (Vec<String>, Vec<String>))
    requires
        graph.spec_wf(),
    ensures
        match last_index_of(graph.spec_node_ids(), node_id@) {
            Some(idx) => r.0@.map_values(|s: String| s@) == publish_topics(
                node_id@,
                names_of(graph.spec_node_ids(), outgoing(graph.spec_edges(), idx as usize)),
            ) && r.1@.map_values(|s: String| s@) == subscribe_topics(
                node_id@,
                names_of(graph.spec_node_ids(), incoming(graph.spec_edges(), idx as usize)),
            ),
            None => r.0@.len() == 0 && r.1@.len() == 0,
        },
{
    let deps_out = graph.dependents(node_id);
    let deps_in = graph.dependencies(node_id);
    let ghost dout = str_views(deps_out@);
    let ghost din = str_views(deps_in@);
    let mut pubs: Vec<String> = Vec::new();
    let mut i: usize = 0;
    while i < deps_out.len()
        invariant
            i <= deps_out@.len(),
            dout == str_views(deps_out@),
            pubs@.map_values(|s: String| s@) == publish_topics(node_id@, dout.take(i as int)),
        decreases deps_out@.len() - i,
    {
        let ghost p0 = pubs@.map_values(|s: String| s@);
        pubs.push(slash_join(node_id, deps_out[i]));
        assert(pubs@.map_values(|s: String| s@) =~= p0.push(node_id@ + seq!['/'] + dout[i as int]));
        assert(publish_topics(node_id@, dout.take(i + 1)) =~= publish_topics(
            node_id@,
            dout.take(i as int),
        ).push(node_id@ + seq!['/'] + dout[i as int]));
        i += 1;
    }
    assert(dout.take(deps_out@.len() as int) =~= dout);
    let mut subs: Vec<String> = Vec::new();
    let mut j: usize = 0;
    while j < deps_in.len()
        invariant
            j <= deps_in@.len(),
            din == str_views(deps_in@),
            subs@.map_values(|s: String| s@) == subscribe_topics(node_id@, din.take(j as int)),
        decreases deps_in@.len() - j,
    {
        let ghost s0 = subs@.map_values(|s: String| s@);
        subs.push(slash_join(deps_in[j], node_id));
        assert(subs@.map_values(|s: String| s@) =~= s0.push(din[j as int] + seq!['/'] + node_id@));
        assert(subscribe_topics(node_id@, din.take(j + 1)) =~= subscribe_topics(
            node_id@,
            din.take(j as int),
        ).push(din[j as int] + seq!['/'] + node_id@));
        j += 1;
    }
    assert(din.take(deps_in@.len() as int) =~= din);
    proof {
        if last_index_of(graph.spec_node_ids(), node_id@) is None {
            assert(publish_topics(node_id@, dout).len() == 0);
        }
    }
    (pubs, subs)
}

/// A node that has run runs again exactly when its interval has passed, and a
/// node runs in every cycle when its interval is at most one.
pub proof fn law_rate_limiting(s: NodeExecutionState, cycle: u64)
    requires
        s.last_executed <= cycle,
    ensures
        cycle > 0 ==> (runs_in(Some(s), cycle) <==> cycle >= s.last_executed + s.cycle_interval),
        s.cycle_interval <= 1 && cycle > s.last_executed ==> runs_in(Some(s), cycle),
{
}

} // verus!
