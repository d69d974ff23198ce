//! The `run` command's bootstrap: from the configured node names and connections
//! to a task graph and a scheduler that runs the nodes in its execution order.
//!
//! Reading and parsing the configuration file is left to the caller.

use vstd::prelude::*;
use crate::graph::{
    conn_view, graph_edges, is_topo_order, names_of, petgraph_toposort, string_views,
    GraphError, GraphErrorView, TaskGraph,
};
use crate::scheduler::Scheduler;
use crate::types::ConnectionConfig;

verus! {

/// A bootstrapped engine: its task graph and its scheduler.
pub struct EnginePlan {
    pub graph: TaskGraph,
    pub scheduler: Scheduler,
}

/// Copies a slice of strings.
fn copy_names(names: &[String]) -> (v: Vec<String>)
    ensures
        string_views(v@) == string_views(names@),
{
    let mut v: Vec<String> = Vec::new();
    let mut i: usize = 0;
    while i < names.len()
        invariant
            i <= names.len(),
            string_views(v@) == string_views(names@.take(i as int)),
        decreases names.len() - i,
    {
        let ghost before = string_views(v@);
        v.push(names[i].clone());
        assert(string_views(v@) =~= before.push(names@[i as int]@));
        assert(names@.take(i + 1) =~= names@.take(i as int).push(names@[i as int]));
        assert(string_views(names@.take(i + 1)) =~= string_views(names@.take(i as int)).push(
            names@[i as int]@,
        ));
        i += 1;
    }
    assert(names@.take(names.len() as int) =~= names@);
    v
}

/// Bootstraps the engine for the `run` command: builds the task graph from the
/// node names (in declaration order) and connections, and a scheduler at cycle 0
/// with no policies that runs the nodes in the graph's execution order.
///
/// Fails exactly when [`TaskGraph::build`] fails, with its error.
pub fn exec_run(node_ids: &Vec<String>, connections: &Vec<ConnectionConfig>) -> (r: Result<
    EnginePlan,
    GraphError,
>)
    requires
        node_ids.len() < u32::MAX,
        connections.len() < u32::MAX,
    ensures
        ({
            let ids = string_views(node_ids@);
            let conns = connections@.map_values(|c: ConnectionConfig| conn_view(c));
            match graph_edges(ids, conns) {
                Err(e) => r matches Err(err) && err@ == e,
                Ok(es) => match petgraph_toposort(ids.len(), es) {
                    Ok(order) => r matches Ok(p) && p.graph.spec_wf() && p.graph.spec_node_ids()
                        == ids && p.graph.spec_edges() == es && p.graph.spec_order() == order
                        && p.graph.spec_execution_order() == names_of(ids, order)
                        && p.scheduler.wf() && p.scheduler.spec_cycle() == 0
                        && p.scheduler.order() == names_of(ids, order)
                        && p.scheduler.pending().len() == 0 && p.scheduler.applied().len() == 0
                        && p.scheduler.metrics().len() == 0,
                    Err(c) => r matches Err(err) && err@ == GraphErrorView::Cycle(ids[c as int])
                        && forall|o: Seq<usize>| !is_topo_order(ids.len(), es, o),
                },
            }
        }),
{
    let graph = match TaskGraph::build(node_ids, connections) {
        Ok(g) => g,
        Err(e) => return Err(e),
    };
    let order = copy_names(graph.execution_order());
    let scheduler = Scheduler::new(order);
    Ok(EnginePlan { graph, scheduler })
}

} // verus!
