use rox::engine::{context_topics, ExecutionStates};
use rox::graph::TaskGraph;
use rox::types::ConnectionConfig;

fn conn(from: &str, to: &str) -> ConnectionConfig {
    ConnectionConfig { from: from.to_string(), to: to.to_string(), qos: None }
}

#[test]
fn rate_limited_nodes_run_every_interval() {
    // A node at 10 Hz on a 100 Hz base runs every 10 cycles.
    let mut states = ExecutionStates::new();
    states.track("logger", 10);
    let mut ran = Vec::new();
    for cycle in 0..25u64 {
        if states.should_execute("logger", cycle) {
            ran.push(cycle);
            states.mark_executed("logger", cycle);
        }
    }
    assert_eq!(ran, vec![0, 10, 20]);
    // An untracked node runs every cycle.
    assert!(states.should_execute("counter", 7));
    states.mark_executed("counter", 7);
    assert!(states.should_execute("counter", 8));
}

#[test]
fn node_contexts_follow_connections() {
    let nodes = vec!["a".to_string(), "b".to_string(), "c".to_string()];
    let graph = TaskGraph::build(&nodes, &vec![conn("a/out", "b/in"), conn("b/out", "c/in")]).unwrap();
    let (pubs, subs) = context_topics(&graph, "b");
    assert_eq!(pubs, vec!["b/c".to_string()]);
    assert_eq!(subs, vec!["a/b".to_string()]);
    let (pubs, subs) = context_topics(&graph, "a");
    assert_eq!(pubs, vec!["a/b".to_string()]);
    assert!(subs.is_empty());
    let (pubs, subs) = context_topics(&graph, "zzz");
    assert!(pubs.is_empty() && subs.is_empty());
}
