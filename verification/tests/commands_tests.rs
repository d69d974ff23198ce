use rox::commands::exec_run;
use rox::graph::GraphError;
use rox::types::ConnectionConfig;

fn conn(from: &str, to: &str) -> ConnectionConfig {
    ConnectionConfig { from: from.to_string(), to: to.to_string(), qos: None }
}

#[test]
fn run_bootstraps_scheduler_in_graph_order() {
    let nodes = vec!["planner".to_string(), "lidar".to_string()];
    let conns = vec![conn("lidar/scan", "planner/input")];
    let plan = exec_run(&nodes, &conns).unwrap();
    assert_eq!(plan.graph.execution_order(), &["lidar".to_string(), "planner".to_string()]);
    assert_eq!(plan.scheduler.execution_order(), plan.graph.execution_order());
    assert_eq!(plan.scheduler.current_cycle(), 0);
}

#[test]
fn run_with_no_nodes_has_empty_order() {
    let plan = exec_run(&Vec::new(), &Vec::new()).unwrap();
    assert!(plan.scheduler.execution_order().is_empty());
}

#[test]
fn run_reports_unknown_node() {
    let nodes = vec!["a".to_string()];
    let conns = vec![conn("a/out", "ghost/in")];
    match exec_run(&nodes, &conns) {
        Err(GraphError::UnknownNode(n)) => assert_eq!(n, "ghost"),
        _ => panic!("expected UnknownNode"),
    }
}

#[test]
fn run_reports_cycle() {
    let nodes = vec!["a".to_string(), "b".to_string()];
    let conns = vec![conn("a/o", "b/i"), conn("b/o", "a/i")];
    assert!(matches!(exec_run(&nodes, &conns), Err(GraphError::Cycle(_))));
}
