use rox::graph::{parse_endpoint, GraphError, TaskGraph};
use rox::types::ConnectionConfig;

fn test_nodes() -> Vec<String> {
    vec!["lidar_driver".to_string(), "filter".to_string(), "planner".to_string()]
}

fn conn(from: &str, to: &str) -> ConnectionConfig {
    ConnectionConfig { from: from.to_string(), to: to.to_string(), qos: None }
}

fn test_connections() -> Vec<ConnectionConfig> {
    vec![conn("lidar_driver/scan", "filter/input"), conn("filter/output", "planner/pointcloud")]
}

#[test]
fn test_build_graph() {
    let graph = TaskGraph::build(&test_nodes(), &test_connections()).unwrap();
    assert_eq!(graph.node_count(), 3);
    assert_eq!(graph.edge_count(), 2);
}

#[test]
fn test_execution_order() {
    let graph = TaskGraph::build(&test_nodes(), &test_connections()).unwrap();
    let order = graph.execution_order();

    let lidar_pos = order.iter().position(|n| n == "lidar_driver").unwrap();
    let filter_pos = order.iter().position(|n| n == "filter").unwrap();
    let planner_pos = order.iter().position(|n| n == "planner").unwrap();

    assert!(lidar_pos < filter_pos);
    assert!(filter_pos < planner_pos);
}

#[test]
fn test_dependencies() {
    let graph = TaskGraph::build(&test_nodes(), &test_connections()).unwrap();

    assert!(graph.dependencies("lidar_driver").is_empty());
    assert_eq!(graph.dependencies("filter"), vec!["lidar_driver"]);
    assert_eq!(graph.dependencies("planner"), vec!["filter"]);
}

#[test]
fn test_cycle_detection() {
    let nodes = vec!["a".to_string(), "b".to_string()];
    let connections = vec![conn("a/out", "b/in"), conn("b/out", "a/in")];

    let result = TaskGraph::build(&nodes, &connections);
    assert!(result.is_err());
    let err = result.err().unwrap();
    assert!(matches!(err, GraphError::Cycle(_)));
}

#[test]
fn dependents_most_recent_first() {
    let nodes = vec!["a".to_string(), "b".to_string(), "c".to_string()];
    let connections = vec![conn("a/x", "b/y"), conn("a/x", "c/y")];
    let graph = TaskGraph::build(&nodes, &connections).unwrap();
    assert_eq!(graph.dependents("a"), vec!["c", "b"]);
    assert_eq!(graph.dependencies("c"), vec!["a"]);
    assert!(graph.dependents("unknown").is_empty());
    let mut ids = graph.node_ids();
    ids.sort();
    assert_eq!(ids, vec!["a", "b", "c"]);
}

#[test]
fn endpoint_errors() {
    let nodes = vec!["a".to_string()];
    assert!(matches!(
        TaskGraph::build(&nodes, &vec![conn("a", "a/in")]),
        Err(GraphError::InvalidFrom(ref s)) if s == "a"
    ));
    assert!(matches!(
        TaskGraph::build(&nodes, &vec![conn("a/out", "nope")]),
        Err(GraphError::InvalidTo(ref s)) if s == "nope"
    ));
    assert!(matches!(
        TaskGraph::build(&nodes, &vec![conn("z/out", "a/in")]),
        Err(GraphError::UnknownNode(ref s)) if s == "z"
    ));
    assert!(matches!(
        TaskGraph::build(&nodes, &vec![conn("a/out", "a/in")]),
        Err(GraphError::Cycle(ref s)) if s == "a"
    ));
}

#[test]
fn endpoint_split_at_first_slash() {
    assert_eq!(
        parse_endpoint("node/port/sub"),
        Some(("node".to_string(), "port/sub".to_string()))
    );
    assert_eq!(parse_endpoint("noslash"), None);
}

#[test]
fn node_config_takes_the_last_declaration() {
    let nodes = vec!["a".to_string(), "b".to_string(), "a".to_string()];
    let graph = TaskGraph::build(&nodes, &vec![]).unwrap();
    assert_eq!(graph.node_config("a"), Some(2));
    assert_eq!(graph.node_config("b"), Some(1));
    assert_eq!(graph.node_config("z"), None);
}
