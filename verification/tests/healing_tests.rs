use rox::healing::{HealthEvent, SelfHealingAgent};
use rox::keyexpr::KeyExpr;
use rox::types::HealthStatus;

#[test]
fn test_node_degradation() {
    let mut agent = SelfHealingAgent::with_config(50, 3);
    agent.register_node("node-a");

    // Simulate failures
    for _ in 0..3 {
        agent.record_failure("node-a");
    }

    let events = agent.evaluate();
    assert_eq!(events.len(), 1);
    match &events[0] {
        HealthEvent::NodeDegraded { node_id } => {
            assert_eq!(node_id.0, "node-a");
        }
        _ => panic!("expected NodeDegraded"),
    }
}

#[test]
fn test_healthy_recovery() {
    let mut agent = SelfHealingAgent::with_config(50, 3);
    agent.register_node("node-a");

    // Degrade
    for _ in 0..3 {
        agent.record_failure("node-a");
    }
    agent.evaluate();

    // Recover: a good observation clears the failures
    agent.observe(&KeyExpr("node-a/link/status".to_string()), true);

    let events = agent.evaluate();
    assert!(events.is_empty());
    assert_eq!(agent.health("node-a").unwrap().status, HealthStatus::Healthy);
}

#[test]
fn degraded_node_with_more_failures_becomes_suspected_then_fails_when_silent() {
    let mut agent = SelfHealingAgent::with_config(50, 3);
    agent.register_node("node-b");
    for _ in 0..5 {
        agent.record_failure("node-b");
    }
    let e1 = agent.evaluate_with(&vec![false]);
    assert_eq!(e1.len(), 1);
    assert_eq!(agent.health("node-b").unwrap().status, HealthStatus::Degraded);
    let e2 = agent.evaluate_with(&vec![false]);
    assert!(e2.is_empty());
    assert_eq!(agent.health("node-b").unwrap().status, HealthStatus::Suspected);
    // Not silent long enough: stays suspected.
    let e3 = agent.evaluate_with(&vec![false]);
    assert!(e3.is_empty());
    assert_eq!(agent.health("node-b").unwrap().status, HealthStatus::Suspected);
    // Silent past the timeout: fails and is reported.
    let e4 = agent.evaluate_with(&vec![true]);
    assert_eq!(e4.len(), 1);
    match &e4[0] {
        HealthEvent::NodeFailed { node_id } => assert_eq!(node_id.0, "node-b"),
        _ => panic!("expected NodeFailed"),
    }
    // A failed node stays failed.
    let e5 = agent.evaluate_with(&vec![true]);
    assert!(e5.is_empty());
    assert_eq!(agent.health("node-b").unwrap().status, HealthStatus::Failed);
}

#[test]
fn observation_files_under_robot_or_unknown() {
    let mut agent = SelfHealingAgent::new();
    agent.observe(&KeyExpr("robot-7/lidar/scan".to_string()), false);
    agent.observe(&KeyExpr::global("map"), true);
    let r7 = agent.health("robot-7").unwrap();
    assert_eq!(r7.consecutive_failures, 1);
    assert_eq!(r7.total_messages, 1);
    let unknown = agent.health("unknown").unwrap();
    assert_eq!(unknown.consecutive_failures, 0);
    assert_eq!(unknown.total_messages, 1);
    assert!(agent.health("robot-8").is_none());
}

#[test]
fn registering_twice_keeps_the_state() {
    let mut agent = SelfHealingAgent::new();
    agent.register_node("n");
    agent.record_failure("n");
    agent.register_node("n");
    assert_eq!(agent.health("n").unwrap().consecutive_failures, 1);
}
