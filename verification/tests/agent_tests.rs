use rox::keyexpr::KeyExpr;
use rox::rule_engine::RuleEngine;
use rox::types::{AgentEvent, AgentStartMode, AlertLevel, NodeId, PolicyUpdateType, Priority};
use rox::throttle::ThrottleAgent;

/// Throttles every topic over its limit. A topic that is not throttled yet has
/// interval 0, so the interval it needs is the agent's minimum.
fn evaluate(agent: &mut ThrottleAgent) -> Vec<(String, u64)> {
    let mut events = Vec::new();
    for p in agent.pending_throttles() {
        assert_eq!(p.current_interval_ms, 0);
        let new = agent.min_interval_ms();
        if agent.apply_interval(&p.topic, new) {
            events.push((p.topic.clone(), new));
        }
    }
    events
}

#[test]
fn test_no_throttle_without_limit() {
    let mut agent = ThrottleAgent::new();
    agent.observe_throughput("topic/a", 10_000_000);
    let events = evaluate(&mut agent);
    assert!(events.is_empty());
}

#[test]
fn test_throttle_when_over_limit() {
    let mut agent = ThrottleAgent::new();
    agent.set_topic_limit("topic/a", 1_000_000);
    agent.observe_throughput("topic/a", 5_000_000);

    let events = evaluate(&mut agent);
    assert_eq!(events.len(), 1);
    assert!(events[0].1 >= 10);
    assert_eq!(agent.throttle_interval("topic/a"), Some(events[0].1));
}

#[test]
fn throttle_interval_of_unknown_and_idle_topics() {
    let mut agent = ThrottleAgent::new();
    assert_eq!(agent.throttle_interval("x"), None);
    agent.set_topic_limit("x", 100);
    assert_eq!(agent.throttle_interval("x"), Some(0));
    agent.observe_throughput("x", 50);
    assert!(agent.pending_throttles().is_empty());
    agent.observe_throughput("x", 500);
    let pending = agent.pending_throttles();
    assert_eq!(pending.len(), 1);
    assert_eq!(pending[0].topic, "x");
    assert_eq!(pending[0].recent_bandwidth_bps, 500);
    assert_eq!(pending[0].target_bandwidth_bps, 100);
    assert!(agent.apply_interval("x", 10));
    assert!(!agent.apply_interval("x", 10));
    assert!(!agent.apply_interval("unknown", 10));
    assert_eq!(agent.throttle_interval("x"), Some(10));
}

#[test]
fn rule_engine_stamps() {
    let mut engine = RuleEngine::new();
    engine.set_cycle(10);
    let s1 = engine.next_stamp();
    assert_eq!(s1.version, 1);
    assert_eq!(s1.apply_at_cycle, 11);
    let s2 = engine.next_stamp();
    assert_eq!(s2.version, 2);
    assert_eq!(s2.apply_at_cycle, 11);
    let mut fresh = RuleEngine::default();
    assert_eq!(fresh.next_stamp().apply_at_cycle, 1);
}

#[test]
fn test_congestion_to_policy() {
    let mut engine = RuleEngine::new();
    engine.set_cycle(10);

    // A congestion probability of 0.95 is above 0.9, so the warning escalates.
    let event = AgentEvent::CongestionWarning {
        topic: KeyExpr("robot/lidar/scan".to_string()),
        escalate: true,
        recommended_priority: Priority::Highest,
        warning: "congestion warning on robot/lidar/scan: 95%".to_string(),
    };

    let update = engine.evaluate(&event).unwrap();
    assert_eq!(update.version, 1);
    assert_eq!(update.apply_at_cycle, 11);
    match update.update {
        PolicyUpdateType::UpdateQoS { new_priority, .. } => {
            assert_eq!(new_priority, Priority::Highest);
        }
        _ => panic!("expected UpdateQoS"),
    }
}

#[test]
fn test_anomaly_to_alert() {
    let mut engine = RuleEngine::new();

    // A severity of 0.9 is above 0.8, so the anomaly is critical.
    let event = AgentEvent::AnomalyDetected {
        topic: KeyExpr("robot/motor/cmd".to_string()),
        level: AlertLevel::Critical,
        message: "latency_spike on robot/motor/cmd (severity: 0.90)".to_string(),
    };

    let update = engine.evaluate(&event).unwrap();
    match update.update {
        PolicyUpdateType::Alert { level, .. } => {
            assert_eq!(level, AlertLevel::Critical);
        }
        _ => panic!("expected Alert"),
    }
}

#[test]
fn rule_engine_maps_every_event() {
    let mut engine = RuleEngine::new();
    let degraded = engine
        .evaluate(&AgentEvent::NodeDegraded { node_id: NodeId("arm".to_string()) })
        .unwrap();
    match degraded.update {
        PolicyUpdateType::Alert { level, message } => {
            assert_eq!(level, AlertLevel::Warning);
            assert_eq!(message, "node arm degraded");
        }
        _ => panic!("expected Alert"),
    }
    let calm = engine.evaluate(&AgentEvent::CongestionWarning {
        topic: KeyExpr("t".to_string()),
        escalate: false,
        recommended_priority: Priority::High,
        warning: "congestion warning on t: 50%".to_string(),
    });
    match calm.unwrap().update {
        PolicyUpdateType::Alert { level, message } => {
            assert_eq!(level, AlertLevel::Warning);
            assert_eq!(message, "congestion warning on t: 50%");
        }
        _ => panic!("expected Alert"),
    }
    let failover = engine
        .evaluate(&AgentEvent::FailoverActivated {
            failed_node: NodeId("b".to_string()),
            backup_route: vec![NodeId("a".to_string()), NodeId("c".to_string())],
        })
        .unwrap();
    assert_eq!(failover.version, 3);
    match failover.update {
        PolicyUpdateType::CreateFailover { failed_node, backup_route } => {
            assert_eq!(failed_node.0, "b");
            assert_eq!(backup_route.len(), 2);
            assert_eq!(backup_route[1].0, "c");
        }
        _ => panic!("expected CreateFailover"),
    }
    let throttle = engine
        .evaluate(&AgentEvent::ThrottleApplied { topic: KeyExpr("t".to_string()), new_interval_ms: 40 })
        .unwrap();
    match throttle.update {
        PolicyUpdateType::ThrottleTopic { new_interval_ms, .. } => assert_eq!(new_interval_ms, 40),
        _ => panic!("expected ThrottleTopic"),
    }
    // An applied policy calls for nothing and uses no version.
    assert!(engine
        .evaluate(&AgentEvent::PolicyApplied { version: 1, update_type: "Alert".to_string() })
        .is_none());
    assert_eq!(engine.next_stamp().version, 5);
}

#[test]
fn only_autonomous_mode_applies_policies() {
    let events = vec![
        AgentEvent::NodeDegraded { node_id: NodeId("a".to_string()) },
        AgentEvent::PolicyApplied { version: 9, update_type: "Alert".to_string() },
        AgentEvent::ThrottleApplied { topic: KeyExpr("t".to_string()), new_interval_ms: 20 },
    ];
    let mut observer = RuleEngine::new();
    assert!(observer.process_events(AgentStartMode::Observer { duration_hours: 24 }, &events).is_empty());
    // Proposals still take versions in observer mode.
    assert_eq!(observer.next_stamp().version, 3);

    let mut suggesting = RuleEngine::new();
    assert!(suggesting.process_events(AgentStartMode::Suggestion, &events).is_empty());

    let mut autonomous = RuleEngine::new();
    autonomous.set_cycle(4);
    let applied = autonomous.process_events(AgentStartMode::Autonomous, &events);
    assert_eq!(applied.len(), 2);
    assert_eq!(applied[0].version, 1);
    assert_eq!(applied[1].version, 2);
    assert_eq!(applied[1].apply_at_cycle, 5);
}

fn degraded() -> AgentEvent {
    AgentEvent::NodeDegraded { node_id: NodeId("a".to_string()) }
}

fn applied() -> AgentEvent {
    AgentEvent::PolicyApplied { version: 9, update_type: "Alert".to_string() }
}

#[test]
fn versions_rise_by_one_per_proposal_across_calls() {
    let events = vec![degraded(), applied(), degraded()];
    let mut engine = RuleEngine::new();
    assert_eq!(engine.evaluate(&degraded()).map(|u| u.version), Some(1));
    engine.set_cycle(3);
    assert!(engine.evaluate(&applied()).is_none());
    // Two proposals in observer mode: versions 2 and 3 are taken, none returned.
    assert!(engine.process_events(AgentStartMode::Observer { duration_hours: 1 }, &events).is_empty());
    let batch = engine.process_events(AgentStartMode::Autonomous, &events);
    let versions: Vec<u64> = batch.iter().map(|u| u.version).collect();
    assert_eq!(versions, vec![4, 5]);
    assert_eq!(batch[0].apply_at_cycle, 4);
    assert_eq!(engine.evaluate(&degraded()).map(|u| u.version), Some(6));
}
