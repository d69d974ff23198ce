use std::time::{Duration, Instant};

use rox::scheduler::Scheduler;
use rox::types::{AlertLevel, PolicyUpdateType, VersionedPolicyUpdate};

fn alert(version: u64, apply_at_cycle: u64) -> VersionedPolicyUpdate {
    VersionedPolicyUpdate {
        version,
        apply_at_cycle,
        update: PolicyUpdateType::Alert { level: AlertLevel::Info, message: "test".to_string() },
    }
}

#[test]
fn test_basic_cycle() {
    let order = vec!["a".to_string(), "b".to_string(), "c".to_string()];
    let mut scheduler = Scheduler::without_policy(order);

    let mut executed = Vec::new();
    let metrics = scheduler
        .run_cycle(
            Vec::new(),
            |node_id: &str, cycle: u64| {
                executed.push((node_id.to_string(), cycle));
                Ok::<(), String>(())
            },
            &Instant::now(),
        )
        .unwrap();

    assert_eq!(executed.len(), 3);
    assert_eq!(executed[0], ("a".to_string(), 0));
    assert_eq!(executed[1], ("b".to_string(), 0));
    assert_eq!(executed[2], ("c".to_string(), 0));
    assert_eq!(metrics.nodes_executed, 3);
    assert_eq!(metrics.cycle, 0);
    assert_eq!(scheduler.current_cycle(), 1);
}

#[test]
fn test_policy_application() {
    let order = vec!["node".to_string()];
    let mut scheduler = Scheduler::new(order);

    // A policy for cycle 1 arrives before cycle 0.
    let m0 = scheduler
        .run_cycle(vec![alert(1, 1)], |_: &str, _: u64| Ok::<(), String>(()), &Instant::now())
        .unwrap();
    assert_eq!(m0.policies_applied, 0);

    let m1 = scheduler
        .run_cycle(Vec::new(), |_: &str, _: u64| Ok::<(), String>(()), &Instant::now())
        .unwrap();
    assert_eq!(m1.policies_applied, 1);
}

#[test]
fn run_cycle_stops_at_the_first_failing_node() {
    let order = vec!["a".to_string(), "b".to_string(), "c".to_string()];
    let mut scheduler = Scheduler::new(order);
    let mut called = Vec::new();
    let r = scheduler.run_cycle(
        Vec::new(),
        |node_id: &str, _: u64| {
            called.push(node_id.to_string());
            if node_id == "b" { Err(format!("{node_id} failed")) } else { Ok(()) }
        },
        &Instant::now(),
    );
    assert_eq!(r.unwrap_err(), "b failed");
    assert_eq!(called, vec!["a".to_string(), "b".to_string()]);
    assert_eq!(scheduler.current_cycle(), 0);
    assert!(scheduler.recent_metrics(10).is_empty());
}

#[test]
fn prepare_cycle_orders_arrivals_before_deferred() {
    let mut scheduler = Scheduler::new(vec!["n".to_string()]);
    let plan0 = scheduler.prepare_cycle(vec![alert(1, 2), alert(2, 0), alert(3, 1)]);
    assert_eq!(plan0.cycle, 0);
    assert_eq!(plan0.policies.len(), 1);
    assert_eq!(plan0.policies[0].version, 2);
    scheduler.record_cycle(1, 1, Duration::from_millis(2));
    let plan1 = scheduler.prepare_cycle(vec![alert(4, 0)]);
    let versions: Vec<u64> = plan1.policies.iter().map(|p| p.version).collect();
    assert_eq!(versions, vec![4, 3]);
    assert_eq!(scheduler.policies_at_cycle(1).len(), 2);
    assert_eq!(scheduler.policies_at_cycle(0)[0].version, 2);
    assert!(scheduler.policies_at_cycle(7).is_empty());
    scheduler.complete_cycle(1, &Instant::now());
    let plan2 = scheduler.prepare_cycle(Vec::new());
    assert_eq!(plan2.policies.len(), 1);
    assert_eq!(plan2.policies[0].version, 1);
    assert_eq!(scheduler.execution_order(), &["n".to_string()]);
}

#[test]
fn metrics_history_and_average() {
    let mut scheduler = Scheduler::new(Vec::new());
    assert_eq!(scheduler.avg_cycle_duration(5), Duration::ZERO);
    scheduler.record_cycle(0, 0, Duration::from_millis(10));
    scheduler.record_cycle(0, 0, Duration::from_millis(20));
    scheduler.record_cycle(0, 0, Duration::from_millis(60));
    assert_eq!(scheduler.recent_metrics(2).len(), 2);
    assert_eq!(scheduler.recent_metrics(2)[0].cycle, 1);
    assert_eq!(scheduler.recent_metrics(10).len(), 3);
    assert_eq!(scheduler.avg_cycle_duration(2), Duration::from_millis(40));
    assert_eq!(scheduler.avg_cycle_duration(3), Duration::from_millis(30));
    for _ in 0..1005 {
        scheduler.record_cycle(0, 0, Duration::from_millis(1));
    }
    assert_eq!(scheduler.recent_metrics(5000).len(), 1000);
    assert_eq!(scheduler.recent_metrics(5000)[0].cycle, 8);
}
