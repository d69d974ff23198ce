use bytes::Bytes;
use rox::keyexpr::KeyExpr;
use rox::log::{LogError, RoxLogger};
use rox::message::RoxMessage;
use rox::replay::{ReplayEngine, ReplayStep};
use rox::types::NodeId;

fn lidar(i: u64) -> RoxMessage {
    RoxMessage::new(
        KeyExpr::new("robot-01", "lidar", "scan"),
        NodeId("driver".to_string()),
        i,
        Bytes::from(vec![i as u8]),
    )
}

/// Runs a replay: hands each step's item to its handler, in schedule order.
fn replay<F: FnMut(u64, &RoxMessage), P: FnMut(u64, &[u8])>(
    engine: &ReplayEngine,
    mut on_message: F,
    mut on_policy: P,
) {
    for step in engine.schedule() {
        match step {
            ReplayStep::Policy { cycle, index } => on_policy(cycle, &engine.policies_at_cycle(cycle)[index]),
            ReplayStep::Message { cycle, index } => on_message(cycle, &engine.messages_at_cycle(cycle)[index]),
        }
    }
}

#[test]
fn test_replay_roundtrip() {
    let mut logger = RoxLogger::new();
    for i in 0..3 {
        logger.record_message(&lidar(i));
        logger.record_cycle_complete(i);
    }

    let mut engine = ReplayEngine::open(logger.take_output()).unwrap();
    engine.load().unwrap();

    assert_eq!(engine.stats().total_cycles, 3);
    assert_eq!(engine.stats().total_messages, 3);

    let mut replayed_messages = Vec::new();
    replay(&engine, |cycle, msg| replayed_messages.push((cycle, msg.payload.clone())), |_, _| {});

    assert_eq!(replayed_messages.len(), 3);
    assert_eq!(replayed_messages[0].1.as_ref(), &[0]);
    assert_eq!(replayed_messages[1].1.as_ref(), &[1]);
    assert_eq!(replayed_messages[2].1.as_ref(), &[2]);
}

#[test]
fn test_replay_empty_log() {
    let mut logger = RoxLogger::new();
    let mut engine = ReplayEngine::open(logger.take_output()).unwrap();
    engine.load().unwrap();

    assert_eq!(engine.stats().total_cycles, 0);
    assert_eq!(engine.stats().total_messages, 0);
    assert_eq!(engine.stats().total_policies, 0);

    let mut count = 0u64;
    replay(&engine, |_, _| count += 1, |_, _| {});
    assert_eq!(count, 0);
}

#[test]
fn test_replay_invalid_file() {
    let result = ReplayEngine::open(b"NOT_A_LOG_FILE".to_vec());
    assert!(result.is_err());
}

#[test]
fn test_replay_with_policies() {
    let mut logger = RoxLogger::new();
    logger.record_message(&lidar(0));
    // A serialised policy update of version 1.
    let policy: Vec<u8> = 1u64.to_le_bytes().to_vec();
    logger.record_policy_applied(0, &policy);
    logger.record_cycle_complete(0);

    let mut engine = ReplayEngine::open(logger.take_output()).unwrap();
    engine.load().unwrap();
    assert_eq!(engine.stats().total_messages, 1);
    assert_eq!(engine.stats().total_policies, 1);
    assert_eq!(engine.stats().total_cycles, 1);

    let order = std::cell::RefCell::new(Vec::new());
    let mut policy_count = 0u64;
    let mut msg_count = 0u64;
    replay(
        &engine,
        |_, _| {
            msg_count += 1;
            order.borrow_mut().push("message");
        },
        |_, p| {
            assert_eq!(u64::from_le_bytes(p.try_into().unwrap()), 1);
            policy_count += 1;
            order.borrow_mut().push("policy");
        },
    );
    assert_eq!(msg_count, 1);
    assert_eq!(policy_count, 1);
    // Recorded decisions are injected at the cycle boundary, before the messages.
    assert_eq!(order.into_inner(), vec!["policy", "message"]);
}

#[test]
fn test_messages_at_cycle() {
    let mut logger = RoxLogger::new();
    for i in 0..2 {
        logger.record_message(&lidar(i));
        logger.record_cycle_complete(i);
    }

    let mut engine = ReplayEngine::open(logger.take_output()).unwrap();
    engine.load().unwrap();

    assert_eq!(engine.messages_at_cycle(0).len(), 1);
    assert_eq!(engine.messages_at_cycle(1).len(), 1);
    assert_eq!(engine.messages_at_cycle(99).len(), 0);
}

#[test]
fn test_replay_scaled_clock() {
    let mut logger = RoxLogger::new();
    logger.record_message(&lidar(0));
    logger.record_cycle_complete(0);

    let mut engine = ReplayEngine::open(logger.take_output()).unwrap();
    engine.load().unwrap();

    let mut count = 0u64;
    replay(&engine, |_, _| count += 1, |_, _| {});
    assert_eq!(count, 1);
}

#[test]
fn messages_after_the_last_cycle_are_not_replayed() {
    let mut logger = RoxLogger::new();
    logger.record_message(&lidar(0));
    logger.record_cycle_complete(0);
    logger.record_message(&lidar(1));
    let mut engine = ReplayEngine::open(logger.take_output()).unwrap();
    engine.load().unwrap();
    assert_eq!(engine.stats().total_messages, 2);
    assert_eq!(engine.messages_at_cycle(1).len(), 1);
    assert_eq!(
        engine.schedule(),
        vec![ReplayStep::Message { cycle: 0, index: 0 }]
    );
}

#[test]
fn a_log_that_breaks_off_loads_nothing() {
    let mut logger = RoxLogger::new();
    logger.record_message(&lidar(0));
    let mut bytes = logger.take_output();
    bytes.push(3);
    let mut engine = ReplayEngine::open(bytes).unwrap();
    assert_eq!(engine.load(), Err(LogError::Truncated));
    assert_eq!(engine.stats().total_messages, 0);
    assert!(engine.messages_at_cycle(0).is_empty());
}
