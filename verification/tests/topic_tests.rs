use bytes::Bytes;
use std::sync::Arc;

use rox::keyexpr::KeyExpr;
use rox::message::RoxMessage;
use rox::topic::TopicManager;
use rox::types::{NodeId, QoSMetadata, Reliability};

#[test]
fn test_publish_subscribe() {
    let mut manager = TopicManager::new();
    let key = KeyExpr::new("robot-01", "lidar", "scan");

    let tx = manager.publish(&key, QoSMetadata::default());
    let mut rx = manager.subscribe(&key);

    let msg = Arc::new(RoxMessage::new(
        key.clone(),
        NodeId("driver".to_string()),
        0,
        Bytes::from(vec![1, 2, 3]),
    ));

    tx.send(msg.clone()).unwrap();
    let received = rx.try_recv().unwrap();
    assert_eq!(received.header.key.as_str(), "robot-01/lidar/scan");
}

#[test]
fn test_topic_lifecycle() {
    let mut manager = TopicManager::new();
    let key = KeyExpr::new("robot-01", "motor", "cmd");

    assert_eq!(manager.topic_count(), 0);

    let _tx = manager.publish(&key, QoSMetadata::default());
    assert_eq!(manager.topic_count(), 1);
    assert!(manager.has_topic(&key));

    manager.unpublish(&key);
    assert_eq!(manager.topic_count(), 0);
}

#[test]
fn test_list_topics() {
    let mut manager = TopicManager::new();

    let k1 = KeyExpr::new("robot-01", "lidar", "scan");
    let k2 = KeyExpr::new("robot-01", "motor", "cmd");

    let _tx1 = manager.publish(&k1, QoSMetadata::default());
    let _tx2 = manager.publish(&k2, QoSMetadata::default());

    let topics = manager.list_topics();
    assert_eq!(topics.len(), 2);
}

#[test]
fn test_inject_creates_topic_and_delivers() {
    let mut manager = TopicManager::new();
    let key = KeyExpr::new("robot-02", "arm", "joint");

    // Subscribe first
    let mut rx = manager.subscribe(&key);

    // Inject a message (simulating remote transport delivery)
    let msg = Arc::new(RoxMessage::new(
        key.clone(),
        NodeId("remote-node".to_string()),
        7,
        Bytes::from(vec![0xAB, 0xCD]),
    ));
    let receivers = manager.inject(msg.clone());
    assert_eq!(receivers, 1);

    // Verify subscriber received it
    let received = rx.try_recv().unwrap();
    assert_eq!(received.header.key.as_str(), "robot-02/arm/joint");
    assert_eq!(received.header.source_id.0, "remote-node");
    assert_eq!(received.payload.as_ref(), &[0xAB, 0xCD]);
}

#[test]
fn test_inject_auto_creates_topic() {
    let mut manager = TopicManager::new();
    let key = KeyExpr::new("robot-03", "gripper", "force");

    assert!(!manager.has_topic(&key));

    // Inject before any subscriber — topic auto-created, message dropped (no receivers)
    let msg = Arc::new(RoxMessage::new(
        key.clone(),
        NodeId("remote".to_string()),
        0,
        Bytes::from(vec![1]),
    ));
    let receivers = manager.inject(msg);
    assert_eq!(receivers, 0);
    assert!(manager.has_topic(&key));
}

#[test]
fn counts_and_qos() {
    let mut manager = TopicManager::with_capacity(4);
    let key = KeyExpr::new("r", "s", "t");
    let qos = QoSMetadata { reliability: Reliability::Reliable, ..QoSMetadata::default() };
    let _a = manager.publish(&key, qos);
    let _b = manager.publish(&key, QoSMetadata::default());
    let _rx = manager.subscribe(&key);
    assert_eq!(manager.subscriber_count(&key), 1);
    assert_eq!(manager.get_qos(&key).unwrap().reliability, Reliability::Reliable);
    manager.unpublish(&key);
    manager.unpublish(&key);
    // A subscriber keeps the topic alive.
    assert!(manager.has_topic(&key));
    assert_eq!(manager.subscriber_count(&KeyExpr::new("x", "y", "z")), 0);
    assert!(manager.get_qos(&KeyExpr::new("x", "y", "z")).is_none());
    let subscribed_only = KeyExpr::new("q", "w", "e");
    let _rx2 = manager.subscribe(&subscribed_only);
    assert_eq!(manager.get_qos(&subscribed_only), Some(QoSMetadata::default()));
}

#[test]
fn message_bus_delivers() {
    let (tx, mut rx) = rox::topic::new_message_bus();
    let msg = Arc::new(RoxMessage::new(
        KeyExpr::global("bus"),
        NodeId("n".to_string()),
        3,
        Bytes::from(vec![4]),
    ));
    assert_eq!(tx.send(msg).unwrap(), 1);
    assert_eq!(rx.try_recv().unwrap().header.sequence, 3);
}

#[test]
fn a_second_publisher_reaches_existing_subscribers() {
    let mut manager = TopicManager::new();
    let key = KeyExpr::new("robot-01", "motor", "cmd");
    let _first = manager.publish(&key, QoSMetadata::default());
    let mut rx = manager.subscribe(&key);
    let second = manager.publish(&key, QoSMetadata::default());
    let msg = Arc::new(RoxMessage::new(key.clone(), NodeId("p2".to_string()), 9, Bytes::new()));
    assert_eq!(second.send(msg).unwrap(), 1);
    assert_eq!(rx.try_recv().unwrap().header.sequence, 9);
}
