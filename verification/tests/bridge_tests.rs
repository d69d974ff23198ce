use bytes::Bytes;
use rox::bridge::{BridgeDirection, TopicBridge, TopicMapping};
use rox::keyexpr::KeyExpr;
use rox::message::RoxMessage;
use rox::types::NodeId;

#[test]
fn test_topic_mapping() {
    let mut bridge = TopicBridge::new("ros2");

    bridge.add_mapping(TopicMapping {
        rox_topic: "robot-01/lidar/scan".to_string(),
        external_topic: "/scan".to_string(),
        direction: BridgeDirection::Bidirectional,
    });

    assert_eq!(bridge.rox_to_external("robot-01/lidar/scan"), Some("/scan"));
    assert_eq!(bridge.external_to_rox("/scan"), Some("robot-01/lidar/scan"));
}

#[test]
fn test_export_message() {
    let mut bridge = TopicBridge::new("zenoh");
    bridge.add_mapping(TopicMapping {
        rox_topic: "robot-01/motor/cmd".to_string(),
        external_topic: "zenoh/motor/cmd".to_string(),
        direction: BridgeDirection::Export,
    });

    let msg = RoxMessage::new(
        KeyExpr("robot-01/motor/cmd".to_string()),
        NodeId("planner".to_string()),
        0,
        Bytes::from(vec![1, 2, 3]),
    );

    let (topic, payload) = bridge.export_message(&msg).unwrap();
    assert_eq!(topic, "zenoh/motor/cmd");
    assert_eq!(payload.as_ref(), &[1, 2, 3]);
}

#[test]
fn test_import_message() {
    let mut bridge = TopicBridge::new("ros2");
    bridge.add_mapping(TopicMapping {
        rox_topic: "robot-01/lidar/scan".to_string(),
        external_topic: "/scan".to_string(),
        direction: BridgeDirection::Import,
    });

    let msg = bridge.import_message("/scan", Bytes::from(vec![10, 20]), 5).unwrap();

    assert_eq!(msg.header.key.as_str(), "robot-01/lidar/scan");
    assert_eq!(msg.payload.as_ref(), &[10, 20]);
    assert_eq!(msg.header.sequence, 5);
}

#[test]
fn one_way_mappings_and_counters() {
    let mut bridge = TopicBridge::new("ros2");
    bridge.add_mapping(TopicMapping {
        rox_topic: "a".to_string(),
        external_topic: "/a".to_string(),
        direction: BridgeDirection::Export,
    });
    bridge.add_mapping(TopicMapping {
        rox_topic: "b".to_string(),
        external_topic: "/b".to_string(),
        direction: BridgeDirection::Import,
    });
    assert_eq!(bridge.rox_to_external("a"), Some("/a"));
    assert_eq!(bridge.external_to_rox("/a"), None);
    assert_eq!(bridge.external_to_rox("/b"), Some("b"));
    assert_eq!(bridge.rox_to_external("b"), None);
    assert_eq!(bridge.mapping_count(), 2);
    assert_eq!(bridge.name(), "ros2");

    assert!(bridge.import_message("/unknown", Bytes::new(), 1).is_none());
    assert_eq!(bridge.messages_bridged(), 0);
    let m = bridge.import_message("/b", Bytes::from(vec![7]), 9).unwrap();
    assert_eq!(m.header.source_id.0, "bridge:ros2");
    assert_eq!(m.header.timestamp.logical_time, 9);
    assert_eq!(bridge.messages_bridged(), 1);
}

#[test]
fn later_mapping_replaces_earlier() {
    let mut bridge = TopicBridge::new("zenoh");
    bridge.add_mapping(TopicMapping {
        rox_topic: "a".to_string(),
        external_topic: "/old".to_string(),
        direction: BridgeDirection::Bidirectional,
    });
    bridge.add_mapping(TopicMapping {
        rox_topic: "a".to_string(),
        external_topic: "/new".to_string(),
        direction: BridgeDirection::Export,
    });
    assert_eq!(bridge.rox_to_external("a"), Some("/new"));
    assert_eq!(bridge.external_to_rox("/old"), Some("a"));
    assert_eq!(bridge.mapping_count(), 2);
}
