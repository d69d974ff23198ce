use rox::config::{
    default_api_bind, default_audit_path, default_tcp_bind, DiscoveryConfig, LoggingConfig,
    ShmConfig, TcpConfig,
};
use bytes::Bytes;
use rox::keyexpr::KeyExpr;
use rox::message::{RoxMessage, RoxTimestamp};
use rox::types::{Durability, NodeId, Priority, QoSMetadata, Reliability};
use rox::wire::{WireDecoder, WireEncoder, WireError};

#[test]
fn test_timestamp_now() {
    let ts = RoxTimestamp::now(42);
    assert!(ts.hw_time > 0);
    assert_eq!(ts.logical_time, 42);
}

#[test]
fn test_message_creation() {
    let msg = RoxMessage::new(
        KeyExpr::new("robot-01", "lidar", "scan"),
        NodeId("lidar_driver".to_string()),
        0,
        Bytes::from(vec![1u8, 2, 3]),
    );
    assert_eq!(msg.payload_len(), 3);
    assert_eq!(msg.header.sequence, 0);
    assert_eq!(msg.header.key.robot_id(), Some("robot-01"));
}

#[test]
fn test_message_with_qos() {
    let msg = RoxMessage::new(
        KeyExpr::new("robot-01", "motor", "cmd"),
        NodeId("planner".to_string()),
        1,
        Bytes::new(),
    )
    .with_qos(QoSMetadata {
        priority: Priority::Highest,
        reliability: Reliability::Reliable,
        durability: Durability::Volatile,
        deadline_us: Some(10_000),
        lifespan_us: None,
    });
    assert_eq!(msg.header.qos.priority, Priority::Highest);
    assert_eq!(msg.header.qos.reliability, Reliability::Reliable);
}

#[test]
fn expiry() {
    let mut msg = RoxMessage::new(KeyExpr::global("t"), NodeId("n".to_string()), 0, Bytes::new());
    assert!(!msg.header.is_expired());
    msg.header.timestamp.hw_time = 1_000_000_000;
    assert!(!msg.header.is_expired_at(u64::MAX));
    // A lifespan alone does not make a message expire: only its deadline does.
    msg.header.qos.lifespan_us = Some(500);
    assert!(!msg.header.is_expired_at(1_000_501));
    assert!(!msg.header.is_expired());
}

#[test]
fn expiry_by_deadline() {
    let mut msg = RoxMessage::new(KeyExpr::global("t"), NodeId("n".to_string()), 0, Bytes::new());
    msg.header.timestamp.hw_time = 1_000_000_000;
    msg.header.qos.deadline_us = Some(200);
    assert!(!msg.header.is_expired_at(1_000_200));
    assert!(msg.header.is_expired_at(1_000_201));
    assert!(!msg.header.is_expired_at(0));
    assert!(msg.header.is_expired());
}

#[test]
fn test_roundtrip() {
    let msg = RoxMessage::new(
        KeyExpr::new("robot-01", "lidar", "scan"),
        NodeId("driver".to_string()),
        42,
        Bytes::from(vec![1, 2, 3, 4, 5]),
    )
    .with_qos(QoSMetadata {
        priority: Priority::High,
        reliability: Reliability::Reliable,
        durability: Durability::TransientLocal,
        deadline_us: Some(10_000),
        lifespan_us: Some(5_000_000),
    });

    let encoded = WireEncoder::encode(&msg).unwrap();
    let decoded = WireDecoder::decode(encoded).unwrap();

    assert_eq!(decoded.header.key.as_str(), "robot-01/lidar/scan");
    assert_eq!(decoded.header.source_id.0, "driver");
    assert_eq!(decoded.header.sequence, 42);
    assert_eq!(decoded.header.qos.priority, Priority::High);
    assert_eq!(decoded.header.qos.reliability, Reliability::Reliable);
    assert_eq!(decoded.header.qos.durability, Durability::TransientLocal);
    assert_eq!(decoded.header.qos.deadline_us, Some(10_000));
    assert_eq!(decoded.header.qos.lifespan_us, Some(5_000_000));
    assert_eq!(decoded.payload.as_ref(), &[1, 2, 3, 4, 5]);
}

#[test]
fn test_empty_payload() {
    let msg = RoxMessage::new(KeyExpr::global("status"), NodeId("monitor".to_string()), 0, Bytes::new());

    let encoded = WireEncoder::encode(&msg).unwrap();
    let decoded = WireDecoder::decode(encoded).unwrap();

    assert_eq!(decoded.header.key.as_str(), "_global/status");
    assert!(decoded.payload.is_empty());
}

#[test]
fn test_invalid_magic() {
    let data = Bytes::from(vec![0, 0, 0, 0]);
    assert!(WireDecoder::decode(data).is_err());
}

#[test]
fn test_oversized_payload_rejected() {
    let msg = RoxMessage::new(KeyExpr::global("test"), NodeId("node".to_string()), 0, Bytes::from(vec![0u8; 10]));
    let mut buf = WireEncoder::encode(&msg).unwrap().to_vec();
    let payload_offset = buf.len() - 10 - 4;
    buf[payload_offset..payload_offset + 4].copy_from_slice(&(100_000_000u32).to_le_bytes());

    let result = WireDecoder::decode(Bytes::from(buf));
    assert!(matches!(result, Err(WireError::PayloadTooLarge(100_000_000))));
}

#[test]
fn frame_layout_and_errors() {
    let msg = RoxMessage::new(KeyExpr("k".to_string()), NodeId("s".to_string()), 7, Bytes::from(vec![9]));
    let buf = WireEncoder::encode(&msg).unwrap().to_vec();
    assert_eq!(&buf[0..4], b"ROX\0");
    assert_eq!(buf[4], 1);
    assert_eq!(buf[5], 0);
    // header length: 2 + 1 + 16 + 3 + 16 + 2 + 1 + 8
    assert_eq!(u16::from_le_bytes([buf[6], buf[7]]), 49);
    assert_eq!(buf.len(), 10 + 1 + 37 + 1 + 12 + 1);
    assert_eq!(buf[buf.len() - 1], 9);

    assert!(matches!(WireDecoder::decode(Bytes::from(vec![1, 2])), Err(WireError::InsufficientMagic)));
    assert!(matches!(WireDecoder::decode(Bytes::from(b"ROX\x00\x02".to_vec())), Err(WireError::UnsupportedVersion(2))));
    assert!(WireDecoder::try_decode(&b"ROX\x00".to_vec()).is_none());
    assert!(WireDecoder::try_decode(&b"ROX\x00\x01\x00".to_vec()).is_none());

    let mut short = buf.clone();
    short.truncate(buf.len() - 1);
    assert!(matches!(
        WireDecoder::decode(Bytes::from(short)),
        Err(WireError::InsufficientPayload { expected: 1, remaining: 0 })
    ));

    let mut bad_key = buf.clone();
    bad_key[10] = 0xff;
    assert!(matches!(WireDecoder::decode(Bytes::from(bad_key)), Err(WireError::InvalidKeyUtf8)));

    let mut unknown_priority = buf.clone();
    unknown_priority[10 + 1 + 16] = 200;
    let d = WireDecoder::decode(Bytes::from(unknown_priority)).unwrap();
    assert_eq!(d.header.qos.priority, Priority::Normal);
}

#[test]
fn config_defaults() {
    assert_eq!(default_tcp_bind(), "0.0.0.0:7447");
    assert_eq!(default_api_bind(), "0.0.0.0:9090");
    assert_eq!(default_audit_path(), "./logs/audit/");
    assert_eq!(TcpConfig::default().bind, "0.0.0.0:7447");
    assert!(!TcpConfig::default().tls);
    assert_eq!(ShmConfig::default().pool_size_mb, 0);
    assert!(DiscoveryConfig::default().mode.is_empty());
    assert_eq!(LoggingConfig::default().rotation_mb, 0);
}
