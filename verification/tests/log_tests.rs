use bytes::Bytes;
use rox::keyexpr::KeyExpr;
use rox::log::{LogEntry, LogEntryType, LogError, LogReader, RoxLogger};
use rox::message::RoxMessage;
use rox::types::NodeId;

#[test]
fn test_logger_basic() {
    let mut logger = RoxLogger::new();

    let msg = RoxMessage::new(
        KeyExpr::new("robot-01", "lidar", "scan"),
        NodeId("driver".to_string()),
        0,
        Bytes::from(vec![1, 2, 3]),
    );

    logger.record_message(&msg);
    logger.record_cycle_complete(0);
    let bytes = logger.take_output();

    assert!(bytes.starts_with(b"RLOG\x01"));
    assert_eq!(logger.sequence(), 1);
}

#[test]
fn test_write_read_roundtrip() {
    // Write
    let bytes = {
        let mut logger = RoxLogger::new();
        let msg = RoxMessage::new(
            KeyExpr::new("robot-01", "lidar", "scan"),
            NodeId("driver".to_string()),
            0,
            Bytes::from(vec![10, 20, 30]),
        );
        logger.record_message(&msg);
        logger.record_cycle_complete(0);
        logger.take_output()
    };

    // Read
    let mut reader = LogReader::open(bytes).unwrap();
    let entries = reader.read_all().unwrap();
    assert_eq!(entries.len(), 2);

    match &entries[0] {
        LogEntry::Message { sequence, cycle, message } => {
            assert_eq!(*sequence, 0);
            assert_eq!(*cycle, 0);
            assert_eq!(message.header.key.as_str(), "robot-01/lidar/scan");
            assert_eq!(message.payload.as_ref(), &[10, 20, 30]);
        }
        _ => panic!("expected Message entry"),
    }

    match &entries[1] {
        LogEntry::CycleComplete { cycle } => assert_eq!(*cycle, 0),
        _ => panic!("expected CycleComplete entry"),
    }
}

#[test]
fn message_entry_layout() {
    let mut logger = RoxLogger::new();
    let mut msg = RoxMessage::new(KeyExpr("a/b".to_string()), NodeId("n".to_string()), 7, Bytes::from(vec![9]));
    msg.header.timestamp.hw_time = 0x0102;
    logger.record_message(&msg);
    let bytes = logger.take_output();
    let mut expected: Vec<u8> = b"RLOG\x01".to_vec();
    expected.push(LogEntryType::Message.code());
    expected.extend_from_slice(&0u64.to_le_bytes());
    expected.extend_from_slice(&0u64.to_le_bytes());
    expected.extend_from_slice(&3u16.to_le_bytes());
    expected.extend_from_slice(b"a/b");
    expected.extend_from_slice(&0x0102u64.to_le_bytes());
    expected.extend_from_slice(&7u64.to_le_bytes());
    expected.extend_from_slice(&1u32.to_le_bytes());
    expected.push(9);
    assert_eq!(bytes, expected);
    assert!(logger.take_output().is_empty());
}

#[test]
fn policies_and_cycles_are_read_back() {
    let mut logger = RoxLogger::new();
    logger.record_policy_applied(4, &[1, 2, 3, 4]);
    logger.record_cycle_complete(4);
    let msg = RoxMessage::new(KeyExpr("x/y/z".to_string()), NodeId("n".to_string()), 0, Bytes::new());
    logger.record_message(&msg);
    let mut reader = LogReader::open(logger.take_output()).unwrap();
    match reader.next_entry().unwrap().unwrap() {
        LogEntry::PolicyApplied { sequence, cycle, data } => {
            assert_eq!(sequence, 0);
            assert_eq!(cycle, 4);
            assert_eq!(data, vec![1, 2, 3, 4]);
        }
        _ => panic!("expected PolicyApplied"),
    }
    assert!(matches!(reader.next_entry().unwrap(), Some(LogEntry::CycleComplete { cycle: 4 })));
    match reader.next_entry().unwrap().unwrap() {
        LogEntry::Message { sequence, cycle, message } => {
            assert_eq!(sequence, 1);
            assert_eq!(cycle, 5);
            assert_eq!(message.header.source_id.0, "replay");
            assert_eq!(message.header.sequence, 1);
        }
        _ => panic!("expected Message"),
    }
    assert!(reader.next_entry().unwrap().is_none());
    assert_eq!(reader.entries_read(), 3);
}

#[test]
fn malformed_logs_are_refused() {
    assert_eq!(LogReader::open(b"RLO".to_vec()).err(), Some(LogError::Truncated));
    assert_eq!(LogReader::open(b"NOT_A_LOG_FILE".to_vec()).err(), Some(LogError::InvalidMagic));
    assert_eq!(LogReader::open(b"RLOG".to_vec()).err(), Some(LogError::Truncated));
    assert_eq!(LogReader::open(b"RLOG\x02".to_vec()).err(), Some(LogError::UnsupportedVersion(2)));
    let mut r = LogReader::open(b"RLOG\x01\x09".to_vec()).unwrap();
    assert_eq!(r.read_all().err(), Some(LogError::UnknownEntryType(9)));
    let mut r = LogReader::open(b"RLOG\x01\x03\x01\x02".to_vec()).unwrap();
    assert_eq!(r.next_entry().err(), Some(LogError::Truncated));
    let mut bad_key = b"RLOG\x01\x01".to_vec();
    bad_key.extend_from_slice(&[0u8; 16]);
    bad_key.extend_from_slice(&1u16.to_le_bytes());
    bad_key.push(0xff);
    let mut r = LogReader::open(bad_key).unwrap();
    assert_eq!(r.next_entry().err(), Some(LogError::InvalidKeyUtf8));
}
