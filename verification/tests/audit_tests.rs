use rox::audit::{genesis, verify_audit_log, AuditLink, AuditLogger};

#[test]
fn test_audit_log_integrity() {
    let mut logger = AuditLogger::new();
    let links = vec![
        logger.append_now("CommandValidated { topic: \"robot/motor/cmd\", result: \"passed\" }"),
        logger.append_now(&format!(
            "BoundaryViolation {{ node: \"motor\", field: \"velocity\", value: {:?}, limit: {:?} }}",
            5.0_f64, 2.0_f64
        )),
        logger.append_now("EmergencyStop { reason: \"test emergency\" }"),
    ];

    assert!(verify_audit_log(&links));
    assert_eq!(links.len(), 3);
    assert_eq!(logger.entries_written(), 3);
}

#[test]
fn chain_links_and_hashes() {
    let mut logger = AuditLogger::new();
    let a = logger.append(7, "GuardStarted");
    assert_eq!(a.sequence, 0);
    assert_eq!(a.prev_hash, genesis());
    assert_eq!(a.hash.len(), 64);
    let content = format!("0:7:{}:GuardStarted", genesis());
    assert_eq!(a.hash, blake3::hash(content.as_bytes()).to_hex().to_string());
    let b = logger.append(9, "GuardStopped");
    assert_eq!(b.sequence, 1);
    assert_eq!(b.prev_hash, a.hash);
    assert_eq!(
        genesis(),
        blake3::hash(b"ROX_AUDIT_GENESIS").to_hex().to_string()
    );
}

#[test]
fn tampering_breaks_the_chain() {
    let mut logger = AuditLogger::new();
    let mut links: Vec<AuditLink> = (0..3).map(|i| logger.append(i, "GuardStarted")).collect();
    assert!(verify_audit_log(&links));
    assert!(verify_audit_log(&[]));
    links[1].prev_hash = "0".repeat(64);
    assert!(!verify_audit_log(&links));
}

#[test]
fn editing_an_entry_breaks_the_trail() {
    let mut logger = AuditLogger::new();
    let mut links = vec![
        logger.append(1, "CommandValidated { topic: \"robot/motor/cmd\", result: \"passed\" }"),
        logger.append(2, "EmergencyStop { reason: \"test emergency\" }"),
    ];
    assert!(verify_audit_log(&links));
    links[0].description =
        "CommandValidated { topic: \"robot/motor/cmd\", result: \"rejected(x)\" }".to_string();
    assert!(!verify_audit_log(&links));
    links[0].description =
        "CommandValidated { topic: \"robot/motor/cmd\", result: \"passed\" }".to_string();
    assert!(verify_audit_log(&links));
    links[1].timestamp_ns = 3;
    assert!(!verify_audit_log(&links));
}
