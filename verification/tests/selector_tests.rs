use rox::selector::{AgentTransportHint, TransportSelector};
use rox::types::{NodeId, TransportKind};

#[test]
fn test_default_selection() {
    let mut selector = TransportSelector::new(true);
    selector.register_local_node("local_node");
    selector.register_remote_node("remote_node");

    assert_eq!(
        selector.select(&NodeId("local_node".to_string())),
        TransportKind::SharedMemory
    );
    assert_eq!(
        selector.select(&NodeId("remote_node".to_string())),
        TransportKind::Tcp
    );
}

#[test]
fn test_agent_hint_override() {
    let mut selector = TransportSelector::new(false);
    selector.register_remote_node("target");

    // Without hint: TCP
    assert_eq!(
        selector.select(&NodeId("target".to_string())),
        TransportKind::Tcp
    );

    // With hint (confidence 0.9, above 0.7, so trusted): UDP
    selector.apply_hint(AgentTransportHint {
        target: NodeId("target".to_string()),
        recommended: TransportKind::Udp,
        confident: true,
    });
    assert_eq!(
        selector.select(&NodeId("target".to_string())),
        TransportKind::Udp
    );
}

#[test]
fn test_transport_switch() {
    let mut selector = TransportSelector::new(true);
    let target = NodeId("node".to_string());

    let report = selector.switch_transport(&target, TransportKind::Tcp, TransportKind::Udp);
    assert!(report.success);
    assert_eq!(selector.active_transport("node"), Some(TransportKind::Udp));
}

#[test]
fn switch_to_unavailable_transport_is_refused() {
    let mut selector = TransportSelector::new(false);
    let target = NodeId("node".to_string());
    let report = selector.switch_transport(&target, TransportKind::Tcp, TransportKind::SharedMemory);
    assert!(!report.success);
    assert_eq!(report.reason.as_deref(), Some("transport SharedMemory not available"));
    assert_eq!(selector.active_transport("node"), None);
}

#[test]
fn untrusted_or_unavailable_hints_are_ignored() {
    let mut selector = TransportSelector::new(false);
    selector.register_local_node("n");
    selector.apply_hint(AgentTransportHint {
        target: NodeId("n".to_string()),
        recommended: TransportKind::Udp,
        confident: false,
    });
    assert_eq!(selector.select(&NodeId("n".to_string())), TransportKind::Tcp);
    selector.apply_hint(AgentTransportHint {
        target: NodeId("n".to_string()),
        recommended: TransportKind::Quic,
        confident: true,
    });
    assert_eq!(selector.select(&NodeId("n".to_string())), TransportKind::Tcp);
    selector.clear_hints();
    assert!(selector.is_local("n"));
    assert!(!selector.is_local("m"));
}
