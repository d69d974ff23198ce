use rox::api::{health, list_topics};
use rox::types::PeerConfig;

#[test]
fn health_and_topics() {
    let h = health("0.1.0");
    assert_eq!(h.status, "ok");
    assert_eq!(h.version, "0.1.0");
    let topics = list_topics(&vec!["robot/lidar/scan".to_string(), "_global/map".to_string()]);
    assert_eq!(topics.len(), 2);
    assert_eq!(topics[0].key, "robot/lidar/scan");
    assert_eq!(topics[1].key, "_global/map");
    assert!(list_topics(&Vec::new()).is_empty());
    let peer = PeerConfig { addr: "10.0.0.2:7447".to_string(), topics: Vec::new() };
    assert!(peer.topics.is_empty());
}
