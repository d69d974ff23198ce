use rox::keyexpr::{KeyExpr, KeyExprMatcher};

#[test]
fn test_exact_match() {
    let key = KeyExpr::new("robot-01", "lidar", "scan");
    assert!(key.matches("robot-01/lidar/scan"));
    assert!(!key.matches("robot-01/lidar/raw"));
}

#[test]
fn test_single_wildcard() {
    let key = KeyExpr::new("robot-01", "lidar", "scan");
    assert!(key.matches("robot-01/*/scan"));
    assert!(key.matches("*/lidar/scan"));
    assert!(key.matches("robot-01/lidar/*"));
    assert!(!key.matches("robot-01/*"));
}

#[test]
fn test_double_wildcard() {
    let key = KeyExpr::new("robot-01", "lidar", "scan");
    assert!(key.matches("robot-01/**"));
    assert!(key.matches("**"));
    assert!(key.matches("robot-01/lidar/**"));
}

#[test]
fn test_global_topic() {
    let key = KeyExpr::global("map/occupancy");
    assert!(key.matches("_global/map/occupancy"));
    assert!(key.matches("_global/**"));
    assert!(key.matches("_global/*/occupancy"));
}

#[test]
fn test_robot_id_extraction() {
    let key = KeyExpr::new("robot-01", "lidar", "scan");
    assert_eq!(key.robot_id(), Some("robot-01"));

    let global = KeyExpr::global("map");
    assert_eq!(global.robot_id(), None);
}

#[test]
fn key_string_layout() {
    assert_eq!(KeyExpr::new("r", "s", "t").as_str(), "r/s/t");
    assert_eq!(KeyExpr::global("status").as_str(), "_global/status");
}

#[test]
fn double_star_in_the_middle_and_empty_levels() {
    let key = KeyExpr::new("robot-01", "arm", "joint");
    assert!(key.matches("robot-01/**/joint"));
    assert!(key.matches("**/joint"));
    assert!(key.matches("robot-01/**/arm/joint"));
    assert!(!key.matches("robot-02/**"));
    assert!(!key.matches(""));
    assert!(!key.matches("robot-01/arm/joint/extra"));
    assert!(KeyExprMatcher::matches(&KeyExpr(String::new()), ""));
    assert!(KeyExprMatcher::matches(&KeyExpr(String::new()), "**"));
    assert!(!KeyExprMatcher::matches(&KeyExpr(String::new()), "*/*"));
}

#[test]
fn robot_id_of_keys_without_slash() {
    assert_eq!(KeyExpr("solo".to_string()).robot_id(), Some("solo"));
    assert_eq!(KeyExpr("_global".to_string()).robot_id(), None);
    assert_eq!(KeyExpr("/x".to_string()).robot_id(), Some(""));
}
