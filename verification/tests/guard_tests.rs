use rox::watchdog::GuardWatchdog;
use std::time::{Duration, Instant};

#[test]
fn test_watchdog_alive() {
    let mut wd = GuardWatchdog::new(100, 500);
    wd.heartbeat();
    assert!(wd.is_alive());
    assert!(!wd.check_timeout());
}

#[test]
fn test_watchdog_timeout() {
    let mut wd = GuardWatchdog::new(100, 10);
    wd.last_heartbeat = Instant::now() - Duration::from_millis(20);
    assert!(!wd.is_alive());
    assert!(wd.check_timeout());
}

#[test]
fn watchdog_counters() {
    let mut wd = GuardWatchdog::new(100, 10);
    assert_eq!(wd.interval(), Duration::from_millis(100));
    assert_eq!(wd.total_heartbeats(), 0);
    assert!(wd.check_timeout_after(10_000_000));
    assert!(wd.check_timeout_after(20_000_000));
    assert!(!wd.check_timeout_after(9_999_999));
    assert_eq!(wd.missed_count(), 2);
    assert!(wd.is_alive_after(9_999_999));
    assert!(!wd.is_alive_after(10_000_000));
    wd.heartbeat();
    assert_eq!(wd.missed_count(), 0);
    assert_eq!(wd.total_heartbeats(), 1);
    assert!(wd.time_since_heartbeat() < Duration::from_secs(60));
}

#[test]
fn watchdog_interval_splits_into_seconds_and_nanos() {
    let wd = GuardWatchdog::new(2_569, 10);
    assert_eq!(wd.interval(), Duration::new(2, 569_000_000));
    assert_eq!(wd.interval().as_nanos(), 2_569_000_000);
}
