//! Configuration sections and their defaults.
//!
//! Fields that a configuration file may leave out take the values of the
//! `default_*` functions; a section built with `Default` takes the zero values of
//! its fields except where a section defines its own `Default`.

use vstd::prelude::*;

verus! {

/// Default shared-memory pool size, in MiB.
pub fn default_pool_size() -> (n: usize)
    ensures
        n == 256,
{
    256
}

/// Default TCP bind address.
pub fn default_tcp_bind() -> (s: String)
    ensures
        s@ == "0.0.0.0:7447"@,
{
    String::from_str("0.0.0.0:7447")
}

/// Default discovery mode.
pub fn default_discovery_mode() -> (s: String)
    ensures
        s@ == "static"@,
{
    String::from_str("static")
}

/// Default agent start mode.
pub fn default_agent_mode() -> (s: String)
    ensures
        s@ == "observer"@,
{
    String::from_str("observer")
}

/// Default observation period before leaving observer mode, in hours.
pub fn default_observation_hours() -> (n: u32)
    ensures
        n == 24,
{
    24
}

/// Default number of data points before leaving observer mode.
pub fn default_data_points() -> (n: u64)
    ensures
        n == 100_000,
{
    100_000
}

/// Default agent evaluation interval, in milliseconds.
pub fn default_agent_interval() -> (n: u64)
    ensures
        n == 100,
{
    100
}

/// Default jitter threshold, in microseconds.
pub fn default_jitter_threshold() -> (n: u64)
    ensures
        n == 500,
{
    500
}

/// Default failover timeout, in milliseconds.
pub fn default_failover_timeout() -> (n: u64)
    ensures
        n == 50,
{
    50
}

/// Default safety level.
pub fn default_safety_level() -> (s: String)
    ensures
        s@ == "qm"@,
{
    String::from_str("qm")
}

/// Default number of Guard restart attempts.
pub fn default_max_restart() -> (n: u32)
    ensures
        n == 3,
{
    3
}

/// Default cooldown between Guard restarts, in seconds.
pub fn default_restart_cooldown() -> (n: u64)
    ensures
        n == 5,
{
    5
}

/// Default policy while the Guard restarts.
pub fn default_interim_policy() -> (s: String)
    ensures
        s@ == "block_all_commands"@,
{
    String::from_str("block_all_commands")
}

/// Default heartbeat interval, in milliseconds.
pub fn default_heartbeat_interval() -> (n: u64)
    ensures
        n == 100,
{
    100
}

/// Default watchdog timeout, in milliseconds.
pub fn default_watchdog_timeout() -> (n: u64)
    ensures
        n == 500,
{
    500
}

/// Default reaction to a Guard failure.
pub fn default_on_guard_failure() -> (s: String)
    ensures
        s@ == "block_all_commands"@,
{
    String::from_str("block_all_commands")
}

/// Default reaction to a validation timeout.
pub fn default_on_validation_timeout() -> (s: String)
    ensures
        s@ == "reject"@,
{
    String::from_str("reject")
}

/// Default audit log directory.
pub fn default_audit_path() -> (s: String)
    ensures
        s@ == "./logs/audit/"@,
{
    String::from_str("./logs/audit/")
}

/// Default log rotation size, in MiB.
pub fn default_rotation_mb() -> (n: usize)
    ensures
        n == 100,
{
    100
}

/// Default log level.
pub fn default_log_level() -> (s: String)
    ensures
        s@ == "info"@,
{
    String::from_str("info")
}

/// Default log directory.
pub fn default_log_dir() -> (s: String)
    ensures
        s@ == "./logs/"@,
{
    String::from_str("./logs/")
}

/// Default REST API bind address.
pub fn default_api_bind() -> (s: String)
    ensures
        s@ == "0.0.0.0:9090"@,
{
    String::from_str("0.0.0.0:9090")
}

/// Shared-memory transport settings.
#[derive(Debug)]
pub struct ShmConfig {
    pub enabled: bool,
    pub pool_size_mb: usize,
}

impl Default for ShmConfig {
    fn default() -> (c: Self)
        ensures
            !c.enabled,
            c.pool_size_mb == 0,
    {
        ShmConfig { enabled: false, pool_size_mb: 0 }
    }
}

/// TCP transport settings.
#[derive(Debug)]
pub struct TcpConfig {
    pub bind: String,
    pub tls: bool,
}

impl Default for TcpConfig {
    fn default() -> (c: Self)
        ensures
            c.bind@ == "0.0.0.0:7447"@,
            !c.tls,
    {
        TcpConfig { bind: default_tcp_bind(), tls: false }
    }
}

/// UDP transport settings.
#[derive(Debug)]
pub struct UdpConfig {
    pub bind: String,
}

/// Transport settings.
#[derive(Debug)]
pub struct TransportConfig {
    pub shm: ShmConfig,
    pub tcp: TcpConfig,
    pub udp: Option<UdpConfig>,
}

/// Peer discovery settings.
#[derive(Debug)]
pub struct DiscoveryConfig {
    pub mode: String,
    pub peers: Vec<String>,
}

impl Default for DiscoveryConfig {
    fn default() -> (c: Self)
        ensures
            c.mode@.len() == 0,
            c.peers@.len() == 0,
    {
        DiscoveryConfig { mode: String::new(), peers: Vec::new() }
    }
}

/// QoS prediction agent settings.
#[derive(Debug)]
pub struct QosPredictionConfig {
    pub enabled: bool,
    pub level: u8,
    pub interval_ms: u64,
}

/// Self-healing agent settings.
#[derive(Debug)]
pub struct HealingConfig {
    pub enabled: bool,
    pub failover_timeout_ms: u64,
}

/// Throttling agent settings.
#[derive(Debug)]
pub struct ThrottlingConfig {
    pub enabled: bool,
}

/// Guard supervisor settings.
#[derive(Debug)]
pub struct SupervisorConfig {
    pub max_restart_attempts: u32,
    pub restart_cooldown_sec: u64,
    pub interim_policy: String,
}

/// Guard watchdog settings.
#[derive(Debug)]
pub struct WatchdogConfig {
    pub heartbeat_interval_ms: u64,
    pub timeout_ms: u64,
}

/// Guard fail-safe settings.
#[derive(Debug)]
pub struct FailsafeConfig {
    pub on_guard_failure: String,
    pub on_validation_timeout: String,
}

/// Audit log settings.
#[derive(Debug)]
pub struct AuditLogConfig {
    pub enabled: bool,
    pub path: String,
    pub rotation_mb: usize,
}

/// Logging settings.
#[derive(Debug)]
pub struct LoggingConfig {
    pub level: String,
    pub deterministic: bool,
    pub log_dir: String,
    pub rotation_mb: usize,
}

impl Default for LoggingConfig {
    fn default() -> (c: Self)
        ensures
            c.level@.len() == 0,
            !c.deterministic,
            c.log_dir@.len() == 0,
            c.rotation_mb == 0,
    {
        LoggingConfig {
            level: String::new(),
            deterministic: false,
            log_dir: String::new(),
            rotation_mb: 0,
        }
    }
}

/// REST API settings.
#[derive(Debug)]
pub struct ApiConfig {
    pub enabled: bool,
    pub bind: String,
    pub cors_origins: Vec<String>,
}

} // verus!
