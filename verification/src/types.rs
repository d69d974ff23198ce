//! Shared protocol types: QoS enums, node identifiers, connection and policy
//! descriptions.

use vstd::prelude::*;
use crate::keyexpr::KeyExpr;

verus! {

/// Message priority, from most urgent (`Highest`) to least (`Lowest`).
#[derive(Clone, Copy, Debug, PartialEq, Eq, Structural)]
pub enum Priority {
    Highest,
    High,
    AboveNormal,
    Normal,
    BelowNormal,
    Low,
    Background,
    Lowest,
}

/// Delivery guarantee.
#[derive(Clone, Copy, Debug, PartialEq, Eq, Structural)]
pub enum Reliability {
    BestEffort,
    Reliable,
}

/// Whether late joiners receive earlier samples.
#[derive(Clone, Copy, Debug, PartialEq, Eq, Structural)]
pub enum Durability {
    Volatile,
    TransientLocal,
}

/// The number that stands for a priority on the wire (0 for `Highest` .. 7 for `Lowest`).
pub open spec fn priority_code(p: Priority) -> u8 {
    match p {
        Priority::Highest => 0,
        Priority::High => 1,
        Priority::AboveNormal => 2,
        Priority::Normal => 3,
        Priority::BelowNormal => 4,
        Priority::Low => 5,
        Priority::Background => 6,
        Priority::Lowest => 7,
    }
}

/// The priority a wire number stands for; unknown numbers read as `Normal`.
pub open spec fn priority_from_code(b: u8) -> Priority {
    if b == 0 {
        Priority::Highest
    } else if b == 1 {
        Priority::High
    } else if b == 2 {
        Priority::AboveNormal
    } else if b == 3 {
        Priority::Normal
    } else if b == 4 {
        Priority::BelowNormal
    } else if b == 5 {
        Priority::Low
    } else if b == 6 {
        Priority::Background
    } else if b == 7 {
        Priority::Lowest
    } else {
        Priority::Normal
    }
}

impl Priority {
    /// The wire number of this priority.
    pub fn code(self) -> (b: u8)
        ensures
            b == priority_code(self),
    {
        match self {
            Priority::Highest => 0,
            Priority::High => 1,
            Priority::AboveNormal => 2,
            Priority::Normal => 3,
            Priority::BelowNormal => 4,
            Priority::Low => 5,
            Priority::Background => 6,
            Priority::Lowest => 7,
        }
    }

    /// The priority of a wire number; numbers above 7 read as `Normal`.
    pub fn from_code(b: u8) -> (p: Priority)
        ensures
            p == priority_from_code(b),
    {
        match b {
            0 => Priority::Highest,
            1 => Priority::High,
            2 => Priority::AboveNormal,
            3 => Priority::Normal,
            4 => Priority::BelowNormal,
            5 => Priority::Low,
            6 => Priority::Background,
            7 => Priority::Lowest,
            _ => Priority::Normal,
        }
    }
}

/// QoS settings carried in every message header.
#[derive(Clone, Copy, Debug, PartialEq, Eq, Structural)]
pub struct QoSMetadata {
    pub priority: Priority,
    pub reliability: Reliability,
    pub durability: Durability,
    pub deadline_us: Option<u64>,
    pub lifespan_us: Option<u64>,
}

/// The QoS a message gets when none is given: normal priority, best effort,
/// volatile, no deadline and no lifespan.
pub open spec fn default_qos() -> QoSMetadata {
    QoSMetadata {
        priority: Priority::Normal,
        reliability: Reliability::BestEffort,
        durability: Durability::Volatile,
        deadline_us: None,
        lifespan_us: None,
    }
}

impl Default for QoSMetadata {
    fn default() -> (q: Self)
        ensures
            q == default_qos(),
    {
        QoSMetadata {
            priority: Priority::Normal,
            reliability: Reliability::BestEffort,
            durability: Durability::Volatile,
            deadline_us: None,
            lifespan_us: None,
        }
    }
}

/// Identifier of a node.
#[derive(Debug, PartialEq, Eq, Hash)]
pub struct NodeId(pub String);

impl Clone for NodeId {
    fn clone(&self) -> (n: Self)
        ensures
            n == *self,
    {
        NodeId(self.0.clone())
    }
}

/// A remote peer to connect to.
#[derive(Debug)]
pub struct PeerConfig {
    /// Peer address, such as `192.168.1.10:7447`.
    pub addr: String,
    /// Topics forwarded to the peer (empty: all).
    pub topics: Vec<String>,
}

/// The transports a message can travel over.
#[derive(Clone, Copy, Debug, PartialEq, Eq, Structural)]
pub enum TransportKind {
    SharedMemory,
    Tcp,
    Udp,
    Quic,
    Serial,
}

/// QoS settings that a connection overrides.
#[derive(Clone, Copy, Debug, PartialEq, Eq, Structural)]
pub struct QoSConfigOverride {
    pub reliability: Option<Reliability>,
    pub priority: Option<Priority>,
    pub deadline_us: Option<u64>,
}

/// A connection `from: "node/port"` to `to: "node/port"`.
#[derive(Debug)]
pub struct ConnectionConfig {
    pub from: String,
    pub to: String,
    pub qos: Option<QoSConfigOverride>,
}

impl Clone for ConnectionConfig {
    fn clone(&self) -> (c: Self)
        ensures
            c == *self,
    {
        ConnectionConfig { from: self.from.clone(), to: self.to.clone(), qos: self.qos }
    }
}

/// Severity of an alert.
#[derive(Clone, Copy, Debug, PartialEq, Eq, Structural)]
pub enum AlertLevel {
    Info,
    Warning,
    Critical,
}

/// A change of policy proposed by the agents.
#[derive(Debug)]
pub enum PolicyUpdateType {
    UpdateQoS { topic: KeyExpr, new_priority: Priority },
    SuggestTransport { target: NodeId, recommended: TransportKind },
    ThrottleTopic { topic: KeyExpr, new_interval_ms: u64 },
    Alert { level: AlertLevel, message: String },
    CreateFailover { failed_node: NodeId, backup_route: Vec<NodeId> },
}

/// The names of a route, by their characters.
pub open spec fn route_view(r: Seq<NodeId>) -> Seq<Seq<char>> {
    r.map_values(|n: NodeId| n.0@)
}

/// A policy update as plain values.
pub enum PolicyView {
    UpdateQoS { topic: Seq<char>, new_priority: Priority },
    SuggestTransport { target: Seq<char>, recommended: TransportKind },
    ThrottleTopic { topic: Seq<char>, new_interval_ms: u64 },
    Alert { level: AlertLevel, message: Seq<char> },
    CreateFailover { failed_node: Seq<char>, backup_route: Seq<Seq<char>> },
}

/// The plain values of a policy update.
pub open spec fn policy_view(u: PolicyUpdateType) -> PolicyView {
    match u {
        PolicyUpdateType::UpdateQoS { topic, new_priority } => PolicyView::UpdateQoS {
            topic: topic.0@,
            new_priority,
        },
        PolicyUpdateType::SuggestTransport { target, recommended } => PolicyView::SuggestTransport {
            target: target.0@,
            recommended,
        },
        PolicyUpdateType::ThrottleTopic { topic, new_interval_ms } => PolicyView::ThrottleTopic {
            topic: topic.0@,
            new_interval_ms,
        },
        PolicyUpdateType::Alert { level, message } => PolicyView::Alert { level, message: message@ },
        PolicyUpdateType::CreateFailover { failed_node, backup_route } => PolicyView::CreateFailover {
            failed_node: failed_node.0@,
            backup_route: route_view(backup_route@),
        },
    }
}

/// Copies a route.
pub fn clone_route(r: &Vec<NodeId>) -> (c: Vec<NodeId>)
    ensures
        c@ == r@,
{
    let mut c: Vec<NodeId> = Vec::new();
    let mut i: usize = 0;
    while i < r.len()
        invariant
            i <= r@.len(),
            c@ == r@.take(i as int),
        decreases r@.len() - i,
    {
        c.push(r[i].clone());
        assert(r@.take(i + 1) == r@.take(i as int).push(r@[i as int]));
        i += 1;
    }
    assert(r@.take(r@.len() as int) =~= r@);
    c
}

impl Clone for PolicyUpdateType {
    fn clone(&self) -> (c: Self)
        ensures
            policy_view(c) == policy_view(*self),
    {
        match self {
            PolicyUpdateType::UpdateQoS { topic, new_priority } => PolicyUpdateType::UpdateQoS {
                topic: topic.clone(),
                new_priority: *new_priority,
            },
            PolicyUpdateType::SuggestTransport { target, recommended } => {
                PolicyUpdateType::SuggestTransport { target: target.clone(), recommended: *recommended }
            },
            PolicyUpdateType::ThrottleTopic { topic, new_interval_ms } => {
                PolicyUpdateType::ThrottleTopic { topic: topic.clone(), new_interval_ms: *new_interval_ms }
            },
            PolicyUpdateType::Alert { level, message } => PolicyUpdateType::Alert {
                level: *level,
                message: message.clone(),
            },
            PolicyUpdateType::CreateFailover { failed_node, backup_route } => {
                PolicyUpdateType::CreateFailover {
                    failed_node: failed_node.clone(),
                    backup_route: clone_route(backup_route),
                }
            },
        }
    }
}

/// A policy update with its version and the cycle at which it takes effect.
#[derive(Debug)]
pub struct VersionedPolicyUpdate {
    pub version: u64,
    pub apply_at_cycle: u64,
    pub update: PolicyUpdateType,
}

/// A versioned update as plain values: (version, cycle, update).
pub open spec fn versioned_view(u: VersionedPolicyUpdate) -> (u64, u64, PolicyView) {
    (u.version, u.apply_at_cycle, policy_view(u.update))
}

impl Clone for VersionedPolicyUpdate {
    fn clone(&self) -> (c: Self)
        ensures
            versioned_view(c) == versioned_view(*self),
    {
        VersionedPolicyUpdate {
            version: self.version,
            apply_at_cycle: self.apply_at_cycle,
            update: self.update.clone(),
        }
    }
}

/// An event raised by an agent.
///
/// Where the agents measured in floating point, the event carries the decision the
/// measurement led to: for congestion, whether its probability is above 0.9 and the
/// warning text to raise otherwise; for an anomaly, the alert level its severity
/// gives (above 0.8 critical, above 0.5 warning, else info) and the alert text.
#[derive(Debug)]
pub enum AgentEvent {
    CongestionWarning {
        topic: KeyExpr,
        escalate: bool,
        recommended_priority: Priority,
        warning: String,
    },
    NodeDegraded { node_id: NodeId },
    FailoverActivated { failed_node: NodeId, backup_route: Vec<NodeId> },
    AnomalyDetected { topic: KeyExpr, level: AlertLevel, message: String },
    ThrottleApplied { topic: KeyExpr, new_interval_ms: u64 },
    PolicyApplied { version: u64, update_type: String },
}

/// Health of a node as the healing agent sees it.
#[derive(Clone, Copy, Debug, PartialEq, Eq, Structural)]
pub enum HealthStatus {
    Healthy,
    Degraded,
    Suspected,
    Failed,
}

/// The mode an agent runtime starts in.
#[derive(Clone, Copy, Debug, PartialEq, Eq, Structural)]
pub enum AgentStartMode {
    Observer { duration_hours: u32 },
    Suggestion,
    Autonomous,
}

/// How much learning an agent does.
#[derive(Clone, Copy, Debug, PartialEq, Eq, Structural)]
pub enum MlLevel {
    RuleBased,
    SelfLearning,
    PreTrained,
}

} // verus!
