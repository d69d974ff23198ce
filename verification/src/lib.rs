use vstd::prelude::*;

pub mod api;
pub mod audit;
pub mod bridge;
pub mod clock;
pub mod codec;
pub mod commands;
pub mod config;
pub mod engine;
pub mod framing;
pub mod graph;
pub mod healing;
pub mod keyexpr;
pub mod log;
pub mod message;
pub mod pool;
pub mod registry;
pub mod replay;
pub mod rule_engine;
pub mod scheduler;
pub mod selector;
pub mod table;
pub mod text;
pub mod throttle;
pub mod topic;
pub mod types;
pub mod validator;
pub mod watchdog;
pub mod wire;
pub mod zbuf;

verus! {
} // verus!
