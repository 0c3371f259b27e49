//! Verified core of a remote-agent management service.
//!
//! Lightweight agents connect to a central server, authenticate with a
//! token, and expose a callback capability the server can invoke. The
//! server keeps an authoritative registry of connected agents, publishes a
//! point-in-time snapshot of that registry after every mutation, and hands
//! each agent a per-connection report sink for its periodic telemetry
//! pushes.
//!
//! This crate holds the logic of that core: the registry and its snapshot
//! feed, the per-agent session handle with its fail-soft invocation rule,
//! the registration gateway, the report sink's lifecycle state machine,
//! and the telemetry frame decoder. The transport itself (sockets, the RPC
//! message pump, capability marshalling) lives outside: it hands this
//! crate plain values and receives plain values back.

pub mod errors;
pub mod registry;
pub mod rpc;
pub mod server;
pub mod system_info;
