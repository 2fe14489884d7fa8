//! A multiplexing gateway for the Model Context Protocol (MCP).
//!
//! One downstream client talks to the gateway as if it were a single MCP
//! server; the gateway fans requests out to many upstream servers (targets),
//! merges their answers, and enforces per-identity access control on every
//! capability.  This crate holds the decision core: the target registry, the
//! RBAC engine, the connection-pool state machine, the relay routing and
//! merging rules, and the SSE session table.  Transport, process spawning and
//! the MCP wire machinery live outside and act on the decisions made here.

pub mod auth;
pub mod naming;
pub mod numfmt;
pub mod pool;
pub mod rbac;
pub mod registry;
pub mod relay;
pub mod session;
