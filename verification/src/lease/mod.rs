//! Leases: at most one node at a time drives a session.

pub mod authority;
pub mod client;
pub mod protocol;
pub mod raft;
pub mod server;
pub mod storage;
pub mod time;
