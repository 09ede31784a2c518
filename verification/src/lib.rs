//! Core of the marie agent platform: the rules, state machines and data
//! structures that its nodes share, each with a proved contract.
//!
//! Everything that touches the outside world (sockets, databases, clocks,
//! model providers) lives in the application around this library. The
//! library takes plain values and gives plain values back.

pub mod collections;
pub mod expert;
pub mod hitl;
pub mod hrw;
pub mod id;
pub mod job;
pub mod lease;
pub mod mode;
pub mod model;
pub mod network;
pub mod node;
pub mod raft_log;
pub mod secret;
pub mod text;
pub mod tools;
