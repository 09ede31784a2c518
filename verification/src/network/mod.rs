//! What the nodes of a cluster say to each other, and how they react.

pub mod actor;
pub mod bootstrap;
pub mod cp;
pub mod mux;
pub mod peer;
pub mod persistency;
pub mod protocol;
pub mod worker;
