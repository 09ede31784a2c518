//! The control plane: the replicated state of the cluster and the decisions
//! that its nodes take on it.

pub mod control;
pub mod dispatch;
pub mod forward;
pub mod jobs;
pub mod registry;
pub mod resume;
pub mod rpc;
pub mod schedule;
pub mod state;
pub mod types;

use vstd::prelude::*;

verus! {

/// How long a node waits for others to show up before it settles who starts
/// the cluster, in milliseconds.
pub const BOOTSTRAP_DELAY_MS: u64 = 3000;

/// The interval of the periodic control cycle, in milliseconds.
pub const RECONCILE_INTERVAL_MS: u64 = 4000;

/// After this long without a resumption in flight, a yielded job counts as
/// stuck, in milliseconds.
pub const YIELD_WATCHDOG_TIMEOUT_MS: u64 = 120000;

/// How often the watchdog resumes an agent before it gives up on it.
pub const MAX_WATCHDOG_RESUME_ATTEMPTS: u32 = 3;

/// How often a relay is tried, the first time included.
pub const FORWARD_RETRY_ATTEMPTS: u32 = 3;

/// The pause between two tries of a relay, in milliseconds.
pub const FORWARD_RETRY_DELAY_MS: u64 = 300;

/// The topic on which control planes tell each other of registered procedures.
pub const RPC_REGISTRY_TOPIC: &'static str = "marie/cp/rpc-registry/1.0.0";

} // verus!
