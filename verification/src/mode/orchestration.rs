//! Orchestration: an agent that delegates to child agents.

use crate::id::GlobalAgentId;
use vstd::prelude::*;

verus! {

/// How the children of an [`Orchestration`] run relative to each other.
#[derive(Debug, Clone, Copy, PartialEq, Eq, Structural)]
pub enum OrchestrationStrategy {
    /// One after the other, each seeing the result of the one before.
    Sequential,
    /// Independently; the orchestrator resumes once all are done.
    Parallel,
}

/// The coordination strategy and the children created so far, in the order of
/// their creation.
#[derive(Debug, PartialEq)]
pub struct Orchestration {
    pub strategy: OrchestrationStrategy,
    pub children: Vec<GlobalAgentId>,
}

impl Orchestration {
    pub fn new(strategy: OrchestrationStrategy) -> (r: Self)
        ensures
            r.strategy == strategy,
            r.children@ == Seq::<GlobalAgentId>::empty(),
    {
        Orchestration { strategy, children: Vec::new() }
    }

    /// Adds a child, after those that are there.
    pub fn add_child(&mut self, agent_id: GlobalAgentId)
        ensures
            final(self).strategy == old(self).strategy,
            final(self).children@ == old(self).children@.push(agent_id),
    {
        self.children.push(agent_id);
    }
}

} // verus!
