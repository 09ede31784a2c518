//! What a node or an edge of a state graph does.

use crate::collections::Table;
use crate::id::ID;
use crate::text::join2;
use vstd::prelude::*;

verus! {

/// The behaviour of a node or of an edge.
///
/// Only `Rust` and `Agent` can be executed: no interpreter is wired for the
/// script variants, which are plain data.
#[derive(Debug, PartialEq)]
pub enum Executable {
    /// A function of the host binary, registered under `id`.
    Rust { id: String },
    Python { source: String },
    Rune { source: String },
    /// The expert `expert_id`, put on `task`.
    Agent { expert_id: String, task: String },
}

impl Clone for Executable {
    fn clone(&self) -> (r: Self)
        ensures
            r == *self,
    {
        match self {
            Executable::Rust { id } => Executable::Rust { id: id.clone() },
            Executable::Python { source } => Executable::Python { source: source.clone() },
            Executable::Rune { source } => Executable::Rune { source: source.clone() },
            Executable::Agent { expert_id, task } => Executable::Agent {
                expert_id: expert_id.clone(),
                task: task.clone(),
            },
        }
    }
}

/// Why an agent handed its turn back before it was done.
#[derive(Debug, PartialEq)]
pub enum YieldStatus {
    /// The run reached its bound; nothing is awaited from outside.
    RunExhausted,
    /// The reply to a tool call is awaited.
    WaitingToolReply { tool_call_id: ID },
    /// Other agents must complete first.
    WaitingChildren { children: Vec<crate::id::GlobalAgentId> },
}

/// What a node function comes to: a value (JSON text) that goes on to the next
/// node, or an explicit yield.
#[derive(Debug, PartialEq)]
pub enum NodeOutcome {
    Value(String),
    Yield(YieldStatus),
}

/// The host functions that nodes and edges may refer to, by name. `N` is the
/// type of a node function, `E` that of an edge function.
pub struct RustRegistry<N, E> {
    nodes: Table<String, N>,
    edges: Table<String, E>,
}

impl<N, E> RustRegistry<N, E> {
    /// The registered node functions.
    pub closed spec fn node_functions(&self) -> Map<Seq<char>, N> {
        self.nodes@
    }

    /// The registered edge functions.
    pub closed spec fn edge_functions(&self) -> Map<Seq<char>, E> {
        self.edges@
    }

    pub fn new() -> (r: Self)
        ensures
            r.node_functions() == Map::<Seq<char>, N>::empty(),
            r.edge_functions() == Map::<Seq<char>, E>::empty(),
    {
        RustRegistry { nodes: Table::new(), edges: Table::new() }
    }

    /// Registers (or replaces) the node function `id`.
    pub fn register_node(&mut self, id: String, f: N)
        ensures
            final(self).node_functions() == old(self).node_functions().insert(id@, f),
            final(self).edge_functions() == old(self).edge_functions(),
    {
        let _ = self.nodes.insert(id, f);
    }

    /// Registers (or replaces) the edge function `id`.
    pub fn register_edge(&mut self, id: String, f: E)
        ensures
            final(self).edge_functions() == old(self).edge_functions().insert(id@, f),
            final(self).node_functions() == old(self).node_functions(),
    {
        let _ = self.edges.insert(id, f);
    }

    /// The node function `id`, or the error that a run of it comes to.
    pub fn run_node(&self, id: &String) -> (r: Result<&N, String>)
        ensures
            match r {
                Ok(f) => self.node_functions().contains_key(id@) && *f == self.node_functions()[id@],
                Err(message) => {
                    &&& !self.node_functions().contains_key(id@)
                    &&& message@ == "fonction de nœud inconnue : "@ + id@
                },
            },
    {
        match self.nodes.get(id) {
            Some(f) => Ok(f),
            None => Err(join2("fonction de nœud inconnue : ", id.as_str())),
        }
    }

    /// The edge function `id`, or the error that an evaluation of it comes to.
    pub fn eval_edge(&self, id: &String) -> (r: Result<&E, String>)
        ensures
            match r {
                Ok(f) => self.edge_functions().contains_key(id@) && *f == self.edge_functions()[id@],
                Err(message) => {
                    &&& !self.edge_functions().contains_key(id@)
                    &&& message@ == "fonction d'arête inconnue : "@ + id@
                },
            },
    {
        match self.edges.get(id) {
            Some(f) => Ok(f),
            None => Err(join2("fonction d'arête inconnue : ", id.as_str())),
        }
    }
}

} // verus!
