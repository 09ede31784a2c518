//! Declarations of state graphs.

use crate::collections::Key;
use crate::mode::state_graph::{Edge, Node};
use vstd::prelude::*;

verus! {

/// Identifies a state graph in the catalog.
#[derive(Debug, PartialEq, Eq, Hash, PartialOrd, Ord)]
pub struct StateGraphId(String);

impl View for StateGraphId {
    type V = Seq<char>;

    closed spec fn view(&self) -> Seq<char> {
        self.0@
    }
}

impl StateGraphId {
    pub fn new(id: String) -> (r: StateGraphId)
        ensures
            r@ == id@,
    {
        StateGraphId(id)
    }

    /// The identifier as text.
    pub fn as_str(&self) -> (r: &str)
        ensures
            r@ == self@,
    {
        self.0.as_str()
    }
}

impl Clone for StateGraphId {
    fn clone(&self) -> (r: Self)
        ensures
            r == *self,
    {
        StateGraphId(self.0.clone())
    }
}

impl Key for StateGraphId {
    fn same(&self, other: &Self) -> (r: bool) {
        self.0 == other.0
    }
}

/// A graph of the catalog, without any progress.
#[derive(Debug, PartialEq)]
pub struct StateGraphDeclaration {
    pub nodes: Vec<Node>,
    pub edges: Vec<Edge>,
    pub entry: String,
}

/// A copy of a list of nodes.
pub fn copy_nodes(list: &Vec<Node>) -> (r: Vec<Node>)
    ensures
        r@ == list@,
{
    let mut r: Vec<Node> = Vec::new();
    let mut i: usize = 0;
    while i < list.len()
        invariant
            i <= list.len(),
            r@ == list@.take(i as int),
        decreases list.len() - i,
    {
        r.push(list[i].clone());
        i = i + 1;
        assert(list@.take(i as int) =~= list@.take(i - 1).push(list@[i - 1]));
    }
    assert(list@.take(i as int) =~= list@);
    r
}

/// A copy of a list of edges.
pub fn copy_edges(list: &Vec<Edge>) -> (r: Vec<Edge>)
    ensures
        r@ == list@,
{
    let mut r: Vec<Edge> = Vec::new();
    let mut i: usize = 0;
    while i < list.len()
        invariant
            i <= list.len(),
            r@ == list@.take(i as int),
        decreases list.len() - i,
    {
        r.push(list[i].clone());
        i = i + 1;
        assert(list@.take(i as int) =~= list@.take(i - 1).push(list@[i - 1]));
    }
    assert(list@.take(i as int) =~= list@);
    r
}

} // verus!
