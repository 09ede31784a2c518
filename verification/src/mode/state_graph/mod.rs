//! State graphs: execution that follows explicit nodes and edges.

pub mod catalog;
pub mod client;
pub mod declaration;

use crate::collections::{ascending, Table};
use crate::mode::executable::{Executable, NodeOutcome, RustRegistry};
use crate::text::{join2, join5};
use vstd::prelude::*;

verus! {

/// A state of the graph. `action` runs when the node is entered; `None` for a
/// pure control node.
#[derive(Debug, PartialEq)]
pub struct Node {
    pub id: String,
    pub action: Option<Executable>,
}

impl Node {
    pub fn new(id: String, action: Option<Executable>) -> (r: Self)
        ensures
            r == (Node { id, action }),
    {
        Node { id, action }
    }
}

/// A copy of an optional behaviour.
fn copy_executable(e: &Option<Executable>) -> (r: Option<Executable>)
    ensures
        r == *e,
{
    match e {
        Some(e) => Some(e.clone()),
        None => None,
    }
}

impl Clone for Node {
    fn clone(&self) -> (r: Self)
        ensures
            r == *self,
    {
        Node { id: self.id.clone(), action: copy_executable(&self.action) }
    }
}

/// A transition between two nodes. `guard` decides whether it may be taken; an
/// edge without a guard may always be taken.
#[derive(Debug, PartialEq)]
pub struct Edge {
    pub from: String,
    pub to: String,
    pub guard: Option<Executable>,
}

impl Edge {
    pub fn new(from: String, to: String, guard: Option<Executable>) -> (r: Self)
        ensures
            r == (Edge { from, to, guard }),
    {
        Edge { from, to, guard }
    }
}

impl Clone for Edge {
    fn clone(&self) -> (r: Self)
        ensures
            r == *self,
    {
        Edge {
            from: self.from.clone(),
            to: self.to.clone(),
            guard: copy_executable(&self.guard),
        }
    }
}

/// What can go wrong with a state graph.
#[derive(Debug, PartialEq)]
pub enum StateGraphError {
    UnknownNode(String),
    UnknownEdgeEndpoint { from: String, to: String },
    /// No interpreter is wired for this kind of behaviour.
    UnsupportedExecutable,
    /// The current node is an agent, and nothing to run agents with was given.
    MissingAgentRuntime,
    ExecutionFailed(String),
}

impl StateGraphError {
    /// The message of the error.
    pub open spec fn text(&self) -> Seq<char> {
        match *self {
            StateGraphError::UnknownNode(id) => "nœud inconnu : "@ + id@,
            StateGraphError::UnknownEdgeEndpoint { from, to } => "l'arête '"@ + from@ + "' -> '"@
                + to@ + "' référence un nœud inconnu"@,
            StateGraphError::UnsupportedExecutable =>
                "exécution indisponible : aucun interpréteur câblé pour ce type d'Executable"@,
            StateGraphError::MissingAgentRuntime =>
                "nœud agent rencontré sans AgentRuntime fourni"@,
            StateGraphError::ExecutionFailed(cause) => "échec d'exécution : "@ + cause@,
        }
    }

    /// The message of the error.
    pub fn message(&self) -> (r: String)
        ensures
            r@ == self.text(),
    {
        match self {
            StateGraphError::UnknownNode(id) => join2("nœud inconnu : ", id.as_str()),
            StateGraphError::UnknownEdgeEndpoint { from, to } => join5(
                "l'arête '",
                from.as_str(),
                "' -> '",
                to.as_str(),
                "' référence un nœud inconnu",
            ),
            StateGraphError::UnsupportedExecutable =>
                "exécution indisponible : aucun interpréteur câblé pour ce type d'Executable".to_owned(),
            StateGraphError::MissingAgentRuntime =>
                "nœud agent rencontré sans AgentRuntime fourni".to_owned(),
            StateGraphError::ExecutionFailed(cause) => join2(
                "échec d'exécution : ",
                cause.as_str(),
            ),
        }
    }
}

/// The nodes by identifier; of two with the same identifier the later one
/// stands.
pub open spec fn node_map(nodes: Seq<Node>) -> Map<Seq<char>, Node>
    decreases nodes.len(),
{
    if nodes.len() == 0 {
        Map::empty()
    } else {
        node_map(nodes.drop_last()).insert(nodes.last().id@, nodes.last())
    }
}

/// Whether both ends of `edge` are nodes.
pub open spec fn edge_known(nodes: Map<Seq<char>, Node>, edge: Edge) -> bool {
    nodes.contains_key(edge.from@) && nodes.contains_key(edge.to@)
}

/// Whether `entry` and both ends of every edge are declared nodes.
pub open spec fn coherent(nodes: Seq<Node>, edges: Seq<Edge>, entry: Seq<char>) -> bool {
    &&& node_map(nodes).contains_key(entry)
    &&& forall|i: int| 0 <= i < edges.len() ==> edge_known(node_map(nodes), #[trigger] edges[i])
}

/// What [`StateGraph::new`] rejects an incoherent graph with: the entry is
/// looked at first, then the edges in order.
pub open spec fn rejected(
    nodes: Seq<Node>,
    edges: Seq<Edge>,
    entry: String,
    error: StateGraphError,
) -> bool {
    match error {
        StateGraphError::UnknownNode(id) => {
            &&& !node_map(nodes).contains_key(entry@)
            &&& id == entry
        },
        StateGraphError::UnknownEdgeEndpoint { from, to } => {
            &&& node_map(nodes).contains_key(entry@)
            &&& exists|i: int|
                {
                    &&& 0 <= i < edges.len()
                    &&& !edge_known(node_map(nodes), #[trigger] edges[i])
                    &&& from == edges[i].from
                    &&& to == edges[i].to
                    &&& forall|j: int|
                        0 <= j < i ==> edge_known(node_map(nodes), #[trigger] edges[j])
                }
        },
        _ => false,
    }
}

/// A graph and the node that its execution stands on.
pub struct StateGraph {
    pub nodes: Table<String, Node>,
    pub edges: Vec<Edge>,
    pub entry: String,
    pub current: String,
}

/// Where the edges that leave a node lead, given what their guards said.
pub enum Walk {
    /// The edge to this node is taken.
    Go(String),
    /// No edge matches.
    Stuck,
    /// The guard of this name must be evaluated next.
    Ask(String),
    /// A guard failed with this message.
    Failed(String),
    /// A guard is of a kind that cannot be evaluated.
    Unsupported,
}

/// Follows the edges that leave `current`, in the order of their declaration.
/// An edge without a guard matches; a guarded one matches if its guard said
/// so. `verdicts` holds what the guards met so far came to, in that order.
pub open spec fn walk(
    edges: Seq<Edge>,
    current: Seq<char>,
    verdicts: Seq<Result<bool, String>>,
) -> Walk
    decreases edges.len(),
{
    if edges.len() == 0 {
        Walk::Stuck
    } else if edges[0].from@ != current {
        walk(edges.skip(1), current, verdicts)
    } else {
        match edges[0].guard {
            None => Walk::Go(edges[0].to),
            Some(Executable::Rust { id }) => {
                if verdicts.len() == 0 {
                    Walk::Ask(id)
                } else {
                    match verdicts[0] {
                        Err(cause) => Walk::Failed(cause),
                        Ok(true) => Walk::Go(edges[0].to),
                        Ok(false) => walk(edges.skip(1), current, verdicts.skip(1)),
                    }
                }
            },
            _ => Walk::Unsupported,
        }
    }
}

/// What a step of [`StateGraph::advance`] came to.
#[derive(Debug, PartialEq)]
pub enum Advance {
    /// An edge was taken.
    Moved,
    /// No edge matched; the graph stays where it was.
    Stuck,
    /// The guard of this name must be evaluated, and its verdict appended.
    Evaluate { id: String },
}

/// What must be called for a node, with the value that the node before it came
/// to.
pub enum NodeCall<'a, N> {
    /// A host function.
    Function(&'a N),
    /// The expert `expert_id`, put on `task`.
    Agent { expert_id: &'a String, task: &'a String },
}

/// What the execution of a node comes to, once what it calls has come to
/// `outcome`.
pub fn settle_node(outcome: Result<NodeOutcome, String>) -> (r: Result<
    Option<NodeOutcome>,
    StateGraphError,
>)
    ensures
        r == (match outcome {
            Ok(o) => Ok::<Option<NodeOutcome>, StateGraphError>(Some(o)),
            Err(cause) => Err(StateGraphError::ExecutionFailed(cause)),
        }),
{
    match outcome {
        Ok(o) => Ok(Some(o)),
        Err(cause) => Err(StateGraphError::ExecutionFailed(cause)),
    }
}

impl StateGraph {
    /// Whether the current node, the entry and both ends of every edge are
    /// nodes of the graph.
    pub open spec fn valid(&self) -> bool {
        &&& self.nodes@.contains_key(self.current@)
        &&& self.nodes@.contains_key(self.entry@)
        &&& forall|i: int| 0 <= i < self.edges@.len() ==> edge_known(self.nodes@, #[trigger] self.edges@[i])
    }

    /// Builds a graph that stands on `entry`. An entry or an end of an edge
    /// that is no declared node is rejected here rather than met later, during
    /// execution.
    pub fn new(nodes: Vec<Node>, edges: Vec<Edge>, entry: String) -> (r: Result<
        StateGraph,
        StateGraphError,
    >)
        ensures
            r is Ok <==> coherent(nodes@, edges@, entry@),
            match r {
                Ok(graph) => {
                    &&& graph.nodes@ == node_map(nodes@)
                    &&& graph.edges@ == edges@
                    &&& graph.entry == entry
                    &&& graph.current == entry
                    &&& graph.valid()
                },
                Err(error) => rejected(nodes@, edges@, entry, error),
            },
    {
        let mut table: Table<String, Node> = Table::new();
        let mut i: usize = 0;
        while i < nodes.len()
            invariant
                i <= nodes.len(),
                table@ == node_map(nodes@.take(i as int)),
            decreases nodes.len() - i,
        {
            let node = nodes[i].clone();
            let _ = table.insert(node.id.clone(), node);
            i = i + 1;
            assert(nodes@.take(i as int).drop_last() =~= nodes@.take(i - 1));
        }
        assert(nodes@.take(i as int) =~= nodes@);
        if !table.contains_key(&entry) {
            return Err(StateGraphError::UnknownNode(entry));
        }
        let mut k: usize = 0;
        while k < edges.len()
            invariant
                k <= edges.len(),
                table@ == node_map(nodes@),
                table@.contains_key(entry@),
                forall|j: int| 0 <= j < k ==> edge_known(node_map(nodes@), #[trigger] edges@[j]),
            decreases edges.len() - k,
        {
            if !table.contains_key(&edges[k].from) || !table.contains_key(&edges[k].to) {
                assert(!edge_known(node_map(nodes@), edges@[k as int]));
                return Err(
                    StateGraphError::UnknownEdgeEndpoint {
                        from: edges[k].from.clone(),
                        to: edges[k].to.clone(),
                    },
                );
            }
            k = k + 1;
        }
        Ok(StateGraph { nodes: table, edges, current: entry.clone(), entry })
    }

    /// The node that the execution stands on.
    pub fn current_node(&self) -> (r: &Node)
        requires
            self.nodes@.contains_key(self.current@),
        ensures
            *r == self.nodes@[self.current@],
    {
        match self.nodes.get(&self.current) {
            Some(node) => node,
            None => {
                assert(false);
                self.nodes.value_at(0)
            },
        }
    }

    /// What must be called for the current node, if anything. A host function
    /// must be registered, an agent needs a runtime, and a script an
    /// interpreter, of which there is none. What the node then comes to is
    /// settled by [`settle_node`].
    pub fn execute_current<'a, N, E>(
        &'a self,
        registry: &'a RustRegistry<N, E>,
        has_agent_runtime: bool,
    ) -> (r: Result<Option<NodeCall<'a, N>>, StateGraphError>)
        requires
            self.nodes@.contains_key(self.current@),
        ensures
            match self.nodes@[self.current@].action {
                None => r == Ok::<Option<NodeCall<'a, N>>, StateGraphError>(None),
                Some(Executable::Rust { id }) => if registry.node_functions().contains_key(id@) {
                    r == Ok::<Option<NodeCall<'a, N>>, StateGraphError>(
                        Some(NodeCall::Function(&registry.node_functions()[id@])),
                    )
                } else {
                    r matches Err(StateGraphError::ExecutionFailed(cause)) && cause@
                        == "fonction de nœud inconnue : "@ + id@
                },
                Some(Executable::Agent { expert_id, task }) => if has_agent_runtime {
                    r == Ok::<Option<NodeCall<'a, N>>, StateGraphError>(
                        Some(NodeCall::Agent { expert_id: &expert_id, task: &task }),
                    )
                } else {
                    r == Err::<Option<NodeCall<'a, N>>, StateGraphError>(
                        StateGraphError::MissingAgentRuntime,
                    )
                },
                Some(_) => r == Err::<Option<NodeCall<'a, N>>, StateGraphError>(
                    StateGraphError::UnsupportedExecutable,
                ),
            },
    {
        match &self.current_node().action {
            None => Ok(None),
            Some(Executable::Rust { id }) => {
                match registry.run_node(id) {
                    Ok(f) => Ok(Some(NodeCall::Function(f))),
                    Err(cause) => Err(StateGraphError::ExecutionFailed(cause)),
                }
            },
            Some(Executable::Agent { expert_id, task }) => {
                if has_agent_runtime {
                    Ok(Some(NodeCall::Agent { expert_id, task }))
                } else {
                    Err(StateGraphError::MissingAgentRuntime)
                }
            },
            Some(_) => Err(StateGraphError::UnsupportedExecutable),
        }
    }

    /// Looks at the edges that leave the current node, in the order of their
    /// declaration, and moves along the first one that matches. `verdicts`
    /// holds what the guards met so far came to; where one more is needed, the
    /// step asks for it, and is repeated with the verdict appended.
    pub fn advance(&mut self, verdicts: &Vec<Result<bool, String>>) -> (r: Result<
        Advance,
        StateGraphError,
    >)
        ensures
            final(self).nodes == old(self).nodes,
            final(self).edges == old(self).edges,
            final(self).entry == old(self).entry,
            match walk(old(self).edges@, old(self).current@, verdicts@) {
                Walk::Go(to) => r == Ok::<Advance, StateGraphError>(Advance::Moved)
                    && final(self).current == to,
                Walk::Stuck => r == Ok::<Advance, StateGraphError>(Advance::Stuck)
                    && final(self).current == old(self).current,
                Walk::Ask(id) => r == Ok::<Advance, StateGraphError>(Advance::Evaluate { id })
                    && final(self).current == old(self).current,
                Walk::Failed(cause) => r == Err::<Advance, StateGraphError>(
                    StateGraphError::ExecutionFailed(cause),
                ) && final(self).current == old(self).current,
                Walk::Unsupported => r == Err::<Advance, StateGraphError>(
                    StateGraphError::UnsupportedExecutable,
                ) && final(self).current == old(self).current,
            },
            old(self).valid() ==> final(self).valid(),
    {
        let mut i: usize = 0;
        let mut v: usize = 0;
        let ghost whole = walk(self.edges@, self.current@, verdicts@);
        assert(self.edges@.skip(0) =~= self.edges@);
        assert(verdicts@.skip(0) =~= verdicts@);
        while i < self.edges.len()
            invariant
                i <= self.edges@.len(),
                v <= verdicts@.len(),
                *self == *old(self),
                whole == walk(self.edges@, self.current@, verdicts@),
                whole == walk(
                    self.edges@.skip(i as int),
                    self.current@,
                    verdicts@.skip(v as int),
                ),
            decreases self.edges@.len() - i,
        {
            let ghost rest = self.edges@.skip(i as int);
            let ghost left = verdicts@.skip(v as int);
            assert(rest[0] == self.edges@[i as int]);
            assert(rest.skip(1) =~= self.edges@.skip(i + 1));
            if self.edges[i].from == self.current {
                match &self.edges[i].guard {
                    None => {
                        assert(edge_known(self.nodes@, self.edges@[i as int])
                            || !self.valid());
                        self.current = self.edges[i].to.clone();
                        return Ok(Advance::Moved);
                    },
                    Some(Executable::Rust { id }) => {
                        if v >= verdicts.len() {
                            return Ok(Advance::Evaluate { id: id.clone() });
                        }
                        assert(left[0] == verdicts@[v as int]);
                        assert(left.skip(1) =~= verdicts@.skip(v + 1));
                        match &verdicts[v] {
                            Err(cause) => {
                                return Err(StateGraphError::ExecutionFailed(cause.clone()));
                            },
                            Ok(matched) => {
                                if *matched {
                                    assert(edge_known(self.nodes@, self.edges@[i as int])
                                        || !self.valid());
                                    self.current = self.edges[i].to.clone();
                                    return Ok(Advance::Moved);
                                }
                            },
                        }
                        v = v + 1;
                    },
                    Some(_) => {
                        return Err(StateGraphError::UnsupportedExecutable);
                    },
                }
            }
            i = i + 1;
        }
        assert(self.edges@.skip(i as int) =~= Seq::<Edge>::empty());
        Ok(Advance::Stuck)
    }
}

/// The prompt for an agent node: the prompt of the expert first, then the
/// task, then the value of the step before (JSON text), if there is one.
pub fn agent_prompt(expert_prompt: &str, task: &str, previous: Option<&str>) -> (r: String)
    ensures
        r@ == (match previous {
            None => expert_prompt@ + "\n\n"@ + task@,
            Some(value) => expert_prompt@ + "\n\n"@ + task@
                + "\n\nRésultat du pas précédent: "@ + value@,
        }),
{
    match previous {
        None => crate::text::join3(expert_prompt, "\n\n", task),
        Some(value) => join5(
            expert_prompt,
            "\n\n",
            task,
            "\n\nRésultat du pas précédent: ",
            value,
        ),
    }
}

/// The edges that leave `node`, in order.
pub open spec fn leaving(edges: Seq<Edge>, node: Seq<char>) -> Seq<Edge>
    decreases edges.len(),
{
    if edges.len() == 0 {
        Seq::empty()
    } else if edges[0].from@ == node {
        seq![edges[0]] + leaving(edges.skip(1), node)
    } else {
        leaving(edges.skip(1), node)
    }
}

/// Only the edges that leave the current node matter for a step.
pub proof fn lemma_walk_leaving(
    edges: Seq<Edge>,
    current: Seq<char>,
    verdicts: Seq<Result<bool, String>>,
)
    ensures
        walk(edges, current, verdicts) == walk(leaving(edges, current), current, verdicts),
    decreases edges.len(),
{
    if edges.len() > 0 {
        let rest = edges.skip(1);
        if edges[0].from@ == current {
            let own = leaving(edges, current);
            assert(own[0] == edges[0]);
            assert(own.skip(1) =~= leaving(rest, current));
            lemma_walk_leaving(rest, current, verdicts);
            if verdicts.len() > 0 {
                lemma_walk_leaving(rest, current, verdicts.skip(1));
            }
        } else {
            lemma_walk_leaving(rest, current, verdicts);
        }
    }
}

/// Where an edge without a guard leaves the current node, a step cannot end
/// stuck.
pub proof fn lemma_default_edge_never_stuck(
    edges: Seq<Edge>,
    current: Seq<char>,
    verdicts: Seq<Result<bool, String>>,
    i: int,
)
    requires
        0 <= i < edges.len(),
        edges[i].from@ == current,
        edges[i].guard is None,
    ensures
        walk(edges, current, verdicts) !is Stuck,
    decreases edges.len(),
{
    let rest = edges.skip(1);
    if i > 0 {
        assert(rest[i - 1] == edges[i]);
        lemma_default_edge_never_stuck(rest, current, verdicts, i - 1);
        if verdicts.len() > 0 {
            lemma_default_edge_never_stuck(rest, current, verdicts.skip(1), i - 1);
        }
    }
}

/// Whether the guard of `edge` is a registered function.
pub open spec fn rust_guarded(edge: Edge) -> bool {
    match edge.guard {
        Some(Executable::Rust { .. }) => true,
        _ => false,
    }
}

/// Where the edges that leave the current node all have guards but the last
/// one, and every guard said no, the step takes that last edge.
pub proof fn lemma_default_edge_last(
    edges: Seq<Edge>,
    current: Seq<char>,
    verdicts: Seq<Result<bool, String>>,
)
    requires
        edges.len() > 0,
        forall|i: int| 0 <= i < edges.len() ==> (#[trigger] edges[i]).from@ == current,
        forall|i: int| 0 <= i < edges.len() - 1 ==> rust_guarded(#[trigger] edges[i]),
        edges.last().guard is None,
        verdicts.len() == edges.len() - 1,
        forall|i: int| 0 <= i < verdicts.len() ==> (#[trigger] verdicts[i]) == Ok::<bool, String>(false),
    ensures
        walk(edges, current, verdicts) == Walk::Go(edges.last().to),
    decreases edges.len(),
{
    if edges.len() > 1 {
        let rest = edges.skip(1);
        assert(rust_guarded(edges[0]));
        assert(verdicts[0] == Ok::<bool, String>(false));
        assert forall|i: int| 0 <= i < rest.len() - 1 implies rust_guarded(#[trigger] rest[i]) by {
            assert(rest[i] == edges[i + 1]);
        }
        assert(rest.last() == edges.last());
        lemma_default_edge_last(rest, current, verdicts.skip(1));
    }
}

/// A step takes the first edge, in the order of declaration, that is open: `at`
/// are the positions of the edges that leave the current node up to one of them,
/// and all before that one have guards that said no. Where it has no guard, or its
/// guard said yes, the step takes it, wherever it leads. Where its guard was not
/// asked yet, the step asks; where the guard failed, so does the step; and where
/// the guard is no host function, it cannot be evaluated.
pub proof fn lemma_first_open_edge(
    edges: Seq<Edge>,
    current: Seq<char>,
    verdicts: Seq<Result<bool, String>>,
    at: Seq<int>,
)
    requires
        ascending(at, edges.len() as int),
        at.len() > 0,
        forall|j: int| #[trigger]
            at.contains(j) <==> 0 <= j <= at.last() && edges[j].from@ == current,
        forall|k: int|
            0 <= k < at.len() - 1 ==> k < verdicts.len() && verdicts[k] == Ok::<bool, String>(false)
                && (edges[#[trigger] at[k]].guard matches Some(Executable::Rust { .. })),
    ensures
        ({
            let edge = edges[at.last()];
            let asked = at.len() - 1;
            &&& edge.guard is None ==> walk(edges, current, verdicts) == Walk::Go(edge.to)
            &&& edge.guard matches Some(Executable::Rust { id }) ==> {
                &&& verdicts.len() == asked ==> walk(edges, current, verdicts) == Walk::Ask(id)
                &&& verdicts.len() > asked && verdicts[asked] == Ok::<bool, String>(true) ==> walk(
                    edges,
                    current,
                    verdicts,
                ) == Walk::Go(edge.to)
                &&& verdicts.len() > asked ==> (verdicts[asked] matches Err(cause) ==> walk(
                    edges,
                    current,
                    verdicts,
                ) == Walk::Failed(cause))
            }
            &&& edge.guard matches Some(Executable::Python { .. }) ==> walk(
                edges,
                current,
                verdicts,
            ) == Walk::Unsupported
            &&& edge.guard matches Some(Executable::Rune { .. }) ==> walk(edges, current, verdicts)
                == Walk::Unsupported
            &&& edge.guard matches Some(Executable::Agent { .. }) ==> walk(edges, current, verdicts)
                == Walk::Unsupported
        }),
{
    let last = at.last();
    assert(at.contains(last)) by {
        assert(at[at.len() - 1] == last);
    }
    let passed = lemma_walk_passes(edges, current, verdicts, at, last);
    assert(passed == at.len() - 1) by {
        if passed < at.len() - 1 {
            assert(at[passed] < at[at.len() - 1]);
        }
        if passed == at.len() {
            assert(at[at.len() - 1] < last);
        }
    }
    assert(edges.skip(last)[0] == edges[last]);
    if verdicts.len() > at.len() - 1 {
        assert(verdicts.skip(passed)[0] == verdicts[at.len() - 1]);
    }
}

/// A step is stuck where every edge that leaves the current node has a guard that
/// said no, and so where no edge leaves it: `at` are the positions of all of them.
pub proof fn lemma_stuck_where_all_guards_said_no(
    edges: Seq<Edge>,
    current: Seq<char>,
    verdicts: Seq<Result<bool, String>>,
    at: Seq<int>,
)
    requires
        ascending(at, edges.len() as int),
        forall|j: int| #[trigger]
            at.contains(j) <==> 0 <= j < edges.len() && edges[j].from@ == current,
        forall|k: int|
            0 <= k < at.len() ==> k < verdicts.len() && verdicts[k] == Ok::<bool, String>(false) && (
            edges[#[trigger] at[k]].guard matches Some(Executable::Rust { .. })),
    ensures
        walk(edges, current, verdicts) == Walk::Stuck,
{
    let n = edges.len() as int;
    let passed = lemma_walk_passes(edges, current, verdicts, at, n);
    assert(edges.skip(n) =~= Seq::<Edge>::empty());
}

proof fn lemma_walk_passes(
    edges: Seq<Edge>,
    current: Seq<char>,
    verdicts: Seq<Result<bool, String>>,
    at: Seq<int>,
    m: int,
) -> (passed: int)
    requires
        0 <= m <= edges.len(),
        ascending(at, edges.len() as int),
        forall|j: int| 0 <= j < m ==> (#[trigger] at.contains(j) <==> edges[j].from@ == current),
        forall|k: int|
            0 <= k < at.len() && at[k] < m ==> k < verdicts.len() && verdicts[k] == Ok::<
                bool,
                String,
            >(false) && (edges[#[trigger] at[k]].guard matches Some(Executable::Rust { .. })),
    ensures
        0 <= passed <= at.len(),
        passed <= verdicts.len(),
        forall|k: int| 0 <= k < passed ==> #[trigger] at[k] < m,
        forall|k: int| passed <= k < at.len() ==> #[trigger] at[k] >= m,
        walk(edges, current, verdicts) == walk(edges.skip(m), current, verdicts.skip(passed)),
    decreases m,
{
    if m == 0 {
        assert(edges.skip(0) =~= edges);
        assert(verdicts.skip(0) =~= verdicts);
        0
    } else {
        let before = lemma_walk_passes(edges, current, verdicts, at, m - 1);
        let rest = edges.skip(m - 1);
        assert(rest[0] == edges[m - 1]);
        assert(rest.skip(1) =~= edges.skip(m));
        if edges[m - 1].from@ == current {
            assert(at.contains(m - 1));
            let k = at.index_of(m - 1);
            assert(at[k] == m - 1);
            assert(k >= before);
            if k > before {
                assert(at[before] < at[k]);
            }
            assert(verdicts.skip(before)[0] == verdicts[before]);
            assert(verdicts.skip(before).skip(1) =~= verdicts.skip(before + 1));
            before + 1
        } else {
            assert forall|k: int| before <= k < at.len() implies #[trigger] at[k] >= m by {
                if at[k] == m - 1 {
                    assert(at.contains(m - 1));
                }
            }
            before
        }
    }
}

/// The node that an identifier stands for is the last one declared with it.
pub proof fn lemma_last_declaration_counts(nodes: Seq<Node>, id: Seq<char>)
    ensures
        node_map(nodes).contains_key(id) <==> exists|n: int|
            0 <= n < nodes.len() && (#[trigger] nodes[n]).id@ == id,
        forall|n: int|
            0 <= n < nodes.len() && (#[trigger] nodes[n]).id@ == id && (forall|m: int|
                n < m < nodes.len() ==> (#[trigger] nodes[m]).id@ != id) ==> node_map(nodes)[id]
                == nodes[n],
    decreases nodes.len(),
{
    if nodes.len() > 0 {
        let front = nodes.drop_last();
        let last = nodes.len() - 1;
        lemma_last_declaration_counts(front, id);
        assert forall|n: int| 0 <= n < front.len() implies front[n] == nodes[n] by {}
        if node_map(nodes).contains_key(id) {
            if nodes.last().id@ == id {
                assert(nodes[last].id@ == id);
            } else {
                let n = choose|n: int| 0 <= n < front.len() && (#[trigger] front[n]).id@ == id;
                assert(nodes[n].id@ == id);
            }
        }
        if exists|n: int| 0 <= n < nodes.len() && (#[trigger] nodes[n]).id@ == id {
            let n = choose|n: int| 0 <= n < nodes.len() && (#[trigger] nodes[n]).id@ == id;
            if n < last {
                assert(front[n].id@ == id);
            }
        }
        assert forall|n: int|
            0 <= n < nodes.len() && (#[trigger] nodes[n]).id@ == id && (forall|m: int|
                n < m < nodes.len() ==> (#[trigger] nodes[m]).id@ != id) implies node_map(nodes)[id]
            == nodes[n] by {
            if n < last {
                assert(nodes[last].id@ != id);
                assert(front[n].id@ == id);
                assert forall|m: int| n < m < front.len() implies (#[trigger] front[m]).id@ != id by {
                    assert(front[m] == nodes[m]);
                }
            }
        }
    }
}

/// A graph is accepted exactly where its entry and both ends of every edge are
/// declared nodes.
pub proof fn lemma_accepted_iff_all_declared(nodes: Seq<Node>, edges: Seq<Edge>, entry: Seq<char>)
    ensures
        coherent(nodes, edges, entry) <==> {
            &&& exists|n: int| 0 <= n < nodes.len() && (#[trigger] nodes[n]).id@ == entry
            &&& forall|i: int|
                0 <= i < edges.len() ==> {
                    &&& exists|n: int|
                        0 <= n < nodes.len() && (#[trigger] nodes[n]).id@ == (
                        #[trigger] edges[i]).from@
                    &&& exists|n: int|
                        0 <= n < nodes.len() && (#[trigger] nodes[n]).id@ == edges[i].to@
                }
        },
{
    lemma_last_declaration_counts(nodes, entry);
    assert forall|i: int| 0 <= i < edges.len() implies (edge_known(
        node_map(nodes),
        #[trigger] edges[i],
    ) <==> {
        &&& exists|n: int| 0 <= n < nodes.len() && (#[trigger] nodes[n]).id@ == edges[i].from@
        &&& exists|n: int| 0 <= n < nodes.len() && (#[trigger] nodes[n]).id@ == edges[i].to@
    }) by {
        lemma_last_declaration_counts(nodes, edges[i].from@);
        lemma_last_declaration_counts(nodes, edges[i].to@);
    }
}

/// What is refused is named: the entry where it is not declared, and otherwise
/// the ends of the first edge that has one which is not.
pub proof fn lemma_refusal_names_the_culprit(
    nodes: Seq<Node>,
    edges: Seq<Edge>,
    entry: String,
    error: StateGraphError,
)
    requires
        rejected(nodes, edges, entry, error),
    ensures
        ({
            let declared = |id: Seq<char>|
                exists|n: int| 0 <= n < nodes.len() && (#[trigger] nodes[n]).id@ == id;
            ||| !declared(entry@) && error == StateGraphError::UnknownNode(entry)
            ||| declared(entry@) && exists|i: int|
                {
                    &&& 0 <= i < edges.len()
                    &&& !(declared((#[trigger] edges[i]).from@) && declared(edges[i].to@))
                    &&& error == (StateGraphError::UnknownEdgeEndpoint {
                        from: edges[i].from,
                        to: edges[i].to,
                    })
                    &&& forall|j: int|
                        0 <= j < i ==> declared((#[trigger] edges[j]).from@) && declared(
                            edges[j].to@,
                        )
                }
        }),
{
    let declared = |id: Seq<char>|
        exists|n: int| 0 <= n < nodes.len() && (#[trigger] nodes[n]).id@ == id;
    assert forall|id: Seq<char>| #[trigger] node_map(nodes).contains_key(id) == declared(id) by {
        lemma_last_declaration_counts(nodes, id);
    }
    match error {
        StateGraphError::UnknownEdgeEndpoint { from, to } => {
            let i = choose|i: int|
                {
                    &&& 0 <= i < edges.len()
                    &&& !edge_known(node_map(nodes), #[trigger] edges[i])
                    &&& from == edges[i].from
                    &&& to == edges[i].to
                    &&& forall|j: int|
                        0 <= j < i ==> edge_known(node_map(nodes), #[trigger] edges[j])
                };
            assert(node_map(nodes).contains_key(edges[i].from@) == declared(edges[i].from@));
            assert(node_map(nodes).contains_key(edges[i].to@) == declared(edges[i].to@));
            assert forall|j: int| 0 <= j < i implies declared((#[trigger] edges[j]).from@)
                && declared(edges[j].to@) by {
                assert(edge_known(node_map(nodes), edges[j]));
                assert(node_map(nodes).contains_key(edges[j].from@) == declared(edges[j].from@));
                assert(node_map(nodes).contains_key(edges[j].to@) == declared(edges[j].to@));
            }
            assert(node_map(nodes).contains_key(entry@) == declared(entry@));
        },
        _ => {
            assert(node_map(nodes).contains_key(entry@) == declared(entry@));
        },
    }
}

/// Each error is told in its own words, with the nodes or the cause that it is
/// about.
pub proof fn lemma_error_texts(error: StateGraphError)
    ensures
        error matches StateGraphError::UnknownNode(id) ==> error.text() == "nœud inconnu : "@ + id@,
        error matches StateGraphError::UnknownEdgeEndpoint { from, to } ==> error.text()
            == "l'arête '"@ + from@ + "' -> '"@ + to@ + "' référence un nœud inconnu"@,
        error is UnsupportedExecutable ==> error.text()
            == "exécution indisponible : aucun interpréteur câblé pour ce type d'Executable"@,
        error is MissingAgentRuntime ==> error.text()
            == "nœud agent rencontré sans AgentRuntime fourni"@,
        error matches StateGraphError::ExecutionFailed(cause) ==> error.text()
            == "échec d'exécution : "@ + cause@,
{
}

} // verus!
