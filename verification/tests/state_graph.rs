use marie_core::id::ID;
use marie_core::mode::executable::{Executable, NodeOutcome, RustRegistry, YieldStatus};
use marie_core::mode::state_graph::client::{StateGraphClient, StateGraphClientError};
use marie_core::mode::state_graph::declaration::{StateGraphDeclaration, StateGraphId};
use marie_core::mode::state_graph::{
    agent_prompt, settle_node, Advance, Edge, Node, NodeCall, StateGraph, StateGraphError,
};
use serde_json::Value;

type NodeFn = Box<dyn Fn(&Value) -> Result<NodeOutcome, String>>;
type EdgeFn = Box<dyn Fn(&Value) -> Result<bool, String>>;

fn node(id: &str, action: Option<Executable>) -> Node {
    Node::new(id.to_string(), action)
}

fn edge(from: &str, to: &str, guard: Option<Executable>) -> Edge {
    Edge::new(from.to_string(), to.to_string(), guard)
}

fn rust(id: &str) -> Executable {
    Executable::Rust { id: id.to_string() }
}

fn graph(nodes: Vec<Node>, edges: Vec<Edge>) -> StateGraph {
    StateGraph::new(nodes, edges, "start".to_string()).unwrap()
}

/// Advances the graph, evaluating guards by their names as it asks for them.
fn advance(graph: &mut StateGraph, registry: &RustRegistry<NodeFn, EdgeFn>, input: &Value) -> Result<bool, StateGraphError> {
    let mut verdicts: Vec<Result<bool, String>> = Vec::new();
    loop {
        match graph.advance(&verdicts)? {
            Advance::Moved => return Ok(true),
            Advance::Stuck => return Ok(false),
            Advance::Evaluate { id } => verdicts.push(match registry.eval_edge(&id) {
                Ok(guard) => guard(input),
                Err(error) => Err(error),
            }),
        }
    }
}

/// Executes the action of the current node.
fn execute_current(
    graph: &StateGraph,
    registry: &RustRegistry<NodeFn, EdgeFn>,
    input: &Value,
) -> Result<Option<NodeOutcome>, StateGraphError> {
    match graph.execute_current(registry, false)? {
        None => Ok(None),
        Some(NodeCall::Function(action)) => settle_node(action(input)),
        Some(NodeCall::Agent { .. }) => panic!("no agent runtime"),
    }
}

fn approval(approved: bool) -> Value {
    let mut input = serde_json::Map::new();
    input.insert("approved".to_string(), Value::Bool(approved));
    Value::Object(input)
}

fn is_approved() -> EdgeFn {
    Box::new(|input| Ok(input.get("approved").and_then(Value::as_bool).unwrap_or(false)))
}

#[test]
fn test_new_rejects_unknown_entry() {
    let nodes = vec![node("start", None)];
    assert!(matches!(
        StateGraph::new(nodes, vec![], "missing".to_string()),
        Err(StateGraphError::UnknownNode(_))
    ));
}

#[test]
fn test_new_rejects_edge_to_unknown_node() {
    let nodes = vec![node("start", None)];
    let edges = vec![edge("start", "nowhere", None)];
    assert!(matches!(
        StateGraph::new(nodes, edges, "start".to_string()),
        Err(StateGraphError::UnknownEdgeEndpoint { .. })
    ));
}

#[test]
fn test_advance_follows_default_edge() {
    let mut graph = graph(vec![node("start", None), node("end", None)], vec![edge("start", "end", None)]);
    let registry = RustRegistry::new();

    assert!(advance(&mut graph, &registry, &Value::Null).unwrap());
    assert_eq!(graph.current, "end");
}

#[test]
fn test_advance_evaluates_rust_guard() {
    let mut graph = graph(
        vec![node("start", None), node("approved", None), node("rejected", None)],
        vec![edge("start", "approved", Some(rust("is_approved"))), edge("start", "rejected", None)],
    );
    let mut registry = RustRegistry::new();
    registry.register_edge("is_approved".to_string(), is_approved());

    assert!(advance(&mut graph, &registry, &approval(true)).unwrap());
    assert_eq!(graph.current, "approved");
}

#[test]
fn test_advance_falls_back_to_default_edge_when_guard_fails() {
    let mut graph = graph(
        vec![node("start", None), node("approved", None), node("rejected", None)],
        vec![edge("start", "approved", Some(rust("is_approved"))), edge("start", "rejected", None)],
    );
    let mut registry = RustRegistry::new();
    registry.register_edge("is_approved".to_string(), is_approved());

    assert!(advance(&mut graph, &registry, &approval(false)).unwrap());
    assert_eq!(graph.current, "rejected");
}

#[test]
fn test_advance_returns_false_when_no_edge_matches() {
    let mut graph = graph(
        vec![node("start", None), node("end", None)],
        vec![edge("start", "end", Some(rust("never")))],
    );
    let mut registry: RustRegistry<NodeFn, EdgeFn> = RustRegistry::new();
    registry.register_edge("never".to_string(), Box::new(|_| Ok(false)));

    assert!(!advance(&mut graph, &registry, &Value::Null).unwrap());
    assert_eq!(graph.current, "start");
}

#[test]
fn test_advance_errors_on_script_guard() {
    let script = Executable::Python { source: "True".to_string() };
    let mut graph = graph(vec![node("start", None), node("end", None)], vec![edge("start", "end", Some(script))]);
    let registry = RustRegistry::new();

    assert!(matches!(
        advance(&mut graph, &registry, &Value::Null),
        Err(StateGraphError::UnsupportedExecutable)
    ));
}

#[test]
fn test_execute_current_runs_rust_action() {
    let graph = graph(vec![node("start", Some(rust("greet")))], vec![]);
    let mut registry: RustRegistry<NodeFn, EdgeFn> = RustRegistry::new();
    registry.register_node("greet".to_string(), Box::new(|_| Ok(NodeOutcome::Value("\"bonjour\"".to_string()))));

    let output = execute_current(&graph, &registry, &Value::Null).unwrap();
    assert!(matches!(output, Some(NodeOutcome::Value(value)) if value == "\"bonjour\""));
}

#[test]
fn test_execute_current_propagates_yield() {
    let graph = graph(vec![node("start", Some(rust("ask_human")))], vec![]);
    let mut registry: RustRegistry<NodeFn, EdgeFn> = RustRegistry::new();
    let tool_call_id = ID(12345);
    registry.register_node(
        "ask_human".to_string(),
        Box::new(move |_| Ok(NodeOutcome::Yield(YieldStatus::WaitingToolReply { tool_call_id }))),
    );

    let output = execute_current(&graph, &registry, &Value::Null).unwrap();
    assert!(matches!(
        output,
        Some(NodeOutcome::Yield(YieldStatus::WaitingToolReply { tool_call_id: id })) if id == tool_call_id
    ));
}

#[test]
fn test_execute_current_rejects_agent_node_without_runtime() {
    let graph = graph(
        vec![node(
            "start",
            Some(Executable::Agent { expert_id: "researcher".to_string(), task: "résume ce document".to_string() }),
        )],
        vec![],
    );
    let registry = RustRegistry::new();

    let result = execute_current(&graph, &registry, &Value::Null);
    assert!(matches!(result, Err(StateGraphError::MissingAgentRuntime)));
}

#[test]
fn agent_node_runs_with_a_runtime() {
    let graph = graph(
        vec![node("start", Some(Executable::Agent { expert_id: "e".to_string(), task: "t".to_string() }))],
        vec![],
    );
    let registry: RustRegistry<NodeFn, EdgeFn> = RustRegistry::new();
    match graph.execute_current(&registry, true) {
        Ok(Some(NodeCall::Agent { expert_id, task })) => {
            assert_eq!(expert_id, "e");
            assert_eq!(task, "t");
        }
        _ => panic!("expected an agent"),
    }
    let rune = StateGraph::new(
        vec![node("start", Some(Executable::Rune { source: "1".to_string() }))],
        vec![],
        "start".to_string(),
    )
    .unwrap();
    assert!(matches!(rune.execute_current(&registry, true), Err(StateGraphError::UnsupportedExecutable)));
}

#[test]
fn failed_and_unknown_node_functions_fail_the_node() {
    let graph = graph(vec![node("start", Some(rust("greet")))], vec![]);
    let mut registry: RustRegistry<NodeFn, EdgeFn> = RustRegistry::new();
    match execute_current(&graph, &registry, &Value::Null) {
        Err(StateGraphError::ExecutionFailed(cause)) => assert_eq!(cause, "fonction de nœud inconnue : greet"),
        _ => panic!("expected a failure"),
    }
    registry.register_node("greet".to_string(), Box::new(|_| Err("aphone".to_string())));
    match execute_current(&graph, &registry, &Value::Null) {
        Err(StateGraphError::ExecutionFailed(cause)) => assert_eq!(cause, "aphone"),
        _ => panic!("expected a failure"),
    }
}

#[test]
fn guard_that_fails_stops_the_walk() {
    let mut graph = graph(
        vec![node("start", None), node("end", None)],
        vec![edge("start", "end", Some(rust("broken"))), edge("start", "end", None)],
    );
    let registry: RustRegistry<NodeFn, EdgeFn> = RustRegistry::new();
    match advance(&mut graph, &registry, &Value::Null) {
        Err(StateGraphError::ExecutionFailed(message)) => assert!(message.contains("broken")),
        _ => panic!("expected a failure"),
    }
    assert_eq!(graph.current, "start");
}

#[test]
fn default_edge_is_taken_where_it_stands() {
    let mut graph = graph(
        vec![node("start", None), node("a", None), node("b", None)],
        vec![edge("start", "a", None), edge("start", "b", Some(rust("yes")))],
    );
    assert!(matches!(graph.advance(&vec![]), Ok(Advance::Moved)));
    assert_eq!(graph.current, "a");
}

#[test]
fn prompts() {
    assert_eq!(agent_prompt("Tu es expert.", "Résume.", None), "Tu es expert.\n\nRésume.");
    assert_eq!(
        agent_prompt("Tu es expert.", "Résume.", Some("{\"a\":1}")),
        "Tu es expert.\n\nRésume.\n\nRésultat du pas précédent: {\"a\":1}"
    );
}

fn declaration(entry: &str) -> StateGraphDeclaration {
    StateGraphDeclaration {
        nodes: vec![node("start", None)],
        edges: vec![edge("start", "start", None)],
        entry: entry.to_string(),
    }
}

#[test]
fn client_refuses_incoherent_declarations() {
    assert_eq!(StateGraphClient::set(&declaration("start")), Ok(()));
    assert_eq!(
        StateGraphClient::set(&declaration("missing")),
        Err(StateGraphClientError::InvalidDeclaration(StateGraphError::UnknownNode("missing".to_string())))
    );
}

#[test]
fn client_reads_replies() {
    let id = || StateGraphId::new("g".to_string());
    assert_eq!(
        StateGraphClient::get(id(), Ok(None)).err().map(|e| e.message()),
        Some("graphe d'états inconnu : g".to_string())
    );
    assert_eq!(
        StateGraphClient::get(id(), Err("coupé".to_string())).err().map(|e| e.message()),
        Some("échec réseau : coupé".to_string())
    );
    assert_eq!(StateGraphClient::outcome::<u8>(Err("x".to_string())), Err(StateGraphClientError::Network("x".to_string())));
    let graph = match StateGraphClient::instantiate(id(), Ok(Some(declaration("start")))) {
        Ok(graph) => graph,
        Err(_) => panic!("the declaration is coherent"),
    };
    assert_eq!(graph.current, "start");
    assert_eq!(graph.current_node().id, "start");
    assert!(StateGraphClient::instantiate(id(), Ok(Some(declaration("missing")))).is_err());
}
