use marie_core::collections::Table;
use marie_core::hrw::{combined_hash, fmix64, fnv1a, pick, pick_top_n, rank, score};
use marie_core::id::{GlobalAgentId, SessionId, ID};
use marie_core::mode::executable::RustRegistry;
use marie_core::mode::orchestration::{Orchestration, OrchestrationStrategy};
use marie_core::mode::state_graph::catalog::{load_state_graph_catalog_from_store, StateGraphCatalog, StoredStateGraph};
use marie_core::mode::state_graph::declaration::{StateGraphDeclaration, StateGraphId};
use marie_core::mode::state_graph::Node;
use marie_core::mode::{pop_mode_tool_declaration, push_mode_tool_declaration, SessionMode};
use marie_core::text::{decimal, ends_with, hex, same_text, starts_with};
use marie_core::tools::ToolScope;

#[test]
fn hashes() {
    assert_eq!(fnv1a(b""), 0xcbf29ce484222325);
    assert_eq!(fnv1a(b"a"), 0xaf63dc4c8601ec8c);
    assert_eq!(fmix64(0), 0);
    assert_eq!(fmix64(1), 12994781566227106604);
    assert_eq!(score(b"k", b"n"), combined_hash(b"k", b"n"));
    assert_ne!(score(b"k", b"n"), score(b"n", b"k"));
}

#[test]
fn highest_scores_are_picked() {
    let nodes = ["a", "b", "c", "d"];
    assert_eq!(pick(&[1, 5, 5, -2], &nodes), Some(&"c"));
    assert_eq!(pick::<u8>(&[], &[]), None);
    assert_eq!(rank(&[1, 5, 3, 5]), vec![1, 3, 2, 0]);
    assert_eq!(pick_top_n(&[1, 5, 3, 5], &nodes, 2), vec![&"b", &"d"]);
    assert_eq!(pick_top_n(&[1, 5, 3, 5], &nodes, 9), vec![&"b", &"d", &"c", &"a"]);
}

#[test]
fn tables() {
    let mut table: Table<String, u8> = Table::new();
    assert_eq!(table.insert("a".to_string(), 1), None);
    assert_eq!(table.insert("b".to_string(), 2), None);
    assert_eq!(table.insert("a".to_string(), 3), Some(1));
    assert_eq!(table.len(), 2);
    assert_eq!(table.get(&"a".to_string()), Some(&3));
    assert_eq!(table.remove(&"a".to_string()), Some(3));
    assert_eq!(table.remove(&"a".to_string()), None);
    assert_eq!(table.key_at(0), "b");
    assert_eq!(table.value_at(0), &2);
}

#[test]
fn texts() {
    assert_eq!(decimal(0), "0");
    assert_eq!(decimal(u64::MAX), "18446744073709551615");
    assert_eq!(hex(0xdeadbeef, 16), "00000000deadbeef");
    assert!(starts_with("été", "ét"));
    assert!(!starts_with("ét", "été"));
    assert!(ends_with("rapport.pdf", ".pdf"));
    assert!(!ends_with("pdf", ".pdf"));
    assert!(same_text("é", "é"));
    assert_eq!(ID(0x0102).as_bytes()[14..], [1, 2]);
    assert_eq!(ID(0x0102).as_bytes().len(), 16);
}

#[test]
fn modes() {
    let mut orchestration = Orchestration::new(OrchestrationStrategy::Parallel);
    let agent = GlobalAgentId::new(SessionId(ID(1)), ID(2));
    orchestration.add_child(agent);
    assert_eq!(orchestration.children, vec![agent]);
    assert!(matches!(SessionMode::Orchestration(orchestration), SessionMode::Orchestration(_)));
    let push = push_mode_tool_declaration();
    assert_eq!(push.signature.name, "system/push-mode");
    assert_eq!(push.scope, ToolScope::Session);
    let schema: serde_json::Value = serde_json::from_str(&push.signature.parameters_schema).unwrap();
    assert_eq!(schema["properties"]["mode"]["enum"][0], "orchestration");
    assert_eq!(schema["required"][0], "mode");
    let pop = pop_mode_tool_declaration();
    assert_eq!(pop.signature.name, "system/pop-mode");
    assert!(serde_json::from_str::<serde_json::Value>(&pop.signature.parameters_schema).is_ok());
}

#[test]
fn registries_of_functions() {
    let mut registry: RustRegistry<u8, u8> = RustRegistry::new();
    registry.register_node("n".to_string(), 1);
    registry.register_edge("e".to_string(), 2);
    assert_eq!(registry.run_node(&"n".to_string()), Ok(&1));
    assert_eq!(registry.eval_edge(&"e".to_string()), Ok(&2));
    assert!(registry.run_node(&"e".to_string()).is_err());
    assert!(registry.eval_edge(&"n".to_string()).is_err());
}

#[test]
fn catalogs_of_state_graphs() {
    let id = |t: &str| StateGraphId::new(t.to_string());
    let declaration = |entry: &str| StateGraphDeclaration {
        nodes: vec![Node::new(entry.to_string(), None)],
        edges: vec![],
        entry: entry.to_string(),
    };
    let mut catalog = StateGraphCatalog::new();
    assert_eq!(catalog.insert(id("g"), declaration("a")), None);
    assert_eq!(catalog.insert(id("g"), declaration("b")), Some(declaration("a")));
    assert_eq!(catalog.get(&id("g")), Some(&declaration("b")));
    assert_eq!(catalog.remove(&id("g")), Some(declaration("b")));
    assert_eq!(catalog.get(&id("g")), None);
    let loaded = load_state_graph_catalog_from_store(Some(vec![StoredStateGraph {
        id: id("h"),
        declaration: declaration("c"),
    }]));
    assert_eq!(loaded.get(&id("h")), Some(&declaration("c")));
    assert_eq!(load_state_graph_catalog_from_store(None).get(&id("h")), None);
}
