//! Modes of a session: how the agent that runs it reads its current turn.

pub mod executable;
pub mod orchestration;
pub mod state_graph;

use crate::mode::orchestration::Orchestration;
use crate::mode::state_graph::StateGraph;
use crate::tools::{ToolDeclaration, ToolScope, ToolSignature};
use vstd::prelude::*;

verus! {

/// The mode on top of a session's stack.
pub enum SessionMode {
    /// A direct conversation with one agent: the mode of an empty stack.
    Simple,
    /// An agent delegates to child agents.
    Orchestration(Orchestration),
    /// The execution follows an explicit graph.
    StateGraph(StateGraph),
}

/// The tool that pushes a mode on the current session.
pub const PUSH_MODE_TOOL: &'static str = "system/push-mode";

/// The tool that pops the current mode of the session.
pub const POP_MODE_TOOL: &'static str = "system/pop-mode";

/// What a model is told of [`PUSH_MODE_TOOL`].
pub const PUSH_MODE_DESCRIPTION: &'static str = "Empile un nouveau mode de fonctionnement sur la session courante (orchestration ou graphe d'états), à dépiler avec system/pop-mode une fois la sous-tâche terminée pour revenir au mode précédent.";

/// The arguments of [`PUSH_MODE_TOOL`], as a JSON schema.
pub const PUSH_MODE_SCHEMA: &'static str = "{\"type\":\"object\",\"properties\":{\"mode\":{\"type\":\"string\",\"enum\":[\"orchestration\",\"state_graph\"],\"description\":\"Le mode à empiler. 'simple' ne peut pas être empilé : dépiler (system/pop-mode) suffit à y revenir.\"},\"strategy\":{\"type\":\"string\",\"enum\":[\"sequential\",\"parallel\"],\"description\":\"Requis pour mode = orchestration : séquentiel (un enfant après l'autre) ou parallèle.\"},\"nodes\":{\"type\":\"array\",\"description\":\"Requis pour mode = state_graph : liste des nœuds, chacun avec un 'id' et une 'action' optionnelle.\",\"items\":{\"type\":\"object\",\"properties\":{\"id\":{\"type\":\"string\"},\"action\":{\"type\":\"object\",\"description\":\"Un Executable ({\\\"kind\\\": \\\"rust\\\", \\\"id\\\": \\\"...\\\"}, {\\\"kind\\\": \\\"agent\\\", \\\"expert_id\\\": \\\"...\\\", \\\"task\\\": \\\"...\\\"}, etc.), absent pour un nœud sans effet propre.\"}},\"required\":[\"id\"]}},\"edges\":{\"type\":\"array\",\"description\":\"Requis pour mode = state_graph : liste des transitions.\",\"items\":{\"type\":\"object\",\"properties\":{\"from\":{\"type\":\"string\"},\"to\":{\"type\":\"string\"},\"guard\":{\"type\":\"object\",\"description\":\"Un Executable conditionnant le franchissement, absent pour une arête par défaut.\"}},\"required\":[\"from\",\"to\"]}},\"entry\":{\"type\":\"string\",\"description\":\"Requis pour mode = state_graph : id du nœud initial.\"}},\"required\":[\"mode\"]}";

/// What a model is told of [`POP_MODE_TOOL`].
pub const POP_MODE_DESCRIPTION: &'static str = "Dépile le mode de fonctionnement courant de la session et revient au précédent (ou au mode 'simple' si la pile est désormais vide). Ne prend aucun argument.";

/// The arguments of [`POP_MODE_TOOL`], as a JSON schema: none.
pub const POP_MODE_SCHEMA: &'static str = "{\"type\":\"object\",\"properties\":{}}";

/// The declaration of [`PUSH_MODE_TOOL`]. Its scope is the session: changing
/// the mode of one's own session is open only to frames that list the tool.
pub fn push_mode_tool_declaration() -> (r: ToolDeclaration)
    ensures
        r.signature.name@ == PUSH_MODE_TOOL@,
        r.signature.name@ == "system/push-mode"@,
        r.signature.description@ == PUSH_MODE_DESCRIPTION@,
        r.signature.parameters_schema@ == PUSH_MODE_SCHEMA@,
        r.scope == ToolScope::Session,
{
    ToolDeclaration {
        signature: ToolSignature {
            name: PUSH_MODE_TOOL.to_owned(),
            description: PUSH_MODE_DESCRIPTION.to_owned(),
            parameters_schema: PUSH_MODE_SCHEMA.to_owned(),
        },
        scope: ToolScope::Session,
    }
}

/// The declaration of [`POP_MODE_TOOL`], which takes no argument.
pub fn pop_mode_tool_declaration() -> (r: ToolDeclaration)
    ensures
        r.signature.name@ == POP_MODE_TOOL@,
        r.signature.name@ == "system/pop-mode"@,
        r.signature.description@ == POP_MODE_DESCRIPTION@,
        r.signature.parameters_schema@ == POP_MODE_SCHEMA@,
        r.scope == ToolScope::Session,
{
    ToolDeclaration {
        signature: ToolSignature {
            name: POP_MODE_TOOL.to_owned(),
            description: POP_MODE_DESCRIPTION.to_owned(),
            parameters_schema: POP_MODE_SCHEMA.to_owned(),
        },
        scope: ToolScope::Session,
    }
}

} // verus!
