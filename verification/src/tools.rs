//! Declarations of the tools that a model may call.

use crate::collections::Key;
use vstd::prelude::*;

verus! {

/// Identifies a tool in the catalog.
#[derive(Debug, PartialEq, Eq, Hash, PartialOrd, Ord)]
pub struct ToolId(String);

impl View for ToolId {
    type V = Seq<char>;

    closed spec fn view(&self) -> Seq<char> {
        self.0@
    }
}

impl ToolId {
    pub fn new(id: String) -> (r: ToolId)
        ensures
            r@ == id@,
    {
        ToolId(id)
    }

    /// The identifier as text.
    pub fn as_str(&self) -> (r: &str)
        ensures
            r@ == self@,
    {
        self.0.as_str()
    }
}

impl Key for ToolId {
    fn same(&self, other: &Self) -> (r: bool) {
        self.0 == other.0
    }
}

/// What a model is told about a tool.
#[derive(Debug, PartialEq, Eq)]
pub struct ToolSignature {
    pub name: String,
    pub description: String,
    /// JSON schema of the arguments, as JSON text.
    pub parameters_schema: String,
}

/// Who may call a tool.
#[derive(Debug, Clone, Copy, PartialEq, Eq, Structural)]
pub enum ToolScope {
    /// Every agent.
    Global,
    /// Only agents whose frame lists the tool.
    Session,
}

/// A tool of the catalog.
#[derive(Debug, PartialEq, Eq)]
pub struct ToolDeclaration {
    pub signature: ToolSignature,
    pub scope: ToolScope,
}

} // verus!
