//! Declarations of experts: agents that can be put on a task.

use crate::collections::Key;
use crate::model::declaration::ModelId;
use crate::tools::ToolId;
use vstd::prelude::*;

verus! {

/// Identifies an expert in the catalog.
#[derive(Debug, PartialEq, Eq, Hash, PartialOrd, Ord)]
pub struct ExpertId(String);

impl View for ExpertId {
    type V = Seq<char>;

    closed spec fn view(&self) -> Seq<char> {
        self.0@
    }
}

impl ExpertId {
    pub fn new(id: String) -> (r: ExpertId)
        ensures
            r@ == id@,
    {
        ExpertId(id)
    }

    pub fn as_str(&self) -> (r: &str)
        ensures
            r@ == self@,
    {
        self.0.as_str()
    }
}

impl Key for ExpertId {
    fn same(&self, other: &Self) -> (r: bool) {
        self.0 == other.0
    }
}

/// An expert refers to its model and tools by identifier only; nothing checks
/// that they exist when it is declared.
#[derive(Debug, PartialEq, Eq)]
pub struct ExpertDeclaration {
    pub prompt: String,
    pub model_id: ModelId,
    pub allowed_tools: Vec<ToolId>,
}

} // verus!
