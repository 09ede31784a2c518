//! What the control plane replicates: members, requests and responses.

use crate::expert::{ExpertDeclaration, ExpertId};
use crate::id::{SessionId, WorkspaceId};
use crate::job::JobId;
use crate::mode::state_graph::declaration::{StateGraphDeclaration, StateGraphId};
use crate::model::declaration::{Model, ModelId};
use crate::network::cp::jobs::{Job, JobState};
use crate::network::peer::PeerId;
use crate::tools::{ToolDeclaration, ToolId};
use vstd::prelude::*;

verus! {

/// Where a member of the cluster can be reached.
#[derive(Debug, PartialEq)]
pub struct RaftNode {
    pub peer_id: Option<PeerId>,
    /// A multiaddress, such as "/ip4/10.0.0.2/tcp/4001".
    pub addr: String,
}

/// Numbers the members of the cluster.
pub type RaftNodeId = u64;

/// What is known of a worker.
#[derive(Debug, PartialEq)]
pub struct WorkerInfo {
    pub peer_id: PeerId,
}

/// A change of the replicated state.
#[allow(inconsistent_fields)]
#[derive(Debug, PartialEq)]
pub enum ControlPlaneRequest {
    SubmitJob(Job),
    AssignJob { job_id: JobId, worker: PeerId },
    CommitState { job_id: JobId, new_state: JobState },
    RegisterWorker { worker: WorkerInfo },
    /// Forgets a worker. A peer identity never comes back, so this is plain
    /// housekeeping.
    UnregisterWorker { peer_id: PeerId },
    /// A persistency peer serves as a holder of last resort for every session.
    RegisterPersistency { peer_id: PeerId },
    SetModel { id: ModelId, declaration: Model },
    RemoveModel { id: ModelId },
    SetTool { id: ToolId, declaration: ToolDeclaration },
    RemoveTool { id: ToolId },
    SetExpert { id: ExpertId, declaration: ExpertDeclaration },
    RemoveExpert { id: ExpertId },
    SetStateGraph { id: StateGraphId, declaration: StateGraphDeclaration },
    RemoveStateGraph { id: StateGraphId },
    /// Says which workspace a session belongs to, or that it belongs to none.
    SetSessionWorkspace { session_id: SessionId, workspace_id: Option<WorkspaceId> },
}

/// What became of a request.
#[derive(Debug, PartialEq)]
pub enum ControlPlaneResponse {
    Accepted,
    Rejected { reason: String },
}

} // verus!
