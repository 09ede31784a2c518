//! Remote procedures: their names, arguments and results.

use crate::expert::{ExpertDeclaration, ExpertId};
use crate::id::{SessionId, WorkspaceId};
use crate::job::JobId;
use crate::mode::state_graph::declaration::{StateGraphDeclaration, StateGraphId};
use crate::model::declaration::{Model, ModelId};
use crate::network::cp::jobs::{Job, JobState};
use crate::text::same_text;
use crate::tools::{ToolDeclaration, ToolId};
use vstd::prelude::*;

verus! {

/// A call of a remote procedure; the arguments are JSON text.
#[derive(Debug, PartialEq)]
pub struct RpcCall {
    pub name: String,
    pub args: String,
}

impl RpcCall {
    /// Peer to control plane: volunteers to execute the procedure of the given name.
    pub const REGISTER_RPC: &'static str = "register-rpc";

    /// A nonce of 32 bytes to prove membership of the cluster on.
    pub const AUTH_CHALLENGE: &'static str = "auth-challenge";

    /// The declaration of a model, its API key encrypted for the caller.
    pub const GET_MODEL: &'static str = "get-model";

    /// Every model, its API key encrypted for the caller.
    pub const LIST_MODELS: &'static str = "list-models";

    /// Creates or replaces a model ([`SetModelRequest`]).
    pub const SET_MODEL: &'static str = "set-model";

    /// Removes a model.
    pub const REMOVE_MODEL: &'static str = "remove-model";

    /// The declaration of a tool.
    pub const GET_TOOL: &'static str = "get-tool";

    /// Every tool.
    pub const LIST_TOOLS: &'static str = "list-tools";

    /// Creates or replaces a tool ([`SetToolRequest`]).
    pub const SET_TOOL: &'static str = "set-tool";

    /// Removes a tool.
    pub const REMOVE_TOOL: &'static str = "remove-tool";

    /// The declaration of an expert.
    pub const GET_EXPERT: &'static str = "get-expert";

    /// Every expert.
    pub const LIST_EXPERTS: &'static str = "list-experts";

    /// Creates or replaces an expert ([`SetExpertRequest`]).
    pub const SET_EXPERT: &'static str = "set-expert";

    /// Removes an expert.
    pub const REMOVE_EXPERT: &'static str = "remove-expert";

    /// The declaration of a state graph.
    pub const GET_STATE_GRAPH: &'static str = "get-state-graph";

    /// Every state graph.
    pub const LIST_STATE_GRAPHS: &'static str = "list-state-graphs";

    /// Creates or replaces a state graph ([`SetStateGraphRequest`]).
    pub const SET_STATE_GRAPH: &'static str = "set-state-graph";

    /// Removes a state graph.
    pub const REMOVE_STATE_GRAPH: &'static str = "remove-state-graph";

    /// Replication of the log.
    pub const APPEND_ENTRIES: &'static str = "append-entries";

    /// Transfer of a snapshot.
    pub const INSTALL_SNAPSHOT: &'static str = "install-snapshot";

    /// Election of a leader.
    pub const VOTE: &'static str = "vote";

    /// Proposes a job.
    pub const SUBMIT_JOB: &'static str = "submit-job";

    /// Who to ask for the state of a session, in the order to try.
    pub const SESSION_HOLDERS: &'static str = "session-holders";

    /// Who to ask for the state of a workspace, in the order to try.
    pub const WORKSPACE_HOLDERS: &'static str = "workspace-holders";

    /// Says which workspace a session belongs to ([`SetSessionWorkspaceRequest`]).
    pub const SET_SESSION_WORKSPACE: &'static str = "set-session-workspace";

    /// Which workspace a session belongs to.
    pub const SESSION_WORKSPACE: &'static str = "session-workspace";

    /// Worker to control plane: a job has come further ([`JobStateReport`]).
    pub const REPORT_JOB_STATE: &'static str = "report-job-state";

    /// Control plane to worker: execute a job ([`RunJobRequest`]). A mere notification: the assignment in the replicated state decides.
    pub const RUN_JOB: &'static str = "run-job";

    /// Worker to worker: what the caller misses of a session ([`SessionFetchRequest`]).
    pub const FETCH_SESSION: &'static str = "fetch-session";

    /// Client to persistency node: deletes a session for good.
    pub const DELETE_SESSION: &'static str = "delete-session";

    /// Worker to worker: what the caller misses of a workspace ([`WorkspaceFetchRequest`]).
    pub const FETCH_WORKSPACE: &'static str = "fetch-workspace";

    /// A call of `name` with the given arguments.
    pub fn new(name: &str, args: String) -> (r: Self)
        ensures
            r.name@ == name@,
            r.args == args,
    {
        RpcCall { name: name.to_owned(), args }
    }
}

impl Clone for RpcCall {
    fn clone(&self) -> (r: Self)
        ensures
            r == *self,
    {
        RpcCall { name: self.name.clone(), args: self.args.clone() }
    }
}

/// What a call came to: a value (JSON text) or an error.
#[derive(Debug, PartialEq)]
pub enum RpcResult {
    RpcOk(String),
    RpcErr(String),
}

impl RpcResult {
    /// The reply for an outcome.
    pub fn from_outcome(outcome: Result<String, String>) -> (r: Self)
        ensures
            r == (match outcome {
                Ok(value) => RpcResult::RpcOk(value),
                Err(error) => RpcResult::RpcErr(error),
            }),
    {
        match outcome {
            Ok(value) => RpcResult::RpcOk(value),
            Err(error) => RpcResult::RpcErr(error),
        }
    }
}

/// The result of a call of which only success or failure matters.
#[derive(Debug, Clone, Copy, PartialEq, Eq, Structural)]
pub struct Void;

/// A job has come further.
#[derive(Debug, PartialEq)]
pub struct JobStateReport {
    pub job_id: JobId,
    pub state: JobState,
}

#[derive(Debug, PartialEq)]
pub struct SetModelRequest {
    pub id: ModelId,
    pub declaration: Model,
}

#[derive(Debug, PartialEq)]
pub struct SetToolRequest {
    pub id: ToolId,
    pub declaration: ToolDeclaration,
}

#[derive(Debug, PartialEq)]
pub struct SetExpertRequest {
    pub id: ExpertId,
    pub declaration: ExpertDeclaration,
}

#[derive(Debug, PartialEq)]
pub struct SetStateGraphRequest {
    pub id: StateGraphId,
    pub declaration: StateGraphDeclaration,
}

/// Asks for what is missing of a session. `state_vector` says what the caller
/// has seen; empty if it has never seen the session.
#[derive(Debug, PartialEq)]
pub struct SessionFetchRequest {
    pub session_id: SessionId,
    pub state_vector: Vec<u8>,
}

/// The job to execute. The worker looks up the holders of its session itself:
/// a list made when the job was assigned may be stale.
#[derive(Debug, Clone, Copy, PartialEq, Eq, Structural)]
pub struct RunJobRequest {
    pub job: Job,
}

/// Asks for what is missing of a workspace.
#[derive(Debug, PartialEq)]
pub struct WorkspaceFetchRequest {
    pub workspace_id: WorkspaceId,
    pub state_vector: Vec<u8>,
}

#[derive(Debug, Clone, Copy, PartialEq, Eq, Structural)]
pub struct SetSessionWorkspaceRequest {
    pub session_id: SessionId,
    pub workspace_id: Option<WorkspaceId>,
}

/// The procedures that a control plane serves itself, and the others.
#[derive(Debug, Clone, Copy, PartialEq, Eq, Structural)]
pub enum RpcRoute {
    RegisterRpc,
    AuthChallenge,
    GetModel,
    ListModels,
    SetModel,
    RemoveModel,
    GetTool,
    ListTools,
    SetTool,
    RemoveTool,
    GetExpert,
    ListExperts,
    SetExpert,
    RemoveExpert,
    GetStateGraph,
    ListStateGraphs,
    SetStateGraph,
    RemoveStateGraph,
    AppendEntries,
    InstallSnapshot,
    Vote,
    SubmitJob,
    SessionHolders,
    WorkspaceHolders,
    SetSessionWorkspace,
    SessionWorkspace,
    ReportJobState,
    /// Not served here: perhaps a peer has volunteered for it.
    Dynamic,
}

/// The procedure that `name` names.
pub open spec fn route_of(name: Seq<char>) -> RpcRoute {
    if name == RpcCall::REGISTER_RPC@ {
        RpcRoute::RegisterRpc
    } else if name == RpcCall::AUTH_CHALLENGE@ {
        RpcRoute::AuthChallenge
    } else if name == RpcCall::GET_MODEL@ {
        RpcRoute::GetModel
    } else if name == RpcCall::LIST_MODELS@ {
        RpcRoute::ListModels
    } else if name == RpcCall::SET_MODEL@ {
        RpcRoute::SetModel
    } else if name == RpcCall::REMOVE_MODEL@ {
        RpcRoute::RemoveModel
    } else if name == RpcCall::GET_TOOL@ {
        RpcRoute::GetTool
    } else if name == RpcCall::LIST_TOOLS@ {
        RpcRoute::ListTools
    } else if name == RpcCall::SET_TOOL@ {
        RpcRoute::SetTool
    } else if name == RpcCall::REMOVE_TOOL@ {
        RpcRoute::RemoveTool
    } else if name == RpcCall::GET_EXPERT@ {
        RpcRoute::GetExpert
    } else if name == RpcCall::LIST_EXPERTS@ {
        RpcRoute::ListExperts
    } else if name == RpcCall::SET_EXPERT@ {
        RpcRoute::SetExpert
    } else if name == RpcCall::REMOVE_EXPERT@ {
        RpcRoute::RemoveExpert
    } else if name == RpcCall::GET_STATE_GRAPH@ {
        RpcRoute::GetStateGraph
    } else if name == RpcCall::LIST_STATE_GRAPHS@ {
        RpcRoute::ListStateGraphs
    } else if name == RpcCall::SET_STATE_GRAPH@ {
        RpcRoute::SetStateGraph
    } else if name == RpcCall::REMOVE_STATE_GRAPH@ {
        RpcRoute::RemoveStateGraph
    } else if name == RpcCall::APPEND_ENTRIES@ {
        RpcRoute::AppendEntries
    } else if name == RpcCall::INSTALL_SNAPSHOT@ {
        RpcRoute::InstallSnapshot
    } else if name == RpcCall::VOTE@ {
        RpcRoute::Vote
    } else if name == RpcCall::SUBMIT_JOB@ {
        RpcRoute::SubmitJob
    } else if name == RpcCall::SESSION_HOLDERS@ {
        RpcRoute::SessionHolders
    } else if name == RpcCall::WORKSPACE_HOLDERS@ {
        RpcRoute::WorkspaceHolders
    } else if name == RpcCall::SET_SESSION_WORKSPACE@ {
        RpcRoute::SetSessionWorkspace
    } else if name == RpcCall::SESSION_WORKSPACE@ {
        RpcRoute::SessionWorkspace
    } else if name == RpcCall::REPORT_JOB_STATE@ {
        RpcRoute::ReportJobState
    } else {
        RpcRoute::Dynamic
    }
}

/// The procedure that `name` names.
pub fn route(name: &str) -> (r: RpcRoute)
    ensures
        r == route_of(name@),
{
    if same_text(name, RpcCall::REGISTER_RPC) {
        RpcRoute::RegisterRpc
    } else if same_text(name, RpcCall::AUTH_CHALLENGE) {
        RpcRoute::AuthChallenge
    } else if same_text(name, RpcCall::GET_MODEL) {
        RpcRoute::GetModel
    } else if same_text(name, RpcCall::LIST_MODELS) {
        RpcRoute::ListModels
    } else if same_text(name, RpcCall::SET_MODEL) {
        RpcRoute::SetModel
    } else if same_text(name, RpcCall::REMOVE_MODEL) {
        RpcRoute::RemoveModel
    } else if same_text(name, RpcCall::GET_TOOL) {
        RpcRoute::GetTool
    } else if same_text(name, RpcCall::LIST_TOOLS) {
        RpcRoute::ListTools
    } else if same_text(name, RpcCall::SET_TOOL) {
        RpcRoute::SetTool
    } else if same_text(name, RpcCall::REMOVE_TOOL) {
        RpcRoute::RemoveTool
    } else if same_text(name, RpcCall::GET_EXPERT) {
        RpcRoute::GetExpert
    } else if same_text(name, RpcCall::LIST_EXPERTS) {
        RpcRoute::ListExperts
    } else if same_text(name, RpcCall::SET_EXPERT) {
        RpcRoute::SetExpert
    } else if same_text(name, RpcCall::REMOVE_EXPERT) {
        RpcRoute::RemoveExpert
    } else if same_text(name, RpcCall::GET_STATE_GRAPH) {
        RpcRoute::GetStateGraph
    } else if same_text(name, RpcCall::LIST_STATE_GRAPHS) {
        RpcRoute::ListStateGraphs
    } else if same_text(name, RpcCall::SET_STATE_GRAPH) {
        RpcRoute::SetStateGraph
    } else if same_text(name, RpcCall::REMOVE_STATE_GRAPH) {
        RpcRoute::RemoveStateGraph
    } else if same_text(name, RpcCall::APPEND_ENTRIES) {
        RpcRoute::AppendEntries
    } else if same_text(name, RpcCall::INSTALL_SNAPSHOT) {
        RpcRoute::InstallSnapshot
    } else if same_text(name, RpcCall::VOTE) {
        RpcRoute::Vote
    } else if same_text(name, RpcCall::SUBMIT_JOB) {
        RpcRoute::SubmitJob
    } else if same_text(name, RpcCall::SESSION_HOLDERS) {
        RpcRoute::SessionHolders
    } else if same_text(name, RpcCall::WORKSPACE_HOLDERS) {
        RpcRoute::WorkspaceHolders
    } else if same_text(name, RpcCall::SET_SESSION_WORKSPACE) {
        RpcRoute::SetSessionWorkspace
    } else if same_text(name, RpcCall::SESSION_WORKSPACE) {
        RpcRoute::SessionWorkspace
    } else if same_text(name, RpcCall::REPORT_JOB_STATE) {
        RpcRoute::ReportJobState
    } else {
        RpcRoute::Dynamic
    }
}

/// Every procedure is reached under its own name: no two names coincide.
pub proof fn lemma_every_name_routes()
    ensures
        route_of(RpcCall::REGISTER_RPC@) == RpcRoute::RegisterRpc,
        route_of(RpcCall::AUTH_CHALLENGE@) == RpcRoute::AuthChallenge,
        route_of(RpcCall::GET_MODEL@) == RpcRoute::GetModel,
        route_of(RpcCall::LIST_MODELS@) == RpcRoute::ListModels,
        route_of(RpcCall::SET_MODEL@) == RpcRoute::SetModel,
        route_of(RpcCall::REMOVE_MODEL@) == RpcRoute::RemoveModel,
        route_of(RpcCall::GET_TOOL@) == RpcRoute::GetTool,
        route_of(RpcCall::LIST_TOOLS@) == RpcRoute::ListTools,
        route_of(RpcCall::SET_TOOL@) == RpcRoute::SetTool,
        route_of(RpcCall::REMOVE_TOOL@) == RpcRoute::RemoveTool,
        route_of(RpcCall::GET_EXPERT@) == RpcRoute::GetExpert,
        route_of(RpcCall::LIST_EXPERTS@) == RpcRoute::ListExperts,
        route_of(RpcCall::SET_EXPERT@) == RpcRoute::SetExpert,
        route_of(RpcCall::REMOVE_EXPERT@) == RpcRoute::RemoveExpert,
        route_of(RpcCall::GET_STATE_GRAPH@) == RpcRoute::GetStateGraph,
        route_of(RpcCall::LIST_STATE_GRAPHS@) == RpcRoute::ListStateGraphs,
        route_of(RpcCall::SET_STATE_GRAPH@) == RpcRoute::SetStateGraph,
        route_of(RpcCall::REMOVE_STATE_GRAPH@) == RpcRoute::RemoveStateGraph,
        route_of(RpcCall::APPEND_ENTRIES@) == RpcRoute::AppendEntries,
        route_of(RpcCall::INSTALL_SNAPSHOT@) == RpcRoute::InstallSnapshot,
        route_of(RpcCall::VOTE@) == RpcRoute::Vote,
        route_of(RpcCall::SUBMIT_JOB@) == RpcRoute::SubmitJob,
        route_of(RpcCall::SESSION_HOLDERS@) == RpcRoute::SessionHolders,
        route_of(RpcCall::WORKSPACE_HOLDERS@) == RpcRoute::WorkspaceHolders,
        route_of(RpcCall::SET_SESSION_WORKSPACE@) == RpcRoute::SetSessionWorkspace,
        route_of(RpcCall::SESSION_WORKSPACE@) == RpcRoute::SessionWorkspace,
        route_of(RpcCall::REPORT_JOB_STATE@) == RpcRoute::ReportJobState,
        route_of(RpcCall::RUN_JOB@) == RpcRoute::Dynamic,
        route_of(RpcCall::FETCH_SESSION@) == RpcRoute::Dynamic,
        route_of(RpcCall::DELETE_SESSION@) == RpcRoute::Dynamic,
        route_of(RpcCall::FETCH_WORKSPACE@) == RpcRoute::Dynamic,
{
    reveal_strlit("register-rpc");
    reveal_strlit("auth-challenge");
    reveal_strlit("get-model");
    reveal_strlit("list-models");
    reveal_strlit("set-model");
    reveal_strlit("remove-model");
    reveal_strlit("get-tool");
    reveal_strlit("list-tools");
    reveal_strlit("set-tool");
    reveal_strlit("remove-tool");
    reveal_strlit("get-expert");
    reveal_strlit("list-experts");
    reveal_strlit("set-expert");
    reveal_strlit("remove-expert");
    reveal_strlit("get-state-graph");
    reveal_strlit("list-state-graphs");
    reveal_strlit("set-state-graph");
    reveal_strlit("remove-state-graph");
    reveal_strlit("append-entries");
    reveal_strlit("install-snapshot");
    reveal_strlit("vote");
    reveal_strlit("submit-job");
    reveal_strlit("session-holders");
    reveal_strlit("workspace-holders");
    reveal_strlit("set-session-workspace");
    reveal_strlit("session-workspace");
    reveal_strlit("report-job-state");
    reveal_strlit("run-job");
    reveal_strlit("fetch-session");
    reveal_strlit("delete-session");
    reveal_strlit("fetch-workspace");
    assert("register-rpc"@.len() == 12);
    assert("auth-challenge"@.len() == 14);
    assert("get-model"@.len() == 9);
    assert("list-models"@.len() == 11);
    assert("set-model"@.len() == 9);
    assert("remove-model"@.len() == 12);
    assert("get-tool"@.len() == 8);
    assert("list-tools"@.len() == 10);
    assert("set-tool"@.len() == 8);
    assert("remove-tool"@.len() == 11);
    assert("get-expert"@.len() == 10);
    assert("list-experts"@.len() == 12);
    assert("set-expert"@.len() == 10);
    assert("remove-expert"@.len() == 13);
    assert("get-state-graph"@.len() == 15);
    assert("list-state-graphs"@.len() == 17);
    assert("set-state-graph"@.len() == 15);
    assert("remove-state-graph"@.len() == 18);
    assert("append-entries"@.len() == 14);
    assert("install-snapshot"@.len() == 16);
    assert("vote"@.len() == 4);
    assert("submit-job"@.len() == 10);
    assert("session-holders"@.len() == 15);
    assert("workspace-holders"@.len() == 17);
    assert("set-session-workspace"@.len() == 21);
    assert("session-workspace"@.len() == 17);
    assert("report-job-state"@.len() == 16);
    assert("run-job"@.len() == 7);
    assert("fetch-session"@.len() == 13);
    assert("delete-session"@.len() == 14);
    assert("fetch-workspace"@.len() == 15);
    assert("append-entries"@[0] == 'a');
    assert("append-entries"@[1] == 'p');
    assert("auth-challenge"@[0] == 'a');
    assert("auth-challenge"@[1] == 'u');
    assert("delete-session"@[0] == 'd');
    assert("fetch-session"@[0] == 'f');
    assert("fetch-workspace"@[0] == 'f');
    assert("get-expert"@[0] == 'g');
    assert("get-model"@[0] == 'g');
    assert("get-state-graph"@[0] == 'g');
    assert("get-tool"@[0] == 'g');
    assert("install-snapshot"@[0] == 'i');
    assert("list-experts"@[0] == 'l');
    assert("list-models"@[0] == 'l');
    assert("list-state-graphs"@[0] == 'l');
    assert("list-tools"@[0] == 'l');
    assert("register-rpc"@[0] == 'r');
    assert("register-rpc"@[2] == 'g');
    assert("remove-expert"@[0] == 'r');
    assert("remove-model"@[0] == 'r');
    assert("remove-model"@[2] == 'm');
    assert("remove-tool"@[0] == 'r');
    assert("report-job-state"@[0] == 'r');
    assert("session-holders"@[0] == 's');
    assert("session-holders"@[2] == 's');
    assert("session-workspace"@[0] == 's');
    assert("set-expert"@[0] == 's');
    assert("set-expert"@[1] == 'e');
    assert("set-model"@[0] == 's');
    assert("set-state-graph"@[0] == 's');
    assert("set-state-graph"@[2] == 't');
    assert("set-tool"@[0] == 's');
    assert("submit-job"@[0] == 's');
    assert("submit-job"@[1] == 'u');
    assert("workspace-holders"@[0] == 'w');
}

/// Each procedure of the control plane is reached under one name and no other;
/// every other name is that of a procedure which a peer volunteers for.
pub proof fn lemma_one_name_per_procedure(name: Seq<char>)
    ensures
        route_of(name) == RpcRoute::RegisterRpc <==> name == "register-rpc"@,
        route_of(name) == RpcRoute::AuthChallenge <==> name == "auth-challenge"@,
        route_of(name) == RpcRoute::GetModel <==> name == "get-model"@,
        route_of(name) == RpcRoute::ListModels <==> name == "list-models"@,
        route_of(name) == RpcRoute::SetModel <==> name == "set-model"@,
        route_of(name) == RpcRoute::RemoveModel <==> name == "remove-model"@,
        route_of(name) == RpcRoute::GetTool <==> name == "get-tool"@,
        route_of(name) == RpcRoute::ListTools <==> name == "list-tools"@,
        route_of(name) == RpcRoute::SetTool <==> name == "set-tool"@,
        route_of(name) == RpcRoute::RemoveTool <==> name == "remove-tool"@,
        route_of(name) == RpcRoute::GetExpert <==> name == "get-expert"@,
        route_of(name) == RpcRoute::ListExperts <==> name == "list-experts"@,
        route_of(name) == RpcRoute::SetExpert <==> name == "set-expert"@,
        route_of(name) == RpcRoute::RemoveExpert <==> name == "remove-expert"@,
        route_of(name) == RpcRoute::GetStateGraph <==> name == "get-state-graph"@,
        route_of(name) == RpcRoute::ListStateGraphs <==> name == "list-state-graphs"@,
        route_of(name) == RpcRoute::SetStateGraph <==> name == "set-state-graph"@,
        route_of(name) == RpcRoute::RemoveStateGraph <==> name == "remove-state-graph"@,
        route_of(name) == RpcRoute::AppendEntries <==> name == "append-entries"@,
        route_of(name) == RpcRoute::InstallSnapshot <==> name == "install-snapshot"@,
        route_of(name) == RpcRoute::Vote <==> name == "vote"@,
        route_of(name) == RpcRoute::SubmitJob <==> name == "submit-job"@,
        route_of(name) == RpcRoute::SessionHolders <==> name == "session-holders"@,
        route_of(name) == RpcRoute::WorkspaceHolders <==> name == "workspace-holders"@,
        route_of(name) == RpcRoute::SetSessionWorkspace <==> name == "set-session-workspace"@,
        route_of(name) == RpcRoute::SessionWorkspace <==> name == "session-workspace"@,
        route_of(name) == RpcRoute::ReportJobState <==> name == "report-job-state"@,
{
    lemma_every_name_routes();
}

} // verus!
