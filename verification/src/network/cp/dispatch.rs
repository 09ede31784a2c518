//! Execution of remote procedures by a control plane.

use crate::collections::{reversed, Table};
use crate::expert::{ExpertDeclaration, ExpertId};
use crate::id::{GlobalAgentId, SessionId, WorkspaceId};
use crate::job::JobId;
use crate::mode::state_graph::catalog::StateGraphCatalog;
use crate::mode::state_graph::declaration::{StateGraphDeclaration, StateGraphId};
use crate::model::declaration::{EncryptedModel, Model, ModelId};
use crate::network::cp::forward::DynamicRelay;
use crate::mode::executable::YieldStatus;
use crate::network::cp::jobs::{Job, JobKind, JobState};
use crate::network::cp::registry::{DynamicRpcRegistry, RpcRegistryGossip};
use crate::network::cp::resume::{conclusion, conclusion_of, on_job_terminated, resumed_by_end, JobConclusion};
use crate::network::cp::rpc::{
    JobStateReport, SetExpertRequest, SetModelRequest, SetSessionWorkspaceRequest,
    SetStateGraphRequest, SetToolRequest,
};
use crate::network::cp::state::{
    lemma_holders_named_once, lemma_who_holds_a_session,
    holders_then_fallbacks, session_holder_set, session_holders_for, workspace_holder_set,
    workspace_holders_for, ControlPlaneState,
};
use crate::network::cp::types::ControlPlaneRequest;
use crate::network::peer::{peer_texts, PeerId};
use crate::secret::EncryptedSecret;
use crate::tools::{ToolDeclaration, ToolId};
use vstd::prelude::*;

verus! {

/// A call whose name was routed and whose arguments were decoded.
#[allow(inconsistent_fields)]
#[derive(Debug, PartialEq)]
pub enum RpcRequest {
    RegisterRpc { name: String },
    AuthChallenge { nonce: [u8; 32] },
    GetModel { id: ModelId },
    ListModels,
    SetModel(SetModelRequest),
    RemoveModel { id: ModelId },
    GetTool { id: ToolId },
    ListTools,
    SetTool(SetToolRequest),
    RemoveTool { id: ToolId },
    GetExpert { id: ExpertId },
    ListExperts,
    SetExpert(SetExpertRequest),
    RemoveExpert { id: ExpertId },
    GetStateGraph { id: StateGraphId },
    ListStateGraphs,
    SetStateGraph(SetStateGraphRequest),
    RemoveStateGraph { id: StateGraphId },
    /// The arguments of a replication message stay as they are: only the
    /// replication engine reads them.
    Raft(RaftRpc),
    SubmitJob(Job),
    SessionHolders { session_id: SessionId },
    WorkspaceHolders { workspace_id: WorkspaceId },
    SetSessionWorkspace(SetSessionWorkspaceRequest),
    SessionWorkspace { session_id: SessionId },
    ReportJobState(JobStateReport),
    /// Not served here.
    Dynamic { name: String },
}

/// A message of the replication engine, as JSON text.
#[derive(Debug, PartialEq)]
pub enum RaftRpc {
    AppendEntries(String),
    InstallSnapshot(String),
    Vote(String),
}

/// An answer that needs nothing but the state of this node.
pub enum RpcReply<'a> {
    Null,
    Tool(Option<&'a ToolDeclaration>),
    Tools(&'a Table<ToolId, ToolDeclaration>),
    Expert(Option<&'a ExpertDeclaration>),
    Experts(&'a Table<ExpertId, ExpertDeclaration>),
    StateGraph(Option<&'a StateGraphDeclaration>),
    StateGraphs(&'a StateGraphCatalog),
    Holders(Vec<PeerId>),
    Workspace(Option<WorkspaceId>),
}

/// What executing a call comes to.
pub enum RpcStep<'a> {
    /// Answer at once.
    Reply(RpcReply<'a>),
    /// Tell the other control planes, then answer with nothing.
    Announce(RpcRegistryGossip),
    /// Prove membership of the cluster on this nonce.
    Prove { nonce: [u8; 32] },
    /// Answer with this model, its API key encrypted for the caller.
    EncryptModel(Option<&'a Model>),
    /// Answer with all models, their API keys encrypted for the caller.
    EncryptModels(&'a Table<ModelId, Model>),
    /// Propose this change, and answer with what becomes of it.
    Propose(ControlPlaneRequest),
    /// Propose this change; once it is committed, resume what the end of the
    /// job resumes.
    ProposeThenResume { request: ControlPlaneRequest, job_id: JobId, end: JobConclusion },
    /// Hand this to the replication engine.
    Raft(RaftRpc),
    /// Relay the call to the peers that volunteered for it.
    Relay(DynamicRelay),
}

/// Whether `step` proposes `request` and nothing else.
pub open spec fn proposes(step: RpcStep<'_>, request: ControlPlaneRequest) -> bool {
    step matches RpcStep::Propose(proposed) && proposed == request
}

/// Whether `found` is what a map holds under a key.
pub open spec fn is_lookup<K, V>(found: Option<&V>, m: Map<K, V>, k: K) -> bool {
    match found {
        Some(v) => m.contains_key(k) && m[k] == *v,
        None => !m.contains_key(k),
    }
}

/// What executing `request` for `peer` must come to.
pub open spec fn executed(
    request: RpcRequest,
    state: &ControlPlaneState,
    registry: Seq<(Seq<char>, Seq<char>)>,
    peer: PeerId,
    step: RpcStep<'_>,
) -> bool {
    match request {
        RpcRequest::RegisterRpc { name } => if registry.contains((name@, peer@)) {
            step matches RpcStep::Reply(RpcReply::Null)
        } else {
            step matches RpcStep::Announce(RpcRegistryGossip::Register { name: n, peer_id })
                && n == name && peer_id == peer
        },
        RpcRequest::AuthChallenge { nonce } => step matches RpcStep::Prove { nonce: n } && n
            == nonce,
        RpcRequest::GetModel { id } => step matches RpcStep::EncryptModel(model) && is_lookup(
            model,
            state.models@,
            id@,
        ),
        RpcRequest::ListModels => step matches RpcStep::EncryptModels(models) && *models
            == state.models,
        RpcRequest::SetModel(set) => proposes(
            step,
            ControlPlaneRequest::SetModel { id: set.id, declaration: set.declaration },
        ),
        RpcRequest::RemoveModel { id } => proposes(step, ControlPlaneRequest::RemoveModel { id }),
        RpcRequest::GetTool { id } => step matches RpcStep::Reply(RpcReply::Tool(found))
            && is_lookup(found, state.tools@, id@),
        RpcRequest::ListTools => step matches RpcStep::Reply(RpcReply::Tools(tools)) && *tools
            == state.tools,
        RpcRequest::SetTool(set) => proposes(
            step,
            ControlPlaneRequest::SetTool { id: set.id, declaration: set.declaration },
        ),
        RpcRequest::RemoveTool { id } => proposes(step, ControlPlaneRequest::RemoveTool { id }),
        RpcRequest::GetExpert { id } => step matches RpcStep::Reply(RpcReply::Expert(found))
            && is_lookup(found, state.experts@, id@),
        RpcRequest::ListExperts => step matches RpcStep::Reply(RpcReply::Experts(experts))
            && *experts == state.experts,
        RpcRequest::SetExpert(set) => proposes(
            step,
            ControlPlaneRequest::SetExpert { id: set.id, declaration: set.declaration },
        ),
        RpcRequest::RemoveExpert { id } => proposes(step, ControlPlaneRequest::RemoveExpert { id }),
        RpcRequest::GetStateGraph { id } => step matches RpcStep::Reply(RpcReply::StateGraph(found))
            && is_lookup(found, state.state_graphs@, id@),
        RpcRequest::ListStateGraphs => step matches RpcStep::Reply(RpcReply::StateGraphs(graphs))
            && *graphs == state.state_graphs,
        RpcRequest::SetStateGraph(set) => proposes(
            step,
            ControlPlaneRequest::SetStateGraph { id: set.id, declaration: set.declaration },
        ),
        RpcRequest::RemoveStateGraph { id } => proposes(
            step,
            ControlPlaneRequest::RemoveStateGraph { id },
        ),
        RpcRequest::Raft(message) => step matches RpcStep::Raft(m) && m == message,
        RpcRequest::SubmitJob(job) => proposes(step, ControlPlaneRequest::SubmitJob(job)),
        RpcRequest::SessionHolders { session_id } => {
            &&& step matches RpcStep::Reply(RpcReply::Holders(holders))
            &&& holders_then_fallbacks(
                peer_texts(holders@),
                session_holder_set(state.jobs@, Map::empty(), session_id),
                state.persistency_nodes.entries(),
            )
        },
        RpcRequest::WorkspaceHolders { workspace_id } => {
            &&& step matches RpcStep::Reply(RpcReply::Holders(holders))
            &&& holders_then_fallbacks(
                peer_texts(holders@),
                workspace_holder_set(state, Map::empty(), workspace_id),
                state.persistency_nodes.entries(),
            )
        },
        RpcRequest::SetSessionWorkspace(set) => proposes(
            step,
            ControlPlaneRequest::SetSessionWorkspace {
                session_id: set.session_id,
                workspace_id: set.workspace_id,
            },
        ),
        RpcRequest::SessionWorkspace { session_id } => step matches RpcStep::Reply(
            RpcReply::Workspace(found),
        ) && found == (if state.session_workspaces@.contains_key(session_id@) {
            Some(state.session_workspaces@[session_id@])
        } else {
            None
        }),
        RpcRequest::ReportJobState(report) => step matches RpcStep::ProposeThenResume {
            request: r,
            job_id,
            end,
        } && r == (ControlPlaneRequest::CommitState {
            job_id: report.job_id,
            new_state: report.state,
        }) && job_id == report.job_id && end == conclusion_of(report.state),
        RpcRequest::Dynamic { name } => step matches RpcStep::Relay(relay) && relay.procedure()
            == name@ && relay.failures() == 0 && relay.last() is None,
    }
}

/// Executes a call that `peer` made: answers it from the state of this node
/// where that is enough, and says what else must be done where it is not.
pub fn execute_rpc<'a>(
    request: RpcRequest,
    state: &'a ControlPlaneState,
    registry: &mut DynamicRpcRegistry,
    peer: &PeerId,
) -> (r: RpcStep<'a>)
    ensures
        executed(request, state, old(registry)@, *peer, r),
        final(registry)@ == (match request {
            RpcRequest::RegisterRpc { name } => if old(registry)@.contains((name@, peer@)) {
                old(registry)@
            } else {
                old(registry)@.push((name@, peer@))
            },
            _ => old(registry)@,
        }),
{
    match request {
        RpcRequest::RegisterRpc { name } => {
            if registry.register(name.clone(), peer.clone()) {
                RpcStep::Announce(RpcRegistryGossip::Register { name, peer_id: peer.clone() })
            } else {
                RpcStep::Reply(RpcReply::Null)
            }
        },
        RpcRequest::AuthChallenge { nonce } => RpcStep::Prove { nonce },
        RpcRequest::GetModel { id } => RpcStep::EncryptModel(state.models.get(&id)),
        RpcRequest::ListModels => RpcStep::EncryptModels(&state.models),
        RpcRequest::SetModel(set) => RpcStep::Propose(
            ControlPlaneRequest::SetModel { id: set.id, declaration: set.declaration },
        ),
        RpcRequest::RemoveModel { id } => RpcStep::Propose(ControlPlaneRequest::RemoveModel { id }),
        RpcRequest::GetTool { id } => RpcStep::Reply(RpcReply::Tool(state.tools.get(&id))),
        RpcRequest::ListTools => RpcStep::Reply(RpcReply::Tools(&state.tools)),
        RpcRequest::SetTool(set) => RpcStep::Propose(
            ControlPlaneRequest::SetTool { id: set.id, declaration: set.declaration },
        ),
        RpcRequest::RemoveTool { id } => RpcStep::Propose(ControlPlaneRequest::RemoveTool { id }),
        RpcRequest::GetExpert { id } => RpcStep::Reply(RpcReply::Expert(state.experts.get(&id))),
        RpcRequest::ListExperts => RpcStep::Reply(RpcReply::Experts(&state.experts)),
        RpcRequest::SetExpert(set) => RpcStep::Propose(
            ControlPlaneRequest::SetExpert { id: set.id, declaration: set.declaration },
        ),
        RpcRequest::RemoveExpert { id } => RpcStep::Propose(
            ControlPlaneRequest::RemoveExpert { id },
        ),
        RpcRequest::GetStateGraph { id } => RpcStep::Reply(
            RpcReply::StateGraph(state.state_graphs.get(&id)),
        ),
        RpcRequest::ListStateGraphs => RpcStep::Reply(RpcReply::StateGraphs(&state.state_graphs)),
        RpcRequest::SetStateGraph(set) => RpcStep::Propose(
            ControlPlaneRequest::SetStateGraph { id: set.id, declaration: set.declaration },
        ),
        RpcRequest::RemoveStateGraph { id } => RpcStep::Propose(
            ControlPlaneRequest::RemoveStateGraph { id },
        ),
        RpcRequest::Raft(message) => RpcStep::Raft(message),
        RpcRequest::SubmitJob(job) => RpcStep::Propose(ControlPlaneRequest::SubmitJob(job)),
        RpcRequest::SessionHolders { session_id } => {
            let none: Table<JobId, PeerId> = Table::new();
            RpcStep::Reply(RpcReply::Holders(session_holders_for(state, &none, session_id)))
        },
        RpcRequest::WorkspaceHolders { workspace_id } => {
            let none: Table<JobId, PeerId> = Table::new();
            RpcStep::Reply(RpcReply::Holders(workspace_holders_for(state, &none, workspace_id)))
        },
        RpcRequest::SetSessionWorkspace(set) => RpcStep::Propose(
            ControlPlaneRequest::SetSessionWorkspace {
                session_id: set.session_id,
                workspace_id: set.workspace_id,
            },
        ),
        RpcRequest::SessionWorkspace { session_id } => {
            let found = match state.session_workspaces.get(&session_id) {
                Some(workspace) => Some(*workspace),
                None => None,
            };
            RpcStep::Reply(RpcReply::Workspace(found))
        },
        RpcRequest::ReportJobState(report) => {
            let end = conclusion(&report.state);
            RpcStep::ProposeThenResume {
                request: ControlPlaneRequest::CommitState {
                    job_id: report.job_id,
                    new_state: report.state,
                },
                job_id: report.job_id,
                end,
            }
        },
        RpcRequest::Dynamic { name } => RpcStep::Relay(DynamicRelay::new(name)),
    }
}

/// The agents to resume once the proposal of a reported state is settled:
/// none, unless it was committed.
pub fn after_report(
    state: &ControlPlaneState,
    job_id: JobId,
    end: JobConclusion,
    committed: bool,
) -> (r: Vec<GlobalAgentId>)
    ensures
        r@ == (if committed {
            resumed_by_end(state.jobs@, state.jobs.entries(), job_id, end)
        } else {
            Seq::empty()
        }),
        !committed || !state.jobs@.contains_key(job_id@) || end == JobConclusion::Other
            ==> r@.len() == 0,
        committed && state.jobs@.contains_key(job_id@) && end == JobConclusion::RunExhausted
            ==> r@.len() == 1 && state.jobs@[job_id@].job.kind == JobKind::RunAgent(r@[0]),
        committed && state.jobs@.contains_key(job_id@) && end == JobConclusion::Completed
            ==> forall|agent: GlobalAgentId| #[trigger]
            r@.contains(agent) <==> exists|j: u128| #[trigger]
                state.jobs@.contains_key(j) && {
                    &&& state.jobs@[j].job.kind == JobKind::RunAgent(agent)
                    &&& state.jobs@[j].state matches JobState::Yielded {
                        reason: YieldStatus::WaitingChildren { children },
                    }
                    &&& exists|c: int| 0 <= c < children@.len() && state.jobs@[job_id@].job.kind
                            == JobKind::RunAgent(#[trigger] children@[c])
                    &&& forall|c: int|
                        0 <= c < children@.len() ==> exists|d: u128| #[trigger]
                            state.jobs@.contains_key(d) && state.jobs@[d].job.kind == JobKind::RunAgent(
                                #[trigger] children@[c],
                            ) && state.jobs@[d].state is Completed
                },
{
    if committed {
        on_job_terminated(state, job_id, end)
    } else {
        Vec::new()
    }
}

/// The answer to a request for one model: `sealed` is its API key encrypted
/// for the caller, or why that failed. The key in clear is in no answer.
pub fn encrypted_model(
    found: Option<&Model>,
    sealed: Result<EncryptedSecret, String>,
) -> (r: Result<Option<EncryptedModel>, String>)
    ensures
        r == (match found {
            None => Ok::<Option<EncryptedModel>, String>(None),
            Some(model) => match sealed {
                Ok(secret) => Ok(Some(model.encrypted_with(secret))),
                Err(error) => Err(error),
            },
        }),
{
    match found {
        None => Ok(None),
        Some(model) => {
            match sealed {
                Ok(secret) => Ok(Some(model.encrypt(secret))),
                Err(error) => Err(error),
            }
        },
    }
}

/// Whether the first `n` keys could be encrypted.
pub open spec fn sealed_up_to(sealed: Seq<Result<EncryptedSecret, String>>, n: int) -> bool {
    forall|i: int| 0 <= i < n ==> (#[trigger] sealed[i]) is Ok
}

/// The answer to a request for all models. `sealed` fails where no key could be
/// derived for the caller, which is the answer then, even where there is no
/// model. Otherwise its i-th item is the API key of the i-th model encrypted
/// for the caller; the first failure is the answer where there is one.
pub fn encrypted_models(
    models: &Table<ModelId, Model>,
    sealed: Result<Vec<Result<EncryptedSecret, String>>, String>,
) -> (r: Result<Vec<(ModelId, EncryptedModel)>, String>)
    requires
        sealed matches Ok(keys) ==> keys@.len() == models.entries().len(),
    ensures
        match sealed {
            Err(error) => r == Err::<Vec<(ModelId, EncryptedModel)>, String>(error),
            Ok(keys) => {
                &&& r is Ok <==> sealed_up_to(keys@, keys@.len() as int)
                &&& r is Ok <==> forall|i: int| 0 <= i < keys@.len() ==> (#[trigger] keys@[i]) is Ok
                &&& match r {
                    Ok(list) => {
                        &&& list@.len() == models.entries().len()
                        &&& forall|i: int|
                            0 <= i < list@.len() ==> (#[trigger] list@[i]) == (
                                models.entries()[i].0,
                                models.entries()[i].1.encrypted_with(keys@[i]->Ok_0),
                            )
                    },
                    Err(error) => exists|i: int|
                        0 <= i < keys@.len() && sealed_up_to(keys@, i) && (forall|j: int|
                            0 <= j < i ==> (#[trigger] keys@[j]) is Ok) && #[trigger] keys@[i]
                            == Err::<EncryptedSecret, String>(error),
                }
            },
        },
{
    let keys = match sealed {
        Ok(keys) => keys,
        Err(error) => {
            return Err(error);
        },
    };
    let ghost all = keys@;
    let mut rest = reversed(keys);
    let mut list: Vec<(ModelId, EncryptedModel)> = Vec::new();
    let mut i: usize = 0;
    let n: usize = models.len();
    assert(rest@ =~= all.skip(0).reverse());
    while rest.len() > 0
        invariant
            sealed matches Ok(given) && given@ == all,
            n == all.len(),
            i + rest@.len() == all.len(),
            all.len() == models.entries().len(),
            rest@ == all.skip(i as int).reverse(),
            sealed_up_to(all, i as int),
            list@.len() == i,
            forall|k: int|
                0 <= k < i ==> (#[trigger] list@[k]) == (
                    models.entries()[k].0,
                    models.entries()[k].1.encrypted_with(all[k]->Ok_0),
                ),
        decreases rest@.len(),
    {
        match rest.pop() {
            Some(outcome) => {
                proof {
                    assert(outcome == all[i as int]);
                    assert(rest@ =~= all.skip(i + 1).reverse());
                }
                match outcome {
                    Ok(secret) => {
                        let id = models.key_at(i).clone();
                        let model = models.value_at(i).encrypt(secret);
                        list.push((id, model));
                        i = i + 1;
                    },
                    Err(error) => {
                        assert(all[i as int] is Err);
                        return Err(error);
                    },
                }
            },
            None => {},
        }
    }
    Ok(list)
}

/// What an answer for a model carries never depends on its API key in clear:
/// two declarations that differ in nothing else are answered alike.
pub proof fn lemma_answer_hides_the_key(a: Model, b: Model, secret: EncryptedSecret)
    requires
        a->id == b->id,
        a->base_url == b->base_url,
        a->client_id == b->client_id,
        a->model == b->model,
        a->system_prompt == b->system_prompt,
    ensures
        a.encrypted_with(secret) == b.encrypted_with(secret),
{
}

/// A call that reads is answered from the state of this node alone, without a
/// change: one entry is what the table holds under the identifier asked for, if it
/// holds any, and a list is the whole table. API keys are never part of a reply.
pub proof fn lemma_reads_answer_from_the_state(
    request: RpcRequest,
    state: &ControlPlaneState,
    registry: Seq<(Seq<char>, Seq<char>)>,
    peer: PeerId,
    step: RpcStep<'_>,
)
    requires
        executed(request, state, registry, peer, step),
    ensures
        request matches RpcRequest::GetModel { id } ==> (step matches RpcStep::EncryptModel(found)
            && (found is Some <==> state.models@.contains_key(id@)) && (found matches Some(model)
            ==> *model == state.models@[id@])),
        request matches RpcRequest::GetTool { id } ==> (step matches RpcStep::Reply(
            RpcReply::Tool(found),
        ) && (found is Some <==> state.tools@.contains_key(id@)) && (found matches Some(tool)
            ==> *tool == state.tools@[id@])),
        request matches RpcRequest::GetExpert { id } ==> (step matches RpcStep::Reply(
            RpcReply::Expert(found),
        ) && (found is Some <==> state.experts@.contains_key(id@)) && (found matches Some(expert)
            ==> *expert == state.experts@[id@])),
        request matches RpcRequest::GetStateGraph { id } ==> (step matches RpcStep::Reply(
            RpcReply::StateGraph(found),
        ) && (found is Some <==> state.state_graphs@.contains_key(id@)) && (found matches Some(
            graph,
        ) ==> *graph == state.state_graphs@[id@])),
        request matches RpcRequest::SessionWorkspace { session_id } ==> (step matches RpcStep::Reply(
            RpcReply::Workspace(found),
        ) && (found is Some <==> state.session_workspaces@.contains_key(session_id@)) && (found
            matches Some(workspace) ==> workspace == state.session_workspaces@[session_id@])),
        request is ListModels ==> (step matches RpcStep::EncryptModels(all) && *all
            == state.models),
        request is ListTools ==> (step matches RpcStep::Reply(RpcReply::Tools(all)) && *all
            == state.tools),
        request is ListExperts ==> (step matches RpcStep::Reply(RpcReply::Experts(all)) && *all
            == state.experts),
        request is ListStateGraphs ==> (step matches RpcStep::Reply(RpcReply::StateGraphs(all))
            && *all == state.state_graphs),
{
}

/// A call that changes something is proposed to the cluster as the change that it
/// asks for, under its identifier and with its declaration; nothing is answered
/// before it is written. What is not such a call proposes nothing.
pub proof fn lemma_changes_are_proposed(
    request: RpcRequest,
    state: &ControlPlaneState,
    registry: Seq<(Seq<char>, Seq<char>)>,
    peer: PeerId,
    step: RpcStep<'_>,
)
    requires
        executed(request, state, registry, peer, step),
    ensures
        step matches RpcStep::Propose(change) ==> ({
            ||| request matches RpcRequest::SetModel(set) && change
                == (ControlPlaneRequest::SetModel { id: set.id, declaration: set.declaration })
            ||| request matches RpcRequest::SetTool(set) && change
                == (ControlPlaneRequest::SetTool { id: set.id, declaration: set.declaration })
            ||| request matches RpcRequest::SetExpert(set) && change
                == (ControlPlaneRequest::SetExpert { id: set.id, declaration: set.declaration })
            ||| request matches RpcRequest::SetStateGraph(set) && change
                == (ControlPlaneRequest::SetStateGraph { id: set.id, declaration: set.declaration })
            ||| request matches RpcRequest::RemoveModel { id } && change
                == (ControlPlaneRequest::RemoveModel { id })
            ||| request matches RpcRequest::RemoveTool { id } && change
                == (ControlPlaneRequest::RemoveTool { id })
            ||| request matches RpcRequest::RemoveExpert { id } && change
                == (ControlPlaneRequest::RemoveExpert { id })
            ||| request matches RpcRequest::RemoveStateGraph { id } && change
                == (ControlPlaneRequest::RemoveStateGraph { id })
            ||| request matches RpcRequest::SubmitJob(job) && change
                == ControlPlaneRequest::SubmitJob(job)
            ||| request matches RpcRequest::SetSessionWorkspace(set) && change
                == (ControlPlaneRequest::SetSessionWorkspace {
                session_id: set.session_id,
                workspace_id: set.workspace_id,
            })
        }),
        step is Propose <==> request is SetModel || request is SetTool || request is SetExpert
            || request is SetStateGraph || request is RemoveModel || request is RemoveTool
            || request is RemoveExpert || request is RemoveStateGraph || request is SubmitJob
            || request is SetSessionWorkspace,
{
}

/// A reported state is written as it was reported, and then may resume agents, by
/// how it concludes the job; nothing else resumes any.
pub proof fn lemma_reports_are_committed(
    request: RpcRequest,
    state: &ControlPlaneState,
    registry: Seq<(Seq<char>, Seq<char>)>,
    peer: PeerId,
    step: RpcStep<'_>,
)
    requires
        executed(request, state, registry, peer, step),
    ensures
        step is ProposeThenResume <==> request is ReportJobState,
        request matches RpcRequest::ReportJobState(report) ==> (step
            matches RpcStep::ProposeThenResume { request: change, job_id, end } && change
            == (ControlPlaneRequest::CommitState {
            job_id: report.job_id,
            new_state: report.state,
        }) && job_id == report.job_id && (end == JobConclusion::Completed <==> report.state
            is Completed) && (end == JobConclusion::RunExhausted <==> report.state
            == (JobState::Yielded { reason: YieldStatus::RunExhausted }))),
{
}

/// A peer that volunteers for a procedure is announced exactly where that is news.
/// What the replication engine is sent reaches it as it came, a challenge is
/// answered for its own nonce, and a procedure that is not the control plane's own
/// is relayed under its name, as a first try.
pub proof fn lemma_other_calls_are_passed_on(
    request: RpcRequest,
    state: &ControlPlaneState,
    registry: Seq<(Seq<char>, Seq<char>)>,
    peer: PeerId,
    step: RpcStep<'_>,
)
    requires
        executed(request, state, registry, peer, step),
    ensures
        request matches RpcRequest::RegisterRpc { name } ==> {
            &&& registry.contains((name@, peer@)) ==> step is Reply
            &&& !registry.contains((name@, peer@)) ==> (step matches RpcStep::Announce(message)
                && message == (RpcRegistryGossip::Register { name, peer_id: peer }))
        },
        request matches RpcRequest::Raft(message) ==> (step matches RpcStep::Raft(passed) && passed
            == message),
        request matches RpcRequest::AuthChallenge { nonce } ==> (step matches RpcStep::Prove {
            nonce: proven,
        } && proven == nonce),
        request matches RpcRequest::Dynamic { name } ==> (step matches RpcStep::Relay(relay)
            && relay.procedure() == name@ && relay.failures() == 0),
{
}

/// Who is named as a holder of a session: first, each once, the workers that one
/// of its jobs is scheduled or running on, then every persistency node that is none
/// of those; nobody else.
pub proof fn lemma_holders_are_named(
    session_id: SessionId,
    state: &ControlPlaneState,
    registry: Seq<(Seq<char>, Seq<char>)>,
    peer: PeerId,
    step: RpcStep<'_>,
    worker: Seq<char>,
)
    requires
        executed(RpcRequest::SessionHolders { session_id }, state, registry, peer, step),
        crate::collections::distinct_keys(state.persistency_nodes.entries()),
    ensures
        step matches RpcStep::Reply(RpcReply::Holders(list)) && peer_texts(list@).no_duplicates()
            && (peer_texts(list@).contains(worker) <==> ({
            ||| crate::collections::has_key(state.persistency_nodes.entries(), worker)
            ||| exists|j: u128| #[trigger]
                state.jobs@.contains_key(j) && (state.jobs@[j].job.kind matches JobKind::RunAgent(
                    agent,
                ) && agent.session == session_id) && ({
                    ||| state.jobs@[j].state matches JobState::Scheduled { worker: on } && on@
                        == worker
                    ||| state.jobs@[j].state matches JobState::Running { worker: on } && on@
                        == worker
                })
        })),
{
    match step {
        RpcStep::Reply(RpcReply::Holders(list)) => {
            let none: Map<u128, PeerId> = Map::empty();
            lemma_holders_named_once(
                peer_texts(list@),
                session_holder_set(state.jobs@, none, session_id),
                state.persistency_nodes.entries(),
            );
            lemma_who_holds_a_session(state.jobs@, none, session_id, worker);
            assert(peer_texts(list@).contains(worker) == peer_texts(list@).contains(worker));
        },
        _ => {},
    }
}

} // verus!
