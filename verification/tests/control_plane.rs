use marie_core::collections::Table;
use marie_core::expert::{ExpertDeclaration, ExpertId};
use marie_core::id::{GlobalAgentId, SessionId, WorkspaceId, ID};
use marie_core::job::JobId;
use marie_core::mode::executable::YieldStatus;
use marie_core::model::declaration::{Model, ModelId};
use marie_core::network::cp::control::{
    elect_bootstrap_leader, gossip_kind, initial_state, load_catalog_from_store, load_expert_catalog_from_store,
    load_tool_catalog_from_store, BootstrapDecision, ControlPlane, GossipKind,
    ShutdownSignal,
};
use marie_core::network::cp::dispatch::{after_report, encrypted_model, execute_rpc, RpcReply, RpcRequest, RpcStep};
use marie_core::network::cp::forward::{DynamicRelay, Proposal, ProposeStep, WriteOutcome};
use marie_core::network::cp::jobs::{session_id_of, Job, JobKind, JobRecord, JobState};
use marie_core::network::cp::registry::{DynamicRpcRegistry, RpcRegistryGossip};
use marie_core::network::cp::resume::{
    conclusion, on_job_terminated, resume_after_hitl_answer, resume_orchestration_parents, submit_resume_job,
    watch_stuck_yields, JobConclusion,
};
use marie_core::network::cp::rpc::{route, JobStateReport, RpcCall, RpcResult, RpcRoute, SetModelRequest};
use marie_core::network::cp::schedule::{
    assign_pending, check_health, reassign_and_unregister_dead_worker, ControlAction, NodeStatus,
};
use marie_core::network::cp::state::{
    agent_has_active_job, is_agent_completed, session_holders_for, workspace_holders_for, ControlPlaneState,
};
use marie_core::network::cp::types::{ControlPlaneRequest, RaftNode, WorkerInfo};
use marie_core::network::cp::{MAX_WATCHDOG_RESUME_ATTEMPTS, YIELD_WATCHDOG_TIMEOUT_MS};
use marie_core::network::peer::PeerId;
use marie_core::node::NodeId;
use marie_core::secret::EncryptedSecret;

fn peer(n: u8) -> PeerId {
    NodeId::new(vec![0, 1, n]).to_peer().unwrap()
}

fn agent(session: u128, n: u128) -> GlobalAgentId {
    GlobalAgentId::new(SessionId(ID(session)), ID(n))
}

fn job_id(n: u128) -> JobId {
    JobId(ID(n))
}

fn job(n: u128, agent: GlobalAgentId) -> Job {
    Job { id: job_id(n), kind: JobKind::RunAgent(agent) }
}

fn add_job(state: &mut ControlPlaneState, n: u128, agent: GlobalAgentId, job_state: JobState) {
    state.jobs.insert(job_id(n), JobRecord { job: job(n, agent), state: job_state });
}

fn add_worker(state: &mut ControlPlaneState, n: u8) {
    state.workers.insert(peer(n), WorkerInfo { peer_id: peer(n) });
}

fn scheduled(n: u8) -> JobState {
    JobState::Scheduled { worker: peer(n) }
}

fn running(n: u8) -> JobState {
    JobState::Running { worker: peer(n) }
}

fn completed() -> JobState {
    JobState::Completed { result: "null".to_string() }
}

fn model(id: &str) -> Model {
    Model::OpenAICompatible {
        id: id.to_string(),
        base_url: "https://example.org".to_string(),
        client_id: "org".to_string(),
        api_key: "clef".to_string(),
        model: "m".to_string(),
        system_prompt: None,
    }
}

fn sealed(epoch: u32) -> EncryptedSecret {
    EncryptedSecret { key_epoch: epoch, ciphertext: vec![9], nonce: vec![8], algorithm: "x".to_string() }
}

#[test]
fn holders_of_a_session_come_before_persistency() {
    let mut state = ControlPlaneState::new();
    let session = SessionId(ID(1));
    add_job(&mut state, 1, agent(1, 1), running(1));
    add_job(&mut state, 2, agent(2, 1), running(2));
    add_job(&mut state, 3, agent(1, 2), JobState::Pending);
    state.persistency_nodes.insert(peer(9), ());
    state.persistency_nodes.insert(peer(1), ());
    let mut assignments: Table<JobId, PeerId> = Table::new();
    assignments.insert(job_id(3), peer(3));
    let holders = session_holders_for(&state, &assignments, session);
    assert_eq!(holders.len(), 3);
    assert!(holders[..2].contains(&peer(1)));
    assert!(holders[..2].contains(&peer(3)));
    assert_eq!(holders[2], peer(9));
    assert_eq!(session_id_of(&job(1, agent(1, 1))), Some(session));
}

#[test]
fn holders_of_a_workspace_hold_one_of_its_sessions() {
    let mut state = ControlPlaneState::new();
    let workspace = WorkspaceId(ID(50));
    state.session_workspaces.insert(SessionId(ID(1)), workspace);
    state.session_workspaces.insert(SessionId(ID(2)), WorkspaceId(ID(51)));
    add_job(&mut state, 1, agent(1, 1), running(1));
    add_job(&mut state, 2, agent(2, 1), running(2));
    state.persistency_nodes.insert(peer(9), ());
    let holders = workspace_holders_for(&state, &Table::new(), workspace);
    assert_eq!(holders, vec![peer(1), peer(9)]);
}

#[test]
fn activity_and_completion_of_agents() {
    let mut state = ControlPlaneState::new();
    add_job(&mut state, 1, agent(1, 1), completed());
    add_job(&mut state, 2, agent(1, 2), scheduled(1));
    assert!(is_agent_completed(&state, agent(1, 1)));
    assert!(!agent_has_active_job(&state, agent(1, 1)));
    assert!(!is_agent_completed(&state, agent(1, 2)));
    assert!(agent_has_active_job(&state, agent(1, 2)));
    assert!(!is_agent_completed(&state, agent(1, 3)));
}

#[test]
fn human_answers_resume_who_waits_for_them() {
    let mut state = ControlPlaneState::new();
    let waiting = JobState::Yielded { reason: YieldStatus::WaitingToolReply { tool_call_id: ID(7) } };
    add_job(&mut state, 1, agent(1, 1), waiting);
    let other = JobState::Yielded { reason: YieldStatus::WaitingToolReply { tool_call_id: ID(8) } };
    add_job(&mut state, 2, agent(1, 2), other);
    assert_eq!(resume_after_hitl_answer(&state, ID(7)), vec![agent(1, 1)]);
    assert_eq!(resume_after_hitl_answer(&state, ID(9)), vec![]);
}

#[test]
fn parents_wait_for_all_their_children() {
    let mut state = ControlPlaneState::new();
    let children = vec![agent(1, 1), agent(1, 2)];
    add_job(&mut state, 1, agent(1, 1), completed());
    add_job(&mut state, 2, agent(1, 2), running(1));
    add_job(&mut state, 3, agent(1, 9), JobState::Yielded { reason: YieldStatus::WaitingChildren { children } });
    assert_eq!(resume_orchestration_parents(&state, agent(1, 1)), vec![]);
    add_job(&mut state, 2, agent(1, 2), completed());
    assert_eq!(resume_orchestration_parents(&state, agent(1, 1)), vec![agent(1, 9)]);
    assert_eq!(resume_orchestration_parents(&state, agent(1, 5)), vec![]);
}

#[test]
fn end_of_a_job_resumes_by_its_reason() {
    let mut state = ControlPlaneState::new();
    add_job(&mut state, 1, agent(1, 1), running(1));
    assert_eq!(on_job_terminated(&state, job_id(1), JobConclusion::RunExhausted), vec![agent(1, 1)]);
    assert_eq!(on_job_terminated(&state, job_id(1), JobConclusion::Other), vec![]);
    assert_eq!(on_job_terminated(&state, job_id(4), JobConclusion::RunExhausted), vec![]);
    assert_eq!(conclusion(&JobState::Yielded { reason: YieldStatus::RunExhausted }), JobConclusion::RunExhausted);
    assert_eq!(conclusion(&completed()), JobConclusion::Completed);
    assert_eq!(conclusion(&JobState::Failed { error: "x".to_string() }), JobConclusion::Other);
    assert_eq!(after_report(&state, job_id(1), JobConclusion::RunExhausted, false), vec![]);
    assert_eq!(after_report(&state, job_id(1), JobConclusion::RunExhausted, true), vec![agent(1, 1)]);
}

#[test]
fn stuck_agents_are_resumed_a_few_times() {
    let mut state = ControlPlaneState::new();
    add_job(&mut state, 1, agent(1, 1), JobState::Yielded { reason: YieldStatus::RunExhausted });
    let mut watch = Table::new();
    let mut now: u64 = 1000;
    assert_eq!(watch_stuck_yields(&state, &mut watch, now), vec![]);
    assert_eq!(watch_stuck_yields(&state, &mut watch, now + YIELD_WATCHDOG_TIMEOUT_MS - 1), vec![]);
    let mut resumed = 0;
    for _ in 0..10 {
        now = now + YIELD_WATCHDOG_TIMEOUT_MS;
        resumed = resumed + watch_stuck_yields(&state, &mut watch, now).len();
    }
    assert_eq!(resumed, MAX_WATCHDOG_RESUME_ATTEMPTS as usize);

    // An agent that has something to do again is forgotten.
    add_job(&mut state, 2, agent(1, 1), JobState::Pending);
    assert_eq!(watch_stuck_yields(&state, &mut watch, now), vec![]);
    assert_eq!(watch.len(), 0);
}

#[test]
fn lost_worker_gives_its_jobs_back() {
    let mut state = ControlPlaneState::new();
    add_worker(&mut state, 1);
    add_job(&mut state, 1, agent(1, 1), running(1));
    add_job(&mut state, 2, agent(1, 2), running(2));
    let mut assignments: Table<JobId, PeerId> = Table::new();
    assignments.insert(job_id(1), peer(1));
    let mut health = Table::new();
    let requests = reassign_and_unregister_dead_worker(&state, &mut assignments, &mut health, &peer(1));
    assert_eq!(
        requests,
        vec![
            ControlPlaneRequest::CommitState { job_id: job_id(1), new_state: JobState::Pending },
            ControlPlaneRequest::UnregisterWorker { peer_id: peer(1) },
        ]
    );
    assert_eq!(assignments.len(), 0);
}

#[test]
fn worker_is_lost_once() {
    let mut state = ControlPlaneState::new();
    add_worker(&mut state, 1);
    add_worker(&mut state, 2);
    let mut health = Table::new();
    assert_eq!(check_health(&state.workers, &vec![true, false], &mut health, 10), vec![peer(2)]);
    assert_eq!(health.get(&peer(1)).map(|h| h.status), Some(NodeStatus::Alive));
    assert_eq!(health.get(&peer(2)).map(|h| h.status), Some(NodeStatus::Dead));
    assert_eq!(check_health(&state.workers, &vec![true, false], &mut health, 20), vec![]);
    assert_eq!(check_health(&state.workers, &vec![true, true], &mut health, 30), vec![]);
    assert_eq!(check_health(&state.workers, &vec![true, false], &mut health, 40), vec![peer(2)]);
}

#[test]
fn pending_jobs_go_to_free_workers() {
    let mut state = ControlPlaneState::new();
    add_worker(&mut state, 1);
    add_worker(&mut state, 2);
    add_job(&mut state, 1, agent(1, 1), JobState::Pending);
    add_job(&mut state, 2, agent(1, 2), JobState::Pending);
    add_job(&mut state, 3, agent(1, 3), completed());
    let mut health = Table::new();
    check_health(&state.workers, &vec![true, true], &mut health, 10);
    let mut assignments: Table<JobId, PeerId> = Table::new();
    assignments.insert(job_id(8), peer(1));
    let given = assign_pending(&state, &health, &mut assignments);
    assert_eq!(given.len(), 1);
    assert_eq!(given[0].job_id, job_id(1));
    assert_eq!(given[0].worker, peer(2));
    assert_eq!(assignments.get(&job_id(1)), Some(&peer(2)));
    assert!(assign_pending(&state, &health, &mut assignments).is_empty());
}

#[test]
fn only_the_leader_acts() {
    let mut state = ControlPlaneState::new();
    add_worker(&mut state, 1);
    add_job(&mut state, 1, agent(1, 1), JobState::Pending);
    let mut node = ControlPlane::new(5, peer(5));
    assert!(node.on_tick(&state, &vec![true], Some(6), 10).is_empty());
    assert_eq!(node.assignments.len(), 0);
    assert_eq!(
        node.on_tick(&state, &vec![true], Some(5), 20),
        vec![
            ControlAction::Propose(ControlPlaneRequest::AssignJob { job_id: job_id(1), worker: peer(1) }),
            ControlAction::NotifyRun { job: job(1, agent(1, 1)), worker: peer(1) },
        ]
    );
    // The worker is lost before the next cycle.
    assert_eq!(
        node.on_tick(&state, &vec![false], Some(5), 30),
        vec![ControlAction::Propose(ControlPlaneRequest::UnregisterWorker { peer_id: peer(1) })]
    );
}

#[test]
fn lost_connection_withdraws_procedures() {
    let mut state = ControlPlaneState::new();
    add_worker(&mut state, 1);
    let mut node = ControlPlane::new(5, peer(5));
    node.rpc_registry.register("chat".to_string(), peer(1));
    node.rpc_registry.register("chat".to_string(), peer(2));
    let (messages, requests) = node.on_peer_disconnected(&state, Some(5), &peer(1));
    assert_eq!(messages, vec![RpcRegistryGossip::Unregister { name: "chat".to_string(), peer_id: peer(1) }]);
    assert_eq!(requests, vec![ControlPlaneRequest::UnregisterWorker { peer_id: peer(1) }]);
    assert_eq!(node.rpc_registry.executors_for(&"chat".to_string()), Some(vec![peer(2)]));
    let (messages, requests) = node.on_peer_disconnected(&state, Some(6), &peer(1));
    assert!(messages.is_empty());
    assert!(requests.is_empty());
}

#[test]
fn start_of_the_cluster() {
    let member = |n: u8| RaftNode { peer_id: Some(peer(n)), addr: "/ip4/10.0.0.2/tcp/4001".to_string() };
    let mut low = ControlPlane::new(3, peer(3));
    assert!(!low.on_control_plane_discovered(7, member(7)));
    assert_eq!(low.on_bootstrap_delay(), BootstrapDecision::Initialize);
    assert_eq!(low.on_bootstrap_delay(), BootstrapDecision::Nothing);
    assert!(low.on_control_plane_discovered(8, member(8)));
    assert!(!low.on_control_plane_discovered(8, member(8)));

    let mut high = ControlPlane::new(7, peer(7));
    high.on_control_plane_discovered(3, member(3));
    assert_eq!(high.on_bootstrap_delay(), BootstrapDecision::WaitForLeader);
    assert_eq!(elect_bootstrap_leader(7, &high.known_members), 3);

    assert_eq!(
        high.on_worker_discovered(peer(1), 5),
        ControlPlaneRequest::RegisterWorker { worker: WorkerInfo { peer_id: peer(1) } }
    );
    assert_eq!(
        high.on_persistency_discovered(peer(2)),
        ControlPlaneRequest::RegisterPersistency { peer_id: peer(2) }
    );
    assert!(!high.on_shutdown(ShutdownSignal::NotRequested));
    assert!(!high.on_shutdown(ShutdownSignal::Gone));
    assert!(high.shutdown_gone);
    assert!(high.on_shutdown(ShutdownSignal::Requested));
}

#[test]
fn answers_reach_waiting_agents_through_the_leader() {
    let mut state = ControlPlaneState::new();
    let waiting = JobState::Yielded { reason: YieldStatus::WaitingToolReply { tool_call_id: ID(7) } };
    add_job(&mut state, 1, agent(1, 1), waiting);
    let node = ControlPlane::new(5, peer(5));
    assert_eq!(node.on_hitl_answer(&state, Some(5), ID(7)), vec![agent(1, 1)]);
    assert_eq!(node.on_hitl_answer(&state, Some(6), ID(7)), vec![]);
    assert_eq!(node.on_hitl_answer(&state, None, ID(7)), vec![]);
    assert_eq!(
        submit_resume_job(job_id(4), agent(1, 1)),
        ControlPlaneRequest::SubmitJob(job(4, agent(1, 1)))
    );
    assert_eq!(gossip_kind("marie/hitl/1.0.0"), GossipKind::Hitl);
    assert_eq!(gossip_kind("marie/cp/rpc-registry/1.0.0"), GossipKind::Registry);
    assert_eq!(gossip_kind("autre"), GossipKind::Other);
}

#[test]
fn proposals_are_relayed_a_few_times() {
    let mut proposal = Proposal::new();
    assert_eq!(proposal.next_attempt(), ProposeStep::Write { pause: false });
    assert_eq!(
        proposal.on_write(WriteOutcome::Written("1".to_string())),
        ProposeStep::Return(Ok("1".to_string()))
    );
    let leader = |peer_id| WriteOutcome::ForwardTo(RaftNode { peer_id, addr: String::new() });
    assert_eq!(proposal.on_write(leader(Some(peer(4)))), ProposeStep::Relay { to: peer(4) });
    assert_eq!(
        proposal.on_write(leader(None)),
        ProposeStep::Return(Err("le leader raft connu n'a pas de peer_id libp2p".to_string()))
    );
    assert_eq!(
        proposal.on_write(WriteOutcome::Failed("non".to_string())),
        ProposeStep::Return(Err("non".to_string()))
    );
    for n in 0..3 {
        assert_eq!(proposal.next_attempt(), ProposeStep::Write { pause: n > 0 });
        assert_eq!(proposal.on_relay(Err(format!("panne {n}"))), None);
    }
    assert_eq!(proposal.next_attempt(), ProposeStep::Return(Err("panne 2".to_string())));
    assert_eq!(Proposal::new().on_relay(Ok("ok".to_string())), Some("ok".to_string()));
}

#[test]
fn relays_purge_who_does_not_answer() {
    let mut registry = DynamicRpcRegistry::new();
    let name = "chat".to_string();
    let mut relay = DynamicRelay::new(name.clone());
    assert_eq!(relay.next_attempt(), Ok(false));
    assert_eq!(relay.executors(&registry), Err("unmanaged remote procedure chat".to_string()));
    assert!(registry.register(name.clone(), peer(1)));
    assert!(!registry.register(name.clone(), peer(1)));
    registry.register("autre".to_string(), peer(1));
    let executors = relay.executors(&registry).unwrap();
    assert_eq!(executors, vec![peer(1)]);
    relay.on_failure(&mut registry, &executors, "panne".to_string());
    assert_eq!(relay.next_attempt(), Ok(true));
    assert!(!registry.is_registered(&name, &peer(1)));
    assert!(registry.is_registered(&"autre".to_string(), &peer(1)));
    relay.on_failure(&mut registry, &vec![], "panne".to_string());
    relay.on_failure(&mut registry, &vec![], "fin".to_string());
    assert_eq!(relay.next_attempt(), Err("fin".to_string()));
}

#[test]
fn gossip_keeps_registries_alike() {
    let mut registry = DynamicRpcRegistry::new();
    let chat = || "chat".to_string();
    registry.apply_gossip(RpcRegistryGossip::Register { name: chat(), peer_id: peer(1) });
    registry.apply_gossip(RpcRegistryGossip::Register { name: chat(), peer_id: peer(1) });
    registry.apply_gossip(RpcRegistryGossip::Register { name: chat(), peer_id: peer(2) });
    assert_eq!(registry.executors_for(&chat()).map(|p| p.len()), Some(2));
    registry.apply_gossip(RpcRegistryGossip::Unregister { name: chat(), peer_id: peer(1) });
    assert_eq!(registry.executors_for(&chat()), Some(vec![peer(2)]));
    assert_eq!(registry.remove_peer(&peer(2)), vec![chat()]);
    assert_eq!(registry.executors_for(&chat()), None);
}

#[test]
fn calls_are_routed_by_name() {
    assert_eq!(route("get-model"), RpcRoute::GetModel);
    assert_eq!(route(RpcCall::REPORT_JOB_STATE), RpcRoute::ReportJobState);
    assert_eq!(route("run-job"), RpcRoute::Dynamic);
    assert_eq!(route("chat"), RpcRoute::Dynamic);
    let call = RpcCall::new("vote", "{}".to_string());
    assert_eq!(route(&call.name), RpcRoute::Vote);
    assert_eq!(RpcResult::from_outcome(Ok("1".to_string())), RpcResult::RpcOk("1".to_string()));
    assert_eq!(RpcResult::from_outcome(Err("x".to_string())), RpcResult::RpcErr("x".to_string()));
}

#[test]
fn calls_come_to_steps() {
    let mut state = ControlPlaneState::new();
    state.models.insert(ModelId::new("gpt".to_string()), model("gpt"));
    state.session_workspaces.insert(SessionId(ID(1)), WorkspaceId(ID(2)));
    let mut registry = DynamicRpcRegistry::new();
    let register = || RpcRequest::RegisterRpc { name: "chat".to_string() };
    assert!(matches!(execute_rpc(register(), &state, &mut registry, &peer(1)), RpcStep::Announce(_)));
    assert!(matches!(
        execute_rpc(register(), &state, &mut registry, &peer(1)),
        RpcStep::Reply(RpcReply::Null)
    ));
    let get = RpcRequest::GetModel { id: ModelId::new("gpt".to_string()) };
    match execute_rpc(get, &state, &mut registry, &peer(1)) {
        RpcStep::EncryptModel(found) => {
            let answer = encrypted_model(found, Ok(sealed(4))).unwrap().unwrap();
            assert_eq!(answer, model("gpt").encrypt(sealed(4)));
        }
        _ => panic!("expected a model"),
    }
    assert!(matches!(
        execute_rpc(RpcRequest::SessionWorkspace { session_id: SessionId(ID(1)) }, &state, &mut registry, &peer(1)),
        RpcStep::Reply(RpcReply::Workspace(Some(WorkspaceId(ID(2)))))
    ));
    let set = RpcRequest::SetModel(SetModelRequest { id: ModelId::new("m".to_string()), declaration: model("m") });
    assert!(matches!(
        execute_rpc(set, &state, &mut registry, &peer(1)),
        RpcStep::Propose(ControlPlaneRequest::SetModel { .. })
    ));
    let report = RpcRequest::ReportJobState(JobStateReport { job_id: job_id(1), state: completed() });
    assert!(matches!(
        execute_rpc(report, &state, &mut registry, &peer(1)),
        RpcStep::ProposeThenResume { end: JobConclusion::Completed, .. }
    ));
    assert!(matches!(
        execute_rpc(RpcRequest::Dynamic { name: "x".to_string() }, &state, &mut registry, &peer(1)),
        RpcStep::Relay(_)
    ));
}

#[test]
fn sealing_failures_are_answered() {
    assert_eq!(encrypted_model(None, Err("x".to_string())), Ok(None));
    assert_eq!(encrypted_model(Some(&model("m")), Err("x".to_string())), Err("x".to_string()));
    let mut models: Table<ModelId, Model> = Table::new();
    models.insert(ModelId::new("a".to_string()), model("a"));
    models.insert(ModelId::new("b".to_string()), model("b"));
    let all = marie_core::network::cp::dispatch::encrypted_models(&models, Ok(vec![Ok(sealed(1)), Ok(sealed(2))])).unwrap();
    assert_eq!(all.len(), 2);
    assert_eq!(all[1].1, model("b").encrypt(sealed(2)));
    let failed = marie_core::network::cp::dispatch::encrypted_models(&models, Ok(vec![Ok(sealed(1)), Err("y".to_string())]));
    assert_eq!(failed, Err("y".to_string()));
    // Without a key for the caller there is no answer, not even an empty one.
    let nothing: Table<ModelId, Model> = Table::new();
    let refused = marie_core::network::cp::dispatch::encrypted_models(&nothing, Err("z".to_string()));
    assert_eq!(refused, Err("z".to_string()));
    assert_eq!(marie_core::network::cp::dispatch::encrypted_models(&nothing, Ok(vec![])), Ok(vec![]));
}

#[test]
fn catalogs_start_from_what_can_be_read() {
    let id = |t: &str| ModelId::new(t.to_string());
    let loaded = load_catalog_from_store(Some(vec![
        (id("a"), Ok(model("a"))),
        (id("b"), Err("clef perdue".to_string())),
    ]));
    assert_eq!(loaded.len(), 1);
    assert!(loaded.contains_key(&id("a")));
    assert_eq!(load_catalog_from_store(None).len(), 0);
    assert_eq!(load_tool_catalog_from_store(None).len(), 0);
    let expert = ExpertDeclaration { prompt: "p".to_string(), model_id: id("a"), allowed_tools: vec![] };
    let experts = load_expert_catalog_from_store(Some(vec![(ExpertId::new("e".to_string()), expert)]));
    assert_eq!(experts.len(), 1);

    let state = initial_state(Some(vec![(id("a"), Ok(model("a")))]), None, None, None);
    assert_eq!(state.models.len(), 1);
    assert_eq!(state.tools.len() + state.experts.len() + state.jobs.len() + state.workers.len(), 0);
}
