use marie_core::id::{SessionId, WorkspaceId, ID};
use marie_core::job::{JobId, JobInstance, JobState};
use marie_core::network::actor::{addresses_to_dial, on_command, on_report, Discovered, SwarmAction, SwarmReport};
use marie_core::network::bootstrap::{select_among, select_by_scores, BootstrapClient, BootstrapClientActor};
use marie_core::network::cp::control::ShutdownSignal;
use marie_core::network::cp::rpc::{SessionFetchRequest, WorkspaceFetchRequest};
use marie_core::network::mux::{incoming_frame, incoming_rpc, outgoing_frame, outgoing_rpc, RpcMessage};
use marie_core::network::peer::PeerId;
use marie_core::network::persistency::{
    execute_rpc, is_narrow, on_diff, on_files_deleted, on_session_deleted, on_workspace_found, route, sync_topic,
    Document, Ingest, IngestAction, IngestEvent, PersistencyNode, PersistencyReply, PersistencyRequest,
    PersistencyRoute, PersistencyStep, SyncTopic,
};
use marie_core::network::protocol::{Frame, NetworkCommand, NetworkEvent};
use marie_core::network::worker::client::WorkerClient;
use marie_core::network::worker::server::{job_done, JobOutcome, WorkerServer};
use marie_core::network::worker::watchdog::{TrackedState, WorkerWatchdog};
use marie_core::network::worker::{JobResult, WorkerError, WorkerEvent, NS_WORKER, NS_WORKER_WATCHDOG};
use marie_core::node::{MasterKeys, NodeId, NotConnected, SecretManagerPlan};
use sha2::Digest;
use yrs::updates::encoder::Encode;

fn peer(n: u8) -> PeerId {
    NodeId::new(vec![0, 1, n]).to_peer().unwrap()
}

fn frame(source: Option<PeerId>, destination: Option<PeerId>) -> Frame {
    Frame { channel: "rpc".to_string(), destination, source, payload: vec![1, 2] }
}

fn job(n: u128) -> JobInstance {
    JobInstance { id: JobId(ID(n)), name: "tri".to_string(), args: "[3,1]".to_string() }
}

#[test]
fn identities_of_peers() {
    let node = NodeId::new(vec![0, 1, 7]);
    let peer = node.to_peer().unwrap();
    assert_eq!(peer.to_bytes(), vec![0, 1, 7]);
    assert_ne!(peer.as_str(), "");
    assert_eq!(NodeId::from_peer(&peer), node);
    assert_eq!(NodeId::from_peer(&peer).to_peer(), Some(peer.clone()));
    // Two encodings of one identity: the shorter one is given back.
    let long = NodeId::new(vec![0x92, 0x80, 0x80, 0x80, 0x80, 0x80, 0x80, 0x80, 0x80, 0x02, 0]);
    assert_eq!(long.to_peer(), NodeId::new(vec![0x12, 0]).to_peer());
    assert_eq!(NodeId::from_peer(&long.to_peer().unwrap()), NodeId::new(vec![0x12, 0]));
    assert!(NodeId::new(vec![1, 2, 3]).to_peer().is_none());
    assert!(PeerId::from_bytes(&vec![]).is_none());
    assert_eq!(NodeId::new(vec![0, 10, 255]).to_text(), "[0, 10, 255]");
    assert_eq!(NodeId::default().to_text(), "[]");
    assert_eq!(peer.as_str(), libp2p::PeerId::from_bytes(&[0, 1, 7]).unwrap().to_base58());
}

#[test]
fn highest_score_wins_and_the_last_of_equals() {
    assert_eq!(select_by_scores(&vec![]), None);
    assert_eq!(select_by_scores(&vec![vec![1, 9], vec![2], vec![1, 255]]), Some(1));
    assert_eq!(select_by_scores(&vec![vec![5, 5], vec![5], vec![5, 5]]), Some(2));
}

#[test]
fn selection_follows_the_digests() {
    let peers: Vec<PeerId> = (1..6u8).map(peer).collect();
    let id = b"session".to_vec();
    let best = peers
        .iter()
        .max_by_key(|p| {
            let mut data = id.clone();
            data.extend(p.to_bytes());
            sha2::Sha256::digest(&data).to_vec()
        })
        .unwrap();
    assert_eq!(select_among(&peers, &id).as_ref(), Some(best));
    // The order of the peers does not matter, nor who else leaves.
    let reversed: Vec<PeerId> = peers.iter().rev().cloned().collect();
    assert_eq!(select_among(&reversed, &id).as_ref(), Some(best));
    let fewer: Vec<PeerId> = peers.iter().filter(|p| *p == best || **p == peers[0]).cloned().collect();
    assert_eq!(select_among(&fewer, &id).as_ref(), Some(best));
    assert_eq!(select_among(&vec![], &id), None);
}

fn members(list: &[(&str, u8)]) -> BootstrapClient {
    BootstrapClient { members: list.iter().map(|(ns, n)| (ns.to_string(), peer(*n))).collect() }
}

#[test]
fn namespaces_are_apart() {
    let client = members(&[("a", 1), ("b", 2), ("a", 3)]);
    assert_eq!(client.peers(&"a".to_string()), vec![peer(1), peer(3)]);
    assert_eq!(client.peers(&"c".to_string()), vec![]);
    assert_eq!(client.select_peer(&"b".to_string(), &vec![1]), Some(peer(2)));
    assert_eq!(client.select_peer(&"c".to_string(), &vec![1]), None);
}

#[test]
fn registrations_come_and_go() {
    let a = "a".to_string();
    let b = "b".to_string();
    let mut actor = BootstrapClientActor::new(vec![a.clone()], BootstrapClient::new());
    actor.on_namespace_peer_registered(a.clone(), peer(1), 30, 1000);
    actor.on_namespace_peer_registered(a.clone(), peer(2), 90, 1000);
    actor.on_namespace_peer_registered(b.clone(), peer(1), 90, 1000);
    assert_eq!(actor.checks.len(), 3);
    assert_eq!(actor.checks[0].expires_at, 31_000);
    assert_eq!(actor.client.peers(&a), vec![peer(1), peer(2)]);
    assert_eq!(actor.client.peers(&b), vec![peer(1)]);
    assert!(actor.client.select_peer(&a, &vec![1]).is_some());

    // Registering again prolongs the registration, and lists nobody twice.
    actor.on_namespace_peer_registered(a.clone(), peer(1), 60, 2000);
    assert_eq!(actor.checks.len(), 3);
    assert_eq!(actor.checks[0].expires_at, 62_000);
    assert_eq!(actor.client.peers(&a), vec![peer(1), peer(2)]);

    actor.on_ttl_tick(&a, &peer(1), 31_000);
    actor.on_ttl_tick(&a, &peer(1), 61_999);
    assert_eq!(actor.client.peers(&a), vec![peer(1), peer(2)]);
    actor.on_ttl_tick(&a, &peer(3), 62_000);
    assert_eq!(actor.checks.len(), 3);
    actor.on_ttl_tick(&a, &peer(1), 62_000);
    assert_eq!(actor.checks.len(), 2);
    assert_eq!(actor.client.peers(&a), vec![peer(2)]);
    assert_eq!(actor.client.peers(&b), vec![peer(1)]);
}

#[test]
fn disconnected_peers_serve_nothing() {
    let mut actor = BootstrapClientActor::new(vec!["a".to_string()], members(&[("a", 1), ("b", 1), ("b", 2)]));
    let command = actor.on_bootstrap_discovered(peer(1));
    assert_eq!(command.namespaces, vec!["a".to_string()]);
    assert_eq!(command.bootstrap_peer_id, peer(1));
    assert_eq!(command.ttl, None);
    actor.on_bootstrap_discovered(peer(4));
    actor.on_peer_disconnected(&peer(1));
    assert_eq!(actor.bootstrap_peers, vec![peer(4)]);
    assert_eq!(actor.client.peers(&"a".to_string()), vec![]);
    assert_eq!(actor.client.peers(&"b".to_string()), vec![peer(2)]);
}

#[test]
fn commands_become_actions() {
    match on_command(NetworkCommand::SendFrame(frame(None, Some(peer(2)))), &peer(1)) {
        SwarmAction::SendFrame { to, frame } => {
            assert_eq!(to, peer(2));
            assert_eq!(frame.source, Some(peer(1)));
            assert_eq!(frame.destination, Some(peer(2)));
        }
        _ => panic!("expected a frame"),
    }
    match on_command(NetworkCommand::SendFrame(frame(Some(peer(3)), Some(peer(2)))), &peer(1)) {
        SwarmAction::SendFrame { frame, .. } => assert_eq!(frame.source, Some(peer(3))),
        _ => panic!("expected a frame"),
    }
    assert_eq!(on_command(NetworkCommand::SendFrame(frame(None, None)), &peer(1)), SwarmAction::Drop);
    assert_eq!(on_command(NetworkCommand::Shutdown, &peer(1)), SwarmAction::Stop);
    assert_eq!(
        on_command(NetworkCommand::Publish { topic: "t".to_string(), payload: vec![1] }, &peer(1)),
        SwarmAction::Publish { topic: "t".to_string(), payload: vec![1] }
    );
}

#[test]
fn reports_become_events() {
    assert_eq!(
        on_report(SwarmReport::Request { peer: peer(1), frame: frame(Some(peer(9)), None) }),
        Some(NetworkEvent::ReceivedFrame(frame(Some(peer(1)), None)))
    );
    assert_eq!(
        on_report(SwarmReport::ConnectionClosed { peer: peer(1), num_established: 0 }),
        Some(NetworkEvent::PeerDisconnected { peer_id: peer(1) })
    );
    assert_eq!(on_report(SwarmReport::ConnectionClosed { peer: peer(1), num_established: 1 }), None);
    assert_eq!(on_report(SwarmReport::Other), None);
    let found = |n: u8, connected| Discovered { peer: peer(n), address: format!("/ip4/10.0.0.{n}"), connected };
    assert_eq!(
        addresses_to_dial(&vec![found(1, true), found(2, false), found(3, false)]),
        vec!["/ip4/10.0.0.2".to_string(), "/ip4/10.0.0.3".to_string()]
    );
}

#[test]
fn messages_travel_in_frames() {
    assert_eq!(incoming_frame(NetworkEvent::PeerConnected { peer_id: peer(1) }), None);
    assert_eq!(incoming_frame(NetworkEvent::ReceivedFrame(frame(None, None))), Some(frame(None, None)));
    assert_eq!(outgoing_frame(frame(None, None)), NetworkCommand::SendFrame(frame(None, None)));
    let message = RpcMessage { source: None, destination: Some(peer(2)), body: 5u8 };
    let sent = outgoing_rpc(&message, vec![7]);
    assert_eq!(sent.channel, "rpc");
    assert_eq!(sent.destination, Some(peer(2)));
    assert_eq!(sent.payload, vec![7]);
    let received = incoming_rpc(Some(peer(1)), Some(peer(3)), Some(message)).unwrap();
    assert_eq!(received.source, Some(peer(1)));
    assert_eq!(received.destination, Some(peer(2)));
    assert_eq!(incoming_rpc::<u8>(Some(peer(1)), None, None), None);
}

fn state_vector(clocks: &[(u64, u32)]) -> Vec<u8> {
    let mut vector = yrs::StateVector::default();
    for (client, clock) in clocks {
        vector.set_max(yrs::block::ClientID::new(*client), *clock);
    }
    vector.encode_v1()
}

fn fetch(state_vector: Vec<u8>) -> PersistencyRequest {
    PersistencyRequest::FetchSession(SessionFetchRequest { session_id: SessionId(ID(1)), state_vector })
}

#[test]
fn fetch_reads_the_state_vector() {
    match execute_rpc(fetch(state_vector(&[(5, 7), (300, 1)]))) {
        PersistencyStep::Diff { document, mut clocks } => {
            assert_eq!(document, Document::Session(SessionId(ID(1))));
            clocks.sort();
            assert_eq!(clocks, vec![(5, 7), (300, 1)]);
        }
        _ => panic!("expected a diff"),
    }
    assert!(matches!(execute_rpc(fetch(vec![])), PersistencyStep::Reply(PersistencyReply::Error(_))));
    assert!(matches!(execute_rpc(fetch(vec![2, 5])), PersistencyStep::Reply(PersistencyReply::Error(_))));
    let workspace = WorkspaceFetchRequest { workspace_id: WorkspaceId(ID(4)), state_vector: vec![0] };
    assert_eq!(
        execute_rpc(PersistencyRequest::FetchWorkspace(workspace)),
        PersistencyStep::Diff { document: Document::Workspace(WorkspaceId(ID(4))), clocks: vec![] }
    );
}

#[test]
fn clients_are_53_bit_numbers() {
    assert!(is_narrow(&state_vector(&[((1 << 53) - 1, u32::MAX)])));
    assert!(is_narrow(&vec![]));
    let wide: Vec<u8> = vec![1, 0x80, 0x80, 0x80, 0x80, 0x80, 0x80, 0x80, 0x10, 1];
    assert!(!is_narrow(&wide));
    let longer: Vec<u8> = vec![1, 0x80, 0x80, 0x80, 0x80, 0x80, 0x80, 0x80, 0x80, 1, 1];
    assert!(!is_narrow(&longer));
    for state_vector in [wide, longer] {
        let fetch = SessionFetchRequest { session_id: SessionId(ID(3)), state_vector };
        assert_eq!(
            execute_rpc(PersistencyRequest::FetchSession(fetch)),
            PersistencyStep::Reply(PersistencyReply::Error(
                "the state vector holds a number of more than 53 bits".to_string()
            ))
        );
    }
}

#[test]
fn persistency_replies() {
    assert_eq!(route("fetch-session"), PersistencyRoute::FetchSession);
    assert_eq!(route("fetch-workspace"), PersistencyRoute::FetchWorkspace);
    assert_eq!(route("delete-session"), PersistencyRoute::DeleteSession);
    assert_eq!(route("vote"), PersistencyRoute::Unmanaged);
    assert_eq!(
        execute_rpc(PersistencyRequest::Unmanaged { name: "vote".to_string() }),
        PersistencyStep::Reply(PersistencyReply::Error("unmanaged remote procedure vote".to_string()))
    );
    let session = Document::Session(SessionId(ID(1)));
    assert_eq!(on_diff(session, "s1", Ok(Some(vec![1]))), PersistencyReply::Diff(vec![1]));
    assert_eq!(
        on_diff(session, "s1", Ok(None)),
        PersistencyReply::Error("session s1 inconnue de ce nœud de persistance".to_string())
    );
    assert_eq!(
        on_diff(Document::Workspace(WorkspaceId(ID(2))), "w2", Ok(None)),
        PersistencyReply::Error("workspace w2 inconnu de ce nœud de persistance".to_string())
    );
    assert_eq!(on_diff(session, "s1", Err("x".to_string())), PersistencyReply::Error("x".to_string()));
}

#[test]
fn persistency_stops_when_asked() {
    let mut node = PersistencyNode::new();
    assert!(!node.on_shutdown(ShutdownSignal::NotRequested));
    assert!(!node.shutdown_gone);
    assert!(!node.on_shutdown(ShutdownSignal::Gone));
    assert!(node.shutdown_gone);
    assert!(node.on_shutdown(ShutdownSignal::Requested));
}

#[test]
fn deletion_takes_files_along() {
    let session_id = SessionId(ID(1));
    let workspace_id = WorkspaceId(ID(2));
    assert_eq!(
        execute_rpc(PersistencyRequest::DeleteSession(session_id)),
        PersistencyStep::DeleteSession { session_id }
    );
    assert_eq!(on_session_deleted(session_id, Ok(())), PersistencyStep::FindWorkspace { session_id });
    assert!(matches!(on_session_deleted(session_id, Err("x".to_string())), PersistencyStep::Reply(_)));
    assert_eq!(
        on_workspace_found(session_id, Ok(Some(workspace_id))),
        PersistencyStep::DeleteFiles { workspace_id, session_id }
    );
    assert_eq!(
        on_workspace_found(session_id, Err("x".to_string())),
        PersistencyStep::Reply(PersistencyReply::Null)
    );
    assert_eq!(on_files_deleted(Ok(())), PersistencyReply::Null);
    assert_eq!(on_files_deleted(Err("x".to_string())), PersistencyReply::Error("x".to_string()));
}

#[test]
fn unknown_documents_are_fetched_whole() {
    let document = Document::Session(SessionId(ID(1)));
    let ingest = Ingest { document, source: peer(3), diff: vec![4, 5] };
    assert_eq!(
        ingest.on_event(IngestEvent::Loaded { held: false }),
        IngestAction::Fetch { source: peer(3), document, state_vector: vec![0] }
    );
    assert_eq!(
        ingest.on_event(IngestEvent::Fetched { full_diff: vec![9] }),
        IngestAction::Build { full_diff: vec![9] }
    );
    assert_eq!(ingest.on_event(IngestEvent::Built), IngestAction::Apply { diff: vec![4, 5] });
    assert_eq!(ingest.on_event(IngestEvent::Loaded { held: true }), IngestAction::Apply { diff: vec![4, 5] });
    assert_eq!(ingest.on_event(IngestEvent::Applied), IngestAction::Store { document });
    assert_eq!(ingest.on_event(IngestEvent::Stored), IngestAction::Done);
    assert_eq!(
        ingest.on_event(IngestEvent::Failed { error: "x".to_string() }),
        IngestAction::GiveUp { error: "x".to_string() }
    );
    assert_eq!(sync_topic("s", "s", "w"), SyncTopic::Sessions);
    assert_eq!(sync_topic("w", "s", "w"), SyncTopic::Workspaces);
    assert_eq!(sync_topic("x", "s", "w"), SyncTopic::Other);
}

#[test]
fn jobs_need_a_worker_and_a_watchdog() {
    let spawn = |list: &[(&str, u8)]| {
        let client = WorkerClient { bootstrap: members(list) };
        client.spawn(JobId(ID(1)), "tri".to_string(), "[3,1]".to_string())
    };
    assert_eq!(spawn(&[]), Err(WorkerError::NoWorkerFound));
    assert_eq!(spawn(&[(NS_WORKER_WATCHDOG, 2)]), Err(WorkerError::NoWorkerFound));
    assert_eq!(spawn(&[(NS_WORKER, 1)]), Err(WorkerError::NoWatchdogFound));
    let spawned = spawn(&[(NS_WORKER, 1), (NS_WORKER_WATCHDOG, 2)]).unwrap();
    assert_eq!(spawned.job, job(1));
    assert_eq!(spawned.worker, peer(1));
    assert_eq!(spawned.watchdog, peer(2));
    assert_eq!(WorkerError::NoWorkerFound.message(), "aucun worker n'est accessible");
    assert_eq!(WorkerError::RpcError("x".to_string()).message(), "erreur lors de l'appel distant");
}

#[test]
fn workers_execute_what_they_know() {
    let mut server: WorkerServer<u8> = WorkerServer::new();
    assert_eq!(server.schedule(&job(1), true), Err("aucun exécuteur pour le travail n'a été trouvé"));
    server.register_job_executor("tri".to_string(), 1);
    server.register_job_executor("tri".to_string(), 2);
    assert_eq!(server.schedule(&job(1), true), Ok(&2));
    assert_eq!(
        server.schedule(&job(1), false),
        Err("erreur lors de la desérialization des arguments du job")
    );
}

#[test]
fn ends_of_jobs_are_told() {
    let id = JobId(ID(1));
    let done = |outcome| match job_done(id, "tri", "j1", outcome) {
        WorkerEvent::JobDone { result, .. } => result,
        WorkerEvent::JobStateUpdate { .. } => panic!("the job is done"),
    };
    assert_eq!(done(JobOutcome::Returned("[1,3]".to_string())), JobResult::Success("[1,3]".to_string()));
    assert_eq!(
        done(JobOutcome::Errored("vide".to_string())),
        JobResult::Failed("le travail tri#j1 a échoué: vide".to_string())
    );
    assert_eq!(done(JobOutcome::Panicked), JobResult::Failed("le travail tri#j1 a paniqué".to_string()));
}

#[test]
fn watchdog_follows_a_job() {
    let mut watchdog = WorkerWatchdog::new();
    let id = JobId(ID(1));
    assert_eq!(watchdog.get_job_state(id), None);
    assert_eq!(watchdog.schedule_job(id, Some(peer(1))), None);
    watchdog.watch_job(job(1));
    assert_eq!(watchdog.get_job_state(id), Some(&TrackedState::Pending));
    assert_eq!(watchdog.schedule_job(id, None), None);
    assert_eq!(watchdog.schedule_job(id, Some(peer(1))), Some((job(1), peer(1))));
    let scheduled = || TrackedState::Scheduled { worker: peer(1) };
    assert_eq!(
        watchdog.on_scheduled(id, peer(1)),
        WorkerEvent::JobStateUpdate { id, state: scheduled() }
    );
    assert_eq!(watchdog.get_job_state(id), Some(&scheduled()));
    let result = || JobResult::Failed("x".to_string());
    assert_eq!(watchdog.update_job_state_upon_result(id, result(), false), None);
    assert_eq!(watchdog.update_job_state_upon_result(JobId(ID(2)), result(), true), None);
    let failed = || TrackedState::Failed { error: "x".to_string() };
    assert_eq!(
        watchdog.update_job_state_upon_result(id, result(), true),
        Some(WorkerEvent::JobStateUpdate { id, state: failed() })
    );
    assert_eq!(watchdog.get_job_state(id), Some(&failed()));
}

#[test]
fn worker_events_have_topics() {
    let event = || WorkerEvent::JobDone { id: JobId(ID(1)), result: JobResult::Success("1".to_string()) };
    assert_eq!(event().topic(), "marie/workers/events/job-done");
    let update = WorkerEvent::JobStateUpdate { id: JobId(ID(1)), state: TrackedState::Pending };
    assert_eq!(update.topic(), "marie/workers/events/job-state-update");
    assert!(WorkerEvent::is(&update.to_message(vec![])));
    let message = event().to_message(vec![1]);
    let mut other = event().to_message(vec![1]);
    other.topic = "marie/workers".to_string();
    assert!(!WorkerEvent::is(&other));
    assert_eq!(message.topic, event().topic());
    assert_eq!(message.id, "");
    assert_eq!(WorkerEvent::try_from_message(&message, Some(event())), Ok(event()));
    assert_eq!(WorkerEvent::try_from_message(&other, Some(event())), Err(WorkerError::NotWorkerEvent));
    assert_eq!(WorkerEvent::try_from_message(&message, None), Err(WorkerError::NotWorkerEvent));
}

#[test]
fn states_of_jobs() {
    let node = || NodeId::new(vec![0, 1, 1]);
    assert_eq!(JobState::<u8>::default(), JobState::Unknown);
    assert!(JobState::Completed(1u8).has_terminated());
    assert!(JobState::<u8>::Failed { error: WorkerError::NoWorkerFound }.has_terminated());
    assert!(!JobState::<u8>::Running { worker: node() }.has_terminated());
    assert!(JobState::<u8>::Probing { worker: node() }.is_probing());
    assert!(JobState::<u8>::PendingAck { worker: node() }.is_pending_ack());
    let parse = |text: String| text.parse::<u8>().map_err(|e| e.to_string());
    assert_eq!(JobState::Completed("12".to_string()).deserialize(parse), Ok(JobState::Completed(12)));
    assert!(matches!(
        JobState::Completed("douze".to_string()).deserialize(parse),
        Err(WorkerError::SerdeError(_))
    ));
    assert_eq!(
        JobState::<String>::Scheduled { worker: node() }.deserialize(parse),
        Ok(JobState::Scheduled { worker: node() })
    );
}

#[test]
fn keys_of_a_node() {
    let single = MasterKeys::from(vec![1, 2]);
    assert!(matches!(single.into_secret_manager(), SecretManagerPlan::New(key) if key == vec![1, 2]));
    let multi = MasterKeys::Multi { keys: vec![(1, vec![1]), (2, vec![2])], current_epoch: 2 };
    match multi.into_secret_manager() {
        SecretManagerPlan::WithEpochs { keys, current_epoch } => {
            assert_eq!(keys.len(), 2);
            assert_eq!(current_epoch, 2);
        }
        SecretManagerPlan::New(_) => panic!("there are several keys"),
    }
    assert_eq!(
        NotConnected.message(),
        "nœud pas encore connecté au réseau (voir Marie::start / Marie::join)"
    );
}
