use marie_core::id::{SessionId, ID};
use marie_core::lease::authority::LeaseAuthority;
use marie_core::lease::client::{LeaseClient, Retry};
use marie_core::lease::protocol::{LeaseOp, LeaseRequest, LeaseResult};
use marie_core::lease::raft::{stable_hash, LeaseNodeId};
use marie_core::lease::server::{bootstrap, first_lowest, should_initialize};
use marie_core::lease::storage::{LeasePayload, LeaseStateMachine, SnapshotMeta};
use marie_core::lease::time::{Span, Timestamp};
use marie_core::network::peer::PeerId;
use marie_core::node::NodeId;
use marie_core::raft_log::{LogEntry, LogId};

fn peer(n: u8) -> PeerId {
    NodeId::new(vec![0, 1, n]).to_peer().unwrap()
}

fn node(n: u8) -> NodeId {
    NodeId::new(vec![0, 1, n])
}

fn session() -> SessionId {
    SessionId(ID(77))
}

fn at(secs: i64) -> Timestamp {
    Timestamp { secs, nanos: 0 }
}

fn log_id(index: u64) -> LogId {
    LogId { term: 1, node_id: 1, index }
}

fn acquire(n: u8, ttl: i64) -> LeaseRequest {
    LeaseClient::acquire(ID(1), session(), node(n), Span::seconds(ttl))
}

fn renew(n: u8, epoch: u64, ttl: i64) -> LeaseRequest {
    LeaseClient::renew(ID(2), session(), node(n), epoch, Span::seconds(ttl))
}

fn release(n: u8, epoch: u64) -> LeaseRequest {
    LeaseClient::release(ID(3), session(), node(n), epoch)
}

#[test]
fn acquire_renew_release_reacquire_bumps_epoch() {
    let mut machine = LeaseStateMachine::new("a,b,c".to_string());
    let mut index: u64 = 0;
    let mut write = |request: LeaseRequest| {
        index = index + 1;
        let entry = LogEntry { log_id: log_id(index), payload: LeasePayload::Normal(request) };
        let mut results = machine.apply(vec![entry]).unwrap();
        results.pop().unwrap()
    };

    // A takes the lease of a session that nobody ever held: epoch 1.
    let granted = write(acquire(1, 30));
    let epoch = match granted {
        LeaseResult::Granted { epoch, .. } => epoch,
        other => panic!("attendu Granted, obtenu {other:?}"),
    };
    assert_eq!(epoch, 1);

    // B tries to take the same session while A still holds it: refused.
    let denied = write(acquire(2, 30));
    match denied {
        LeaseResult::Denied { current_holder, current_epoch } => {
            assert_eq!(current_holder, node(1));
            assert_eq!(current_epoch, epoch);
        }
        other => panic!("attendu Denied, obtenu {other:?}"),
    }

    // A renews its lease with the epoch that it holds.
    let renewed = write(renew(1, epoch, 30));
    assert!(matches!(renewed, LeaseResult::Renewed { .. }), "attendu Renewed, obtenu {renewed:?}");

    // A gives the lease back.
    let released = write(release(1, epoch));
    assert!(matches!(released, LeaseResult::Renewed { .. }), "attendu Renewed (relâché), obtenu {released:?}");

    // Whoever takes it next gets a new epoch.
    let granted_again = write(acquire(3, 30));
    match granted_again {
        LeaseResult::Granted { epoch: new_epoch, .. } => assert_eq!(new_epoch, epoch + 1),
        other => panic!("attendu Granted, obtenu {other:?}"),
    }
}

#[test]
fn lease_expires_at_its_end() {
    let mut authority = LeaseAuthority::new();
    let granted = authority.handle_request_at(&acquire(1, 30), at(1000));
    assert_eq!(granted.result, LeaseResult::Granted { epoch: 1, expires_at: at(1030) });
    assert_eq!(granted.request_id, ID(1));

    // Up to its last moment the lease excludes others; its end is no longer part of it.
    let still = authority.handle_request_at(&acquire(2, 30), Timestamp { secs: 1029, nanos: 999_999_999 });
    assert_eq!(still.result, LeaseResult::Denied { current_holder: node(1), current_epoch: 1 });
    let taken = authority.handle_request_at(&acquire(2, 30), at(1030));
    assert_eq!(taken.result, LeaseResult::Granted { epoch: 2, expires_at: at(1060) });

    // The first holder cannot renew under its old epoch.
    let stale = authority.handle_request_at(&renew(1, 1, 30), at(1031));
    assert_eq!(stale.result, LeaseResult::Denied { current_holder: node(2), current_epoch: 2 });
    // Nor can somebody else under the new one.
    let foreign = authority.handle_request_at(&renew(1, 2, 30), at(1031));
    assert_eq!(foreign.result, LeaseResult::Denied { current_holder: node(2), current_epoch: 2 });
}

#[test]
fn nanoseconds_carry_into_seconds() {
    let mut authority = LeaseAuthority::new();
    let request = LeaseRequest {
        request_id: ID(9),
        session_id: session(),
        op: LeaseOp::Acquire { holder: node(1), ttl: Span { secs: 1, nanos: 600_000_000 } },
    };
    let granted = authority.handle_request_at(&request, Timestamp { secs: 10, nanos: 500_000_000 });
    assert_eq!(
        granted.result,
        LeaseResult::Granted { epoch: 1, expires_at: Timestamp { secs: 12, nanos: 100_000_000 } }
    );
}

#[test]
fn lease_cannot_end_outside_the_calendar() {
    let mut authority = LeaseAuthority::new();
    let endless = acquire(1, i64::MAX);
    assert!(!authority.can_answer(&endless, at(0)));
    assert!(authority.can_answer(&acquire(1, 30), at(0)));
    assert!(authority.handle_request(&endless).is_none());
    assert!(authority.handle_request(&acquire(1, 30)).is_some());
}

#[test]
fn clock_is_past_2020() {
    let mut authority = LeaseAuthority::new();
    match authority.handle_request(&acquire(1, 0)).map(|r| r.result) {
        Some(LeaseResult::Granted { expires_at, .. }) => assert!(expires_at.secs > 1_577_836_800),
        _ => panic!("expected a grant"),
    }
}

#[test]
fn snapshot_carries_leases_and_epochs() {
    let mut source = LeaseAuthority::new();
    source.handle_request_at(&acquire(1, 30), at(0));
    source.handle_request_at(&release(1, 1), at(1));
    source.handle_request_at(&acquire(2, 30), at(2));
    let mut target = LeaseAuthority::new();
    target.restore(source.snapshot());
    let denied = target.handle_request_at(&acquire(3, 30), at(3));
    assert_eq!(denied.result, LeaseResult::Denied { current_holder: node(2), current_epoch: 2 });
    let granted = target.handle_request_at(&acquire(3, 30), at(100));
    assert_eq!(granted.result, LeaseResult::Granted { epoch: 3, expires_at: at(130) });
}

#[test]
fn machine_records_what_it_applied() {
    let mut machine = LeaseStateMachine::new("m0".to_string());
    assert_eq!(machine.applied_state().0, None);
    let results = machine
        .apply(vec![
            LogEntry { log_id: log_id(1), payload: LeasePayload::Blank },
            LogEntry { log_id: log_id(2), payload: LeasePayload::Membership("m1".to_string()) },
        ])
        .unwrap();
    assert_eq!(results, vec![
        LeaseResult::NotLeader { leader_hint: None },
        LeaseResult::NotLeader { leader_hint: None },
    ]);
    assert_eq!(machine.applied_state().0, Some(log_id(2)));
    assert_eq!(machine.applied_state().1.membership, "m1");
    assert_eq!(machine.applied_state().1.log_id, Some(log_id(2)));
}

#[test]
fn snapshots_of_the_machine() {
    let mut machine = LeaseStateMachine::new("m0".to_string());
    assert!(machine.get_current_snapshot().is_none());
    machine.apply_at(LogEntry { log_id: log_id(4), payload: LeasePayload::Normal(acquire(1, 30)) }, at(0));
    let meta = machine.build_snapshot(vec![1, 2, 3], 42);
    assert_eq!(meta.last_log_id, Some(log_id(4)));
    assert_eq!(machine.get_current_snapshot().unwrap().data, vec![1, 2, 3]);
    assert_eq!(machine.get_current_snapshot().unwrap().meta, meta);

    let mut other = LeaseStateMachine::new("m9".to_string());
    let decoded = machine.lease_snapshot();
    other.install_snapshot(meta.clone(), vec![1, 2, 3], Some(decoded));
    assert_eq!(other.applied_state().0, Some(log_id(4)));
    assert_eq!(other.applied_state().1.membership, "m0");
    let denied = other.apply_at(
        LogEntry { log_id: log_id(5), payload: LeasePayload::Normal(acquire(2, 30)) },
        at(1),
    );
    assert_eq!(denied, LeaseResult::Denied { current_holder: node(1), current_epoch: 1 });
}

#[test]
fn snapshots_made_at_different_times_have_different_names() {
    let mut a = LeaseStateMachine::new("m".to_string());
    let mut b = LeaseStateMachine::new("m".to_string());
    let first: SnapshotMeta = a.build_snapshot(vec![], 1);
    let second: SnapshotMeta = b.build_snapshot(vec![], 2);
    assert_ne!(first.snapshot_id, second.snapshot_id);
}

#[test]
fn client_follows_the_leader() {
    let mut client = LeaseClient::new();
    assert_eq!(
        client.submit(&vec![]),
        Err("aucun pair Capability::Lease connu pour soumettre la requête de bail".to_string())
    );
    assert_eq!(client.submit(&vec![peer(1), peer(2)]), Ok(peer(1)));
    match client.retry_on_forward(Some(&node(2)), &peer(1), "pas leader") {
        Retry::Leader(leader) => assert_eq!(leader, peer(2)),
        _ => panic!("expected the leader"),
    }
    assert_eq!(client.submit(&vec![peer(1)]), Ok(peer(2)));
    match client.retry_on_forward(None, &peer(1), "en panne") {
        Retry::Fail(error) => {
            assert_eq!(error, format!("échec de la soumission de la requête de bail sur {} : en panne", peer(1).as_str()))
        }
        _ => panic!("expected a failure"),
    }
    assert!(matches!(client.retry_on_forward(Some(&NodeId::new(vec![])), &peer(1), "x"), Retry::NoIdentity));
    assert_eq!(client.follow(None), Retry::NoIdentity);
    assert_eq!(client.follow(Some(peer(3))), Retry::Leader(peer(3)));
    assert_eq!(client.leader_hint, Some(peer(3)));
    assert_eq!(
        LeaseClient::leader_refused(&peer(2), "non"),
        format!("échec de la soumission de la requête de bail sur le leader {} : non", peer(2).as_str())
    );
}

#[test]
fn exactly_one_node_starts_the_group() {
    let all = || vec![peer(1), peer(2), peer(3)];
    let starters: Vec<u8> = (1..4u8).filter(|n| bootstrap(all(), &peer(*n)).is_some()).collect();
    assert_eq!(starters.len(), 1);
    let members = bootstrap(all(), &peer(starters[0])).unwrap();
    assert_eq!(members.len(), 3);
    for n in 1..4u8 {
        assert_eq!(members.get(&LeaseNodeId::from_peer(&peer(n)).0), Some(&node(n)));
    }
    // A node that is missing from the list counts too.
    let others: Vec<PeerId> = all().into_iter().filter(|p| *p != peer(starters[0])).collect();
    assert!(bootstrap(others, &peer(starters[0])).is_some());
    assert_eq!(first_lowest(&vec![5, 2, 9, 2]), Some(1));
    assert_eq!(first_lowest(&vec![]), None);
    assert!(should_initialize(Ok(false)));
    assert!(!should_initialize(Ok(true)));
    assert!(!should_initialize(Err("x".to_string())));
}

#[test]
fn numbers_of_nodes() {
    assert_eq!(stable_hash(&[]), 17280346270528514342);
    assert_eq!(LeaseNodeId::from_node(&node(1)), LeaseNodeId::from_peer(&peer(1)));
    assert_eq!(LeaseNodeId(0xab).to_text(), "00000000000000ab");
}
