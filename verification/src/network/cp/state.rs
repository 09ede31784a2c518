//! The replicated state of the control plane, and who holds what in it.

use crate::collections::{ascending, has_key, lemma_ascending_push, Table};
use crate::expert::{ExpertDeclaration, ExpertId};
use crate::id::{GlobalAgentId, SessionId, WorkspaceId};
use crate::job::JobId;
use crate::mode::state_graph::catalog::StateGraphCatalog;
use crate::mode::state_graph::declaration::StateGraphDeclaration;
use crate::model::declaration::{Model, ModelId};
use crate::network::cp::jobs::{session_id_of, session_of, JobKind, JobRecord, JobState};
use crate::network::cp::types::WorkerInfo;
use crate::network::peer::{contains_peer, peer_texts, PeerId};
use crate::tools::{ToolDeclaration, ToolId};
use vstd::prelude::*;

verus! {

/// What every control plane agrees on.
pub struct ControlPlaneState {
    pub models: Table<ModelId, Model>,
    pub tools: Table<ToolId, ToolDeclaration>,
    pub experts: Table<ExpertId, ExpertDeclaration>,
    pub state_graphs: StateGraphCatalog,
    pub jobs: Table<JobId, JobRecord>,
    pub workers: Table<PeerId, WorkerInfo>,
    pub persistency_nodes: Table<PeerId, ()>,
    pub session_workspaces: Table<SessionId, WorkspaceId>,
}

impl ControlPlaneState {
    /// The state of a cluster that has done nothing yet.
    pub fn new() -> (r: Self)
        ensures
            r.models@ == Map::<Seq<char>, Model>::empty(),
            r.models.entries() == Seq::<(ModelId, Model)>::empty(),
            r.tools@ == Map::<Seq<char>, ToolDeclaration>::empty(),
            r.tools.entries() == Seq::<(ToolId, ToolDeclaration)>::empty(),
            r.experts@ == Map::<Seq<char>, ExpertDeclaration>::empty(),
            r.experts.entries() == Seq::<(ExpertId, ExpertDeclaration)>::empty(),
            r.state_graphs@ == Map::<Seq<char>, StateGraphDeclaration>::empty(),
            r.jobs@ == Map::<u128, JobRecord>::empty(),
            r.jobs.entries() == Seq::<(JobId, JobRecord)>::empty(),
            r.workers@ == Map::<Seq<char>, WorkerInfo>::empty(),
            r.workers.entries() == Seq::<(PeerId, WorkerInfo)>::empty(),
            r.persistency_nodes@ == Map::<Seq<char>, ()>::empty(),
            r.persistency_nodes.entries() == Seq::<(PeerId, ())>::empty(),
            r.session_workspaces@ == Map::<u128, WorkspaceId>::empty(),
            r.session_workspaces.entries() == Seq::<(SessionId, WorkspaceId)>::empty(),
    {
        ControlPlaneState {
            models: Table::new(),
            tools: Table::new(),
            experts: Table::new(),
            state_graphs: StateGraphCatalog::new(),
            jobs: Table::new(),
            workers: Table::new(),
            persistency_nodes: Table::new(),
            session_workspaces: Table::new(),
        }
    }
}

/// Whether `worker` runs, or is about to run, a job of `session`.
pub open spec fn runs_session(
    jobs: Map<u128, JobRecord>,
    session: SessionId,
    worker: Seq<char>,
) -> bool {
    exists|j: u128| #[trigger]
        jobs.contains_key(j) && session_of(jobs[j].job) == session && jobs[j].state.worker_of()
            == Some(worker)
}

/// Whether a job of `session` was just given to `worker`.
pub open spec fn assigned_session(
    jobs: Map<u128, JobRecord>,
    assignments: Map<u128, PeerId>,
    session: SessionId,
    worker: Seq<char>,
) -> bool {
    exists|j: u128| #[trigger]
        assignments.contains_key(j) && jobs.contains_key(j) && session_of(jobs[j].job) == session
            && assignments[j]@ == worker
}

/// Whether `worker` holds the state of `session`.
pub open spec fn holds_session(
    jobs: Map<u128, JobRecord>,
    assignments: Map<u128, PeerId>,
    session: SessionId,
    worker: Seq<char>,
) -> bool {
    runs_session(jobs, session, worker) || assigned_session(jobs, assignments, session, worker)
}

/// The workers that hold the state of `session`.
pub open spec fn session_holder_set(
    jobs: Map<u128, JobRecord>,
    assignments: Map<u128, PeerId>,
    session: SessionId,
) -> Set<Seq<char>> {
    Set::new(|w: Seq<char>| holds_session(jobs, assignments, session, w))
}

/// Whether `worker` holds the state of `workspace`: it holds one of the
/// sessions that belong to it.
pub open spec fn holds_workspace(
    state: &ControlPlaneState,
    assignments: Map<u128, PeerId>,
    workspace: WorkspaceId,
    worker: Seq<char>,
) -> bool {
    exists|s: SessionId| #[trigger]
        state.session_workspaces@.contains_key(s@) && state.session_workspaces@[s@] == workspace
            && holds_session(state.jobs@, assignments, s, worker)
}

/// The workers that hold the state of `workspace`.
pub open spec fn workspace_holder_set(
    state: &ControlPlaneState,
    assignments: Map<u128, PeerId>,
    workspace: WorkspaceId,
) -> Set<Seq<char>> {
    Set::new(|w: Seq<char>| holds_workspace(state, assignments, workspace, w))
}

/// The peers of `nodes` that are not among `holders`, in order.
pub open spec fn fallbacks(nodes: Seq<(PeerId, ())>, holders: Set<Seq<char>>) -> Seq<Seq<char>>
    decreases nodes.len(),
{
    if nodes.len() == 0 {
        Seq::empty()
    } else if holders.contains(nodes.last().0@) {
        fallbacks(nodes.drop_last(), holders)
    } else {
        fallbacks(nodes.drop_last(), holders).push(nodes.last().0@)
    }
}

/// Whether `list` names the holders first, each once and in some order, and
/// after them the persistency nodes that are no holders.
pub open spec fn holders_then_fallbacks(
    list: Seq<Seq<char>>,
    holders: Set<Seq<char>>,
    nodes: Seq<(PeerId, ())>,
) -> bool {
    exists|k: int|
        {
            &&& 0 <= k <= list.len()
            &&& (#[trigger] list.take(k)).no_duplicates()
            &&& list.take(k).to_set() == holders
            &&& list.skip(k) == fallbacks(nodes, holders)
        }
}

/// Adds `peer` where it is not there yet.
fn add_holder(holders: &mut Vec<PeerId>, peer: &PeerId)
    requires
        peer_texts(old(holders)@).no_duplicates(),
    ensures
        peer_texts(final(holders)@).no_duplicates(),
        peer_texts(final(holders)@).to_set() == peer_texts(old(holders)@).to_set().insert(peer@),
{
    let ghost before = peer_texts(holders@);
    if contains_peer(holders, peer) {
        assert(before.to_set().insert(peer@) =~= before.to_set());
        return;
    }
    holders.push(peer.clone());
    proof {
        let after = peer_texts(holders@);
        assert(after =~= before.push(peer@));
        assert forall|i: int, j: int|
            0 <= i < after.len() && 0 <= j < after.len() && i != j implies after[i] != after[j] by {
            if i == before.len() {
                assert(before.contains(before[j]));
            } else if j == before.len() {
                assert(before.contains(before[i]));
            }
        }
        assert forall|w: Seq<char>| after.contains(w) == (before.contains(w) || w == peer@) by {
            if before.contains(w) {
                let i = choose|i: int| 0 <= i < before.len() && before[i] == w;
                assert(after[i] == w);
            }
            if w == peer@ {
                assert(after[before.len() as int] == w);
            }
            if after.contains(w) && w != peer@ {
                let i = choose|i: int| 0 <= i < after.len() && after[i] == w;
                assert(before[i] == w);
            }
        }
        assert(after.to_set() =~= before.to_set().insert(peer@));
    }
}

/// Adds the workers that hold `session`.
fn add_session_holders(
    holders: &mut Vec<PeerId>,
    state: &ControlPlaneState,
    assignments: &Table<JobId, PeerId>,
    session: SessionId,
)
    requires
        peer_texts(old(holders)@).no_duplicates(),
    ensures
        peer_texts(final(holders)@).no_duplicates(),
        peer_texts(final(holders)@).to_set() == peer_texts(old(holders)@).to_set().union(
            session_holder_set(state.jobs@, assignments@, session),
        ),
{
    let ghost base = peer_texts(holders@).to_set();
    let ghost jobs = state.jobs.entries();
    let n: usize = state.jobs.len();
    let mut i: usize = 0;
    while i < n
        invariant
            i <= n,
            n == jobs.len(),
            jobs == state.jobs.entries(),
            peer_texts(holders@).no_duplicates(),
            forall|w: Seq<char>| #[trigger]
                peer_texts(holders@).to_set().contains(w) <==> base.contains(w) || exists|k: int|
                    0 <= k < i && session_of((#[trigger] jobs[k]).1.job) == session
                        && jobs[k].1.state.worker_of() == Some(w),
        decreases n - i,
    {
        let record = state.jobs.value_at(i);
        let ghost before = peer_texts(holders@).to_set();
        if session_id_of(&record.job) == Some(session) {
            match record.state.worker() {
                Some(worker) => add_holder(holders, worker),
                None => {},
            }
        }
        proof {
            assert forall|w: Seq<char>| #[trigger]
                peer_texts(holders@).to_set().contains(w) <==> base.contains(w) || exists|k: int|
                    0 <= k < i + 1 && session_of((#[trigger] jobs[k]).1.job) == session
                        && jobs[k].1.state.worker_of() == Some(w) by {
                let here = session_of(jobs[i as int].1.job) == session && jobs[i as int].1.state.worker_of()
                    == Some(w);
                assert(peer_texts(holders@).to_set().contains(w) <==> before.contains(w) || here);
                if exists|k: int|
                    0 <= k < i && session_of((#[trigger] jobs[k]).1.job) == session
                        && jobs[k].1.state.worker_of() == Some(w) {
                    let k = choose|k: int|
                        0 <= k < i && session_of((#[trigger] jobs[k]).1.job) == session
                            && jobs[k].1.state.worker_of() == Some(w);
                    assert(0 <= k < i + 1 && session_of(jobs[k].1.job) == session);
                }
            }
        }
        i = i + 1;
    }
    let ghost running = peer_texts(holders@).to_set();
    proof {
        assert forall|w: Seq<char>| running.contains(w) <==> base.contains(w) || runs_session(
            state.jobs@,
            session,
            w,
        ) by {
            if runs_session(state.jobs@, session, w) {
                let j = choose|j: u128| #[trigger]
                    state.jobs@.contains_key(j) && session_of(state.jobs@[j].job) == session
                        && state.jobs@[j].state.worker_of() == Some(w);
                assert(has_key(jobs, j));
                let k = crate::collections::key_index(jobs, j);
                assert(jobs[k].0@ == j);
                assert(state.jobs@[jobs[k].0@] == jobs[k].1);
            }
            if exists|k: int|
                0 <= k < n && session_of((#[trigger] jobs[k]).1.job) == session
                    && jobs[k].1.state.worker_of() == Some(w) {
                let k = choose|k: int|
                    0 <= k < n && session_of((#[trigger] jobs[k]).1.job) == session
                        && jobs[k].1.state.worker_of() == Some(w);
                assert(state.jobs@.contains_key(jobs[k].0@));
            }
        }
    }
    let ghost given = assignments.entries();
    let m: usize = assignments.len();
    let mut p: usize = 0;
    while p < m
        invariant
            p <= m,
            m == given.len(),
            given == assignments.entries(),
            peer_texts(holders@).no_duplicates(),
            forall|w: Seq<char>| #[trigger]
                peer_texts(holders@).to_set().contains(w) <==> running.contains(w) || exists|k: int|
                    0 <= k < p && state.jobs@.contains_key((#[trigger] given[k]).0@) && session_of(
                        state.jobs@[given[k].0@].job,
                    ) == session && given[k].1@ == w,
        decreases m - p,
    {
        let ghost before = peer_texts(holders@).to_set();
        let job_id = assignments.key_at(p);
        let worker = assignments.value_at(p);
        match state.jobs.get(job_id) {
            Some(record) => {
                if session_id_of(&record.job) == Some(session) {
                    add_holder(holders, worker);
                }
            },
            None => {},
        }
        proof {
            assert forall|w: Seq<char>| #[trigger]
                peer_texts(holders@).to_set().contains(w) <==> running.contains(w) || exists|k: int|
                    0 <= k < p + 1 && state.jobs@.contains_key((#[trigger] given[k]).0@)
                        && session_of(state.jobs@[given[k].0@].job) == session && given[k].1@
                        == w by {
                let here = state.jobs@.contains_key(given[p as int].0@) && session_of(
                    state.jobs@[given[p as int].0@].job,
                ) == session && given[p as int].1@ == w;
                assert(peer_texts(holders@).to_set().contains(w) <==> before.contains(w) || here);
                if exists|k: int|
                    0 <= k < p && state.jobs@.contains_key((#[trigger] given[k]).0@) && session_of(
                        state.jobs@[given[k].0@].job,
                    ) == session && given[k].1@ == w {
                    let k = choose|k: int|
                        0 <= k < p && state.jobs@.contains_key((#[trigger] given[k]).0@)
                            && session_of(state.jobs@[given[k].0@].job) == session && given[k].1@
                            == w;
                    assert(0 <= k < p + 1 && state.jobs@.contains_key(given[k].0@));
                }
            }
        }
        p = p + 1;
    }
    proof {
        let all = session_holder_set(state.jobs@, assignments@, session);
        assert forall|w: Seq<char>| #[trigger]
            peer_texts(holders@).to_set().contains(w) <==> base.union(all).contains(w) by {
            if assigned_session(state.jobs@, assignments@, session, w) {
                let j = choose|j: u128| #[trigger]
                    assignments@.contains_key(j) && state.jobs@.contains_key(j) && session_of(
                        state.jobs@[j].job,
                    ) == session && assignments@[j]@ == w;
                assert(has_key(given, j));
                let k = crate::collections::key_index(given, j);
                assert(given[k].0@ == j);
                assert(assignments@[given[k].0@] == given[k].1);
            }
            if exists|k: int|
                0 <= k < m && state.jobs@.contains_key((#[trigger] given[k]).0@) && session_of(
                    state.jobs@[given[k].0@].job,
                ) == session && given[k].1@ == w {
                let k = choose|k: int|
                    0 <= k < m && state.jobs@.contains_key((#[trigger] given[k]).0@) && session_of(
                        state.jobs@[given[k].0@].job,
                    ) == session && given[k].1@ == w;
                assert(assignments@.contains_key(given[k].0@));
            }
        }
        assert(peer_texts(holders@).to_set() =~= base.union(all));
    }
}

/// Appends the persistency nodes that are not among `holders`.
fn with_fallbacks(holders: Vec<PeerId>, nodes: &Table<PeerId, ()>) -> (r: Vec<PeerId>)
    requires
        peer_texts(holders@).no_duplicates(),
    ensures
        holders_then_fallbacks(
            peer_texts(r@),
            peer_texts(holders@).to_set(),
            nodes.entries(),
        ),
{
    let ghost first = peer_texts(holders@);
    let ghost set = first.to_set();
    let ghost list = nodes.entries();
    let n: usize = nodes.len();
    let mut extra: Vec<PeerId> = Vec::new();
    let mut i: usize = 0;
    while i < n
        invariant
            i <= n,
            n == list.len(),
            list == nodes.entries(),
            set == peer_texts(holders@).to_set(),
            peer_texts(extra@) == fallbacks(list.take(i as int), set),
        decreases n - i,
    {
        let node = nodes.key_at(i);
        assert(list.take(i + 1).drop_last() =~= list.take(i as int));
        if !contains_peer(&holders, node) {
            let ghost e = extra@;
            extra.push(node.clone());
            assert(peer_texts(extra@) =~= peer_texts(e).push(node@));
        }
        i = i + 1;
    }
    assert(list.take(i as int) =~= list);
    let mut r: Vec<PeerId> = holders;
    let ghost tail = peer_texts(extra@);
    r.append(&mut extra);
    proof {
        let whole = peer_texts(r@);
        assert(whole =~= first + tail);
        assert(whole.take(first.len() as int) =~= first);
        assert(whole.skip(first.len() as int) =~= tail);
    }
    r
}

/// Who to ask for the state of a session, in the order to try: the workers
/// that run it now (in `state`, or just given to one in `assignments`), then
/// the persistency nodes.
pub fn session_holders_for(
    state: &ControlPlaneState,
    assignments: &Table<JobId, PeerId>,
    session_id: SessionId,
) -> (r: Vec<PeerId>)
    ensures
        holders_then_fallbacks(
            peer_texts(r@),
            session_holder_set(state.jobs@, assignments@, session_id),
            state.persistency_nodes.entries(),
        ),
{
    let mut holders: Vec<PeerId> = Vec::new();
    proof {
        assert(peer_texts(holders@) =~= Seq::<Seq<char>>::empty());
    }
    add_session_holders(&mut holders, state, assignments, session_id);
    proof {
        assert(peer_texts(holders@).to_set() =~= session_holder_set(
            state.jobs@,
            assignments@,
            session_id,
        ));
    }
    with_fallbacks(holders, &state.persistency_nodes)
}

/// Who to ask for the state of a workspace, in the order to try: the workers
/// that hold one of its sessions, then the persistency nodes.
pub fn workspace_holders_for(
    state: &ControlPlaneState,
    assignments: &Table<JobId, PeerId>,
    workspace_id: WorkspaceId,
) -> (r: Vec<PeerId>)
    ensures
        holders_then_fallbacks(
            peer_texts(r@),
            workspace_holder_set(state, assignments@, workspace_id),
            state.persistency_nodes.entries(),
        ),
{
    let mut holders: Vec<PeerId> = Vec::new();
    proof {
        assert(peer_texts(holders@) =~= Seq::<Seq<char>>::empty());
    }
    let ghost sessions = state.session_workspaces.entries();
    let n: usize = state.session_workspaces.len();
    let mut i: usize = 0;
    while i < n
        invariant
            i <= n,
            n == sessions.len(),
            sessions == state.session_workspaces.entries(),
            peer_texts(holders@).no_duplicates(),
            forall|w: Seq<char>| #[trigger]
                peer_texts(holders@).to_set().contains(w) <==> exists|k: int|
                    0 <= k < i && (#[trigger] sessions[k]).1 == workspace_id && holds_session(
                        state.jobs@,
                        assignments@,
                        sessions[k].0,
                        w,
                    ),
        decreases n - i,
    {
        let session = *state.session_workspaces.key_at(i);
        let workspace = *state.session_workspaces.value_at(i);
        let ghost before = peer_texts(holders@).to_set();
        if workspace == workspace_id {
            add_session_holders(&mut holders, state, assignments, session);
        }
        proof {
            assert forall|w: Seq<char>| #[trigger]
                peer_texts(holders@).to_set().contains(w) <==> exists|k: int|
                    0 <= k < i + 1 && (#[trigger] sessions[k]).1 == workspace_id && holds_session(
                        state.jobs@,
                        assignments@,
                        sessions[k].0,
                        w,
                    ) by {
                let here = sessions[i as int].1 == workspace_id && holds_session(
                    state.jobs@,
                    assignments@,
                    sessions[i as int].0,
                    w,
                );
                assert(peer_texts(holders@).to_set().contains(w) <==> before.contains(w) || here);
                if exists|k: int|
                    0 <= k < i && (#[trigger] sessions[k]).1 == workspace_id && holds_session(
                        state.jobs@,
                        assignments@,
                        sessions[k].0,
                        w,
                    ) {
                    let k = choose|k: int|
                        0 <= k < i && (#[trigger] sessions[k]).1 == workspace_id && holds_session(
                            state.jobs@,
                            assignments@,
                            sessions[k].0,
                            w,
                        );
                    assert(0 <= k < i + 1 && sessions[k].1 == workspace_id);
                }
            }
        }
        i = i + 1;
    }
    proof {
        let all = workspace_holder_set(state, assignments@, workspace_id);
        assert forall|w: Seq<char>| #[trigger]
            peer_texts(holders@).to_set().contains(w) <==> all.contains(w) by {
            if holds_workspace(state, assignments@, workspace_id, w) {
                let s = choose|s: SessionId| #[trigger]
                    state.session_workspaces@.contains_key(s@)
                        && state.session_workspaces@[s@] == workspace_id && holds_session(
                        state.jobs@,
                        assignments@,
                        s,
                        w,
                    );
                assert(has_key(sessions, s@));
                let k = crate::collections::key_index(sessions, s@);
                assert(sessions[k].0@ == s@);
                assert(sessions[k].0 == s);
                assert(state.session_workspaces@[sessions[k].0@] == sessions[k].1);
            }
            if exists|k: int|
                0 <= k < n && (#[trigger] sessions[k]).1 == workspace_id && holds_session(
                    state.jobs@,
                    assignments@,
                    sessions[k].0,
                    w,
                ) {
                let k = choose|k: int|
                    0 <= k < n && (#[trigger] sessions[k]).1 == workspace_id && holds_session(
                        state.jobs@,
                        assignments@,
                        sessions[k].0,
                        w,
                    );
                let s = sessions[k].0;
                assert(state.session_workspaces@.contains_key(s@));
            }
        }
        assert(peer_texts(holders@).to_set() =~= all);
    }
    with_fallbacks(holders, &state.persistency_nodes)
}

proof fn lemma_fallbacks_contains(
    nodes: Seq<(PeerId, ())>,
    holders: Set<Seq<char>>,
    w: Seq<char>,
)
    ensures
        fallbacks(nodes, holders).contains(w) <==> !holders.contains(w) && has_key(nodes, w),
    decreases nodes.len(),
{
    let all = fallbacks(nodes, holders);
    if nodes.len() > 0 {
        let front = nodes.drop_last();
        lemma_fallbacks_contains(front, holders, w);
        let f = fallbacks(front, holders);
        if has_key(nodes, w) {
            let i = crate::collections::key_index(nodes, w);
            if i < front.len() {
                assert(front[i].0@ == w);
            }
        }
        if has_key(front, w) {
            let i = crate::collections::key_index(front, w);
            assert(nodes[i].0@ == w);
        }
        if !holders.contains(nodes.last().0@) {
            if f.contains(w) {
                let i = choose|i: int| 0 <= i < f.len() && f[i] == w;
                assert(all[i] == w);
            }
            if nodes.last().0@ == w {
                assert(all[f.len() as int] == w);
                assert(nodes[nodes.len() - 1].0@ == w);
            }
            if all.contains(w) && w != nodes.last().0@ {
                let i = choose|i: int| 0 <= i < all.len() && all[i] == w;
                assert(f[i] == w);
            }
        }
    } else {
        assert(!has_key(nodes, w));
    }
}

proof fn lemma_fallbacks_distinct(nodes: Seq<(PeerId, ())>, holders: Set<Seq<char>>)
    requires
        crate::collections::distinct_keys(nodes),
    ensures
        fallbacks(nodes, holders).no_duplicates(),
    decreases nodes.len(),
{
    if nodes.len() > 0 {
        let front = nodes.drop_last();
        assert forall|i: int, j: int| 0 <= i < j < front.len() implies (#[trigger] front[i]).0@ != (
        #[trigger] front[j]).0@ by {
            assert(nodes[i].0@ != nodes[j].0@);
        }
        lemma_fallbacks_distinct(front, holders);
        let w = nodes.last().0@;
        lemma_fallbacks_contains(front, holders, w);
        if has_key(front, w) {
            let i = crate::collections::key_index(front, w);
            assert(nodes[i].0@ != nodes[nodes.len() - 1].0@);
        }
        let f = fallbacks(front, holders);
        if !holders.contains(w) {
            assert forall|i: int, j: int|
                0 <= i < f.push(w).len() && 0 <= j < f.push(w).len() && i != j implies f.push(w)[i]
                != f.push(w)[j] by {
                if i == f.len() {
                    assert(f.contains(f[j]));
                } else if j == f.len() {
                    assert(f.contains(f[i]));
                }
            }
        }
    }
}

/// A list of holders names nobody twice, and names exactly the holders and the
/// persistency nodes.
pub proof fn lemma_holders_named_once(
    list: Seq<Seq<char>>,
    holders: Set<Seq<char>>,
    nodes: Seq<(PeerId, ())>,
)
    requires
        holders_then_fallbacks(list, holders, nodes),
        crate::collections::distinct_keys(nodes),
    ensures
        list.no_duplicates(),
        forall|w: Seq<char>| #[trigger]
            list.contains(w) <==> holders.contains(w) || has_key(nodes, w),
{
    let k = choose|k: int|
        {
            &&& 0 <= k <= list.len()
            &&& (#[trigger] list.take(k)).no_duplicates()
            &&& list.take(k).to_set() == holders
            &&& list.skip(k) == fallbacks(nodes, holders)
        };
    let first = list.take(k);
    let rest = list.skip(k);
    lemma_fallbacks_distinct(nodes, holders);
    assert forall|i: int, j: int|
        0 <= i < list.len() && 0 <= j < list.len() && i != j implies list[i] != list[j] by {
        if i < k && j < k {
            assert(first[i] != first[j]);
        } else if i >= k && j >= k {
            assert(rest[i - k] != rest[j - k]);
        } else {
            let a = if i < k { i } else { j };
            let b = if i < k { j } else { i };
            assert(first.contains(first[a]));
            assert(holders.contains(list[a]));
            lemma_fallbacks_contains(nodes, holders, list[b]);
            assert(rest[b - k] == list[b]);
            assert(rest.contains(list[b]));
        }
    }
    assert forall|w: Seq<char>| #[trigger]
        list.contains(w) <==> holders.contains(w) || has_key(nodes, w) by {
        lemma_fallbacks_contains(nodes, holders, w);
        if list.contains(w) {
            let i = choose|i: int| 0 <= i < list.len() && list[i] == w;
            if i < k {
                assert(first[i] == w);
                assert(first.contains(w));
                assert(first.to_set().contains(w));
            } else {
                assert(rest[i - k] == w);
                assert(rest.contains(w));
            }
        }
        if holders.contains(w) {
            assert(first.to_set().contains(w));
            let i = choose|i: int| 0 <= i < first.len() && first[i] == w;
            assert(list[i] == w);
        } else if has_key(nodes, w) {
            let i = choose|i: int| 0 <= i < rest.len() && rest[i] == w;
            assert(list[k + i] == w);
        }
    }
}

/// In a list of holders every holder comes before every persistency node that
/// is no holder: the freshest state is asked for first.
pub proof fn lemma_holders_come_first(
    list: Seq<Seq<char>>,
    holders: Set<Seq<char>>,
    nodes: Seq<(PeerId, ())>,
    i: int,
    j: int,
)
    requires
        holders_then_fallbacks(list, holders, nodes),
        0 <= i < list.len(),
        0 <= j < list.len(),
        holders.contains(list[i]),
        !holders.contains(list[j]),
    ensures
        i < j,
{
    let k = choose|k: int|
        {
            &&& 0 <= k <= list.len()
            &&& (#[trigger] list.take(k)).no_duplicates()
            &&& list.take(k).to_set() == holders
            &&& list.skip(k) == fallbacks(nodes, holders)
        };
    if i >= k {
        let rest = list.skip(k);
        assert(rest[i - k] == list[i]);
        assert(rest.contains(list[i]));
        lemma_fallbacks_contains(nodes, holders, list[i]);
    }
    if j < k {
        let first = list.take(k);
        assert(first[j] == list[j]);
        assert(first.contains(list[j]));
        assert(first.to_set().contains(list[j]));
    }
}

/// Whether some job of `agent` waits for a worker or is on one.
pub open spec fn has_active_job(jobs: Map<u128, JobRecord>, agent: GlobalAgentId) -> bool {
    exists|j: u128| #[trigger]
        jobs.contains_key(j) && jobs[j].job.agent_of() == agent && jobs[j].state.is_active()
}

/// Whether some job of `agent` completed.
pub open spec fn agent_completed(jobs: Map<u128, JobRecord>, agent: GlobalAgentId) -> bool {
    exists|j: u128| #[trigger]
        jobs.contains_key(j) && jobs[j].job.agent_of() == agent && jobs[j].state is Completed
}

/// Whether a resumption of `agent` is already in flight: a job of it waits for
/// a worker, or is on one.
pub fn agent_has_active_job(state: &ControlPlaneState, agent_id: GlobalAgentId) -> (r: bool)
    ensures
        r == has_active_job(state.jobs@, agent_id),
        r <==> exists|j: u128| #[trigger]
            state.jobs@.contains_key(j) && state.jobs@[j].job.kind == JobKind::RunAgent(agent_id)
                && (state.jobs@[j].state is Pending || state.jobs@[j].state is Scheduled
                || state.jobs@[j].state is Running),
{
    let ghost jobs = state.jobs.entries();
    let n: usize = state.jobs.len();
    let mut i: usize = 0;
    while i < n
        invariant
            i <= n,
            n == jobs.len(),
            jobs == state.jobs.entries(),
            forall|k: int|
                0 <= k < i ==> !((#[trigger] jobs[k]).1.job.agent_of() == agent_id
                    && jobs[k].1.state.is_active()),
        decreases n - i,
    {
        let record = state.jobs.value_at(i);
        if record.job.agent() == agent_id && record.state.active() {
            assert(state.jobs@.contains_key(jobs[i as int].0@));
            return true;
        }
        i = i + 1;
    }
    proof {
        assert forall|j: u128| #[trigger] state.jobs@.contains_key(j) implies !(
        state.jobs@[j].job.agent_of() == agent_id && state.jobs@[j].state.is_active()) by {
            assert(has_key(jobs, j));
            let k = crate::collections::key_index(jobs, j);
            assert(jobs[k].0@ == j);
            assert(state.jobs@[jobs[k].0@] == jobs[k].1);
        }
    }
    false
}

/// Whether some job of `agent` completed. An agent may have had many jobs; a
/// terminal state is final, so one completed job is enough.
pub fn is_agent_completed(state: &ControlPlaneState, agent_id: GlobalAgentId) -> (r: bool)
    ensures
        r == agent_completed(state.jobs@, agent_id),
        r <==> exists|j: u128| #[trigger]
            state.jobs@.contains_key(j) && state.jobs@[j].job.kind == JobKind::RunAgent(agent_id)
                && state.jobs@[j].state is Completed,
{
    let ghost jobs = state.jobs.entries();
    let n: usize = state.jobs.len();
    let mut i: usize = 0;
    while i < n
        invariant
            i <= n,
            n == jobs.len(),
            jobs == state.jobs.entries(),
            forall|k: int|
                0 <= k < i ==> !((#[trigger] jobs[k]).1.job.agent_of() == agent_id
                    && jobs[k].1.state is Completed),
        decreases n - i,
    {
        let record = state.jobs.value_at(i);
        if record.job.agent() == agent_id && matches!(record.state, JobState::Completed { .. }) {
            assert(state.jobs@.contains_key(jobs[i as int].0@));
            return true;
        }
        i = i + 1;
    }
    proof {
        assert forall|j: u128| #[trigger] state.jobs@.contains_key(j) implies !(
        state.jobs@[j].job.agent_of() == agent_id && state.jobs@[j].state is Completed) by {
            assert(has_key(jobs, j));
            let k = crate::collections::key_index(jobs, j);
            assert(jobs[k].0@ == j);
            assert(state.jobs@[jobs[k].0@] == jobs[k].1);
        }
    }
    false
}

/// Who holds the state of a session: a worker that a job of the session is
/// scheduled or running on, or was given to, and nobody else.
pub proof fn lemma_who_holds_a_session(
    jobs: Map<u128, JobRecord>,
    assignments: Map<u128, PeerId>,
    session: SessionId,
    worker: Seq<char>,
)
    ensures
        session_holder_set(jobs, assignments, session).contains(worker) <==> exists|j: u128| #[trigger]
            jobs.contains_key(j) && (jobs[j].job.kind matches JobKind::RunAgent(agent)
                && agent.session == session) && ({
                ||| jobs[j].state matches JobState::Scheduled { worker: on } && on@ == worker
                ||| jobs[j].state matches JobState::Running { worker: on } && on@ == worker
                ||| assignments.contains_key(j) && assignments[j]@ == worker
            }),
{
    if runs_session(jobs, session, worker) {
        let j = choose|j: u128| #[trigger]
            jobs.contains_key(j) && session_of(jobs[j].job) == session && jobs[j].state.worker_of()
                == Some(worker);
        assert(jobs.contains_key(j));
    }
    if assigned_session(jobs, assignments, session, worker) {
        let j = choose|j: u128| #[trigger]
            assignments.contains_key(j) && jobs.contains_key(j) && session_of(jobs[j].job)
                == session && assignments[j]@ == worker;
        assert(jobs.contains_key(j));
    }
    if exists|j: u128| #[trigger]
        jobs.contains_key(j) && (jobs[j].job.kind matches JobKind::RunAgent(agent)
            && agent.session == session) && ({
            ||| jobs[j].state matches JobState::Scheduled { worker: on } && on@ == worker
            ||| jobs[j].state matches JobState::Running { worker: on } && on@ == worker
            ||| assignments.contains_key(j) && assignments[j]@ == worker
        }) {
        let j = choose|j: u128| #[trigger]
            jobs.contains_key(j) && (jobs[j].job.kind matches JobKind::RunAgent(agent)
                && agent.session == session) && ({
                ||| jobs[j].state matches JobState::Scheduled { worker: on } && on@ == worker
                ||| jobs[j].state matches JobState::Running { worker: on } && on@ == worker
                ||| assignments.contains_key(j) && assignments[j]@ == worker
            });
        assert(session_of(jobs[j].job) == session);
        if jobs[j].state.worker_of() == Some(worker) {
            assert(runs_session(jobs, session, worker));
        } else {
            assert(assignments.contains_key(j));
            assert(assigned_session(jobs, assignments, session, worker));
        }
    }
}

/// Who holds the state of a workspace: whoever holds the state of a session that
/// belongs to it, and nobody else.
pub proof fn lemma_who_holds_a_workspace(
    state: &ControlPlaneState,
    assignments: Map<u128, PeerId>,
    workspace: WorkspaceId,
    worker: Seq<char>,
)
    ensures
        workspace_holder_set(state, assignments, workspace).contains(worker) <==> exists|
            s: SessionId,
        | #[trigger]
            state.session_workspaces@.contains_key(s@) && state.session_workspaces@[s@] == workspace
                && session_holder_set(state.jobs@, assignments, s).contains(worker),
{
    if workspace_holder_set(state, assignments, workspace).contains(worker) {
        let s = choose|s: SessionId| #[trigger]
            state.session_workspaces@.contains_key(s@) && state.session_workspaces@[s@] == workspace
                && holds_session(state.jobs@, assignments, s, worker);
        assert(session_holder_set(state.jobs@, assignments, s).contains(worker));
    }
}

/// The persistency nodes that follow the holders in a list are those that are no
/// holders, in the order of their table: `at` are their positions.
pub proof fn lemma_fallbacks_in_order(
    nodes: Seq<(PeerId, ())>,
    holders: Set<Seq<char>>,
) -> (at: Seq<int>)
    ensures
        ascending(at, nodes.len() as int),
        at.len() == fallbacks(nodes, holders).len(),
        forall|k: int| 0 <= k < at.len() ==> nodes[#[trigger] at[k]].0@ == fallbacks(nodes, holders)[k],
        forall|i: int| #[trigger]
            at.contains(i) <==> 0 <= i < nodes.len() && !holders.contains(nodes[i].0@),
    decreases nodes.len(),
{
    if nodes.len() == 0 {
        Seq::empty()
    } else {
        let front = nodes.drop_last();
        let n = front.len() as int;
        let before = lemma_fallbacks_in_order(front, holders);
        lemma_ascending_push(before, n);
        assert forall|i: int| 0 <= i < n implies front[i] == nodes[i] by {}
        if holders.contains(nodes.last().0@) {
            before
        } else {
            before.push(n)
        }
    }
}

} // verus!
