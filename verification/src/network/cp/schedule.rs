//! The periodic control cycle: health of the workers, reassignment of their
//! jobs when they are lost, assignment of pending jobs.

use crate::collections::{
    ascending, distinct_keys, has_key, lemma_ascending_push, lemma_concat_contains, reversed, Table,
};
use crate::id::{GlobalAgentId, ID};
use crate::job::JobId;
use crate::network::cp::jobs::{Job, JobRecord, JobState};
use crate::network::cp::resume::{watch_pass, watch_stuck_yields, YieldWatch};
use crate::network::cp::state::ControlPlaneState;
use crate::network::cp::types::{ControlPlaneRequest, WorkerInfo};
use crate::network::peer::PeerId;
use vstd::prelude::*;

verus! {

/// Whether a worker answers.
#[derive(Debug, Clone, Copy, PartialEq, Eq, Structural)]
pub enum NodeStatus {
    Alive,
    Dead,
}

/// What this node knows of the health of a worker. Local and not replicated.
#[derive(Debug, Clone, Copy, PartialEq, Eq, Structural)]
pub struct NodeHealth {
    /// In milliseconds.
    pub last_seen: u64,
    /// Round-trip time, in milliseconds.
    pub rtt: Option<u64>,
    pub status: NodeStatus,
}

/// The health of a worker that was just met.
pub open spec fn fresh_health(now: u64) -> NodeHealth {
    NodeHealth { last_seen: now, rtt: None, status: NodeStatus::Alive }
}

/// Whether a worker counts as alive: one never met before does.
pub open spec fn was_alive(health: Map<Seq<char>, NodeHealth>, peer: Seq<char>) -> bool {
    !health.contains_key(peer) || health[peer].status is Alive
}

/// The health of a worker after it was looked at.
pub open spec fn looked_at(
    health: Map<Seq<char>, NodeHealth>,
    peer: Seq<char>,
    connected: bool,
    now: u64,
) -> NodeHealth {
    let known = if health.contains_key(peer) {
        health[peer]
    } else {
        fresh_health(now)
    };
    NodeHealth {
        last_seen: if connected {
            now
        } else {
            known.last_seen
        },
        rtt: known.rtt,
        status: if connected {
            NodeStatus::Alive
        } else {
            NodeStatus::Dead
        },
    }
}

/// The health of all workers after the first `connected.len()` of them were
/// looked at.
pub open spec fn health_after(
    workers: Seq<(PeerId, WorkerInfo)>,
    connected: Seq<bool>,
    health: Map<Seq<char>, NodeHealth>,
    now: u64,
) -> Map<Seq<char>, NodeHealth>
    decreases connected.len(),
{
    if connected.len() == 0 {
        health
    } else {
        let peer = workers[connected.len() - 1].0@;
        let before = health_after(workers, connected.drop_last(), health, now);
        before.insert(peer, looked_at(before, peer, connected.last(), now))
    }
}

/// The workers that are lost now and were alive before, in order.
pub open spec fn newly_dead(
    workers: Seq<(PeerId, WorkerInfo)>,
    connected: Seq<bool>,
    health: Map<Seq<char>, NodeHealth>,
    now: u64,
) -> Seq<PeerId>
    decreases connected.len(),
{
    if connected.len() == 0 {
        Seq::empty()
    } else {
        let peer = workers[connected.len() - 1].0;
        let before = health_after(workers, connected.drop_last(), health, now);
        let dead = newly_dead(workers, connected.drop_last(), health, now);
        if !connected.last() && was_alive(before, peer@) {
            dead.push(peer)
        } else {
            dead
        }
    }
}

/// Meets a worker: it counts as alive, unless something is known of it.
pub fn meet_worker(health: &mut Table<PeerId, NodeHealth>, peer: &PeerId, now: u64)
    ensures
        final(health)@ == (if old(health)@.contains_key(peer@) {
            old(health)@
        } else {
            old(health)@.insert(peer@, fresh_health(now))
        }),
{
    if !health.contains_key(peer) {
        let _ = health.insert(
            peer.clone(),
            NodeHealth { last_seen: now, rtt: None, status: NodeStatus::Alive },
        );
    }
}

/// Looks at every worker: `connected[i]` says whether the i-th one answers.
/// Gives back the workers lost since the last look. A worker that this node
/// has never seen counts as alive before: one that stayed registered from an
/// earlier life of the cluster is lost at once.
pub fn check_health(
    workers: &Table<PeerId, WorkerInfo>,
    connected: &Vec<bool>,
    health: &mut Table<PeerId, NodeHealth>,
    now: u64,
) -> (r: Vec<PeerId>)
    requires
        connected@.len() == workers.entries().len(),
    ensures
        final(health)@ == health_after(workers.entries(), connected@, old(health)@, now),
        r@ == newly_dead(workers.entries(), connected@, old(health)@, now),
{
    let ghost start = health@;
    let mut dead: Vec<PeerId> = Vec::new();
    let mut i: usize = 0;
    assert(connected@.take(0) =~= Seq::<bool>::empty());
    while i < connected.len()
        invariant
            i <= connected@.len(),
            connected@.len() == workers.entries().len(),
            start == old(health)@,
            health@ == health_after(workers.entries(), connected@.take(i as int), start, now),
            dead@ == newly_dead(workers.entries(), connected@.take(i as int), start, now),
        decreases connected@.len() - i,
    {
        proof {
            let c = connected@.take(i + 1);
            assert(c.drop_last() =~= connected@.take(i as int));
            assert(c.last() == connected@[i as int]);
            assert(c.len() - 1 == i);
        }
        let peer = workers.key_at(i);
        let alive = connected[i];
        let known = match health.get(peer) {
            Some(known) => *known,
            None => NodeHealth { last_seen: now, rtt: None, status: NodeStatus::Alive },
        };
        let entry = NodeHealth {
            last_seen: if alive {
                now
            } else {
                known.last_seen
            },
            rtt: known.rtt,
            status: if alive {
                NodeStatus::Alive
            } else {
                NodeStatus::Dead
            },
        };
        let _ = health.insert(peer.clone(), entry);
        if !alive && known.status == NodeStatus::Alive {
            dead.push(peer.clone());
        }
        i = i + 1;
    }
    assert(connected@.take(i as int) =~= connected@);
    dead
}

/// The jobs that are scheduled or running on `worker`, in order.
pub open spec fn orphans(jobs: Seq<(JobId, JobRecord)>, worker: Seq<char>) -> Seq<JobId>
    decreases jobs.len(),
{
    if jobs.len() == 0 {
        Seq::empty()
    } else if jobs.last().1.state.worker_of() == Some(worker) {
        orphans(jobs.drop_last(), worker).push(jobs.last().0)
    } else {
        orphans(jobs.drop_last(), worker)
    }
}

/// The requests that put jobs back into the queue.
pub open spec fn requeued(jobs: Seq<JobId>) -> Seq<ControlPlaneRequest> {
    jobs.map_values(
        |job_id: JobId|
            ControlPlaneRequest::CommitState { job_id, new_state: JobState::Pending },
    )
}

/// A map without the given jobs.
pub open spec fn without_jobs(m: Map<u128, PeerId>, jobs: Seq<JobId>) -> Map<u128, PeerId>
    decreases jobs.len(),
{
    if jobs.len() == 0 {
        m
    } else {
        without_jobs(m, jobs.drop_last()).remove(jobs.last()@)
    }
}

/// What the loss of `worker` makes the leader propose: its jobs go back into
/// the queue, and it is forgotten.
pub open spec fn loss_requests(
    jobs: Seq<(JobId, JobRecord)>,
    worker: PeerId,
) -> Seq<ControlPlaneRequest> {
    requeued(orphans(jobs, worker@)).push(ControlPlaneRequest::UnregisterWorker { peer_id: worker })
}

/// Reacts to the loss of a worker. Its jobs are looked up in the replicated
/// state, not in the local `assignments`: those know only what this node
/// assigned since it started.
pub fn reassign_and_unregister_dead_worker(
    state: &ControlPlaneState,
    assignments: &mut Table<JobId, PeerId>,
    health: &mut Table<PeerId, NodeHealth>,
    dead_peer: &PeerId,
) -> (r: Vec<ControlPlaneRequest>)
    ensures
        r@ == loss_requests(state.jobs.entries(), *dead_peer),
        final(assignments)@ == without_jobs(
            old(assignments)@,
            orphans(state.jobs.entries(), dead_peer@),
        ),
        final(health)@ == old(health)@.remove(dead_peer@),
{
    let ghost jobs = state.jobs.entries();
    let ghost start = assignments@;
    let n: usize = state.jobs.len();
    let mut r: Vec<ControlPlaneRequest> = Vec::new();
    let mut i: usize = 0;
    assert(requeued(Seq::<JobId>::empty()) =~= Seq::<ControlPlaneRequest>::empty());
    while i < n
        invariant
            i <= n,
            n == jobs.len(),
            jobs == state.jobs.entries(),
            start == old(assignments)@,
            r@ == requeued(orphans(jobs.take(i as int), dead_peer@)),
            assignments@ == without_jobs(start, orphans(jobs.take(i as int), dead_peer@)),
            *health == *old(health),
        decreases n - i,
    {
        let record = state.jobs.value_at(i);
        let job_id = *state.jobs.key_at(i);
        assert(jobs.take(i + 1).drop_last() =~= jobs.take(i as int));
        match record.state.worker() {
            Some(worker) => {
                if crate::collections::Key::same(worker, dead_peer) {
                    let ghost o = orphans(jobs.take(i as int), dead_peer@);
                    let _ = assignments.remove(&job_id);
                    r.push(
                        ControlPlaneRequest::CommitState { job_id, new_state: JobState::Pending },
                    );
                    proof {
                        assert(o.push(job_id).drop_last() =~= o);
                        assert(requeued(o.push(job_id)) =~= requeued(o).push(
                            ControlPlaneRequest::CommitState {
                                job_id,
                                new_state: JobState::Pending,
                            },
                        ));
                    }
                }
            },
            None => {},
        }
        i = i + 1;
    }
    assert(jobs.take(i as int) =~= jobs);
    r.push(ControlPlaneRequest::UnregisterWorker { peer_id: dead_peer.clone() });
    let _ = health.remove(dead_peer);
    r
}

/// Whether a job in this state is scheduled or running on `worker`.
pub open spec fn is_on(state: JobState, worker: Seq<char>) -> bool {
    (state is Scheduled || state is Running) && state.worker_of() == Some(worker)
}

/// Exactly the jobs that were on a lost worker go back into the queue. A job
/// that has ended, well or badly, or that yielded, never does: its agent is
/// resumed by a new job.
pub proof fn lemma_requeues_exactly_what_was_lost(
    jobs: Seq<(JobId, JobRecord)>,
    worker: Seq<char>,
    job_id: JobId,
)
    ensures
        orphans(jobs, worker).contains(job_id) <==> exists|i: int|
            0 <= i < jobs.len() && (#[trigger] jobs[i]).0 == job_id && is_on(
                jobs[i].1.state,
                worker,
            ),
    decreases jobs.len(),
{
    if jobs.len() == 0 {
        assert(!orphans(jobs, worker).contains(job_id));
    } else {
        let front = jobs.drop_last();
        let last = jobs.len() - 1;
        lemma_requeues_exactly_what_was_lost(front, worker, job_id);
        assert forall|i: int| 0 <= i < front.len() implies #[trigger] front[i] == jobs[i] by {}
        let before = orphans(front, worker);
        if jobs.last().1.state.worker_of() == Some(worker) {
            let all = before.push(jobs.last().0);
            assert(all[all.len() - 1] == jobs.last().0);
            if all.contains(job_id) && !before.contains(job_id) {
                let k = choose|k: int| 0 <= k < all.len() && all[k] == job_id;
                assert(k == all.len() - 1 || before[k] == job_id);
                assert(jobs[last].0 == job_id);
            }
            if before.contains(job_id) {
                let k = choose|k: int| 0 <= k < before.len() && before[k] == job_id;
                assert(all[k] == job_id);
            }
        }
        if before.contains(job_id) {
            let i = choose|i: int|
                0 <= i < front.len() && (#[trigger] front[i]).0 == job_id && is_on(
                    front[i].1.state,
                    worker,
                );
            assert(jobs[i].0 == job_id);
        }
        if exists|i: int|
            0 <= i < jobs.len() && (#[trigger] jobs[i]).0 == job_id && is_on(
                jobs[i].1.state,
                worker,
            ) {
            let i = choose|i: int|
                0 <= i < jobs.len() && (#[trigger] jobs[i]).0 == job_id && is_on(
                    jobs[i].1.state,
                    worker,
                );
            if i < last {
                assert(front[i].0 == job_id);
            }
        }
    }
}

/// What the loss of several workers, one after the other, leaves behind.
pub struct Losses {
    pub requests: Seq<ControlPlaneRequest>,
    pub assignments: Map<u128, PeerId>,
    pub health: Map<Seq<char>, NodeHealth>,
}

/// What the loss of `dead`, one after the other, leaves behind.
pub open spec fn losses(
    jobs: Seq<(JobId, JobRecord)>,
    dead: Seq<PeerId>,
    assignments: Map<u128, PeerId>,
    health: Map<Seq<char>, NodeHealth>,
) -> Losses
    decreases dead.len(),
{
    if dead.len() == 0 {
        Losses { requests: Seq::empty(), assignments, health }
    } else {
        let before = losses(jobs, dead.drop_last(), assignments, health);
        Losses {
            requests: before.requests + loss_requests(jobs, dead.last()),
            assignments: without_jobs(before.assignments, orphans(jobs, dead.last()@)),
            health: before.health.remove(dead.last()@),
        }
    }
}

/// Whether some job is assigned to `peer`.
pub open spec fn is_busy(assignments: Map<u128, PeerId>, peer: Seq<char>) -> bool {
    exists|j: u128| #[trigger] assignments.contains_key(j) && assignments[j]@ == peer
}

/// The workers that are alive and have nothing assigned, in order.
pub open spec fn available(
    workers: Seq<(PeerId, WorkerInfo)>,
    health: Map<Seq<char>, NodeHealth>,
    assignments: Map<u128, PeerId>,
) -> Seq<PeerId>
    decreases workers.len(),
{
    if workers.len() == 0 {
        Seq::empty()
    } else {
        let before = available(workers.drop_last(), health, assignments);
        let peer = workers.last().0;
        if !is_busy(assignments, peer@) && health.contains_key(peer@) && health[peer@].status
            is Alive {
            before.push(peer)
        } else {
            before
        }
    }
}

/// The jobs that wait for a worker, in order.
pub open spec fn pending(jobs: Seq<(JobId, JobRecord)>) -> Seq<(JobId, Job)>
    decreases jobs.len(),
{
    if jobs.len() == 0 {
        Seq::empty()
    } else if jobs.last().1.state is Pending {
        pending(jobs.drop_last()).push((jobs.last().0, jobs.last().1.job))
    } else {
        pending(jobs.drop_last())
    }
}

/// A job given to a worker.
#[derive(Debug, PartialEq)]
pub struct Assignment {
    pub job_id: JobId,
    pub job: Job,
    pub worker: PeerId,
}

/// The pending jobs and the available workers, matched in order until one or
/// the other runs out.
pub open spec fn matched(waiting: Seq<(JobId, Job)>, free: Seq<PeerId>) -> Seq<Assignment> {
    Seq::new(
        if waiting.len() < free.len() {
            waiting.len()
        } else {
            free.len()
        },
        |i: int| Assignment { job_id: waiting[i].0, job: waiting[i].1, worker: free[i] },
    )
}

/// The assignments with new ones added.
pub open spec fn with_assigned(m: Map<u128, PeerId>, new: Seq<Assignment>) -> Map<u128, PeerId>
    decreases new.len(),
{
    if new.len() == 0 {
        m
    } else {
        with_assigned(m, new.drop_last()).insert(new.last().job_id@, new.last().worker)
    }
}

/// Whether some job is assigned to `peer`.
fn busy(assignments: &Table<JobId, PeerId>, peer: &PeerId) -> (r: bool)
    ensures
        r == is_busy(assignments@, peer@),
{
    let ghost entries = assignments.entries();
    let n: usize = assignments.len();
    let mut i: usize = 0;
    while i < n
        invariant
            i <= n,
            n == entries.len(),
            entries == assignments.entries(),
            forall|k: int| 0 <= k < i ==> (#[trigger] entries[k]).1@ != peer@,
        decreases n - i,
    {
        let worker = assignments.value_at(i);
        if crate::collections::Key::same(worker, peer) {
            assert(assignments@.contains_key(entries[i as int].0@));
            return true;
        }
        i = i + 1;
    }
    proof {
        assert forall|j: u128| #[trigger] assignments@.contains_key(j) implies assignments@[j]@
            != peer@ by {
            assert(has_key(entries, j));
            let k = crate::collections::key_index(entries, j);
            assert(entries[k].0@ == j);
            assert(assignments@[entries[k].0@] == entries[k].1);
        }
    }
    false
}

/// The workers that are alive and have nothing assigned, in order.
fn available_workers(
    state: &ControlPlaneState,
    health: &Table<PeerId, NodeHealth>,
    assignments: &Table<JobId, PeerId>,
) -> (r: Vec<PeerId>)
    ensures
        r@ == available(state.workers.entries(), health@, assignments@),
{
    let ghost workers = state.workers.entries();
    let n: usize = state.workers.len();
    let mut r: Vec<PeerId> = Vec::new();
    let mut i: usize = 0;
    while i < n
        invariant
            i <= n,
            n == workers.len(),
            workers == state.workers.entries(),
            r@ == available(workers.take(i as int), health@, assignments@),
        decreases n - i,
    {
        let peer = state.workers.key_at(i);
        assert(workers.take(i + 1).drop_last() =~= workers.take(i as int));
        if !busy(assignments, peer) {
            match health.get(peer) {
                Some(known) => {
                    if known.status == NodeStatus::Alive {
                        r.push(peer.clone());
                    }
                },
                None => {},
            }
        }
        i = i + 1;
    }
    assert(workers.take(i as int) =~= workers);
    r
}

/// Gives each pending job, in order, to the next worker that is alive and has
/// nothing assigned, until one or the other runs out.
pub fn assign_pending(
    state: &ControlPlaneState,
    health: &Table<PeerId, NodeHealth>,
    assignments: &mut Table<JobId, PeerId>,
) -> (r: Vec<Assignment>)
    ensures
        r@ == matched(
            pending(state.jobs.entries()),
            available(state.workers.entries(), health@, old(assignments)@),
        ),
        final(assignments)@ == with_assigned(old(assignments)@, r@),
        forall|k: int|
            0 <= k < r@.len() ==> {
                &&& state.jobs@.contains_key((#[trigger] r@[k]).job_id@)
                &&& state.jobs@[r@[k].job_id@].state is Pending
                &&& state.jobs@[r@[k].job_id@].job == r@[k].job
            },
        forall|k: int, l: int|
            0 <= k < l < r@.len() ==> (#[trigger] r@[k]).job_id@ != (#[trigger] r@[l]).job_id@,
{
    let free = available_workers(state, health, assignments);
    let ghost jobs = state.jobs.entries();
    let ghost start = assignments@;
    let n: usize = state.jobs.len();
    let mut r: Vec<Assignment> = Vec::new();
    let mut i: usize = 0;
    assert(matched(pending(jobs.take(0)), free@) =~= Seq::<Assignment>::empty());
    while i < n
        invariant
            i <= n,
            n == jobs.len(),
            jobs == state.jobs.entries(),
            start == old(assignments)@,
            r@ == matched(pending(jobs.take(i as int)), free@),
            assignments@ == with_assigned(start, r@),
        decreases n - i,
    {
        let record = state.jobs.value_at(i);
        let job_id = *state.jobs.key_at(i);
        let ghost before = r@;
        let ghost waiting = pending(jobs.take(i as int));
        assert(jobs.take(i + 1).drop_last() =~= jobs.take(i as int));
        if matches!(record.state, JobState::Pending) {
            let at: usize = r.len();
            if at < free.len() {
                let worker = free[at].clone();
                let _ = assignments.insert(job_id, worker.clone());
                r.push(Assignment { job_id, job: record.job, worker });
                proof {
                    assert(waiting.len() == before.len());
                    assert(r@.drop_last() =~= before);
                    assert(r@ =~= matched(waiting.push((job_id, record.job)), free@));
                }
            } else {
                proof {
                    assert(r@ =~= matched(waiting.push((job_id, record.job)), free@));
                }
            }
        }
        i = i + 1;
    }
    assert(jobs.take(i as int) =~= jobs);
    proof {
        let waiting = lemma_pending_jobs(jobs);
        assert forall|k: int| 0 <= k < r@.len() implies {
            &&& state.jobs@.contains_key((#[trigger] r@[k]).job_id@)
            &&& state.jobs@[r@[k].job_id@].state is Pending
            &&& state.jobs@[r@[k].job_id@].job == r@[k].job
        } by {
            assert(waiting.contains(waiting[k]));
            assert(jobs[waiting[k]].0 == r@[k].job_id);
            assert(state.jobs@[jobs[waiting[k]].0@] == jobs[waiting[k]].1);
        }
        assert forall|k: int, l: int| 0 <= k < l < r@.len() implies (#[trigger] r@[k]).job_id@ != (
        #[trigger] r@[l]).job_id@ by {
            assert(waiting[k] < waiting[l]);
            assert(jobs[waiting[k]].0@ != jobs[waiting[l]].0@);
        }
    }
    r
}

/// An effect that a decision of the control plane asks for.
#[derive(Debug, PartialEq)]
pub enum ControlAction {
    /// Propose a change, without waiting for it to succeed.
    Propose(ControlPlaneRequest),
    /// Tell a worker to run a job.
    NotifyRun { job: Job, worker: PeerId },
    /// Submit a new job for this agent.
    Resume(GlobalAgentId),
}

/// Requests as effects.
pub open spec fn proposed(requests: Seq<ControlPlaneRequest>) -> Seq<ControlAction> {
    requests.map_values(|request: ControlPlaneRequest| ControlAction::Propose(request))
}

/// Assignments as effects: each is proposed, and its worker is told.
pub open spec fn assigned(new: Seq<Assignment>) -> Seq<ControlAction>
    decreases new.len(),
{
    if new.len() == 0 {
        Seq::empty()
    } else {
        assigned(new.drop_last()).push(
            ControlAction::Propose(
                ControlPlaneRequest::AssignJob {
                    job_id: new.last().job_id,
                    worker: new.last().worker,
                },
            ),
        ).push(ControlAction::NotifyRun { job: new.last().job, worker: new.last().worker })
    }
}

/// Resumptions as effects.
pub open spec fn resumed(agents: Seq<GlobalAgentId>) -> Seq<ControlAction> {
    agents.map_values(|agent: GlobalAgentId| ControlAction::Resume(agent))
}

/// Appends requests as effects.
pub fn push_proposals(actions: &mut Vec<ControlAction>, requests: Vec<ControlPlaneRequest>)
    ensures
        final(actions)@ == old(actions)@ + proposed(requests@),
{
    let ghost start = actions@;
    let ghost all = requests@;
    let mut rest = reversed(requests);
    assert(rest@ =~= all.skip(0).reverse());
    assert(start + proposed(all).take(0) =~= start);
    while rest.len() > 0
        invariant
            rest@.len() <= all.len(),
            actions@ == start + proposed(all).take(all.len() - rest@.len()),
            rest@ == all.skip(all.len() - rest@.len()).reverse(),
        decreases rest@.len(),
    {
        let ghost done = all.len() - rest@.len();
        match rest.pop() {
            Some(request) => {
                actions.push(ControlAction::Propose(request));
                proof {
                    assert(request == all[done]);
                    assert(rest@ =~= all.skip(done + 1).reverse());
                    assert(proposed(all).take(done + 1) =~= proposed(all).take(done).push(
                        ControlAction::Propose(request),
                    ));
                    assert(actions@ =~= start + proposed(all).take(done + 1));
                }
            },
            None => {},
        }
    }
    assert(proposed(all).take(all.len() as int) =~= proposed(all));
}

/// Appends resumptions as effects.
pub fn push_resumptions(actions: &mut Vec<ControlAction>, agents: &Vec<GlobalAgentId>)
    ensures
        final(actions)@ == old(actions)@ + resumed(agents@),
{
    let ghost start = actions@;
    let mut i: usize = 0;
    assert(start + resumed(agents@).take(0) =~= start);
    while i < agents.len()
        invariant
            i <= agents@.len(),
            actions@ == start + resumed(agents@).take(i as int),
        decreases agents@.len() - i,
    {
        actions.push(ControlAction::Resume(agents[i]));
        proof {
            assert(resumed(agents@).take(i + 1) =~= resumed(agents@).take(i as int).push(
                ControlAction::Resume(agents@[i as int]),
            ));
            assert(actions@ =~= start + resumed(agents@).take(i + 1));
        }
        i = i + 1;
    }
    assert(resumed(agents@).take(i as int) =~= resumed(agents@));
}

/// Appends assignments as effects.
fn push_assignments(actions: &mut Vec<ControlAction>, new: &Vec<Assignment>)
    ensures
        final(actions)@ == old(actions)@ + assigned(new@),
{
    let ghost start = actions@;
    let mut i: usize = 0;
    assert(start + assigned(new@.take(0)) =~= start);
    while i < new.len()
        invariant
            i <= new@.len(),
            actions@ == start + assigned(new@.take(i as int)),
        decreases new@.len() - i,
    {
        let job_id = new[i].job_id;
        let job = new[i].job;
        actions.push(
            ControlAction::Propose(
                ControlPlaneRequest::AssignJob { job_id, worker: new[i].worker.clone() },
            ),
        );
        actions.push(ControlAction::NotifyRun { job, worker: new[i].worker.clone() });
        proof {
            assert(new@.take(i + 1).drop_last() =~= new@.take(i as int));
            assert(new@.take(i + 1).last() == new@[i as int]);
            assert(actions@ =~= start + assigned(new@.take(i + 1)));
        }
        i = i + 1;
    }
    assert(new@.take(i as int) =~= new@);
}

/// What a control cycle of the leader comes to.
pub struct Cycle {
    pub actions: Seq<ControlAction>,
    pub assignments: Map<u128, PeerId>,
    pub health: Map<Seq<char>, NodeHealth>,
    pub watch: Map<(u128, u128), YieldWatch>,
}

/// What a control cycle of the leader comes to: lost workers first, then
/// pending jobs, then agents that are stuck.
pub open spec fn cycle(
    state: &ControlPlaneState,
    connected: Seq<bool>,
    health: Map<Seq<char>, NodeHealth>,
    assignments: Map<u128, PeerId>,
    watch: Map<(u128, u128), YieldWatch>,
    now: u64,
) -> Cycle {
    let dead = newly_dead(state.workers.entries(), connected, health, now);
    let lost = losses(
        state.jobs.entries(),
        dead,
        assignments,
        health_after(state.workers.entries(), connected, health, now),
    );
    let new = matched(
        pending(state.jobs.entries()),
        available(state.workers.entries(), lost.health, lost.assignments),
    );
    let pass = watch_pass(state.jobs@, state.jobs.entries(), now, watch);
    Cycle {
        actions: proposed(lost.requests) + assigned(new) + resumed(pass.resumed),
        assignments: with_assigned(lost.assignments, new),
        health: lost.health,
        watch: pass.watch.restrict(pass.seen),
    }
}

/// One control cycle. Every node looks at the workers; only the leader acts on
/// what it sees.
pub fn reconcile(
    state: &ControlPlaneState,
    connected: &Vec<bool>,
    is_leader: bool,
    health: &mut Table<PeerId, NodeHealth>,
    assignments: &mut Table<JobId, PeerId>,
    yield_watch: &mut Table<GlobalAgentId, YieldWatch>,
    now: u64,
) -> (r: Vec<ControlAction>)
    requires
        connected@.len() == state.workers.entries().len(),
    ensures
        !is_leader ==> {
            &&& r@ == Seq::<ControlAction>::empty()
            &&& final(health)@ == health_after(
                state.workers.entries(),
                connected@,
                old(health)@,
                now,
            )
            &&& final(assignments)@ == old(assignments)@
            &&& final(yield_watch)@ == old(yield_watch)@
        },
        is_leader ==> {
            let all = cycle(
                state,
                connected@,
                old(health)@,
                old(assignments)@,
                old(yield_watch)@,
                now,
            );
            &&& r@ == all.actions
            &&& final(health)@ == all.health
            &&& final(assignments)@ == all.assignments
            &&& final(yield_watch)@ == all.watch
        },
{
    let dead = check_health(&state.workers, connected, health, now);
    let mut actions: Vec<ControlAction> = Vec::new();
    if !is_leader {
        return actions;
    }
    let ghost jobs = state.jobs.entries();
    let ghost h0 = health@;
    let ghost a0 = assignments@;
    let mut i: usize = 0;
    assert(dead@.take(0) =~= Seq::<PeerId>::empty());
    assert(proposed(losses(jobs, dead@.take(0), a0, h0).requests) =~= Seq::<
        ControlAction,
    >::empty());
    while i < dead.len()
        invariant
            i <= dead@.len(),
            jobs == state.jobs.entries(),
            actions@ == proposed(losses(jobs, dead@.take(i as int), a0, h0).requests),
            assignments@ == losses(jobs, dead@.take(i as int), a0, h0).assignments,
            health@ == losses(jobs, dead@.take(i as int), a0, h0).health,
            *yield_watch == *old(yield_watch),
        decreases dead@.len() - i,
    {
        let requests = reassign_and_unregister_dead_worker(state, assignments, health, &dead[i]);
        let ghost before = losses(jobs, dead@.take(i as int), a0, h0).requests;
        let ghost more = requests@;
        push_proposals(&mut actions, requests);
        proof {
            assert(dead@.take(i + 1).drop_last() =~= dead@.take(i as int));
            assert(dead@.take(i + 1).last() == dead@[i as int]);
            assert(proposed(before + more) =~= proposed(before) + proposed(more));
        }
        i = i + 1;
    }
    assert(dead@.take(i as int) =~= dead@);
    let new = assign_pending(state, health, assignments);
    push_assignments(&mut actions, &new);
    let stuck = watch_stuck_yields(state, yield_watch, now);
    push_resumptions(&mut actions, &stuck);
    actions
}

proof fn lemma_available(
    workers: Seq<(PeerId, WorkerInfo)>,
    health: Map<Seq<char>, NodeHealth>,
    assignments: Map<u128, PeerId>,
)
    requires
        distinct_keys(workers),
    ensures
        forall|i: int| #![trigger available(workers, health, assignments)[i]]
            0 <= i < available(workers, health, assignments).len() ==> {
                let peer = available(workers, health, assignments)[i]@;
                &&& has_key(workers, peer)
                &&& health.contains_key(peer) && health[peer].status is Alive
                &&& !is_busy(assignments, peer)
            },
        forall|i: int, j: int|
            0 <= i < j < available(workers, health, assignments).len() ==> (#[trigger] available(
                workers,
                health,
                assignments,
            )[i])@ != (#[trigger] available(workers, health, assignments)[j])@,
    decreases workers.len(),
{
    let all = available(workers, health, assignments);
    if workers.len() > 0 {
        let front = workers.drop_last();
        let before = available(front, health, assignments);
        assert forall|i: int, j: int| 0 <= i < j < front.len() implies (#[trigger] front[i]).0@ != (
        #[trigger] front[j]).0@ by {
            assert(workers[i].0@ != workers[j].0@);
        }
        lemma_available(front, health, assignments);
        assert forall|i: int| #![trigger before[i]] 0 <= i < before.len() implies has_key(
            workers,
            before[i]@,
        ) && before[i]@ != workers.last().0@ by {
            assert(has_key(front, before[i]@));
            let k = crate::collections::key_index(front, before[i]@);
            assert(front[k].0@ == before[i]@);
            assert(workers[k].0@ == before[i]@);
            assert(workers[k].0@ != workers[workers.len() - 1].0@);
        }
        assert forall|i: int| #![trigger all[i]] 0 <= i < all.len() implies {
            let peer = all[i]@;
            &&& has_key(workers, peer)
            &&& health.contains_key(peer) && health[peer].status is Alive
            &&& !is_busy(assignments, peer)
        } by {
            if i < before.len() {
                assert(all[i] == before[i]);
            } else {
                assert(workers[workers.len() - 1].0@ == all[i]@);
            }
        }
        assert forall|i: int, j: int| 0 <= i < j < all.len() implies (#[trigger] all[i])@ != (
        #[trigger] all[j])@ by {
            assert(all[i] == before[i]);
            if j < before.len() {
                assert(all[j] == before[j]);
            }
        }
    }
}

/// A cycle gives jobs only to registered workers that are alive and had
/// nothing to do, and gives no worker two jobs.
pub proof fn lemma_assigns_one_job_per_free_worker(
    jobs: Seq<(JobId, JobRecord)>,
    workers: Seq<(PeerId, WorkerInfo)>,
    health: Map<Seq<char>, NodeHealth>,
    assignments: Map<u128, PeerId>,
)
    requires
        distinct_keys(workers),
    ensures
        ({
            let new = matched(pending(jobs), available(workers, health, assignments));
            &&& forall|i: int| #![trigger new[i]]
                0 <= i < new.len() ==> {
                    &&& has_key(workers, new[i].worker@)
                    &&& health.contains_key(new[i].worker@) && health[new[i].worker@].status is Alive
                    &&& !is_busy(assignments, new[i].worker@)
                }
            &&& forall|i: int, j: int|
                0 <= i < j < new.len() ==> (#[trigger] new[i]).worker@ != (#[trigger] new[j]).worker@
        }),
{
    let free = available(workers, health, assignments);
    let new = matched(pending(jobs), free);
    lemma_available(workers, health, assignments);
    assert forall|i: int| #![trigger new[i]] 0 <= i < new.len() implies {
        &&& has_key(workers, new[i].worker@)
        &&& health.contains_key(new[i].worker@) && health[new[i].worker@].status is Alive
        &&& !is_busy(assignments, new[i].worker@)
    } by {
        assert(new[i].worker == free[i]);
    }
    assert forall|i: int, j: int| 0 <= i < j < new.len() implies (#[trigger] new[i]).worker@ != (
    #[trigger] new[j]).worker@ by {
        assert(new[i].worker == free[i]);
        assert(new[j].worker == free[j]);
    }
}

proof fn lemma_health_untouched(
    workers: Seq<(PeerId, WorkerInfo)>,
    connected: Seq<bool>,
    health: Map<Seq<char>, NodeHealth>,
    now: u64,
    p: Seq<char>,
)
    requires
        forall|i: int| 0 <= i < connected.len() ==> (#[trigger] workers[i]).0@ != p,
    ensures
        health_after(workers, connected, health, now).contains_key(p) <==> health.contains_key(p),
        health.contains_key(p) ==> health_after(workers, connected, health, now)[p] == health[p],
    decreases connected.len(),
{
    if connected.len() > 0 {
        assert(workers[connected.len() - 1].0@ != p);
        lemma_health_untouched(workers, connected.drop_last(), health, now, p);
    }
}

proof fn lemma_health_of(
    workers: Seq<(PeerId, WorkerInfo)>,
    connected: Seq<bool>,
    health: Map<Seq<char>, NodeHealth>,
    now: u64,
)
    requires
        distinct_keys(workers),
        connected.len() <= workers.len(),
    ensures
        forall|i: int| #![trigger workers[i]]
            0 <= i < connected.len() ==> {
                &&& health_after(workers, connected, health, now).contains_key(workers[i].0@)
                &&& health_after(workers, connected, health, now)[workers[i].0@] == looked_at(
                    health,
                    workers[i].0@,
                    connected[i],
                    now,
                )
            },
    decreases connected.len(),
{
    if connected.len() > 0 {
        let front = connected.drop_last();
        lemma_health_of(workers, front, health, now);
        let last = connected.len() - 1;
        let before = health_after(workers, front, health, now);
        let after = health_after(workers, connected, health, now);
        assert forall|i: int| 0 <= i < front.len() implies (#[trigger] workers[i]).0@
            != workers[last].0@ by {}
        lemma_health_untouched(workers, front, health, now, workers[last].0@);
        assert forall|i: int| #![trigger workers[i]] 0 <= i < connected.len() implies {
            &&& after.contains_key(workers[i].0@)
            &&& after[workers[i].0@] == looked_at(health, workers[i].0@, connected[i], now)
        } by {
            if i < last {
                assert(front[i] == connected[i]);
            }
        }
    }
}

/// After a look at the workers each of them counts as alive exactly when it
/// answered, whatever was known of it before.
pub proof fn lemma_health_follows_connection(
    workers: Seq<(PeerId, WorkerInfo)>,
    connected: Seq<bool>,
    health: Map<Seq<char>, NodeHealth>,
    now: u64,
    i: int,
)
    requires
        distinct_keys(workers),
        connected.len() == workers.len(),
        0 <= i < workers.len(),
    ensures
        health_after(workers, connected, health, now).contains_key(workers[i].0@),
        health_after(workers, connected, health, now)[workers[i].0@].status is Alive
            <==> connected[i],
{
    lemma_health_of(workers, connected, health, now);
}

/// A worker is found lost once: the look after the one that found it lost does
/// not find it lost again.
pub proof fn lemma_lost_once(
    workers: Seq<(PeerId, WorkerInfo)>,
    connected: Seq<bool>,
    again: Seq<bool>,
    health: Map<Seq<char>, NodeHealth>,
    now: u64,
    later: u64,
    i: int,
)
    requires
        distinct_keys(workers),
        connected.len() == workers.len(),
        again.len() == workers.len(),
        0 <= i < workers.len(),
        !connected[i],
    ensures
        !newly_dead(workers, again, health_after(workers, connected, health, now), later).contains(
            workers[i].0,
        ),
{
    let known = health_after(workers, connected, health, now);
    lemma_health_of(workers, connected, health, now);
    lemma_not_newly_dead(workers, again, known, later, i);
}

proof fn lemma_not_newly_dead(
    workers: Seq<(PeerId, WorkerInfo)>,
    connected: Seq<bool>,
    health: Map<Seq<char>, NodeHealth>,
    now: u64,
    i: int,
)
    requires
        distinct_keys(workers),
        connected.len() <= workers.len(),
        0 <= i < workers.len(),
        health.contains_key(workers[i].0@),
        health[workers[i].0@].status is Dead,
    ensures
        !newly_dead(workers, connected, health, now).contains(workers[i].0),
    decreases connected.len(),
{
    let all = newly_dead(workers, connected, health, now);
    if connected.len() > 0 {
        let front = connected.drop_last();
        let last = connected.len() - 1;
        let before = newly_dead(workers, front, health, now);
        lemma_not_newly_dead(workers, front, health, now, i);
        if all.contains(workers[i].0) {
            let k = choose|k: int| 0 <= k < all.len() && all[k] == workers[i].0;
            if k < before.len() {
                assert(before[k] == workers[i].0);
                assert(before.contains(workers[i].0));
            } else {
                assert(workers[last].0 == workers[i].0);
                if i < last {
                    assert(workers[i].0@ != workers[last].0@);
                } else if last < i {
                    assert(workers[last].0@ != workers[i].0@);
                }
                assert forall|m: int| 0 <= m < front.len() implies (#[trigger] workers[m]).0@
                    != workers[i].0@ by {}
                lemma_health_untouched(workers, front, health, now, workers[i].0@);
            }
        }
    } else {
        assert(all =~= Seq::<PeerId>::empty());
    }
}

/// The jobs that wait for a worker are those in state `Pending`, in the order
/// of the table: `at` are their positions.
pub proof fn lemma_pending_jobs(jobs: Seq<(JobId, JobRecord)>) -> (at: Seq<int>)
    ensures
        ascending(at, jobs.len() as int),
        at.len() == pending(jobs).len(),
        forall|k: int|
            0 <= k < at.len() ==> jobs[#[trigger] at[k]].0 == pending(jobs)[k].0 && jobs[at[k]].1.job
                == pending(jobs)[k].1,
        forall|i: int| #[trigger]
            at.contains(i) <==> 0 <= i < jobs.len() && jobs[i].1.state is Pending,
    decreases jobs.len(),
{
    if jobs.len() == 0 {
        Seq::empty()
    } else {
        let front = jobs.drop_last();
        let n = front.len() as int;
        let before = lemma_pending_jobs(front);
        lemma_ascending_push(before, n);
        assert forall|i: int| 0 <= i < n implies front[i] == jobs[i] by {}
        if jobs.last().1.state is Pending {
            before.push(n)
        } else {
            before
        }
    }
}

/// The free workers are those that are known to be alive and that no job was
/// given to, in the order of the table: `at` are their positions.
pub proof fn lemma_free_workers(
    workers: Seq<(PeerId, WorkerInfo)>,
    health: Map<Seq<char>, NodeHealth>,
    assignments: Map<u128, PeerId>,
) -> (at: Seq<int>)
    ensures
        ascending(at, workers.len() as int),
        at.len() == available(workers, health, assignments).len(),
        forall|k: int|
            0 <= k < at.len() ==> workers[#[trigger] at[k]].0 == available(
                workers,
                health,
                assignments,
            )[k],
        forall|i: int| #[trigger]
            at.contains(i) <==> {
                &&& 0 <= i < workers.len()
                &&& health.contains_key(workers[i].0@)
                &&& health[workers[i].0@].status == NodeStatus::Alive
                &&& forall|j: u128| #[trigger]
                    assignments.contains_key(j) ==> assignments[j]@ != workers[i].0@
            },
    decreases workers.len(),
{
    if workers.len() == 0 {
        Seq::empty()
    } else {
        let front = workers.drop_last();
        let n = front.len() as int;
        let before = lemma_free_workers(front, health, assignments);
        lemma_ascending_push(before, n);
        assert forall|i: int| 0 <= i < n implies front[i] == workers[i] by {}
        let peer = workers.last().0@;
        if health.contains_key(peer) && health[peer].status == NodeStatus::Alive && forall|j: u128|
            #[trigger]
            assignments.contains_key(j) ==> assignments[j]@ != peer {
            assert(!is_busy(assignments, peer));
            before.push(n)
        } else {
            before
        }
    }
}

/// What a cycle assigns: the pending jobs and the free workers are paired off in
/// the order of their tables, as far as the shorter list goes. So every job that
/// is assigned is in state `Pending`, every worker that gets one is alive and had
/// nothing to do, no job and no worker is used twice, and nothing is left over
/// on both sides.
pub proof fn lemma_pairs_pending_with_free(
    jobs: Seq<(JobId, JobRecord)>,
    workers: Seq<(PeerId, WorkerInfo)>,
    health: Map<Seq<char>, NodeHealth>,
    assignments: Map<u128, PeerId>,
) -> (at: (Seq<int>, Seq<int>))
    requires
        distinct_keys(jobs),
        distinct_keys(workers),
    ensures
        ascending(at.0, jobs.len() as int),
        ascending(at.1, workers.len() as int),
        forall|i: int| #[trigger]
            at.0.contains(i) <==> 0 <= i < jobs.len() && jobs[i].1.state is Pending,
        forall|i: int| #[trigger]
            at.1.contains(i) <==> {
                &&& 0 <= i < workers.len()
                &&& health.contains_key(workers[i].0@)
                &&& health[workers[i].0@].status == NodeStatus::Alive
                &&& forall|j: u128| #[trigger]
                    assignments.contains_key(j) ==> assignments[j]@ != workers[i].0@
            },
        ({
            let new = matched(pending(jobs), available(workers, health, assignments));
            &&& new.len() <= at.0.len() && new.len() <= at.1.len()
            &&& new.len() == at.0.len() || new.len() == at.1.len()
            &&& forall|k: int|
                0 <= k < new.len() ==> (#[trigger] new[k]).job_id == jobs[at.0[k]].0 && new[k].job
                    == jobs[at.0[k]].1.job && new[k].worker == workers[at.1[k]].0
            &&& forall|k: int, l: int|
                0 <= k < l < new.len() ==> (#[trigger] new[k]).job_id@ != (
                #[trigger] new[l]).job_id@ && new[k].worker@ != new[l].worker@
        }),
{
    let waiting = lemma_pending_jobs(jobs);
    let free = lemma_free_workers(workers, health, assignments);
    let new = matched(pending(jobs), available(workers, health, assignments));
    assert forall|k: int, l: int| 0 <= k < l < new.len() implies (#[trigger] new[k]).job_id@ != (
    #[trigger] new[l]).job_id@ && new[k].worker@ != new[l].worker@ by {
        assert(waiting[k] < waiting[l]);
        assert(free[k] < free[l]);
        assert(jobs[waiting[k]].0@ != jobs[waiting[l]].0@);
        assert(workers[free[k]].0@ != workers[free[l]].0@);
    }
    (waiting, free)
}

/// What was assigned is remembered, job by job; every other job keeps the worker
/// that it had.
pub proof fn lemma_assignments_are_remembered(
    m: Map<u128, PeerId>,
    new: Seq<Assignment>,
    job: u128,
)
    requires
        forall|k: int, l: int|
            0 <= k < l < new.len() ==> (#[trigger] new[k]).job_id@ != (#[trigger] new[l]).job_id@,
    ensures
        forall|k: int|
            0 <= k < new.len() ==> with_assigned(m, new).contains_key((#[trigger] new[k]).job_id@)
                && with_assigned(m, new)[new[k].job_id@] == new[k].worker,
        (forall|k: int| 0 <= k < new.len() ==> (#[trigger] new[k]).job_id@ != job) ==> {
            &&& with_assigned(m, new).contains_key(job) == m.contains_key(job)
            &&& m.contains_key(job) ==> with_assigned(m, new)[job] == m[job]
        },
    decreases new.len(),
{
    if new.len() > 0 {
        let front = new.drop_last();
        assert forall|k: int| 0 <= k < front.len() implies front[k] == new[k] by {}
        lemma_assignments_are_remembered(m, front, job);
        assert forall|k: int| 0 <= k < new.len() implies with_assigned(m, new).contains_key(
            (#[trigger] new[k]).job_id@,
        ) && with_assigned(m, new)[new[k].job_id@] == new[k].worker by {
            if k < front.len() {
                assert(front[k] == new[k]);
                assert(new[k].job_id@ != new[new.len() - 1].job_id@);
            }
        }
        if forall|k: int| 0 <= k < new.len() ==> (#[trigger] new[k]).job_id@ != job {
            assert(new[new.len() - 1].job_id@ != job);
            assert forall|k: int| 0 <= k < front.len() implies (#[trigger] front[k]).job_id@
                != job by {
                assert(front[k] == new[k]);
            }
        }
    }
}

/// Each assignment is proposed to the cluster, and then its worker is told to
/// run its job; nothing else comes of assignments.
pub proof fn lemma_assignments_are_announced(new: Seq<Assignment>)
    ensures
        assigned(new).len() == 2 * new.len(),
        forall|k: int|
            0 <= k < new.len() ==> {
                &&& assigned(new)[2 * k] == ControlAction::Propose(
                    ControlPlaneRequest::AssignJob {
                        job_id: (#[trigger] new[k]).job_id,
                        worker: new[k].worker,
                    },
                )
                &&& assigned(new)[2 * k + 1] == (ControlAction::NotifyRun {
                    job: new[k].job,
                    worker: new[k].worker,
                })
            },
    decreases new.len(),
{
    if new.len() > 0 {
        let front = new.drop_last();
        lemma_assignments_are_announced(front);
        assert forall|k: int| 0 <= k < new.len() implies {
            &&& assigned(new)[2 * k] == ControlAction::Propose(
                ControlPlaneRequest::AssignJob {
                    job_id: (#[trigger] new[k]).job_id,
                    worker: new[k].worker,
                },
            )
            &&& assigned(new)[2 * k + 1] == (ControlAction::NotifyRun {
                job: new[k].job,
                worker: new[k].worker,
            })
        } by {
            if k < front.len() {
                assert(front[k] == new[k]);
            }
        }
    }
}

/// The jobs of a worker are those that are scheduled or running on it, in the
/// order of the table: `at` are their positions.
pub proof fn lemma_jobs_on_worker(jobs: Seq<(JobId, JobRecord)>, worker: Seq<char>) -> (at: Seq<int>)
    ensures
        ascending(at, jobs.len() as int),
        at.len() == orphans(jobs, worker).len(),
        forall|k: int| 0 <= k < at.len() ==> jobs[#[trigger] at[k]].0 == orphans(jobs, worker)[k],
        forall|i: int| #[trigger]
            at.contains(i) <==> 0 <= i < jobs.len() && (match jobs[i].1.state {
                JobState::Scheduled { worker: on } => on@ == worker,
                JobState::Running { worker: on } => on@ == worker,
                _ => false,
            }),
    decreases jobs.len(),
{
    if jobs.len() == 0 {
        Seq::empty()
    } else {
        let front = jobs.drop_last();
        let n = front.len() as int;
        let before = lemma_jobs_on_worker(front, worker);
        lemma_ascending_push(before, n);
        assert forall|i: int| 0 <= i < n implies front[i] == jobs[i] by {}
        if (match jobs.last().1.state {
            JobState::Scheduled { worker: on } => on@ == worker,
            JobState::Running { worker: on } => on@ == worker,
            _ => false,
        }) {
            before.push(n)
        } else {
            before
        }
    }
}

/// The loss of a worker puts each job that was scheduled or running on it back
/// into the queue, in the order of the table, and then takes the worker off the
/// list; nothing else is proposed.
pub proof fn lemma_loss_requeues_and_unregisters(
    jobs: Seq<(JobId, JobRecord)>,
    worker: PeerId,
) -> (at: Seq<int>)
    ensures
        ascending(at, jobs.len() as int),
        loss_requests(jobs, worker).len() == at.len() + 1,
        forall|k: int|
            0 <= k < at.len() ==> loss_requests(jobs, worker)[k]
                == (ControlPlaneRequest::CommitState {
                job_id: jobs[#[trigger] at[k]].0,
                new_state: JobState::Pending,
            }),
        loss_requests(jobs, worker)[at.len() as int] == (ControlPlaneRequest::UnregisterWorker {
            peer_id: worker,
        }),
        forall|i: int| #[trigger]
            at.contains(i) <==> 0 <= i < jobs.len() && (match jobs[i].1.state {
                JobState::Scheduled { worker: on } => on@ == worker@,
                JobState::Running { worker: on } => on@ == worker@,
                _ => false,
            }),
{
    lemma_jobs_on_worker(jobs, worker@)
}

/// What was remembered of the jobs of a lost worker is forgotten, and nothing
/// else.
pub proof fn lemma_forgets_only_these_jobs(m: Map<u128, PeerId>, jobs: Seq<JobId>, job: u128)
    ensures
        without_jobs(m, jobs).contains_key(job) <==> m.contains_key(job) && forall|k: int|
            0 <= k < jobs.len() ==> (#[trigger] jobs[k])@ != job,
        without_jobs(m, jobs).contains_key(job) ==> without_jobs(m, jobs)[job] == m[job],
    decreases jobs.len(),
{
    if jobs.len() > 0 {
        let front = jobs.drop_last();
        lemma_forgets_only_these_jobs(m, front, job);
        assert forall|k: int| 0 <= k < front.len() implies front[k] == jobs[k] by {}
        if forall|k: int| 0 <= k < front.len() ==> (#[trigger] front[k])@ != job {
            if jobs.last()@ != job {
                assert forall|k: int| 0 <= k < jobs.len() implies (#[trigger] jobs[k])@ != job by {
                    if k < front.len() {
                        assert(front[k] == jobs[k]);
                    }
                }
            } else {
                assert(jobs[jobs.len() - 1]@ == job);
            }
        } else {
            let k = choose|k: int| 0 <= k < front.len() && (#[trigger] front[k])@ == job;
            assert(jobs[k]@ == job);
        }
    }
}

/// What a look at the workers leaves known of each: one that answered is alive
/// and was seen now; one that did not is dead, and was last seen when it was, or
/// now where nothing was known of it. Round-trip times stay as they were. Of
/// whoever is no worker nothing changes.
pub proof fn lemma_look_at_workers(
    workers: Seq<(PeerId, WorkerInfo)>,
    connected: Seq<bool>,
    health: Map<Seq<char>, NodeHealth>,
    now: u64,
    other: Seq<char>,
)
    requires
        distinct_keys(workers),
        connected.len() == workers.len(),
    ensures
        ({
            let after = health_after(workers, connected, health, now);
            &&& forall|i: int|
                0 <= i < workers.len() ==> {
                    let peer = (#[trigger] workers[i]).0@;
                    &&& after.contains_key(peer)
                    &&& connected[i] ==> after[peer].status == NodeStatus::Alive
                        && after[peer].last_seen == now
                    &&& !connected[i] ==> after[peer].status == NodeStatus::Dead
                        && after[peer].last_seen == (if health.contains_key(peer) {
                        health[peer].last_seen
                    } else {
                        now
                    })
                    &&& after[peer].rtt == (if health.contains_key(peer) {
                        health[peer].rtt
                    } else {
                        None
                    })
                }
            &&& (forall|i: int| 0 <= i < workers.len() ==> (#[trigger] workers[i]).0@ != other) ==> {
                &&& after.contains_key(other) == health.contains_key(other)
                &&& health.contains_key(other) ==> after[other] == health[other]
            }
        }),
{
    lemma_health_of(workers, connected, health, now);
    if forall|i: int| 0 <= i < workers.len() ==> (#[trigger] workers[i]).0@ != other {
        lemma_health_untouched(workers, connected, health, now, other);
    }
}

/// A worker is found lost exactly when it does not answer and was not known to
/// be dead; those found lost come in the order of the table: `at` are their
/// positions.
pub proof fn lemma_found_lost(
    workers: Seq<(PeerId, WorkerInfo)>,
    connected: Seq<bool>,
    health: Map<Seq<char>, NodeHealth>,
    now: u64,
) -> (at: Seq<int>)
    requires
        distinct_keys(workers),
        connected.len() <= workers.len(),
    ensures
        ascending(at, connected.len() as int),
        at.len() == newly_dead(workers, connected, health, now).len(),
        forall|k: int|
            0 <= k < at.len() ==> workers[#[trigger] at[k]].0 == newly_dead(
                workers,
                connected,
                health,
                now,
            )[k],
        forall|i: int| #[trigger]
            at.contains(i) <==> {
                &&& 0 <= i < connected.len()
                &&& !connected[i]
                &&& !(health.contains_key(workers[i].0@) && health[workers[i].0@].status
                    == NodeStatus::Dead)
            },
    decreases connected.len(),
{
    if connected.len() == 0 {
        Seq::empty()
    } else {
        let front = connected.drop_last();
        let n = front.len() as int;
        let peer = workers[n].0@;
        let before = lemma_found_lost(workers, front, health, now);
        lemma_ascending_push(before, n);
        assert forall|i: int| 0 <= i < n implies front[i] == connected[i] by {}
        assert forall|i: int| 0 <= i < front.len() implies (#[trigger] workers[i]).0@ != peer by {
            assert(workers[i].0@ != workers[n].0@);
        }
        lemma_health_untouched(workers, front, health, now, peer);
        if !connected.last() && !(health.contains_key(peer) && health[peer].status
            == NodeStatus::Dead) {
            before.push(n)
        } else {
            before
        }
    }
}

/// Whether `request` takes `worker` off the list, or puts a job that is scheduled
/// or running on it back into the queue.
pub open spec fn asked_by_loss(
    jobs: Seq<(JobId, JobRecord)>,
    worker: PeerId,
    request: ControlPlaneRequest,
) -> bool {
    ||| request == (ControlPlaneRequest::UnregisterWorker { peer_id: worker })
    ||| exists|i: int|
        0 <= i < jobs.len() && request == (ControlPlaneRequest::CommitState {
            job_id: (#[trigger] jobs[i]).0,
            new_state: JobState::Pending,
        }) && (match jobs[i].1.state {
            JobState::Scheduled { worker: on } => on@ == worker@,
            JobState::Running { worker: on } => on@ == worker@,
            _ => false,
        })
}

/// Whether `job` is scheduled or running on `worker`.
pub open spec fn runs_on(jobs: Seq<(JobId, JobRecord)>, job: u128, worker: PeerId) -> bool {
    exists|i: int|
        0 <= i < jobs.len() && (#[trigger] jobs[i]).0@ == job && (match jobs[i].1.state {
            JobState::Scheduled { worker: on } => on@ == worker@,
            JobState::Running { worker: on } => on@ == worker@,
            _ => false,
        })
}

/// Several losses come to what each of them comes to: the requests are those of
/// each lost worker, the jobs that were on a lost worker are forgotten, and so is
/// what was known of its health. Nothing else is.
pub proof fn lemma_losses_add_up(
    jobs: Seq<(JobId, JobRecord)>,
    dead: Seq<PeerId>,
    assignments: Map<u128, PeerId>,
    health: Map<Seq<char>, NodeHealth>,
    request: ControlPlaneRequest,
    job: u128,
    peer: Seq<char>,
)
    ensures
        ({
            let lost = losses(jobs, dead, assignments, health);
            &&& lost.requests.contains(request) <==> exists|d: int|
                0 <= d < dead.len() && asked_by_loss(jobs, #[trigger] dead[d], request)
            &&& lost.assignments.contains_key(job) <==> assignments.contains_key(job) && !exists|
                d: int,
            |
                0 <= d < dead.len() && runs_on(jobs, job, #[trigger] dead[d])
            &&& lost.assignments.contains_key(job) ==> lost.assignments[job] == assignments[job]
            &&& lost.health.contains_key(peer) <==> health.contains_key(peer) && !exists|d: int|
                0 <= d < dead.len() && (#[trigger] dead[d])@ == peer
            &&& lost.health.contains_key(peer) ==> lost.health[peer] == health[peer]
        }),
    decreases dead.len(),
{
    let lost = losses(jobs, dead, assignments, health);
    if dead.len() == 0 {
        assert(!lost.requests.contains(request));
    } else {
        let front = dead.drop_last();
        let last = dead.last();
        let before = losses(jobs, front, assignments, health);
        lemma_losses_add_up(jobs, front, assignments, health, request, job, peer);
        lemma_exists_last(dead, |w: PeerId| asked_by_loss(jobs, w, request));
        lemma_exists_last(dead, |w: PeerId| runs_on(jobs, job, w));
        lemma_exists_last(dead, |w: PeerId| w@ == peer);
        let more = loss_requests(jobs, last);
        let at = lemma_loss_requeues_and_unregisters(jobs, last);
        let gone = orphans(jobs, last@);
        let on = lemma_jobs_on_worker(jobs, last@);
        lemma_forgets_only_these_jobs(before.assignments, gone, job);
        lemma_concat_contains(before.requests, more, request);
        if more.contains(request) {
            let k = more.index_of(request);
            if k < at.len() {
                assert(at.contains(at[k]));
                assert(jobs[at[k]] == jobs[at[k]]);
            }
            assert(asked_by_loss(jobs, last, request));
        }
        if asked_by_loss(jobs, last, request) {
            if request == (ControlPlaneRequest::UnregisterWorker { peer_id: last }) {
                assert(more[at.len() as int] == request);
            } else {
                let i = choose|i: int|
                    0 <= i < jobs.len() && request == (ControlPlaneRequest::CommitState {
                        job_id: (#[trigger] jobs[i]).0,
                        new_state: JobState::Pending,
                    }) && (match jobs[i].1.state {
                        JobState::Scheduled { worker: on } => on@ == last@,
                        JobState::Running { worker: on } => on@ == last@,
                        _ => false,
                    });
                assert(at.contains(i));
                assert(more[at.index_of(i)] == request);
            }
        }
        if runs_on(jobs, job, last) {
            let i = choose|i: int|
                0 <= i < jobs.len() && (#[trigger] jobs[i]).0@ == job && (match jobs[i].1.state {
                    JobState::Scheduled { worker: on } => on@ == last@,
                    JobState::Running { worker: on } => on@ == last@,
                    _ => false,
                });
            assert(on.contains(i));
            assert(gone[on.index_of(i)]@ == job);
        } else {
            assert forall|k: int| 0 <= k < gone.len() implies (#[trigger] gone[k])@ != job by {
                assert(on.contains(on[k]));
                assert(jobs[on[k]].0@ == gone[k]@);
            }
        }
    }
}

/// What the leader does in one cycle.
///
/// It proposes what the loss of each worker asks for that does not answer and was
/// not known to be dead. It pairs off the pending jobs with the workers that
/// answer and have nothing to do, jobs of lost workers aside, as far as the
/// shorter list goes, and for each pair proposes the assignment and tells the
/// worker. It resumes whom the watchdog names. It does nothing else. `at` are the
/// positions of the pending jobs and of the free workers.
pub proof fn lemma_cycle_of_leader(
    state: &ControlPlaneState,
    connected: Seq<bool>,
    health: Map<Seq<char>, NodeHealth>,
    assignments: Map<u128, PeerId>,
    watch: Map<(u128, u128), YieldWatch>,
    now: u64,
    action: ControlAction,
) -> (at: (Seq<int>, Seq<int>))
    requires
        distinct_keys(state.jobs.entries()),
        distinct_keys(state.workers.entries()),
        connected.len() == state.workers.entries().len(),
    ensures
        ({
            let jobs = state.jobs.entries();
            let workers = state.workers.entries();
            let all = cycle(state, connected, health, assignments, watch, now);
            &&& ascending(at.0, jobs.len() as int)
            &&& ascending(at.1, workers.len() as int)
            &&& forall|i: int| #[trigger]
                at.0.contains(i) <==> 0 <= i < jobs.len() && jobs[i].1.state is Pending
            &&& forall|i: int| #[trigger]
                at.1.contains(i) <==> {
                    &&& 0 <= i < workers.len()
                    &&& connected[i]
                    &&& forall|j: u128| #[trigger]
                        assignments.contains_key(j) && assignments[j]@ == workers[i].0@
                            ==> exists|d: int|
                            {
                                &&& 0 <= d < workers.len()
                                &&& !connected[d]
                                &&& !(health.contains_key(workers[d].0@)
                                    && health[workers[d].0@].status == NodeStatus::Dead)
                                &&& runs_on(jobs, j, (#[trigger] workers[d]).0)
                            }
                }
            &&& all.actions.contains(action) <==> ({
                ||| exists|d: int|
                    {
                        &&& 0 <= d < workers.len()
                        &&& !connected[d]
                        &&& !(health.contains_key(workers[d].0@) && health[workers[d].0@].status
                            == NodeStatus::Dead)
                        &&& action matches ControlAction::Propose(request) && asked_by_loss(
                            jobs,
                            (#[trigger] workers[d]).0,
                            request,
                        )
                    }
                ||| exists|k: int|
                    {
                        &&& 0 <= k < at.0.len()
                        &&& k < at.1.len()
                        &&& ({
                            ||| action == ControlAction::Propose(
                                ControlPlaneRequest::AssignJob {
                                    job_id: jobs[#[trigger] at.0[k]].0,
                                    worker: workers[at.1[k]].0,
                                },
                            )
                            ||| action == (ControlAction::NotifyRun {
                                job: jobs[at.0[k]].1.job,
                                worker: workers[at.1[k]].0,
                            })
                        })
                    }
                ||| action matches ControlAction::Resume(agent) && watch_pass(
                    state.jobs@,
                    jobs,
                    now,
                    watch,
                ).resumed.contains(agent)
            })
        }),
{
    let jobs = state.jobs.entries();
    let workers = state.workers.entries();
    let all = cycle(state, connected, health, assignments, watch, now);
    let seen = health_after(workers, connected, health, now);
    let dead = newly_dead(workers, connected, health, now);
    let lost = losses(jobs, dead, assignments, seen);
    let dat = lemma_found_lost(workers, connected, health, now);
    let at = lemma_pairs_pending_with_free(jobs, workers, lost.health, lost.assignments);
    let new = matched(pending(jobs), available(workers, lost.health, lost.assignments));
    let pass = watch_pass(state.jobs@, jobs, now, watch);
    // Who is free.
    assert forall|i: int| #[trigger] at.1.contains(i) <==> {
        &&& 0 <= i < workers.len()
        &&& connected[i]
        &&& forall|j: u128| #[trigger]
            assignments.contains_key(j) && assignments[j]@ == workers[i].0@ ==> exists|d: int|
                {
                    &&& 0 <= d < workers.len()
                    &&& !connected[d]
                    &&& !(health.contains_key(workers[d].0@) && health[workers[d].0@].status
                        == NodeStatus::Dead)
                    &&& runs_on(jobs, j, (#[trigger] workers[d]).0)
                }
    } by {
        if 0 <= i < workers.len() {
            lemma_free_after_losses(
                jobs,
                workers,
                connected,
                health,
                assignments,
                now,
                i,
            );
        }
    }
    // What is done.
    let first = proposed(lost.requests);
    let second = assigned(new);
    let third = resumed(pass.resumed);
    lemma_concat_contains(first + second, third, action);
    lemma_concat_contains(first, second, action);
    lemma_assignments_are_announced(new);
    if first.contains(action) {
        let k = first.index_of(action);
        let request = lost.requests[k];
        assert(lost.requests.contains(request));
        lemma_losses_add_up(jobs, dead, assignments, seen, request, 0, Seq::empty());
        let d = choose|d: int|
            0 <= d < dead.len() && asked_by_loss(jobs, #[trigger] dead[d], request);
        assert(dat.contains(dat[d]));
        assert(workers[dat[d]].0 == dead[d]);
    }
    if exists|d: int|
        {
            &&& 0 <= d < workers.len()
            &&& !connected[d]
            &&& !(health.contains_key(workers[d].0@) && health[workers[d].0@].status
                == NodeStatus::Dead)
            &&& action matches ControlAction::Propose(request) && asked_by_loss(
                jobs,
                (#[trigger] workers[d]).0,
                request,
            )
        } {
        let d = choose|d: int|
            {
                &&& 0 <= d < workers.len()
                &&& !connected[d]
                &&& !(health.contains_key(workers[d].0@) && health[workers[d].0@].status
                    == NodeStatus::Dead)
                &&& action matches ControlAction::Propose(request) && asked_by_loss(
                    jobs,
                    (#[trigger] workers[d]).0,
                    request,
                )
            };
        let request = action->Propose_0;
        assert(dat.contains(d));
        assert(dead[dat.index_of(d)] == workers[d].0);
        lemma_losses_add_up(jobs, dead, assignments, seen, request, 0, Seq::empty());
        assert(lost.requests.contains(request));
        assert(first[lost.requests.index_of(request)] == action);
    }
    if second.contains(action) {
        let k = second.index_of(action);
        let p = k / 2;
        assert(k == 2 * p || k == 2 * p + 1);
        assert(0 <= p < new.len());
        assert(new[p].job_id == jobs[at.0[p]].0);
    }
    if exists|k: int|
        {
            &&& 0 <= k < at.0.len()
            &&& k < at.1.len()
            &&& ({
                ||| action == ControlAction::Propose(
                    ControlPlaneRequest::AssignJob {
                        job_id: jobs[#[trigger] at.0[k]].0,
                        worker: workers[at.1[k]].0,
                    },
                )
                ||| action == (ControlAction::NotifyRun {
                    job: jobs[at.0[k]].1.job,
                    worker: workers[at.1[k]].0,
                })
            })
        } {
        let k = choose|k: int|
            {
                &&& 0 <= k < at.0.len()
                &&& k < at.1.len()
                &&& ({
                    ||| action == ControlAction::Propose(
                        ControlPlaneRequest::AssignJob {
                            job_id: jobs[#[trigger] at.0[k]].0,
                            worker: workers[at.1[k]].0,
                        },
                    )
                    ||| action == (ControlAction::NotifyRun {
                        job: jobs[at.0[k]].1.job,
                        worker: workers[at.1[k]].0,
                    })
                })
            };
        assert(new[k].job_id == jobs[at.0[k]].0);
        assert(second[2 * k] == action || second[2 * k + 1] == action);
    }
    if third.contains(action) {
        let k = third.index_of(action);
        assert(pass.resumed.contains(pass.resumed[k]));
    }
    if action is Resume && pass.resumed.contains(action->Resume_0) {
        assert(third[pass.resumed.index_of(action->Resume_0)] == action);
    }
    at
}

/// What the leader remembers after one cycle: of each worker that answered, that
/// it is alive and was seen now, and nothing of one that it found lost; the
/// worker of each job that it assigned, and no longer that of a job which was on
/// a worker that it found lost; and the agents that the watchdog saw.
pub proof fn lemma_leader_remembers(
    state: &ControlPlaneState,
    connected: Seq<bool>,
    health: Map<Seq<char>, NodeHealth>,
    assignments: Map<u128, PeerId>,
    watch: Map<(u128, u128), YieldWatch>,
    now: u64,
    i: int,
    job: u128,
    agent: GlobalAgentId,
)
    requires
        distinct_keys(state.jobs.entries()),
        distinct_keys(state.workers.entries()),
        connected.len() == state.workers.entries().len(),
        0 <= i < state.workers.entries().len(),
    ensures
        ({
            let jobs = state.jobs.entries();
            let workers = state.workers.entries();
            let all = cycle(state, connected, health, assignments, watch, now);
            let peer = workers[i].0@;
            let pass = watch_pass(state.jobs@, jobs, now, watch);
            let taken_back = exists|d: int|
                {
                    &&& 0 <= d < workers.len()
                    &&& !connected[d]
                    &&& !(health.contains_key(workers[d].0@) && health[workers[d].0@].status
                        == NodeStatus::Dead)
                    &&& runs_on(jobs, job, (#[trigger] workers[d]).0)
                };
            &&& connected[i] ==> all.health.contains_key(peer) && all.health[peer].status
                == NodeStatus::Alive && all.health[peer].last_seen == now
            &&& !connected[i] && !(health.contains_key(peer) && health[peer].status
                == NodeStatus::Dead) ==> !all.health.contains_key(peer)
            &&& all.actions.contains(
                ControlAction::Propose(
                    ControlPlaneRequest::AssignJob { job_id: JobId(ID(job)), worker: workers[i].0 },
                ),
            ) ==> all.assignments.contains_key(job) && all.assignments[job] == workers[i].0
            &&& (forall|w: PeerId|
                !#[trigger] all.actions.contains(
                    ControlAction::Propose(
                        ControlPlaneRequest::AssignJob { job_id: JobId(ID(job)), worker: w },
                    ),
                )) ==> (all.assignments.contains_key(job) <==> assignments.contains_key(job)
                && !taken_back) && (all.assignments.contains_key(job) ==> all.assignments[job]
                == assignments[job])
            &&& all.watch.contains_key(agent@) <==> pass.seen.contains(agent@)
            &&& all.watch.contains_key(agent@) ==> all.watch[agent@] == pass.watch[agent@]
        }),
{
    let jobs = state.jobs.entries();
    let workers = state.workers.entries();
    let all = cycle(state, connected, health, assignments, watch, now);
    let peer = workers[i].0@;
    let seen = health_after(workers, connected, health, now);
    let dead = newly_dead(workers, connected, health, now);
    let lost = losses(jobs, dead, assignments, seen);
    let new = matched(pending(jobs), available(workers, lost.health, lost.assignments));
    let unregister = ControlPlaneRequest::UnregisterWorker { peer_id: workers[i].0 };
    let dat = lemma_found_lost(workers, connected, health, now);
    lemma_look_at_workers(workers, connected, health, now, peer);
    lemma_losses_add_up(jobs, dead, assignments, seen, unregister, job, peer);
    if connected[i] {
        assert forall|d: int| 0 <= d < dead.len() implies (#[trigger] dead[d])@ != peer by {
            assert(dat.contains(dat[d]));
            assert(workers[dat[d]].0 == dead[d]);
            assert(dat[d] != i);
            if dat[d] < i {
                assert(workers[dat[d]].0@ != workers[i].0@);
            } else {
                assert(workers[i].0@ != workers[dat[d]].0@);
            }
        }
    } else if !(health.contains_key(peer) && health[peer].status == NodeStatus::Dead) {
        assert(dat.contains(i));
        assert(dead[dat.index_of(i)] == workers[i].0);
    }
    // Jobs.
    let pairs = lemma_pairs_pending_with_free(jobs, workers, lost.health, lost.assignments);
    lemma_assignments_are_remembered(lost.assignments, new, job);
    lemma_assignments_are_announced(new);
    let second = assigned(new);
    let assign = ControlAction::Propose(
        ControlPlaneRequest::AssignJob { job_id: JobId(ID(job)), worker: workers[i].0 },
    );
    let first = proposed(lost.requests);
    let third = resumed(watch_pass(state.jobs@, jobs, now, watch).resumed);
    if all.actions.contains(assign) {
        lemma_concat_contains(first + second, third, assign);
        lemma_concat_contains(first, second, assign);
        if first.contains(assign) {
            let request = lost.requests[first.index_of(assign)];
            assert(lost.requests.contains(request));
            lemma_losses_add_up(jobs, dead, assignments, seen, request, job, peer);
            assert(false);
        }
        if third.contains(assign) {
            let k = third.index_of(assign);
            assert(false);
        }
        let k = second.index_of(assign);
        let p = k / 2;
        assert(k == 2 * p || k == 2 * p + 1);
        assert(0 <= p < new.len());
        assert(new[p].job_id@ == job);
        assert(new[p].worker == workers[i].0);
    }
    if forall|w: PeerId|
        !#[trigger] all.actions.contains(
            ControlAction::Propose(
                ControlPlaneRequest::AssignJob { job_id: JobId(ID(job)), worker: w },
            ),
        ) {
        assert forall|k: int| 0 <= k < new.len() implies (#[trigger] new[k]).job_id@ != job by {
            if new[k].job_id@ == job {
                let it = ControlAction::Propose(
                    ControlPlaneRequest::AssignJob {
                        job_id: JobId(ID(job)),
                        worker: new[k].worker,
                    },
                );
                assert(new[k].job_id == JobId(ID(job)));
                assert(second[2 * k] == it);
                assert(second.contains(it));
                lemma_concat_contains(first, second, it);
                lemma_concat_contains(first + second, third, it);
                assert(all.actions.contains(it));
            }
        }
        if exists|d: int| 0 <= d < dead.len() && runs_on(jobs, job, #[trigger] dead[d]) {
            let d = choose|d: int| 0 <= d < dead.len() && runs_on(jobs, job, #[trigger] dead[d]);
            assert(dat.contains(dat[d]));
            assert(workers[dat[d]].0 == dead[d]);
        }
        if exists|d: int|
            {
                &&& 0 <= d < workers.len()
                &&& !connected[d]
                &&& !(health.contains_key(workers[d].0@) && health[workers[d].0@].status
                    == NodeStatus::Dead)
                &&& runs_on(jobs, job, (#[trigger] workers[d]).0)
            } {
            let d = choose|d: int|
                {
                    &&& 0 <= d < workers.len()
                    &&& !connected[d]
                    &&& !(health.contains_key(workers[d].0@) && health[workers[d].0@].status
                        == NodeStatus::Dead)
                    &&& runs_on(jobs, job, (#[trigger] workers[d]).0)
                };
            assert(dat.contains(d));
            assert(dead[dat.index_of(d)] == workers[d].0);
        }
    }
    crate::network::cp::resume::lemma_watchdog_decides(state.jobs@, jobs, now, watch, agent);
}

proof fn lemma_free_after_losses(
    jobs: Seq<(JobId, JobRecord)>,
    workers: Seq<(PeerId, WorkerInfo)>,
    connected: Seq<bool>,
    health: Map<Seq<char>, NodeHealth>,
    assignments: Map<u128, PeerId>,
    now: u64,
    i: int,
)
    requires
        distinct_keys(workers),
        connected.len() == workers.len(),
        0 <= i < workers.len(),
    ensures
        ({
            let seen = health_after(workers, connected, health, now);
            let dead = newly_dead(workers, connected, health, now);
            let lost = losses(jobs, dead, assignments, seen);
            let peer = workers[i].0@;
            (lost.health.contains_key(peer) && lost.health[peer].status == NodeStatus::Alive
                && forall|j: u128| #[trigger]
                lost.assignments.contains_key(j) ==> lost.assignments[j]@ != peer) <==> (
            connected[i] && forall|j: u128| #[trigger]
                assignments.contains_key(j) && assignments[j]@ == peer ==> exists|d: int|
                    {
                        &&& 0 <= d < workers.len()
                        &&& !connected[d]
                        &&& !(health.contains_key(workers[d].0@) && health[workers[d].0@].status
                            == NodeStatus::Dead)
                        &&& runs_on(jobs, j, (#[trigger] workers[d]).0)
                    })
        }),
{
    let seen = health_after(workers, connected, health, now);
    let dead = newly_dead(workers, connected, health, now);
    let lost = losses(jobs, dead, assignments, seen);
    let peer = workers[i].0@;
    let dat = lemma_found_lost(workers, connected, health, now);
    lemma_look_at_workers(workers, connected, health, now, peer);
    lemma_losses_add_up(
        jobs,
        dead,
        assignments,
        seen,
        ControlPlaneRequest::UnregisterWorker { peer_id: workers[i].0 },
        0,
        peer,
    );
    if connected[i] {
        assert forall|d: int| 0 <= d < dead.len() implies (#[trigger] dead[d])@ != peer by {
            assert(dat.contains(dat[d]));
            assert(workers[dat[d]].0 == dead[d]);
            assert(dat[d] != i);
            if dat[d] < i {
                assert(workers[dat[d]].0@ != workers[i].0@);
            } else {
                assert(workers[i].0@ != workers[dat[d]].0@);
            }
        }
    }
    assert forall|j: u128| #[trigger] assignments.contains_key(j) implies (
    lost.assignments.contains_key(j) <==> !exists|d: int|
        {
            &&& 0 <= d < workers.len()
            &&& !connected[d]
            &&& !(health.contains_key(workers[d].0@) && health[workers[d].0@].status
                == NodeStatus::Dead)
            &&& runs_on(jobs, j, (#[trigger] workers[d]).0)
        }) by {
        lemma_losses_add_up(
            jobs,
            dead,
            assignments,
            seen,
            ControlPlaneRequest::UnregisterWorker { peer_id: workers[i].0 },
            j,
            peer,
        );
        if exists|d: int| 0 <= d < dead.len() && runs_on(jobs, j, #[trigger] dead[d]) {
            let d = choose|d: int| 0 <= d < dead.len() && runs_on(jobs, j, #[trigger] dead[d]);
            assert(dat.contains(dat[d]));
            assert(workers[dat[d]].0 == dead[d]);
        }
        if exists|d: int|
            {
                &&& 0 <= d < workers.len()
                &&& !connected[d]
                &&& !(health.contains_key(workers[d].0@) && health[workers[d].0@].status
                    == NodeStatus::Dead)
                &&& runs_on(jobs, j, (#[trigger] workers[d]).0)
            } {
            let d = choose|d: int|
                {
                    &&& 0 <= d < workers.len()
                    &&& !connected[d]
                    &&& !(health.contains_key(workers[d].0@) && health[workers[d].0@].status
                        == NodeStatus::Dead)
                    &&& runs_on(jobs, j, (#[trigger] workers[d]).0)
                };
            assert(dat.contains(d));
            assert(dead[dat.index_of(d)] == workers[d].0);
        }
    }
    assert forall|j: u128| #[trigger] lost.assignments.contains_key(j) implies
        assignments.contains_key(j) && lost.assignments[j] == assignments[j] by {
        lemma_losses_add_up(
            jobs,
            dead,
            assignments,
            seen,
            ControlPlaneRequest::UnregisterWorker { peer_id: workers[i].0 },
            j,
            peer,
        );
    }
}

proof fn lemma_exists_last<A>(s: Seq<A>, p: spec_fn(A) -> bool)
    requires
        s.len() > 0,
    ensures
        (exists|d: int| 0 <= d < s.len() && p(#[trigger] s[d])) <==> (exists|d: int|
            0 <= d < s.drop_last().len() && p(#[trigger] s.drop_last()[d])) || p(s.last()),
{
    let front = s.drop_last();
    if exists|d: int| 0 <= d < front.len() && p(#[trigger] front[d]) {
        let d = choose|d: int| 0 <= d < front.len() && p(#[trigger] front[d]);
        assert(p(s[d]));
    }
    if p(s.last()) {
        assert(p(s[s.len() - 1]));
    }
    if exists|d: int| 0 <= d < s.len() && p(#[trigger] s[d]) {
        let d = choose|d: int| 0 <= d < s.len() && p(#[trigger] s[d]);
        if d < front.len() {
            assert(p(front[d]));
        }
    }
}

/// A worker that was just met is alive, was seen right now, and has no round trip
/// measured yet.
pub proof fn lemma_met_worker_is_alive(now: u64)
    ensures
        fresh_health(now).last_seen == now,
        fresh_health(now).rtt is None,
        fresh_health(now).status is Alive,
{
}

} // verus!
