//! Resumption of agents that yielded.

use crate::collections::{
    ascending, distinct_keys, entries_map, has_key, key_index, lemma_ascending_push, lemma_entry,
    lemma_push_contains, Table,
};
use crate::id::{GlobalAgentId, ID};
use crate::job::JobId;
use crate::mode::executable::YieldStatus;
use crate::network::cp::jobs::{Job, JobKind, JobRecord, JobState};
use crate::network::cp::state::{
    agent_completed, agent_has_active_job, has_active_job, is_agent_completed, ControlPlaneState,
};
use crate::network::cp::types::ControlPlaneRequest;
use crate::network::cp::{MAX_WATCHDOG_RESUME_ATTEMPTS, YIELD_WATCHDOG_TIMEOUT_MS};
use vstd::prelude::*;

verus! {

/// The request that resumes an agent: a new job for it, under a fresh
/// identifier.
pub fn submit_resume_job(id: JobId, agent_id: GlobalAgentId) -> (r: ControlPlaneRequest)
    ensures
        r == ControlPlaneRequest::SubmitJob(Job { id, kind: JobKind::RunAgent(agent_id) }),
{
    ControlPlaneRequest::SubmitJob(Job { id, kind: JobKind::RunAgent(agent_id) })
}

/// Whether the job of `record` yielded to wait for the reply to `tool_call`.
pub open spec fn waits_for_reply(record: JobRecord, tool_call: ID) -> bool {
    match record.state {
        JobState::Yielded { reason: YieldStatus::WaitingToolReply { tool_call_id } } => tool_call_id
            == tool_call,
        _ => false,
    }
}

/// The agents whose job waits for the reply to `tool_call`, in order.
pub open spec fn waiting_agents(jobs: Seq<(JobId, JobRecord)>, tool_call: ID) -> Seq<GlobalAgentId>
    decreases jobs.len(),
{
    if jobs.len() == 0 {
        Seq::empty()
    } else if waits_for_reply(jobs.last().1, tool_call) {
        waiting_agents(jobs.drop_last(), tool_call).push(jobs.last().1.job.agent_of())
    } else {
        waiting_agents(jobs.drop_last(), tool_call)
    }
}

/// A human answered the request `request_id`, which is the tool call that the
/// asking agent waits for: the agents to resume.
pub fn resume_after_hitl_answer(state: &ControlPlaneState, request_id: ID) -> (r: Vec<
    GlobalAgentId,
>)
    ensures
        r@ == waiting_agents(state.jobs.entries(), request_id),
        forall|agent: GlobalAgentId| #[trigger]
            r@.contains(agent) <==> exists|j: u128| #[trigger]
                state.jobs@.contains_key(j) && state.jobs@[j].job.kind == JobKind::RunAgent(agent)
                    && state.jobs@[j].state == (JobState::Yielded {
                    reason: YieldStatus::WaitingToolReply { tool_call_id: request_id },
                }),
{
    let ghost jobs = state.jobs.entries();
    let n: usize = state.jobs.len();
    let mut r: Vec<GlobalAgentId> = Vec::new();
    let mut i: usize = 0;
    while i < n
        invariant
            i <= n,
            n == jobs.len(),
            jobs == state.jobs.entries(),
            r@ == waiting_agents(jobs.take(i as int), request_id),
        decreases n - i,
    {
        let record = state.jobs.value_at(i);
        assert(jobs.take(i + 1).drop_last() =~= jobs.take(i as int));
        match &record.state {
            JobState::Yielded { reason: YieldStatus::WaitingToolReply { tool_call_id } } => {
                if *tool_call_id == request_id {
                    r.push(record.job.agent());
                }
            },
            _ => {},
        }
        i = i + 1;
    }
    assert(jobs.take(i as int) =~= jobs);
    proof {
        assert forall|agent: GlobalAgentId| #[trigger]
            r@.contains(agent) <==> exists|j: u128| #[trigger]
                state.jobs@.contains_key(j) && state.jobs@[j].job.kind == JobKind::RunAgent(agent)
                    && state.jobs@[j].state == (JobState::Yielded {
                    reason: YieldStatus::WaitingToolReply { tool_call_id: request_id },
                }) by {
            lemma_answer_resumes_by_table(state.jobs@, jobs, request_id, agent);
        }
    }
    r
}

/// Whether the job of `record` yielded to wait for children, `completed` among
/// them, and all of them are done.
pub open spec fn is_ready_parent(
    jobs: Map<u128, JobRecord>,
    record: JobRecord,
    completed: GlobalAgentId,
) -> bool {
    match record.state {
        JobState::Yielded { reason: YieldStatus::WaitingChildren { children } } => {
            &&& children@.contains(completed)
            &&& forall|i: int|
                0 <= i < children@.len() ==> agent_completed(jobs, #[trigger] children@[i])
        },
        _ => false,
    }
}

/// The agents that waited for `completed` and now have all their children
/// done, in order.
pub open spec fn ready_parents(
    jobs: Map<u128, JobRecord>,
    entries: Seq<(JobId, JobRecord)>,
    completed: GlobalAgentId,
) -> Seq<GlobalAgentId>
    decreases entries.len(),
{
    if entries.len() == 0 {
        Seq::empty()
    } else if is_ready_parent(jobs, entries.last().1, completed) {
        ready_parents(jobs, entries.drop_last(), completed).push(entries.last().1.job.agent_of())
    } else {
        ready_parents(jobs, entries.drop_last(), completed)
    }
}

/// Whether `children` holds `completed` and every one of them is done.
fn children_done(
    state: &ControlPlaneState,
    children: &Vec<GlobalAgentId>,
    completed: GlobalAgentId,
) -> (r: bool)
    ensures
        r == (children@.contains(completed) && forall|i: int|
            0 <= i < children@.len() ==> agent_completed(state.jobs@, #[trigger] children@[i])),
{
    let mut found = false;
    let mut i: usize = 0;
    while i < children.len()
        invariant
            i <= children@.len(),
            found <==> exists|k: int| 0 <= k < i && #[trigger] children@[k] == completed,
            forall|k: int| 0 <= k < i ==> agent_completed(state.jobs@, #[trigger] children@[k]),
        decreases children@.len() - i,
    {
        let child = children[i];
        if child == completed {
            found = true;
        }
        if !is_agent_completed(state, child) {
            assert(!agent_completed(state.jobs@, children@[i as int]));
            return false;
        }
        i = i + 1;
    }
    found
}

/// `completed` is done: the agents that waited for it and have no child left
/// to wait for.
pub fn resume_orchestration_parents(state: &ControlPlaneState, completed: GlobalAgentId) -> (r: Vec<
    GlobalAgentId,
>)
    ensures
        r@ == ready_parents(state.jobs@, state.jobs.entries(), completed),
        forall|agent: GlobalAgentId| #[trigger]
            r@.contains(agent) <==> exists|j: u128| #[trigger]
                state.jobs@.contains_key(j) && {
                    &&& state.jobs@[j].job.kind == JobKind::RunAgent(agent)
                    &&& state.jobs@[j].state matches JobState::Yielded {
                        reason: YieldStatus::WaitingChildren { children },
                    }
                    &&& exists|c: int| 0 <= c < children@.len() && #[trigger] children@[c] == completed
                    &&& forall|c: int|
                        0 <= c < children@.len() ==> exists|d: u128| #[trigger]
                            state.jobs@.contains_key(d) && state.jobs@[d].job.kind == JobKind::RunAgent(
                                #[trigger] children@[c],
                            ) && state.jobs@[d].state is Completed
                },
{
    let ghost jobs = state.jobs.entries();
    let n: usize = state.jobs.len();
    let mut r: Vec<GlobalAgentId> = Vec::new();
    let mut i: usize = 0;
    while i < n
        invariant
            i <= n,
            n == jobs.len(),
            jobs == state.jobs.entries(),
            r@ == ready_parents(state.jobs@, jobs.take(i as int), completed),
        decreases n - i,
    {
        let record = state.jobs.value_at(i);
        assert(jobs.take(i + 1).drop_last() =~= jobs.take(i as int));
        match &record.state {
            JobState::Yielded { reason: YieldStatus::WaitingChildren { children } } => {
                if children_done(state, children, completed) {
                    r.push(record.job.agent());
                }
            },
            _ => {},
        }
        i = i + 1;
    }
    assert(jobs.take(i as int) =~= jobs);
    proof {
        assert forall|agent: GlobalAgentId| #[trigger]
            r@.contains(agent) <==> exists|j: u128| #[trigger]
                state.jobs@.contains_key(j) && {
                    &&& state.jobs@[j].job.kind == JobKind::RunAgent(agent)
                    &&& state.jobs@[j].state matches JobState::Yielded {
                        reason: YieldStatus::WaitingChildren { children },
                    }
                    &&& exists|c: int| 0 <= c < children@.len() && #[trigger] children@[c] == completed
                    &&& forall|c: int|
                        0 <= c < children@.len() ==> exists|d: u128| #[trigger]
                            state.jobs@.contains_key(d) && state.jobs@[d].job.kind == JobKind::RunAgent(
                                #[trigger] children@[c],
                            ) && state.jobs@[d].state is Completed
                } by {
            lemma_parents_resume_by_table(state.jobs@, jobs, completed, agent);
        }
    }
    r
}

/// How a job ended, as far as it matters for resuming agents.
#[derive(Debug, Clone, Copy, PartialEq, Eq, Structural)]
pub enum JobConclusion {
    /// It yielded because its run was used up.
    RunExhausted,
    Completed,
    Other,
}

/// How `state` concludes a job.
pub open spec fn conclusion_of(state: JobState) -> JobConclusion {
    match state {
        JobState::Yielded { reason: YieldStatus::RunExhausted } => JobConclusion::RunExhausted,
        JobState::Completed { .. } => JobConclusion::Completed,
        _ => JobConclusion::Other,
    }
}

/// How `state` concludes a job.
pub fn conclusion(state: &JobState) -> (r: JobConclusion)
    ensures
        r == conclusion_of(*state),
        r == JobConclusion::RunExhausted <==> *state == (JobState::Yielded {
            reason: YieldStatus::RunExhausted,
        }),
        r == JobConclusion::Completed <==> *state is Completed,
{
    match state {
        JobState::Yielded { reason: YieldStatus::RunExhausted } => JobConclusion::RunExhausted,
        JobState::Completed { .. } => JobConclusion::Completed,
        _ => JobConclusion::Other,
    }
}

/// The agents to resume once `job_id` has ended: the agent itself where its
/// run was used up, those that waited for it where it completed. A job that
/// waits for a reply is resumed by the reply, not by its own end.
pub open spec fn resumed_by_end(
    jobs: Map<u128, JobRecord>,
    entries: Seq<(JobId, JobRecord)>,
    job_id: JobId,
    end: JobConclusion,
) -> Seq<GlobalAgentId> {
    if !jobs.contains_key(job_id@) {
        Seq::empty()
    } else {
        match end {
            JobConclusion::RunExhausted => seq![jobs[job_id@].job.agent_of()],
            JobConclusion::Completed => ready_parents(jobs, entries, jobs[job_id@].job.agent_of()),
            JobConclusion::Other => Seq::empty(),
        }
    }
}

/// Reacts to the end of a job: the agents to resume.
pub fn on_job_terminated(state: &ControlPlaneState, job_id: JobId, end: JobConclusion) -> (r: Vec<
    GlobalAgentId,
>)
    ensures
        r@ == resumed_by_end(state.jobs@, state.jobs.entries(), job_id, end),
        !state.jobs@.contains_key(job_id@) || end == JobConclusion::Other ==> r@.len() == 0,
        state.jobs@.contains_key(job_id@) && end == JobConclusion::RunExhausted ==> r@.len() == 1
            && state.jobs@[job_id@].job.kind == JobKind::RunAgent(r@[0]),
        state.jobs@.contains_key(job_id@) && end == JobConclusion::Completed ==> forall|
            agent: GlobalAgentId,
        | #[trigger]
            r@.contains(agent) <==> exists|j: u128| #[trigger]
                state.jobs@.contains_key(j) && {
                    &&& state.jobs@[j].job.kind == JobKind::RunAgent(agent)
                    &&& state.jobs@[j].state matches JobState::Yielded {
                        reason: YieldStatus::WaitingChildren { children },
                    }
                    &&& exists|c: int| 0 <= c < children@.len() && state.jobs@[job_id@].job.kind
                            == JobKind::RunAgent(#[trigger] children@[c])
                    &&& forall|c: int|
                        0 <= c < children@.len() ==> exists|d: u128| #[trigger]
                            state.jobs@.contains_key(d) && state.jobs@[d].job.kind == JobKind::RunAgent(
                                #[trigger] children@[c],
                            ) && state.jobs@[d].state is Completed
                },
{
    let mut r: Vec<GlobalAgentId> = Vec::new();
    match state.jobs.get(&job_id) {
        None => r,
        Some(record) => {
            let agent = record.job.agent();
            match end {
                JobConclusion::RunExhausted => {
                    r.push(agent);
                    assert(r@ =~= seq![agent]);
                    r
                },
                JobConclusion::Completed => resume_orchestration_parents(state, agent),
                JobConclusion::Other => r,
            }
        },
    }
}

/// Since when this node has seen an agent without a resumption in flight, and
/// how often it resumed it. Local and not replicated.
#[derive(Debug, Clone, Copy, PartialEq, Eq, Structural)]
pub struct YieldWatch {
    /// In milliseconds.
    pub first_seen: u64,
    pub attempts: u32,
}

/// What a pass of the watchdog builds up.
pub struct WatchPass {
    pub watch: Map<(u128, u128), YieldWatch>,
    pub seen: Set<(u128, u128)>,
    pub resumed: Seq<GlobalAgentId>,
}

/// What one job does to a pass at time `now`.
///
/// Only a yielded job counts, and only of an agent without a job in flight.
/// Its agent is watched from then on. Once it has been watched for long enough
/// it is resumed, a bounded number of times; but never where it waits for a
/// reply, which may still come.
pub open spec fn watch_record(
    jobs: Map<u128, JobRecord>,
    record: JobRecord,
    now: u64,
    pass: WatchPass,
) -> WatchPass {
    let agent = record.job.agent_of();
    match record.state {
        JobState::Yielded { reason } => if has_active_job(jobs, agent) {
            pass
        } else {
            let entry = if pass.watch.contains_key(agent@) {
                pass.watch[agent@]
            } else {
                YieldWatch { first_seen: now, attempts: 0 }
            };
            let seen = pass.seen.insert(agent@);
            if entry.attempts >= MAX_WATCHDOG_RESUME_ATTEMPTS || now - entry.first_seen
                < YIELD_WATCHDOG_TIMEOUT_MS {
                WatchPass { watch: pass.watch.insert(agent@, entry), seen, resumed: pass.resumed }
            } else {
                WatchPass {
                    watch: pass.watch.insert(
                        agent@,
                        YieldWatch { first_seen: now, attempts: (entry.attempts + 1) as u32 },
                    ),
                    seen,
                    resumed: if reason is WaitingToolReply {
                        pass.resumed
                    } else {
                        pass.resumed.push(agent)
                    },
                }
            }
        },
        _ => pass,
    }
}

/// What all jobs do to a pass, in order.
pub open spec fn watch_pass(
    jobs: Map<u128, JobRecord>,
    entries: Seq<(JobId, JobRecord)>,
    now: u64,
    watch: Map<(u128, u128), YieldWatch>,
) -> WatchPass
    decreases entries.len(),
{
    if entries.len() == 0 {
        WatchPass { watch, seen: Set::empty(), resumed: Seq::empty() }
    } else {
        watch_record(
            jobs,
            entries.last().1,
            now,
            watch_pass(jobs, entries.drop_last(), now, watch),
        )
    }
}

/// Whether `list` holds `agent`.
fn contains_agent(list: &Vec<GlobalAgentId>, agent: &GlobalAgentId) -> (r: bool)
    ensures
        r == list@.contains(*agent),
{
    let mut i: usize = 0;
    while i < list.len()
        invariant
            i <= list@.len(),
            forall|k: int| 0 <= k < i ==> list@[k] != *agent,
        decreases list@.len() - i,
    {
        if list[i] == *agent {
            return true;
        }
        i = i + 1;
    }
    false
}

/// Whether `agents` are exactly those whose identifiers `ids` holds.
spec fn same_agents(agents: Seq<GlobalAgentId>, ids: Set<(u128, u128)>) -> bool {
    forall|a: GlobalAgentId| #[trigger] agents.contains(a) <==> ids.contains(a@)
}

/// Drops what is watched of agents other than `seen`.
fn forget_others(watch: &mut Table<GlobalAgentId, YieldWatch>, seen: &Vec<GlobalAgentId>)
    ensures
        forall|a: GlobalAgentId| #[trigger]
            final(watch)@.contains_key(a@) <==> old(watch)@.contains_key(a@) && seen@.contains(a),
        forall|a: GlobalAgentId| #[trigger]
            final(watch)@.contains_key(a@) ==> final(watch)@[a@] == old(watch)@[a@],
{
    let ghost before = watch.entries();
    let n: usize = watch.len();
    let mut kept: Table<GlobalAgentId, YieldWatch> = Table::new();
    let mut i: usize = 0;
    while i < n
        invariant
            i <= n,
            n == before.len(),
            before == watch.entries(),
            *watch == *old(watch),
            crate::collections::distinct_keys(before),
            forall|a: GlobalAgentId| #[trigger]
                kept@.contains_key(a@) <==> seen@.contains(a) && exists|k: int|
                    0 <= k < i && (#[trigger] before[k]).0 == a,
            forall|k: int|
                0 <= k < i && kept@.contains_key((#[trigger] before[k]).0@)
                    ==> kept@[before[k].0@] == before[k].1,
        decreases n - i,
    {
        let agent = *watch.key_at(i);
        let entry = *watch.value_at(i);
        let ghost k0 = kept@;
        if contains_agent(seen, &agent) {
            let _ = kept.insert(agent, entry);
        }
        proof {
            assert forall|a: GlobalAgentId| #[trigger]
                kept@.contains_key(a@) <==> seen@.contains(a) && exists|k: int|
                    0 <= k < i + 1 && (#[trigger] before[k]).0 == a by {
                assert(a@ == agent@ ==> a == agent);
                if exists|k: int| 0 <= k < i && (#[trigger] before[k]).0 == a {
                    let k = choose|k: int| 0 <= k < i && (#[trigger] before[k]).0 == a;
                    assert(0 <= k < i + 1 && before[k].0 == a);
                }
                if a == agent {
                    assert(before[i as int].0 == a);
                }
                assert(k0.contains_key(a@) <==> seen@.contains(a) && exists|k: int|
                    0 <= k < i && (#[trigger] before[k]).0 == a);
            }
            assert forall|k: int|
                0 <= k < i + 1 && kept@.contains_key(
                    (#[trigger] before[k]).0@,
                ) implies kept@[before[k].0@] == before[k].1 by {
                if k < i {
                    assert(before[k].0@ != before[i as int].0@);
                    assert(k0.contains_key(before[k].0@));
                }
            }
        }
        i = i + 1;
    }
    proof {
        assert forall|a: GlobalAgentId| #[trigger]
            kept@.contains_key(a@) <==> watch@.contains_key(a@) && seen@.contains(a) by {
            if watch@.contains_key(a@) {
                assert(crate::collections::has_key(before, a@));
                let k = crate::collections::key_index(before, a@);
                assert(before[k].0@ == a@);
                assert(before[k].0 == a);
            }
            if exists|k: int| 0 <= k < n && (#[trigger] before[k]).0 == a {
                let k = choose|k: int| 0 <= k < n && (#[trigger] before[k]).0 == a;
                assert(watch@.contains_key(before[k].0@));
            }
        }
        assert forall|a: GlobalAgentId| #[trigger] kept@.contains_key(a@) implies kept@[a@]
            == watch@[a@] by {
            assert(watch@.contains_key(a@));
            assert(crate::collections::has_key(before, a@));
            let k = crate::collections::key_index(before, a@);
            assert(before[k].0@ == a@);
            assert(watch@[before[k].0@] == before[k].1);
        }
    }
    *watch = kept;
}

/// One pass of the watchdog over yielded jobs that nothing resumed: the agents
/// to resume now. What is watched of agents that are no longer stuck is
/// forgotten.
pub fn watch_stuck_yields(
    state: &ControlPlaneState,
    watch: &mut Table<GlobalAgentId, YieldWatch>,
    now: u64,
) -> (r: Vec<GlobalAgentId>)
    ensures
        ({
            let pass = watch_pass(state.jobs@, state.jobs.entries(), now, old(watch)@);
            &&& r@ == pass.resumed
            &&& final(watch)@ == pass.watch.restrict(pass.seen)
        }),
{
    let ghost jobs = state.jobs.entries();
    let ghost start = watch@;
    let n: usize = state.jobs.len();
    let mut seen: Vec<GlobalAgentId> = Vec::new();
    let mut resumed: Vec<GlobalAgentId> = Vec::new();
    let mut i: usize = 0;
    while i < n
        invariant
            i <= n,
            n == jobs.len(),
            jobs == state.jobs.entries(),
            start == old(watch)@,
            watch@ == watch_pass(state.jobs@, jobs.take(i as int), now, start).watch,
            resumed@ == watch_pass(state.jobs@, jobs.take(i as int), now, start).resumed,
            same_agents(
                seen@,
                watch_pass(state.jobs@, jobs.take(i as int), now, start).seen,
            ),
        decreases n - i,
    {
        let record = state.jobs.value_at(i);
        let agent = record.job.agent();
        let ghost pass = watch_pass(state.jobs@, jobs.take(i as int), now, start);
        assert(jobs.take(i + 1).drop_last() =~= jobs.take(i as int));
        match &record.state {
            JobState::Yielded { reason } => {
                if !agent_has_active_job(state, agent) {
                    let ghost s = seen@;
                    seen.push(agent);
                    proof {
                        assert forall|a: GlobalAgentId| #[trigger]
                            seen@.contains(a) <==> pass.seen.insert(agent@).contains(a@) by {
                            assert(a@ == agent@ ==> a == agent);
                            if s.contains(a) {
                                let k = choose|k: int| 0 <= k < s.len() && s[k] == a;
                                assert(seen@[k] == a);
                            }
                            if a == agent {
                                assert(seen@[s.len() as int] == a);
                            }
                            if seen@.contains(a) && a != agent {
                                let k = choose|k: int| 0 <= k < seen@.len() && seen@[k] == a;
                                assert(s[k] == a);
                            }
                        }
                    }
                    let entry = match watch.get(&agent) {
                        Some(entry) => *entry,
                        None => YieldWatch { first_seen: now, attempts: 0 },
                    };
                    let elapsed: u64 = if now >= entry.first_seen {
                        now - entry.first_seen
                    } else {
                        0
                    };
                    if entry.attempts >= MAX_WATCHDOG_RESUME_ATTEMPTS || elapsed
                        < YIELD_WATCHDOG_TIMEOUT_MS {
                        let _ = watch.insert(agent, entry);
                    } else {
                        let attempts: u32 = entry.attempts + 1;
                        let _ = watch.insert(agent, YieldWatch { first_seen: now, attempts });
                        match reason {
                            YieldStatus::WaitingToolReply { .. } => {},
                            _ => resumed.push(agent),
                        }
                    }
                }
            },
            _ => {},
        }
        i = i + 1;
    }
    assert(jobs.take(i as int) =~= jobs);
    let ghost pass = watch_pass(state.jobs@, jobs, now, start);
    forget_others(watch, &seen);
    proof {
        assert forall|k: (u128, u128)| #[trigger]
            watch@.contains_key(k) <==> pass.watch.restrict(pass.seen).contains_key(k) by {
            let a = GlobalAgentId { session: crate::id::SessionId(ID(k.0)), agent: ID(k.1) };
            assert(a@ == k);
            assert(watch@.contains_key(a@) <==> pass.watch.contains_key(a@) && seen@.contains(a));
        }
        assert forall|k: (u128, u128)| #[trigger] watch@.contains_key(k) implies watch@[k]
            == pass.watch.restrict(pass.seen)[k] by {
            let a = GlobalAgentId { session: crate::id::SessionId(ID(k.0)), agent: ID(k.1) };
            assert(a@ == k);
            assert(watch@.contains_key(a@));
        }
        assert(watch@ =~= pass.watch.restrict(pass.seen));
    }
    resumed
}

/// Whether `agent` yielded, has nothing in flight, and waits for no reply.
pub open spec fn is_stuck(
    jobs: Map<u128, JobRecord>,
    entries: Seq<(JobId, JobRecord)>,
    agent: GlobalAgentId,
) -> bool {
    &&& !has_active_job(jobs, agent)
    &&& exists|i: int|
        {
            &&& 0 <= i < entries.len()
            &&& (#[trigger] entries[i]).1.job.agent_of() == agent
            &&& entries[i].1.state matches JobState::Yielded { reason }
            &&& !(reason is WaitingToolReply)
        }
}

/// The watchdog resumes only agents that are stuck: never one that has a job
/// in flight, nor one that only waits for a reply. It resumes none of them
/// twice in one pass.
pub proof fn lemma_watchdog_resumes_stuck_agents_once(
    jobs: Map<u128, JobRecord>,
    entries: Seq<(JobId, JobRecord)>,
    now: u64,
    watch: Map<(u128, u128), YieldWatch>,
)
    ensures
        watch_pass(jobs, entries, now, watch).resumed.no_duplicates(),
        forall|a: GlobalAgentId| #[trigger]
            watch_pass(jobs, entries, now, watch).resumed.contains(a) ==> is_stuck(jobs, entries, a),
{
    lemma_resumed_agents(jobs, entries, now, watch);
}

proof fn lemma_resumed_agents(
    jobs: Map<u128, JobRecord>,
    entries: Seq<(JobId, JobRecord)>,
    now: u64,
    watch: Map<(u128, u128), YieldWatch>,
)
    ensures
        watch_pass(jobs, entries, now, watch).resumed.no_duplicates(),
        forall|a: GlobalAgentId| #[trigger]
            watch_pass(jobs, entries, now, watch).resumed.contains(a) ==> {
                &&& is_stuck(jobs, entries, a)
                &&& watch_pass(jobs, entries, now, watch).watch.contains_key(a@)
                &&& watch_pass(jobs, entries, now, watch).watch[a@].first_seen == now
            },
    decreases entries.len(),
{
    if entries.len() > 0 {
        let front = entries.drop_last();
        let record = entries.last().1;
        let agent = record.job.agent_of();
        let p = watch_pass(jobs, front, now, watch);
        let q = watch_pass(jobs, entries, now, watch);
        lemma_resumed_agents(jobs, front, now, watch);
        assert forall|a: GlobalAgentId| #[trigger] p.resumed.contains(a) implies is_stuck(
            jobs,
            entries,
            a,
        ) by {
            assert(is_stuck(jobs, front, a));
            let i = choose|i: int|
                {
                    &&& 0 <= i < front.len()
                    &&& (#[trigger] front[i]).1.job.agent_of() == a
                    &&& front[i].1.state matches JobState::Yielded { reason }
                    &&& !(reason is WaitingToolReply)
                };
            assert(entries[i].1.job.agent_of() == a);
        }
        if q.resumed != p.resumed {
            assert(q.resumed == p.resumed.push(agent));
            if p.resumed.contains(agent) {
                assert(p.watch[agent@].first_seen == now);
            }
            assert(entries[entries.len() - 1].1.job.agent_of() == agent);
            assert(is_stuck(jobs, entries, agent));
            assert forall|i: int, j: int|
                0 <= i < q.resumed.len() && 0 <= j < q.resumed.len() && i
                    != j implies q.resumed[i] != q.resumed[j] by {
                if i == p.resumed.len() {
                    assert(p.resumed.contains(p.resumed[j]));
                } else if j == p.resumed.len() {
                    assert(p.resumed.contains(p.resumed[i]));
                }
            }
        }
        assert forall|a: GlobalAgentId| #[trigger] q.resumed.contains(a) implies {
            &&& is_stuck(jobs, entries, a)
            &&& q.watch.contains_key(a@)
            &&& q.watch[a@].first_seen == now
        } by {
            let i = choose|i: int| 0 <= i < q.resumed.len() && q.resumed[i] == a;
            assert(a@ == agent@ ==> a == agent);
            if i < p.resumed.len() {
                assert(p.resumed[i] == a);
                assert(p.resumed.contains(a));
            }
        }
    }
}

/// The watchdog never counts beyond its bound, and an agent that it has
/// resumed that often is not resumed again.
pub proof fn lemma_watchdog_gives_up(
    jobs: Map<u128, JobRecord>,
    entries: Seq<(JobId, JobRecord)>,
    now: u64,
    watch: Map<(u128, u128), YieldWatch>,
)
    requires
        forall|k: (u128, u128)| #[trigger]
            watch.contains_key(k) ==> watch[k].attempts <= MAX_WATCHDOG_RESUME_ATTEMPTS,
    ensures
        forall|k: (u128, u128)| #[trigger]
            watch_pass(jobs, entries, now, watch).watch.contains_key(k) ==> watch_pass(
                jobs,
                entries,
                now,
                watch,
            ).watch[k].attempts <= MAX_WATCHDOG_RESUME_ATTEMPTS,
        forall|a: GlobalAgentId| #[trigger]
            watch.contains_key(a@) && watch[a@].attempts == MAX_WATCHDOG_RESUME_ATTEMPTS
                ==> !watch_pass(jobs, entries, now, watch).resumed.contains(a) && watch_pass(
                jobs,
                entries,
                now,
                watch,
            ).watch.contains_key(a@) && watch_pass(jobs, entries, now, watch).watch[a@] == watch[a@],
    decreases entries.len(),
{
    let q = watch_pass(jobs, entries, now, watch);
    if entries.len() > 0 {
        let front = entries.drop_last();
        let agent = entries.last().1.job.agent_of();
        let p = watch_pass(jobs, front, now, watch);
        lemma_watchdog_gives_up(jobs, front, now, watch);
        assert forall|a: GlobalAgentId| #[trigger]
            watch.contains_key(a@) && watch[a@].attempts == MAX_WATCHDOG_RESUME_ATTEMPTS implies !q.resumed.contains(a) && q.watch.contains_key(a@)
            && q.watch[a@] == watch[a@] by {
            assert(!p.resumed.contains(a));
            assert(p.watch[a@] == watch[a@]);
            assert(a@ == agent@ ==> a == agent);
            if q.resumed.contains(a) {
                let i = choose|i: int| 0 <= i < q.resumed.len() && q.resumed[i] == a;
                if i < p.resumed.len() {
                    assert(p.resumed[i] == a);
                }
            }
        }
    } else {
        assert(q.resumed =~= Seq::<GlobalAgentId>::empty());
    }
}

/// The answer of a human resumes exactly the agents that have a job which
/// yielded to wait for it.
pub proof fn lemma_answer_resumes_who_waits(
    entries: Seq<(JobId, JobRecord)>,
    tool_call: ID,
    agent: GlobalAgentId,
)
    ensures
        waiting_agents(entries, tool_call).contains(agent) <==> exists|i: int|
            0 <= i < entries.len() && (#[trigger] entries[i]).1.job.agent_of() == agent && waits_for_reply(entries[i].1, tool_call),
    decreases entries.len(),
{
    if entries.len() == 0 {
        assert(!waiting_agents(entries, tool_call).contains(agent));
    } else {
        let front = entries.drop_last();
        let last = entries.len() - 1;
        let before = waiting_agents(front, tool_call);
        let all = waiting_agents(entries, tool_call);
        lemma_answer_resumes_who_waits(
            front,
            tool_call,
            agent,
        );
        if before.contains(agent) {
            let k = choose|k: int| 0 <= k < before.len() && before[k] == agent;
            assert(all[k] == agent);
            let i = choose|i: int|
                0 <= i < front.len() && (#[trigger] front[i]).1.job.agent_of() == agent && waits_for_reply(front[i].1, tool_call);
            assert(entries[i] == front[i]);
        }
        if waits_for_reply(entries.last().1, tool_call) {
            assert(all == before.push(entries.last().1.job.agent_of()));
            assert(all[all.len() - 1] == entries[last].1.job.agent_of());
            if all.contains(agent) && !before.contains(agent) {
                let k = choose|k: int| 0 <= k < all.len() && all[k] == agent;
                assert(k == all.len() - 1 || before[k] == agent);
                assert(entries[last].1.job.agent_of() == agent);
            }
        }
        if exists|i: int|
            0 <= i < entries.len() && (#[trigger] entries[i]).1.job.agent_of() == agent && waits_for_reply(entries[i].1, tool_call) {
            let i = choose|i: int|
                0 <= i < entries.len() && (#[trigger] entries[i]).1.job.agent_of() == agent && waits_for_reply(entries[i].1, tool_call);
            if i < last {
                assert(front[i].1.job.agent_of() == agent);
            }
        }
    }
}

/// The completion of a child resumes exactly the agents that have a job which
/// yielded to wait for children, that one among them, and whose children are
/// all done: a parent with a child still at work is not resumed, and the last
/// child to complete resumes it.
pub proof fn lemma_parents_wait_for_all_children(
    jobs: Map<u128, JobRecord>,
    entries: Seq<(JobId, JobRecord)>,
    completed: GlobalAgentId,
    agent: GlobalAgentId,
)
    ensures
        ready_parents(jobs, entries, completed).contains(agent) <==> exists|i: int|
            0 <= i < entries.len() && (#[trigger] entries[i]).1.job.agent_of() == agent && is_ready_parent(jobs, entries[i].1, completed),
    decreases entries.len(),
{
    if entries.len() == 0 {
        assert(!ready_parents(jobs, entries, completed).contains(agent));
    } else {
        let front = entries.drop_last();
        let last = entries.len() - 1;
        let before = ready_parents(jobs, front, completed);
        let all = ready_parents(jobs, entries, completed);
        lemma_parents_wait_for_all_children(
            jobs,
            front,
            completed,
            agent,
        );
        if before.contains(agent) {
            let k = choose|k: int| 0 <= k < before.len() && before[k] == agent;
            assert(all[k] == agent);
            let i = choose|i: int|
                0 <= i < front.len() && (#[trigger] front[i]).1.job.agent_of() == agent && is_ready_parent(jobs, front[i].1, completed);
            assert(entries[i] == front[i]);
        }
        if is_ready_parent(jobs, entries.last().1, completed) {
            assert(all == before.push(entries.last().1.job.agent_of()));
            assert(all[all.len() - 1] == entries[last].1.job.agent_of());
            if all.contains(agent) && !before.contains(agent) {
                let k = choose|k: int| 0 <= k < all.len() && all[k] == agent;
                assert(k == all.len() - 1 || before[k] == agent);
                assert(entries[last].1.job.agent_of() == agent);
            }
        }
        if exists|i: int|
            0 <= i < entries.len() && (#[trigger] entries[i]).1.job.agent_of() == agent && is_ready_parent(jobs, entries[i].1, completed) {
            let i = choose|i: int|
                0 <= i < entries.len() && (#[trigger] entries[i]).1.job.agent_of() == agent && is_ready_parent(jobs, entries[i].1, completed);
            if i < last {
                assert(front[i].1.job.agent_of() == agent);
            }
        }
    }
}

/// What the watchdog does for one agent, by the jobs and by what was watched
/// before.
///
/// An agent is watched exactly while it has a yielded job and none that waits
/// for a worker or is on one. It is due once it has been watched for two
/// minutes without having been resumed three times. A due agent is resumed where
/// the first of its yielded jobs waits for no reply; resumed or not, it is then
/// watched anew, with one attempt more. An agent that is not due stays as it was
/// watched, or is watched from now on.
pub proof fn lemma_watchdog_decides(
    jobs: Map<u128, JobRecord>,
    entries: Seq<(JobId, JobRecord)>,
    now: u64,
    watch: Map<(u128, u128), YieldWatch>,
    agent: GlobalAgentId,
)
    ensures
        ({
            let pass = watch_pass(jobs, entries, now, watch);
            let idle = forall|j: u128| #[trigger]
                jobs.contains_key(j) && jobs[j].job.kind == JobKind::RunAgent(agent) ==> !(
                jobs[j].state is Pending || jobs[j].state is Scheduled || jobs[j].state is Running);
            let due = watch.contains_key(agent@) && watch[agent@].attempts < 3 && now
                - watch[agent@].first_seen >= 120_000;
            &&& pass.seen.contains(agent@) <==> idle && exists|i: int|
                0 <= i < entries.len() && (#[trigger] entries[i]).1.job.kind == JobKind::RunAgent(
                    agent,
                ) && entries[i].1.state is Yielded
            &&& pass.seen.contains(agent@) ==> pass.watch.contains_key(agent@)
                && pass.watch[agent@] == (if due {
                YieldWatch { first_seen: now, attempts: (watch[agent@].attempts + 1) as u32 }
            } else if watch.contains_key(agent@) {
                watch[agent@]
            } else {
                YieldWatch { first_seen: now, attempts: 0 }
            })
            &&& pass.resumed.contains(agent) <==> idle && due && exists|i: int|
                {
                    &&& 0 <= i < entries.len()
                    &&& (#[trigger] entries[i]).1.job.kind == JobKind::RunAgent(agent)
                    &&& entries[i].1.state matches JobState::Yielded { reason }
                    &&& !(reason is WaitingToolReply)
                    &&& forall|k: int|
                        0 <= k < i ==> !((#[trigger] entries[k]).1.job.kind == JobKind::RunAgent(
                            agent,
                        ) && entries[k].1.state is Yielded)
                }
        }),
{
    let idle = forall|j: u128| #[trigger]
        jobs.contains_key(j) && jobs[j].job.kind == JobKind::RunAgent(agent) ==> !(
        jobs[j].state is Pending || jobs[j].state is Scheduled || jobs[j].state is Running);
    assert(idle == !has_active_job(jobs, agent)) by {
        if has_active_job(jobs, agent) {
            let j = choose|j: u128| #[trigger]
                jobs.contains_key(j) && jobs[j].job.agent_of() == agent
                    && jobs[j].state.is_active();
            assert(jobs[j].job.kind == JobKind::RunAgent(agent));
        } else {
            assert forall|j: u128| #[trigger]
                jobs.contains_key(j) && jobs[j].job.kind == JobKind::RunAgent(agent) implies !(
            jobs[j].state is Pending || jobs[j].state is Scheduled || jobs[j].state is Running) by {
                assert(jobs[j].job.agent_of() == agent);
            }
        }
    }
    lemma_watched_prefix(jobs, entries, now, watch, agent);
}

/// Whether the job of `record` is one of `agent` that yielded.
spec fn yielded_of(record: JobRecord, agent: GlobalAgentId) -> bool {
    record.job.kind == JobKind::RunAgent(agent) && record.state is Yielded
}

proof fn lemma_watched_prefix(
    jobs: Map<u128, JobRecord>,
    entries: Seq<(JobId, JobRecord)>,
    now: u64,
    watch: Map<(u128, u128), YieldWatch>,
    agent: GlobalAgentId,
)
    ensures
        ({
            let pass = watch_pass(jobs, entries, now, watch);
            let idle = !has_active_job(jobs, agent);
            let due = watch.contains_key(agent@) && watch[agent@].attempts < 3 && now
                - watch[agent@].first_seen >= 120_000;
            let any = exists|i: int|
                0 <= i < entries.len() && yielded_of((#[trigger] entries[i]).1, agent);
            &&& pass.seen.contains(agent@) <==> idle && any
            &&& !pass.seen.contains(agent@) ==> (pass.watch.contains_key(agent@)
                == watch.contains_key(agent@)) && (watch.contains_key(agent@)
                ==> pass.watch[agent@] == watch[agent@])
            &&& pass.seen.contains(agent@) ==> pass.watch.contains_key(agent@)
                && pass.watch[agent@] == (if due {
                YieldWatch { first_seen: now, attempts: (watch[agent@].attempts + 1) as u32 }
            } else if watch.contains_key(agent@) {
                watch[agent@]
            } else {
                YieldWatch { first_seen: now, attempts: 0 }
            })
            &&& pass.resumed.contains(agent) <==> idle && due && exists|i: int|
                {
                    &&& 0 <= i < entries.len()
                    &&& yielded_of((#[trigger] entries[i]).1, agent)
                    &&& !(entries[i].1.state->reason is WaitingToolReply)
                    &&& forall|k: int|
                        0 <= k < i ==> !yielded_of((#[trigger] entries[k]).1, agent)
                }
        }),
    decreases entries.len(),
{
    if entries.len() > 0 {
        let front = entries.drop_last();
        let last = entries.len() - 1;
        let record = entries.last().1;
        let other = record.job.agent_of();
        let p = watch_pass(jobs, front, now, watch);
        let q = watch_pass(jobs, entries, now, watch);
        lemma_watched_prefix(jobs, front, now, watch, agent);
        assert(agent@ == other@ ==> agent == other);
        assert forall|i: int| 0 <= i < front.len() implies #[trigger] front[i] == entries[i] by {}
        assert((exists|i: int| 0 <= i < entries.len() && yielded_of((#[trigger] entries[i]).1, agent))
            <==> (exists|i: int| 0 <= i < front.len() && yielded_of((#[trigger] front[i]).1, agent))
            || yielded_of(record, agent)) by {
            if exists|i: int| 0 <= i < front.len() && yielded_of((#[trigger] front[i]).1, agent) {
                let i = choose|i: int|
                    0 <= i < front.len() && yielded_of((#[trigger] front[i]).1, agent);
                assert(yielded_of(entries[i].1, agent));
            }
            if yielded_of(record, agent) {
                assert(yielded_of(entries[last].1, agent));
            }
            if exists|i: int| 0 <= i < entries.len() && yielded_of((#[trigger] entries[i]).1, agent) {
                let i = choose|i: int|
                    0 <= i < entries.len() && yielded_of((#[trigger] entries[i]).1, agent);
                if i < last {
                    assert(yielded_of(front[i].1, agent));
                }
            }
        }
        let first_in_front = exists|i: int|
            {
                &&& 0 <= i < front.len()
                &&& yielded_of((#[trigger] front[i]).1, agent)
                &&& !(front[i].1.state->reason is WaitingToolReply)
                &&& forall|k: int| 0 <= k < i ==> !yielded_of((#[trigger] front[k]).1, agent)
            };
        let first_in_all = exists|i: int|
            {
                &&& 0 <= i < entries.len()
                &&& yielded_of((#[trigger] entries[i]).1, agent)
                &&& !(entries[i].1.state->reason is WaitingToolReply)
                &&& forall|k: int| 0 <= k < i ==> !yielded_of((#[trigger] entries[k]).1, agent)
            };
        let any_in_front = exists|i: int|
            0 <= i < front.len() && yielded_of((#[trigger] front[i]).1, agent);
        assert(first_in_all <==> first_in_front || (!any_in_front && yielded_of(record, agent) && !(
        record.state->reason is WaitingToolReply))) by {
            if first_in_front {
                let i = choose|i: int|
                    {
                        &&& 0 <= i < front.len()
                        &&& yielded_of((#[trigger] front[i]).1, agent)
                        &&& !(front[i].1.state->reason is WaitingToolReply)
                        &&& forall|k: int|
                            0 <= k < i ==> !yielded_of((#[trigger] front[k]).1, agent)
                    };
                assert(yielded_of(entries[i].1, agent));
                assert forall|k: int| 0 <= k < i implies !yielded_of(
                    (#[trigger] entries[k]).1,
                    agent,
                ) by {
                    assert(front[k] == entries[k]);
                }
            }
            if !any_in_front && yielded_of(record, agent) && !(record.state->reason
                is WaitingToolReply) {
                assert(yielded_of(entries[last].1, agent));
                assert forall|k: int| 0 <= k < last implies !yielded_of(
                    (#[trigger] entries[k]).1,
                    agent,
                ) by {
                    assert(front[k] == entries[k]);
                }
            }
            if first_in_all {
                let i = choose|i: int|
                    {
                        &&& 0 <= i < entries.len()
                        &&& yielded_of((#[trigger] entries[i]).1, agent)
                        &&& !(entries[i].1.state->reason is WaitingToolReply)
                        &&& forall|k: int|
                            0 <= k < i ==> !yielded_of((#[trigger] entries[k]).1, agent)
                    };
                if i < last {
                    assert(yielded_of(front[i].1, agent));
                    assert forall|k: int| 0 <= k < i implies !yielded_of(
                        (#[trigger] front[k]).1,
                        agent,
                    ) by {
                        assert(front[k] == entries[k]);
                    }
                } else {
                    assert forall|k: int| 0 <= k < front.len() implies !yielded_of(
                        (#[trigger] front[k]).1,
                        agent,
                    ) by {
                        assert(front[k] == entries[k]);
                    }
                }
            }
        }
        lemma_push_contains(p.resumed, other, agent);
    }
}

/// How a job ended is told from its state alone: its run was used up exactly
/// where it yielded for that reason, it completed exactly where it has a
/// result, and everything else resumes nobody.
pub proof fn lemma_conclusions(state: JobState)
    ensures
        conclusion_of(state) == JobConclusion::RunExhausted <==> state == (JobState::Yielded {
            reason: YieldStatus::RunExhausted,
        }),
        conclusion_of(state) == JobConclusion::Completed <==> state is Completed,
{
}

/// The answer of a human resumes one agent for each job that yielded to wait
/// for it, in the order of the jobs: `at` are the positions of those jobs.
pub proof fn lemma_answered_jobs(entries: Seq<(JobId, JobRecord)>, tool_call: ID) -> (at: Seq<int>)
    ensures
        ascending(at, entries.len() as int),
        at.len() == waiting_agents(entries, tool_call).len(),
        forall|k: int|
            0 <= k < at.len() ==> entries[#[trigger] at[k]].1.job.kind == JobKind::RunAgent(
                waiting_agents(entries, tool_call)[k],
            ),
        forall|i: int| #[trigger]
            at.contains(i) <==> 0 <= i < entries.len() && entries[i].1.state
                == (JobState::Yielded {
                reason: YieldStatus::WaitingToolReply { tool_call_id: tool_call },
            }),
    decreases entries.len(),
{
    if entries.len() == 0 {
        Seq::empty()
    } else {
        let front = entries.drop_last();
        let n = front.len() as int;
        let before = lemma_answered_jobs(front, tool_call);
        lemma_ascending_push(before, n);
        assert forall|i: int| 0 <= i < n implies front[i] == entries[i] by {}
        if entries.last().1.state == (JobState::Yielded {
            reason: YieldStatus::WaitingToolReply { tool_call_id: tool_call },
        }) {
            before.push(n)
        } else {
            before
        }
    }
}

/// The completion of an agent resumes one agent for each job that yielded to
/// wait for children, that agent among them, all of which have a completed job,
/// in the order of the jobs: `at` are the positions of those jobs.
pub proof fn lemma_ready_jobs(
    jobs: Map<u128, JobRecord>,
    entries: Seq<(JobId, JobRecord)>,
    completed: GlobalAgentId,
) -> (at: Seq<int>)
    ensures
        ascending(at, entries.len() as int),
        at.len() == ready_parents(jobs, entries, completed).len(),
        forall|k: int|
            0 <= k < at.len() ==> entries[#[trigger] at[k]].1.job.kind == JobKind::RunAgent(
                ready_parents(jobs, entries, completed)[k],
            ),
        forall|i: int| #[trigger]
            at.contains(i) <==> {
                &&& 0 <= i < entries.len()
                &&& entries[i].1.state matches JobState::Yielded {
                    reason: YieldStatus::WaitingChildren { children },
                }
                &&& exists|c: int| 0 <= c < children@.len() && #[trigger] children@[c] == completed
                &&& forall|c: int|
                    0 <= c < children@.len() ==> exists|j: u128| #[trigger]
                        jobs.contains_key(j) && jobs[j].job.kind == JobKind::RunAgent(
                            #[trigger] children@[c],
                        ) && jobs[j].state is Completed
            },
    decreases entries.len(),
{
    if entries.len() == 0 {
        Seq::empty()
    } else {
        let front = entries.drop_last();
        let n = front.len() as int;
        let before = lemma_ready_jobs(jobs, front, completed);
        lemma_ascending_push(before, n);
        assert forall|i: int| 0 <= i < n implies front[i] == entries[i] by {}
        let record = entries.last().1;
        lemma_ready_parent(jobs, record, completed);
        if is_ready_parent(jobs, record, completed) {
            before.push(n)
        } else {
            before
        }
    }
}

proof fn lemma_ready_parent(
    jobs: Map<u128, JobRecord>,
    record: JobRecord,
    completed: GlobalAgentId,
)
    ensures
        is_ready_parent(jobs, record, completed) <==> {
            &&& record.state matches JobState::Yielded {
                reason: YieldStatus::WaitingChildren { children },
            }
            &&& exists|c: int| 0 <= c < children@.len() && #[trigger] children@[c] == completed
            &&& forall|c: int|
                0 <= c < children@.len() ==> exists|j: u128| #[trigger]
                    jobs.contains_key(j) && jobs[j].job.kind == JobKind::RunAgent(
                        #[trigger] children@[c],
                    ) && jobs[j].state is Completed
        },
{
    match record.state {
        JobState::Yielded { reason: YieldStatus::WaitingChildren { children } } => {
            assert forall|c: int| 0 <= c < children@.len() implies agent_completed(
                jobs,
                #[trigger] children@[c],
            ) == (exists|j: u128| #[trigger]
                jobs.contains_key(j) && jobs[j].job.kind == JobKind::RunAgent(children@[c])
                    && jobs[j].state is Completed) by {
                let child = children@[c];
                if agent_completed(jobs, child) {
                    let j = choose|j: u128| #[trigger]
                        jobs.contains_key(j) && jobs[j].job.agent_of() == child
                            && jobs[j].state is Completed;
                    assert(jobs[j].job.kind == JobKind::RunAgent(child));
                }
            }
        },
        _ => {},
    }
}

/// The answer of a human resumes exactly the agents that have a job in the
/// table which yielded to wait for it.
pub proof fn lemma_answer_resumes_by_table(
    jobs: Map<u128, JobRecord>,
    entries: Seq<(JobId, JobRecord)>,
    tool_call: ID,
    agent: GlobalAgentId,
)
    requires
        distinct_keys(entries),
        jobs == entries_map(entries),
    ensures
        waiting_agents(entries, tool_call).contains(agent) <==> exists|j: u128| #[trigger]
            jobs.contains_key(j) && jobs[j].job.kind == JobKind::RunAgent(agent) && jobs[j].state
                == (JobState::Yielded {
                reason: YieldStatus::WaitingToolReply { tool_call_id: tool_call },
            }),
{
    let out = waiting_agents(entries, tool_call);
    let at = lemma_answered_jobs(entries, tool_call);
    if out.contains(agent) {
        let k = out.index_of(agent);
        assert(at.contains(at[k]));
        lemma_entry(entries, at[k]);
        assert(jobs.contains_key(entries[at[k]].0@));
    }
    if exists|j: u128| #[trigger]
        jobs.contains_key(j) && jobs[j].job.kind == JobKind::RunAgent(agent) && jobs[j].state
            == (JobState::Yielded {
            reason: YieldStatus::WaitingToolReply { tool_call_id: tool_call },
        }) {
        let j = choose|j: u128| #[trigger]
            jobs.contains_key(j) && jobs[j].job.kind == JobKind::RunAgent(agent) && jobs[j].state
                == (JobState::Yielded {
                reason: YieldStatus::WaitingToolReply { tool_call_id: tool_call },
            });
        let i = key_index(entries, j);
        assert(has_key(entries, j));
        lemma_entry(entries, i);
        assert(at.contains(i));
        assert(out[at.index_of(i)] == agent);
    }
}

/// The completion of an agent resumes exactly the agents that have a job in the
/// table which yielded to wait for children, that one among them, each of which
/// has a completed job.
pub proof fn lemma_parents_resume_by_table(
    jobs: Map<u128, JobRecord>,
    entries: Seq<(JobId, JobRecord)>,
    completed: GlobalAgentId,
    agent: GlobalAgentId,
)
    requires
        distinct_keys(entries),
        jobs == entries_map(entries),
    ensures
        ready_parents(jobs, entries, completed).contains(agent) <==> exists|j: u128| #[trigger]
            jobs.contains_key(j) && {
                &&& jobs[j].job.kind == JobKind::RunAgent(agent)
                &&& jobs[j].state matches JobState::Yielded {
                    reason: YieldStatus::WaitingChildren { children },
                }
                &&& exists|c: int| 0 <= c < children@.len() && #[trigger] children@[c] == completed
                &&& forall|c: int|
                    0 <= c < children@.len() ==> exists|d: u128| #[trigger]
                        jobs.contains_key(d) && jobs[d].job.kind == JobKind::RunAgent(
                            #[trigger] children@[c],
                        ) && jobs[d].state is Completed
            },
{
    let out = ready_parents(jobs, entries, completed);
    let at = lemma_ready_jobs(jobs, entries, completed);
    assert forall|j: u128| #[trigger] jobs.contains_key(j) implies (is_ready_parent(
        jobs,
        jobs[j],
        completed,
    ) <==> {
        &&& jobs[j].state matches JobState::Yielded {
            reason: YieldStatus::WaitingChildren { children },
        }
        &&& exists|c: int| 0 <= c < children@.len() && #[trigger] children@[c] == completed
        &&& forall|c: int|
            0 <= c < children@.len() ==> exists|d: u128| #[trigger]
                jobs.contains_key(d) && jobs[d].job.kind == JobKind::RunAgent(
                    #[trigger] children@[c],
                ) && jobs[d].state is Completed
    }) by {
        lemma_ready_parent(jobs, jobs[j], completed);
    }
    if out.contains(agent) {
        let k = out.index_of(agent);
        assert(at.contains(at[k]));
        lemma_entry(entries, at[k]);
        assert(jobs.contains_key(entries[at[k]].0@));
    }
    if exists|j: u128| #[trigger]
        jobs.contains_key(j) && jobs[j].job.kind == JobKind::RunAgent(agent) && is_ready_parent(
            jobs,
            jobs[j],
            completed,
        ) {
        let j = choose|j: u128| #[trigger]
            jobs.contains_key(j) && jobs[j].job.kind == JobKind::RunAgent(agent) && is_ready_parent(
                jobs,
                jobs[j],
                completed,
            );
        let i = key_index(entries, j);
        assert(has_key(entries, j));
        lemma_entry(entries, i);
        lemma_ready_parent(jobs, entries[i].1, completed);
        assert(at.contains(i));
        assert(out[at.index_of(i)] == agent);
    }
}

/// What the end of a known job resumes, by the table of jobs: the agent of the
/// job, once, where its run was used up; where it completed, whoever has a job
/// that yielded to wait for children, that agent among them, each of which has
/// a completed job; nobody otherwise, nor where the job is not known.
pub proof fn lemma_end_of_job_resumes(
    jobs: Map<u128, JobRecord>,
    entries: Seq<(JobId, JobRecord)>,
    job_id: JobId,
    end: JobConclusion,
    agent: GlobalAgentId,
)
    requires
        distinct_keys(entries),
        jobs == entries_map(entries),
    ensures
        !jobs.contains_key(job_id@) ==> resumed_by_end(jobs, entries, job_id, end).len() == 0,
        end == JobConclusion::Other ==> resumed_by_end(jobs, entries, job_id, end).len() == 0,
        jobs.contains_key(job_id@) && end == JobConclusion::RunExhausted ==> {
            &&& resumed_by_end(jobs, entries, job_id, end).len() == 1
            &&& jobs[job_id@].job.kind == JobKind::RunAgent(
                resumed_by_end(jobs, entries, job_id, end)[0],
            )
        },
        jobs.contains_key(job_id@) && end == JobConclusion::Completed ==> (resumed_by_end(
            jobs,
            entries,
            job_id,
            end,
        ).contains(agent) <==> exists|j: u128| #[trigger]
            jobs.contains_key(j) && {
                &&& jobs[j].job.kind == JobKind::RunAgent(agent)
                &&& jobs[j].state matches JobState::Yielded {
                    reason: YieldStatus::WaitingChildren { children },
                }
                &&& exists|c: int|
                    0 <= c < children@.len() && jobs[job_id@].job.kind == JobKind::RunAgent(
                        #[trigger] children@[c],
                    )
                &&& forall|c: int|
                    0 <= c < children@.len() ==> exists|d: u128| #[trigger]
                        jobs.contains_key(d) && jobs[d].job.kind == JobKind::RunAgent(
                            #[trigger] children@[c],
                        ) && jobs[d].state is Completed
            }),
{
    if jobs.contains_key(job_id@) && end == JobConclusion::Completed {
        let JobKind::RunAgent(completed) = jobs[job_id@].job.kind;
        lemma_parents_resume_by_table(jobs, entries, completed, agent);
        assert forall|children: Vec<GlobalAgentId>, c: int|
            0 <= c < children@.len() implies (#[trigger] children@[c] == completed <==> jobs[
            job_id@
        ].job.kind == JobKind::RunAgent(children@[c])) by {}
    }
}

} // verus!
