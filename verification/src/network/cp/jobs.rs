//! Jobs as the control plane schedules them.

use crate::id::{GlobalAgentId, SessionId};
use crate::job::JobId;
use crate::mode::executable::YieldStatus;
use crate::network::peer::PeerId;
use vstd::prelude::*;

verus! {

/// What a job does.
#[derive(Debug, Clone, Copy, PartialEq, Eq, Structural)]
pub enum JobKind {
    RunAgent(GlobalAgentId),
}

/// One bounded run. Its life is apart from that of the agent that it runs: an
/// agent is resumed by a new job, never by changing an old one.
#[derive(Debug, Clone, Copy, PartialEq, Eq, Structural)]
pub struct Job {
    pub id: JobId,
    pub kind: JobKind,
}

impl Job {
    /// The agent that the job runs.
    pub open spec fn agent_of(&self) -> GlobalAgentId {
        match self.kind {
            JobKind::RunAgent(agent) => agent,
        }
    }

    /// The agent that the job runs.
    pub fn agent(&self) -> (r: GlobalAgentId)
        ensures
            r == self.agent_of(),
    {
        match self.kind {
            JobKind::RunAgent(agent) => agent,
        }
    }
}

/// How far a job has come.
#[derive(Debug, PartialEq)]
pub enum JobState {
    Pending,
    Scheduled { worker: PeerId },
    Running { worker: PeerId },
    Yielded { reason: YieldStatus },
    /// The result, as JSON text.
    Completed { result: String },
    Failed { error: String },
}

impl JobState {
    /// The worker that the job is scheduled or running on.
    pub open spec fn worker_of(&self) -> Option<Seq<char>> {
        match *self {
            JobState::Scheduled { worker } => Some(worker@),
            JobState::Running { worker } => Some(worker@),
            _ => None,
        }
    }

    /// Whether the job waits for a worker, or is on one.
    pub open spec fn is_active(&self) -> bool {
        self is Pending || self is Scheduled || self is Running
    }

    /// The worker that the job is scheduled or running on.
    pub fn worker(&self) -> (r: Option<&PeerId>)
        ensures
            match r {
                Some(worker) => self.worker_of() == Some(worker@),
                None => self.worker_of() is None,
            },
            r matches Some(worker) ==> (*self == JobState::Scheduled { worker: *worker } || *self
                == JobState::Running { worker: *worker }),
    {
        match self {
            JobState::Scheduled { worker } => Some(worker),
            JobState::Running { worker } => Some(worker),
            _ => None,
        }
    }

    /// Whether the job waits for a worker, or is on one.
    pub fn active(&self) -> (r: bool)
        ensures
            r == self.is_active(),
    {
        match self {
            JobState::Pending => true,
            JobState::Scheduled { .. } => true,
            JobState::Running { .. } => true,
            _ => false,
        }
    }
}

/// A job and how far it has come.
#[derive(Debug, PartialEq)]
pub struct JobRecord {
    pub job: Job,
    pub state: JobState,
}

/// The session that `job` belongs to.
pub open spec fn session_of(job: Job) -> SessionId {
    job.agent_of().session
}

/// The session that `job` belongs to, where its kind belongs to one.
pub fn session_id_of(job: &Job) -> (r: Option<SessionId>)
    ensures
        r == Some(session_of(*job)),
{
    match job.kind {
        JobKind::RunAgent(agent) => Some(agent.session_id()),
    }
}

/// A job is on a worker exactly while it is scheduled or running, and in flight
/// also while it waits for one; what has yielded or ended is neither.
pub proof fn lemma_jobs_in_flight(state: JobState)
    ensures
        state matches JobState::Scheduled { worker } ==> state.worker_of() == Some(worker@),
        state matches JobState::Running { worker } ==> state.worker_of() == Some(worker@),
        state.worker_of() is Some ==> state is Scheduled || state is Running,
        state is Pending || state.worker_of() is Some ==> state.is_active(),
        state is Yielded || state is Completed || state is Failed ==> !state.is_active(),
{
}

/// A job belongs to the agent that it runs, and to the session of that agent.
pub proof fn lemma_whose_job(job: Job, agent: GlobalAgentId)
    ensures
        job.kind == JobKind::RunAgent(agent) ==> job.agent_of() == agent && session_of(job)
            == agent.session,
{
}

} // verus!
