//! Watchdogs: they keep track of jobs, and tell everyone how far those have
//! come.

use crate::collections::Table;
use crate::job::{JobId, JobInstance};
use crate::network::peer::PeerId;
use crate::network::worker::{JobResult, WorkerEvent};
use vstd::prelude::*;

verus! {

/// How far a tracked job has come.
#[derive(Debug, PartialEq)]
pub enum TrackedState {
    Pending,
    Scheduled { worker: PeerId },
    /// The result, as JSON text.
    Completed(String),
    Failed { error: String },
}

impl Clone for TrackedState {
    fn clone(&self) -> (r: Self)
        ensures
            r == *self,
    {
        match self {
            TrackedState::Pending => TrackedState::Pending,
            TrackedState::Scheduled { worker } => TrackedState::Scheduled {
                worker: worker.clone(),
            },
            TrackedState::Completed(value) => TrackedState::Completed(value.clone()),
            TrackedState::Failed { error } => TrackedState::Failed { error: error.clone() },
        }
    }
}

/// What a watchdog knows of a job.
#[derive(Debug, PartialEq)]
pub struct JobTrackerInfo {
    pub job: JobInstance,
    pub state: TrackedState,
    pub retry: u8,
    /// In milliseconds.
    pub expires_at: Option<u64>,
}

/// A job that was just taken on.
pub open spec fn fresh(job: JobInstance) -> JobTrackerInfo {
    JobTrackerInfo { job, state: TrackedState::Pending, retry: 3, expires_at: None }
}

/// A job that has come further.
pub open spec fn advanced(info: JobTrackerInfo, state: TrackedState) -> JobTrackerInfo {
    JobTrackerInfo { job: info.job, state, retry: info.retry, expires_at: info.expires_at }
}

/// The state that a result leads to.
pub open spec fn settled(result: JobResult) -> TrackedState {
    match result {
        JobResult::Success(value) => TrackedState::Completed(value),
        JobResult::Failed(error) => TrackedState::Failed { error },
    }
}

/// A watchdog and the jobs that it tracks.
pub struct WorkerWatchdog {
    pub jobs: Table<JobId, JobTrackerInfo>,
}

impl WorkerWatchdog {
    pub fn new() -> (r: Self)
        ensures
            r.jobs@ == Map::<u128, JobTrackerInfo>::empty(),
    {
        WorkerWatchdog { jobs: Table::new() }
    }

    /// Takes a job on, anew where it was tracked already.
    pub fn watch_job(&mut self, job: JobInstance)
        ensures
            final(self).jobs@ == old(self).jobs@.insert(job.id@, fresh(job)),
    {
        let _ = self.jobs.insert(
            job.id,
            JobTrackerInfo { job, state: TrackedState::Pending, retry: 3, expires_at: None },
        );
    }

    /// How far a job has come, where it is tracked.
    pub fn get_job_state(&self, id: JobId) -> (r: Option<&TrackedState>)
        ensures
            match r {
                Some(state) => self.jobs@.contains_key(id@) && *state == self.jobs@[id@].state,
                None => !self.jobs@.contains_key(id@),
            },
    {
        match self.jobs.get(&id) {
            Some(info) => Some(&info.state),
            None => None,
        }
    }

    /// Starts to schedule a job on the worker that was picked for it: what to
    /// send to whom. Nothing where the job is not tracked, or there is no
    /// worker.
    pub fn schedule_job(&self, id: JobId, worker: Option<PeerId>) -> (r: Option<
        (JobInstance, PeerId),
    >)
        ensures
            r == (match worker {
                Some(worker) if self.jobs@.contains_key(id@) => Some(
                    (self.jobs@[id@].job, worker),
                ),
                _ => None,
            }),
    {
        match self.jobs.get(&id) {
            None => None,
            Some(info) => {
                match worker {
                    None => None,
                    Some(worker) => Some((info.job.clone(), worker)),
                }
            },
        }
    }

    /// The worker accepted the job: its state changes, and everyone is told.
    pub fn on_scheduled(&mut self, id: JobId, worker: PeerId) -> (r: WorkerEvent)
        requires
            old(self).jobs@.contains_key(id@),
        ensures
            final(self).jobs@ == old(self).jobs@.insert(
                id@,
                advanced(old(self).jobs@[id@], TrackedState::Scheduled { worker }),
            ),
            r == (WorkerEvent::JobStateUpdate { id, state: TrackedState::Scheduled { worker } }),
    {
        let announced = TrackedState::Scheduled { worker: worker.clone() };
        match self.jobs.get(&id) {
            Some(info) => {
                let next = JobTrackerInfo {
                    job: info.job.clone(),
                    state: TrackedState::Scheduled { worker },
                    retry: info.retry,
                    expires_at: info.expires_at,
                };
                let _ = self.jobs.insert(id, next);
            },
            None => {
                assert(false);
            },
        }
        WorkerEvent::JobStateUpdate { id, state: announced }
    }

    /// A job is done. Only the watchdog that is competent for it reacts, and
    /// only where it tracks it: the state changes, and everyone is told.
    pub fn update_job_state_upon_result(&mut self, id: JobId, result: JobResult, competent: bool) -> (r:
        Option<WorkerEvent>)
        ensures
            competent && old(self).jobs@.contains_key(id@) ==> {
                &&& final(self).jobs@ == old(self).jobs@.insert(
                    id@,
                    advanced(old(self).jobs@[id@], settled(result)),
                )
                &&& r == Some(WorkerEvent::JobStateUpdate { id, state: settled(result) })
            },
            !(competent && old(self).jobs@.contains_key(id@)) ==> {
                &&& final(self).jobs@ == old(self).jobs@
                &&& r is None
            },
    {
        if !competent {
            return None;
        }
        match self.jobs.get(&id) {
            None => None,
            Some(info) => {
                let state = match result {
                    JobResult::Success(value) => TrackedState::Completed(value),
                    JobResult::Failed(error) => TrackedState::Failed { error },
                };
                let next = JobTrackerInfo {
                    job: info.job.clone(),
                    state: state.clone(),
                    retry: info.retry,
                    expires_at: info.expires_at,
                };
                let _ = self.jobs.insert(id, next);
                Some(WorkerEvent::JobStateUpdate { id, state })
            },
        }
    }
}

/// What a watchdog tells of a job is what it then answers when asked, and jobs
/// that it was not told of stay as they were.
pub proof fn lemma_announced_state_is_answered(
    jobs: Map<u128, JobTrackerInfo>,
    id: JobId,
    other: JobId,
    state: TrackedState,
)
    requires
        jobs.contains_key(id@),
    ensures
        ({
            let after = jobs.insert(id@, advanced(jobs[id@], state));
            &&& after[id@].state == state
            &&& after[id@].job == jobs[id@].job
            &&& other@ != id@ ==> after.contains_key(other@) == jobs.contains_key(other@) && (
            jobs.contains_key(other@) ==> after[other@] == jobs[other@])
        }),
{
}

/// A job is watched from the start as pending, with three retries and no end
/// set.
pub proof fn lemma_watched_job_is_pending(job: JobInstance)
    ensures
        fresh(job).job == job,
        fresh(job).state is Pending,
        fresh(job).retry == 3,
        fresh(job).expires_at is None,
{
}

/// The progress of a job changes its state alone: its retries, its end and the
/// job itself stay.
pub proof fn lemma_progress_changes_the_state(info: JobTrackerInfo, state: TrackedState)
    ensures
        advanced(info, state).state == state,
        advanced(info, state).job == info.job,
        advanced(info, state).retry == info.retry,
        advanced(info, state).expires_at == info.expires_at,
{
}

/// A job that succeeded is completed with its value, and one that failed has
/// failed with its error.
pub proof fn lemma_result_settles(text: String)
    ensures
        settled(JobResult::Success(text)) == TrackedState::Completed(text),
        settled(JobResult::Failed(text)) == (TrackedState::Failed { error: text }),
{
}

} // verus!
