//! Jobs that workers execute, and what is known of their progress.

use crate::collections::Key;
use crate::id::ID;
use crate::network::worker::WorkerError;
use crate::node::NodeId;
use vstd::prelude::*;

verus! {

/// Identifies a job.
#[derive(Debug, Hash, Clone, Copy, PartialEq, Eq, Structural)]
pub struct JobId(pub ID);

impl View for JobId {
    type V = u128;

    open spec fn view(&self) -> u128 {
        self.0.0
    }
}

impl Key for JobId {
    fn same(&self, other: &Self) -> (r: bool) {
        self.0.0 == other.0.0
    }
}

impl From<ID> for JobId {
    fn from(value: ID) -> (r: Self) {
        JobId(value)
    }
}

impl vstd::std_specs::convert::FromSpecImpl<ID> for JobId {
    open spec fn obeys_from_spec() -> bool {
        true
    }

    open spec fn from_spec(value: ID) -> Self {
        JobId(value)
    }
}

impl JobId {
    /// The bytes of the identifier.
    pub fn as_bytes(&self) -> (bytes: Vec<u8>)
        ensures
            bytes@ == Seq::new(16, |i: int| crate::id::id_byte(self.0.0, i)),
    {
        self.0.as_bytes()
    }
}

/// A job to execute: which executor, on which arguments (JSON text).
#[derive(Debug, PartialEq, Eq)]
pub struct JobInstance {
    pub id: JobId,
    pub name: String,
    pub args: String,
}

impl Clone for JobInstance {
    fn clone(&self) -> (r: Self)
        ensures
            r == *self,
    {
        JobInstance { id: self.id, name: self.name.clone(), args: self.args.clone() }
    }
}

/// How far a job has come. `R` is the type of its result.
#[derive(Debug, PartialEq)]
pub enum JobState<R> {
    Unknown,
    PendingScheduling { instance: JobInstance, worker: NodeId },
    PendingAck { worker: NodeId },
    Probing { worker: NodeId },
    Scheduled { worker: NodeId },
    Running { worker: NodeId },
    Completed(R),
    Failed { error: WorkerError },
}

impl<R> Default for JobState<R> {
    fn default() -> (r: Self)
        ensures
            r is Unknown,
    {
        JobState::Unknown
    }
}

impl<V> JobState<V> {
    /// The same state with its result, if it has one, decoded by `parse`. A
    /// result that cannot be decoded is an error, with the reason.
    pub fn deserialize<R, F: FnOnce(V) -> Result<R, String>>(self, parse: F) -> (r: Result<
        JobState<R>,
        WorkerError,
    >)
        requires
            self matches JobState::Completed(value) ==> parse.requires((value,)),
        ensures
            match self {
                JobState::Unknown => r == Ok::<JobState<R>, WorkerError>(JobState::Unknown),
                JobState::PendingScheduling { instance, worker } => r == Ok::<
                    JobState<R>,
                    WorkerError,
                >(JobState::PendingScheduling { instance, worker }),
                JobState::PendingAck { worker } => r == Ok::<JobState<R>, WorkerError>(
                    JobState::PendingAck { worker },
                ),
                JobState::Probing { worker } => r == Ok::<JobState<R>, WorkerError>(
                    JobState::Probing { worker },
                ),
                JobState::Scheduled { worker } => r == Ok::<JobState<R>, WorkerError>(
                    JobState::Scheduled { worker },
                ),
                JobState::Running { worker } => r == Ok::<JobState<R>, WorkerError>(
                    JobState::Running { worker },
                ),
                JobState::Completed(value) => match r {
                    Ok(JobState::Completed(result)) => parse.ensures((value,), Ok(result)),
                    Err(WorkerError::SerdeError(message)) => parse.ensures((value,), Err(message)),
                    _ => false,
                },
                JobState::Failed { error } => r == Ok::<JobState<R>, WorkerError>(
                    JobState::Failed { error },
                ),
            },
    {
        match self {
            JobState::Unknown => Ok(JobState::Unknown),
            JobState::PendingScheduling { instance, worker } => Ok(
                JobState::PendingScheduling { instance, worker },
            ),
            JobState::PendingAck { worker } => Ok(JobState::PendingAck { worker }),
            JobState::Probing { worker } => Ok(JobState::Probing { worker }),
            JobState::Scheduled { worker } => Ok(JobState::Scheduled { worker }),
            JobState::Running { worker } => Ok(JobState::Running { worker }),
            JobState::Completed(value) => {
                match parse(value) {
                    Ok(result) => Ok(JobState::Completed(result)),
                    Err(message) => Err(WorkerError::SerdeError(message)),
                }
            },
            JobState::Failed { error } => Ok(JobState::Failed { error }),
        }
    }

    /// Whether the job is done, well or badly.
    pub fn has_terminated(&self) -> (r: bool)
        ensures
            r == (self is Completed || self is Failed),
    {
        match self {
            JobState::Completed(_) => true,
            JobState::Failed { .. } => true,
            _ => false,
        }
    }

    /// Whether the worker of the job is being probed.
    pub fn is_probing(&self) -> (r: bool)
        ensures
            r == (self is Probing),
    {
        match self {
            JobState::Probing { .. } => true,
            _ => false,
        }
    }

    /// Whether the worker of the job has yet to acknowledge it.
    pub fn is_pending_ack(&self) -> (r: bool)
        ensures
            r == (self is PendingAck),
    {
        match self {
            JobState::PendingAck { .. } => true,
            _ => false,
        }
    }
}

} // verus!
