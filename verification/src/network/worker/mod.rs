//! Workers: nodes that execute jobs, and the watchdogs over them.

pub mod client;
pub mod server;
pub mod watchdog;

use crate::job::JobId;
use crate::network::peer::PeerId;
use crate::network::worker::watchdog::TrackedState;
use crate::text::{is_prefix, join2, starts_with};
use vstd::prelude::*;

verus! {

/// The procedure that makes a worker execute a job.
pub const RPC_SCHEDULE_JOB: &'static str = "marie/worker/schedule";

/// The procedure that makes a watchdog watch a job.
pub const RPC_WATCH_JOB: &'static str = "marie/worker/watch";

/// The procedure that asks a watchdog how far a job has come.
pub const RPC_GET_STATE_JOB: &'static str = "marie/worker/job/get-state";

/// The namespace of workers.
pub const NS_WORKER: &'static str = "marie/ns/workers";

/// The namespace of watchdogs.
pub const NS_WORKER_WATCHDOG: &'static str = "marie/ns/workers/watchdogs";

/// What can go wrong with a job.
#[derive(Debug, PartialEq, Eq)]
pub enum WorkerError {
    NoWorkerFound,
    NoWatchdogFound,
    RpcError(String),
    NotWorkerEvent,
    SerdeError(String),
}

impl WorkerError {
    /// The message of the error.
    pub open spec fn text(&self) -> Seq<char> {
        match *self {
            WorkerError::NoWorkerFound => "aucun worker n'est accessible"@,
            WorkerError::NoWatchdogFound => "aucun watchdog n'est accessible"@,
            WorkerError::RpcError(_) => "erreur lors de l'appel distant"@,
            WorkerError::NotWorkerEvent => "ce n'est pas un évènement du worker"@,
            WorkerError::SerdeError(cause) => cause@,
        }
    }

    /// The message of the error.
    pub fn message(&self) -> (r: String)
        ensures
            r@ == self.text(),
    {
        match self {
            WorkerError::NoWorkerFound => "aucun worker n'est accessible".to_owned(),
            WorkerError::NoWatchdogFound => "aucun watchdog n'est accessible".to_owned(),
            WorkerError::RpcError(_) => "erreur lors de l'appel distant".to_owned(),
            WorkerError::NotWorkerEvent => "ce n'est pas un évènement du worker".to_owned(),
            WorkerError::SerdeError(cause) => cause.clone(),
        }
    }
}

/// What a job came to: a value (JSON text) or an error.
#[derive(Debug, PartialEq, Eq)]
pub enum JobResult {
    Success(String),
    Failed(String),
}

/// What workers and watchdogs tell everyone.
#[derive(Debug, PartialEq)]
pub enum WorkerEvent {
    JobDone { id: JobId, result: JobResult },
    JobStateUpdate { id: JobId, state: TrackedState },
}

/// A message on a topic.
#[derive(Debug, PartialEq)]
pub struct PubSubMessage {
    pub id: String,
    pub source: Option<PeerId>,
    pub topic: String,
    pub payload: Vec<u8>,
}

impl WorkerEvent {
    /// What the topics of worker events start with.
    pub const TOPIC_PREFIX: &'static str = "marie/workers/events";

    /// Whether a message is on a topic of worker events.
    pub fn is(message: &PubSubMessage) -> (r: bool)
        ensures
            r == is_prefix(WorkerEvent::TOPIC_PREFIX@, message.topic@),
    {
        starts_with(message.topic.as_str(), WorkerEvent::TOPIC_PREFIX)
    }

    /// The topic of the event.
    pub open spec fn topic_text(&self) -> Seq<char> {
        match *self {
            WorkerEvent::JobDone { .. } => WorkerEvent::TOPIC_PREFIX@ + "/job-done"@,
            WorkerEvent::JobStateUpdate { .. } => WorkerEvent::TOPIC_PREFIX@
                + "/job-state-update"@,
        }
    }

    /// The topic of the event.
    pub fn topic(&self) -> (r: String)
        ensures
            r@ == self.topic_text(),
    {
        match self {
            WorkerEvent::JobDone { .. } => join2(WorkerEvent::TOPIC_PREFIX, "/job-done"),
            WorkerEvent::JobStateUpdate { .. } => join2(
                WorkerEvent::TOPIC_PREFIX,
                "/job-state-update",
            ),
        }
    }

    /// The message that tells everyone of the event; `payload` is the encoded
    /// event.
    pub fn to_message(&self, payload: Vec<u8>) -> (r: PubSubMessage)
        ensures
            r.id@ == Seq::<char>::empty(),
            r.source is None,
            r.topic@ == self.topic_text(),
            r.payload == payload,
    {
        PubSubMessage { id: String::new(), source: None, topic: self.topic(), payload }
    }

    /// The event in a message; `decoded` is what its payload decodes to, or
    /// nothing where it does not. A message on another topic is none, whatever
    /// its payload.
    pub fn try_from_message(message: &PubSubMessage, decoded: Option<WorkerEvent>) -> (r: Result<
        WorkerEvent,
        WorkerError,
    >)
        ensures
            r == (match decoded {
                Some(event) if is_prefix(WorkerEvent::TOPIC_PREFIX@, message.topic@) => Ok::<
                    WorkerEvent,
                    WorkerError,
                >(event),
                _ => Err(WorkerError::NotWorkerEvent),
            }),
    {
        if !WorkerEvent::is(message) {
            return Err(WorkerError::NotWorkerEvent);
        }
        match decoded {
            Some(event) => Ok(event),
            None => Err(WorkerError::NotWorkerEvent),
        }
    }
}

/// Every worker event is published on a topic of worker events, so whoever
/// listens to those hears of it.
pub proof fn lemma_events_are_recognised(event: WorkerEvent)
    ensures
        is_prefix(WorkerEvent::TOPIC_PREFIX@, event.topic_text()),
{
    let prefix = WorkerEvent::TOPIC_PREFIX@;
    assert(event.topic_text().take(prefix.len() as int) =~= prefix);
}

/// Each error is told in its own words, and one of decoding in those of its
/// cause.
pub proof fn lemma_error_texts(error: WorkerError)
    ensures
        error is NoWorkerFound ==> error.text() == "aucun worker n'est accessible"@,
        error is NoWatchdogFound ==> error.text() == "aucun watchdog n'est accessible"@,
        error is RpcError ==> error.text() == "erreur lors de l'appel distant"@,
        error is NotWorkerEvent ==> error.text() == "ce n'est pas un évènement du worker"@,
        error matches WorkerError::SerdeError(cause) ==> error.text() == cause@,
{
}

/// Events travel under the topics of the workers, each kind under its own.
pub proof fn lemma_event_topics(event: WorkerEvent)
    ensures
        event is JobDone ==> event.topic_text() == "marie/workers/events"@ + "/job-done"@,
        event is JobStateUpdate ==> event.topic_text() == "marie/workers/events"@
            + "/job-state-update"@,
{
}

} // verus!
