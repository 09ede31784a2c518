//! Workers: they execute jobs by name.

use crate::collections::Table;
use crate::job::{JobId, JobInstance};
use crate::network::worker::{JobResult, WorkerEvent};
use crate::text::{join2, join5};
use vstd::prelude::*;

verus! {

/// How the execution of a job ended.
#[derive(Debug, PartialEq, Eq)]
pub enum JobOutcome {
    /// With a value, as JSON text.
    Returned(String),
    /// With an error.
    Errored(String),
    /// By a panic.
    Panicked,
}

/// The error of a job that nobody can execute.
pub open spec fn no_executor_text() -> Seq<char> {
    "aucun exécuteur pour le travail n'a été trouvé"@
}

/// The error of a job whose arguments cannot be decoded.
pub open spec fn bad_args_text() -> Seq<char> {
    "erreur lors de la desérialization des arguments du job"@
}

/// A worker: executors of type `E`, by the name of the job.
pub struct WorkerServer<E> {
    pub executors: Table<String, E>,
}

impl<E> WorkerServer<E> {
    pub fn new() -> (r: Self)
        ensures
            r.executors@ == Map::<Seq<char>, E>::empty(),
    {
        WorkerServer { executors: Table::new() }
    }

    /// Registers (or replaces) the executor of a job.
    pub fn register_job_executor(&mut self, name: String, executor: E)
        ensures
            final(self).executors@ == old(self).executors@.insert(name@, executor),
    {
        let _ = self.executors.insert(name, executor);
    }

    /// Takes a job on: the executor to start. The executor is looked up first,
    /// then the arguments count (`args_decode` says whether they decode).
    pub fn schedule(&self, job: &JobInstance, args_decode: bool) -> (r: Result<&E, &'static str>)
        ensures
            match r {
                Ok(executor) => {
                    &&& args_decode
                    &&& self.executors@.contains_key(job.name@)
                    &&& *executor == self.executors@[job.name@]
                },
                Err(error) => if self.executors@.contains_key(job.name@) {
                    !args_decode && error@ == bad_args_text() && error@
                        == "erreur lors de la desérialization des arguments du job"@
                } else {
                    error@ == no_executor_text() && error@
                        == "aucun exécuteur pour le travail n'a été trouvé"@
                },
            },
    {
        match self.executors.get(&job.name) {
            None => Err("aucun exécuteur pour le travail n'a été trouvé"),
            Some(executor) => {
                if args_decode {
                    Ok(executor)
                } else {
                    Err("erreur lors de la desérialization des arguments du job")
                }
            },
        }
    }
}

/// The message of a job that failed.
pub open spec fn failed_text(name: Seq<char>, id: Seq<char>, error: Seq<char>) -> Seq<char> {
    "le travail "@ + name + "#"@ + id + (" a échoué: "@ + error)
}

/// The message of a job that panicked.
pub open spec fn panicked_text(name: Seq<char>, id: Seq<char>) -> Seq<char> {
    "le travail "@ + name + "#"@ + id + " a paniqué"@
}

/// What everyone is told once a job has ended; `id_text` is the text of its
/// identifier.
pub fn job_done(id: JobId, name: &str, id_text: &str, outcome: JobOutcome) -> (r: WorkerEvent)
    ensures
        r matches WorkerEvent::JobDone { id: told, result } && told == id && match outcome {
            JobOutcome::Returned(value) => result == JobResult::Success(value),
            JobOutcome::Errored(error) => result matches JobResult::Failed(message) && message@
                == failed_text(name@, id_text@, error@) && message@ == "le travail "@ + name@ + "#"@
                + id_text@ + (" a échoué: "@ + error@),
            JobOutcome::Panicked => result matches JobResult::Failed(message) && message@
                == panicked_text(name@, id_text@) && message@ == "le travail "@ + name@ + "#"@
                + id_text@ + " a paniqué"@,
        },
{
    let result = match outcome {
        JobOutcome::Returned(value) => JobResult::Success(value),
        JobOutcome::Errored(error) => JobResult::Failed(
            join5(
                "le travail ",
                name,
                "#",
                id_text,
                join2(" a échoué: ", error.as_str()).as_str(),
            ),
        ),
        JobOutcome::Panicked => JobResult::Failed(
            join5("le travail ", name, "#", id_text, " a paniqué"),
        ),
    };
    WorkerEvent::JobDone { id, result }
}

} // verus!
