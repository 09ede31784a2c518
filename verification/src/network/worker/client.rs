//! Submission of jobs: one worker executes, one watchdog watches.

use crate::job::{JobId, JobInstance};
use crate::id::lemma_id_bytes_are_digits;
use crate::network::bootstrap::{
    is_selected, lemma_peers_in_order, lemma_selected_peer_scores_highest, peers_in, precedes,
    scores_of, sha256_of, BootstrapClient,
};
use crate::network::peer::{peer_id_bytes, PeerId};
use crate::network::worker::{WorkerError, NS_WORKER, NS_WORKER_WATCHDOG};
use vstd::arithmetic::power::pow;
use vstd::prelude::*;

verus! {

/// A job on its way: who executes it, and who watches it.
#[derive(Debug, PartialEq)]
pub struct Spawn {
    pub job: JobInstance,
    pub worker: PeerId,
    pub watchdog: PeerId,
}

/// The bytes that decide who takes care of a job.
pub open spec fn job_bytes(id: JobId) -> Seq<u8> {
    Seq::new(16, |i: int| crate::id::id_byte(id.0.0, i))
}

/// A client of workers and watchdogs.
pub struct WorkerClient {
    pub bootstrap: BootstrapClient,
}

/// Whether `peer` is the one that serves `namespace` for the job `id`.
pub open spec fn serves(
    bootstrap: BootstrapClient,
    namespace: Seq<char>,
    id: JobId,
    peer: PeerId,
) -> bool {
    let peers = peers_in(bootstrap.members@, namespace);
    exists|i: int| #[trigger] is_selected(scores_of(job_bytes(id), peers), i) && peer == peers[i]
}

impl WorkerClient {
    /// Prepares a job: a worker and a watchdog are picked by its identifier. A
    /// missing worker is reported before a missing watchdog.
    pub fn spawn(&self, id: JobId, name: String, args: String) -> (r: Result<Spawn, WorkerError>)
        ensures
            match r {
                Ok(spawn) => {
                    &&& spawn.job == (JobInstance { id, name, args })
                    &&& serves(self.bootstrap, NS_WORKER@, id, spawn.worker)
                    &&& serves(self.bootstrap, NS_WORKER_WATCHDOG@, id, spawn.watchdog)
                },
                Err(error) => if peers_in(self.bootstrap.members@, NS_WORKER@).len() == 0 {
                    error == WorkerError::NoWorkerFound
                } else {
                    peers_in(self.bootstrap.members@, NS_WORKER_WATCHDOG@).len() == 0 && error
                        == WorkerError::NoWatchdogFound
                },
            },
    {
        let worker = match self.worker_of(id) {
            Some(worker) => worker,
            None => {
                return Err(WorkerError::NoWorkerFound);
            },
        };
        match self.watchdog_of(id) {
            Ok(watchdog) => Ok(Spawn { job: JobInstance { id, name, args }, worker, watchdog }),
            Err(error) => Err(error),
        }
    }

    /// The worker that executes a job, if there is any.
    pub fn worker_of(&self, id: JobId) -> (r: Option<PeerId>)
        ensures
            match r {
                Some(peer) => serves(self.bootstrap, NS_WORKER@, id, peer),
                None => peers_in(self.bootstrap.members@, NS_WORKER@).len() == 0,
            },
    {
        let bytes = id.as_bytes();
        assert(bytes@ =~= job_bytes(id));
        let namespace = NS_WORKER.to_owned();
        self.bootstrap.select_peer(&namespace, &bytes)
    }

    /// The watchdog to ask about a job.
    pub fn watchdog_of(&self, id: JobId) -> (r: Result<PeerId, WorkerError>)
        ensures
            match r {
                Ok(peer) => serves(self.bootstrap, NS_WORKER_WATCHDOG@, id, peer),
                Err(error) => peers_in(self.bootstrap.members@, NS_WORKER_WATCHDOG@).len() == 0
                    && error == WorkerError::NoWatchdogFound,
            },
    {
        let bytes = id.as_bytes();
        assert(bytes@ =~= job_bytes(id));
        let namespace = NS_WORKER_WATCHDOG.to_owned();
        match self.bootstrap.select_peer(&namespace, &bytes) {
            Some(watchdog) => Ok(watchdog),
            None => Err(WorkerError::NoWatchdogFound),
        }
    }
}

/// Whoever serves a job is listed for the namespace, and nobody listed for it has
/// a higher digest of the bytes of the job's identifier, the highest byte first,
/// followed by the peer's own.
pub proof fn lemma_server_scores_highest(
    bootstrap: BootstrapClient,
    namespace: Seq<char>,
    id: JobId,
    peer: PeerId,
    j: int,
)
    requires
        serves(bootstrap, namespace, id, peer),
        0 <= j < bootstrap.members@.len(),
        bootstrap.members@[j].0@ == namespace,
    ensures
        exists|i: int|
            0 <= i < bootstrap.members@.len() && #[trigger] bootstrap.members@[i].1 == peer
                && bootstrap.members@[i].0@ == namespace,
        !precedes(
            sha256_of(job_bytes(id) + peer_id_bytes(peer@)->0),
            sha256_of(job_bytes(id) + peer_id_bytes(bootstrap.members@[j].1@)->0),
        ),
{
    let peers = peers_in(bootstrap.members@, namespace);
    let at = lemma_peers_in_order(bootstrap.members@, namespace);
    let i = choose|i: int| #[trigger]
        is_selected(scores_of(job_bytes(id), peers), i) && peer == peers[i];
    assert(at.contains(at[i]));
    assert(bootstrap.members@[at[i]].1 == peer);
    assert(at.contains(j));
    let k = choose|k: int| 0 <= k < at.len() && at[k] == j;
    assert(bootstrap.members@[at[k]].1 == peers[k]);
    lemma_selected_peer_scores_highest(job_bytes(id), peers, i, k);
}

/// The bytes of a job's identifier are its digits to the base 256, the highest
/// first.
pub proof fn lemma_job_bytes_are_digits(id: JobId, i: int)
    requires
        0 <= i < 16,
    ensures
        job_bytes(id).len() == 16,
        job_bytes(id)[i] == (id.0.0 as int / pow(256, (15 - i) as nat)) % 256,
{
    lemma_id_bytes_are_digits(id.0.0, i);
}

} // verus!
