//! Relays: to the leader of the cluster, and to the peers that volunteered
//! for a procedure. A relay that fails is tried again, a bounded number of
//! times.

use crate::collections::lemma_filter_contains;
use crate::network::cp::registry::{other_than, peers_of, without, DynamicRpcRegistry};
use crate::network::cp::types::RaftNode;
use crate::network::cp::FORWARD_RETRY_ATTEMPTS;
use crate::network::peer::{peer_texts, PeerId};
use crate::text::join2;
use vstd::prelude::*;

verus! {

/// What a write to the replicated log came to.
#[derive(Debug, PartialEq)]
pub enum WriteOutcome {
    /// It is committed; the response is JSON text.
    Written(String),
    /// This node is not the leader, and knows who is.
    ForwardTo(RaftNode),
    /// It failed otherwise.
    Failed(String),
}

/// What to do next for a proposal.
#[derive(Debug, PartialEq)]
pub enum ProposeStep {
    /// Write the request to the log, after a pause where `pause` is set.
    Write { pause: bool },
    /// Relay the call to this peer.
    Relay { to: PeerId },
    /// The proposal is settled.
    Return(Result<String, String>),
}

/// A request on its way into the replicated log. Whether this node or another
/// one is the leader may change between two tries, so each try starts with a
/// write.
pub struct Proposal {
    attempts: u32,
    last_error: Option<String>,
}

impl Proposal {
    #[verifier::type_invariant]
    spec fn bounded(self) -> bool {
        &&& self.attempts <= FORWARD_RETRY_ATTEMPTS
        &&& self.attempts > 0 <==> self.last_error is Some
    }

    /// The number of relays that failed.
    pub closed spec fn failures(&self) -> int {
        self.attempts as int
    }

    /// The error of the last relay that failed.
    pub closed spec fn last(&self) -> Option<String> {
        self.last_error
    }

    pub fn new() -> (r: Self)
        ensures
            r.failures() == 0,
            r.last() is None,
    {
        Proposal { attempts: 0, last_error: None }
    }

    /// The next try: a write, or the last error where the tries are used up.
    pub fn next_attempt(&self) -> (r: ProposeStep)
        ensures
            0 <= self.failures() <= FORWARD_RETRY_ATTEMPTS,
            self.failures() > 0 <==> self.last() is Some,
            self.failures() < FORWARD_RETRY_ATTEMPTS ==> r == (ProposeStep::Write {
                pause: self.failures() > 0,
            }),
            self.failures() == FORWARD_RETRY_ATTEMPTS ==> r == ProposeStep::Return(
                Err(self.last()->0),
            ),
            r is Write <==> self.failures() < 3,
    {
        proof {
            use_type_invariant(self);
        }
        if self.attempts < FORWARD_RETRY_ATTEMPTS {
            return ProposeStep::Write { pause: self.attempts > 0 };
        }
        match &self.last_error {
            Some(error) => ProposeStep::Return(Err(error.clone())),
            None => ProposeStep::Return(
                Err("aucun leader raft joignable après 3 tentatives".to_owned()),
            ),
        }
    }

    /// Reacts to the outcome of a write: a committed request and a plain
    /// failure settle the proposal, a known leader gets the call relayed.
    pub fn on_write(&self, outcome: WriteOutcome) -> (r: ProposeStep)
        ensures
            match outcome {
                WriteOutcome::Written(response) => r == ProposeStep::Return(Ok(response)),
                WriteOutcome::ForwardTo(leader) => match leader.peer_id {
                    Some(peer) => r == (ProposeStep::Relay { to: peer }),
                    None => r matches ProposeStep::Return(Err(error)) && error@
                        == "le leader raft connu n'a pas de peer_id libp2p"@,
                },
                WriteOutcome::Failed(error) => r == ProposeStep::Return(Err(error)),
            },
    {
        match outcome {
            WriteOutcome::Written(response) => ProposeStep::Return(Ok(response)),
            WriteOutcome::ForwardTo(leader) => {
                match leader.peer_id {
                    Some(peer) => ProposeStep::Relay { to: peer },
                    None => ProposeStep::Return(
                        Err("le leader raft connu n'a pas de peer_id libp2p".to_owned()),
                    ),
                }
            },
            WriteOutcome::Failed(error) => ProposeStep::Return(Err(error)),
        }
    }

    /// Reacts to the outcome of a relay to the leader: its answer settles the
    /// proposal, its failure uses up one try.
    pub fn on_relay(&mut self, outcome: Result<String, String>) -> (r: Option<String>)
        requires
            old(self).failures() < FORWARD_RETRY_ATTEMPTS,
        ensures
            match outcome {
                Ok(value) => {
                    &&& r == Some(value)
                    &&& final(self).failures() == old(self).failures()
                    &&& final(self).last() == old(self).last()
                },
                Err(error) => {
                    &&& r is None
                    &&& final(self).failures() == old(self).failures() + 1
                    &&& final(self).last() == Some(error)
                },
            },
    {
        match outcome {
            Ok(value) => Some(value),
            Err(error) => {
                let attempts: u32 = self.attempts + 1;
                *self = Proposal { attempts, last_error: Some(error) };
                None
            },
        }
    }
}

/// The pairs of `registry` without those of `name` and one of `peers`.
pub open spec fn purged(
    registry: Seq<(Seq<char>, Seq<char>)>,
    name: Seq<char>,
    peers: Seq<Seq<char>>,
) -> Seq<(Seq<char>, Seq<char>)>
    decreases peers.len(),
{
    if peers.len() == 0 {
        registry
    } else {
        without(purged(registry, name, peers.drop_last()), (name, peers.last()))
    }
}

/// A call of a procedure that peers volunteered for.
pub struct DynamicRelay {
    name: String,
    attempts: u32,
    last_error: Option<String>,
}

/// The error of a call of a procedure that nobody executes.
pub open spec fn unmanaged_text(name: Seq<char>) -> Seq<char> {
    "unmanaged remote procedure "@ + name
}

impl DynamicRelay {
    #[verifier::type_invariant]
    spec fn bounded(self) -> bool {
        &&& self.attempts <= FORWARD_RETRY_ATTEMPTS
        &&& self.attempts > 0 <==> self.last_error is Some
    }

    /// The name of the procedure.
    pub closed spec fn procedure(&self) -> Seq<char> {
        self.name@
    }

    /// The number of tries that failed.
    pub closed spec fn failures(&self) -> int {
        self.attempts as int
    }

    /// The error of the last try that failed.
    pub closed spec fn last(&self) -> Option<String> {
        self.last_error
    }

    pub fn new(name: String) -> (r: Self)
        ensures
            r.procedure() == name@,
            r.failures() == 0,
            r.last() is None,
    {
        DynamicRelay { name, attempts: 0, last_error: None }
    }

    /// Whether to try once more (`Ok`, with whether to pause before), or to
    /// give up with the last error.
    pub fn next_attempt(&self) -> (r: Result<bool, String>)
        ensures
            0 <= self.failures() <= FORWARD_RETRY_ATTEMPTS,
            self.failures() > 0 <==> self.last() is Some,
            self.failures() < FORWARD_RETRY_ATTEMPTS ==> r == Ok::<bool, String>(
                self.failures() > 0,
            ),
            self.failures() == FORWARD_RETRY_ATTEMPTS ==> r == Err::<bool, String>(self.last()->0),
            r is Ok <==> self.failures() < 3,
    {
        proof {
            use_type_invariant(self);
        }
        if self.attempts < FORWARD_RETRY_ATTEMPTS {
            return Ok(self.attempts > 0);
        }
        match &self.last_error {
            Some(error) => Err(error.clone()),
            None => Err(join2("unmanaged remote procedure ", self.name.as_str())),
        }
    }

    /// The peers to race for an answer in this try. Looked up anew each time,
    /// after the pause: the try before may have purged some, and others may
    /// have registered meanwhile.
    pub fn executors(&self, registry: &DynamicRpcRegistry) -> (r: Result<Vec<PeerId>, String>)
        ensures
            match r {
                Ok(peers) => peers@.len() > 0 && peer_texts(peers@) == peers_of(
                    registry@,
                    self.procedure(),
                ),
                Err(error) => {
                    &&& peers_of(registry@, self.procedure()).len() == 0
                    &&& error@ == unmanaged_text(self.procedure())
                    &&& error@ == "unmanaged remote procedure "@ + self.procedure()
                },
            },
    {
        match registry.executors_for(&self.name) {
            Some(peers) => Ok(peers),
            None => Err(join2("unmanaged remote procedure ", self.name.as_str())),
        }
    }

    /// None of `executors` answered: their registrations for this procedure
    /// are probably stale, and are dropped here. Nobody else is told; a failed
    /// relay proves less than a lost connection.
    pub fn on_failure(
        &mut self,
        registry: &mut DynamicRpcRegistry,
        executors: &Vec<PeerId>,
        error: String,
    )
        requires
            old(self).failures() < FORWARD_RETRY_ATTEMPTS,
        ensures
            final(self).procedure() == old(self).procedure(),
            final(self).failures() == old(self).failures() + 1,
            final(self).last() == Some(error),
            final(registry)@ == purged(
                old(registry)@,
                old(self).procedure(),
                peer_texts(executors@),
            ),
    {
        let ghost before = registry@;
        let mut i: usize = 0;
        assert(peer_texts(executors@).take(0) =~= Seq::<Seq<char>>::empty());
        while i < executors.len()
            invariant
                i <= executors@.len(),
                *self == *old(self),
                before == old(registry)@,
                registry@ == purged(
                    before,
                    self.procedure(),
                    peer_texts(executors@).take(i as int),
                ),
            decreases executors@.len() - i,
        {
            registry.remove_executor(&self.name, &executors[i]);
            proof {
                let all = peer_texts(executors@);
                assert(all.take(i + 1).drop_last() =~= all.take(i as int));
                assert(all.take(i + 1).last() == executors@[i as int]@);
            }
            i = i + 1;
        }
        assert(peer_texts(executors@).take(i as int) =~= peer_texts(executors@));
        let attempts: u32 = self.attempts + 1;
        let name = self.name.clone();
        *self = DynamicRelay { name, attempts, last_error: Some(error) };
    }
}

proof fn lemma_purged_executor(
    registry: Seq<(Seq<char>, Seq<char>)>,
    name: Seq<char>,
    peers: Seq<Seq<char>>,
    peer: Seq<char>,
)
    ensures
        peers_of(purged(registry, name, peers), name).contains(peer) <==> peers_of(
            registry,
            name,
        ).contains(peer) && !peers.contains(peer),
    decreases peers.len(),
{
    if peers.len() == 0 {
        assert(!peers.contains(peer));
    } else {
        let front = peers.drop_last();
        lemma_purged_executor(registry, name, front, peer);
        crate::network::cp::registry::lemma_removed_executor(
            purged(registry, name, front),
            (name, peers.last()),
            name,
            peer,
        );
        if peers.contains(peer) {
            let i = choose|i: int| 0 <= i < peers.len() && peers[i] == peer;
            if i < front.len() {
                assert(front[i] == peer);
            }
        }
        if front.contains(peer) {
            let i = choose|i: int| 0 <= i < front.len() && front[i] == peer;
            assert(peers[i] == peer);
        }
        if peer == peers.last() {
            assert(peers[peers.len() - 1] == peer);
        }
    }
}

/// A failed try purges what it tried: where nobody else registers meanwhile,
/// the next try finds no executor, and the procedure is unmanaged.
pub proof fn lemma_failed_relay_leaves_nobody(
    registry: Seq<(Seq<char>, Seq<char>)>,
    name: Seq<char>,
)
    ensures
        peers_of(purged(registry, name, peers_of(registry, name)), name).len() == 0,
{
    let tried = peers_of(registry, name);
    let left = peers_of(purged(registry, name, tried), name);
    if left.len() > 0 {
        assert(left.contains(left[0]));
        lemma_purged_executor(registry, name, tried, left[0]);
    }
}

/// A failed try leaves the executors of every other procedure as they were.
pub proof fn lemma_failed_relay_spares_others(
    registry: Seq<(Seq<char>, Seq<char>)>,
    name: Seq<char>,
    peers: Seq<Seq<char>>,
    other: Seq<char>,
    peer: Seq<char>,
)
    requires
        other != name,
    ensures
        peers_of(purged(registry, name, peers), other).contains(peer) <==> peers_of(
            registry,
            other,
        ).contains(peer),
    decreases peers.len(),
{
    if peers.len() > 0 {
        lemma_failed_relay_spares_others(registry, name, peers.drop_last(), other, peer);
        crate::network::cp::registry::lemma_removed_executor(
            purged(registry, name, peers.drop_last()),
            (name, peers.last()),
            other,
            peer,
        );
    }
}

/// A failed try drops the registrations of exactly the peers that it tried, for
/// exactly its procedure.
pub proof fn lemma_purge_is_exact(
    registry: Seq<(Seq<char>, Seq<char>)>,
    name: Seq<char>,
    peers: Seq<Seq<char>>,
    pair: (Seq<char>, Seq<char>),
)
    ensures
        purged(registry, name, peers).contains(pair) <==> registry.contains(pair) && !(pair.0
            == name && exists|k: int| 0 <= k < peers.len() && #[trigger] peers[k] == pair.1),
    decreases peers.len(),
{
    if peers.len() > 0 {
        let front = peers.drop_last();
        lemma_purge_is_exact(registry, name, front, pair);
        lemma_filter_contains(
            purged(registry, name, front),
            other_than((name, peers.last())),
            pair,
        );
        if exists|k: int| 0 <= k < front.len() && #[trigger] front[k] == pair.1 {
            let k = choose|k: int| 0 <= k < front.len() && #[trigger] front[k] == pair.1;
            assert(peers[k] == pair.1);
        }
        if peers.last() == pair.1 {
            assert(peers[peers.len() - 1] == pair.1);
        }
        if exists|k: int| 0 <= k < peers.len() && #[trigger] peers[k] == pair.1 {
            let k = choose|k: int| 0 <= k < peers.len() && #[trigger] peers[k] == pair.1;
            if k < front.len() {
                assert(front[k] == pair.1);
            }
        }
    }
}

} // verus!
