//! The way of a request to the leader of the lease authority.

use crate::id::{SessionId, ID};
use crate::lease::protocol::{LeaseOp, LeaseRequest};
use crate::lease::time::Span;
use crate::network::peer::{peer_id_text, PeerId};
use crate::node::NodeId;
use crate::text::{join2, join3};
use vstd::prelude::*;

verus! {

/// What a client knows of the group: who led it last.
pub struct LeaseClient {
    pub leader_hint: Option<PeerId>,
}

/// What a refused submission leads to.
#[derive(Debug, PartialEq)]
pub enum Retry {
    /// Submit once more, to this peer, which leads the group.
    Leader(PeerId),
    /// The named leader has no peer identity.
    NoIdentity,
    /// Give up.
    Fail(String),
}

/// The error of a submission that failed on `tried`.
pub open spec fn failed_text(tried: Seq<char>, message: Seq<char>) -> Seq<char> {
    "échec de la soumission de la requête de bail sur "@ + tried + (" : "@ + message)
}

impl LeaseClient {
    /// A client that knows no leader.
    pub fn new() -> (r: Self)
        ensures
            r.leader_hint is None,
    {
        LeaseClient { leader_hint: None }
    }

    /// Who to submit to: the last known leader, or else the first of `peers`,
    /// those known to take part in the group.
    pub fn candidate(&self, peers: &Vec<PeerId>) -> (r: Option<PeerId>)
        ensures
            r == (match self.leader_hint {
                Some(leader) => Some(leader),
                None => if peers@.len() > 0 {
                    Some(peers@[0])
                } else {
                    None
                },
            }),
    {
        match &self.leader_hint {
            Some(leader) => Some(leader.clone()),
            None => {
                if peers.len() > 0 {
                    Some(peers[0].clone())
                } else {
                    None
                }
            },
        }
    }

    /// Starts a submission: who to submit to, or an error where nobody is
    /// known.
    pub fn submit(&self, peers: &Vec<PeerId>) -> (r: Result<PeerId, String>)
        ensures
            match r {
                Ok(target) => match self.leader_hint {
                    Some(leader) => target == leader,
                    None => peers@.len() > 0 && target == peers@[0],
                },
                Err(error) => {
                    &&& self.leader_hint is None
                    &&& peers@.len() == 0
                    &&& error@
                        == "aucun pair Capability::Lease connu pour soumettre la requête de bail"@
                },
            },
    {
        match self.candidate(peers) {
            Some(target) => Ok(target),
            None => Err(
                "aucun pair Capability::Lease connu pour soumettre la requête de bail".to_owned(),
            ),
        }
    }

    /// The group refused a submission to `tried` with `message`. Where it
    /// named its leader, that one is remembered and tried once; otherwise the
    /// submission has failed.
    pub fn retry_on_forward(
        &mut self,
        leader: Option<&NodeId>,
        tried: &PeerId,
        message: &str,
    ) -> (r: Retry)
        ensures
            match leader {
                None => {
                    &&& r matches Retry::Fail(error) && error@ == failed_text(tried@, message@)
                        && error@ == "échec de la soumission de la requête de bail sur "@ + tried@
                        + (" : "@ + message@)
                    &&& final(self).leader_hint == old(self).leader_hint
                },
                Some(node) => match r {
                    Retry::Leader(peer) => {
                        &&& peer_id_text(node@) == Some(peer@)
                        &&& final(self).leader_hint == Some(peer)
                    },
                    Retry::NoIdentity => {
                        &&& peer_id_text(node@) is None
                        &&& final(self).leader_hint == old(self).leader_hint
                    },
                    Retry::Fail(_) => false,
                },
            },
    {
        match leader {
            None => Retry::Fail(
                join3(
                    "échec de la soumission de la requête de bail sur ",
                    tried.as_str(),
                    join2(" : ", message).as_str(),
                ),
            ),
            Some(node) => self.follow(node.to_peer()),
        }
    }

    /// Goes on with the leader that the group named, by its identity, if it
    /// has one: it is remembered, and tried next.
    pub fn follow(&mut self, leader: Option<PeerId>) -> (r: Retry)
        ensures
            match leader {
                Some(peer) => r == Retry::Leader(peer) && final(self).leader_hint == Some(peer),
                None => r == Retry::NoIdentity && final(self).leader_hint == old(self).leader_hint,
            },
    {
        match leader {
            Some(peer) => {
                self.leader_hint = Some(peer.clone());
                Retry::Leader(peer)
            },
            None => Retry::NoIdentity,
        }
    }

    /// The error of a second refusal, by the leader itself.
    pub fn leader_refused(leader: &PeerId, error: &str) -> (r: String)
        ensures
            r@ == "échec de la soumission de la requête de bail sur le leader "@ + leader@ + (" : "@
                + error@),
    {
        join3(
            "échec de la soumission de la requête de bail sur le leader ",
            leader.as_str(),
            join2(" : ", error).as_str(),
        )
    }

    /// A request to take the lease of a session.
    pub fn acquire(request_id: ID, session_id: SessionId, holder: NodeId, ttl: Span) -> (r:
        LeaseRequest)
        ensures
            r == (LeaseRequest { request_id, session_id, op: LeaseOp::Acquire { holder, ttl } }),
    {
        LeaseRequest { request_id, session_id, op: LeaseOp::Acquire { holder, ttl } }
    }

    /// A request to prolong the lease of a session.
    pub fn renew(
        request_id: ID,
        session_id: SessionId,
        holder: NodeId,
        epoch: u64,
        ttl: Span,
    ) -> (r: LeaseRequest)
        ensures
            r == (LeaseRequest { request_id, session_id, op: LeaseOp::Renew { holder, epoch, ttl } }),
    {
        LeaseRequest { request_id, session_id, op: LeaseOp::Renew { holder, epoch, ttl } }
    }

    /// A request to give the lease of a session back.
    pub fn release(request_id: ID, session_id: SessionId, holder: NodeId, epoch: u64) -> (r:
        LeaseRequest)
        ensures
            r == (LeaseRequest { request_id, session_id, op: LeaseOp::Release { holder, epoch } }),
    {
        LeaseRequest { request_id, session_id, op: LeaseOp::Release { holder, epoch } }
    }
}

} // verus!
