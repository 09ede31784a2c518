//! What clients and the lease authority say to each other.

use crate::id::{SessionId, ID};
use crate::lease::time::{Span, Timestamp};
use crate::node::NodeId;
use vstd::prelude::*;

verus! {

/// Either direction of the exchange.
#[derive(Debug, PartialEq)]
pub enum LeaseMessage {
    Request(LeaseRequest),
    Response(LeaseResponse),
}

/// A request for the lease of a session.
#[derive(Debug, PartialEq)]
pub struct LeaseRequest {
    pub request_id: ID,
    pub session_id: SessionId,
    pub op: LeaseOp,
}

/// What is asked of a lease.
#[derive(Debug, PartialEq)]
pub enum LeaseOp {
    Acquire { holder: NodeId, ttl: Span },
    Renew { holder: NodeId, epoch: u64, ttl: Span },
    Release { holder: NodeId, epoch: u64 },
}

impl LeaseOp {
    /// The span that the request asks for.
    pub open spec fn ttl_of(&self) -> Option<Span> {
        match *self {
            LeaseOp::Acquire { ttl, .. } => Some(ttl),
            LeaseOp::Renew { ttl, .. } => Some(ttl),
            LeaseOp::Release { .. } => None,
        }
    }
}

/// The answer to a request.
#[derive(Debug, PartialEq)]
pub struct LeaseResponse {
    pub request_id: ID,
    pub result: LeaseResult,
}

/// What became of a request.
#[derive(Debug, PartialEq)]
pub enum LeaseResult {
    Granted { epoch: u64, expires_at: Timestamp },
    /// The lease was renewed, or released.
    Renewed { expires_at: Timestamp },
    Denied { current_holder: NodeId, current_epoch: u64 },
    NotLeader { leader_hint: Option<NodeId> },
}

/// A [`LeaseResult`], with nodes by their bytes.
pub enum LeaseOutcome {
    Granted { epoch: u64, expires_at: Timestamp },
    Renewed { expires_at: Timestamp },
    Denied { current_holder: Seq<u8>, current_epoch: u64 },
    NotLeader { leader_hint: Option<Seq<u8>> },
}

impl View for LeaseResult {
    type V = LeaseOutcome;

    open spec fn view(&self) -> LeaseOutcome {
        match *self {
            LeaseResult::Granted { epoch, expires_at } => LeaseOutcome::Granted { epoch, expires_at },
            LeaseResult::Renewed { expires_at } => LeaseOutcome::Renewed { expires_at },
            LeaseResult::Denied { current_holder, current_epoch } => LeaseOutcome::Denied {
                current_holder: current_holder@,
                current_epoch,
            },
            LeaseResult::NotLeader { leader_hint } => LeaseOutcome::NotLeader {
                leader_hint: match leader_hint {
                    Some(node) => Some(node@),
                    None => None,
                },
            },
        }
    }
}

/// A lease is asked for, or prolonged, for the time that the operation says; a
/// release says none.
pub proof fn lemma_time_asked_for(op: LeaseOp, holder: NodeId, epoch: u64, ttl: Span)
    ensures
        op == (LeaseOp::Acquire { holder, ttl }) ==> op.ttl_of() == Some(ttl),
        op == (LeaseOp::Renew { holder, epoch, ttl }) ==> op.ttl_of() == Some(ttl),
        op.ttl_of() is None <==> op is Release,
{
}

} // verus!
