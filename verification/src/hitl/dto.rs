//! What is shown of a question that waits for its answer.

use crate::hitl::{Hitl, HitlId};
use crate::id::SessionId;
use vstd::prelude::*;

verus! {

/// A question that waits for its answer.
#[derive(Debug, PartialEq)]
pub struct PendingHitl<'a> {
    pub session_id: SessionId,
    pub id: HitlId,
    pub hitl: &'a Hitl,
}

} // verus!
