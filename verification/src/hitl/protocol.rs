//! What subscribers of a session are told about its questions.

use crate::hitl::model::Answers;
use crate::hitl::{Hitl, HitlId};
use crate::id::SessionId;
use vstd::prelude::*;

verus! {

/// A question was put.
#[derive(Debug, PartialEq)]
pub struct HitlRequest {
    pub session_id: SessionId,
    pub id: HitlId,
    pub hitl: Hitl,
}

/// A question was answered.
pub struct HitlResponse {
    pub session_id: SessionId,
    pub id: HitlId,
    pub answers: Answers,
}

} // verus!
