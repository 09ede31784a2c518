//! Humans in the loop: questions that agents put to people, and their
//! answers.

pub mod client;
pub mod dto;
pub mod model;
pub mod protocol;
pub mod service;
pub mod store;

use crate::collections::Key;
use crate::hitl::model::{Answers, Question, QuestionView};
use crate::id::{SessionId, ID};
use vstd::prelude::*;

verus! {

/// What a human is asked.
#[derive(Debug, PartialEq)]
pub enum Hitl {
    Question(Question),
    /// Anything, without a form.
    Text,
}

/// A [`Hitl`], with lists as sequences.
pub enum HitlView {
    Question(QuestionView),
    Text,
}

impl View for Hitl {
    type V = HitlView;

    open spec fn view(&self) -> HitlView {
        match *self {
            Hitl::Question(question) => HitlView::Question(question@),
            Hitl::Text => HitlView::Text,
        }
    }
}

impl Clone for Hitl {
    fn clone(&self) -> (r: Self)
        ensures
            r@ == self@,
    {
        match self {
            Hitl::Question(question) => Hitl::Question(question.clone()),
            Hitl::Text => Hitl::Text,
        }
    }
}

/// Identifies a question within its session.
#[derive(Debug, Hash, Clone, Copy, PartialEq, Eq, Structural)]
pub struct HitlId(pub ID);

impl From<ID> for HitlId {
    fn from(value: ID) -> (r: Self) {
        HitlId(value)
    }
}

impl vstd::std_specs::convert::FromSpecImpl<ID> for HitlId {
    open spec fn obeys_from_spec() -> bool {
        true
    }

    open spec fn from_spec(value: ID) -> Self {
        HitlId(value)
    }
}

/// Where a question is kept: its session, and its place within it.
#[derive(Debug, Hash, Clone, Copy, PartialEq, Eq, Structural)]
pub struct HitlKey {
    pub session_id: SessionId,
    pub id: HitlId,
}

impl View for HitlKey {
    type V = (u128, u128);

    open spec fn view(&self) -> (u128, u128) {
        (self.session_id@, self.id.0.0)
    }
}

impl Key for HitlKey {
    fn same(&self, other: &Self) -> (r: bool) {
        self.session_id.0.0 == other.session_id.0.0 && self.id.0.0 == other.id.0.0
    }
}

/// A question put to a human.
#[derive(Debug, PartialEq)]
pub struct HitlRequest {
    pub session_id: SessionId,
    pub id: HitlId,
    pub hitl: Hitl,
}

/// A question as it is kept, with its answer once there is one.
pub struct HitlFrame {
    pub session_id: SessionId,
    pub id: HitlId,
    pub hitl: Hitl,
    pub answer: Option<Answers>,
}

} // verus!
