//! The questions of one session.

use crate::hitl::model::{
    answer_views, copy_answers, problem, validate_answer, Answers,
};
use crate::hitl::protocol::{HitlRequest, HitlResponse};
use crate::hitl::store::{answered, place, InMemoryHitlStore, InMemoryHitlStoreError};
use crate::hitl::{Hitl, HitlFrame, HitlId};
use crate::id::SessionId;
use crate::text::join2;
use vstd::prelude::*;

verus! {

/// Why a store did not do what it was asked to.
#[derive(Debug, PartialEq)]
pub enum StorageFailure {
    InMemory(InMemoryHitlStoreError),
    /// Whatever another store says.
    Other(String),
}

/// What can go wrong with a question.
#[derive(Debug, PartialEq)]
pub enum HitlError {
    StorageError(StorageFailure),
    ValidationError(String),
}

impl HitlError {
    /// The message of the error. `session` and `hitl` are the identifiers of
    /// the session and of the question as they are spelled.
    pub fn message(&self, session: &str, hitl: &str) -> (r: String)
        ensures
            r@ == (match *self {
                HitlError::StorageError(
                    StorageFailure::InMemory(_),
                ) => "erreur lors des opérations de stockage: "@ + ("hitl "@ + hitl@
                    + " introuvable pour la session "@ + session@),
                HitlError::StorageError(
                    StorageFailure::Other(cause),
                ) => "erreur lors des opérations de stockage: "@ + cause@,
                HitlError::ValidationError(cause) => "erreur de validation: "@ + cause@,
            }),
    {
        match self {
            HitlError::StorageError(StorageFailure::InMemory(error)) => {
                let cause = error.message(session, hitl);
                join2("erreur lors des opérations de stockage: ", cause.as_str())
            },
            HitlError::StorageError(StorageFailure::Other(cause)) => {
                join2("erreur lors des opérations de stockage: ", cause.as_str())
            },
            HitlError::ValidationError(cause) => join2("erreur de validation: ", cause.as_str()),
        }
    }
}

/// What is wrong with the answers to `hitl`, if anything is: free text takes
/// any answers.
pub open spec fn reply_problem(
    hitl: Hitl,
    answers: Map<Seq<char>, crate::hitl::model::Answer>,
) -> Option<Seq<char>> {
    match hitl {
        Hitl::Question(question) => problem(question, answers),
        Hitl::Text => None,
    }
}

/// Checks the answers to `hitl`.
pub fn check_reply(hitl: &Hitl, answers: &Answers) -> (r: Result<(), HitlError>)
    ensures
        match r {
            Ok(_) => reply_problem(*hitl, answers@) is None,
            Err(error) => error matches HitlError::ValidationError(message) && reply_problem(
                *hitl,
                answers@,
            ) == Some(message@),
        },
{
    match hitl {
        Hitl::Question(question) => {
            match validate_answer(question, answers) {
                Ok(_) => Ok(()),
                Err(message) => Err(HitlError::ValidationError(message)),
            }
        },
        Hitl::Text => Ok(()),
    }
}

/// The questions of one session.
pub struct SessionHitls {
    pub session_id: SessionId,
}

impl SessionHitls {
    pub fn new(session_id: SessionId) -> (r: Self)
        ensures
            r.session_id == session_id,
    {
        SessionHitls { session_id }
    }

    /// Records answers to a question, then checks them. Answers that fit are
    /// announced (the result); others stay recorded all the same.
    pub fn reply(&self, store: &mut InMemoryHitlStore, id: HitlId, answers: Answers) -> (r: Result<
        HitlResponse,
        HitlError,
    >)
        ensures
            ({
                let at = place(self.session_id, id);
                if !old(store)@.contains_key(at) {
                    &&& final(store)@ == old(store)@
                    &&& r matches Err(HitlError::StorageError(StorageFailure::InMemory(error)))
                        && error == InMemoryHitlStoreError::HitlNotFound(self.session_id, id)
                } else {
                    &&& final(store)@ == old(store)@.insert(at, answered(old(store)@[at], answers))
                    &&& match r {
                        Ok(response) => {
                            &&& reply_problem(old(store)@[at].hitl, answers@) is None
                            &&& response.session_id == self.session_id
                            &&& response.id == id
                            &&& answer_views(response.answers@) == answer_views(answers@)
                        },
                        Err(HitlError::ValidationError(message)) => reply_problem(
                            old(store)@[at].hitl,
                            answers@,
                        ) == Some(message@),
                        Err(_) => false,
                    }
                }
            }),
    {
        let verdict = match store.get_hitl(&self.session_id, &id) {
            Ok(hitl) => check_reply(hitl, &answers),
            Err(error) => {
                return Err(HitlError::StorageError(StorageFailure::InMemory(error)));
            },
        };
        let announced = copy_answers(&answers);
        match store.write_hitl_response(&self.session_id, &id, answers) {
            Ok(_) => {},
            Err(error) => {
                return Err(HitlError::StorageError(StorageFailure::InMemory(error)));
            },
        }
        match verdict {
            Ok(_) => Ok(HitlResponse { session_id: self.session_id, id, answers: announced }),
            Err(error) => Err(error),
        }
    }

    /// Whether a reply is announced, whichever store holds the question:
    /// `asked` is the question that was read back after `answers` were written,
    /// or why one of the two failed.
    pub fn settle_reply(
        &self,
        id: HitlId,
        answers: Answers,
        asked: Result<Hitl, StorageFailure>,
    ) -> (r: Result<HitlResponse, HitlError>)
        ensures
            match asked {
                Err(failure) => r == Err::<HitlResponse, HitlError>(
                    HitlError::StorageError(failure),
                ),
                Ok(hitl) => match r {
                    Ok(response) => {
                        &&& reply_problem(hitl, answers@) is None
                        &&& response == (HitlResponse { session_id: self.session_id, id, answers })
                    },
                    Err(error) => error matches HitlError::ValidationError(message)
                        && reply_problem(hitl, answers@) == Some(message@),
                },
            },
    {
        match asked {
            Err(failure) => Err(HitlError::StorageError(failure)),
            Ok(hitl) => {
                match check_reply(&hitl, &answers) {
                    Ok(_) => Ok(HitlResponse { session_id: self.session_id, id, answers }),
                    Err(error) => Err(error),
                }
            },
        }
    }

    /// The frame that a question is stored as, under `id`.
    pub fn frame(&self, id: HitlId, hitl: Hitl) -> (r: HitlFrame)
        ensures
            r == (HitlFrame { session_id: self.session_id, id, hitl, answer: None }),
    {
        HitlFrame { session_id: self.session_id, id, hitl, answer: None }
    }

    /// Whether a question is announced, whichever store holds it: `stored` says
    /// whether it was stored.
    pub fn settle_request(&self, id: HitlId, hitl: Hitl, stored: Result<(), StorageFailure>) -> (r:
        Result<HitlRequest, HitlError>)
        ensures
            r == (match stored {
                Ok(_) => Ok::<HitlRequest, HitlError>(
                    HitlRequest { session_id: self.session_id, id, hitl },
                ),
                Err(failure) => Err(HitlError::StorageError(failure)),
            }),
    {
        match stored {
            Ok(_) => Ok(HitlRequest { session_id: self.session_id, id, hitl }),
            Err(failure) => Err(HitlError::StorageError(failure)),
        }
    }

    /// Stores a question under `id` and announces it (the result).
    pub fn request(&self, store: &mut InMemoryHitlStore, id: HitlId, hitl: Hitl) -> (r: HitlRequest)
        ensures
            r.session_id == self.session_id,
            r.id == id,
            r.hitl@ == hitl@,
            final(store)@ == old(store)@.insert(
                place(self.session_id, id),
                HitlFrame { session_id: self.session_id, id, hitl, answer: None },
            ),
    {
        let announced = hitl.clone();
        store.upsert_hitl_frame(self.frame(id, hitl));
        HitlRequest { session_id: self.session_id, id, hitl: announced }
    }
}

/// A question held in memory, and whether it differs from what is stored.
pub struct HitlContainer {
    pub hitl: HitlFrame,
    pub dirty: bool,
}

impl HitlContainer {
    /// A question that was just read from the store.
    pub fn from_loaded(hitl: HitlFrame) -> (r: Self)
        ensures
            r == (HitlContainer { hitl, dirty: false }),
    {
        HitlContainer { hitl, dirty: false }
    }

    /// A question that was never stored.
    pub fn from_hitl(hitl: HitlFrame) -> (r: Self)
        ensures
            r == (HitlContainer { hitl, dirty: true }),
    {
        HitlContainer { hitl, dirty: true }
    }

    /// What must be written to the store, if anything.
    pub fn to_write(&self) -> (r: Option<&HitlFrame>)
        ensures
            match r {
                Some(frame) => self.dirty && *frame == self.hitl,
                None => !self.dirty,
            },
    {
        if self.dirty {
            Some(&self.hitl)
        } else {
            None
        }
    }

    /// A write came to an end: only a successful one settles the question.
    pub fn on_flushed(&mut self, written: bool)
        ensures
            final(self).hitl == old(self).hitl,
            final(self).dirty == (old(self).dirty && !written),
    {
        if written {
            self.dirty = false;
        }
    }

    /// Gives the question out to be changed.
    pub fn get_mut(&mut self) -> (r: &mut HitlFrame)
        ensures
            *r == old(self).hitl,
            final(self).hitl == *final(r),
            final(self).dirty,
    {
        self.dirty = true;
        &mut self.hitl
    }
}

/// A free text is answered with anything, and a question as the question asks.
pub proof fn lemma_only_questions_are_checked(
    question: crate::hitl::model::Question,
    answers: Map<Seq<char>, crate::hitl::model::Answer>,
)
    ensures
        reply_problem(Hitl::Text, answers) is None,
        reply_problem(Hitl::Question(question), answers) == problem(question, answers),
{
}

} // verus!
