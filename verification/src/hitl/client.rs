//! Forms that agents put to whichever human is there, over gossip.

use crate::collections::Table;
use crate::hitl::model::{first_problem, validate_answers, Answers, Question};
use crate::id::{GlobalAgentId, ID};
use crate::text::same_text;
use vstd::prelude::*;

verus! {

/// How many forms a slow subscriber may lag behind.
pub const HITL_REQUESTS_CAPACITY: usize = 64;

/// The topic of forms and answers.
pub const HITL_TOPIC: &'static str = "marie/hitl/1.0.0";

/// A form that an agent put.
#[derive(Debug, PartialEq)]
pub struct HumanInputRequest {
    pub id: ID,
    pub agent_id: GlobalAgentId,
    pub questions: Vec<Question>,
}

impl HumanInputRequest {
    /// Checks answers against the questions of the form.
    pub fn validate(&self, answers: &Answers) -> (r: Result<(), String>)
        ensures
            match r {
                Ok(_) => first_problem(self.questions@, answers@) is None,
                Err(message) => first_problem(self.questions@, answers@) == Some(message@),
            },
    {
        validate_answers(self.questions.as_slice(), answers)
    }
}

/// The answers to a form.
pub struct HumanInputAnswer {
    pub request_id: ID,
    pub answers: Answers,
}

/// What travels on [`HITL_TOPIC`].
pub enum HitlGossipMessage {
    Request(HumanInputRequest),
    Answer(HumanInputAnswer),
}

/// What a gossip message leads to.
pub enum Ingested {
    /// Nothing.
    Ignored,
    /// Show the form to the local subscribers.
    Show(HumanInputRequest),
    /// Hand the answers to whoever waits for the form of this identifier.
    Resolve { request_id: ID, answers: Answers },
}

/// The forms of this node that wait for an answer.
pub struct HitlClient {
    pub pending: Table<ID, ()>,
}

impl HitlClient {
    pub fn new() -> (r: Self)
        ensures
            r.pending@ == Map::<u128, ()>::empty(),
    {
        HitlClient { pending: Table::new() }
    }

    /// Puts a form, and waits for its answer from now on. The message is to be
    /// published; where that fails, [`Self::on_publish_failed`] is called.
    pub fn ask(&mut self, id: ID, agent_id: GlobalAgentId, questions: Vec<Question>) -> (r:
        HitlGossipMessage)
        ensures
            r == HitlGossipMessage::Request(HumanInputRequest { id, agent_id, questions }),
            final(self).pending@ == old(self).pending@.insert(id@, ()),
    {
        let _ = self.pending.insert(id, ());
        HitlGossipMessage::Request(HumanInputRequest { id, agent_id, questions })
    }

    /// The form could not be published: nobody will answer it.
    pub fn on_publish_failed(&mut self, id: ID)
        ensures
            final(self).pending@ == old(self).pending@.remove(id@),
    {
        let _ = self.pending.remove(&id);
    }

    /// Puts a form without waiting for its answer: the agent ends its run, and
    /// is resumed once the answer is there. `id` is the tool call that the
    /// agent waits for.
    pub fn ask_and_forget(&self, id: ID, agent_id: GlobalAgentId, questions: Vec<Question>) -> (r:
        HitlGossipMessage)
        ensures
            r == HitlGossipMessage::Request(HumanInputRequest { id, agent_id, questions }),
    {
        HitlGossipMessage::Request(HumanInputRequest { id, agent_id, questions })
    }

    /// Answers a form. Answers that do not fit are never published.
    pub fn answer(&self, request: &HumanInputRequest, answers: Answers) -> (r: Result<
        HitlGossipMessage,
        String,
    >)
        ensures
            match r {
                Ok(message) => {
                    &&& first_problem(request.questions@, answers@) is None
                    &&& message == HitlGossipMessage::Answer(
                        HumanInputAnswer { request_id: request.id, answers },
                    )
                },
                Err(error) => first_problem(request.questions@, answers@) == Some(error@),
            },
    {
        match request.validate(&answers) {
            Ok(_) => Ok(
                HitlGossipMessage::Answer(HumanInputAnswer { request_id: request.id, answers }),
            ),
            Err(error) => Err(error),
        }
    }

    /// Takes in a gossip message; `message` is what it decodes to, or nothing
    /// where it does not. The first answer to a form of this node resolves it;
    /// later ones find nobody waiting.
    pub fn ingest(&mut self, topic: &str, message: Option<HitlGossipMessage>) -> (r: Ingested)
        ensures
            topic@ != HITL_TOPIC@ || message is None ==> r is Ignored && final(self).pending@
                == old(self).pending@,
            topic@ == HITL_TOPIC@ ==> match message {
                Some(HitlGossipMessage::Request(request)) => {
                    &&& r == Ingested::Show(request)
                    &&& final(self).pending@ == old(self).pending@
                },
                Some(HitlGossipMessage::Answer(answer)) => {
                    &&& final(self).pending@ == old(self).pending@.remove(answer.request_id@)
                    &&& r == (if old(self).pending@.contains_key(answer.request_id@) {
                        Ingested::Resolve {
                            request_id: answer.request_id,
                            answers: answer.answers,
                        }
                    } else {
                        Ingested::Ignored
                    })
                },
                None => true,
            },
    {
        if !same_text(topic, HITL_TOPIC) {
            return Ingested::Ignored;
        }
        match message {
            None => Ingested::Ignored,
            Some(HitlGossipMessage::Request(request)) => Ingested::Show(request),
            Some(HitlGossipMessage::Answer(answer)) => {
                match self.pending.remove(&answer.request_id) {
                    Some(_) => Ingested::Resolve {
                        request_id: answer.request_id,
                        answers: answer.answers,
                    },
                    None => Ingested::Ignored,
                }
            },
        }
    }
}

/// The first answer to a form wins: once it is taken in, the form no longer
/// waits, so that every later answer to it is ignored.
pub proof fn lemma_first_answer_wins(pending: Map<u128, ()>, id: ID, other: ID)
    requires
        pending.contains_key(id@),
    ensures
        !pending.remove(id@).contains_key(id@),
        other@ != id@ ==> pending.remove(id@).contains_key(other@) == pending.contains_key(other@),
{
}

} // verus!
