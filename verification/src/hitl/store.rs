//! Where questions are kept until they are answered, and after.

use crate::collections::{has_key, key_index, Table};
use crate::hitl::dto::PendingHitl;
use crate::hitl::model::Answers;
use crate::hitl::{Hitl, HitlFrame, HitlId, HitlKey};
use crate::id::SessionId;
use crate::text::join4;
use vstd::prelude::*;

verus! {

/// What can go wrong in a store that needs nothing outside itself.
#[derive(Debug, Clone, Copy, PartialEq, Eq, Structural)]
pub enum InMemoryHitlStoreError {
    HitlNotFound(SessionId, HitlId),
}

impl InMemoryHitlStoreError {
    /// The message of the error. `session` and `hitl` are its identifiers as
    /// they are spelled.
    pub fn message(&self, session: &str, hitl: &str) -> (r: String)
        ensures
            r@ == "hitl "@ + hitl@ + " introuvable pour la session "@ + session@,
    {
        join4("hitl ", hitl, " introuvable pour la session ", session)
    }
}

/// The place of a question.
pub open spec fn place(session_id: SessionId, id: HitlId) -> (u128, u128) {
    (session_id@, id.0.0)
}

/// Whether the question at `at` is one of `session` that waits for an answer.
pub open spec fn waits(
    store: Map<(u128, u128), HitlFrame>,
    session: SessionId,
    at: (u128, u128),
) -> bool {
    store.contains_key(at) && store[at].session_id == session && store[at].answer is None
}

/// Whether `places` are those of the questions of `session` that wait for an
/// answer, each once.
pub open spec fn lists_waiting(
    store: Map<(u128, u128), HitlFrame>,
    session: SessionId,
    places: Seq<(u128, u128)>,
) -> bool {
    &&& places.no_duplicates()
    &&& forall|at: (u128, u128)| #[trigger] places.contains(at) <==> waits(store, session, at)
}

/// The places of frames.
pub open spec fn frame_places(frames: Seq<&HitlFrame>) -> Seq<(u128, u128)> {
    frames.map_values(|f: &HitlFrame| place(f.session_id, f.id))
}

/// The places of questions.
pub open spec fn pending_places(pending: Seq<PendingHitl<'_>>) -> Seq<(u128, u128)> {
    pending.map_values(|p: PendingHitl<'_>| place(p.session_id, p.id))
}

/// A frame with an answer.
pub open spec fn answered(frame: HitlFrame, answers: Answers) -> HitlFrame {
    HitlFrame {
        session_id: frame.session_id,
        id: frame.id,
        hitl: frame.hitl,
        answer: Some(answers),
    }
}

/// A store of questions in memory.
pub struct InMemoryHitlStore {
    hitls: Table<HitlKey, HitlFrame>,
}

impl View for InMemoryHitlStore {
    type V = Map<(u128, u128), HitlFrame>;

    closed spec fn view(&self) -> Map<(u128, u128), HitlFrame> {
        self.hitls@
    }
}

impl InMemoryHitlStore {
    #[verifier::type_invariant]
    spec fn frames_at_their_place(self) -> bool {
        forall|k: (u128, u128)| #[trigger]
            self.hitls@.contains_key(k) ==> place(self.hitls@[k].session_id, self.hitls@[k].id) == k
    }

    /// An empty store.
    pub fn new() -> (r: Self)
        ensures
            r@ == Map::<(u128, u128), HitlFrame>::empty(),
    {
        InMemoryHitlStore { hitls: Table::new() }
    }

    /// A question with its answer, if it has one.
    pub fn get_hitl_frame(&self, id: &SessionId, hitl_id: &HitlId) -> (r: Result<
        &HitlFrame,
        InMemoryHitlStoreError,
    >)
        ensures
            match r {
                Ok(frame) => {
                    &&& self@.contains_key(place(*id, *hitl_id))
                    &&& *frame == self@[place(*id, *hitl_id)]
                    &&& frame.session_id == *id
                    &&& frame.id == *hitl_id
                },
                Err(error) => {
                    &&& !self@.contains_key(place(*id, *hitl_id))
                    &&& error == InMemoryHitlStoreError::HitlNotFound(*id, *hitl_id)
                },
            },
    {
        proof {
            use_type_invariant(self);
        }
        let key = HitlKey { session_id: *id, id: *hitl_id };
        match self.hitls.get(&key) {
            Some(frame) => Ok(frame),
            None => Err(InMemoryHitlStoreError::HitlNotFound(*id, *hitl_id)),
        }
    }

    /// A question without its answer.
    pub fn get_hitl(&self, id: &SessionId, hitl_id: &HitlId) -> (r: Result<
        &Hitl,
        InMemoryHitlStoreError,
    >)
        ensures
            match r {
                Ok(hitl) => {
                    &&& self@.contains_key(place(*id, *hitl_id))
                    &&& *hitl == self@[place(*id, *hitl_id)].hitl
                },
                Err(error) => {
                    &&& !self@.contains_key(place(*id, *hitl_id))
                    &&& error == InMemoryHitlStoreError::HitlNotFound(*id, *hitl_id)
                },
            },
    {
        match self.get_hitl_frame(id, hitl_id) {
            Ok(frame) => Ok(&frame.hitl),
            Err(error) => Err(error),
        }
    }

    /// The questions of a session without an answer, each once, in no
    /// particular order.
    pub fn list_unanswered_hitls_frames(&self, id: SessionId) -> (r: Vec<&HitlFrame>)
        ensures
            lists_waiting(self@, id, frame_places(r@)),
            forall|i: int|
                0 <= i < r@.len() ==> *(#[trigger] r@[i]) == self@[frame_places(r@)[i]],
    {
        proof {
            use_type_invariant(self);
        }
        let ghost all = self.hitls.entries();
        let n: usize = self.hitls.len();
        let mut r: Vec<&HitlFrame> = Vec::new();
        // Where each listed frame stands among the entries.
        let ghost mut from: Seq<int> = Seq::empty();
        let mut i: usize = 0;
        while i < n
            invariant
                i <= n,
                n == all.len(),
                all == self.hitls.entries(),
                from.len() == r@.len(),
                forall|k: int|
                    0 <= k < from.len() ==> {
                        &&& 0 <= #[trigger] from[k] < i
                        &&& *r@[k] == all[from[k]].1
                        &&& all[from[k]].1.session_id == id
                        &&& all[from[k]].1.answer is None
                    },
                forall|k: int, l: int| 0 <= k < l < from.len() ==> from[k] < from[l],
                forall|j: int|
                    0 <= j < i && (#[trigger] all[j]).1.session_id == id && all[j].1.answer is None
                        ==> from.contains(j),
            decreases n - i,
        {
            let frame = self.hitls.value_at(i);
            if frame.session_id == id && frame.answer.is_none() {
                r.push(frame);
                proof {
                    let before = from;
                    from = before.push(i as int);
                    assert forall|j: int|
                        0 <= j < i + 1 && (#[trigger] all[j]).1.session_id == id
                            && all[j].1.answer is None implies from.contains(j) by {
                        if j < i {
                            assert(from[before.index_of(j)] == j);
                        } else {
                            assert(from[before.len() as int] == j);
                        }
                    }
                }
            }
            i = i + 1;
        }
        proof {
            let places = frame_places(r@);
            assert forall|k: int| 0 <= k < places.len() implies {
                &&& #[trigger] places[k] == all[from[k]].0@
                &&& self@.contains_key(places[k])
                &&& *r@[k] == self@[places[k]]
            } by {
                let entry = all[from[k]];
                assert(self.hitls@.contains_key(entry.0@));
                assert(self.hitls@[entry.0@] == entry.1);
            }
            assert forall|k: int, l: int| 0 <= k < l < places.len() implies places[k]
                != places[l] by {
                assert(from[k] < from[l]);
                assert(all[from[k]].0@ != all[from[l]].0@);
            }
            assert forall|at: (u128, u128)| #[trigger] places.contains(at) <==> waits(
                self@,
                id,
                at,
            ) by {
                if places.contains(at) {
                    let k = places.index_of(at);
                    assert(places[k] == at);
                }
                if waits(self@, id, at) {
                    assert(has_key(all, at));
                    let j = key_index(all, at);
                    assert(all[j].0@ == at);
                    assert(self.hitls@[all[j].0@] == all[j].1);
                    assert(from.contains(j));
                    let k = from.index_of(j);
                    assert(places[k] == at);
                }
            }
        }
        r
    }

    /// Stores a question, over what was at its place.
    pub fn upsert_hitl_frame(&mut self, hitl: HitlFrame)
        ensures
            final(self)@ == old(self)@.insert(place(hitl.session_id, hitl.id), hitl),
    {
        proof {
            use_type_invariant(&*self);
        }
        let key = HitlKey { session_id: hitl.session_id, id: hitl.id };
        let mut hitls: Table<HitlKey, HitlFrame> = Table::new();
        std::mem::swap(&mut hitls, &mut self.hitls);
        let _ = hitls.insert(key, hitl);
        self.hitls = hitls;
    }

    /// Records the answer to a question.
    pub fn write_hitl_response(
        &mut self,
        id: &SessionId,
        hitl_id: &HitlId,
        answers: Answers,
    ) -> (r: Result<(), InMemoryHitlStoreError>)
        ensures
            match r {
                Ok(_) => {
                    &&& old(self)@.contains_key(place(*id, *hitl_id))
                    &&& final(self)@ == old(self)@.insert(
                        place(*id, *hitl_id),
                        answered(old(self)@[place(*id, *hitl_id)], answers),
                    )
                },
                Err(error) => {
                    &&& !old(self)@.contains_key(place(*id, *hitl_id))
                    &&& error == InMemoryHitlStoreError::HitlNotFound(*id, *hitl_id)
                    &&& final(self)@ == old(self)@
                },
            },
    {
        proof {
            use_type_invariant(&*self);
        }
        let ghost before = self.hitls@;
        let key = HitlKey { session_id: *id, id: *hitl_id };
        let mut hitls: Table<HitlKey, HitlFrame> = Table::new();
        std::mem::swap(&mut hitls, &mut self.hitls);
        match hitls.remove(&key) {
            Some(frame) => {
                let next = HitlFrame {
                    session_id: frame.session_id,
                    id: frame.id,
                    hitl: frame.hitl,
                    answer: Some(answers),
                };
                let ghost kept = next;
                let _ = hitls.insert(key, next);
                proof {
                    assert(hitls@ =~= before.insert(key@, kept));
                }
                self.hitls = hitls;
                Ok(())
            },
            None => {
                proof {
                    assert(hitls@ =~= before);
                }
                self.hitls = hitls;
                Err(InMemoryHitlStoreError::HitlNotFound(*id, *hitl_id))
            },
        }
    }

    /// The questions of a session that wait for an answer, each once, in no
    /// particular order.
    pub fn list_pending_hitls(&self, id: SessionId) -> (r: Vec<PendingHitl<'_>>)
        ensures
            lists_waiting(self@, id, pending_places(r@)),
            forall|i: int|
                0 <= i < r@.len() ==> {
                    let frame = self@[pending_places(r@)[i]];
                    &&& (#[trigger] r@[i]).session_id == frame.session_id
                    &&& r@[i].id == frame.id
                    &&& *r@[i].hitl == frame.hitl
                },
    {
        let frames = self.list_unanswered_hitls_frames(id);
        let mut r: Vec<PendingHitl<'_>> = Vec::new();
        let mut i: usize = 0;
        while i < frames.len()
            invariant
                i <= frames@.len(),
                r@.len() == i,
                forall|k: int|
                    0 <= k < i ==> {
                        &&& (#[trigger] r@[k]).session_id == frames@[k].session_id
                        &&& r@[k].id == frames@[k].id
                        &&& *r@[k].hitl == frames@[k].hitl
                    },
            decreases frames@.len() - i,
        {
            let frame = frames[i];
            r.push(
                PendingHitl { session_id: frame.session_id, id: frame.id, hitl: &frame.hitl },
            );
            i = i + 1;
        }
        proof {
            assert(pending_places(r@) =~= frame_places(frames@));
            assert forall|k: int| 0 <= k < r@.len() implies {
                let frame = self@[pending_places(r@)[k]];
                &&& (#[trigger] r@[k]).session_id == frame.session_id
                &&& r@[k].id == frame.id
                &&& *r@[k].hitl == frame.hitl
            } by {
                assert(*frames@[k] == self@[frame_places(frames@)[k]]);
            }
        }
        r
    }
}

/// A question that is stored without an answer waits for one, and does so no
/// more once an answer is recorded; what else is stored does not change.
pub proof fn lemma_answer_is_recorded(
    store: Map<(u128, u128), HitlFrame>,
    frame: HitlFrame,
    answers: Answers,
    other: (u128, u128),
)
    requires
        frame.answer is None,
    ensures
        ({
            let at = place(frame.session_id, frame.id);
            let asked = store.insert(at, frame);
            let done = asked.insert(at, answered(asked[at], answers));
            &&& asked[at].answer is None
            &&& done[at].answer == Some(answers)
            &&& done[at].hitl == frame.hitl
            &&& other != at && store.contains_key(other) ==> done.contains_key(other) && done[other]
                == store[other]
        }),
{
}

/// A new store lists nothing. A question that is stored without an answer is
/// listed for its session, and is listed no more once an answer is recorded.
/// Neither changes whether another question is listed.
pub proof fn lemma_listed_until_answered(
    store: Map<(u128, u128), HitlFrame>,
    frame: HitlFrame,
    answers: Answers,
    session: SessionId,
    empty: Seq<(u128, u128)>,
    before: Seq<(u128, u128)>,
    asked: Seq<(u128, u128)>,
    done: Seq<(u128, u128)>,
)
    requires
        frame.answer is None,
        lists_waiting(Map::empty(), session, empty),
        lists_waiting(store, session, before),
        lists_waiting(store.insert(place(frame.session_id, frame.id), frame), session, asked),
        lists_waiting(
            store.insert(place(frame.session_id, frame.id), answered(frame, answers)),
            session,
            done,
        ),
    ensures
        empty.len() == 0,
        asked.contains(place(frame.session_id, frame.id)) <==> session == frame.session_id,
        !done.contains(place(frame.session_id, frame.id)),
        forall|other: (u128, u128)|
            other != place(frame.session_id, frame.id) ==> {
                &&& #[trigger] before.contains(other) == asked.contains(other)
                &&& before.contains(other) == done.contains(other)
            },
{
    let at = place(frame.session_id, frame.id);
    let with_question = store.insert(at, frame);
    let with_answer = store.insert(at, answered(frame, answers));
    if empty.len() > 0 {
        assert(empty.contains(empty[0]));
        assert(waits(Map::empty(), session, empty[0]));
    }
    assert(asked.contains(at) <==> waits(with_question, session, at));
    assert(done.contains(at) <==> waits(with_answer, session, at));
    assert forall|other: (u128, u128)| other != at implies {
        &&& #[trigger] before.contains(other) == asked.contains(other)
        &&& before.contains(other) == done.contains(other)
    } by {
        assert(before.contains(other) <==> waits(store, session, other));
        assert(asked.contains(other) <==> waits(with_question, session, other));
        assert(done.contains(other) <==> waits(with_answer, session, other));
    }
}

/// The list holds the questions of the session that have no answer, and no
/// others, each once.
pub proof fn lemma_listed_are_unanswered(
    store: Map<(u128, u128), HitlFrame>,
    session: SessionId,
    places: Seq<(u128, u128)>,
    at: (u128, u128),
)
    requires
        lists_waiting(store, session, places),
    ensures
        places.contains(at) <==> store.contains_key(at) && store[at].session_id == session
            && store[at].answer is None,
        forall|i: int, j: int| 0 <= i < j < places.len() ==> places[i] != places[j],
{
}

/// An answer changes nothing else of a frame.
pub proof fn lemma_answer_keeps_the_question(frame: HitlFrame, answers: Answers)
    ensures
        answered(frame, answers).answer == Some(answers),
        answered(frame, answers).session_id == frame.session_id,
        answered(frame, answers).id == frame.id,
        answered(frame, answers).hitl == frame.hitl,
{
}

/// Every question of every session has a place of its own.
pub proof fn lemma_places_are_distinct(
    session: SessionId,
    id: HitlId,
    other_session: SessionId,
    other: HitlId,
)
    ensures
        place(session, id) == place(other_session, other) <==> session@ == other_session@ && id
            == other,
{
}

} // verus!
