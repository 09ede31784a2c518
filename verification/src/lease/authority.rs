//! The lease authority: who may drive a session, and for how long.
//!
//! The authority is replicated. It only ever sees requests that the cluster
//! has agreed on, in the order that it agreed on.

use crate::collections::{value_views, Duplicate, Key, Table};
use crate::id::SessionId;
use crate::lease::protocol::{LeaseOp, LeaseOutcome, LeaseRequest, LeaseResponse, LeaseResult};
use crate::lease::time::{checked_plus, in_calendar, plus, utc_now, Span, Timestamp};
use crate::node::NodeId;
use vstd::prelude::*;

verus! {

/// A lease on a session.
#[derive(Debug, PartialEq)]
pub struct LeaseEntry {
    pub holder: NodeId,
    pub epoch: u64,
    pub expires_at: Timestamp,
}

/// A [`LeaseEntry`], with its holder by its bytes.
pub struct Lease {
    pub holder: Seq<u8>,
    pub epoch: u64,
    pub expires_at: Timestamp,
}

impl View for LeaseEntry {
    type V = Lease;

    open spec fn view(&self) -> Lease {
        Lease { holder: self.holder@, epoch: self.epoch, expires_at: self.expires_at }
    }
}

impl Duplicate for LeaseEntry {
    fn duplicate(&self) -> (r: Self) {
        LeaseEntry {
            holder: self.holder.clone(),
            epoch: self.epoch,
            expires_at: self.expires_at,
        }
    }
}

impl LeaseEntry {
    /// Whether the lease is over at time `t`.
    pub fn has_expired(&self, t: &Timestamp) -> (r: bool)
        ensures
            r == self@.expired(*t),
    {
        self.expires_at.not_after(t)
    }
}

impl Lease {
    /// Whether the lease is over at time `t`.
    pub open spec fn expired(&self, t: Timestamp) -> bool {
        self.expires_at.at_most(t)
    }
}

/// What the authority knows: the leases, and the last epoch of each session.
#[verifier::ext_equal]
pub struct LeaseState {
    pub leases: Map<u128, Lease>,
    pub epochs: Map<u128, u64>,
}

impl LeaseState {
    /// Nothing was ever leased.
    pub open spec fn initial() -> LeaseState {
        LeaseState { leases: Map::empty(), epochs: Map::empty() }
    }

    /// Whether every lease carries the last epoch of its session, or an
    /// earlier one.
    pub open spec fn coherent(&self) -> bool {
        forall|s: u128| #[trigger]
            self.leases.contains_key(s) ==> self.epochs.contains_key(s) && self.leases[s].epoch
                <= self.epochs[s]
    }

    /// The epoch of the next lease of `session`.
    pub open spec fn next_epoch(&self, session: u128) -> int {
        if self.epochs.contains_key(session) {
            self.epochs[session] + 1
        } else {
            1
        }
    }

    /// Whether `session` has a lease that is not over at time `now`.
    pub open spec fn is_held(&self, session: u128, now: Timestamp) -> bool {
        self.leases.contains_key(session) && !self.leases[session].expired(now)
    }

    /// Whether `holder` has the lease of `session` with `epoch`.
    pub open spec fn is_held_by(&self, session: u128, holder: Seq<u8>, epoch: u64) -> bool {
        self.leases.contains_key(session) && self.leases[session].holder == holder
            && self.leases[session].epoch == epoch
    }

    /// The refusal of a request on `session` by `asker`: it names the holder
    /// where there is one, and the asker with epoch zero where there is none.
    pub open spec fn refusal(&self, session: u128, asker: Seq<u8>) -> LeaseOutcome {
        if self.leases.contains_key(session) {
            LeaseOutcome::Denied {
                current_holder: self.leases[session].holder,
                current_epoch: self.leases[session].epoch,
            }
        } else {
            LeaseOutcome::Denied { current_holder: asker, current_epoch: 0 }
        }
    }

    /// The state after a request at time `now`.
    pub open spec fn after(&self, session: u128, op: LeaseOp, now: Timestamp) -> LeaseState {
        match op {
            LeaseOp::Acquire { holder, ttl } => if self.is_held(session, now) {
                *self
            } else {
                let epoch = self.next_epoch(session) as u64;
                LeaseState {
                    leases: self.leases.insert(
                        session,
                        Lease { holder: holder@, epoch, expires_at: plus(now, ttl) },
                    ),
                    epochs: self.epochs.insert(session, epoch),
                }
            },
            LeaseOp::Renew { holder, epoch, ttl } => if self.is_held_by(session, holder@, epoch) {
                LeaseState {
                    leases: self.leases.insert(
                        session,
                        Lease {
                            holder: self.leases[session].holder,
                            epoch,
                            expires_at: plus(now, ttl),
                        },
                    ),
                    epochs: self.epochs,
                }
            } else {
                *self
            },
            LeaseOp::Release { holder, epoch } => if self.is_held_by(session, holder@, epoch) {
                LeaseState { leases: self.leases.remove(session), epochs: self.epochs }
            } else {
                *self
            },
        }
    }

    /// The answer to a request at time `now`.
    pub open spec fn answer(&self, session: u128, op: LeaseOp, now: Timestamp) -> LeaseOutcome {
        match op {
            LeaseOp::Acquire { holder, ttl } => if self.is_held(session, now) {
                self.refusal(session, holder@)
            } else {
                LeaseOutcome::Granted {
                    epoch: self.next_epoch(session) as u64,
                    expires_at: plus(now, ttl),
                }
            },
            LeaseOp::Renew { holder, epoch, ttl } => if self.is_held_by(session, holder@, epoch) {
                LeaseOutcome::Renewed { expires_at: plus(now, ttl) }
            } else {
                self.refusal(session, holder@)
            },
            LeaseOp::Release { holder, epoch } => if self.is_held_by(session, holder@, epoch) {
                LeaseOutcome::Renewed { expires_at: Timestamp::epoch_start() }
            } else {
                self.refusal(session, holder@)
            },
        }
    }

    /// Whether a request can be answered at time `now`: where a new deadline
    /// is due it must lie in the calendar, and where a new epoch is due there
    /// must be one left.
    pub open spec fn answerable(&self, session: u128, op: LeaseOp, now: Timestamp) -> bool {
        match op {
            LeaseOp::Acquire { holder, ttl } => self.is_held(session, now) || (in_calendar(now, ttl)
                && self.next_epoch(session) <= u64::MAX),
            LeaseOp::Renew { holder, epoch, ttl } => self.is_held_by(session, holder@, epoch)
                ==> in_calendar(now, ttl),
            LeaseOp::Release { .. } => true,
        }
    }
}

/// Whether the span of a request is well formed.
pub open spec fn valid_op(op: LeaseOp) -> bool {
    op.ttl_of() matches Some(ttl) ==> ttl.valid()
}

/// The leases of a table, by their views.
pub open spec fn lease_views(leases: Map<u128, LeaseEntry>) -> Map<u128, Lease> {
    Map::new(|s: u128| leases.contains_key(s), |s: u128| leases[s]@)
}

/// The replicated state of the leases.
pub struct LeaseAuthority {
    leases: Table<SessionId, LeaseEntry>,
    epochs: Table<SessionId, u64>,
}

impl View for LeaseAuthority {
    type V = LeaseState;

    closed spec fn view(&self) -> LeaseState {
        LeaseState { leases: lease_views(self.leases@), epochs: self.epochs@ }
    }
}

impl LeaseAuthority {
    /// An authority that never leased anything.
    pub fn new() -> (r: Self)
        ensures
            r@ == LeaseState::initial(),
    {
        let r = LeaseAuthority { leases: Table::new(), epochs: Table::new() };
        assert(r@ =~= LeaseState::initial());
        r
    }

    /// Answers a request that the cluster agreed on, at time `now`.
    pub fn handle_request_at(&mut self, request: &LeaseRequest, now: Timestamp) -> (r:
        LeaseResponse)
        requires
            now.valid(),
            valid_op(request.op),
            old(self)@.answerable(request.session_id@, request.op, now),
        ensures
            final(self)@ == old(self)@.after(request.session_id@, request.op, now),
            r.result@ == old(self)@.answer(request.session_id@, request.op, now),
            r.request_id == request.request_id,
    {
        let result = match &request.op {
            LeaseOp::Acquire { holder, ttl } => self.acquire(request.session_id, holder, *ttl, now),
            LeaseOp::Renew { holder, epoch, ttl } => self.renew(
                request.session_id,
                holder,
                *epoch,
                *ttl,
                now,
            ),
            LeaseOp::Release { holder, epoch } => self.release(request.session_id, holder, *epoch),
        };
        LeaseResponse { request_id: request.request_id, result }
    }

    /// Whether a request can be answered at time `now`.
    pub fn can_answer(&self, request: &LeaseRequest, now: Timestamp) -> (r: bool)
        requires
            now.valid(),
            valid_op(request.op),
        ensures
            r == self@.answerable(request.session_id@, request.op, now),
    {
        let session = request.session_id;
        match &request.op {
            LeaseOp::Acquire { holder: _, ttl } => {
                match self.leases.get(&session) {
                    Some(lease) => {
                        if !lease.has_expired(&now) {
                            return true;
                        }
                    },
                    None => {},
                }
                let has_epoch = match self.epochs.get(&session) {
                    Some(epoch) => *epoch < u64::MAX,
                    None => true,
                };
                has_epoch && checked_plus(now, *ttl).is_some()
            },
            LeaseOp::Renew { holder, epoch, ttl } => {
                match self.leases.get(&session) {
                    Some(lease) => {
                        if lease.holder.same(holder) && lease.epoch == *epoch {
                            return checked_plus(now, *ttl).is_some();
                        }
                    },
                    None => {},
                }
                true
            },
            LeaseOp::Release { .. } => true,
        }
    }

    /// Answers a request that the cluster agreed on, at the time that the
    /// clock shows; nothing happens where it cannot be answered then.
    pub fn handle_request(&mut self, request: &LeaseRequest) -> (r: Option<LeaseResponse>)
        requires
            valid_op(request.op),
        ensures
            exists|now: Timestamp| #[trigger]
                now.valid() && match r {
                    Some(response) => {
                        &&& old(self)@.answerable(request.session_id@, request.op, now)
                        &&& final(self)@ == old(self)@.after(request.session_id@, request.op, now)
                        &&& response.result@ == old(self)@.answer(
                            request.session_id@,
                            request.op,
                            now,
                        )
                        &&& response.request_id == request.request_id
                    },
                    None => {
                        &&& !old(self)@.answerable(request.session_id@, request.op, now)
                        &&& final(self)@ == old(self)@
                    },
                },
    {
        let now = utc_now();
        assert(now.valid());
        if self.can_answer(request, now) {
            Some(self.handle_request_at(request, now))
        } else {
            None
        }
    }

    /// Gives the lease back: only its holder can, with the epoch of the lease.
    fn release(&mut self, session_id: SessionId, holder: &NodeId, epoch: u64) -> (r: LeaseResult)
        ensures
            ({
                let op = LeaseOp::Release { holder: *holder, epoch };
                let now = Timestamp::epoch_start();
                &&& final(self)@ == old(self)@.after(session_id@, op, now)
                &&& r@ == old(self)@.answer(session_id@, op, now)
            }),
    {
        let ghost before = self@;
        match self.leases.get(&session_id) {
            Some(lease) => {
                if lease.holder.same(holder) && lease.epoch == epoch {
                    let _ = self.leases.remove(&session_id);
                    assert(self@.leases =~= before.leases.remove(session_id@));
                    return LeaseResult::Renewed { expires_at: Timestamp { secs: 0, nanos: 0 } };
                }
                LeaseResult::Denied {
                    current_holder: lease.holder.clone(),
                    current_epoch: lease.epoch,
                }
            },
            None => LeaseResult::Denied { current_holder: holder.clone(), current_epoch: 0 },
        }
    }

    /// Prolongs the lease: only its holder can, with the epoch of the lease.
    fn renew(
        &mut self,
        session_id: SessionId,
        holder: &NodeId,
        epoch: u64,
        ttl: Span,
        now: Timestamp,
    ) -> (r: LeaseResult)
        requires
            now.valid(),
            ttl.valid(),
            old(self)@.answerable(
                session_id@,
                LeaseOp::Renew { holder: *holder, epoch, ttl },
                now,
            ),
        ensures
            ({
                let op = LeaseOp::Renew { holder: *holder, epoch, ttl };
                &&& final(self)@ == old(self)@.after(session_id@, op, now)
                &&& r@ == old(self)@.answer(session_id@, op, now)
            }),
    {
        let ghost before = self@;
        match self.leases.get(&session_id) {
            Some(lease) => {
                if lease.holder.same(holder) && lease.epoch == epoch {
                    let current = lease.holder.clone();
                    match checked_plus(now, ttl) {
                        Some(expires_at) => {
                            let _ = self.leases.insert(
                                session_id,
                                LeaseEntry { holder: current, epoch, expires_at },
                            );
                            assert(self@.leases =~= before.after(
                                session_id@,
                                LeaseOp::Renew { holder: *holder, epoch, ttl },
                                now,
                            ).leases);
                            return LeaseResult::Renewed { expires_at };
                        },
                        None => {
                            assert(false);
                        },
                    }
                }
                match self.leases.get(&session_id) {
                    Some(lease) => LeaseResult::Denied {
                        current_holder: lease.holder.clone(),
                        current_epoch: lease.epoch,
                    },
                    None => LeaseResult::Denied { current_holder: holder.clone(), current_epoch: 0 },
                }
            },
            None => LeaseResult::Denied { current_holder: holder.clone(), current_epoch: 0 },
        }
    }

    /// Takes the lease where nobody holds it any more. Each lease of a session
    /// has an epoch of its own, one more than that of the lease before it.
    fn acquire(
        &mut self,
        session_id: SessionId,
        holder: &NodeId,
        ttl: Span,
        now: Timestamp,
    ) -> (r: LeaseResult)
        requires
            now.valid(),
            ttl.valid(),
            old(self)@.answerable(session_id@, LeaseOp::Acquire { holder: *holder, ttl }, now),
        ensures
            ({
                let op = LeaseOp::Acquire { holder: *holder, ttl };
                &&& final(self)@ == old(self)@.after(session_id@, op, now)
                &&& r@ == old(self)@.answer(session_id@, op, now)
            }),
    {
        let ghost before = self@;
        match self.leases.get(&session_id) {
            Some(lease) => {
                if !lease.has_expired(&now) {
                    return LeaseResult::Denied {
                        current_holder: lease.holder.clone(),
                        current_epoch: lease.epoch,
                    };
                }
            },
            None => {},
        }
        let epoch: u64 = match self.epochs.get(&session_id) {
            Some(epoch) => *epoch + 1,
            None => 1,
        };
        match checked_plus(now, ttl) {
            Some(expires_at) => {
                let _ = self.epochs.insert(session_id, epoch);
                let _ = self.leases.insert(
                    session_id,
                    LeaseEntry { holder: holder.clone(), epoch, expires_at },
                );
                assert(self@.leases =~= before.after(
                    session_id@,
                    LeaseOp::Acquire { holder: *holder, ttl },
                    now,
                ).leases);
                LeaseResult::Granted { epoch, expires_at }
            },
            None => {
                assert(false);
                LeaseResult::Denied { current_holder: holder.clone(), current_epoch: 0 }
            },
        }
    }

    /// A copy of the whole state.
    pub fn snapshot(&self) -> (r: LeaseSnapshot)
        ensures
            r@ == self@,
    {
        let r = LeaseSnapshot { leases: self.leases.duplicate(), epochs: self.epochs.duplicate() };
        proof {
            assert(r@.leases =~= value_views(r.leases@));
            assert(self@.leases =~= value_views(self.leases@));
            assert(r@.epochs =~= value_views(r.epochs@));
            assert(self@.epochs =~= value_views(self.epochs@));
        }
        r
    }

    /// Replaces the whole state by `snapshot`.
    pub fn restore(&mut self, snapshot: LeaseSnapshot)
        ensures
            final(self)@ == snapshot@,
    {
        self.leases = snapshot.leases;
        self.epochs = snapshot.epochs;
    }
}

/// A copy of the state of a [`LeaseAuthority`].
pub struct LeaseSnapshot {
    pub leases: Table<SessionId, LeaseEntry>,
    pub epochs: Table<SessionId, u64>,
}

impl View for LeaseSnapshot {
    type V = LeaseState;

    open spec fn view(&self) -> LeaseState {
        LeaseState { leases: lease_views(self.leases@), epochs: self.epochs@ }
    }
}

impl LeaseSnapshot {
    /// The snapshot of an authority that never leased anything.
    pub fn empty() -> (r: Self)
        ensures
            r@ == LeaseState::initial(),
            r.leases.entries() == Seq::<(SessionId, LeaseEntry)>::empty(),
            r.epochs.entries() == Seq::<(SessionId, u64)>::empty(),
    {
        let r = LeaseSnapshot { leases: Table::new(), epochs: Table::new() };
        assert(r@ =~= LeaseState::initial());
        r
    }
}

/// Requests keep the state coherent, from the first one on.
pub proof fn lemma_stays_coherent(state: LeaseState, session: u128, op: LeaseOp, now: Timestamp)
    requires
        state.coherent(),
        state.answerable(session, op, now),
    ensures
        LeaseState::initial().coherent(),
        state.after(session, op, now).coherent(),
{
}

/// While a lease runs, nobody else gets the session, and nothing changes for
/// its holder: the refusal names the holder and the epoch.
pub proof fn lemma_running_lease_excludes_others(
    state: LeaseState,
    session: u128,
    holder: NodeId,
    ttl: Span,
    now: Timestamp,
)
    requires
        state.is_held(session, now),
    ensures
        state.answer(session, LeaseOp::Acquire { holder, ttl }, now) == (LeaseOutcome::Denied {
            current_holder: state.leases[session].holder,
            current_epoch: state.leases[session].epoch,
        }),
        state.after(session, LeaseOp::Acquire { holder, ttl }, now) == state,
{
}

/// A granted lease is held with the granted epoch until the granted time, and
/// its epoch is beyond every epoch that the session had before.
pub proof fn lemma_granted_epoch_is_new(
    state: LeaseState,
    session: u128,
    holder: NodeId,
    ttl: Span,
    now: Timestamp,
)
    requires
        state.coherent(),
        !state.is_held(session, now),
        state.answerable(session, LeaseOp::Acquire { holder, ttl }, now),
    ensures
        ({
            let op = LeaseOp::Acquire { holder, ttl };
            let after = state.after(session, op, now);
            &&& state.answer(session, op, now) == (LeaseOutcome::Granted {
                epoch: after.epochs[session],
                expires_at: plus(now, ttl),
            })
            &&& after.is_held_by(session, holder@, after.epochs[session])
            &&& after.leases[session].expires_at == plus(now, ttl)
            &&& state.epochs.contains_key(session) ==> after.epochs[session] > state.epochs[session]
            &&& state.leases.contains_key(session) ==> after.epochs[session]
                > state.leases[session].epoch
        }),
{
}

/// No request takes an epoch back: the last epoch of a session never falls, so
/// no epoch is ever granted twice.
pub proof fn lemma_epochs_never_fall(
    state: LeaseState,
    session: u128,
    op: LeaseOp,
    now: Timestamp,
    other: u128,
)
    requires
        state.answerable(session, op, now),
        state.epochs.contains_key(other),
    ensures
        state.after(session, op, now).epochs.contains_key(other),
        state.after(session, op, now).epochs[other] >= state.epochs[other],
{
}

/// The holder renews with its epoch, whether or not the lease ran out
/// meanwhile, and then holds it until the new time.
pub proof fn lemma_holder_renews(
    state: LeaseState,
    session: u128,
    holder: NodeId,
    epoch: u64,
    ttl: Span,
    now: Timestamp,
)
    requires
        state.is_held_by(session, holder@, epoch),
    ensures
        ({
            let op = LeaseOp::Renew { holder, epoch, ttl };
            &&& state.answer(session, op, now) == (LeaseOutcome::Renewed {
                expires_at: plus(now, ttl),
            })
            &&& state.after(session, op, now).is_held_by(session, holder@, epoch)
            &&& state.after(session, op, now).leases[session].expires_at == plus(now, ttl)
        }),
{
}

/// Whoever does not hold the lease with its very epoch can neither renew nor
/// release it, and changes nothing: a holder that lost its lease cannot touch
/// the lease of its successor.
pub proof fn lemma_stale_epoch_is_refused(
    state: LeaseState,
    session: u128,
    holder: NodeId,
    epoch: u64,
    ttl: Span,
    now: Timestamp,
)
    requires
        !state.is_held_by(session, holder@, epoch),
    ensures
        state.answer(session, LeaseOp::Renew { holder, epoch, ttl }, now) is Denied,
        state.after(session, LeaseOp::Renew { holder, epoch, ttl }, now) == state,
        state.answer(session, LeaseOp::Release { holder, epoch }, now) is Denied,
        state.after(session, LeaseOp::Release { holder, epoch }, now) == state,
{
}

/// After a release anyone gets the session at once, with the next epoch.
pub proof fn lemma_release_frees_the_session(
    state: LeaseState,
    session: u128,
    holder: NodeId,
    next: NodeId,
    ttl: Span,
    released: Timestamp,
    now: Timestamp,
)
    requires
        state.coherent(),
        state.leases.contains_key(session),
        state.is_held_by(session, holder@, state.epochs[session]),
    ensures
        ({
            let freed = state.after(
                session,
                LeaseOp::Release { holder, epoch: state.epochs[session] },
                released,
            );
            &&& !freed.is_held(session, now)
            &&& freed.next_epoch(session) == state.epochs[session] + 1
            &&& freed.answer(session, LeaseOp::Acquire { holder: next, ttl }, now) is Granted
        }),
{
}

/// A request on one session touches no other session.
pub proof fn lemma_other_sessions_untouched(
    state: LeaseState,
    session: u128,
    op: LeaseOp,
    now: Timestamp,
    other: u128,
)
    requires
        other != session,
    ensures
        state.after(session, op, now).leases.contains_key(other) == state.leases.contains_key(other),
        state.leases.contains_key(other) ==> state.after(session, op, now).leases[other]
            == state.leases[other],
        state.after(session, op, now).epochs.contains_key(other) == state.epochs.contains_key(other),
        state.epochs.contains_key(other) ==> state.after(session, op, now).epochs[other]
            == state.epochs[other],
{
}

/// What becomes of a request to get a session. Where a lease on it ends later than
/// now, the request is refused with who holds it and under which epoch, and nothing
/// changes. Otherwise the asker gets it, from now for as long as it asked, under an
/// epoch one higher than the last one that the session had, or the first one.
pub proof fn lemma_acquire_is_exact(
    state: LeaseState,
    session: u128,
    holder: NodeId,
    ttl: Span,
    now: Timestamp,
)
    requires
        !state.epochs.contains_key(session) || state.epochs[session] < u64::MAX,
    ensures
        ({
            let op = LeaseOp::Acquire { holder, ttl };
            let after = state.after(session, op, now);
            let runs = state.leases.contains_key(session) && ({
                let end = state.leases[session].expires_at;
                end.secs > now.secs || (end.secs == now.secs && end.nanos > now.nanos)
            });
            &&& runs ==> after == state && state.answer(session, op, now) == (LeaseOutcome::Denied {
                current_holder: state.leases[session].holder,
                current_epoch: state.leases[session].epoch,
            })
            &&& !runs ==> ({
                &&& state.answer(session, op, now) matches LeaseOutcome::Granted {
                    epoch,
                    expires_at,
                }
                &&& epoch == (if state.epochs.contains_key(session) {
                    state.epochs[session] + 1
                } else {
                    1
                })
                &&& expires_at == plus(now, ttl)
                &&& after.leases.contains_key(session)
                &&& after.leases[session] == (Lease { holder: holder@, epoch, expires_at })
                &&& after.epochs.contains_key(session)
                &&& after.epochs[session] == epoch
            })
        }),
{
}

/// What becomes of a request to keep a session, or to give it back. Only whoever
/// holds the lease, with its very epoch, can do either, and can do so whether or
/// not the lease ran out meanwhile: keeping it sets a new end and nothing else,
/// giving it back ends it and keeps the epoch. Anybody else is told who holds it,
/// or, where nobody does, itself and no epoch, and changes nothing.
pub proof fn lemma_renew_and_release_are_exact(
    state: LeaseState,
    session: u128,
    holder: NodeId,
    epoch: u64,
    ttl: Span,
    now: Timestamp,
)
    ensures
        ({
            let renew = LeaseOp::Renew { holder, epoch, ttl };
            let release = LeaseOp::Release { holder, epoch };
            let renewed = state.after(session, renew, now);
            let released = state.after(session, release, now);
            let mine = state.leases.contains_key(session) && state.leases[session].holder
                == holder@ && state.leases[session].epoch == epoch;
            &&& mine ==> {
                &&& state.answer(session, renew, now) == (LeaseOutcome::Renewed {
                    expires_at: plus(now, ttl),
                })
                &&& renewed.leases == state.leases.insert(
                    session,
                    Lease { holder: holder@, epoch, expires_at: plus(now, ttl) },
                )
                &&& renewed.epochs == state.epochs
                &&& state.answer(session, release, now) == (LeaseOutcome::Renewed {
                    expires_at: Timestamp { secs: 0, nanos: 0 },
                })
                &&& released.leases == state.leases.remove(session)
                &&& released.epochs == state.epochs
            }
            &&& !mine ==> {
                let refusal = LeaseOutcome::Denied {
                    current_holder: if state.leases.contains_key(session) {
                        state.leases[session].holder
                    } else {
                        holder@
                    },
                    current_epoch: if state.leases.contains_key(session) {
                        state.leases[session].epoch
                    } else {
                        0
                    },
                };
                &&& renewed == state
                &&& released == state
                &&& state.answer(session, renew, now) == refusal
                &&& state.answer(session, release, now) == refusal
            }
        }),
{
}

/// A request can be answered but where the new end of a lease would lie outside of
/// the calendar, or where the session has had the last epoch there is.
pub proof fn lemma_when_answerable(
    state: LeaseState,
    session: u128,
    op: LeaseOp,
    now: Timestamp,
)
    ensures
        op is Release ==> state.answerable(session, op, now),
        (op.ttl_of() matches Some(ttl) && in_calendar(now, ttl)) && (state.epochs.contains_key(
            session,
        ) ==> state.epochs[session] < u64::MAX) ==> state.answerable(session, op, now),
        state.answerable(session, op, now) && op is Acquire && !state.is_held(session, now)
            ==> in_calendar(now, op->Acquire_ttl) && (state.epochs.contains_key(session)
            ==> state.epochs[session] < u64::MAX),
{
}

} // verus!
