//! The replicated machine of the lease authority: applies the log, and makes
//! and installs snapshots.
//!
//! Nothing is kept on disk: leases run out anyway, and a node that restarts
//! catches up from the others.

use crate::collections::reversed;
use crate::lease::authority::{LeaseAuthority, LeaseSnapshot, LeaseState};
use crate::lease::protocol::{LeaseOutcome, LeaseRequest, LeaseResult};
use crate::lease::time::Timestamp;
use crate::raft_log::{LogEntry, LogId, RaftLog};
use crate::text::{decimal, decimal_text, join2, join3, lemma_decimal_reads_back, number_of};
use vstd::prelude::*;

verus! {

/// What an entry of the log carries.
#[derive(Debug, PartialEq)]
pub enum LeasePayload {
    /// Nothing: a new leader writes it to take over.
    Blank,
    Normal(LeaseRequest),
    /// A change of the group, as JSON text.
    Membership(String),
}

/// The log of the lease authority.
pub type LeaseLogStore = RaftLog<LeasePayload>;

/// The members of the group, as JSON text, and the entry that said so.
#[derive(Debug, PartialEq)]
pub struct StoredMembership {
    pub log_id: Option<LogId>,
    pub membership: String,
}

impl Clone for StoredMembership {
    fn clone(&self) -> (r: Self)
        ensures
            r == *self,
    {
        StoredMembership { log_id: self.log_id, membership: self.membership.clone() }
    }
}

/// What a snapshot covers.
#[derive(Debug, PartialEq)]
pub struct SnapshotMeta {
    pub last_log_id: Option<LogId>,
    pub last_membership: StoredMembership,
    pub snapshot_id: String,
}

impl Clone for SnapshotMeta {
    fn clone(&self) -> (r: Self)
        ensures
            r == *self,
    {
        SnapshotMeta {
            last_log_id: self.last_log_id,
            last_membership: self.last_membership.clone(),
            snapshot_id: self.snapshot_id.clone(),
        }
    }
}

/// A snapshot in its encoded form.
#[derive(Debug, PartialEq)]
pub struct StoredSnapshot {
    pub meta: SnapshotMeta,
    pub data: Vec<u8>,
}

/// What of the machine the log determines.
#[verifier::ext_equal]
pub struct MachineState {
    pub leases: LeaseState,
    pub last_applied: Option<LogId>,
    pub last_membership: StoredMembership,
}

/// Whether an entry can be applied at time `now`.
pub open spec fn can_apply(state: MachineState, entry: LogEntry<LeasePayload>, now: Timestamp) -> bool {
    match entry.payload {
        LeasePayload::Normal(request) => state.leases.answerable(
            request.session_id@,
            request.op,
            now,
        ),
        _ => true,
    }
}

/// The machine after an entry was applied at time `now`.
pub open spec fn applied(
    state: MachineState,
    entry: LogEntry<LeasePayload>,
    now: Timestamp,
) -> MachineState {
    MachineState {
        leases: match entry.payload {
            LeasePayload::Normal(request) => state.leases.after(
                request.session_id@,
                request.op,
                now,
            ),
            _ => state.leases,
        },
        last_applied: Some(entry.log_id),
        last_membership: match entry.payload {
            LeasePayload::Membership(membership) => StoredMembership {
                log_id: Some(entry.log_id),
                membership,
            },
            _ => state.last_membership,
        },
    }
}

/// The response to an entry that is applied at time `now`. Nobody waits for
/// that of an entry without a request.
pub open spec fn response(
    state: MachineState,
    entry: LogEntry<LeasePayload>,
    now: Timestamp,
) -> LeaseOutcome {
    match entry.payload {
        LeasePayload::Normal(request) => state.leases.answer(request.session_id@, request.op, now),
        _ => LeaseOutcome::NotLeader { leader_hint: None },
    }
}

/// The machine after entries were applied, each at its own time.
pub open spec fn applied_all(
    state: MachineState,
    entries: Seq<LogEntry<LeasePayload>>,
    times: Seq<Timestamp>,
) -> MachineState
    decreases entries.len(),
{
    if entries.len() == 0 {
        state
    } else {
        applied(
            applied_all(state, entries.drop_last(), times.drop_last()),
            entries.last(),
            times.last(),
        )
    }
}

/// The responses to entries that are applied, each at its own time.
pub open spec fn responses(
    state: MachineState,
    entries: Seq<LogEntry<LeasePayload>>,
    times: Seq<Timestamp>,
) -> Seq<LeaseOutcome>
    decreases entries.len(),
{
    if entries.len() == 0 {
        Seq::empty()
    } else {
        responses(state, entries.drop_last(), times.drop_last()).push(
            response(
                applied_all(state, entries.drop_last(), times.drop_last()),
                entries.last(),
                times.last(),
            ),
        )
    }
}

/// Whether entries can be applied in order, each at its own time, all of them
/// valid.
pub open spec fn can_apply_all(
    state: MachineState,
    entries: Seq<LogEntry<LeasePayload>>,
    times: Seq<Timestamp>,
) -> bool
    decreases entries.len(),
{
    entries.len() == 0 || {
        &&& can_apply_all(state, entries.drop_last(), times.drop_last())
        &&& times.last().valid()
        &&& can_apply(
            applied_all(state, entries.drop_last(), times.drop_last()),
            entries.last(),
            times.last(),
        )
    }
}

/// Whether the request of an entry, if it has one, is well formed.
pub open spec fn valid_entry(entry: LogEntry<LeasePayload>) -> bool {
    entry.payload matches LeasePayload::Normal(request) ==> crate::lease::authority::valid_op(
        request.op,
    )
}

/// The views of responses.
pub open spec fn outcomes(results: Seq<LeaseResult>) -> Seq<LeaseOutcome> {
    results.map_values(|r: LeaseResult| r@)
}

/// The text of a number of nanoseconds.
pub open spec fn signed_text(n: i64) -> Seq<char> {
    if n < 0 {
        "-"@ + decimal_text((-n) as nat)
    } else {
        decimal_text(n as nat)
    }
}

fn signed(n: i64) -> (r: String)
    ensures
        r@ == signed_text(n),
{
    if n < 0 {
        let magnitude: i128 = -(n as i128);
        join2("-", decimal(magnitude as u64).as_str())
    } else {
        decimal(n as u64)
    }
}

/// The replicated machine.
pub struct LeaseStateMachine {
    authority: LeaseAuthority,
    last_applied: Option<LogId>,
    last_membership: StoredMembership,
    current_snapshot: Option<StoredSnapshot>,
}

impl View for LeaseStateMachine {
    type V = MachineState;

    closed spec fn view(&self) -> MachineState {
        MachineState {
            leases: self.authority@,
            last_applied: self.last_applied,
            last_membership: self.last_membership,
        }
    }
}

impl LeaseStateMachine {
    /// The last snapshot that was made or installed.
    pub closed spec fn snapshot(&self) -> Option<StoredSnapshot> {
        self.current_snapshot
    }

    /// A machine that has applied nothing, for a group with these members.
    pub fn new(membership: String) -> (r: Self)
        ensures
            r@.leases == LeaseState::initial(),
            r@.last_applied is None,
            r@.last_membership == (StoredMembership { log_id: None, membership }),
            r.snapshot() is None,
    {
        LeaseStateMachine {
            authority: LeaseAuthority::new(),
            last_applied: None,
            last_membership: StoredMembership { log_id: None, membership },
            current_snapshot: None,
        }
    }

    /// How far the log was applied, and who the members are since.
    pub fn applied_state(&self) -> (r: (Option<LogId>, &StoredMembership))
        ensures
            r.0 == self@.last_applied,
            *r.1 == self@.last_membership,
    {
        (self.last_applied, &self.last_membership)
    }

    /// Applies one entry at time `now`.
    pub fn apply_at(&mut self, entry: LogEntry<LeasePayload>, now: Timestamp) -> (r: LeaseResult)
        requires
            now.valid(),
            valid_entry(entry),
            can_apply(old(self)@, entry, now),
        ensures
            final(self)@ == applied(old(self)@, entry, now),
            r@ == response(old(self)@, entry, now),
            final(self).snapshot() == old(self).snapshot(),
    {
        self.last_applied = Some(entry.log_id);
        match entry.payload {
            LeasePayload::Blank => LeaseResult::NotLeader { leader_hint: None },
            LeasePayload::Membership(membership) => {
                self.last_membership =
                StoredMembership { log_id: Some(entry.log_id), membership };
                LeaseResult::NotLeader { leader_hint: None }
            },
            LeasePayload::Normal(request) => {
                let answer = self.authority.handle_request_at(&request, now);
                answer.result
            },
        }
    }

    /// Applies entries in order, each at the time that the clock shows, and
    /// gives back their responses. Stops, with nothing, at an entry that
    /// cannot be applied at its time.
    pub fn apply(&mut self, entries: Vec<LogEntry<LeasePayload>>) -> (r: Option<Vec<LeaseResult>>)
        requires
            forall|i: int| 0 <= i < entries@.len() ==> valid_entry(#[trigger] entries@[i]),
        ensures
            match r {
                Some(results) => exists|times: Seq<Timestamp>|
                    {
                        &&& times.len() == entries@.len()
                        &&& can_apply_all(old(self)@, entries@, times)
                        &&& final(self)@ == #[trigger] applied_all(old(self)@, entries@, times)
                        &&& outcomes(results@) == responses(old(self)@, entries@, times)
                    },
                None => exists|times: Seq<Timestamp>, k: int|
                    {
                        &&& 0 <= k < entries@.len()
                        &&& times.len() == k + 1
                        &&& can_apply_all(old(self)@, entries@.take(k), times.take(k))
                        &&& final(self)@ == #[trigger] applied_all(
                            old(self)@,
                            entries@.take(k),
                            times.take(k),
                        )
                        &&& times[k].valid()
                        &&& !can_apply(final(self)@, entries@[k], times[k])
                    },
            },
            final(self).snapshot() == old(self).snapshot(),
    {
        let ghost all = entries@;
        let ghost start = self@;
        let ghost mut times: Seq<Timestamp> = Seq::empty();
        let mut results: Vec<LeaseResult> = Vec::new();
        let mut rest = reversed(entries);
        assert(rest@ =~= all.skip(0).reverse());
        assert(outcomes(results@) =~= Seq::<LeaseOutcome>::empty());
        while rest.len() > 0
            invariant
                all == entries@,
                start == old(self)@,
                forall|i: int| 0 <= i < all.len() ==> valid_entry(#[trigger] all[i]),
                rest@.len() <= all.len(),
                rest@ == all.skip(all.len() - rest@.len()).reverse(),
                times.len() == all.len() - rest@.len(),
                can_apply_all(start, all.take(all.len() - rest@.len()), times),
                self@ == applied_all(start, all.take(all.len() - rest@.len()), times),
                outcomes(results@) == responses(
                    start,
                    all.take(all.len() - rest@.len()),
                    times,
                ),
                self.snapshot() == old(self).snapshot(),
            decreases rest@.len(),
        {
            let ghost done = all.len() - rest@.len();
            match rest.pop() {
                Some(entry) => {
                    proof {
                        assert(entry == all[done]);
                        assert(rest@ =~= all.skip(done + 1).reverse());
                        assert(all.take(done + 1).drop_last() =~= all.take(done));
                        assert(all.take(done + 1).last() == all[done]);
                        assert(valid_entry(all[done]));
                    }
                    let now = crate::lease::time::utc_now();
                    let fits = match &entry.payload {
                        LeasePayload::Normal(request) => self.authority.can_answer(request, now),
                        _ => true,
                    };
                    if !fits {
                        proof {
                            let t = times.push(now);
                            assert(t.take(done) =~= times);
                            assert(t[done] == now);
                            assert(self@ == applied_all(start, all.take(done), t.take(done)));
                        }
                        return None;
                    }
                    let ghost before = times;
                    let ghost earlier = results@;
                    let result = self.apply_at(entry, now);
                    results.push(result);
                    proof {
                        times = before.push(now);
                        assert(times.drop_last() =~= before);
                        assert(outcomes(results@) =~= outcomes(earlier).push(result@));
                    }
                },
                None => {},
            }
        }
        proof {
            assert(all.take(all.len() as int) =~= all);
            assert(self@ == applied_all(old(self)@, entries@, times));
        }
        Some(results)
    }

    /// Replaces the state by a received snapshot: `decoded` is what its data
    /// decodes to, or nothing where it does not.
    pub fn install_snapshot(
        &mut self,
        meta: SnapshotMeta,
        data: Vec<u8>,
        decoded: Option<LeaseSnapshot>,
    )
        ensures
            final(self)@ == (MachineState {
                leases: match decoded {
                    Some(snapshot) => snapshot@,
                    None => LeaseState::initial(),
                },
                last_applied: meta.last_log_id,
                last_membership: meta.last_membership,
            }),
            final(self).snapshot() == Some(StoredSnapshot { meta, data }),
    {
        let restored = match decoded {
            Some(snapshot) => snapshot,
            None => LeaseSnapshot::empty(),
        };
        self.authority.restore(restored);
        self.last_applied = meta.last_log_id;
        self.last_membership = meta.last_membership.clone();
        self.current_snapshot = Some(StoredSnapshot { meta, data });
    }

    /// A copy of the leases, to encode for a snapshot.
    pub fn lease_snapshot(&self) -> (r: LeaseSnapshot)
        ensures
            r@ == self@.leases,
    {
        self.authority.snapshot()
    }

    /// Records `data`, the encoded leases, as the snapshot of what was applied
    /// so far; `nanos` is the time, in nanoseconds, and tells apart snapshots
    /// of the same state.
    pub fn build_snapshot(&mut self, data: Vec<u8>, nanos: i64) -> (r: SnapshotMeta)
        ensures
            final(self)@ == old(self)@,
            r.last_log_id == old(self)@.last_applied,
            r.last_membership == old(self)@.last_membership,
            r.snapshot_id@ == decimal_text(
                match old(self)@.last_applied {
                    Some(id) => id.index as nat,
                    None => 0,
                },
            ) + "-"@ + signed_text(nanos),
            final(self).snapshot() == Some(StoredSnapshot { meta: r, data }),
    {
        let index: u64 = match self.last_applied {
            Some(id) => id.index,
            None => 0,
        };
        let meta = SnapshotMeta {
            last_log_id: self.last_applied,
            last_membership: self.last_membership.clone(),
            snapshot_id: join3(decimal(index).as_str(), "-", signed(nanos).as_str()),
        };
        self.current_snapshot = Some(StoredSnapshot { meta: meta.clone(), data });
        meta
    }

    /// The last snapshot that was made or installed.
    pub fn get_current_snapshot(&self) -> (r: Option<&StoredSnapshot>)
        ensures
            match r {
                Some(stored) => self.snapshot() == Some(*stored),
                None => self.snapshot() is None,
            },
    {
        match &self.current_snapshot {
            Some(stored) => Some(stored),
            None => None,
        }
    }
}

/// Installing a snapshot of a machine on another one, with the metadata that
/// it was made with, gives the other one the state of the first.
pub proof fn lemma_snapshot_transfers_state(
    source: MachineState,
    target: MachineState,
    snapshot: LeaseSnapshot,
    meta: SnapshotMeta,
)
    requires
        snapshot@ == source.leases,
        meta.last_log_id == source.last_applied,
        meta.last_membership == source.last_membership,
        target == (MachineState {
            leases: snapshot@,
            last_applied: meta.last_log_id,
            last_membership: meta.last_membership,
        }),
    ensures
        target == source,
{
}

/// Replicas that apply the same entries at the same times agree, whatever
/// prefix they start to differ in how they batch it.
pub proof fn lemma_batches_do_not_matter(
    state: MachineState,
    first: Seq<LogEntry<LeasePayload>>,
    second: Seq<LogEntry<LeasePayload>>,
    times_first: Seq<Timestamp>,
    times_second: Seq<Timestamp>,
)
    requires
        first.len() == times_first.len(),
        second.len() == times_second.len(),
    ensures
        applied_all(applied_all(state, first, times_first), second, times_second) == applied_all(
            state,
            first + second,
            times_first + times_second,
        ),
    decreases second.len(),
{
    if second.len() == 0 {
        assert(first + second =~= first);
        assert(times_first + times_second =~= times_first);
    } else {
        lemma_batches_do_not_matter(
            state,
            first,
            second.drop_last(),
            times_first,
            times_second.drop_last(),
        );
        assert((first + second).drop_last() =~= first + second.drop_last());
        assert((times_first + times_second).drop_last() =~= times_first + times_second.drop_last());
    }
}

/// Entries are applied one by one, each to what those before it came to: the last
/// one applied is remembered, members change with an entry that names members and
/// with no other, leases change with a request and with nothing else. An entry
/// without a request gets an answer that nobody waits for.
pub proof fn lemma_entries_apply_in_order(
    state: MachineState,
    entries: Seq<LogEntry<LeasePayload>>,
    times: Seq<Timestamp>,
    k: int,
)
    requires
        times.len() == entries.len(),
        0 <= k < entries.len(),
    ensures
        ({
            let before = applied_all(state, entries.take(k), times.take(k));
            let after = applied_all(state, entries.take(k + 1), times.take(k + 1));
            let answer = responses(state, entries, times)[k];
            &&& responses(state, entries, times).len() == entries.len()
            &&& after.last_applied == Some(entries[k].log_id)
            &&& entries[k].payload matches LeasePayload::Normal(request) ==> {
                &&& after.leases == before.leases.after(request.session_id@, request.op, times[k])
                &&& answer == before.leases.answer(request.session_id@, request.op, times[k])
                &&& after.last_membership == before.last_membership
            }
            &&& entries[k].payload matches LeasePayload::Membership(members) ==> {
                &&& after.leases == before.leases
                &&& answer == (LeaseOutcome::NotLeader { leader_hint: None })
                &&& after.last_membership == (StoredMembership {
                    log_id: Some(entries[k].log_id),
                    membership: members,
                })
            }
            &&& entries[k].payload is Blank ==> {
                &&& after.leases == before.leases
                &&& answer == (LeaseOutcome::NotLeader { leader_hint: None })
                &&& after.last_membership == before.last_membership
            }
        }),
    decreases entries.len(),
{
    let n = entries.len() - 1;
    assert(entries.take(k + 1).drop_last() =~= entries.take(k));
    assert(times.take(k + 1).drop_last() =~= times.take(k));
    assert(entries.take(k + 1).last() == entries[k]);
    assert(times.take(k + 1).last() == times[k]);
    if k == n {
        assert(entries.drop_last() =~= entries.take(k));
        assert(times.drop_last() =~= times.take(k));
        lemma_responses_len(state, entries.drop_last(), times.drop_last());
    } else {
        let front = entries.drop_last();
        let earlier = times.drop_last();
        lemma_entries_apply_in_order(state, front, earlier, k);
        lemma_responses_len(state, front, earlier);
        assert(front.take(k) =~= entries.take(k));
        assert(earlier.take(k) =~= times.take(k));
        assert(front[k] == entries[k]);
        assert(earlier[k] == times[k]);
    }
}

proof fn lemma_responses_len(
    state: MachineState,
    entries: Seq<LogEntry<LeasePayload>>,
    times: Seq<Timestamp>,
)
    ensures
        responses(state, entries, times).len() == entries.len(),
    decreases entries.len(),
{
    if entries.len() > 0 {
        lemma_responses_len(state, entries.drop_last(), times.drop_last());
    }
}

/// A number of nanoseconds is spelled as its distance from zero, and after a sign
/// where it is below.
pub proof fn lemma_signed_reads_back(n: i64)
    ensures
        n >= 0 ==> number_of(signed_text(n), 10) == n,
        n < 0 ==> signed_text(n)[0] == '-' && number_of(signed_text(n).skip(1), 10) == -n,
{
    reveal_strlit("-");
    if n < 0 {
        lemma_decimal_reads_back((-n) as nat);
        assert(signed_text(n).skip(1) =~= decimal_text((-n) as nat));
    } else {
        lemma_decimal_reads_back(n as nat);
    }
}

} // verus!
