//! The log of a replication group: entries by index, the last vote, and how
//! far the log was purged.

use crate::collections::{has_key, key_index, reversed, Table};
use vstd::prelude::*;

verus! {

/// The place of an entry: the term and the leader that wrote it, and its
/// index in the log.
#[derive(Debug, Clone, Copy, PartialEq, Eq, Structural, Hash)]
pub struct LogId {
    pub term: u64,
    pub node_id: u64,
    pub index: u64,
}

/// A vote for a leader.
#[derive(Debug, Clone, Copy, PartialEq, Eq, Structural, Hash)]
pub struct Vote {
    pub term: u64,
    pub node_id: u64,
    pub committed: bool,
}

/// An entry of the log.
#[derive(Debug, PartialEq)]
pub struct LogEntry<P> {
    pub log_id: LogId,
    pub payload: P,
}

/// One end of a range of indexes.
#[derive(Debug, Clone, Copy, PartialEq, Eq, Structural)]
pub enum IndexBound {
    Included(u64),
    Excluded(u64),
    Unbounded,
}

/// Whether `index` lies above `low` and below `high`.
pub open spec fn in_range(low: IndexBound, high: IndexBound, index: u64) -> bool {
    &&& match low {
        IndexBound::Included(l) => l <= index,
        IndexBound::Excluded(l) => l < index,
        IndexBound::Unbounded => true,
    }
    &&& match high {
        IndexBound::Included(h) => index <= h,
        IndexBound::Excluded(h) => index < h,
        IndexBound::Unbounded => true,
    }
}

/// Whether `index` lies above `low` and below `high`.
pub fn within(low: IndexBound, high: IndexBound, index: u64) -> (r: bool)
    ensures
        r == in_range(low, high, index),
{
    let above = match low {
        IndexBound::Included(l) => l <= index,
        IndexBound::Excluded(l) => l < index,
        IndexBound::Unbounded => true,
    };
    let below = match high {
        IndexBound::Included(h) => index <= h,
        IndexBound::Excluded(h) => index < h,
        IndexBound::Unbounded => true,
    };
    above && below
}

/// How far a log reaches.
#[derive(Debug, Clone, Copy, PartialEq, Eq, Structural)]
pub struct LogState {
    pub last_purged_log_id: Option<LogId>,
    pub last_log_id: Option<LogId>,
}

/// The entries of `log` with `new` written over them, in order.
pub open spec fn appended<P>(log: Map<u64, LogEntry<P>>, new: Seq<LogEntry<P>>) -> Map<
    u64,
    LogEntry<P>,
>
    decreases new.len(),
{
    if new.len() == 0 {
        log
    } else {
        appended(log, new.drop_last()).insert(new.last().log_id.index, new.last())
    }
}

/// The part of `log` in a range of indexes.
pub open spec fn part<P>(log: Map<u64, LogEntry<P>>, low: IndexBound, high: IndexBound) -> Map<
    u64,
    LogEntry<P>,
> {
    log.restrict(Set::new(|i: u64| in_range(low, high, i)))
}

/// Whether `list` holds the entries of `log` in a range, by ascending index.
pub open spec fn lists_range<P>(
    list: Seq<&LogEntry<P>>,
    log: Map<u64, LogEntry<P>>,
    low: IndexBound,
    high: IndexBound,
) -> bool {
    &&& forall|i: int|
        0 <= i < list.len() ==> log.contains_key((#[trigger] list[i]).log_id.index)
            && log[list[i].log_id.index] == *list[i] && in_range(low, high, list[i].log_id.index)
    &&& forall|i: int, j: int|
        0 <= i < j < list.len() ==> (#[trigger] list[i]).log_id.index < (
        #[trigger] list[j]).log_id.index
    &&& forall|k: u64| #[trigger]
        log.contains_key(k) && in_range(low, high, k) ==> exists|i: int|
            0 <= i < list.len() && (#[trigger] list[i]).log_id.index == k
}

/// Whether `last` is the place of the entry of `log` with the highest index.
pub open spec fn is_last<P>(log: Map<u64, LogEntry<P>>, last: LogId) -> bool {
    &&& log.contains_key(last.index)
    &&& log[last.index].log_id == last
    &&& forall|k: u64| #[trigger] log.contains_key(k) ==> k <= last.index
}

/// Whether the indexes of `list` ascend.
pub open spec fn ascending<P>(list: Seq<&LogEntry<P>>) -> bool {
    forall|i: int, j: int|
        0 <= i < j < list.len() ==> (#[trigger] list[i]).log_id.index < (
        #[trigger] list[j]).log_id.index
}

/// Whether an entry of `list` has the index `k`.
pub open spec fn has_index<P>(list: Seq<&LogEntry<P>>, k: u64) -> bool {
    exists|i: int| 0 <= i < list.len() && (#[trigger] list[i]).log_id.index == k
}

/// Puts an entry where its index belongs.
fn insert_ascending<'a, P>(list: &mut Vec<&'a LogEntry<P>>, entry: &'a LogEntry<P>)
    requires
        ascending(old(list)@),
        !has_index(old(list)@, entry.log_id.index),
    ensures
        ascending(final(list)@),
        forall|k: u64| #[trigger]
            has_index(final(list)@, k) <==> has_index(old(list)@, k) || k == entry.log_id.index,
        forall|i: int|
            0 <= i < final(list)@.len() ==> (#[trigger] final(list)@[i]) == entry
                || old(list)@.contains(final(list)@[i]),
{
    let index: u64 = entry.log_id.index;
    let mut at: usize = list.len();
    while at > 0 && list[at - 1].log_id.index > index
        invariant
            at <= list@.len(),
            *list == *old(list),
            forall|p: int| at <= p < list@.len() ==> (#[trigger] list@[p]).log_id.index > index,
        decreases at,
    {
        at = at - 1;
    }
    let ghost before = list@;
    proof {
        assert forall|p: int| 0 <= p < at implies (#[trigger] before[p]).log_id.index < index by {
            if p < at - 1 {
                assert(before[p].log_id.index < before[at - 1].log_id.index);
            }
        }
    }
    list.insert(at, entry);
    proof {
        let after = list@;
        assert(after =~= before.insert(at as int, entry));
        assert forall|p: int| 0 <= p < after.len() && p != at implies #[trigger] after[p]
            == before[if p < at { p } else { p - 1 }] by {}
        assert(after[at as int] == entry);
        assert forall|k: u64| #[trigger]
            has_index(after, k) <==> has_index(before, k) || k == index by {
            if has_index(before, k) {
                let p = choose|p: int| 0 <= p < before.len() && (#[trigger] before[p]).log_id.index == k;
                assert(after[if p < at { p } else { p + 1 }].log_id.index == k);
            }
            if has_index(after, k) && k != index {
                let p = choose|p: int| 0 <= p < after.len() && (#[trigger] after[p]).log_id.index == k;
                assert(before[if p < at { p } else { p - 1 }].log_id.index == k);
            }
        }
    }
}

proof fn lemma_take_has_key<V>(entries: Seq<(u64, V)>, i: int)
    requires
        0 <= i < entries.len(),
        crate::collections::distinct_keys(entries),
    ensures
        !has_key(entries.take(i), entries[i].0),
        forall|k: u64| #[trigger]
            has_key(entries.take(i + 1), k) <==> has_key(entries.take(i), k) || k == entries[i].0,
{
    let earlier = entries.take(i);
    let later = entries.take(i + 1);
    if has_key(earlier, entries[i].0) {
        let j = key_index(earlier, entries[i].0);
        assert(entries[j].0@ != entries[i].0@);
    }
    assert forall|k: u64| #[trigger] has_key(later, k) <==> has_key(earlier, k) || k == entries[i].0 by {
        if has_key(earlier, k) {
            let j = key_index(earlier, k);
            assert(later[j].0@ == k);
        }
        if k == entries[i].0 {
            assert(later[i].0@ == k);
        }
        if has_key(later, k) {
            let j = key_index(later, k);
            if j < i {
                assert(earlier[j].0@ == k);
            }
        }
    }
}

/// A log of entries with payload `P`.
pub struct RaftLog<P> {
    log: Table<u64, LogEntry<P>>,
    vote: Option<Vote>,
    last_purged: Option<LogId>,
}

impl<P> View for RaftLog<P> {
    type V = Map<u64, LogEntry<P>>;

    closed spec fn view(&self) -> Map<u64, LogEntry<P>> {
        self.log@
    }
}

impl<P> RaftLog<P> {
    #[verifier::type_invariant]
    spec fn entries_at_their_index(self) -> bool {
        forall|k: u64| #[trigger] self.log@.contains_key(k) ==> self.log@[k].log_id.index == k
    }

    /// The last vote.
    pub closed spec fn voted(&self) -> Option<Vote> {
        self.vote
    }

    /// How far the log was purged.
    pub closed spec fn purged(&self) -> Option<LogId> {
        self.last_purged
    }

    /// An empty log.
    pub fn new() -> (r: Self)
        ensures
            r@ == Map::<u64, LogEntry<P>>::empty(),
            r.voted() is None,
            r.purged() is None,
    {
        RaftLog { log: Table::new(), vote: None, last_purged: None }
    }

    /// The entries in a range of indexes, by ascending index.
    pub fn entries(&self, low: IndexBound, high: IndexBound) -> (r: Vec<&LogEntry<P>>)
        ensures
            lists_range(r@, self@, low, high),
    {
        proof {
            use_type_invariant(self);
        }
        let ghost all = self.log.entries();
        let n: usize = self.log.len();
        let mut r: Vec<&LogEntry<P>> = Vec::new();
        let mut i: usize = 0;
        while i < n
            invariant
                i <= n,
                n == all.len(),
                all == self.log.entries(),
                crate::collections::distinct_keys(all),
                forall|k: u64| #[trigger]
                    self.log@.contains_key(k) ==> self.log@[k].log_id.index == k,
                ascending(r@),
                forall|p: int|
                    0 <= p < r@.len() ==> self.log@.contains_key((#[trigger] r@[p]).log_id.index)
                        && self.log@[r@[p].log_id.index] == *r@[p] && in_range(
                        low,
                        high,
                        r@[p].log_id.index,
                    ),
                forall|k: u64| #[trigger]
                    has_index(r@, k) <==> in_range(low, high, k) && has_key(all.take(i as int), k),
            decreases n - i,
        {
            let index: u64 = *self.log.key_at(i);
            let entry = self.log.value_at(i);
            let ghost before = r@;
            proof {
                lemma_take_has_key(all, i as int);
            }
            if within(low, high, index) {
                assert(!has_key(all.take(i as int), index));
                insert_ascending(&mut r, entry);
                assert forall|p: int| 0 <= p < r@.len() implies self.log@.contains_key(
                    (#[trigger] r@[p]).log_id.index,
                ) && self.log@[r@[p].log_id.index] == *r@[p] && in_range(
                    low,
                    high,
                    r@[p].log_id.index,
                ) by {
                    if r@[p] != entry {
                        assert(before.contains(r@[p]));
                    }
                }
            }
            i = i + 1;
        }
        proof {
            assert(all.take(n as int) =~= all);
            assert forall|k: u64| #[trigger]
                self.log@.contains_key(k) && in_range(low, high, k) implies exists|p: int|
                0 <= p < r@.len() && (#[trigger] r@[p]).log_id.index == k by {
                assert(has_key(all, k));
                assert(has_index(r@, k));
            }
        }
        r
    }

    /// How far the log reaches: to its last entry, or, where it holds none, to
    /// where it was purged.
    pub fn log_state(&self) -> (r: LogState)
        ensures
            r.last_purged_log_id == self.purged(),
            match r.last_log_id {
                Some(last) => is_last(self@, last) || (self@.dom() == Set::<u64>::empty()
                    && self.purged() == Some(last)),
                None => self@.dom() == Set::<u64>::empty() && self.purged() is None,
            },
    {
        proof {
            use_type_invariant(self);
        }
        let ghost all = self.log.entries();
        let n: usize = self.log.len();
        if n == 0 {
            proof {
                assert forall|k: u64| !self.log@.contains_key(k) by {
                    if self.log@.contains_key(k) {
                        assert(has_key(all, k));
                    }
                }
                assert(self@.dom() =~= Set::<u64>::empty());
            }
            return LogState {
                last_purged_log_id: self.last_purged,
                last_log_id: self.last_purged,
            };
        }
        let mut best: usize = 0;
        let mut i: usize = 1;
        while i < n
            invariant
                best < i <= n,
                n == all.len(),
                all == self.log.entries(),
                forall|k: int| 0 <= k < i ==> (#[trigger] all[k]).0 <= all[best as int].0,
            decreases n - i,
        {
            if *self.log.key_at(i) > *self.log.key_at(best) {
                best = i;
            }
            i = i + 1;
        }
        let last: LogId = self.log.value_at(best).log_id;
        proof {
            assert(self.log@.contains_key(all[best as int].0@));
            assert(self.log@[all[best as int].0@] == all[best as int].1);
            assert forall|k: u64| #[trigger] self.log@.contains_key(k) implies k <= last.index by {
                assert(has_key(all, k));
                let j = key_index(all, k);
                assert(all[j].0@ == k);
            }
            assert(is_last(self@, last));
            assert(self@.dom().contains(last.index));
        }
        LogState { last_purged_log_id: self.last_purged, last_log_id: Some(last) }
    }

    /// Writes entries, each at its index and over what was there.
    pub fn append(&mut self, entries: Vec<LogEntry<P>>)
        ensures
            final(self)@ == appended(old(self)@, entries@),
            final(self).voted() == old(self).voted(),
            final(self).purged() == old(self).purged(),
    {
        proof {
            use_type_invariant(&*self);
        }
        let ghost start = self.log@;
        let ghost all = entries@;
        let mut log: Table<u64, LogEntry<P>> = Table::new();
        std::mem::swap(&mut log, &mut self.log);
        let mut rest = reversed(entries);
        assert(rest@ =~= all.skip(0).reverse());
        while rest.len() > 0
            invariant
                rest@.len() <= all.len(),
                rest@ == all.skip(all.len() - rest@.len()).reverse(),
                log@ == appended(start, all.take(all.len() - rest@.len())),
                forall|k: u64| #[trigger] log@.contains_key(k) ==> log@[k].log_id.index == k,
            decreases rest@.len(),
        {
            let ghost done = all.len() - rest@.len();
            match rest.pop() {
                Some(entry) => {
                    proof {
                        assert(entry == all[done]);
                        assert(rest@ =~= all.skip(done + 1).reverse());
                        assert(all.take(done + 1).drop_last() =~= all.take(done));
                    }
                    let _ = log.insert(entry.log_id.index, entry);
                },
                None => {},
            }
        }
        assert(all.take(all.len() as int) =~= all);
        self.log = log;
    }

    /// Keeps only the entries in a range of indexes.
    fn keep(&mut self, low: IndexBound, high: IndexBound)
        ensures
            final(self)@ == part(old(self)@, low, high),
            final(self).voted() == old(self).voted(),
            final(self).purged() == old(self).purged(),
    {
        proof {
            use_type_invariant(&*self);
        }
        let ghost before = self.log@;
        let ghost all = self.log.entries();
        let n: usize = self.log.len();
        let mut gone: Vec<u64> = Vec::new();
        let mut i: usize = 0;
        while i < n
            invariant
                i <= n,
                n == all.len(),
                all == self.log.entries(),
                *self == *old(self),
                forall|k: u64| #[trigger]
                    gone@.contains(k) <==> !in_range(low, high, k) && exists|j: int|
                        0 <= j < i && (#[trigger] all[j]).0 == k,
            decreases n - i,
        {
            let index: u64 = *self.log.key_at(i);
            let ghost g = gone@;
            if !within(low, high, index) {
                gone.push(index);
            }
            proof {
                assert forall|k: u64| #[trigger]
                    gone@.contains(k) <==> !in_range(low, high, k) && exists|j: int|
                        0 <= j < i + 1 && (#[trigger] all[j]).0 == k by {
                    if g.contains(k) {
                        let p = choose|p: int| 0 <= p < g.len() && g[p] == k;
                        assert(gone@[p] == k);
                        let j = choose|j: int| 0 <= j < i && (#[trigger] all[j]).0 == k;
                        assert(0 <= j < i + 1 && all[j].0 == k);
                    }
                    if k == index && !in_range(low, high, k) {
                        assert(gone@[g.len() as int] == k);
                        assert(all[i as int].0 == k);
                    }
                    if gone@.contains(k) && k != index {
                        let p = choose|p: int| 0 <= p < gone@.len() && gone@[p] == k;
                        assert(g[p] == k);
                    }
                    if exists|j: int| 0 <= j < i + 1 && (#[trigger] all[j]).0 == k {
                        let j = choose|j: int| 0 <= j < i + 1 && (#[trigger] all[j]).0 == k;
                        if j < i {
                            assert(0 <= j < i && all[j].0 == k);
                        } else {
                            assert(k == index);
                        }
                    }
                }
            }
            i = i + 1;
        }
        let mut log: Table<u64, LogEntry<P>> = Table::new();
        std::mem::swap(&mut log, &mut self.log);
        let mut p: usize = 0;
        while p < gone.len()
            invariant
                p <= gone@.len(),
                forall|k: u64| #[trigger]
                    log@.contains_key(k) <==> before.contains_key(k) && !gone@.take(
                        p as int,
                    ).contains(k),
                forall|k: u64| #[trigger] log@.contains_key(k) ==> log@[k] == before[k],
            decreases gone@.len() - p,
        {
            let _ = log.remove(&gone[p]);
            proof {
                let g = gone@[p as int];
                let earlier = gone@.take(p as int);
                let later = gone@.take(p + 1);
                assert(later =~= earlier.push(g));
                assert forall|k: u64| later.contains(k) <==> earlier.contains(k) || k == g by {
                    if earlier.contains(k) {
                        let q = choose|q: int| 0 <= q < earlier.len() && earlier[q] == k;
                        assert(later[q] == k);
                    }
                    if k == g {
                        assert(later[p as int] == k);
                    }
                    if later.contains(k) && k != g {
                        let q = choose|q: int| 0 <= q < later.len() && later[q] == k;
                        assert(earlier[q] == k);
                    }
                }
            }
            p = p + 1;
        }
        proof {
            assert(gone@.take(p as int) =~= gone@);
            assert forall|k: u64| #[trigger]
                log@.contains_key(k) <==> part(before, low, high).contains_key(k) by {
                if before.contains_key(k) {
                    assert(has_key(all, k));
                    let j = key_index(all, k);
                    assert(all[j].0@ == k);
                }
            }
            assert(log@ =~= part(before, low, high));
        }
        self.log = log;
    }

    /// Drops every entry from `index` on: after an election they may diverge
    /// from the log of the leader.
    pub fn truncate(&mut self, index: u64)
        ensures
            final(self)@ == part(
                old(self)@,
                IndexBound::Unbounded,
                IndexBound::Excluded(index),
            ),
            final(self).voted() == old(self).voted(),
            final(self).purged() == old(self).purged(),
    {
        self.keep(IndexBound::Unbounded, IndexBound::Excluded(index));
    }

    /// Drops every entry up to that of `log_id`, which a snapshot holds, and
    /// records how far the log was purged.
    pub fn purge(&mut self, log_id: LogId)
        ensures
            final(self)@ == part(
                old(self)@,
                IndexBound::Excluded(log_id.index),
                IndexBound::Unbounded,
            ),
            final(self).voted() == old(self).voted(),
            final(self).purged() == Some(log_id),
    {
        self.keep(IndexBound::Excluded(log_id.index), IndexBound::Unbounded);
        proof {
            use_type_invariant(&*self);
        }
        self.last_purged = Some(log_id);
    }

    /// Records a vote.
    pub fn save_vote(&mut self, vote: Vote)
        ensures
            final(self)@ == old(self)@,
            final(self).voted() == Some(vote),
            final(self).purged() == old(self).purged(),
    {
        proof {
            use_type_invariant(&*self);
        }
        self.vote = Some(vote);
    }

    /// The last vote.
    pub fn read_vote(&self) -> (r: Option<Vote>)
        ensures
            r == self.voted(),
    {
        self.vote
    }
}

/// An entry that is appended alone is read back at its index, and all others
/// stay.
pub proof fn lemma_append_then_read<P>(log: Map<u64, LogEntry<P>>, entry: LogEntry<P>, k: u64)
    ensures
        appended(log, seq![entry]).contains_key(entry.log_id.index),
        appended(log, seq![entry])[entry.log_id.index] == entry,
        k != entry.log_id.index ==> appended(log, seq![entry]).contains_key(k) == log.contains_key(k)
            && (log.contains_key(k) ==> appended(log, seq![entry])[k] == log[k]),
{
    assert(seq![entry].drop_last() =~= Seq::<LogEntry<P>>::empty());
    assert(seq![entry].last() == entry);
    reveal_with_fuel(appended, 2);
}

/// Truncating at an index and purging up to the index before it split the log:
/// every entry is kept by exactly one of the two.
pub proof fn lemma_truncate_and_purge_split<P>(log: Map<u64, LogEntry<P>>, index: u64, k: u64)
    requires
        index > 0,
        log.contains_key(k),
    ensures
        part(log, IndexBound::Unbounded, IndexBound::Excluded(index)).contains_key(k) != part(
            log,
            IndexBound::Excluded((index - 1) as u64),
            IndexBound::Unbounded,
        ).contains_key(k),
{
}

/// What a log holds at an index after an append: the last of the new entries with
/// that index, or what it held before where none of them has it.
pub proof fn lemma_append_is_exact<P>(
    log: Map<u64, LogEntry<P>>,
    new: Seq<LogEntry<P>>,
    i: int,
)
    requires
        0 <= i < new.len(),
        forall|j: int|
            i < j < new.len() ==> (#[trigger] new[j]).log_id.index != new[i].log_id.index,
    ensures
        appended(log, new).contains_key(new[i].log_id.index),
        appended(log, new)[new[i].log_id.index] == new[i],
    decreases new.len(),
{
    let front = new.drop_last();
    if i < new.len() - 1 {
        let last = new[new.len() - 1];
        assert(last.log_id.index != new[i].log_id.index);
        assert(front[i] == new[i]);
        assert forall|j: int| i < j < front.len() implies (#[trigger] front[j]).log_id.index
            != front[i].log_id.index by {
            let same = new[j];
        }
        lemma_append_is_exact(log, front, i);
    }
}

/// An append leaves alone what a log holds at indexes that no new entry has.
pub proof fn lemma_append_spares_others<P>(
    log: Map<u64, LogEntry<P>>,
    new: Seq<LogEntry<P>>,
    k: u64,
)
    requires
        forall|j: int| 0 <= j < new.len() ==> (#[trigger] new[j]).log_id.index != k,
    ensures
        appended(log, new).contains_key(k) == log.contains_key(k),
        log.contains_key(k) ==> appended(log, new)[k] == log[k],
    decreases new.len(),
{
    if new.len() > 0 {
        let front = new.drop_last();
        let last = new[new.len() - 1];
        assert(last.log_id.index != k);
        assert forall|j: int| 0 <= j < front.len() implies (#[trigger] front[j]).log_id.index
            != k by {
            let same = new[j];
        }
        lemma_append_spares_others(log, front, k);
    }
}

/// Truncating at an index keeps exactly the entries before it, purging up to one
/// exactly those after it, and both keep them as they were.
pub proof fn lemma_what_is_kept<P>(log: Map<u64, LogEntry<P>>, index: u64, k: u64)
    ensures
        ({
            let truncated = part(log, IndexBound::Unbounded, IndexBound::Excluded(index));
            let purged = part(log, IndexBound::Excluded(index), IndexBound::Unbounded);
            &&& truncated.contains_key(k) <==> log.contains_key(k) && k < index
            &&& truncated.contains_key(k) ==> truncated[k] == log[k]
            &&& purged.contains_key(k) <==> log.contains_key(k) && k > index
            &&& purged.contains_key(k) ==> purged[k] == log[k]
        }),
{
}

/// A read of a range gives the entries whose index lies between the bounds, all of
/// them and no others, each as it was appended, by ascending index.
pub proof fn lemma_range_is_read_whole<P>(
    list: Seq<&LogEntry<P>>,
    log: Map<u64, LogEntry<P>>,
    low: IndexBound,
    high: IndexBound,
    k: u64,
)
    requires
        lists_range(list, log, low, high),
    ensures
        (exists|i: int|
            0 <= i < list.len() && (#[trigger] list[i]).log_id.index == k && *list[i] == log[k])
            <==> log.contains_key(k) && (match low {
            IndexBound::Included(l) => k >= l,
            IndexBound::Excluded(l) => k > l,
            IndexBound::Unbounded => true,
        }) && (match high {
            IndexBound::Included(h) => k <= h,
            IndexBound::Excluded(h) => k < h,
            IndexBound::Unbounded => true,
        }),
        forall|i: int, j: int|
            0 <= i < j < list.len() ==> (#[trigger] list[i]).log_id.index < (
            #[trigger] list[j]).log_id.index,
{
    if log.contains_key(k) && in_range(low, high, k) {
        let i = choose|i: int| 0 <= i < list.len() && (#[trigger] list[i]).log_id.index == k;
        assert(log[list[i].log_id.index] == *list[i]);
    }
}

/// The last entry of a log is the one that no other comes after.
pub proof fn lemma_last_entry_has_the_highest_index<P>(
    log: Map<u64, LogEntry<P>>,
    last: LogId,
    k: u64,
)
    requires
        is_last(log, last),
    ensures
        log.contains_key(last.index),
        log[last.index].log_id == last,
        log.contains_key(k) ==> k <= last.index,
{
}

} // verus!
