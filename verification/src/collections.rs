//! A map kept as a list of entries with pairwise distinct keys, in the order
//! in which the keys were first inserted.

use vstd::prelude::*;

verus! {

/// A value that can key a [`Table`]: two keys are the same entry exactly when
/// their views are equal.
pub trait Key: View + Sized {
    fn same(&self, other: &Self) -> (r: bool)
        ensures
            r == (self@ == other@),
    ;
}

/// A value that can be copied as far as its view goes.
pub trait Duplicate: View + Sized {
    fn duplicate(&self) -> (r: Self)
        ensures
            r@ == self@,
    ;
}

impl Duplicate for String {
    fn duplicate(&self) -> (r: Self) {
        self.clone()
    }
}

impl Duplicate for u64 {
    fn duplicate(&self) -> (r: Self) {
        *self
    }
}

impl Key for String {
    fn same(&self, other: &Self) -> (r: bool) {
        *self == *other
    }
}

impl Key for u64 {
    fn same(&self, other: &Self) -> (r: bool) {
        *self == *other
    }
}

/// Whether two byte strings are equal.
pub fn same_bytes(a: &Vec<u8>, b: &Vec<u8>) -> (r: bool)
    ensures
        r == (a@ == b@),
{
    if a.len() != b.len() {
        return false;
    }
    let mut i: usize = 0;
    while i < a.len()
        invariant
            i <= a.len(),
            a.len() == b.len(),
            forall|j: int| 0 <= j < i ==> a@[j] == b@[j],
        decreases a.len() - i,
    {
        if a[i] != b[i] {
            return false;
        }
        i = i + 1;
    }
    assert(a@ =~= b@);
    true
}

/// A copy of a byte string.
pub fn copy_bytes(a: &Vec<u8>) -> (r: Vec<u8>)
    ensures
        r@ == a@,
{
    let mut r: Vec<u8> = Vec::new();
    let mut i: usize = 0;
    while i < a.len()
        invariant
            i <= a.len(),
            r@ == a@.take(i as int),
        decreases a.len() - i,
    {
        r.push(a[i]);
        i = i + 1;
        assert(a@.take(i as int) =~= a@.take(i - 1).push(a@[i - 1]));
    }
    assert(a@.take(a.len() as int) =~= a@);
    r
}

/// A list back to front.
pub fn reversed<T>(list: Vec<T>) -> (r: Vec<T>)
    ensures
        r@ == list@.reverse(),
{
    let ghost all = list@;
    let mut list: Vec<T> = list;
    let mut r: Vec<T> = Vec::new();
    while list.len() > 0
        invariant
            list@.len() + r@.len() == all.len(),
            list@ == all.take(list@.len() as int),
            forall|i: int| 0 <= i < r@.len() ==> #[trigger] r@[i] == all[all.len() - 1 - i],
        decreases list@.len(),
    {
        match list.pop() {
            Some(item) => r.push(item),
            None => {},
        }
    }
    assert(r@ =~= all.reverse());
    r
}

/// Whether some entry has the key `k`.
pub open spec fn has_key<K: View, V>(entries: Seq<(K, V)>, k: K::V) -> bool {
    exists|i: int| 0 <= i < entries.len() && (#[trigger] entries[i]).0@ == k
}

/// The position of an entry with the key `k`.
pub open spec fn key_index<K: View, V>(entries: Seq<(K, V)>, k: K::V) -> int {
    choose|i: int| 0 <= i < entries.len() && (#[trigger] entries[i]).0@ == k
}

/// Whether no key occurs twice.
pub open spec fn distinct_keys<K: View, V>(entries: Seq<(K, V)>) -> bool {
    forall|i: int, j: int|
        0 <= i < j < entries.len() ==> (#[trigger] entries[i]).0@ != (#[trigger] entries[j]).0@
}

/// The map that a list of entries stands for.
pub open spec fn entries_map<K: View, V>(entries: Seq<(K, V)>) -> Map<K::V, V> {
    Map::new(|k: K::V| has_key(entries, k), |k: K::V| entries[key_index(entries, k)].1)
}

/// The entry at position `i` is what the map holds under its key.
pub proof fn lemma_entry<K: View, V>(entries: Seq<(K, V)>, i: int)
    requires
        distinct_keys(entries),
        0 <= i < entries.len(),
    ensures
        has_key(entries, entries[i].0@),
        key_index(entries, entries[i].0@) == i,
        entries_map(entries).contains_key(entries[i].0@),
        entries_map(entries)[entries[i].0@] == entries[i].1,
{
    let k = entries[i].0@;
    assert(has_key(entries, k));
    let j = key_index(entries, k);
    assert(0 <= j < entries.len() && entries[j].0@ == k);
    if i < j {
        assert(entries[i].0@ != entries[j].0@);
    } else if j < i {
        assert(entries[j].0@ != entries[i].0@);
    }
}

/// An association list with pairwise distinct keys.
pub struct Table<K: Key, V> {
    entries: Vec<(K, V)>,
}

impl<K: Key, V> View for Table<K, V> {
    type V = Map<<K as View>::V, V>;

    closed spec fn view(&self) -> Map<<K as View>::V, V> {
        entries_map(self.entries@)
    }
}

impl<K: Key, V> Table<K, V> {
    #[verifier::type_invariant]
    spec fn well_formed(self) -> bool {
        distinct_keys(self.entries@)
    }

    /// The entries in order.
    pub closed spec fn entries(&self) -> Seq<(K, V)> {
        self.entries@
    }

    /// A table without entries.
    pub fn new() -> (r: Self)
        ensures
            r@ == Map::<<K as View>::V, V>::empty(),
            r@.dom().finite(),
            r.entries() == Seq::<(K, V)>::empty(),
    {
        let r = Table { entries: Vec::new() };
        assert(r@ =~= Map::<<K as View>::V, V>::empty());
        r
    }

    /// The number of entries. Entries and map agree: every entry is in the
    /// map, and every key of the map has exactly one entry.
    pub fn len(&self) -> (r: usize)
        ensures
            r == self.entries().len(),
            self@.dom().finite(),
            r == self@.dom().len(),
            distinct_keys(self.entries()),
            self@ == entries_map(self.entries()),
            forall|i: int|
                #![trigger self.entries()[i]]
                0 <= i < self.entries().len() ==> {
                    &&& self@.contains_key(self.entries()[i].0@)
                    &&& self@[self.entries()[i].0@] == self.entries()[i].1
                },
            forall|k: <K as View>::V| #[trigger]
                self@.contains_key(k) <==> has_key(self.entries(), k),
    {
        proof {
            use_type_invariant(self);
            lemma_map_size(self.entries@);
            assert forall|i: int| #![trigger self.entries()[i]] 0 <= i < self.entries().len() implies {
                &&& self@.contains_key(self.entries()[i].0@)
                &&& self@[self.entries()[i].0@] == self.entries()[i].1
            } by {
                lemma_entry(self.entries@, i);
            }
        }
        self.entries.len()
    }

    /// The key of the entry at position `i`.
    pub fn key_at(&self, i: usize) -> (r: &K)
        requires
            i < self.entries().len(),
        ensures
            *r == self.entries()[i as int].0,
            self@.contains_key(r@),
            self@[r@] == self.entries()[i as int].1,
    {
        proof {
            use_type_invariant(self);
            lemma_entry(self.entries@, i as int);
        }
        &self.entries[i].0
    }

    /// The value of the entry at position `i`.
    pub fn value_at(&self, i: usize) -> (r: &V)
        requires
            i < self.entries().len(),
        ensures
            *r == self.entries()[i as int].1,
            self@.contains_key(self.entries()[i as int].0@),
            self@[self.entries()[i as int].0@] == *r,
    {
        proof {
            use_type_invariant(self);
            lemma_entry(self.entries@, i as int);
        }
        &self.entries[i].1
    }

    /// The position of `key`.
    fn position(&self, key: &K) -> (r: Option<usize>)
        ensures
            match r {
                Some(i) => i < self.entries@.len() && self.entries@[i as int].0@ == key@,
                None => !has_key(self.entries@, key@),
            },
    {
        let mut i: usize = 0;
        while i < self.entries.len()
            invariant
                i <= self.entries@.len(),
                forall|j: int| 0 <= j < i ==> (#[trigger] self.entries@[j]).0@ != key@,
            decreases self.entries@.len() - i,
        {
            if self.entries[i].0.same(key) {
                return Some(i);
            }
            i = i + 1;
        }
        None
    }

    /// The value held under `key`.
    pub fn get(&self, key: &K) -> (r: Option<&V>)
        ensures
            r == (if self@.contains_key(key@) {
                Some(&self@[key@])
            } else {
                None
            }),
    {
        match self.position(key) {
            Some(i) => {
                proof {
                    use_type_invariant(self);
                    lemma_entry(self.entries@, i as int);
                }
                Some(&self.entries[i].1)
            },
            None => None,
        }
    }

    /// Whether `key` holds a value.
    pub fn contains_key(&self, key: &K) -> (r: bool)
        ensures
            r == self@.contains_key(key@),
    {
        match self.position(key) {
            Some(_) => true,
            None => false,
        }
    }

    /// Puts `value` under `key` and gives back the value that it replaces. A
    /// key that is there keeps its place, a new one comes last.
    pub fn insert(&mut self, key: K, value: V) -> (r: Option<V>)
        ensures
            final(self)@ == old(self)@.insert(key@, value),
            old(self)@.dom().finite(),
            final(self)@.dom().finite(),
            r == (if old(self)@.contains_key(key@) {
                Some(old(self)@[key@])
            } else {
                None
            }),
            !old(self)@.contains_key(key@) ==> final(self).entries() == old(self).entries().push(
                (key, value),
            ),
            old(self)@.contains_key(key@) ==> {
                &&& final(self).entries().len() == old(self).entries().len()
                &&& forall|i: int|
                    #![trigger final(self).entries()[i]]
                    0 <= i < old(self).entries().len() ==> {
                        &&& final(self).entries()[i].0@ == old(self).entries()[i].0@
                        &&& old(self).entries()[i].0@ != key@ ==> final(self).entries()[i]
                            == old(self).entries()[i]
                        &&& old(self).entries()[i].0@ == key@ ==> final(self).entries()[i] == (
                            key,
                            value,
                        )
                    }
            },
    {
        proof {
            use_type_invariant(&*self);
        }
        let ghost before = self.entries@;
        let ghost added = (key, value);
        proof {
            lemma_map_size(before);
        }
        let found = self.position(&key);
        let mut entries: Vec<(K, V)> = Vec::new();
        std::mem::swap(&mut entries, &mut self.entries);
        match found {
            Some(i) => {
                proof {
                    lemma_entry(before, i as int);
                }
                let ghost after = before.update(i as int, added);
                entries.push((key, value));
                let previous = entries.swap_remove(i);
                proof {
                    assert(entries@ =~= after);
                    assert(distinct_keys(after));
                    lemma_map_update(before, i as int, added);
                }
                self.entries = entries;
                Some(previous.1)
            },
            None => {
                entries.push((key, value));
                proof {
                    assert(entries@ =~= before.push(added));
                    lemma_map_push(before, added);
                }
                self.entries = entries;
                None
            },
        }
    }

    /// Removes `key` and gives back the value that it held. The other entries
    /// keep their order.
    pub fn remove(&mut self, key: &K) -> (r: Option<V>)
        ensures
            final(self)@ == old(self)@.remove(key@),
            old(self)@.dom().finite(),
            final(self)@.dom().finite(),
            r == (if old(self)@.contains_key(key@) {
                Some(old(self)@[key@])
            } else {
                None
            }),
            old(self)@.contains_key(key@) ==> final(self).entries() == old(self).entries().remove(
                key_index(old(self).entries(), key@),
            ),
            !old(self)@.contains_key(key@) ==> final(self).entries() == old(self).entries(),
    {
        proof {
            use_type_invariant(&*self);
        }
        let ghost before = self.entries@;
        proof {
            lemma_map_size(before);
        }
        match self.position(key) {
            Some(i) => {
                proof {
                    lemma_entry(before, i as int);
                }
                let mut entries: Vec<(K, V)> = Vec::new();
                std::mem::swap(&mut entries, &mut self.entries);
                let previous = entries.remove(i);
                proof {
                    lemma_map_remove(before, i as int);
                }
                self.entries = entries;
                Some(previous.1)
            },
            None => {
                assert(entries_map(before).remove(key@) =~= entries_map(before));
                None
            },
        }
    }
}

/// The values of a map, by their views.
pub open spec fn value_views<K, V: View>(map: Map<K, V>) -> Map<K, V::V> {
    Map::new(|k: K| map.contains_key(k), |k: K| map[k]@)
}

impl<K: Key + Duplicate, V: Duplicate> Table<K, V> {
    /// A copy of the table.
    pub fn duplicate(&self) -> (r: Self)
        ensures
            value_views(r@) == value_views(self@),
    {
        proof {
            use_type_invariant(self);
        }
        let mut entries: Vec<(K, V)> = Vec::new();
        let mut i: usize = 0;
        while i < self.entries.len()
            invariant
                i <= self.entries@.len(),
                entries@.len() == i,
                forall|j: int|
                    0 <= j < i ==> (#[trigger] entries@[j]).0@ == self.entries@[j].0@
                        && entries@[j].1@ == self.entries@[j].1@,
            decreases self.entries@.len() - i,
        {
            entries.push((self.entries[i].0.duplicate(), self.entries[i].1.duplicate()));
            i = i + 1;
        }
        proof {
            lemma_map_of_equals(entries@, self.entries@);
        }
        Table { entries }
    }
}

proof fn lemma_map_of_equals<K: View, V: View>(a: Seq<(K, V)>, b: Seq<(K, V)>)
    requires
        distinct_keys(b),
        a.len() == b.len(),
        forall|i: int| 0 <= i < a.len() ==> (#[trigger] a[i]).0@ == b[i].0@ && a[i].1@ == b[i].1@,
    ensures
        distinct_keys(a),
        value_views(entries_map(a)) == value_views(entries_map(b)),
{
    assert forall|i: int, j: int| 0 <= i < j < a.len() implies (#[trigger] a[i]).0@ != (
    #[trigger] a[j]).0@ by {
        assert(b[i].0@ != b[j].0@);
    }
    assert forall|k: K::V| has_key(a, k) == has_key(b, k) by {
        if has_key(a, k) {
            assert(b[key_index(a, k)].0@ == k);
        }
        if has_key(b, k) {
            assert(a[key_index(b, k)].0@ == k);
        }
    }
    assert forall|k: K::V| has_key(a, k) implies entries_map(a)[k]@ == entries_map(b)[k]@ by {
        let i = key_index(a, k);
        lemma_entry(a, i);
        lemma_entry(b, i);
    }
    assert(value_views(entries_map(a)) =~= value_views(entries_map(b)));
}

proof fn lemma_map_size<K: View, V>(entries: Seq<(K, V)>)
    requires
        distinct_keys(entries),
    ensures
        entries_map(entries).dom().finite(),
        entries_map(entries).dom().len() == entries.len(),
    decreases entries.len(),
{
    if entries.len() == 0 {
        assert(entries_map(entries).dom() =~= Set::<K::V>::empty());
    } else {
        let front = entries.drop_last();
        let last = entries.last();
        assert forall|i: int, j: int| 0 <= i < j < front.len() implies (#[trigger] front[i]).0@ != (
        #[trigger] front[j]).0@ by {
            assert(front[i] == entries[i] && front[j] == entries[j]);
        }
        if has_key(front, last.0@) {
            let i = key_index(front, last.0@);
            assert(front[i] == entries[i]);
            assert(entries[entries.len() - 1] == last);
        }
        lemma_map_size(front);
        lemma_map_push(front, last);
        assert(entries =~= front.push(last));
        assert(entries_map(entries).dom() =~= entries_map(front).dom().insert(last.0@));
    }
}

proof fn lemma_map_push<K: View, V>(entries: Seq<(K, V)>, e: (K, V))
    requires
        distinct_keys(entries),
        !has_key(entries, e.0@),
    ensures
        distinct_keys(entries.push(e)),
        entries_map(entries.push(e)) == entries_map(entries).insert(e.0@, e.1),
{
    let after = entries.push(e);
    assert forall|i: int, j: int| 0 <= i < j < after.len() implies (#[trigger] after[i]).0@ != (
    #[trigger] after[j]).0@ by {
        if j == entries.len() {
            assert(after[i] == entries[i]);
        }
    }
    assert forall|k: K::V| has_key(after, k) == (has_key(entries, k) || k == e.0@) by {
        if has_key(entries, k) {
            let i = key_index(entries, k);
            assert(after[i].0@ == k);
        }
        if k == e.0@ {
            assert(after[entries.len() as int].0@ == k);
        }
        if has_key(after, k) {
            let i = key_index(after, k);
            if i < entries.len() {
                assert(entries[i].0@ == k);
            }
        }
    }
    assert forall|k: K::V| has_key(after, k) implies entries_map(after)[k] == entries_map(
        entries,
    ).insert(e.0@, e.1)[k] by {
        let i = key_index(after, k);
        lemma_entry(after, i);
        if i < entries.len() {
            lemma_entry(entries, i);
        }
    }
    assert(entries_map(after) =~= entries_map(entries).insert(e.0@, e.1));
}

proof fn lemma_map_update<K: View, V>(entries: Seq<(K, V)>, p: int, e: (K, V))
    requires
        distinct_keys(entries),
        0 <= p < entries.len(),
        entries[p].0@ == e.0@,
    ensures
        distinct_keys(entries.update(p, e)),
        entries_map(entries.update(p, e)) == entries_map(entries).insert(e.0@, e.1),
{
    let after = entries.update(p, e);
    assert forall|i: int| 0 <= i < after.len() implies (#[trigger] after[i]).0@
        == entries[i].0@ by {}
    assert forall|k: K::V| has_key(after, k) == has_key(entries, k) by {
        if has_key(entries, k) {
            let i = key_index(entries, k);
            assert(after[i].0@ == k);
        }
        if has_key(after, k) {
            let i = key_index(after, k);
            assert(entries[i].0@ == k);
        }
    }
    lemma_entry(entries, p);
    assert forall|k: K::V| has_key(after, k) implies entries_map(after)[k] == entries_map(
        entries,
    ).insert(e.0@, e.1)[k] by {
        let i = key_index(after, k);
        lemma_entry(after, i);
        lemma_entry(entries, i);
    }
    assert(entries_map(after) =~= entries_map(entries).insert(e.0@, e.1));
}

proof fn lemma_map_remove<K: View, V>(entries: Seq<(K, V)>, p: int)
    requires
        distinct_keys(entries),
        0 <= p < entries.len(),
    ensures
        distinct_keys(entries.remove(p)),
        entries_map(entries.remove(p)) == entries_map(entries).remove(entries[p].0@),
{
    let after = entries.remove(p);
    let gone = entries[p].0@;
    assert forall|i: int| 0 <= i < after.len() implies #[trigger] after[i] == entries[if i < p {
        i
    } else {
        i + 1
    }] by {}
    assert forall|k: K::V| has_key(after, k) == (has_key(entries, k) && k != gone) by {
        if has_key(entries, k) && k != gone {
            let i = key_index(entries, k);
            assert(after[if i < p { i } else { i - 1 }].0@ == k);
        }
        if has_key(after, k) {
            let i = key_index(after, k);
            let o = if i < p { i } else { i + 1 };
            assert(entries[o].0@ == k);
            lemma_entry(entries, o);
            lemma_entry(entries, p);
        }
    }
    assert forall|k: K::V| has_key(after, k) implies entries_map(after)[k] == entries_map(
        entries,
    )[k] by {
        let i = key_index(after, k);
        lemma_entry(after, i);
        lemma_entry(entries, if i < p { i } else { i + 1 });
    }
    assert(entries_map(after) =~= entries_map(entries).remove(gone));
}

/// One more item is kept or left out by itself.
pub proof fn lemma_filter_step<A>(s: Seq<A>, keep: spec_fn(A) -> bool, i: int)
    requires
        0 <= i < s.len(),
    ensures
        s.take(i + 1).filter(keep) == (if keep(s[i]) {
            s.take(i).filter(keep).push(s[i])
        } else {
            s.take(i).filter(keep)
        }),
{
    reveal(Seq::filter);
    assert(s.take(i + 1).drop_last() =~= s.take(i));
}

/// A filtered list holds what the list holds and the filter keeps.
pub proof fn lemma_filter_contains<A>(s: Seq<A>, keep: spec_fn(A) -> bool, x: A)
    ensures
        s.filter(keep).contains(x) <==> s.contains(x) && keep(x),
    decreases s.len(),
{
    reveal(Seq::filter);
    if s.len() > 0 {
        let front = s.drop_last();
        lemma_filter_contains(front, keep, x);
        assert(s =~= front.push(s.last()));
        lemma_push_contains(front, s.last(), x);
        lemma_push_contains(front.filter(keep), s.last(), x);
    }
}

/// A list with one more item holds what it held, and that item.
pub proof fn lemma_push_contains<A>(s: Seq<A>, last: A, x: A)
    ensures
        s.push(last).contains(x) <==> s.contains(x) || last == x,
{
    let all = s.push(last);
    if s.contains(x) {
        assert(all[s.index_of(x)] == x);
    }
    if last == x {
        assert(all[s.len() as int] == x);
    }
    if all.contains(x) {
        let i = all.index_of(x);
        if i < s.len() {
            assert(s[i] == x);
        }
    }
}

/// Two lists in a row hold what either of them holds.
pub proof fn lemma_concat_contains<A>(a: Seq<A>, b: Seq<A>, x: A)
    ensures
        (a + b).contains(x) <==> a.contains(x) || b.contains(x),
{
    let all = a + b;
    if a.contains(x) {
        assert(all[a.index_of(x)] == x);
    }
    if b.contains(x) {
        assert(all[a.len() + b.index_of(x)] == x);
    }
    if all.contains(x) {
        let i = all.index_of(x);
        if i < a.len() {
            assert(a[i] == x);
        } else {
            assert(b[i - a.len()] == x);
        }
    }
}

/// Whether `at` are positions in a list of `n` items, from the front to the
/// back, each once.
pub open spec fn ascending(at: Seq<int>, n: int) -> bool {
    &&& forall|k: int| 0 <= k < at.len() ==> 0 <= #[trigger] at[k] < n
    &&& forall|k: int, l: int| 0 <= k < l < at.len() ==> #[trigger] at[k] < #[trigger] at[l]
}

/// Positions in a list are positions in a longer one, with or without those of
/// the new last item.
pub proof fn lemma_ascending_push(at: Seq<int>, n: int)
    requires
        0 <= n,
        ascending(at, n),
    ensures
        ascending(at, n + 1),
        ascending(at.push(n), n + 1),
        !at.contains(n),
        forall|i: int| #[trigger] at.push(n).contains(i) <==> at.contains(i) || i == n,
        forall|i: int| #[trigger] at.contains(i) ==> 0 <= i < n,
{
    assert forall|i: int| #[trigger] at.push(n).contains(i) <==> at.contains(i) || i == n by {
        lemma_push_contains(at, n, i);
    }
}

} // verus!
