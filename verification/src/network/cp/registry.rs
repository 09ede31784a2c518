//! Procedures that peers volunteer to execute.

use crate::collections::{
    ascending, lemma_ascending_push, lemma_filter_contains, lemma_filter_step, Key,
};
use crate::network::peer::PeerId;
use vstd::prelude::*;

verus! {

/// What control planes tell each other, so that all of them learn of every
/// registration.
#[derive(Debug, PartialEq)]
pub enum RpcRegistryGossip {
    Register { name: String, peer_id: PeerId },
    Unregister { name: String, peer_id: PeerId },
}

/// Who executes which procedure: a set of pairs of a name and a peer, in the
/// order of registration. Local to one control plane, and not replicated.
pub struct DynamicRpcRegistry {
    executors: Vec<(String, PeerId)>,
}

/// The pair at position `i`, by its texts.
pub open spec fn pair(entry: (String, PeerId)) -> (Seq<char>, Seq<char>) {
    (entry.0@, entry.1@)
}

/// The pairs of a list of registrations.
pub open spec fn pairs(entries: Seq<(String, PeerId)>) -> Seq<(Seq<char>, Seq<char>)> {
    entries.map_values(|e: (String, PeerId)| pair(e))
}

/// The peers registered for `name`, in the order of registration.
pub open spec fn peers_of(pairs: Seq<(Seq<char>, Seq<char>)>, name: Seq<char>) -> Seq<Seq<char>>
    decreases pairs.len(),
{
    if pairs.len() == 0 {
        Seq::empty()
    } else if pairs.last().0 == name {
        peers_of(pairs.drop_last(), name).push(pairs.last().1)
    } else {
        peers_of(pairs.drop_last(), name)
    }
}

/// The names that `peer` is registered for, in the order of registration.
pub open spec fn names_of(pairs: Seq<(Seq<char>, Seq<char>)>, peer: Seq<char>) -> Seq<Seq<char>>
    decreases pairs.len(),
{
    if pairs.len() == 0 {
        Seq::empty()
    } else if pairs.last().1 == peer {
        names_of(pairs.drop_last(), peer).push(pairs.last().0)
    } else {
        names_of(pairs.drop_last(), peer)
    }
}

/// Selects every pair but `gone`.
pub open spec fn other_than(gone: (Seq<char>, Seq<char>)) -> spec_fn((Seq<char>, Seq<char>)) -> bool {
    |p: (Seq<char>, Seq<char>)| p != gone
}

/// Selects the pairs of every peer but `peer`.
pub open spec fn not_of(peer: Seq<char>) -> spec_fn((Seq<char>, Seq<char>)) -> bool {
    |p: (Seq<char>, Seq<char>)| p.1 != peer
}

/// The pairs without `gone`.
pub open spec fn without(
    pairs: Seq<(Seq<char>, Seq<char>)>,
    gone: (Seq<char>, Seq<char>),
) -> Seq<(Seq<char>, Seq<char>)> {
    pairs.filter(other_than(gone))
}

/// The pairs without those of `peer`.
pub open spec fn without_peer(
    pairs: Seq<(Seq<char>, Seq<char>)>,
    peer: Seq<char>,
) -> Seq<(Seq<char>, Seq<char>)> {
    pairs.filter(not_of(peer))
}

impl View for DynamicRpcRegistry {
    type V = Seq<(Seq<char>, Seq<char>)>;

    closed spec fn view(&self) -> Seq<(Seq<char>, Seq<char>)> {
        pairs(self.executors@)
    }
}

impl DynamicRpcRegistry {
    #[verifier::type_invariant]
    spec fn no_duplicates(self) -> bool {
        pairs(self.executors@).no_duplicates()
    }

    pub fn new() -> (r: Self)
        ensures
            r@ == Seq::<(Seq<char>, Seq<char>)>::empty(),
    {
        let executors: Vec<(String, PeerId)> = Vec::new();
        assert(pairs(executors@) =~= Seq::<(Seq<char>, Seq<char>)>::empty());
        DynamicRpcRegistry { executors }
    }

    /// Whether `peer` is registered for `name`.
    pub fn is_registered(&self, name: &String, peer: &PeerId) -> (r: bool)
        ensures
            r == self@.contains((name@, peer@)),
            self@.no_duplicates(),
    {
        proof {
            use_type_invariant(self);
        }
        let mut i: usize = 0;
        while i < self.executors.len()
            invariant
                i <= self.executors@.len(),
                self@.no_duplicates(),
                forall|j: int| 0 <= j < i ==> #[trigger] self@[j] != (name@, peer@),
            decreases self.executors@.len() - i,
        {
            if self.executors[i].0 == *name && self.executors[i].1.same(peer) {
                assert(self@[i as int] == (name@, peer@));
                return true;
            }
            i = i + 1;
        }
        false
    }

    /// Registers `peer` as an executor of `name`. Says whether that is news,
    /// and so worth telling the others.
    pub fn register(&mut self, name: String, peer_id: PeerId) -> (r: bool)
        ensures
            r == !old(self)@.contains((name@, peer_id@)),
            final(self)@ == (if r {
                old(self)@.push((name@, peer_id@))
            } else {
                old(self)@
            }),
    {
        if self.is_registered(&name, &peer_id) {
            return false;
        }
        let ghost before = self.executors@;
        let ghost added = (name, peer_id);
        let mut executors: Vec<(String, PeerId)> = Vec::new();
        std::mem::swap(&mut executors, &mut self.executors);
        executors.push((name, peer_id));
        proof {
            assert(pairs(executors@) =~= pairs(before).push(pair(added)));
            assert forall|i: int, j: int|
                0 <= i < pairs(executors@).len() && 0 <= j < pairs(executors@).len() && i
                    != j implies pairs(executors@)[i] != pairs(executors@)[j] by {
                if i == before.len() {
                    assert(pairs(before).contains(pairs(before)[j]));
                } else if j == before.len() {
                    assert(pairs(before).contains(pairs(before)[i]));
                }
            }
        }
        self.executors = executors;
        true
    }

    /// Drops the registration of `peer` for `name`, and no other.
    pub fn remove_executor(&mut self, name: &String, peer_id: &PeerId)
        ensures
            final(self)@ == without(old(self)@, (name@, peer_id@)),
    {
        proof {
            use_type_invariant(&*self);
        }
        let ghost before = self.executors@;
        let mut source: Vec<(String, PeerId)> = Vec::new();
        std::mem::swap(&mut source, &mut self.executors);
        let mut kept: Vec<(String, PeerId)> = Vec::new();
        let mut i: usize = 0;
        while i < source.len()
            invariant
                i <= source@.len(),
                source@ == before,
                pairs(kept@) == without(pairs(before).take(i as int), (name@, peer_id@)),
            decreases source@.len() - i,
        {
            let keep = !(source[i].0 == *name && source[i].1.same(peer_id));
            let ghost all = pairs(before);
            proof {
                lemma_filter_step(all, other_than((name@, peer_id@)), i as int);
                assert(all[i as int] == pair(before[i as int]));
            }
            if keep {
                let ghost k = kept@;
                kept.push((source[i].0.clone(), source[i].1.clone()));
                assert(pairs(kept@) =~= pairs(k).push(pair(before[i as int])));
            }
            i = i + 1;
        }
        proof {
            assert(pairs(before).take(i as int) =~= pairs(before));
            lemma_filter_no_duplicates(
                pairs(before),
                other_than((name@, peer_id@)),
            );
        }
        self.executors = kept;
    }

    /// Applies what another control plane said. Never passed on: that would
    /// loop.
    pub fn apply_gossip(&mut self, msg: RpcRegistryGossip)
        ensures
            final(self)@ == (match msg {
                RpcRegistryGossip::Register { name, peer_id } => if old(self)@.contains(
                    (name@, peer_id@),
                ) {
                    old(self)@
                } else {
                    old(self)@.push((name@, peer_id@))
                },
                RpcRegistryGossip::Unregister { name, peer_id } => without(
                    old(self)@,
                    (name@, peer_id@),
                ),
            }),
    {
        match msg {
            RpcRegistryGossip::Register { name, peer_id } => {
                let _ = self.register(name, peer_id);
            },
            RpcRegistryGossip::Unregister { name, peer_id } => {
                self.remove_executor(&name, &peer_id);
            },
        }
    }

    /// Drops every registration of `peer`, whose connection was lost, and
    /// gives back the names that it was registered for, each once.
    pub fn remove_peer(&mut self, peer_id: &PeerId) -> (r: Vec<String>)
        ensures
            final(self)@ == without_peer(old(self)@, peer_id@),
            crate::text::texts(r@) == names_of(old(self)@, peer_id@),
            crate::text::texts(r@).no_duplicates(),
    {
        proof {
            use_type_invariant(&*self);
        }
        let ghost before = self.executors@;
        let mut source: Vec<(String, PeerId)> = Vec::new();
        std::mem::swap(&mut source, &mut self.executors);
        let mut kept: Vec<(String, PeerId)> = Vec::new();
        let mut affected: Vec<String> = Vec::new();
        let mut i: usize = 0;
        while i < source.len()
            invariant
                i <= source@.len(),
                source@ == before,
                pairs(kept@) == without_peer(pairs(before).take(i as int), peer_id@),
                crate::text::texts(affected@) == names_of(
                    pairs(before).take(i as int),
                    peer_id@,
                ),
            decreases source@.len() - i,
        {
            let ghost all = pairs(before);
            proof {
                lemma_filter_step(all, not_of(peer_id@), i as int);
                assert(all[i as int] == pair(before[i as int]));
                assert(all.take(i + 1).drop_last() =~= all.take(i as int));
                assert(all.take(i + 1).last() == all[i as int]);
            }
            if source[i].1.same(peer_id) {
                let ghost a = affected@;
                affected.push(source[i].0.clone());
                assert(crate::text::texts(affected@) =~= crate::text::texts(a).push(
                    before[i as int].0@,
                ));
            } else {
                let ghost k = kept@;
                kept.push((source[i].0.clone(), source[i].1.clone()));
                assert(pairs(kept@) =~= pairs(k).push(pair(before[i as int])));
            }
            i = i + 1;
        }
        proof {
            assert(pairs(before).take(i as int) =~= pairs(before));
            lemma_filter_no_duplicates(pairs(before), not_of(peer_id@));
            lemma_names_of_distinct(pairs(before), peer_id@);
        }
        self.executors = kept;
        affected
    }

    /// The peers registered for `name`, if there is at least one.
    pub fn executors_for(&self, name: &String) -> (r: Option<Vec<PeerId>>)
        ensures
            match r {
                Some(peers) => {
                    &&& peers@.len() > 0
                    &&& crate::network::peer::peer_texts(peers@) == peers_of(self@, name@)
                },
                None => peers_of(self@, name@).len() == 0,
            },
    {
        let mut peers: Vec<PeerId> = Vec::new();
        let mut i: usize = 0;
        while i < self.executors.len()
            invariant
                i <= self.executors@.len(),
                crate::network::peer::peer_texts(peers@) == peers_of(self@.take(i as int), name@),
            decreases self.executors@.len() - i,
        {
            proof {
                assert(self@[i as int] == pair(self.executors@[i as int]));
                assert(self@.take(i + 1).drop_last() =~= self@.take(i as int));
                assert(self@.take(i + 1).last() == self@[i as int]);
            }
            if self.executors[i].0 == *name {
                let ghost p = peers@;
                peers.push(self.executors[i].1.clone());
                assert(crate::network::peer::peer_texts(peers@)
                    =~= crate::network::peer::peer_texts(p).push(self.executors@[i as int].1@));
            }
            i = i + 1;
        }
        assert(self@.take(i as int) =~= self@);
        assert(crate::network::peer::peer_texts(peers@).len() == peers@.len());
        if peers.len() == 0 {
            None
        } else {
            Some(peers)
        }
    }
}

proof fn lemma_filter_no_duplicates<A>(s: Seq<A>, keep: spec_fn(A) -> bool)
    requires
        s.no_duplicates(),
    ensures
        s.filter(keep).no_duplicates(),
    decreases s.len(),
{
    reveal(Seq::filter);
    if s.len() > 0 {
        let front = s.drop_last();
        assert forall|i: int, j: int|
            0 <= i < front.len() && 0 <= j < front.len() && i != j implies front[i] != front[j] by {
            assert(s[i] != s[j]);
        }
        lemma_filter_no_duplicates(front, keep);
        lemma_filter_contains(front, keep, s.last());
        if front.contains(s.last()) {
            let i = choose|i: int| 0 <= i < front.len() && front[i] == s.last();
            assert(s[i] == s[s.len() - 1]);
        }
        let f = front.filter(keep);
        if keep(s.last()) {
            assert forall|i: int, j: int|
                0 <= i < f.push(s.last()).len() && 0 <= j < f.push(s.last()).len() && i
                    != j implies f.push(s.last())[i] != f.push(s.last())[j] by {
                if i == f.len() {
                    assert(f.contains(f[j]));
                } else if j == f.len() {
                    assert(f.contains(f[i]));
                }
            }
        }
    }
}

proof fn lemma_names_of_contains(
    pairs: Seq<(Seq<char>, Seq<char>)>,
    peer: Seq<char>,
    name: Seq<char>,
)
    ensures
        names_of(pairs, peer).contains(name) <==> pairs.contains((name, peer)),
    decreases pairs.len(),
{
    if pairs.len() > 0 {
        let front = pairs.drop_last();
        lemma_names_of_contains(front, peer, name);
        let f = names_of(front, peer);
        if pairs.contains((name, peer)) {
            let i = choose|i: int| 0 <= i < pairs.len() && pairs[i] == (name, peer);
            if i < front.len() {
                assert(front[i] == (name, peer));
                let k = choose|k: int| 0 <= k < f.len() && f[k] == name;
                if pairs.last().1 == peer {
                    assert(f.push(pairs.last().0)[k] == name);
                }
            } else {
                assert(f.push(name)[f.len() as int] == name);
            }
        }
        if names_of(pairs, peer).contains(name) {
            let k = choose|k: int|
                0 <= k < names_of(pairs, peer).len() && names_of(pairs, peer)[k] == name;
            if k < f.len() {
                assert(f[k] == name);
                let i = choose|i: int| 0 <= i < front.len() && front[i] == (name, peer);
                assert(pairs[i] == (name, peer));
            } else {
                assert(pairs[pairs.len() - 1] == (name, peer));
            }
        }
    }
}

proof fn lemma_names_of_distinct(pairs: Seq<(Seq<char>, Seq<char>)>, peer: Seq<char>)
    requires
        pairs.no_duplicates(),
    ensures
        names_of(pairs, peer).no_duplicates(),
    decreases pairs.len(),
{
    if pairs.len() > 0 {
        let front = pairs.drop_last();
        assert forall|i: int, j: int|
            0 <= i < front.len() && 0 <= j < front.len() && i != j implies front[i] != front[j] by {
            assert(pairs[i] != pairs[j]);
        }
        lemma_names_of_distinct(front, peer);
        if pairs.last().1 == peer {
            let name = pairs.last().0;
            let f = names_of(front, peer);
            lemma_names_of_contains(front, peer, name);
            if front.contains((name, peer)) {
                let i = choose|i: int| 0 <= i < front.len() && front[i] == (name, peer);
                assert(pairs[i] == pairs[pairs.len() - 1]);
            }
            assert forall|i: int, j: int|
                0 <= i < f.push(name).len() && 0 <= j < f.push(name).len() && i != j implies f.push(
                name,
            )[i] != f.push(name)[j] by {
                if i == f.len() {
                    assert(f.contains(f[j]));
                } else if j == f.len() {
                    assert(f.contains(f[i]));
                }
            }
        }
    }
}

proof fn lemma_peers_of_contains(
    pairs: Seq<(Seq<char>, Seq<char>)>,
    name: Seq<char>,
    peer: Seq<char>,
)
    ensures
        peers_of(pairs, name).contains(peer) <==> pairs.contains((name, peer)),
    decreases pairs.len(),
{
    if pairs.len() > 0 {
        let front = pairs.drop_last();
        lemma_peers_of_contains(front, name, peer);
        let f = peers_of(front, name);
        if pairs.contains((name, peer)) {
            let i = choose|i: int| 0 <= i < pairs.len() && pairs[i] == (name, peer);
            if i < front.len() {
                assert(front[i] == (name, peer));
                let k = choose|k: int| 0 <= k < f.len() && f[k] == peer;
                if pairs.last().0 == name {
                    assert(f.push(pairs.last().1)[k] == peer);
                }
            } else {
                assert(f.push(peer)[f.len() as int] == peer);
            }
        }
        if peers_of(pairs, name).contains(peer) {
            let k = choose|k: int|
                0 <= k < peers_of(pairs, name).len() && peers_of(pairs, name)[k] == peer;
            if k < f.len() {
                assert(f[k] == peer);
                let i = choose|i: int| 0 <= i < front.len() && front[i] == (name, peer);
                assert(pairs[i] == (name, peer));
            } else {
                assert(pairs[pairs.len() - 1] == (name, peer));
            }
        }
    }
}

/// A procedure has a peer among its executors exactly when that pair is
/// registered.
pub proof fn lemma_executor_iff_registered(
    registry: Seq<(Seq<char>, Seq<char>)>,
    name: Seq<char>,
    peer: Seq<char>,
)
    ensures
        peers_of(registry, name).contains(peer) <==> registry.contains((name, peer)),
{
    lemma_peers_of_contains(registry, name, peer);
}

/// Once a peer is dropped, it executes nothing any more, and every other peer
/// executes what it did: a procedure whose last executor left has none.
pub proof fn lemma_dropped_peer_executes_nothing(
    registry: Seq<(Seq<char>, Seq<char>)>,
    gone: Seq<char>,
    name: Seq<char>,
    peer: Seq<char>,
)
    ensures
        peers_of(without_peer(registry, gone), name).contains(peer) <==> peer != gone && peers_of(
            registry,
            name,
        ).contains(peer),
{
    lemma_peers_of_contains(without_peer(registry, gone), name, peer);
    lemma_peers_of_contains(registry, name, peer);
    lemma_filter_contains(registry, not_of(gone), (name, peer));
}

/// A dropped peer is announced for exactly the procedures that it executed.
pub proof fn lemma_dropped_peer_announced(
    registry: Seq<(Seq<char>, Seq<char>)>,
    gone: Seq<char>,
    name: Seq<char>,
)
    ensures
        names_of(registry, gone).contains(name) <==> peers_of(registry, name).contains(gone),
{
    lemma_names_of_contains(registry, gone, name);
    lemma_peers_of_contains(registry, name, gone);
}

/// Removing one executor of one procedure leaves all other pairs as they are.
pub proof fn lemma_removed_executor(
    registry: Seq<(Seq<char>, Seq<char>)>,
    gone: (Seq<char>, Seq<char>),
    name: Seq<char>,
    peer: Seq<char>,
)
    ensures
        peers_of(without(registry, gone), name).contains(peer) <==> (name, peer) != gone && peers_of(
            registry,
            name,
        ).contains(peer),
{
    lemma_peers_of_contains(without(registry, gone), name, peer);
    lemma_peers_of_contains(registry, name, peer);
    lemma_filter_contains(registry, other_than(gone), (name, peer));
}

/// The executors of a procedure are those of its pairs, in their order: `at` are
/// the positions of the pairs.
pub proof fn lemma_executors_in_order(
    registry: Seq<(Seq<char>, Seq<char>)>,
    name: Seq<char>,
) -> (at: Seq<int>)
    ensures
        ascending(at, registry.len() as int),
        at.len() == peers_of(registry, name).len(),
        forall|k: int|
            0 <= k < at.len() ==> registry[#[trigger] at[k]] == (
                name,
                peers_of(registry, name)[k],
            ),
        forall|i: int| #[trigger]
            at.contains(i) <==> 0 <= i < registry.len() && registry[i].0 == name,
    decreases registry.len(),
{
    if registry.len() == 0 {
        Seq::empty()
    } else {
        let front = registry.drop_last();
        let n = front.len() as int;
        let before = lemma_executors_in_order(front, name);
        lemma_ascending_push(before, n);
        assert forall|i: int| 0 <= i < n implies front[i] == registry[i] by {}
        if registry.last().0 == name {
            before.push(n)
        } else {
            before
        }
    }
}

/// The procedures of a peer are those of its pairs, in their order: `at` are the
/// positions of the pairs.
pub proof fn lemma_procedures_in_order(
    registry: Seq<(Seq<char>, Seq<char>)>,
    peer: Seq<char>,
) -> (at: Seq<int>)
    ensures
        ascending(at, registry.len() as int),
        at.len() == names_of(registry, peer).len(),
        forall|k: int|
            0 <= k < at.len() ==> registry[#[trigger] at[k]] == (
                names_of(registry, peer)[k],
                peer,
            ),
        forall|i: int| #[trigger]
            at.contains(i) <==> 0 <= i < registry.len() && registry[i].1 == peer,
    decreases registry.len(),
{
    if registry.len() == 0 {
        Seq::empty()
    } else {
        let front = registry.drop_last();
        let n = front.len() as int;
        let before = lemma_procedures_in_order(front, peer);
        lemma_ascending_push(before, n);
        assert forall|i: int| 0 <= i < n implies front[i] == registry[i] by {}
        if registry.last().1 == peer {
            before.push(n)
        } else {
            before
        }
    }
}

/// Dropping a pair, or a peer, drops exactly that.
pub proof fn lemma_dropping_is_exact(
    registry: Seq<(Seq<char>, Seq<char>)>,
    gone: (Seq<char>, Seq<char>),
    peer: Seq<char>,
    pair: (Seq<char>, Seq<char>),
)
    ensures
        without(registry, gone).contains(pair) <==> registry.contains(pair) && pair != gone,
        without_peer(registry, peer).contains(pair) <==> registry.contains(pair) && pair.1 != peer,
{
    lemma_filter_contains(registry, other_than(gone), pair);
    lemma_filter_contains(registry, not_of(peer), pair);
}

} // verus!
