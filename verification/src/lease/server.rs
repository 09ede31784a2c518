//! The start of the replication group of the lease authority.

use crate::collections::{Key, Table};
use crate::lease::raft::{stable_hash_of, LeaseNodeId};
use crate::network::peer::{contains_peer, peer_id_bytes, peer_texts, PeerId};
use crate::node::NodeId;
use vstd::prelude::*;

verus! {

/// How long a node waits for others to show up before it settles who starts
/// the group, in milliseconds.
pub const BOOTSTRAP_DELAY_MS: u64 = 5000;

/// The number of a peer in the group.
pub open spec fn member_number(peer: Seq<char>) -> u64 {
    stable_hash_of(peer_id_bytes(peer)->0)
}

/// `peers`, with `local` at the end where it is not among them.
pub open spec fn with_local(peers: Seq<PeerId>, local: PeerId) -> Seq<PeerId> {
    if peer_texts(peers).contains(local@) {
        peers
    } else {
        peers.push(local)
    }
}

/// The numbers of peers in the group.
pub open spec fn numbers_of(peers: Seq<PeerId>) -> Seq<u64> {
    peers.map_values(|p: PeerId| member_number(p@))
}

/// Whether position `i` holds the lowest number, the first one among equals.
pub open spec fn is_first_lowest(numbers: Seq<u64>, i: int) -> bool {
    &&& 0 <= i < numbers.len()
    &&& forall|j: int| 0 <= j < numbers.len() ==> numbers[i] <= #[trigger] numbers[j]
    &&& forall|j: int| 0 <= j < i ==> numbers[i] < #[trigger] numbers[j]
}

/// The position of the lowest number, the first one among equals.
pub fn first_lowest(numbers: &Vec<u64>) -> (r: Option<usize>)
    ensures
        match r {
            Some(i) => is_first_lowest(numbers@, i as int),
            None => numbers@.len() == 0,
        },
{
    if numbers.len() == 0 {
        return None;
    }
    let mut best: usize = 0;
    let mut i: usize = 1;
    while i < numbers.len()
        invariant
            best < i <= numbers@.len(),
            forall|j: int| 0 <= j < i ==> numbers@[best as int] <= #[trigger] numbers@[j],
            forall|j: int| 0 <= j < best ==> numbers@[best as int] < #[trigger] numbers@[j],
        decreases numbers@.len() - i,
    {
        if numbers[i] < numbers[best] {
            best = i;
        }
        i = i + 1;
    }
    Some(best)
}

/// The members of the group, by number: the bytes of their identity.
pub open spec fn member_map(peers: Seq<PeerId>) -> Map<u64, Seq<u8>>
    decreases peers.len(),
{
    if peers.len() == 0 {
        Map::empty()
    } else {
        member_map(peers.drop_last()).insert(
            member_number(peers.last()@),
            peer_id_bytes(peers.last()@)->0,
        )
    }
}

/// The nodes of a table, by their bytes.
pub open spec fn node_bytes(nodes: Map<u64, NodeId>) -> Map<u64, Seq<u8>> {
    Map::new(|k: u64| nodes.contains_key(k), |k: u64| nodes[k]@)
}

/// Settles who starts the group, without any message about it. Every node
/// that takes part does the same with the peers it knows; only the one with
/// the lowest number starts the group, and so gets its members here.
pub fn bootstrap(peers: Vec<PeerId>, local: &PeerId) -> (r: Option<Table<u64, NodeId>>)
    ensures
        ({
            let all = with_local(peers@, *local);
            match r {
                Some(members) => {
                    &&& exists|i: int| #[trigger] is_first_lowest(numbers_of(all), i) && all[i]@ == local@
                    &&& node_bytes(members@) == member_map(all)
                },
                None => exists|i: int| #[trigger] is_first_lowest(numbers_of(all), i) && all[i]@ != local@,
            }
        }),
{
    let ghost given = peers@;
    let mut peers: Vec<PeerId> = peers;
    if !contains_peer(&peers, local) {
        peers.push(local.clone());
    }
    let ghost all = with_local(given, *local);
    assert(peers@ == all);
    proof {
        if peer_texts(given).contains(local@) {
            let k = choose|k: int| 0 <= k < peer_texts(given).len() && peer_texts(given)[k] == local@;
            assert(given.len() > 0);
        }
    }
    let mut numbers: Vec<u64> = Vec::new();
    let mut i: usize = 0;
    while i < peers.len()
        invariant
            peers@ == all,
            i <= all.len(),
            numbers@.len() == i,
            forall|j: int| 0 <= j < i ==> #[trigger] numbers@[j] == member_number(all[j]@),
        decreases all.len() - i,
    {
        numbers.push(LeaseNodeId::from_peer(&peers[i]).0);
        i = i + 1;
    }
    assert(numbers@ =~= numbers_of(all));
    match first_lowest(&numbers) {
        Some(best) => {
            assert(is_first_lowest(numbers_of(all), best as int));
            if !peers[best].same(local) {
                return None;
            }
        },
        None => {
            assert(false);
        },
    }
    let mut members: Table<u64, NodeId> = Table::new();
    let mut k: usize = 0;
    assert(node_bytes(members@) =~= Map::<u64, Seq<u8>>::empty());
    while k < peers.len()
        invariant
            peers@ == all,
            k <= all.len(),
            node_bytes(members@) == member_map(all.take(k as int)),
        decreases all.len() - k,
    {
        let number: u64 = LeaseNodeId::from_peer(&peers[k]).0;
        let node = NodeId::from_peer(&peers[k]);
        let ghost before = members@;
        let _ = members.insert(number, node);
        proof {
            assert(all.take(k + 1).drop_last() =~= all.take(k as int));
            assert(all.take(k + 1).last() == all[k as int]);
            assert(node_bytes(members@) =~= node_bytes(before).insert(
                member_number(all[k as int]@),
                peer_id_bytes(all[k as int]@)->0,
            ));
        }
        k = k + 1;
    }
    assert(all.take(k as int) =~= all);
    Some(members)
}

/// Whether the node that starts the group goes on: only where the group is
/// known not to have started yet.
pub fn should_initialize(initialized: Result<bool, String>) -> (r: bool)
    ensures
        r == (initialized == Ok::<bool, String>(false)),
{
    match initialized {
        Ok(started) => !started,
        Err(_) => false,
    }
}

/// Two nodes that know the same peers, in whatever order, and number them all
/// differently agree on who starts the group.
pub proof fn lemma_bootstrap_agrees(a: Seq<PeerId>, b: Seq<PeerId>, i: int, j: int)
    requires
        is_first_lowest(numbers_of(a), i),
        is_first_lowest(numbers_of(b), j),
        peer_texts(a).to_set() == peer_texts(b).to_set(),
        forall|p: int, q: int|
            0 <= p < a.len() && 0 <= q < b.len() && member_number((#[trigger] a[p])@)
                == member_number((#[trigger] b[q])@) ==> a[p]@ == b[q]@,
    ensures
        a[i]@ == b[j]@,
{
    let ta = peer_texts(a);
    let tb = peer_texts(b);
    assert(ta[i] == a[i]@);
    assert(ta.contains(a[i]@));
    assert(ta.to_set().contains(a[i]@));
    assert(tb.contains(a[i]@));
    let q = choose|q: int| 0 <= q < tb.len() && tb[q] == a[i]@;
    assert(b[q]@ == a[i]@);
    assert(tb[j] == b[j]@);
    assert(tb.contains(b[j]@));
    assert(tb.to_set().contains(b[j]@));
    assert(ta.contains(b[j]@));
    let p = choose|p: int| 0 <= p < ta.len() && ta[p] == b[j]@;
    assert(a[p]@ == b[j]@);
    assert(numbers_of(b)[j] <= numbers_of(b)[q]);
    assert(numbers_of(a)[i] <= numbers_of(a)[p]);
}

/// The members that a group starts with are the known peers and this node, each
/// under its number; where two have the same number, the later one counts.
pub proof fn lemma_members_are_the_peers(peers: Seq<PeerId>, i: int)
    requires
        0 <= i < peers.len(),
        forall|j: int|
            i < j < peers.len() ==> member_number((#[trigger] peers[j])@) != member_number(
                peers[i]@,
            ),
    ensures
        member_map(peers).contains_key(member_number(peers[i]@)),
        member_map(peers)[member_number(peers[i]@)] == peer_id_bytes(peers[i]@)->0,
    decreases peers.len(),
{
    let front = peers.drop_last();
    if i < peers.len() - 1 {
        let last = peers[peers.len() - 1];
        assert(member_number(last@) != member_number(peers[i]@));
        assert(front[i] == peers[i]);
        assert forall|j: int| i < j < front.len() implies member_number((#[trigger] front[j])@)
            != member_number(front[i]@) by {
            let same = peers[j];
        }
        lemma_members_are_the_peers(front, i);
    }
}

/// A group starts with no member but the peers.
pub proof fn lemma_only_peers_are_members(peers: Seq<PeerId>, number: u64)
    requires
        forall|j: int| 0 <= j < peers.len() ==> member_number((#[trigger] peers[j])@) != number,
    ensures
        !member_map(peers).contains_key(number),
    decreases peers.len(),
{
    if peers.len() > 0 {
        let front = peers.drop_last();
        let last = peers[peers.len() - 1];
        assert(member_number(last@) != number);
        assert forall|j: int| 0 <= j < front.len() implies member_number((#[trigger] front[j])@)
            != number by {
            let same = peers[j];
        }
        lemma_only_peers_are_members(front, number);
    }
}

/// This node counts among the peers once, whether or not it was listed; the others
/// stay as they were.
pub proof fn lemma_local_node_is_counted(peers: Seq<PeerId>, local: PeerId)
    ensures
        exists|i: int|
            0 <= i < with_local(peers, local).len() && (#[trigger] with_local(peers, local)[i])@
                == local@,
        with_local(peers, local).len() <= peers.len() + 1,
        forall|i: int|
            0 <= i < peers.len() ==> #[trigger] with_local(peers, local)[i] == peers[i],
        (exists|i: int| 0 <= i < peers.len() && (#[trigger] peers[i])@ == local@) ==> with_local(
            peers,
            local,
        ) == peers,
{
    let all = with_local(peers, local);
    let texts = peer_texts(peers);
    if texts.contains(local@) {
        let i = texts.index_of(local@);
        assert(all[i]@ == local@);
    } else {
        assert(all[peers.len() as int]@ == local@);
    }
    if exists|i: int| 0 <= i < peers.len() && (#[trigger] peers[i])@ == local@ {
        let i = choose|i: int| 0 <= i < peers.len() && (#[trigger] peers[i])@ == local@;
        assert(texts[i] == local@);
    }
}

/// Whoever starts a group has a number that no peer is below, and one that none of
/// the peers listed before it has.
pub proof fn lemma_starter_has_the_lowest_number(peers: Seq<PeerId>, i: int, j: int)
    requires
        is_first_lowest(numbers_of(peers), i),
        0 <= j < peers.len(),
    ensures
        0 <= i < peers.len(),
        stable_hash_of(peer_id_bytes(peers[i]@)->0) <= stable_hash_of(peer_id_bytes(peers[j]@)->0),
        j < i ==> stable_hash_of(peer_id_bytes(peers[i]@)->0) < stable_hash_of(
            peer_id_bytes(peers[j]@)->0,
        ),
{
    let numbers = numbers_of(peers);
    assert(numbers[i] <= numbers[j]);
    if j < i {
        assert(numbers[i] < numbers[j]);
    }
}

} // verus!
