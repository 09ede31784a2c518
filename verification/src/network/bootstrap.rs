//! Who serves what: peers register under namespaces, and everyone picks the
//! same one for the same thing.

use crate::collections::{
    ascending, lemma_ascending_push, lemma_filter_contains, lemma_filter_step,
    lemma_push_contains, Key,
};
use crate::network::peer::{peer_id_bytes, PeerId};
use crate::text::copy_texts;
use sha2::Digest;
use vstd::prelude::*;

verus! {

/// The SHA-256 digest of a byte string.
pub uninterp spec fn sha256_of(data: Seq<u8>) -> Seq<u8>;

/// Calls `sha2::Sha256::digest`, which depends on the data alone and gives 32
/// bytes.
#[verifier::external_body]
fn sha256(data: &Vec<u8>) -> (r: Vec<u8>)
    ensures
        r@ == sha256_of(data@),
        r@.len() == 32,
{
    sha2::Sha256::digest(data).to_vec()
}

/// Whether `a` comes before `b` in the dictionary order of byte strings.
pub open spec fn precedes(a: Seq<u8>, b: Seq<u8>) -> bool
    decreases a.len(),
{
    if b.len() == 0 {
        false
    } else if a.len() == 0 {
        true
    } else if a[0] != b[0] {
        a[0] < b[0]
    } else {
        precedes(a.skip(1), b.skip(1))
    }
}

/// Whether `a` comes before `b` in the dictionary order of byte strings.
fn comes_before(a: &Vec<u8>, b: &Vec<u8>) -> (r: bool)
    ensures
        r == precedes(a@, b@),
{
    let mut i: usize = 0;
    assert(a@.skip(0) =~= a@);
    assert(b@.skip(0) =~= b@);
    while i < a.len() && i < b.len()
        invariant
            i <= a@.len(),
            i <= b@.len(),
            precedes(a@, b@) == precedes(a@.skip(i as int), b@.skip(i as int)),
        decreases a@.len() - i,
    {
        assert(a@.skip(i as int)[0] == a@[i as int]);
        assert(b@.skip(i as int)[0] == b@[i as int]);
        assert(a@.skip(i as int).skip(1) =~= a@.skip(i + 1));
        assert(b@.skip(i as int).skip(1) =~= b@.skip(i + 1));
        if a[i] != b[i] {
            return a[i] < b[i];
        }
        i = i + 1;
    }
    i < b.len()
}

proof fn lemma_precedes_total(a: Seq<u8>, b: Seq<u8>)
    ensures
        !(precedes(a, b) && precedes(b, a)),
        a != b ==> precedes(a, b) || precedes(b, a),
        !precedes(a, a),
    decreases a.len(),
{
    if a.len() > 0 && b.len() > 0 {
        lemma_precedes_total(a.skip(1), b.skip(1));
        if a[0] == b[0] && a.skip(1) == b.skip(1) {
            assert(a.len() == b.len());
            assert forall|i: int| 0 <= i < a.len() implies a[i] == b[i] by {
                if i > 0 {
                    assert(a.skip(1)[i - 1] == b.skip(1)[i - 1]);
                }
            }
            assert(a =~= b);
        }
    } else {
        if a.len() == 0 && b.len() == 0 {
            assert(a =~= b);
        }
        if a.len() > 0 {
            lemma_precedes_total(a.skip(1), a.skip(1));
        }
    }
}

proof fn lemma_precedes_transitive(a: Seq<u8>, b: Seq<u8>, c: Seq<u8>)
    requires
        precedes(a, b),
        precedes(b, c),
    ensures
        precedes(a, c),
    decreases a.len(),
{
    if a.len() > 0 && b.len() > 0 && c.len() > 0 {
        if a[0] == b[0] && b[0] == c[0] {
            lemma_precedes_transitive(a.skip(1), b.skip(1), c.skip(1));
        }
    }
}

/// Whether position `i` holds the highest score, the last one among equals.
pub open spec fn is_selected(scores: Seq<Seq<u8>>, i: int) -> bool {
    &&& 0 <= i < scores.len()
    &&& forall|j: int| 0 <= j < scores.len() ==> !precedes(scores[i], #[trigger] scores[j])
    &&& forall|j: int| i < j < scores.len() ==> precedes(#[trigger] scores[j], scores[i])
}

/// The contents of a list of byte strings.
pub open spec fn byte_views(list: Seq<Vec<u8>>) -> Seq<Seq<u8>> {
    list.map_values(|v: Vec<u8>| v@)
}

/// The position of the highest score, the last one among equals.
pub fn select_by_scores(scores: &Vec<Vec<u8>>) -> (r: Option<usize>)
    ensures
        match r {
            Some(i) => is_selected(byte_views(scores@), i as int),
            None => scores@.len() == 0,
        },
{
    if scores.len() == 0 {
        return None;
    }
    let ghost all = byte_views(scores@);
    let mut best: usize = 0;
    let mut i: usize = 1;
    proof {
        lemma_precedes_total(all[0], all[0]);
    }
    while i < scores.len()
        invariant
            best < i <= scores@.len(),
            all == byte_views(scores@),
            forall|j: int| 0 <= j < i ==> !precedes(all[best as int], #[trigger] all[j]),
            forall|j: int| best < j < i ==> precedes(#[trigger] all[j], all[best as int]),
        decreases scores@.len() - i,
    {
        proof {
            lemma_precedes_total(all[i as int], all[best as int]);
            lemma_precedes_total(all[i as int], all[i as int]);
            assert(all[i as int] == scores@[i as int]@);
            assert(all[best as int] == scores@[best as int]@);
        }
        if !comes_before(&scores[i], &scores[best]) {
            proof {
                assert forall|j: int| 0 <= j < i + 1 implies !precedes(
                    all[i as int],
                    #[trigger] all[j],
                ) by {
                    if j < i && precedes(all[i as int], all[j]) {
                        if all[i as int] != all[best as int] {
                            lemma_precedes_transitive(all[best as int], all[i as int], all[j]);
                        }
                    }
                }
            }
            best = i;
        }
        i = i + 1;
    }
    Some(best)
}

/// The score of a peer for a thing: the digest of both.
pub open spec fn score_of(id: Seq<u8>, peer: Seq<char>) -> Seq<u8> {
    sha256_of(id + peer_id_bytes(peer)->0)
}

/// The scores of peers for a thing.
pub open spec fn scores_of(id: Seq<u8>, peers: Seq<PeerId>) -> Seq<Seq<u8>> {
    peers.map_values(|p: PeerId| score_of(id, p@))
}

/// Picks one of `peers` for the thing `id`: everyone who knows the same peers
/// picks the same one.
pub fn select_among(peers: &Vec<PeerId>, id: &Vec<u8>) -> (r: Option<PeerId>)
    ensures
        match r {
            Some(peer) => exists|i: int| #[trigger]
                is_selected(scores_of(id@, peers@), i) && peer == peers@[i],
            None => peers@.len() == 0,
        },
{
    let mut scores: Vec<Vec<u8>> = Vec::new();
    let mut i: usize = 0;
    while i < peers.len()
        invariant
            i <= peers@.len(),
            scores@.len() == i,
            forall|j: int| 0 <= j < i ==> (#[trigger] scores@[j])@ == score_of(id@, peers@[j]@),
        decreases peers@.len() - i,
    {
        let mut data = crate::collections::copy_bytes(id);
        let mut bytes = peers[i].to_bytes();
        data.append(&mut bytes);
        scores.push(sha256(&data));
        i = i + 1;
    }
    assert(byte_views(scores@) =~= scores_of(id@, peers@));
    match select_by_scores(&scores) {
        Some(at) => {
            assert(is_selected(scores_of(id@, peers@), at as int));
            Some(peers[at].clone())
        },
        None => None,
    }
}

/// When a registration is looked at again.
#[derive(Debug, PartialEq)]
pub struct NsPeerInfo {
    pub namespace: String,
    pub peer_id: PeerId,
    /// In milliseconds.
    pub expires_at: u64,
}

/// A [`NsPeerInfo`], by its texts.
pub struct Check {
    pub namespace: Seq<char>,
    pub peer: Seq<char>,
    pub expires_at: u64,
}

impl View for NsPeerInfo {
    type V = Check;

    open spec fn view(&self) -> Check {
        Check {
            namespace: self.namespace@,
            peer: self.peer_id@,
            expires_at: self.expires_at,
        }
    }
}

/// Registrations to look at, by their texts.
pub open spec fn checks_of(list: Seq<NsPeerInfo>) -> Seq<Check> {
    list.map_values(|c: NsPeerInfo| c@)
}

/// Registered peers: a namespace and a peer each.
pub open spec fn members_of(list: Seq<(String, PeerId)>) -> Seq<(Seq<char>, Seq<char>)> {
    list.map_values(|e: (String, PeerId)| (e.0@, e.1@))
}

/// The peers of `namespace`, in order.
pub open spec fn peers_in(members: Seq<(String, PeerId)>, namespace: Seq<char>) -> Seq<PeerId>
    decreases members.len(),
{
    if members.len() == 0 {
        Seq::empty()
    } else if members.last().0@ == namespace {
        peers_in(members.drop_last(), namespace).push(members.last().1)
    } else {
        peers_in(members.drop_last(), namespace)
    }
}

/// The position of the first registration of `peer` under `namespace`.
pub open spec fn check_position(
    checks: Seq<Check>,
    namespace: Seq<char>,
    peer: Seq<char>,
) -> Option<int>
    decreases checks.len(),
{
    if checks.len() == 0 {
        None
    } else {
        match check_position(checks.drop_last(), namespace, peer) {
            Some(i) => Some(i),
            None => if checks.last().namespace == namespace && checks.last().peer == peer {
                Some(checks.len() - 1)
            } else {
                None
            },
        }
    }
}

/// Selects what is not a registration of `peer`.
pub open spec fn not_peer(peer: Seq<char>) -> spec_fn((Seq<char>, Seq<char>)) -> bool {
    |e: (Seq<char>, Seq<char>)| e.1 != peer
}

/// Selects what is not the registration of `peer` under `namespace`.
pub open spec fn not_member(namespace: Seq<char>, peer: Seq<char>) -> spec_fn(
    (Seq<char>, Seq<char>),
) -> bool {
    |e: (Seq<char>, Seq<char>)| e != (namespace, peer)
}

/// What is known of registrations: when each ends, and which peers are listed
/// for which namespace.
#[verifier::ext_equal]
pub struct Registrations {
    pub checks: Seq<Check>,
    pub members: Seq<(Seq<char>, Seq<char>)>,
}

impl Registrations {
    /// When the registration of `peer` under `namespace` ends, if there is one.
    pub open spec fn end_of(&self, namespace: Seq<char>, peer: Seq<char>) -> Option<u64> {
        match check_position(self.checks, namespace, peer) {
            Some(i) => Some(self.checks[i].expires_at),
            None => None,
        }
    }

    /// Whether `peer` is listed for `namespace`.
    pub open spec fn lists(&self, namespace: Seq<char>, peer: Seq<char>) -> bool {
        self.members.contains((namespace, peer))
    }

    /// After `peer` registered under `namespace` until `end`.
    pub open spec fn registered(
        &self,
        namespace: Seq<char>,
        peer: Seq<char>,
        end: u64,
    ) -> Registrations {
        let check = Check { namespace, peer, expires_at: end };
        Registrations {
            checks: match check_position(self.checks, namespace, peer) {
                Some(i) => self.checks.update(i, check),
                None => self.checks.push(check),
            },
            members: if self.lists(namespace, peer) {
                self.members
            } else {
                self.members.push((namespace, peer))
            },
        }
    }

    /// After a look, at time `now`, at the registration of `peer` under
    /// `namespace`.
    pub open spec fn looked_at(
        &self,
        namespace: Seq<char>,
        peer: Seq<char>,
        now: u64,
    ) -> Registrations {
        match check_position(self.checks, namespace, peer) {
            Some(i) => if self.checks[i].expires_at <= now {
                Registrations {
                    checks: self.checks.remove(i),
                    members: self.members.filter(not_member(namespace, peer)),
                }
            } else {
                *self
            },
            None => *self,
        }
    }
}

/// The peers without `gone`.
pub open spec fn other_peers(peers: Seq<PeerId>, gone: Seq<char>) -> Seq<PeerId>
    decreases peers.len(),
{
    if peers.len() == 0 {
        Seq::empty()
    } else if peers.last()@ == gone {
        other_peers(peers.drop_last(), gone)
    } else {
        other_peers(peers.drop_last(), gone).push(peers.last())
    }
}

/// A request to a bootstrap server to register this node.
#[derive(Debug, PartialEq)]
pub struct RegisterPeer {
    pub namespaces: Vec<String>,
    pub bootstrap_peer_id: PeerId,
    pub ttl: Option<u64>,
}

/// What a node knows of the namespaces of the cluster: who serves which.
pub struct BootstrapClient {
    pub members: Vec<(String, PeerId)>,
}

impl BootstrapClient {
    /// A node that knows nobody.
    pub fn new() -> (r: Self)
        ensures
            r.members@.len() == 0,
    {
        BootstrapClient { members: Vec::new() }
    }

    /// The peers of a namespace.
    pub fn peers(&self, namespace: &String) -> (r: Vec<PeerId>)
        ensures
            r@ == peers_in(self.members@, namespace@),
    {
        let mut r: Vec<PeerId> = Vec::new();
        let mut i: usize = 0;
        while i < self.members.len()
            invariant
                i <= self.members@.len(),
                r@ == peers_in(self.members@.take(i as int), namespace@),
            decreases self.members@.len() - i,
        {
            proof {
                let m = self.members@;
                assert(m.take(i + 1).drop_last() =~= m.take(i as int));
                assert(m.take(i + 1).last() == m[i as int]);
            }
            if self.members[i].0 == *namespace {
                r.push(self.members[i].1.clone());
            }
            i = i + 1;
        }
        assert(self.members@.take(i as int) =~= self.members@);
        r
    }

    /// Picks a peer of a namespace for the thing `id`: everyone who knows the
    /// same peers picks the same one, without asking anybody.
    pub fn select_peer(&self, namespace: &String, id: &Vec<u8>) -> (r: Option<PeerId>)
        ensures
            match r {
                Some(peer) => exists|i: int| #[trigger]
                    is_selected(scores_of(id@, peers_in(self.members@, namespace@)), i) && peer
                        == peers_in(self.members@, namespace@)[i],
                None => peers_in(self.members@, namespace@).len() == 0,
            },
    {
        let peers = self.peers(namespace);
        select_among(&peers, id)
    }
}

/// Whether `peer` is listed for `namespace`.
fn lists_member(members: &Vec<(String, PeerId)>, namespace: &String, peer: &PeerId) -> (r: bool)
    ensures
        r == members_of(members@).contains((namespace@, peer@)),
{
    let mut i: usize = 0;
    while i < members.len()
        invariant
            i <= members@.len(),
            forall|j: int| 0 <= j < i ==> #[trigger] members_of(members@)[j] != (namespace@, peer@),
        decreases members@.len() - i,
    {
        if members[i].0 == *namespace && members[i].1.same(peer) {
            assert(members_of(members@)[i as int] == (namespace@, peer@));
            return true;
        }
        i = i + 1;
    }
    false
}

/// Keeps a [`BootstrapClient`] up to date with what happens on the network.
pub struct BootstrapClientActor {
    /// The namespaces that this node serves.
    pub namespaces: Vec<String>,
    pub client: BootstrapClient,
    pub checks: Vec<NsPeerInfo>,
    pub bootstrap_peers: Vec<PeerId>,
}

impl BootstrapClientActor {
    /// The registrations that this node knows of.
    pub open spec fn registrations(&self) -> Registrations {
        Registrations {
            checks: checks_of(self.checks@),
            members: members_of(self.client.members@),
        }
    }

    /// A node that serves `namespaces` and knows what `client` knows.
    pub fn new(namespaces: Vec<String>, client: BootstrapClient) -> (r: Self)
        ensures
            r.namespaces == namespaces,
            r.client == client,
            r.checks@.len() == 0,
            r.bootstrap_peers@.len() == 0,
    {
        BootstrapClientActor { namespaces, client, checks: Vec::new(), bootstrap_peers: Vec::new() }
    }

    /// The position of the registration of `peer` under `namespace`.
    fn find_check(&self, namespace: &String, peer: &PeerId) -> (r: Option<usize>)
        ensures
            match r {
                Some(i) => i < self.checks@.len() && check_position(
                    checks_of(self.checks@),
                    namespace@,
                    peer@,
                ) == Some(i as int),
                None => check_position(checks_of(self.checks@), namespace@, peer@) is None,
            },
    {
        let ghost all = checks_of(self.checks@);
        let mut i: usize = 0;
        while i < self.checks.len()
            invariant
                i <= self.checks@.len(),
                all == checks_of(self.checks@),
                check_position(all.take(i as int), namespace@, peer@) is None,
            decreases self.checks@.len() - i,
        {
            proof {
                assert(all.take(i + 1).drop_last() =~= all.take(i as int));
                assert(all.take(i + 1).last() == self.checks@[i as int]@);
            }
            if self.checks[i].namespace == *namespace && self.checks[i].peer_id.same(peer) {
                proof {
                    lemma_check_position_prefix(all, namespace@, peer@, i + 1);
                }
                return Some(i);
            }
            i = i + 1;
        }
        assert(all.take(i as int) =~= all);
        None
    }

    /// A peer registered under a namespace for `ttl` seconds: it is listed for
    /// the namespace from now on. The registration is recorded, or prolonged,
    /// and is to be looked at again, with [`Self::on_ttl_tick`], every `ttl`
    /// seconds.
    pub fn on_namespace_peer_registered(
        &mut self,
        namespace: String,
        peer_id: PeerId,
        ttl: u64,
        now: u64,
    )
        requires
            now + ttl * 1000 <= u64::MAX,
        ensures
            final(self).namespaces == old(self).namespaces,
            final(self).bootstrap_peers == old(self).bootstrap_peers,
            final(self).registrations() == old(self).registrations().registered(
                namespace@,
                peer_id@,
                (now + ttl * 1000) as u64,
            ),
    {
        let expires_at: u64 = now + ttl * 1000;
        if !lists_member(&self.client.members, &namespace, &peer_id) {
            let ghost listed = members_of(self.client.members@);
            self.client.members.push((namespace.clone(), peer_id.clone()));
            assert(members_of(self.client.members@) =~= listed.push((namespace@, peer_id@)));
        }
        let ghost before = checks_of(self.checks@);
        let found = self.find_check(&namespace, &peer_id);
        let info = NsPeerInfo { namespace, peer_id, expires_at };
        let ghost added = info@;
        match found {
            Some(i) => {
                self.checks.push(info);
                let _ = self.checks.swap_remove(i);
                proof {
                    assert(checks_of(self.checks@) =~= before.update(i as int, added));
                }
            },
            None => {
                self.checks.push(info);
                proof {
                    assert(checks_of(self.checks@) =~= before.push(added));
                }
            },
        }
    }

    /// The time to look at a registration again has come. Where it has ended,
    /// the peer is dropped from the namespace and the registration is
    /// forgotten; otherwise, as where there is none, nothing happens.
    pub fn on_ttl_tick(&mut self, namespace: &String, peer_id: &PeerId, now: u64)
        ensures
            final(self).namespaces == old(self).namespaces,
            final(self).bootstrap_peers == old(self).bootstrap_peers,
            final(self).registrations() == old(self).registrations().looked_at(
                namespace@,
                peer_id@,
                now,
            ),
    {
        match self.find_check(namespace, peer_id) {
            None => {},
            Some(i) => {
                assert(checks_of(self.checks@)[i as int] == self.checks@[i as int]@);
                if self.checks[i].expires_at <= now {
                    let ghost before = checks_of(self.checks@);
                    let _ = self.checks.remove(i);
                    assert(checks_of(self.checks@) =~= before.remove(i as int));
                    let ghost all = self.client.members@;
                    let mut kept: Vec<(String, PeerId)> = Vec::new();
                    let mut k: usize = 0;
                    assert(members_of(all).take(0).filter(not_member(namespace@, peer_id@))
                        =~= Seq::empty()) by {
                        reveal(Seq::filter);
                    }
                    while k < self.client.members.len()
                        invariant
                            k <= self.client.members@.len(),
                            all == self.client.members@,
                            self.namespaces == old(self).namespaces,
                            self.bootstrap_peers == old(self).bootstrap_peers,
                            self.client.members == old(self).client.members,
                            checks_of(self.checks@) == before.remove(i as int),
                            members_of(kept@) == members_of(all).take(k as int).filter(
                                not_member(namespace@, peer_id@),
                            ),
                        decreases self.client.members@.len() - k,
                    {
                        let keep = !(self.client.members[k].0 == *namespace && self.client.members[k].1.same(
                            peer_id,
                        ));
                        proof {
                            lemma_filter_step(
                                members_of(all),
                                not_member(namespace@, peer_id@),
                                k as int,
                            );
                        }
                        if keep {
                            let ghost was = kept@;
                            kept.push((self.client.members[k].0.clone(), self.client.members[k].1.clone()));
                            assert(members_of(kept@) =~= members_of(was).push(
                                members_of(all)[k as int],
                            ));
                        }
                        k = k + 1;
                    }
                    assert(members_of(all).take(k as int) =~= members_of(all));
                    self.client.members = kept;
                }
            },
        }
    }

    /// A connection was lost: the peer is no bootstrap server any more, and
    /// serves no namespace.
    pub fn on_peer_disconnected(&mut self, peer_id: &PeerId)
        ensures
            final(self).namespaces == old(self).namespaces,
            final(self).checks == old(self).checks,
            final(self).bootstrap_peers@ == other_peers(old(self).bootstrap_peers@, peer_id@),
            members_of(final(self).client.members@) == members_of(old(self).client.members@).filter(
                not_peer(peer_id@),
            ),
    {
        let ghost servers = self.bootstrap_peers@;
        let mut left: Vec<PeerId> = Vec::new();
        let mut i: usize = 0;
        while i < self.bootstrap_peers.len()
            invariant
                i <= self.bootstrap_peers@.len(),
                *self == *old(self),
                servers == self.bootstrap_peers@,
                left@ == other_peers(servers.take(i as int), peer_id@),
            decreases self.bootstrap_peers@.len() - i,
        {
            proof {
                assert(servers.take(i + 1).drop_last() =~= servers.take(i as int));
                assert(servers.take(i + 1).last() == servers[i as int]);
            }
            if !self.bootstrap_peers[i].same(peer_id) {
                left.push(self.bootstrap_peers[i].clone());
            }
            i = i + 1;
        }
        assert(servers.take(i as int) =~= servers);
        let ghost all = self.client.members@;
        let mut kept: Vec<(String, PeerId)> = Vec::new();
        let mut k: usize = 0;
        assert(members_of(all).take(0).filter(not_peer(peer_id@)) =~= Seq::empty()) by {
            reveal(Seq::filter);
        }
        while k < self.client.members.len()
            invariant
                k <= self.client.members@.len(),
                *self == *old(self),
                all == self.client.members@,
                members_of(kept@) == members_of(all).take(k as int).filter(not_peer(peer_id@)),
            decreases self.client.members@.len() - k,
        {
            proof {
                lemma_filter_step(members_of(all), not_peer(peer_id@), k as int);
            }
            if !self.client.members[k].1.same(peer_id) {
                let ghost was = kept@;
                kept.push((self.client.members[k].0.clone(), self.client.members[k].1.clone()));
                assert(members_of(kept@) =~= members_of(was).push(members_of(all)[k as int]));
            }
            k = k + 1;
        }
        assert(members_of(all).take(k as int) =~= members_of(all));
        self.bootstrap_peers = left;
        self.client.members = kept;
    }

    /// A bootstrap server was met: this node registers with it, under all the
    /// namespaces that it serves.
    pub fn on_bootstrap_discovered(&mut self, peer_id: PeerId) -> (r: RegisterPeer)
        ensures
            r.namespaces@ == old(self).namespaces@,
            r.bootstrap_peer_id == peer_id,
            r.ttl is None,
            final(self).bootstrap_peers@ == old(self).bootstrap_peers@.push(peer_id),
            final(self).namespaces == old(self).namespaces,
            final(self).client == old(self).client,
            final(self).checks == old(self).checks,
    {
        self.bootstrap_peers.push(peer_id.clone());
        RegisterPeer {
            namespaces: copy_texts(&self.namespaces),
            bootstrap_peer_id: peer_id,
            ttl: None,
        }
    }
}

proof fn lemma_check_position_prefix(
    checks: Seq<Check>,
    namespace: Seq<char>,
    peer: Seq<char>,
    n: int,
)
    requires
        0 <= n <= checks.len(),
        check_position(checks.take(n), namespace, peer) is Some,
    ensures
        check_position(checks, namespace, peer) == check_position(
            checks.take(n),
            namespace,
            peer,
        ),
    decreases checks.len() - n,
{
    if n == checks.len() {
        assert(checks.take(n) =~= checks);
    } else {
        assert(checks.take(n + 1).drop_last() =~= checks.take(n));
        lemma_check_position_prefix(checks, namespace, peer, n + 1);
    }
}

proof fn lemma_check_position_is_right(checks: Seq<Check>, namespace: Seq<char>, peer: Seq<char>)
    ensures
        match check_position(checks, namespace, peer) {
            Some(i) => {
                &&& 0 <= i < checks.len()
                &&& checks[i].namespace == namespace
                &&& checks[i].peer == peer
                &&& forall|j: int|
                    0 <= j < i ==> !((#[trigger] checks[j]).namespace == namespace && checks[j].peer
                        == peer)
            },
            None => forall|j: int|
                0 <= j < checks.len() ==> !((#[trigger] checks[j]).namespace == namespace
                    && checks[j].peer == peer),
        },
    decreases checks.len(),
{
    if checks.len() > 0 {
        let front = checks.drop_last();
        lemma_check_position_is_right(front, namespace, peer);
        assert forall|j: int| 0 <= j < front.len() implies front[j] == checks[j] by {}
        match check_position(front, namespace, peer) {
            Some(i) => {
                assert forall|j: int| 0 <= j < i implies !((#[trigger] checks[j]).namespace
                    == namespace && checks[j].peer == peer) by {
                    assert(front[j] == checks[j]);
                }
            },
            None => {
                assert forall|j: int| 0 <= j < checks.len() - 1 implies !((
                #[trigger] checks[j]).namespace == namespace && checks[j].peer == peer) by {
                    assert(front[j] == checks[j]);
                }
            },
        }
    }
}

proof fn lemma_check_position_is(
    checks: Seq<Check>,
    namespace: Seq<char>,
    peer: Seq<char>,
    i: int,
)
    requires
        0 <= i < checks.len(),
        checks[i].namespace == namespace,
        checks[i].peer == peer,
        forall|j: int|
            0 <= j < i ==> !((#[trigger] checks[j]).namespace == namespace && checks[j].peer
                == peer),
    ensures
        check_position(checks, namespace, peer) == Some(i),
{
    lemma_check_position_is_right(checks, namespace, peer);
    match check_position(checks, namespace, peer) {
        Some(k) => {
            if k < i {
                assert(checks[k].namespace == namespace && checks[k].peer == peer);
            }
            if i < k {
                assert(!(checks[i].namespace == namespace && checks[i].peer == peer));
            }
        },
        None => {
            assert(!(checks[i].namespace == namespace && checks[i].peer == peer));
        },
    }
}

/// A peer that registers is listed for its namespace until its registration
/// ends; whoever else was listed stays so, nobody else comes in, and nobody is
/// listed twice. No other registration changes.
pub proof fn lemma_registered_peer_is_listed(
    known: Registrations,
    namespace: Seq<char>,
    peer: Seq<char>,
    end: u64,
)
    ensures
        ({
            let after = known.registered(namespace, peer, end);
            &&& after.lists(namespace, peer)
            &&& after.end_of(namespace, peer) == Some(end)
            &&& forall|n: Seq<char>, p: Seq<char>|
                (n, p) != (namespace, peer) ==> {
                    &&& #[trigger] after.lists(n, p) == known.lists(n, p)
                    &&& after.end_of(n, p) == known.end_of(n, p)
                }
            &&& known.members.no_duplicates() ==> after.members.no_duplicates()
        }),
{
    let after = known.registered(namespace, peer, end);
    let check = Check { namespace, peer, expires_at: end };
    lemma_check_position_is_right(known.checks, namespace, peer);
    let at = match check_position(known.checks, namespace, peer) {
        Some(i) => i,
        None => known.checks.len() as int,
    };
    assert(after.checks[at] == check);
    assert forall|j: int| 0 <= j < at implies !((#[trigger] after.checks[j]).namespace == namespace
        && after.checks[j].peer == peer) by {
        assert(after.checks[j] == known.checks[j]);
    }
    lemma_check_position_is(after.checks, namespace, peer, at);
    if !known.lists(namespace, peer) {
        assert(after.members[known.members.len() as int] == (namespace, peer));
        if known.members.no_duplicates() {
            assert forall|i: int, j: int|
                0 <= i < after.members.len() && 0 <= j < after.members.len() && i
                    != j implies after.members[i] != after.members[j] by {
                if i == known.members.len() {
                    assert(known.members.contains(known.members[j]));
                } else if j == known.members.len() {
                    assert(known.members.contains(known.members[i]));
                }
            }
        }
    }
    assert forall|n: Seq<char>, p: Seq<char>| (n, p) != (namespace, peer) implies {
        &&& #[trigger] after.lists(n, p) == known.lists(n, p)
        &&& after.end_of(n, p) == known.end_of(n, p)
    } by {
        if known.lists(n, p) {
            assert(after.members[known.members.index_of((n, p))] == (n, p));
        }
        if after.lists(n, p) {
            let i = after.members.index_of((n, p));
            assert(known.members[i] == (n, p));
        }
        lemma_check_position_is_right(known.checks, n, p);
        lemma_check_position_is_right(after.checks, n, p);
        match check_position(known.checks, n, p) {
            Some(i) => {
                assert(i != at);
                assert(after.checks[i] == known.checks[i]);
                assert forall|j: int| 0 <= j < i implies !((#[trigger] after.checks[j]).namespace
                    == n && after.checks[j].peer == p) by {
                    if j != at {
                        assert(after.checks[j] == known.checks[j]);
                    }
                }
                lemma_check_position_is(after.checks, n, p, i);
            },
            None => {
                match check_position(after.checks, n, p) {
                    Some(j) => {
                        assert(j != at);
                        assert(after.checks[j] == known.checks[j]);
                    },
                    None => {},
                }
            },
        }
    }
}

/// A look at a registration that has ended drops the peer from the namespace;
/// one at a registration that has not changes nothing.
pub proof fn lemma_ended_registration_is_dropped(
    known: Registrations,
    namespace: Seq<char>,
    peer: Seq<char>,
    now: u64,
)
    requires
        known.end_of(namespace, peer) is Some,
    ensures
        ({
            let after = known.looked_at(namespace, peer, now);
            if known.end_of(namespace, peer)->0 <= now {
                !after.lists(namespace, peer)
            } else {
                after == known
            }
        }),
{
    lemma_filter_contains(
        known.members,
        not_member(namespace, peer),
        (namespace, peer),
    );
}

/// Looks at registrations never drop a peer whose own registration has not
/// ended, nor do they touch that registration, whatever they look at.
pub proof fn lemma_running_registration_stays(
    known: Registrations,
    namespace: Seq<char>,
    peer: Seq<char>,
    now: u64,
    n: Seq<char>,
    p: Seq<char>,
)
    requires
        known.end_of(n, p) matches Some(end) && end > now,
    ensures
        ({
            let after = known.looked_at(namespace, peer, now);
            &&& after.lists(n, p) == known.lists(n, p)
            &&& after.end_of(n, p) == known.end_of(n, p)
        }),
{
    let after = known.looked_at(namespace, peer, now);
    lemma_filter_contains(known.members, not_member(namespace, peer), (n, p));
    lemma_check_position_is_right(known.checks, namespace, peer);
    lemma_check_position_is_right(known.checks, n, p);
    match check_position(known.checks, namespace, peer) {
        Some(i) => {
            if known.checks[i].expires_at <= now {
                let k = check_position(known.checks, n, p)->0;
                assert(k != i);
                let at = if k < i {
                    k
                } else {
                    k - 1
                };
                assert(after.checks[at] == known.checks[k]);
                assert forall|j: int| 0 <= j < at implies !((#[trigger] after.checks[j]).namespace
                    == n && after.checks[j].peer == p) by {
                    let was = if j < i {
                        j
                    } else {
                        j + 1
                    };
                    assert(after.checks[j] == known.checks[was]);
                }
                lemma_check_position_is(after.checks, n, p, at);
            }
        },
        None => {},
    }
}

/// A peer whose connection was lost is listed for no namespace any more, and
/// every other peer is listed where it was.
pub proof fn lemma_disconnected_peer_is_not_listed(
    members: Seq<(Seq<char>, Seq<char>)>,
    gone: Seq<char>,
    namespace: Seq<char>,
    peer: Seq<char>,
)
    ensures
        members.filter(not_peer(gone)).contains((namespace, peer)) <==> members.contains(
            (namespace, peer),
        ) && peer != gone,
{
    lemma_filter_contains(members, not_peer(gone), (namespace, peer));
}

/// The peers of a namespace are those that are listed for it.
pub proof fn lemma_peers_are_listed(
    members: Seq<(String, PeerId)>,
    namespace: Seq<char>,
    peer: Seq<char>,
)
    ensures
        crate::network::peer::peer_texts(peers_in(members, namespace)).contains(peer)
            <==> members_of(members).contains((namespace, peer)),
    decreases members.len(),
{
    let texts = crate::network::peer::peer_texts(peers_in(members, namespace));
    let pairs = members_of(members);
    if members.len() > 0 {
        let front = members.drop_last();
        let before = crate::network::peer::peer_texts(peers_in(front, namespace));
        let last = members.last();
        lemma_peers_are_listed(front, namespace, peer);
        assert(pairs =~= members_of(front).push((last.0@, last.1@)));
        lemma_push_contains(members_of(front), (last.0@, last.1@), (namespace, peer));
        if last.0@ == namespace {
            assert(texts =~= before.push(last.1@));
            lemma_push_contains(before, last.1@, peer);
        }
    }
}

/// Whether `peer` has the highest score of `peers` for the thing `id`, and no
/// other has the same.
pub open spec fn is_top(id: Seq<u8>, peers: Set<Seq<char>>, peer: Seq<char>) -> bool {
    &&& peers.contains(peer)
    &&& forall|other: Seq<char>| #[trigger]
        peers.contains(other) && other != peer ==> precedes(score_of(id, other), score_of(id, peer))
}

/// Where no two peers have the same score, the one that is picked is the top
/// one of the set of peers: their order does not matter.
pub proof fn lemma_selected_is_top(id: Seq<u8>, peers: Seq<PeerId>, i: int)
    requires
        is_selected(scores_of(id, peers), i),
        forall|p: int, q: int|
            0 <= p < peers.len() && 0 <= q < peers.len() && score_of(id, (#[trigger] peers[p])@)
                == score_of(id, (#[trigger] peers[q])@) ==> peers[p]@ == peers[q]@,
    ensures
        is_top(id, crate::network::peer::peer_texts(peers).to_set(), peers[i]@),
{
    let texts = crate::network::peer::peer_texts(peers);
    let scores = scores_of(id, peers);
    assert(texts[i] == peers[i]@);
    assert(texts.contains(peers[i]@));
    assert forall|other: Seq<char>| #[trigger]
        texts.to_set().contains(other) && other != peers[i]@ implies precedes(
        score_of(id, other),
        score_of(id, peers[i]@),
    ) by {
        assert(texts.contains(other));
        let j = choose|j: int| 0 <= j < texts.len() && texts[j] == other;
        assert(peers[j]@ == other);
        assert(scores[j] == score_of(id, other));
        assert(scores[i] == score_of(id, peers[i]@));
        assert(!precedes(scores[i], scores[j]));
        lemma_precedes_total(scores[i], scores[j]);
        assert(score_of(id, peers[i]@) == score_of(id, peers[j]@) ==> peers[i]@ == peers[j]@);
    }
}

/// Everyone who knows the same peers picks the same one.
pub proof fn lemma_selection_agrees(
    id: Seq<u8>,
    peers: Set<Seq<char>>,
    a: Seq<char>,
    b: Seq<char>,
)
    requires
        is_top(id, peers, a),
        is_top(id, peers, b),
    ensures
        a == b,
{
    if a != b {
        lemma_precedes_total(score_of(id, a), score_of(id, b));
    }
}

/// When peers leave, only what they were picked for moves: a peer that is
/// picked and stays is picked among those that stay.
pub proof fn lemma_selection_survives_departures(
    id: Seq<u8>,
    peers: Set<Seq<char>>,
    staying: Set<Seq<char>>,
    peer: Seq<char>,
)
    requires
        is_top(id, peers, peer),
        staying.subset_of(peers),
        staying.contains(peer),
    ensures
        is_top(id, staying, peer),
{
    assert forall|other: Seq<char>| #[trigger]
        staying.contains(other) && other != peer implies precedes(
        score_of(id, other),
        score_of(id, peer),
    ) by {
        assert(peers.contains(other));
    }
}

/// When a peer joins, a thing either stays where it was or moves to the peer
/// that joined.
pub proof fn lemma_selection_moves_only_to_newcomer(
    id: Seq<u8>,
    peers: Set<Seq<char>>,
    newcomer: Seq<char>,
    before: Seq<char>,
    after: Seq<char>,
)
    requires
        is_top(id, peers, before),
        is_top(id, peers.insert(newcomer), after),
    ensures
        after == before || after == newcomer,
{
    if after != newcomer && after != before {
        assert(peers.contains(after));
        assert(peers.insert(newcomer).contains(before));
        lemma_precedes_total(score_of(id, before), score_of(id, after));
    }
}

/// Scores are compared byte by byte from the front: at the first byte that
/// differs the smaller one comes first, and a score that is the beginning of
/// another comes before it.
pub proof fn lemma_precedes_is_lexicographic(a: Seq<u8>, b: Seq<u8>, k: int)
    requires
        0 <= k <= a.len(),
        k <= b.len(),
        a.take(k) == b.take(k),
    ensures
        k < a.len() && k < b.len() && a[k] != b[k] ==> precedes(a, b) == (a[k] < b[k]),
        k == a.len() ==> precedes(a, b) == (a.len() < b.len()),
        k == b.len() ==> !precedes(a, b),
    decreases a.len(),
{
    if k > 0 {
        assert(a[0] == a.take(k)[0] && b[0] == b.take(k)[0]);
        assert(k < a.len() ==> a.skip(1)[k - 1] == a[k]);
        assert(k < b.len() ==> b.skip(1)[k - 1] == b[k]);
        assert(a.skip(1).take(k - 1) =~= a.take(k).skip(1));
        assert(b.skip(1).take(k - 1) =~= b.take(k).skip(1));
        lemma_precedes_is_lexicographic(a.skip(1), b.skip(1), k - 1);
    }
}

/// The peer that is picked has the highest digest of the identifier followed by
/// the peer's bytes; of equal ones, the last is picked.
pub proof fn lemma_selected_peer_scores_highest(
    id: Seq<u8>,
    peers: Seq<PeerId>,
    i: int,
    j: int,
)
    requires
        is_selected(scores_of(id, peers), i),
        0 <= j < peers.len(),
    ensures
        0 <= i < peers.len(),
        !precedes(
            sha256_of(id + peer_id_bytes(peers[i]@)->0),
            sha256_of(id + peer_id_bytes(peers[j]@)->0),
        ),
        i < j ==> precedes(
            sha256_of(id + peer_id_bytes(peers[j]@)->0),
            sha256_of(id + peer_id_bytes(peers[i]@)->0),
        ),
{
    assert(scores_of(id, peers)[j] == score_of(id, peers[j]@));
}

/// The peers of a namespace are those that are listed for it, in the order of the
/// list: `at` are their positions.
pub proof fn lemma_peers_in_order(
    members: Seq<(String, PeerId)>,
    namespace: Seq<char>,
) -> (at: Seq<int>)
    ensures
        ascending(at, members.len() as int),
        at.len() == peers_in(members, namespace).len(),
        forall|k: int|
            0 <= k < at.len() ==> members[#[trigger] at[k]].1 == peers_in(members, namespace)[k],
        forall|i: int| #[trigger]
            at.contains(i) <==> 0 <= i < members.len() && members[i].0@ == namespace,
    decreases members.len(),
{
    if members.len() == 0 {
        Seq::empty()
    } else {
        let front = members.drop_last();
        let n = front.len() as int;
        let before = lemma_peers_in_order(front, namespace);
        lemma_ascending_push(before, n);
        assert forall|i: int| 0 <= i < n implies front[i] == members[i] by {}
        if members.last().0@ == namespace {
            before.push(n)
        } else {
            before
        }
    }
}

/// A peer that is gone leaves the others in their order: `at` are their
/// positions.
pub proof fn lemma_other_peers_stay(peers: Seq<PeerId>, gone: Seq<char>) -> (at: Seq<int>)
    ensures
        ascending(at, peers.len() as int),
        at.len() == other_peers(peers, gone).len(),
        forall|k: int|
            0 <= k < at.len() ==> peers[#[trigger] at[k]] == other_peers(peers, gone)[k],
        forall|i: int| #[trigger]
            at.contains(i) <==> 0 <= i < peers.len() && peers[i]@ != gone,
    decreases peers.len(),
{
    if peers.len() == 0 {
        Seq::empty()
    } else {
        let front = peers.drop_last();
        let n = front.len() as int;
        let before = lemma_other_peers_stay(front, gone);
        lemma_ascending_push(before, n);
        assert forall|i: int| 0 <= i < n implies front[i] == peers[i] by {}
        if peers.last()@ == gone {
            before
        } else {
            before.push(n)
        }
    }
}

/// A registration ends when the first record of it says, and there is one only
/// where it was recorded.
pub proof fn lemma_first_record_counts(
    known: Registrations,
    namespace: Seq<char>,
    peer: Seq<char>,
    i: int,
)
    requires
        0 <= i <= known.checks.len(),
        forall|j: int|
            0 <= j < i ==> !((#[trigger] known.checks[j]).namespace == namespace
                && known.checks[j].peer == peer),
    ensures
        i < known.checks.len() && known.checks[i].namespace == namespace && known.checks[i].peer
            == peer ==> known.end_of(namespace, peer) == Some(known.checks[i].expires_at),
        i == known.checks.len() ==> known.end_of(namespace, peer) is None,
{
    if i < known.checks.len() {
        if known.checks[i].namespace == namespace && known.checks[i].peer == peer {
            lemma_check_position_is(known.checks, namespace, peer, i);
        }
    } else {
        lemma_check_position_is_right(known.checks, namespace, peer);
    }
}

} // verus!
