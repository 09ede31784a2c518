//! Nodes of the cluster and the keys that they start with.

use crate::collections::{copy_bytes, same_bytes, Key};
use crate::network::peer::PeerId;
use crate::secret::KeyEpoch;
use crate::text::{decimal, decimal_text};
use vstd::prelude::*;

verus! {

/// The byte form of a node's network identity.
#[derive(Debug, PartialEq, Eq, Hash, PartialOrd, Ord)]
pub struct NodeId(Vec<u8>);

impl View for NodeId {
    type V = Seq<u8>;

    closed spec fn view(&self) -> Seq<u8> {
        self.0@
    }
}

impl NodeId {
    /// The node with the given bytes.
    pub fn new(bytes: Vec<u8>) -> (r: NodeId)
        ensures
            r@ == bytes@,
    {
        NodeId(bytes)
    }

    /// The bytes of the identity.
    pub fn as_bytes(&self) -> (r: &Vec<u8>)
        ensures
            r@ == self@,
    {
        &self.0
    }

    /// The node behind a peer. [`Self::to_peer`] leads from it back to the peer.
    pub fn from_peer(peer: &PeerId) -> (r: NodeId)
        ensures
            crate::network::peer::peer_id_bytes(peer@) == Some(r@),
            crate::network::peer::peer_id_text(r@) == Some(peer@),
    {
        NodeId(peer.to_bytes())
    }

    /// The peer that these bytes are the identity of, or `None` where they are
    /// no identity at all.
    pub fn to_peer(&self) -> (r: Option<PeerId>)
        ensures
            match r {
                Some(peer) => crate::network::peer::peer_id_text(self@) == Some(peer@),
                None => crate::network::peer::peer_id_text(self@) is None,
            },
    {
        PeerId::from_bytes(&self.0)
    }
}

/// Bytes in decimal, with a comma and a space between them.
pub open spec fn listed(bytes: Seq<u8>) -> Seq<char>
    decreases bytes.len(),
{
    if bytes.len() == 0 {
        Seq::empty()
    } else if bytes.len() == 1 {
        decimal_text(bytes[0] as nat)
    } else {
        listed(bytes.drop_last()) + seq![',', ' '] + decimal_text(bytes.last() as nat)
    }
}

impl NodeId {
    /// The identity as people read it: its bytes in decimal, in brackets.
    pub fn to_text(&self) -> (r: String)
        ensures
            r@ == seq!['['] + listed(self@) + seq![']'],
    {
        let mut inside = String::new();
        let mut i: usize = 0;
        assert(self.0@.take(0) =~= Seq::empty());
        while i < self.0.len()
            invariant
                i <= self.0@.len(),
                inside@ == listed(self.0@.take(i as int)),
            decreases self.0@.len() - i,
        {
            let part = decimal(self.0[i] as u64);
            proof {
                let bytes = self.0@;
                assert(bytes.take(i + 1).drop_last() =~= bytes.take(i as int));
                assert(bytes.take(i + 1).last() == bytes[i as int]);
                reveal_strlit(", ");
                assert(", "@ =~= seq![',', ' ']);
            }
            if i == 0 {
                inside = part;
            } else {
                inside.append(", ");
                inside.append(part.as_str());
            }
            i = i + 1;
        }
        assert(self.0@.take(i as int) =~= self.0@);
        proof {
            reveal_strlit("[");
            reveal_strlit("]");
            assert("["@ =~= seq!['[']);
            assert("]"@ =~= seq![']']);
        }
        crate::text::join3("[", inside.as_str(), "]")
    }
}

impl Clone for NodeId {
    fn clone(&self) -> (r: Self)
        ensures
            r@ == self@,
    {
        NodeId(copy_bytes(&self.0))
    }
}

impl Default for NodeId {
    fn default() -> (r: Self)
        ensures
            r@ == Seq::<u8>::empty(),
    {
        NodeId(Vec::new())
    }
}

impl Key for NodeId {
    fn same(&self, other: &Self) -> (r: bool) {
        same_bytes(&self.0, &other.0)
    }
}

/// The identity of the node that this process is.
#[derive(PartialEq, Eq)]
pub struct LocalNodeId(NodeId);

impl View for LocalNodeId {
    type V = Seq<u8>;

    closed spec fn view(&self) -> Seq<u8> {
        self.0@
    }
}

impl LocalNodeId {
    pub fn new(node: NodeId) -> (r: LocalNodeId)
        ensures
            r@ == node@,
    {
        LocalNodeId(node)
    }

    /// The node identity itself.
    pub fn into_node_id(self) -> (r: NodeId)
        ensures
            r@ == self@,
    {
        self.0
    }
}

/// A master key.
pub type SecretKey = Vec<u8>;

/// The master keys that a node starts with: one, or, while the cluster moves
/// from one key to the next, those of several epochs.
pub enum MasterKeys {
    Single(SecretKey),
    Multi { keys: Vec<(KeyEpoch, SecretKey)>, current_epoch: KeyEpoch },
}

impl From<SecretKey> for MasterKeys {
    fn from(key: SecretKey) -> (r: Self) {
        MasterKeys::Single(key)
    }
}

impl vstd::std_specs::convert::FromSpecImpl<SecretKey> for MasterKeys {
    open spec fn obeys_from_spec() -> bool {
        true
    }

    open spec fn from_spec(key: SecretKey) -> Self {
        MasterKeys::Single(key)
    }
}

/// How the manager of secrets is built.
pub enum SecretManagerPlan {
    New(SecretKey),
    WithEpochs { keys: Vec<(KeyEpoch, SecretKey)>, current_epoch: KeyEpoch },
}

impl MasterKeys {
    /// How to build the manager of secrets for these keys.
    pub fn into_secret_manager(self) -> (r: SecretManagerPlan)
        ensures
            r == (match self {
                MasterKeys::Single(key) => SecretManagerPlan::New(key),
                MasterKeys::Multi { keys, current_epoch } => SecretManagerPlan::WithEpochs {
                    keys,
                    current_epoch,
                },
            }),
    {
        match self {
            MasterKeys::Single(key) => SecretManagerPlan::New(key),
            MasterKeys::Multi { keys, current_epoch } => SecretManagerPlan::WithEpochs {
                keys,
                current_epoch,
            },
        }
    }
}

/// What a node is configured with. All nodes of a cluster share the master
/// key.
pub struct MarieConfig {
    pub master_key: MasterKeys,
}

/// The keys of a node, by epoch.
pub struct MarieNodeArgs {
    pub epochs: Vec<(KeyEpoch, SecretKey)>,
    pub current_epoch: KeyEpoch,
}

/// The role under which a node joins the cluster.
#[derive(Clone, Copy, Debug, PartialEq, Eq, Structural)]
pub enum NodeRole {
    Structure,
    Worker,
}

/// The error of a node that is not on the network yet.
#[derive(Clone, Copy, Debug, PartialEq, Eq, Structural)]
pub struct NotConnected;

impl NotConnected {
    /// The message of the error.
    pub fn message(&self) -> (r: &'static str)
        ensures
            r@ == "nœud pas encore connecté au réseau (voir Marie::start / Marie::join)"@,
    {
        "nœud pas encore connecté au réseau (voir Marie::start / Marie::join)"
    }
}

/// The bytes of a node are spelled one by one, to the base ten and parted by
/// commas: those of two parts after each other, where neither is empty.
pub proof fn lemma_bytes_are_listed(byte: u8, first: Seq<u8>, second: Seq<u8>)
    requires
        first.len() > 0,
        second.len() > 0,
    ensures
        listed(Seq::empty()) == Seq::<char>::empty(),
        listed(seq![byte]) == decimal_text(byte as nat),
        listed(first + second) == listed(first) + seq![',', ' '] + listed(second),
    decreases second.len(),
{
    let all = first + second;
    let front = second.drop_last();
    assert(all.drop_last() =~= first + front);
    assert(all.last() == second.last());
    if second.len() == 1 {
        assert(first + front =~= first);
    } else {
        lemma_bytes_are_listed(byte, first, front);
        assert(listed(all) =~= listed(first) + seq![',', ' '] + listed(second));
    }
}

} // verus!
