//! Members of the replication group of the lease authority.

use crate::hrw::{fmix64, fmix64_of, fnv1a, fnv1a_of, lemma_fmix64_is_injective};
use crate::network::peer::{peer_id_bytes, PeerId};
use crate::node::NodeId;
use crate::text::{hex, hex_text, lemma_hex_reads_back, number_of};
use vstd::arithmetic::power::{lemma_pow_multiplies, pow};
use vstd::arithmetic::power2::{lemma2_to64, lemma_pow2};
use vstd::prelude::*;

verus! {

/// The procedure that votes go through.
pub const RAFT_VOTE: &'static str = "/marie/lease/raft/vote";

/// The procedure that entries of the log go through.
pub const RAFT_APPEND_ENTRIES: &'static str = "/marie/lease/raft/append-entries";

/// The procedure that snapshots go through.
pub const RAFT_INSTALL_SNAPSHOT: &'static str = "/marie/lease/raft/install-snapshot";

/// The procedure that requests for leases go through.
pub const SUBMIT_LEASE: &'static str = "/marie/lease/submit";

/// A hash that is the same on every node and in every run.
pub open spec fn stable_hash_of(bytes: Seq<u8>) -> u64 {
    fmix64_of(fnv1a_of(bytes))
}

/// A hash that is the same on every node and in every run: members of a group
/// must number each other alike.
pub fn stable_hash(bytes: &[u8]) -> (r: u64)
    ensures
        r == stable_hash_of(bytes@),
{
    fmix64(fnv1a(bytes))
}

/// Numbers a member of the group.
#[derive(Debug, Clone, Copy, PartialEq, Eq, Structural, Hash, PartialOrd, Ord)]
pub struct LeaseNodeId(pub u64);

impl LeaseNodeId {
    /// The number of a node.
    pub fn from_node(node: &NodeId) -> (r: LeaseNodeId)
        ensures
            r.0 == stable_hash_of(node@),
    {
        LeaseNodeId(stable_hash(node.as_bytes().as_slice()))
    }

    /// The number of a peer: that of its node.
    pub fn from_peer(peer: &PeerId) -> (r: LeaseNodeId)
        ensures
            peer_id_bytes(peer@) matches Some(bytes) && r.0 == stable_hash_of(bytes),
    {
        LeaseNodeId(stable_hash(peer.to_bytes().as_slice()))
    }

    /// The number in hexadecimal, with sixteen digits.
    pub fn to_text(&self) -> (r: String)
        ensures
            r@ == hex_text(self.0 as nat, 16),
    {
        hex(self.0, 16)
    }
}

/// The number of a node tells nodes apart as far as the hashes of their bytes do.
pub proof fn lemma_numbers_differ_as_hashes_do(bytes: Seq<u8>, other: Seq<u8>)
    ensures
        stable_hash_of(bytes) == stable_hash_of(other) <==> fnv1a_of(bytes) == fnv1a_of(other),
{
    lemma_fmix64_is_injective(fnv1a_of(bytes), fnv1a_of(other));
}

/// The number of a node is spelled with sixteen digits, from which it can be read
/// again.
pub proof fn lemma_number_reads_back(number: u64)
    ensures
        hex_text(number as nat, 16).len() == 16,
        number_of(hex_text(number as nat, 16), 16) == number,
{
    assert(pow(16, 16) == 0x1_0000_0000_0000_0000) by {
        lemma_pow2(4);
        lemma_pow2(64);
        lemma2_to64();
        lemma_pow_multiplies(2, 4, 16);
    }
    lemma_hex_reads_back(number as nat, 16);
}

} // verus!
