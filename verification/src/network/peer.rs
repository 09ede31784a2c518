//! Identities of peers on the network.

use crate::collections::Key;
use vstd::prelude::*;

verus! {

/// The base-58 text of the peer identity that `bytes` encode, if they encode
/// one.
pub uninterp spec fn peer_id_text(bytes: Seq<u8>) -> Option<Seq<char>>;

/// The bytes of the peer identity that `text` spells, if it spells one.
pub uninterp spec fn peer_id_bytes(text: Seq<char>) -> Option<Seq<u8>>;

/// Whether `text` spells a peer identity, and is the text of the bytes that it
/// spells.
pub open spec fn spells_itself(text: Seq<char>) -> bool {
    peer_id_bytes(text) matches Some(bytes) && peer_id_text(bytes) == Some(text)
}

/// Calls `libp2p::PeerId::from_bytes` and, on success, `PeerId::to_base58`.
/// Both depend on their argument alone, so the outcome is named by
/// [`peer_id_text`]. The text is made from the identity, which it spells again.
/// More than one list of bytes can lead to the same identity, so the bytes that
/// the text spells need not be those that were decoded.
#[verifier::external_body]
fn decode_peer_id(bytes: &Vec<u8>) -> (r: Option<String>)
    ensures
        match r {
            Some(text) => peer_id_text(bytes@) == Some(text@) && spells_itself(text@),
            None => peer_id_text(bytes@) is None,
        },
{
    match libp2p::PeerId::from_bytes(bytes) {
        Ok(peer) => Some(peer.to_base58()),
        Err(_) => None,
    }
}

/// Calls `<libp2p::PeerId as FromStr>::from_str` and, on success,
/// `PeerId::to_bytes`. Both depend on their argument alone, so the outcome is
/// named by [`peer_id_bytes`].
#[verifier::external_body]
fn encode_peer_id(text: &String) -> (r: Option<Vec<u8>>)
    ensures
        match r {
            Some(bytes) => peer_id_bytes(text@) == Some(bytes@),
            None => peer_id_bytes(text@) is None,
        },
{
    match text.parse::<libp2p::PeerId>() {
        Ok(peer) => Some(peer.to_bytes()),
        Err(_) => None,
    }
}

/// The identity of a peer, as its base-58 text.
#[derive(Debug, PartialEq, Eq, Hash)]
pub struct PeerId {
    text: String,
}

impl View for PeerId {
    type V = Seq<char>;

    closed spec fn view(&self) -> Seq<char> {
        self.text@
    }
}

impl PeerId {
    #[verifier::type_invariant]
    spec fn spells_an_identity(self) -> bool {
        spells_itself(self.text@)
    }

    /// The peer that `bytes` are the identity of.
    pub fn from_bytes(bytes: &Vec<u8>) -> (r: Option<PeerId>)
        ensures
            match r {
                Some(peer) => peer_id_text(bytes@) == Some(peer@),
                None => peer_id_text(bytes@) is None,
            },
    {
        match decode_peer_id(bytes) {
            Some(text) => Some(PeerId { text }),
            None => None,
        }
    }

    /// The bytes of the identity. They lead back to the same peer.
    pub fn to_bytes(&self) -> (r: Vec<u8>)
        ensures
            peer_id_bytes(self@) == Some(r@),
            peer_id_text(r@) == Some(self@),
    {
        proof {
            use_type_invariant(self);
        }
        match encode_peer_id(&self.text) {
            Some(bytes) => bytes,
            None => Vec::new(),
        }
    }

    /// The base-58 text of the identity.
    pub fn as_str(&self) -> (r: &str)
        ensures
            r@ == self@,
    {
        self.text.as_str()
    }
}

impl Clone for PeerId {
    fn clone(&self) -> (r: Self)
        ensures
            r == *self,
    {
        proof {
            use_type_invariant(self);
        }
        PeerId { text: self.text.clone() }
    }
}

impl Key for PeerId {
    fn same(&self, other: &Self) -> (r: bool) {
        self.text == other.text
    }
}

/// The texts of a list of peers.
pub open spec fn peer_texts(peers: Seq<PeerId>) -> Seq<Seq<char>> {
    peers.map_values(|p: PeerId| p@)
}

/// Whether `peers` holds `peer`.
pub fn contains_peer(peers: &Vec<PeerId>, peer: &PeerId) -> (r: bool)
    ensures
        r == peer_texts(peers@).contains(peer@),
{
    let mut i: usize = 0;
    while i < peers.len()
        invariant
            i <= peers.len(),
            forall|j: int| 0 <= j < i ==> (#[trigger] peers@[j])@ != peer@,
        decreases peers.len() - i,
    {
        if peers[i].same(peer) {
            assert(peer_texts(peers@)[i as int] == peer@);
            return true;
        }
        i = i + 1;
    }
    assert forall|j: int| 0 <= j < peer_texts(peers@).len() implies peer_texts(peers@)[j]
        != peer@ by {
        assert(peers@[j]@ != peer@);
    }
    false
}

} // verus!
