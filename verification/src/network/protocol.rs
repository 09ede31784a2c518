//! What the rest of the node asks of the network, and hears from it.

use crate::network::peer::PeerId;
use crate::node::NodeId;
use vstd::prelude::*;

verus! {

/// A message between two nodes. Many channels share one connection.
#[derive(Debug, PartialEq)]
pub struct Frame {
    pub channel: String,
    pub destination: Option<PeerId>,
    pub source: Option<PeerId>,
    pub payload: Vec<u8>,
}

/// What the network is asked to do.
#[derive(Debug, PartialEq)]
pub enum NetworkCommand {
    Listen,
    Send(Vec<u8>, NodeId),
    SendFrame(Frame),
    Subscribe(String),
    Unsubscribe(String),
    Publish { topic: String, payload: Vec<u8> },
    Shutdown,
}

/// What the network tells the node.
#[derive(Debug, PartialEq)]
#[allow(inconsistent_fields)]
pub enum NetworkEvent {
    ReceivedMessage { message: Vec<u8>, source: NodeId },
    ReceivedFrame(Frame),
    BootstrapDiscovered { peer_id: PeerId },
    NamespacePeerRegistred { namespace: String, peer_id: PeerId, ttl: u64 },
    PeerDisconnected { peer_id: PeerId },
    PeerConnected { peer_id: PeerId },
    PubSubReceived { topic: String, data: Vec<u8>, source: PeerId },
}

} // verus!
