//! The loop around the swarm: what each command and each event leads to.

use crate::collections::{ascending, lemma_ascending_push};
use crate::network::peer::PeerId;
use crate::network::protocol::{Frame, NetworkCommand, NetworkEvent};
use crate::node::NodeId;
use vstd::prelude::*;

verus! {

/// How many events a slow subscriber may lag behind.
pub const NETWORK_EVENTS_CAPACITY: usize = 1024;

/// What the swarm is made to do.
#[derive(Debug, PartialEq)]
#[allow(inconsistent_fields)]
pub enum SwarmAction {
    Listen,
    Send { to: NodeId, data: Vec<u8> },
    SendFrame { to: PeerId, frame: Frame },
    Subscribe(String),
    Unsubscribe(String),
    Publish { topic: String, payload: Vec<u8> },
    /// The frame goes to nobody: it is dropped.
    Drop,
    Stop,
}

/// The frame with a source, its own or `local`.
pub open spec fn with_source(frame: Frame, local: PeerId) -> Frame {
    Frame {
        channel: frame.channel,
        destination: frame.destination,
        source: Some(
            match frame.source {
                Some(source) => source,
                None => local,
            },
        ),
        payload: frame.payload,
    }
}

/// What a command leads to on the node `local`. A frame without a source comes
/// from this node (a forwarded one has the source that it had). A frame
/// without a destination is dropped.
pub fn on_command(command: NetworkCommand, local: &PeerId) -> (r: SwarmAction)
    ensures
        r == (match command {
            NetworkCommand::Listen => SwarmAction::Listen,
            NetworkCommand::Send(data, to) => SwarmAction::Send { to, data },
            NetworkCommand::SendFrame(frame) => match frame.destination {
                Some(to) => SwarmAction::SendFrame { to, frame: with_source(frame, *local) },
                None => SwarmAction::Drop,
            },
            NetworkCommand::Subscribe(topic) => SwarmAction::Subscribe(topic),
            NetworkCommand::Unsubscribe(topic) => SwarmAction::Unsubscribe(topic),
            NetworkCommand::Publish { topic, payload } => SwarmAction::Publish { topic, payload },
            NetworkCommand::Shutdown => SwarmAction::Stop,
        }),
{
    match command {
        NetworkCommand::Listen => SwarmAction::Listen,
        NetworkCommand::Send(data, to) => SwarmAction::Send { to, data },
        NetworkCommand::SendFrame(frame) => {
            let Frame { channel, destination, source, payload } = frame;
            let source = match source {
                Some(source) => source,
                None => local.clone(),
            };
            match destination {
                None => SwarmAction::Drop,
                Some(to) => {
                    let destination = Some(to.clone());
                    SwarmAction::SendFrame {
                        to,
                        frame: Frame { channel, destination, source: Some(source), payload },
                    }
                },
            }
        },
        NetworkCommand::Subscribe(topic) => SwarmAction::Subscribe(topic),
        NetworkCommand::Unsubscribe(topic) => SwarmAction::Unsubscribe(topic),
        NetworkCommand::Publish { topic, payload } => SwarmAction::Publish { topic, payload },
        NetworkCommand::Shutdown => SwarmAction::Stop,
    }
}

/// What the swarm reports.
#[derive(Debug, PartialEq)]
#[allow(inconsistent_fields)]
pub enum SwarmReport {
    /// A request arrived from a peer.
    Request { peer: PeerId, frame: Frame },
    /// A message arrived on a topic.
    Gossip { topic: String, data: Vec<u8>, source: PeerId },
    /// A connection to a peer closed; this many are left.
    ConnectionClosed { peer: PeerId, num_established: u32 },
    /// Anything else.
    Other,
}

/// What the node hears of a report of the swarm. The source of a frame is the
/// peer that it arrived from, whatever the frame says. A peer is disconnected
/// once its last connection is closed.
pub fn on_report(report: SwarmReport) -> (r: Option<NetworkEvent>)
    ensures
        r == (match report {
            SwarmReport::Request { peer, frame } => Some(
                NetworkEvent::ReceivedFrame(
                    (Frame {
                        channel: frame.channel,
                        destination: frame.destination,
                        source: Some(peer),
                        payload: frame.payload,
                    }),
                ),
            ),
            SwarmReport::Gossip { topic, data, source } => Some(
                NetworkEvent::PubSubReceived { topic, data, source },
            ),
            SwarmReport::ConnectionClosed { peer, num_established } => if num_established == 0 {
                Some(NetworkEvent::PeerDisconnected { peer_id: peer })
            } else {
                None
            },
            SwarmReport::Other => None,
        }),
{
    match report {
        SwarmReport::Request { peer, frame } => {
            let Frame { channel, destination, source: _, payload } = frame;
            Some(
                NetworkEvent::ReceivedFrame(
                    Frame { channel, destination, source: Some(peer), payload },
                ),
            )
        },
        SwarmReport::Gossip { topic, data, source } => Some(
            NetworkEvent::PubSubReceived { topic, data, source },
        ),
        SwarmReport::ConnectionClosed { peer, num_established } => {
            if num_established == 0 {
                Some(NetworkEvent::PeerDisconnected { peer_id: peer })
            } else {
                None
            }
        },
        SwarmReport::Other => None,
    }
}

/// A peer that was discovered, and whether a connection to it is open.
#[derive(Debug, PartialEq)]
pub struct Discovered {
    pub peer: PeerId,
    pub address: String,
    pub connected: bool,
}

/// The addresses of the peers that are not connected.
pub open spec fn unconnected(found: Seq<Discovered>) -> Seq<String>
    decreases found.len(),
{
    if found.len() == 0 {
        Seq::empty()
    } else if found.last().connected {
        unconnected(found.drop_last())
    } else {
        unconnected(found.drop_last()).push(found.last().address)
    }
}

/// The addresses to dial after a discovery: those of the peers that are not
/// connected. Discovery connects nobody by itself.
pub fn addresses_to_dial(found: &Vec<Discovered>) -> (r: Vec<String>)
    ensures
        r@ == unconnected(found@),
{
    let mut r: Vec<String> = Vec::new();
    let mut i: usize = 0;
    while i < found.len()
        invariant
            i <= found@.len(),
            r@ == unconnected(found@.take(i as int)),
        decreases found@.len() - i,
    {
        proof {
            assert(found@.take(i + 1).drop_last() =~= found@.take(i as int));
            assert(found@.take(i + 1).last() == found@[i as int]);
        }
        if !found[i].connected {
            r.push(found[i].address.clone());
        }
        i = i + 1;
    }
    assert(found@.take(i as int) =~= found@);
    r
}

/// A frame is sent as it is, and as from the local peer only where it names no
/// source itself.
pub proof fn lemma_frame_keeps_its_source(frame: Frame, local: PeerId)
    ensures
        with_source(frame, local).channel == frame.channel,
        with_source(frame, local).destination == frame.destination,
        with_source(frame, local).payload == frame.payload,
        frame.source is Some ==> with_source(frame, local).source == frame.source,
        frame.source is None ==> with_source(frame, local).source == Some(local),
{
}

/// The addresses to dial are those of the peers that are not connected, in the
/// order in which they were found: `at` are the positions of those peers.
pub proof fn lemma_unconnected_in_order(found: Seq<Discovered>) -> (at: Seq<int>)
    ensures
        ascending(at, found.len() as int),
        at.len() == unconnected(found).len(),
        forall|k: int|
            0 <= k < at.len() ==> found[#[trigger] at[k]].address == unconnected(found)[k],
        forall|i: int| #[trigger]
            at.contains(i) <==> 0 <= i < found.len() && !found[i].connected,
    decreases found.len(),
{
    if found.len() == 0 {
        Seq::empty()
    } else {
        let front = found.drop_last();
        let n = front.len() as int;
        let before = lemma_unconnected_in_order(front);
        lemma_ascending_push(before, n);
        assert forall|i: int| 0 <= i < n implies front[i] == found[i] by {}
        if found.last().connected {
            before
        } else {
            before.push(n)
        }
    }
}

} // verus!
