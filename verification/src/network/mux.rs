//! Channels over frames: which of the network's events are frames, and how
//! calls of remote procedures travel in them.

use crate::network::peer::PeerId;
use crate::network::protocol::{Frame, NetworkCommand, NetworkEvent};
use vstd::prelude::*;

verus! {

/// The command that sends a frame.
pub fn outgoing_frame(frame: Frame) -> (r: NetworkCommand)
    ensures
        r == NetworkCommand::SendFrame(frame),
{
    NetworkCommand::SendFrame(frame)
}

/// The frame in an event, if it is one.
pub fn incoming_frame(event: NetworkEvent) -> (r: Option<Frame>)
    ensures
        r == (match event {
            NetworkEvent::ReceivedFrame(frame) => Some(frame),
            _ => None,
        }),
{
    match event {
        NetworkEvent::ReceivedFrame(frame) => Some(frame),
        _ => None,
    }
}

/// A message about a remote procedure: who it comes from, who it is for, and
/// the rest of it.
#[derive(Debug, PartialEq)]
pub struct RpcMessage<B> {
    pub source: Option<PeerId>,
    pub destination: Option<PeerId>,
    pub body: B,
}

/// `own`, or `other` where there is none.
pub open spec fn or_else(own: Option<PeerId>, other: Option<PeerId>) -> Option<PeerId> {
    match own {
        Some(peer) => Some(peer),
        None => other,
    }
}

fn first_of(own: Option<PeerId>, other: Option<PeerId>) -> (r: Option<PeerId>)
    ensures
        r == or_else(own, other),
{
    match own {
        Some(peer) => Some(peer),
        None => other,
    }
}

/// The channel of remote procedures.
pub const RPC_CHANNEL: &'static str = "rpc";

/// The message in a frame; `decoded` is what the payload decodes to, if it
/// does. What the message does not say of its source and destination, the
/// frame says.
pub fn incoming_rpc<B>(
    source: Option<PeerId>,
    destination: Option<PeerId>,
    decoded: Option<RpcMessage<B>>,
) -> (r: Option<RpcMessage<B>>)
    ensures
        r == (match decoded {
            Some(message) => Some(
                RpcMessage {
                    source: or_else(message.source, source),
                    destination: or_else(message.destination, destination),
                    body: message.body,
                },
            ),
            None => None,
        }),
{
    match decoded {
        None => None,
        Some(message) => Some(
            RpcMessage {
                source: first_of(message.source, source),
                destination: first_of(message.destination, destination),
                body: message.body,
            },
        ),
    }
}

fn copy_peer(peer: &Option<PeerId>) -> (r: Option<PeerId>)
    ensures
        r == *peer,
{
    match peer {
        Some(peer) => Some(peer.clone()),
        None => None,
    }
}

/// The frame that carries a message; `payload` is the encoded message.
pub fn outgoing_rpc<B>(message: &RpcMessage<B>, payload: Vec<u8>) -> (r: Frame)
    ensures
        r.channel@ == "rpc"@,
        r.channel@ == RPC_CHANNEL@,
        r.destination == message.destination,
        r.source == message.source,
        r.payload == payload,
{
    Frame {
        channel: RPC_CHANNEL.to_owned(),
        destination: copy_peer(&message.destination),
        source: copy_peer(&message.source),
        payload,
    }
}

/// A message that says where it comes from and goes to arrives as it was sent,
/// whatever the frame that carries it says.
pub proof fn lemma_full_message_arrives_unchanged<B>(
    message: RpcMessage<B>,
    source: Option<PeerId>,
    destination: Option<PeerId>,
)
    requires
        message.source is Some,
        message.destination is Some,
    ensures
        (RpcMessage {
            source: or_else(message.source, source),
            destination: or_else(message.destination, destination),
            body: message.body,
        }) == message,
{
}

/// What a message says of its ends counts, and what the frame says counts only
/// where the message is silent.
pub proof fn lemma_message_goes_before_frame(own: Option<PeerId>, frame: Option<PeerId>)
    ensures
        own is Some ==> or_else(own, frame) == own,
        own is None ==> or_else(own, frame) == frame,
{
}

} // verus!
