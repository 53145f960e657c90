//! How a node reaches its peers.

use crate::messages::{
    AppendEntriesRequest, AppendEntriesResponse, NodeId, RequestVoteRequest, RequestVoteResponse,
};
use crate::text::decimal_string;
use vstd::prelude::*;

verus! {

/// Why a message did not get through.
#[derive(Debug, Clone, PartialEq, Eq)]
pub enum TransportError {
    /// No node is registered under the identifier.
    PeerNotFound(NodeId),
    /// The channel to the peer is closed.
    ChannelClosed(NodeId),
    /// The request could not be handed to the peer.
    SendError(NodeId, String),
    /// The peer gave no answer.
    RecvError(NodeId),
    /// The simulated network lost the message.
    MessageDropped(NodeId),
    /// The simulated network has no link from the first node to the second.
    Partitioned(NodeId, NodeId),
    /// The identifier is taken.
    NodeAlreadyExists(NodeId),
    /// The transport itself failed.
    Internal(String),
}

impl TransportError {
    /// The message that describes the error.
    pub open spec fn text(&self) -> Seq<char> {
        match self {
            TransportError::PeerNotFound(id) => "Peer node "@ + crate::text::decimal(*id as nat)
                + " not found in the transport registry"@,
            TransportError::ChannelClosed(id) => "Communication channel to peer "@
                + crate::text::decimal(*id as nat) + " is closed"@,
            TransportError::SendError(id, reason) => "Failed to send request to peer "@
                + crate::text::decimal(*id as nat) + ": "@ + reason@,
            TransportError::RecvError(id) => "Failed to receive response from peer "@
                + crate::text::decimal(*id as nat),
            TransportError::MessageDropped(id) =>
                "Network simulation error: Message dropped to peer "@ + crate::text::decimal(
                *id as nat,
            ),
            TransportError::Partitioned(from, to) => "Network simulation error: Node "@
                + crate::text::decimal(*from as nat) + " is partitioned from peer "@
                + crate::text::decimal(*to as nat),
            TransportError::NodeAlreadyExists(id) => "Node "@ + crate::text::decimal(*id as nat)
                + " is already registered in the transport"@,
            TransportError::Internal(reason) => "Internal transport error: "@ + reason@,
        }
    }

    /// Renders the error for a reader.
    pub fn message(&self) -> (s: String)
        ensures
            s@ == self.text(),
    {
        match self {
            TransportError::PeerNotFound(id) => {
                let mut s = String::from_str("Peer node ");
                s.append(decimal_string(*id).as_str());
                s.append(" not found in the transport registry");
                s
            },
            TransportError::ChannelClosed(id) => {
                let mut s = String::from_str("Communication channel to peer ");
                s.append(decimal_string(*id).as_str());
                s.append(" is closed");
                s
            },
            TransportError::SendError(id, reason) => {
                let mut s = String::from_str("Failed to send request to peer ");
                s.append(decimal_string(*id).as_str());
                s.append(": ");
                s.append(reason.as_str());
                s
            },
            TransportError::RecvError(id) => {
                let mut s = String::from_str("Failed to receive response from peer ");
                s.append(decimal_string(*id).as_str());
                s
            },
            TransportError::MessageDropped(id) => {
                let mut s = String::from_str("Network simulation error: Message dropped to peer ");
                s.append(decimal_string(*id).as_str());
                s
            },
            TransportError::Partitioned(from, to) => {
                let mut s = String::from_str("Network simulation error: Node ");
                s.append(decimal_string(*from).as_str());
                s.append(" is partitioned from peer ");
                s.append(decimal_string(*to).as_str());
                s
            },
            TransportError::NodeAlreadyExists(id) => {
                let mut s = String::from_str("Node ");
                s.append(decimal_string(*id).as_str());
                s.append(" is already registered in the transport");
                s
            },
            TransportError::Internal(reason) => {
                let mut s = String::from_str("Internal transport error: ");
                s.append(reason.as_str());
                s
            },
        }
    }
}

/// The network transport of a node. What a call returns is up to the network and
/// to the peer, so nothing is promised of it.
pub trait Transport {
    /// Sends an append request to a peer and returns its answer.
    fn send_append_entries(&self, peer_id: NodeId, request: AppendEntriesRequest) -> (r: Result<
        AppendEntriesResponse,
        TransportError,
    >);

    /// Sends a vote request to a peer and returns its answer.
    fn send_request_vote(&self, peer_id: NodeId, request: RequestVoteRequest) -> (r: Result<
        RequestVoteResponse,
        TransportError,
    >);
}

} // verus!
