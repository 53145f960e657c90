//! An in-process transport over the simulated network.
//!
//! The transport decides what becomes of a message; carrying it is left to the
//! endpoints that are registered with it. A send starts with
//! [`MockTransport::route`], which finds the endpoint of the peer. After that,
//! [`MockTransport::next_action`] says what to do after each thing that happened,
//! beginning with [`SendEvent::Requested`], until the result is there.

use crate::messages::NodeId;
use crate::network::{Duration, NetworkOptions};
use crate::transport::TransportError;
use std::collections::HashMap;
use vstd::prelude::*;

verus! {

/// The endpoints of the nodes that can be reached.
#[derive(Debug)]
pub struct TransportRegistry<E> {
    endpoints: HashMap<NodeId, E>,
}

impl<E> View for TransportRegistry<E> {
    type V = Map<NodeId, E>;

    closed spec fn view(&self) -> Map<NodeId, E> {
        self.endpoints@
    }
}

impl<E> TransportRegistry<E> {
    /// Creates a registry without endpoints.
    pub fn new() -> (r: TransportRegistry<E>)
        ensures
            r@ == Map::<NodeId, E>::empty(),
    {
        TransportRegistry { endpoints: HashMap::new() }
    }

    /// Registers the endpoint of a node. A node is registered at most once at a time.
    pub fn register(&mut self, id: NodeId, endpoint: E)
        requires
            !old(self)@.contains_key(id),
        ensures
            final(self)@ == old(self)@.insert(id, endpoint),
    {
        self.endpoints.insert(id, endpoint);
    }

    /// Forgets the endpoint of a node, if there is one.
    pub fn unregister(&mut self, id: NodeId)
        ensures
            final(self)@ == old(self)@.remove(id),
    {
        self.endpoints.remove(&id);
        assert(self@ =~= old(self)@.remove(id));
    }

    /// Looks up the endpoint of a node.
    pub fn lookup(&self, id: NodeId) -> (r: Option<&E>)
        ensures
            match r {
                Some(endpoint) => self@.contains_key(id) && *endpoint == self@[id],
                None => !self@.contains_key(id),
            },
    {
        self.endpoints.get(&id)
    }
}

impl<E> Default for TransportRegistry<E> {
    fn default() -> (r: TransportRegistry<E>)
        ensures
            r@ == Map::<NodeId, E>::empty(),
    {
        TransportRegistry::new()
    }
}

/// What became of a request that was handed to an endpoint.
#[derive(Debug)]
pub enum Delivery<R, X> {
    /// The endpoint did not take the request, for the given reason.
    Refused(String),
    /// The peer answered, with a response or with a failure of its own.
    Answered(Result<R, X>),
    /// The peer went away without an answer.
    Abandoned,
}

/// Why a send gave no response.
#[derive(Debug)]
pub enum SendFailure<X> {
    /// The transport could not get an answer.
    Transport(TransportError),
    /// The peer answered with a failure.
    Peer(X),
}

/// What has just happened in the course of a send.
#[derive(Debug)]
pub enum SendEvent<R, X> {
    /// The send was requested.
    Requested,
    /// The delay of the message is over.
    Waited,
    /// It was drawn whether the network loses the message.
    Rolled { lost: bool },
    /// The endpoint has dealt with the request.
    Delivered(Delivery<R, X>),
}

/// What has to be done next in the course of a send.
#[derive(Debug)]
pub enum SendAction<R, X> {
    /// Wait for the given time.
    Wait(Duration),
    /// Draw whether the network loses the message.
    RollLoss,
    /// Hand the request to the endpoint of the peer.
    Deliver,
    /// Return the result of the send.
    Finish(Result<R, SendFailure<X>>),
}

impl<R, X> SendAction<R, X> {
    /// Ends a send with an error of the transport.
    pub open spec fn fail(e: TransportError) -> SendAction<R, X> {
        SendAction::Finish(Err(SendFailure::Transport(e)))
    }
}

/// The transport of one node.
#[derive(Clone, Debug)]
pub struct MockTransport {
    /// The node that sends over this transport.
    pub node_id: NodeId,
    /// How the simulated network treats what the node sends.
    pub network_options: NetworkOptions,
}

impl MockTransport {
    /// Creates the transport of a node and registers the endpoint under which the
    /// node is reached.
    pub fn create_with_options<E>(
        node_id: NodeId,
        options: NetworkOptions,
        registry: &mut TransportRegistry<E>,
        endpoint: E,
    ) -> (r: MockTransport)
        requires
            !old(registry)@.contains_key(node_id),
        ensures
            r.node_id == node_id,
            r.network_options == options,
            final(registry)@ == old(registry)@.insert(node_id, endpoint),
    {
        registry.register(node_id, endpoint);
        MockTransport { node_id, network_options: options }
    }

    /// Makes the node unreachable.
    pub fn close<E>(&self, registry: &mut TransportRegistry<E>)
        ensures
            final(registry)@ == old(registry)@.remove(self.node_id),
    {
        registry.unregister(self.node_id);
    }

    /// Replaces the options of the simulated network.
    pub fn update_network_options(&mut self, options: NetworkOptions)
        ensures
            final(self).node_id == old(self).node_id,
            final(self).network_options == options,
    {
        self.network_options = options;
    }

    /// Whether only the cut links differ between two transports.
    pub open spec fn same_but_links(&self, other: &MockTransport) -> bool {
        &&& self.node_id == other.node_id
        &&& self.network_options.min_delay == other.network_options.min_delay
        &&& self.network_options.max_delay == other.network_options.max_delay
    }

    /// The links that are cut.
    pub open spec fn cut(&self) -> Set<(NodeId, NodeId)> {
        self.network_options.partitioned_links@
    }

    /// Cuts the link from this node to `peer_id`. The other direction stays as it is.
    pub fn partition_from(&mut self, peer_id: NodeId)
        ensures
            final(self).same_but_links(old(self)),
            final(self).cut() == old(self).cut().insert((old(self).node_id, peer_id)),
    {
        let _ = self.network_options.partitioned_links.insert(self.node_id, peer_id);
    }

    /// Restores the link from this node to `peer_id`.
    pub fn heal_partition_from(&mut self, peer_id: NodeId)
        ensures
            final(self).same_but_links(old(self)),
            final(self).cut() == old(self).cut().remove((old(self).node_id, peer_id)),
    {
        let _ = self.network_options.partitioned_links.remove(self.node_id, peer_id);
    }

    /// Finds the endpoint of a peer.
    pub fn route<'a, E>(&self, registry: &'a TransportRegistry<E>, peer_id: NodeId) -> (r: Result<
        &'a E,
        TransportError,
    >)
        ensures
            match r {
                Ok(endpoint) => registry@.contains_key(peer_id) && *endpoint == registry@[peer_id],
                Err(e) => !registry@.contains_key(peer_id) && e == TransportError::PeerNotFound(
                    peer_id,
                ),
            },
    {
        match registry.lookup(peer_id) {
            Some(endpoint) => Ok(endpoint),
            None => Err(TransportError::PeerNotFound(peer_id)),
        }
    }

    /// Decides how a send to `peer_id` goes on after `event`.
    pub fn next_action<R, X>(&self, peer_id: NodeId, event: SendEvent<R, X>) -> (r: SendAction<
        R,
        X,
    >)
        ensures
            match event {
                SendEvent::Requested => if self.cut().contains((self.node_id, peer_id)) {
                    r == SendAction::<R, X>::fail(
                        TransportError::Partitioned(self.node_id, peer_id),
                    )
                } else {
                    match r {
                        SendAction::Wait(delay) => delay.total_nanos() > 0
                            && self.network_options.delay_in_bounds(delay.total_nanos()),
                        SendAction::RollLoss => self.network_options.delay_in_bounds(0),
                        _ => false,
                    }
                },
                SendEvent::Waited => r == SendAction::<R, X>::RollLoss,
                SendEvent::Rolled { lost } => r == if lost {
                    SendAction::<R, X>::fail(TransportError::MessageDropped(peer_id))
                } else {
                    SendAction::<R, X>::Deliver
                },
                SendEvent::Delivered(Delivery::Refused(reason)) => r == SendAction::<R, X>::fail(
                    TransportError::SendError(peer_id, reason),
                ),
                SendEvent::Delivered(Delivery::Answered(Ok(response))) => r
                    == SendAction::<R, X>::Finish(Ok(response)),
                SendEvent::Delivered(Delivery::Answered(Err(e))) => r == SendAction::<R, X>::Finish(
                    Err(SendFailure::Peer(e)),
                ),
                SendEvent::Delivered(Delivery::Abandoned) => r == SendAction::<R, X>::fail(
                    TransportError::RecvError(peer_id),
                ),
            },
    {
        match event {
            SendEvent::Requested => {
                if self.network_options.is_partitioned(self.node_id, peer_id) {
                    let e = TransportError::Partitioned(self.node_id, peer_id);
                    return SendAction::Finish(Err(SendFailure::Transport(e)));
                }
                match self.network_options.simulate_delay() {
                    Some(delay) => SendAction::Wait(delay),
                    None => SendAction::RollLoss,
                }
            },
            SendEvent::Waited => SendAction::RollLoss,
            SendEvent::Rolled { lost } => {
                if lost {
                    let e = TransportError::MessageDropped(peer_id);
                    return SendAction::Finish(Err(SendFailure::Transport(e)));
                }
                SendAction::Deliver
            },
            SendEvent::Delivered(Delivery::Refused(reason)) => {
                let e = TransportError::SendError(peer_id, reason);
                SendAction::Finish(Err(SendFailure::Transport(e)))
            },
            SendEvent::Delivered(Delivery::Answered(Ok(response))) => SendAction::Finish(
                Ok(response),
            ),
            SendEvent::Delivered(Delivery::Answered(Err(e))) => SendAction::Finish(
                Err(SendFailure::Peer(e)),
            ),
            SendEvent::Delivered(Delivery::Abandoned) => {
                let e = TransportError::RecvError(peer_id);
                SendAction::Finish(Err(SendFailure::Transport(e)))
            },
        }
    }
}

/// Cutting a link cuts one direction only: every other link, the opposite one
/// included, stays as it was.
pub proof fn law_partition_is_one_way(
    cut: Set<(NodeId, NodeId)>,
    from: NodeId,
    to: NodeId,
    link: (NodeId, NodeId),
)
    ensures
        cut.insert((from, to)).contains((from, to)),
        link != (from, to) ==> (cut.insert((from, to)).contains(link) <==> cut.contains(link)),
        from != to ==> (cut.insert((from, to)).contains((to, from)) <==> cut.contains((to, from))),
{
}

/// Healing a partition undoes it.
pub proof fn law_heal_undoes_partition(cut: Set<(NodeId, NodeId)>, from: NodeId, to: NodeId)
    requires
        !cut.contains((from, to)),
    ensures
        cut.insert((from, to)).remove((from, to)) == cut,
{
    assert(cut.insert((from, to)).remove((from, to)) =~= cut);
}

/// A registered node is reached at its endpoint, every other node as before, and
/// closing its transport undoes the registration.
pub proof fn law_close_undoes_registration<E>(
    registry: Map<NodeId, E>,
    id: NodeId,
    endpoint: E,
    other: NodeId,
)
    requires
        !registry.contains_key(id),
    ensures
        registry.insert(id, endpoint).contains_key(id),
        registry.insert(id, endpoint)[id] == endpoint,
        other != id ==> (registry.insert(id, endpoint).contains_key(other)
            <==> registry.contains_key(other)) && registry.insert(id, endpoint)[other]
            == registry[other],
        registry.insert(id, endpoint).remove(id) == registry,
{
    assert(registry.insert(id, endpoint).remove(id) =~= registry);
}

} // verus!
