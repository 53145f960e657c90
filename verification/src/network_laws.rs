//! What a caller of the simulated network can rely on, stated over the calls and
//! their results.

use crate::messages::NodeId;
use crate::mock::{
    Delivery, MockTransport, SendAction, SendEvent, SendFailure, TransportRegistry,
};
use crate::network::{Duration, LinkSet, NetworkOptions};
use crate::transport::TransportError;
use vstd::prelude::*;

verus! {

/// The parts of a span are its seconds and the nanoseconds beyond them, and they
/// are what its length is made of. It is empty exactly if both are 0.
pub proof fn law_span_parts(span: Duration, secs: u64, nanos: u32, zero: bool)
    requires
        call_ensures(Duration::as_secs, (&span,), secs),
        call_ensures(Duration::subsec_nanos, (&span,), nanos),
        call_ensures(Duration::is_zero, (&span,), zero),
    ensures
        nanos < 1_000_000_000,
        span.total_nanos() == secs * 1_000_000_000 + nanos,
        zero <==> secs == 0 && nanos == 0,
{
    let total = span.total_nanos();
    assert(total == total / 1_000_000_000 * 1_000_000_000 + total % 1_000_000_000);
}

/// A span that is made of parts has these parts, and one that is made of milliseconds
/// has the whole seconds among them and the rest in nanoseconds.
pub proof fn law_made_span(
    given_secs: u64,
    given_nanos: u32,
    millis: u64,
    of_parts: Duration,
    of_millis: Duration,
    parts_secs: u64,
    parts_nanos: u32,
    millis_secs: u64,
    millis_nanos: u32,
)
    requires
        given_nanos < 1_000_000_000,
        call_ensures(Duration::from_parts, (given_secs, given_nanos), of_parts),
        call_ensures(Duration::from_millis, (millis,), of_millis),
        call_ensures(Duration::as_secs, (&of_parts,), parts_secs),
        call_ensures(Duration::subsec_nanos, (&of_parts,), parts_nanos),
        call_ensures(Duration::as_secs, (&of_millis,), millis_secs),
        call_ensures(Duration::subsec_nanos, (&of_millis,), millis_nanos),
    ensures
        parts_secs == given_secs,
        parts_nanos == given_nanos,
        millis_secs == millis / 1_000,
        millis_nanos == (millis % 1_000) * 1_000_000,
{
    let total = millis as int * 1_000_000;
    assert(total == (millis / 1_000) * 1_000_000_000 + (millis % 1_000) * 1_000_000);
}

/// A span is shorter than another exactly if it has fewer seconds, or as many and
/// fewer nanoseconds.
pub proof fn law_shorter_span(
    a: Duration,
    b: Duration,
    a_secs: u64,
    a_nanos: u32,
    b_secs: u64,
    b_nanos: u32,
    r: bool,
)
    requires
        call_ensures(Duration::as_secs, (&a,), a_secs),
        call_ensures(Duration::subsec_nanos, (&a,), a_nanos),
        call_ensures(Duration::as_secs, (&b,), b_secs),
        call_ensures(Duration::subsec_nanos, (&b,), b_nanos),
        call_ensures(Duration::is_shorter, (&a, &b), r),
    ensures
        r <==> a_secs < b_secs || (a_secs == b_secs && a_nanos < b_nanos),
{
    let x = a.total_nanos();
    let y = b.total_nanos();
    assert(x == x / 1_000_000_000 * 1_000_000_000 + x % 1_000_000_000);
    assert(y == y / 1_000_000_000 * 1_000_000_000 + y % 1_000_000_000);
}

/// A new set holds no link.
pub proof fn law_new_link_set(links: LinkSet, from: NodeId, to: NodeId, r: bool)
    requires
        call_ensures(LinkSet::new, (), links),
        call_ensures(LinkSet::contains, (&links, from, to), r),
    ensures
        !r,
{
}

/// A link that was added is there, every other link is there as before, and the call
/// says whether the link is new.
pub proof fn law_added_link(
    before: LinkSet,
    after: LinkSet,
    from: NodeId,
    to: NodeId,
    r: bool,
    a: NodeId,
    b: NodeId,
    earlier: bool,
    later: bool,
)
    requires
        exists|s: &mut LinkSet|
            *s == before && *final(s) == after && #[trigger] call_ensures(
                LinkSet::insert,
                (s, from, to),
                r,
            ),
        call_ensures(LinkSet::contains, (&before, a, b), earlier),
        call_ensures(LinkSet::contains, (&after, a, b), later),
    ensures
        a == from && b == to ==> later && r == !earlier,
        a != from || b != to ==> later == earlier,
{
}

/// A link that was removed is gone, every other link is there as before, and the call
/// says whether the link was there.
pub proof fn law_removed_link(
    before: LinkSet,
    after: LinkSet,
    from: NodeId,
    to: NodeId,
    r: bool,
    a: NodeId,
    b: NodeId,
    earlier: bool,
    later: bool,
)
    requires
        exists|s: &mut LinkSet|
            *s == before && *final(s) == after && #[trigger] call_ensures(
                LinkSet::remove,
                (s, from, to),
                r,
            ),
        call_ensures(LinkSet::contains, (&before, a, b), earlier),
        call_ensures(LinkSet::contains, (&after, a, b), later),
    ensures
        a == from && b == to ==> !later && r == earlier,
        a != from || b != to ==> later == earlier,
{
}

/// A clone of a set holds the same links.
pub proof fn law_cloned_link_set(
    links: LinkSet,
    copy: LinkSet,
    from: NodeId,
    to: NodeId,
    a: bool,
    b: bool,
)
    requires
        call_ensures(LinkSet::clone, (&links,), copy),
        call_ensures(LinkSet::contains, (&links, from, to), a),
        call_ensures(LinkSet::contains, (&copy, from, to), b),
    ensures
        a == b,
{
}

/// A network is made without delay and without a cut link.
pub proof fn law_default_network(
    options: NetworkOptions,
    sender: NodeId,
    receiver: NodeId,
    cut: bool,
    delay: Option<Duration>,
)
    requires
        call_ensures(NetworkOptions::default, (), options),
        call_ensures(NetworkOptions::is_partitioned, (&options, sender, receiver), cut),
        call_ensures(NetworkOptions::simulate_delay, (&options,), delay),
    ensures
        !cut,
        delay is None,
{
}

/// A link is cut exactly if it is among the cut links.
pub proof fn law_cut_link(
    options: NetworkOptions,
    sender: NodeId,
    receiver: NodeId,
    r: bool,
    listed: bool,
)
    requires
        call_ensures(NetworkOptions::is_partitioned, (&options, sender, receiver), r),
        call_ensures(LinkSet::contains, (&options.partitioned_links, sender, receiver), listed),
    ensures
        r == listed,
{
}

/// A drawn delay lies between the bounds; where they leave no room it is the shortest
/// one. No delay is drawn only where that may be.
pub proof fn law_drawn_delay(options: NetworkOptions, r: Option<Duration>)
    requires
        call_ensures(NetworkOptions::simulate_delay, (&options,), r),
    ensures
        ({
            let min = options.min_delay.total_nanos();
            let max = options.max_delay.total_nanos();
            match r {
                Some(delay) => {
                    &&& delay.total_nanos() > 0
                    &&& min < max ==> min <= delay.total_nanos() && delay.total_nanos() <= max
                    &&& min >= max ==> delay.total_nanos() == min
                },
                None => min == 0,
            }
        }),
{
}

/// A new registry reaches nobody.
pub proof fn law_new_registry<E>(registry: TransportRegistry<E>, id: NodeId, r: Option<&E>)
    requires
        call_ensures(TransportRegistry::<E>::new, (), registry) || call_ensures(
            TransportRegistry::<E>::default,
            (),
            registry,
        ),
        call_ensures(TransportRegistry::<E>::lookup, (&registry, id), r),
    ensures
        r is None,
{
}

/// A registered node is reached at its endpoint, and every other node as before.
pub proof fn law_registered<E>(
    before: TransportRegistry<E>,
    after: TransportRegistry<E>,
    id: NodeId,
    endpoint: E,
    other: NodeId,
    earlier: Option<&E>,
    later: Option<&E>,
)
    requires
        exists|g: &mut TransportRegistry<E>|
            *g == before && *final(g) == after && #[trigger] call_ensures(
                TransportRegistry::<E>::register,
                (g, id, endpoint),
                (),
            ),
        call_ensures(TransportRegistry::<E>::lookup, (&before, other), earlier),
        call_ensures(TransportRegistry::<E>::lookup, (&after, other), later),
    ensures
        other == id ==> later == Some(&endpoint),
        other != id ==> later == earlier,
{
}

/// A node that was unregistered is not reached, and every other node is as before.
pub proof fn law_unregistered<E>(
    before: TransportRegistry<E>,
    after: TransportRegistry<E>,
    id: NodeId,
    other: NodeId,
    earlier: Option<&E>,
    later: Option<&E>,
)
    requires
        exists|g: &mut TransportRegistry<E>|
            *g == before && *final(g) == after && #[trigger] call_ensures(
                TransportRegistry::<E>::unregister,
                (g, id),
                (),
            ),
        call_ensures(TransportRegistry::<E>::lookup, (&before, other), earlier),
        call_ensures(TransportRegistry::<E>::lookup, (&after, other), later),
    ensures
        other == id ==> later is None,
        other != id ==> later == earlier,
{
}

/// A transport that is created belongs to its node, has the given options, and makes
/// the node reachable at its endpoint; every other node is reached as before.
pub proof fn law_created_transport<E>(
    node_id: NodeId,
    options: NetworkOptions,
    before: TransportRegistry<E>,
    after: TransportRegistry<E>,
    endpoint: E,
    transport: MockTransport,
    other: NodeId,
    earlier: Option<&E>,
    later: Option<&E>,
)
    requires
        exists|g: &mut TransportRegistry<E>|
            *g == before && *final(g) == after && #[trigger] call_ensures(
                MockTransport::create_with_options::<E>,
                (node_id, options, g, endpoint),
                transport,
            ),
        call_ensures(TransportRegistry::<E>::lookup, (&before, other), earlier),
        call_ensures(TransportRegistry::<E>::lookup, (&after, other), later),
    ensures
        transport.node_id == node_id,
        transport.network_options == options,
        other == node_id ==> later == Some(&endpoint),
        other != node_id ==> later == earlier,
{
}

/// A transport that is closed makes its node unreachable, and no other.
pub proof fn law_closed_transport<E>(
    transport: MockTransport,
    before: TransportRegistry<E>,
    after: TransportRegistry<E>,
    other: NodeId,
    earlier: Option<&E>,
    later: Option<&E>,
)
    requires
        exists|g: &mut TransportRegistry<E>|
            *g == before && *final(g) == after && #[trigger] call_ensures(
                MockTransport::close::<E>,
                (&transport, g),
                (),
            ),
        call_ensures(TransportRegistry::<E>::lookup, (&before, other), earlier),
        call_ensures(TransportRegistry::<E>::lookup, (&after, other), later),
    ensures
        other == transport.node_id ==> later is None,
        other != transport.node_id ==> later == earlier,
{
}

/// A peer is found at the endpoint that is registered for it, and one that is not
/// registered is reported by its identifier.
pub proof fn law_route<E>(
    transport: MockTransport,
    registry: TransportRegistry<E>,
    peer: NodeId,
    found: Option<&E>,
    r: Result<&E, TransportError>,
)
    requires
        call_ensures(TransportRegistry::<E>::lookup, (&registry, peer), found),
        call_ensures(MockTransport::route::<E>, (&transport, &registry, peer), r),
    ensures
        match found {
            Some(endpoint) => r == Ok::<&E, TransportError>(endpoint),
            None => r == Err::<&E, TransportError>(TransportError::PeerNotFound(peer)),
        },
{
}

/// New options take the place of the old ones, and the node stays the same.
pub proof fn law_updated_options(
    before: MockTransport,
    after: MockTransport,
    options: NetworkOptions,
)
    requires
        exists|t: &mut MockTransport|
            *t == before && *final(t) == after && #[trigger] call_ensures(
                MockTransport::update_network_options,
                (t, options),
                (),
            ),
    ensures
        after.node_id == before.node_id,
        after.network_options == options,
{
}

/// Cutting the link to a peer cuts that link, in that direction, and no other.
pub proof fn law_partition(
    before: MockTransport,
    after: MockTransport,
    peer: NodeId,
    a: NodeId,
    b: NodeId,
    earlier: bool,
    later: bool,
)
    requires
        exists|t: &mut MockTransport|
            *t == before && *final(t) == after && #[trigger] call_ensures(
                MockTransport::partition_from,
                (t, peer),
                (),
            ),
        call_ensures(NetworkOptions::is_partitioned, (&before.network_options, a, b), earlier),
        call_ensures(NetworkOptions::is_partitioned, (&after.network_options, a, b), later),
    ensures
        after.node_id == before.node_id,
        after.network_options.min_delay == before.network_options.min_delay,
        after.network_options.max_delay == before.network_options.max_delay,
        a == before.node_id && b == peer ==> later,
        a != before.node_id || b != peer ==> later == earlier,
{
}

/// Healing the link to a peer restores that link, in that direction, and no other.
pub proof fn law_heal(
    before: MockTransport,
    after: MockTransport,
    peer: NodeId,
    a: NodeId,
    b: NodeId,
    earlier: bool,
    later: bool,
)
    requires
        exists|t: &mut MockTransport|
            *t == before && *final(t) == after && #[trigger] call_ensures(
                MockTransport::heal_partition_from,
                (t, peer),
                (),
            ),
        call_ensures(NetworkOptions::is_partitioned, (&before.network_options, a, b), earlier),
        call_ensures(NetworkOptions::is_partitioned, (&after.network_options, a, b), later),
    ensures
        after.node_id == before.node_id,
        after.network_options.min_delay == before.network_options.min_delay,
        after.network_options.max_delay == before.network_options.max_delay,
        a == before.node_id && b == peer ==> !later,
        a != before.node_id || b != peer ==> later == earlier,
{
}

/// The course of a send. A cut link ends it. Otherwise the message is delayed within
/// the bounds, or not at all where that may be; then it is drawn whether it is lost;
/// a lost message ends the send, and any other is delivered; and what became of it
/// is the result: the response, the failure of the peer, or why there is none.
pub proof fn law_course_of_a_send<R, X>(
    transport: MockTransport,
    peer: NodeId,
    event: SendEvent<R, X>,
    cut: bool,
    r: SendAction<R, X>,
)
    requires
        call_ensures(
            NetworkOptions::is_partitioned,
            (&transport.network_options, transport.node_id, peer),
            cut,
        ),
        call_ensures(MockTransport::next_action::<R, X>, (&transport, peer, event), r),
    ensures
        ({
            let min = transport.network_options.min_delay.total_nanos();
            let max = transport.network_options.max_delay.total_nanos();
            &&& event is Requested && cut ==> r == SendAction::<R, X>::Finish(
                Err(
                    SendFailure::Transport(TransportError::Partitioned(transport.node_id, peer)),
                ),
            )
            &&& event is Requested && !cut ==> match r {
                SendAction::Wait(delay) => {
                    &&& delay.total_nanos() > 0
                    &&& min < max ==> min <= delay.total_nanos() && delay.total_nanos() <= max
                    &&& min >= max ==> delay.total_nanos() == min
                },
                SendAction::RollLoss => min == 0,
                _ => false,
            }
            &&& event is Waited ==> r == SendAction::<R, X>::RollLoss
            &&& event == (SendEvent::<R, X>::Rolled { lost: true }) ==> r == SendAction::<
                R,
                X,
            >::Finish(Err(SendFailure::Transport(TransportError::MessageDropped(peer))))
            &&& event == (SendEvent::<R, X>::Rolled { lost: false }) ==> r == SendAction::<
                R,
                X,
            >::Deliver
            &&& forall|reason: String|
                event == SendEvent::<R, X>::Delivered(Delivery::Refused(reason)) ==> r
                    == SendAction::<R, X>::Finish(
                    Err(SendFailure::Transport(TransportError::SendError(peer, reason))),
                )
            &&& forall|response: R|
                event == SendEvent::<R, X>::Delivered(Delivery::Answered(Ok(response))) ==> r
                    == SendAction::<R, X>::Finish(Ok(response))
            &&& forall|e: X|
                event == SendEvent::<R, X>::Delivered(Delivery::Answered(Err(e))) ==> r
                    == SendAction::<R, X>::Finish(Err(SendFailure::Peer(e)))
            &&& event == SendEvent::<R, X>::Delivered(Delivery::Abandoned) ==> r == SendAction::<
                R,
                X,
            >::Finish(Err(SendFailure::Transport(TransportError::RecvError(peer))))
        }),
{
}

} // verus!
