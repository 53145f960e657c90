//! What a caller of the smaller parts can rely on, stated over the calls and their
//! results: configuration, timer, state machine, and the text of numbers and errors.

use crate::config::Config;
use crate::machine::{NoopStateMachine, StateMachine};
use crate::messages::{CommandPayload, NodeId};
use crate::storage::StorageError;
use crate::timer::ElectionTimer;
use crate::transport::TransportError;
use vstd::prelude::*;

verus! {

/// The nodes to talk to are those that the configuration names, the node itself left
/// out, each once.
pub proof fn law_other_ids(config: Config, r: Vec<NodeId>)
    requires
        call_ensures(Config::other_ids, (&config,), r),
    ensures
        forall|i: int, j: int| 0 <= i < j < r@.len() ==> #[trigger] r@[i] != #[trigger] r@[j],
        forall|p: NodeId|
            r@.contains(p) <==> p != config.id && config.peers@.contains_key(p),
{
    assert forall|p: NodeId| r@.contains(p) <==> p != config.id && config.peers@.contains_key(
        p,
    ) by {
        assert(r@.to_set().contains(p) <==> r@.contains(p));
    }
}

/// The required votes are the fewest that are more than half of the cluster, in which
/// the node itself counts once, whether or not the configuration names it.
pub proof fn law_required_votes(config: Config, r: usize)
    requires
        call_ensures(Config::required_votes, (&config,), r),
    ensures
        2 * r > config.peers@.dom().insert(config.id).len(),
        2 * (r - 1) <= config.peers@.dom().insert(config.id).len(),
{
}

/// The longest timeout is one less than the base and what may be added together, as
/// far as numbers go, and the base where nothing may be added.
pub proof fn law_longest_timeout(config: Config, r: u64)
    requires
        call_ensures(Config::longest_timeout, (&config,), r),
    ensures
        config.election_timeout_max_ms == 0 ==> r == config.election_timeout_min_ms,
        config.election_timeout_max_ms > 0 ==> r == if config.election_timeout_min_ms
            + config.election_timeout_max_ms - 1 <= u64::MAX {
            config.election_timeout_min_ms + config.election_timeout_max_ms - 1
        } else {
            u64::MAX as int
        },
{
    let min = config.election_timeout_min_ms;
    let max = config.election_timeout_max_ms;
    let expected: u64 = if max == 0 {
        min
    } else if min + max - 1 <= u64::MAX {
        (min + max - 1) as u64
    } else {
        u64::MAX
    };
    assert(config.allows_timeout(expected));
    assert(config.allows_timeout(r));
}

/// A drawn timeout lies between the bounds, both included, and is the lower one where
/// they leave no room.
pub proof fn law_drawn_timeout(min: u64, max: u64, r: u64)
    requires
        call_ensures(ElectionTimer::rand_range, (min, max), r),
    ensures
        min < max ==> min <= r && r <= max,
        min >= max ==> r == min,
{
}

/// A timer that is reset runs with the timeout that comes back, which lies between
/// the bounds; the one that ran before is signalled, and the receiver that comes back
/// is the one that the timer notifies.
pub proof fn law_reset(
    before: ElectionTimer,
    after: ElectionTimer,
    min: u64,
    max: u64,
    r: (tokio::sync::oneshot::Receiver<()>, u64),
    armed: bool,
    duration: u64,
)
    requires
        exists|t: &mut ElectionTimer|
            *t == before && *final(t) == after && #[trigger] call_ensures(
                ElectionTimer::reset,
                (t, min, max),
                r,
            ),
        call_ensures(ElectionTimer::is_armed, (&after,), armed),
        call_ensures(ElectionTimer::duration_ms, (&after,), duration),
    ensures
        armed,
        duration == r.1,
        min < max ==> min <= r.1 && r.1 <= max,
        min >= max ==> r.1 == min,
        before.armed() ==> before.signalled(),
        after.notifies(r.0),
{
}

/// A timer that is cancelled is signalled if it ran, runs no longer, and keeps its
/// timeout.
pub proof fn law_cancel(
    before: ElectionTimer,
    after: ElectionTimer,
    was_armed: bool,
    armed: bool,
    old_duration: u64,
    duration: u64,
)
    requires
        exists|t: &mut ElectionTimer|
            *t == before && *final(t) == after && #[trigger] call_ensures(
                ElectionTimer::cancel,
                (t,),
                (),
            ),
        call_ensures(ElectionTimer::is_armed, (&before,), was_armed),
        call_ensures(ElectionTimer::is_armed, (&after,), armed),
        call_ensures(ElectionTimer::duration_ms, (&before,), old_duration),
        call_ensures(ElectionTimer::duration_ms, (&after,), duration),
    ensures
        !armed,
        duration == old_duration,
        was_armed ==> before.signalled(),
{
}

/// A new timer does not run, and its timeout is 0.
pub proof fn law_new_timer(timer: ElectionTimer, armed: bool, duration: u64)
    requires
        call_ensures(ElectionTimer::default, (), timer),
        call_ensures(ElectionTimer::is_armed, (&timer,), armed),
        call_ensures(ElectionTimer::duration_ms, (&timer,), duration),
    ensures
        !armed,
        duration == 0,
{
}

/// The idle state machine takes every command and stays as it is.
pub proof fn law_idle_machine(
    before: NoopStateMachine,
    after: NoopStateMachine,
    command: CommandPayload,
    r: Result<(), String>,
)
    requires
        exists|m: &mut NoopStateMachine|
            *m == before && *final(m) == after && #[trigger] call_ensures(
                NoopStateMachine::apply,
                (m, command),
                r,
            ),
    ensures
        r is Ok,
        after == before,
{
}

/// The number that a sequence of decimal digits stands for.
pub open spec fn number(digits: Seq<char>) -> int
    decreases digits.len(),
{
    if digits.len() == 0 {
        0
    } else {
        10 * number(digits.drop_last()) + (digits.last() as int - '0' as int)
    }
}

/// What the digits of a number are.
proof fn lemma_decimal(n: nat)
    ensures
        crate::text::decimal(n).len() > 0,
        forall|i: int|
            0 <= i < crate::text::decimal(n).len() ==> '0' <= #[trigger] crate::text::decimal(n)[i]
                && crate::text::decimal(n)[i] <= '9',
        n > 0 ==> crate::text::decimal(n)[0] != '0',
        number(crate::text::decimal(n)) == n,
    decreases n,
{
    let d = crate::text::decimal(n);
    if n < 10 {
        assert(d.drop_last() =~= Seq::<char>::empty());
        assert(number(Seq::<char>::empty()) == 0);
    } else {
        lemma_decimal(n / 10);
        let front = crate::text::decimal(n / 10);
        assert(d.drop_last() =~= front);
        assert(d[0] == front[0]);
    }
}

/// A number is rendered by its decimal digits: they stand for it, and the first one is
/// no zero unless it is the only one.
pub proof fn law_decimal_text(n: u64, s: String)
    requires
        call_ensures(crate::text::decimal_string, (n,), s),
    ensures
        s@.len() > 0,
        forall|i: int| 0 <= i < s@.len() ==> '0' <= #[trigger] s@[i] && s@[i] <= '9',
        s@.len() > 1 ==> s@[0] != '0',
        number(s@) == n,
{
    lemma_decimal(n as nat);
    if n == 0 {
        assert(s@.len() == 1);
    }
}

/// What a storage error says: which rule was broken, and for a gap where the log
/// ends and where the entries start, or else what the medium said.
pub proof fn law_storage_error_text(
    e: StorageError,
    s: String,
    log_end: u64,
    first_new: u64,
    log_end_text: String,
    first_new_text: String,
)
    requires
        call_ensures(StorageError::message, (&e,), s),
        call_ensures(crate::text::decimal_string, (log_end,), log_end_text),
        call_ensures(crate::text::decimal_string, (first_new,), first_new_text),
    ensures
        e == StorageError::NonConsecutive ==> s@ == "Non-consecutive log entries"@,
        e == (StorageError::Gap { log_end, first_new }) ==> s@ == "Gap detected between log end ("@
            + log_end_text@ + ") and new entries starting at "@ + first_new_text@,
        e matches StorageError::Backend(reason) ==> s@ == reason@,
{
}

/// What a transport error says: what happened, and to which node.
pub proof fn law_transport_error_text(
    e: TransportError,
    s: String,
    a: NodeId,
    b: NodeId,
    a_text: String,
    b_text: String,
)
    requires
        call_ensures(TransportError::message, (&e,), s),
        call_ensures(crate::text::decimal_string, (a,), a_text),
        call_ensures(crate::text::decimal_string, (b,), b_text),
    ensures
        e == TransportError::PeerNotFound(a) ==> s@ == "Peer node "@ + a_text@
            + " not found in the transport registry"@,
        e == TransportError::ChannelClosed(a) ==> s@ == "Communication channel to peer "@ + a_text@
            + " is closed"@,
        e matches TransportError::SendError(id, reason) ==> id == a ==> s@
            == "Failed to send request to peer "@ + a_text@ + ": "@ + reason@,
        e == TransportError::RecvError(a) ==> s@ == "Failed to receive response from peer "@
            + a_text@,
        e == TransportError::MessageDropped(a) ==> s@
            == "Network simulation error: Message dropped to peer "@ + a_text@,
        e == TransportError::Partitioned(a, b) ==> s@ == "Network simulation error: Node "@ + a_text@
            + " is partitioned from peer "@ + b_text@,
        e == TransportError::NodeAlreadyExists(a) ==> s@ == "Node "@ + a_text@
            + " is already registered in the transport"@,
        e matches TransportError::Internal(reason) ==> s@ == "Internal transport error: "@ + reason@,
{
}

/// What a timer reports of itself is what the contracts say of it.
pub proof fn law_timer_reports(timer: ElectionTimer, armed: bool, duration: u64)
    requires
        call_ensures(ElectionTimer::is_armed, (&timer,), armed),
        call_ensures(ElectionTimer::duration_ms, (&timer,), duration),
    ensures
        armed == timer.armed(),
        duration == timer.duration(),
{
}

} // verus!
