//! What a caller of a node can rely on, stated over the calls and their results.
//!
//! Each law speaks of the fields of a node around a call. `before` and `after` are
//! the node around a call that changes it.

use crate::config::Config;
use crate::machine::StateMachine;
use crate::messages::{
    CommandPayload, EntryView, HardState, LogEntry, NodeId, RequestVoteRequest, RequestVoteResponse,
};
use crate::node::{Election, RaftNode, TermChange, VoteDecision};
use crate::state::{RaftState, Role};
use crate::storage::{Storage, StorageError};
use crate::transport::{Transport, TransportError};
use vstd::prelude::*;

verus! {

/// The index that a log ends with, or 0.
pub open spec fn end_index(log: Seq<EntryView>) -> u64 {
    if log.len() == 0 {
        0
    } else {
        log[log.len() - 1].index
    }
}

/// The term that a log ends with, or 0.
pub open spec fn end_term(log: Seq<EntryView>) -> u64 {
    if log.len() == 0 {
        0
    } else {
        log[log.len() - 1].term
    }
}

/// Whether two sequences of entries agree in every field of every entry.
pub open spec fn same_entries(a: Seq<LogEntry>, b: Seq<LogEntry>) -> bool {
    &&& a.len() == b.len()
    &&& forall|i: int|
        0 <= i < a.len() ==> {
            &&& (#[trigger] a[i]).index == b[i].index
            &&& a[i].term == b[i].term
            &&& a[i].command@ == b[i].command@
        }
}

/// Entries with equal views agree in every field.
proof fn lemma_same_entries(a: Seq<LogEntry>, b: Seq<LogEntry>)
    requires
        crate::messages::entries_view(a) == crate::messages::entries_view(b),
    ensures
        same_entries(a, b),
{
    let x = crate::messages::entries_view(a);
    let y = crate::messages::entries_view(b);
    assert(x.len() == a.len() && y.len() == b.len());
    assert forall|i: int| 0 <= i < a.len() implies {
        &&& (#[trigger] a[i]).index == b[i].index
        &&& a[i].term == b[i].term
        &&& a[i].command@ == b[i].command@
    } by {
        assert(x[i] == a[i]@);
        assert(y[i] == b[i]@);
    }
}

/// Whether two states agree in what no part of an election changes.
pub open spec fn same_rest(before: RaftState, after: RaftState) -> bool {
    &&& after.hard_state.commit_index == before.hard_state.commit_index
    &&& after.volatile.last_applied == before.volatile.last_applied
    &&& after.node_id == before.node_id
    &&& same_entries(before.log@, after.log@)
}

/// Whether two states agree in what a leader knows of its peers.
pub open spec fn same_peers(before: RaftState, after: RaftState) -> bool {
    &&& after.leader.next_index@ == before.leader.next_index@
    &&& after.leader.match_index@ == before.leader.match_index@
}

/// Whether a leader starts out right: it knows every other node of the
/// configuration and no further one, sends each what follows the end of its log, and
/// takes none to store anything.
pub open spec fn fresh_peers(config: Config, log: Seq<EntryView>, state: RaftState) -> bool {
    &&& forall|p: NodeId| #[trigger]
        state.leader.next_index@.contains_key(p) <==> p != config.id && config.peers@.contains_key(
            p,
        )
    &&& forall|p: NodeId| #[trigger]
        state.leader.match_index@.contains_key(p) <==> p != config.id && config.peers@.contains_key(
            p,
        )
    &&& forall|p: NodeId|
        state.leader.next_index@.contains_key(p) ==> #[trigger] state.leader.next_index@[p]
            == end_index(log) + 1
    &&& forall|p: NodeId|
        state.leader.match_index@.contains_key(p) ==> #[trigger] state.leader.match_index@[p] == 0
}

/// Whether two nodes agree in what no operation changes.
pub open spec fn same_parts<S, T, SM>(
    before: RaftNode<S, T, SM>,
    after: RaftNode<S, T, SM>,
) -> bool where
    S: Storage + Send + Sync + 'static,
    T: Transport + Clone + Send + Sync + 'static,
    SM: StateMachine<Command = CommandPayload> + Send + Sync + 'static,
 {
    &&& after.id == before.id
    &&& after.config == before.config
    &&& after.transport == before.transport
    &&& after.state_machine == before.state_machine
    &&& same_rest(before.state, after.state)
}

/// Whether the timer runs: its timeout is the base and less than what may be added.
pub open spec fn running<S, T, SM>(node: RaftNode<S, T, SM>) -> bool where
    S: Storage + Send + Sync + 'static,
    T: Transport + Clone + Send + Sync + 'static,
    SM: StateMachine<Command = CommandPayload> + Send + Sync + 'static,
 {
    let min = node.config.election_timeout_min_ms;
    let max = node.config.election_timeout_max_ms;
    &&& node.timer.armed()
    &&& min <= node.timer.duration()
    &&& max > 0 ==> node.timer.duration() < min + max
    &&& max == 0 ==> node.timer.duration() == min
}

/// Whether the timer was restarted: the one that ran was signalled, and one runs.
pub open spec fn restarted<S, T, SM>(
    before: RaftNode<S, T, SM>,
    after: RaftNode<S, T, SM>,
) -> bool where
    S: Storage + Send + Sync + 'static,
    T: Transport + Clone + Send + Sync + 'static,
    SM: StateMachine<Command = CommandPayload> + Send + Sync + 'static,
 {
    &&& before.timer.armed() ==> before.timer.signalled()
    &&& running(after)
}

/// A new node is a follower in term 0 that has given and received no vote, knows no
/// leader and no entry, and has its timer running.
pub proof fn law_new_node_has_seen_nothing<S, T, SM>(
    id: NodeId,
    config: Config,
    storage: S,
    transport: T,
    state_machine: SM,
    node: RaftNode<S, T, SM>,
) where
    S: Storage + Send + Sync + 'static,
    T: Transport + Clone + Send + Sync + 'static,
    SM: StateMachine<Command = CommandPayload> + Send + Sync + 'static,

    requires
        call_ensures(
            RaftNode::<S, T, SM>::new,
            (id, config, storage, transport, state_machine),
            node,
        ),
    ensures
        node.id == id,
        node.config == config,
        node.storage == storage,
        node.transport == transport,
        node.state_machine == state_machine,
        node.state.hard_state.term == 0,
        node.state.hard_state.voted_for == 0,
        node.state.hard_state.commit_index == 0,
        node.state.log@.len() == 0,
        node.state.volatile.last_applied == 0,
        node.state.node_id == id,
        node.state.server.role == Role::Follower,
        node.state.server.leader_id is None,
        forall|p: NodeId| !node.state.leader.next_index@.contains_key(p),
        forall|p: NodeId| !node.state.leader.match_index@.contains_key(p),
        forall|p: NodeId| !node.votes_received@.contains(p),
        running(node),
{
    assert(crate::messages::entries_view(node.state.log@).len() == node.state.log@.len());
    assert(node@.state.next_index =~= Map::<NodeId, u64>::empty());
    assert(node@.state.match_index =~= Map::<NodeId, u64>::empty());
    assert(node@.votes =~= Set::<NodeId>::empty());
}

/// A new state is that of a follower in term 0 that knows nothing.
pub proof fn law_new_state_has_seen_nothing(id: NodeId, state: RaftState)
    requires
        call_ensures(RaftState::new, (id,), state) || (id == 0 && call_ensures(
            RaftState::default,
            (),
            state,
        )),
    ensures
        state.hard_state.term == 0,
        state.hard_state.voted_for == 0,
        state.hard_state.commit_index == 0,
        state.log@.len() == 0,
        state.volatile.last_applied == 0,
        state.node_id == id,
        state.server.role == Role::Follower,
        state.server.leader_id is None,
        forall|p: NodeId| !state.leader.next_index@.contains_key(p),
        forall|p: NodeId| !state.leader.match_index@.contains_key(p),
{
    assert(crate::messages::entries_view(state.log@).len() == state.log@.len());
    assert(state@.next_index =~= Map::<NodeId, u64>::empty());
    assert(state@.match_index =~= Map::<NodeId, u64>::empty());
}

/// Becoming a follower: an older term is ignored, a newer one is taken over without a
/// vote and saved, and in both the same and a newer term the node follows the given
/// leader, has no votes and restarts its timer. A save that fails leaves the timer
/// alone, and its error comes back.
pub proof fn law_follower<S, T, SM>(
    before: RaftNode<S, T, SM>,
    after: RaftNode<S, T, SM>,
    term: u64,
    leader_id: Option<NodeId>,
    r: Result<(), StorageError>,
) where
    S: Storage + Send + Sync + 'static,
    T: Transport + Clone + Send + Sync + 'static,
    SM: StateMachine<Command = CommandPayload> + Send + Sync + 'static,

    requires
        exists|n: &mut RaftNode<S, T, SM>|
            *n == before && *final(n) == after && #[trigger] call_ensures(
                RaftNode::<S, T, SM>::become_follower,
                (n, term, leader_id),
                r,
            ),
    ensures
        before.storage.reliable() ==> r is Ok,
        term < before.state.hard_state.term ==> r is Ok && after == before,
        term >= before.state.hard_state.term ==> {
            &&& same_parts(before, after)
            &&& same_peers(before.state, after.state)
            &&& after.state.hard_state.term == term
            &&& after.state.server.role == Role::Follower
            &&& after.state.server.leader_id == leader_id
            &&& forall|p: NodeId| !after.votes_received@.contains(p)
            &&& r is Ok ==> restarted(before, after)
            &&& r is Err ==> after.timer == before.timer
        },
        term == before.state.hard_state.term ==> {
            &&& r is Ok
            &&& after.state.hard_state.voted_for == before.state.hard_state.voted_for
            &&& after.storage == before.storage
        },
        term > before.state.hard_state.term ==> {
            &&& after.state.hard_state.voted_for == 0
            &&& r is Ok ==> after.storage.hard_state() == after.state.hard_state
                && after.storage.log() == before.storage.log()
            &&& r matches Err(e) ==> exists|s: &mut S|
                *s == before.storage && #[trigger] call_ensures(
                    S::save_hard_state,
                    (s, &after.state.hard_state),
                    Err(e),
                )
        },
{
    if term >= before.state.hard_state.term {
        assert(after@.state.log == before@.state.log);
        lemma_same_entries(before.state.log@, after.state.log@);
        assert(after@.votes =~= Set::<NodeId>::empty());
    }
}

/// Becoming a candidate: the node enters the next term, has its own vote and no
/// other, knows no leader, and saves both. It restarts its timer once they are
/// saved; a save that fails leaves the timer alone, and its error comes back.
pub proof fn law_candidate<S, T, SM>(
    before: RaftNode<S, T, SM>,
    after: RaftNode<S, T, SM>,
    r: Result<(), StorageError>,
) where
    S: Storage + Send + Sync + 'static,
    T: Transport + Clone + Send + Sync + 'static,
    SM: StateMachine<Command = CommandPayload> + Send + Sync + 'static,

    requires
        before.state.hard_state.term < u64::MAX,
        exists|n: &mut RaftNode<S, T, SM>|
            *n == before && *final(n) == after && #[trigger] call_ensures(
                RaftNode::<S, T, SM>::become_candidate,
                (n,),
                r,
            ),
    ensures
        before.storage.reliable() ==> r is Ok,
        same_parts(before, after),
        same_peers(before.state, after.state),
        after.state.hard_state.term == before.state.hard_state.term + 1,
        after.state.hard_state.voted_for == before.config.id,
        after.state.server.role == Role::Candidate,
        after.state.server.leader_id is None,
        forall|p: NodeId| after.votes_received@.contains(p) <==> p == before.config.id,
        r is Ok ==> restarted(before, after),
        r is Ok ==> after.storage.hard_state() == after.state.hard_state && after.storage.log()
            == before.storage.log(),
        r is Err ==> after.timer == before.timer,
        r matches Err(e) ==> exists|s: &mut S|
            *s == before.storage && #[trigger] call_ensures(
                S::save_hard_state,
                (s, &after.state.hard_state),
                Err(e),
            ),
{
    assert(after@.state.log == before@.state.log);
    lemma_same_entries(before.state.log@, after.state.log@);
    assert(after@.votes =~= Set::<NodeId>::empty().insert(before.config.id));
}

/// Becoming the leader: only a candidate does. It keeps its term and its vote, leads
/// itself, forgets the votes, stops its timer, and starts its bookkeeping afresh,
/// whatever it held before: every other node of the configuration is sent what
/// follows the last entry of the log, and none is known to store anything.
pub proof fn law_leader<S, T, SM>(
    before: RaftNode<S, T, SM>,
    after: RaftNode<S, T, SM>,
    r: Result<(), StorageError>,
) where
    S: Storage + Send + Sync + 'static,
    T: Transport + Clone + Send + Sync + 'static,
    SM: StateMachine<Command = CommandPayload> + Send + Sync + 'static,

    requires
        end_index(before.storage.log()) < u64::MAX,
        exists|n: &mut RaftNode<S, T, SM>|
            *n == before && *final(n) == after && #[trigger] call_ensures(
                RaftNode::<S, T, SM>::become_leader,
                (n,),
                r,
            ),
    ensures
        before.storage.reliable() ==> r is Ok,
        before.state.server.role != Role::Candidate ==> r is Ok && after == before,
        before.state.server.role == Role::Candidate ==> {
            &&& same_parts(before, after)
            &&& after.state.hard_state == before.state.hard_state
            &&& after.storage == before.storage
            &&& after.state.server.role == Role::Leader
            &&& after.state.server.leader_id == Some(before.config.id)
            &&& forall|p: NodeId| !after.votes_received@.contains(p)
            &&& r is Ok ==> {
                &&& fresh_peers(before.config, before.storage.log(), after.state)
                &&& !after.timer.armed()
                &&& before.timer.armed() ==> before.timer.signalled()
            }
            &&& r matches Err(e) ==> {
                &&& same_peers(before.state, after.state)
                &&& after.timer == before.timer
                &&& call_ensures(
                    S::last_log_index,
                    (&before.storage,),
                    Err::<u64, StorageError>(e),
                )
            }
        },
{
    if before.state.server.role == Role::Candidate {
        assert(after@.state.log == before@.state.log);
        lemma_same_entries(before.state.log@, after.state.log@);
        assert(after@.votes =~= Set::<NodeId>::empty());
        if r is Ok {
            lemma_fresh_peers(before, after);
        }
    }
}

/// The bookkeeping of a leader that has just been elected.
proof fn lemma_fresh_peers<S, T, SM>(before: RaftNode<S, T, SM>, after: RaftNode<S, T, SM>) where
    S: Storage + Send + Sync + 'static,
    T: Transport + Clone + Send + Sync + 'static,
    SM: StateMachine<Command = CommandPayload> + Send + Sync + 'static,

    requires
        end_index(before.storage.log()) < u64::MAX,
        after.state@.next_index == before@.leader(
            before.config.id,
            before.config.others(),
            crate::log::last_index(before.storage.log()),
        ).state.next_index,
        after.state@.match_index == before@.leader(
            before.config.id,
            before.config.others(),
            crate::log::last_index(before.storage.log()),
        ).state.match_index,
    ensures
        fresh_peers(before.config, before.storage.log(), after.state),
{
    let others = before.config.others();
    assert forall|p: NodeId| others.contains(p) <==> p != before.config.id
        && before.config.peers@.contains_key(p) by {}
}

/// The answer to a vote request. A request of an older term is refused and changes
/// nothing. Otherwise the node is in the term of the request, without a vote if that
/// term is new to it, and it grants the vote exactly if it has none or has given it to
/// this candidate, and if the log of the candidate ends with a later term, or with
/// the same term and at least the same index. A granted vote is recorded and saved,
/// and restarts the timer; a request that changes no vote and no term writes nothing.
pub proof fn law_vote<S, T, SM>(
    before: RaftNode<S, T, SM>,
    after: RaftNode<S, T, SM>,
    request: RequestVoteRequest,
    r: Result<RequestVoteResponse, StorageError>,
) where
    S: Storage + Send + Sync + 'static,
    T: Transport + Clone + Send + Sync + 'static,
    SM: StateMachine<Command = CommandPayload> + Send + Sync + 'static,

    requires
        exists|n: &mut RaftNode<S, T, SM>|
            *n == before && *final(n) == after && #[trigger] call_ensures(
                RaftNode::<S, T, SM>::handle_request_vote,
                (n, request),
                r,
            ),
    ensures
        ({
            let old_state = before.state.hard_state;
            let new_state = after.state.hard_state;
            let newer = request.term > old_state.term;
            let vote = if newer {
                0
            } else {
                old_state.voted_for
            };
            let our_term = end_term(before.storage.log());
            let our_index = end_index(before.storage.log());
            let deserves = (vote == 0 || vote == request.candidate_id) && (request.last_log_term
                > our_term || (request.last_log_term == our_term && request.last_log_index
                >= our_index));
            &&& before.storage.reliable() ==> r is Ok
            &&& request.term < old_state.term ==> {
                &&& after == before
                &&& r matches Ok(response) && response.term == old_state.term
                    && !response.vote_granted
            }
            &&& request.term >= old_state.term ==> {
                &&& same_parts(before, after)
                &&& same_peers(before.state, after.state)
                &&& new_state.term == request.term
                &&& if newer {
                    &&& after.state.server.role == Role::Follower
                    &&& after.state.server.leader_id is None
                    &&& forall|p: NodeId| !after.votes_received@.contains(p)
                } else {
                    &&& after.state.server == before.state.server
                    &&& forall|p: NodeId|
                        after.votes_received@.contains(p) <==> before.votes_received@.contains(p)
                }
                &&& r matches Ok(response) ==> {
                    &&& response.term == request.term
                    &&& response.vote_granted <==> deserves
                    &&& new_state.voted_for == if deserves {
                        request.candidate_id
                    } else {
                        vote
                    }
                    &&& after.storage.log() == before.storage.log()
                    &&& new_state != old_state ==> after.storage.hard_state() == new_state
                    &&& new_state == old_state ==> after.storage == before.storage
                    &&& if newer || deserves {
                        restarted(before, after)
                    } else {
                        after.timer == before.timer
                    }
                }
                &&& r matches Err(e) ==> {
                    &&& gives::<S>(e)
                    &&& new_state.voted_for == vote || (deserves && new_state.voted_for
                        == request.candidate_id)
                    &&& after.timer == before.timer || restarted(before, after)
                }
            }
        }),
{
    if request.term >= before.state.hard_state.term {
        assert(after@.state.log == before@.state.log);
        lemma_same_entries(before.state.log@, after.state.log@);
        if request.term > before.state.hard_state.term {
            assert(after@.votes =~= Set::<NodeId>::empty());
        } else {
            assert(after@.votes =~= before@.votes);
        }
        if let Err(e) = r {
            let state = before@.noticed(request.term).state.hard_state;
            if crate::node::save_gives(before.storage, state, Some(e)) {
                lemma_gives(before.storage, state, e);
            } else if crate::node::log_end_fails(after.storage, e) {
                lemma_gives(after.storage, state, e);
            } else {
                let noted = choose|noted: S| #[trigger]
                    before.notes(request.term, noted) && crate::node::save_gives(
                        noted,
                        after.state.hard_state,
                        Some(e),
                    );
                lemma_gives(noted, after.state.hard_state, e);
            }
        }
    }
}

/// Whether `e` is what saving to a storage of this kind, or asking one where its log
/// ends, can fail with.
pub open spec fn gives<S: Storage>(e: StorageError) -> bool {
    ||| exists|s: &mut S, state: &HardState| #[trigger]
        call_ensures(S::save_hard_state, (s, state), Err::<(), StorageError>(e))
    ||| exists|s: &S| #[trigger]
        call_ensures(S::last_log_index, (s,), Err::<u64, StorageError>(e))
    ||| exists|s: &S| #[trigger]
        call_ensures(S::last_log_term, (s,), Err::<u64, StorageError>(e))
}

/// A failure that was found with a given storage is one that such a storage gives.
proof fn lemma_gives<S: Storage>(storage: S, state: HardState, e: StorageError)
    requires
        crate::node::save_gives(storage, state, Some(e)) || crate::node::log_end_fails(storage, e),
    ensures
        gives::<S>(e),
{
    if crate::node::save_gives(storage, state, Some(e)) {
        let (s, outcome) = choose|s: &mut S, outcome: Result<(), StorageError>|
            *s == storage && crate::node::failure(outcome) == Some(e) && #[trigger] call_ensures(
                S::save_hard_state,
                (s, &state),
                outcome,
            );
        assert(outcome == Err::<(), StorageError>(e));
        assert(call_ensures(S::save_hard_state, (s, &state), Err::<(), StorageError>(e)));
    } else if crate::node::index_fails(storage, e) {
        assert(call_ensures(S::last_log_index, (&storage,), Err::<u64, StorageError>(e)));
    } else {
        assert(call_ensures(S::last_log_term, (&storage,), Err::<u64, StorageError>(e)));
    }
}

/// The comparison of logs: the later term wins, and between equal terms the longer
/// log. It fails only where the storage cannot say how its own log ends.
pub proof fn law_up_to_date_check<S, T, SM>(
    node: RaftNode<S, T, SM>,
    term: u64,
    index: u64,
    r: Result<bool, StorageError>,
) where
    S: Storage + Send + Sync + 'static,
    T: Transport + Clone + Send + Sync + 'static,
    SM: StateMachine<Command = CommandPayload> + Send + Sync + 'static,

    requires
        call_ensures(RaftNode::<S, T, SM>::is_log_up_to_date, (&node, term, index), r),
    ensures
        node.storage.reliable() ==> r is Ok,
        r matches Ok(b) ==> (b <==> term > end_term(node.storage.log()) || (term == end_term(
            node.storage.log(),
        ) && index >= end_index(node.storage.log()))),
        r matches Err(e) ==> call_ensures(
            S::last_log_term,
            (&node.storage,),
            Err::<u64, StorageError>(e),
        ) || call_ensures(S::last_log_index, (&node.storage,), Err::<u64, StorageError>(e)),
{
}

/// The comparison of the ends of two logs.
pub proof fn law_log_comparison(
    their_term: u64,
    their_index: u64,
    our_term: u64,
    our_index: u64,
    r: bool,
)
    requires
        call_ensures(
            crate::node::log_is_up_to_date,
            (their_term, their_index, our_term, our_index),
            r,
        ),
    ensures
        their_term > our_term ==> r,
        their_term < our_term ==> !r,
        their_term == our_term ==> (r <==> their_index >= our_index),
{
}

/// Taking note of a term: an older one is ignored, a newer one is taken over without
/// a vote, and in both the same and a newer one the node follows the given leader
/// and has no votes. Neither the storage nor the timer is touched.
pub proof fn law_noted_term<S, T, SM>(
    before: RaftNode<S, T, SM>,
    after: RaftNode<S, T, SM>,
    term: u64,
    leader_id: Option<NodeId>,
    r: TermChange,
) where
    S: Storage + Send + Sync + 'static,
    T: Transport + Clone + Send + Sync + 'static,
    SM: StateMachine<Command = CommandPayload> + Send + Sync + 'static,

    requires
        exists|n: &mut RaftNode<S, T, SM>|
            *n == before && *final(n) == after && #[trigger] call_ensures(
                RaftNode::<S, T, SM>::adopt_term,
                (n, term, leader_id),
                r,
            ),
    ensures
        r == TermChange::Stale <==> term < before.state.hard_state.term,
        r == TermChange::Same <==> term == before.state.hard_state.term,
        r == TermChange::Newer <==> term > before.state.hard_state.term,
        r == TermChange::Stale ==> after == before,
        r != TermChange::Stale ==> {
            &&& same_parts(before, after)
            &&& same_peers(before.state, after.state)
            &&& after.storage == before.storage
            &&& after.timer == before.timer
            &&& after.state.hard_state.term == term
            &&& after.state.hard_state.voted_for == if term > before.state.hard_state.term {
                0
            } else {
                before.state.hard_state.voted_for
            }
            &&& after.state.server.role == Role::Follower
            &&& after.state.server.leader_id == leader_id
            &&& forall|p: NodeId| !after.votes_received@.contains(p)
        },
{
    if term >= before.state.hard_state.term {
        assert(after@.state.log == before@.state.log);
        lemma_same_entries(before.state.log@, after.state.log@);
        assert(after@.votes =~= Set::<NodeId>::empty());
    }
}

/// After a save, its outcome is handed on; only the timer changes, which is restarted
/// exactly if the save succeeded.
pub proof fn law_timer_after_save<S, T, SM>(
    before: RaftNode<S, T, SM>,
    after: RaftNode<S, T, SM>,
    outcome: Result<(), StorageError>,
    r: Result<(), StorageError>,
) where
    S: Storage + Send + Sync + 'static,
    T: Transport + Clone + Send + Sync + 'static,
    SM: StateMachine<Command = CommandPayload> + Send + Sync + 'static,

    requires
        exists|n: &mut RaftNode<S, T, SM>|
            *n == before && *final(n) == after && #[trigger] call_ensures(
                RaftNode::<S, T, SM>::after_save,
                (n, outcome),
                r,
            ),
    ensures
        r == outcome,
        same_parts(before, after),
        after.state == before.state,
        after.storage == before.storage,
        after.votes_received == before.votes_received,
        outcome is Ok ==> restarted(before, after),
        outcome is Err ==> after.timer == before.timer,
{
    lemma_same_entries(before.state.log@, after.state.log@);
}

/// A timer that is reset gets a timeout from the base up to, but not including, the
/// sum of the base and what may be added; the one that ran is signalled, and the
/// receiver that comes back is the one that the new timer notifies.
pub proof fn law_reset_timer<S, T, SM>(
    before: RaftNode<S, T, SM>,
    after: RaftNode<S, T, SM>,
    r: (tokio::sync::oneshot::Receiver<()>, u64),
) where
    S: Storage + Send + Sync + 'static,
    T: Transport + Clone + Send + Sync + 'static,
    SM: StateMachine<Command = CommandPayload> + Send + Sync + 'static,

    requires
        exists|n: &mut RaftNode<S, T, SM>|
            *n == before && *final(n) == after && #[trigger] call_ensures(
                RaftNode::<S, T, SM>::reset_election_timer,
                (n,),
                r,
            ),
    ensures
        same_parts(before, after),
        after.state == before.state,
        after.storage == before.storage,
        after.votes_received == before.votes_received,
        restarted(before, after),
        after.timer.duration() == r.1,
        after.timer.notifies(r.0),
{
    lemma_same_entries(before.state.log@, after.state.log@);
}

/// Standing for election: the node enters the next term with its own vote and no
/// other. Neither the storage nor the timer is touched.
pub proof fn law_stood_for_election<S, T, SM>(
    before: RaftNode<S, T, SM>,
    after: RaftNode<S, T, SM>,
) where
    S: Storage + Send + Sync + 'static,
    T: Transport + Clone + Send + Sync + 'static,
    SM: StateMachine<Command = CommandPayload> + Send + Sync + 'static,

    requires
        before.state.hard_state.term < u64::MAX,
        exists|n: &mut RaftNode<S, T, SM>|
            *n == before && *final(n) == after && #[trigger] call_ensures(
                RaftNode::<S, T, SM>::stand_for_election,
                (n,),
                (),
            ),
    ensures
        same_parts(before, after),
        same_peers(before.state, after.state),
        after.storage == before.storage,
        after.timer == before.timer,
        after.state.hard_state.term == before.state.hard_state.term + 1,
        after.state.hard_state.voted_for == before.config.id,
        after.state.server.role == Role::Candidate,
        after.state.server.leader_id is None,
        forall|p: NodeId| after.votes_received@.contains(p) <==> p == before.config.id,
{
    assert(after@.state.log == before@.state.log);
    lemma_same_entries(before.state.log@, after.state.log@);
    assert(after@.votes =~= Set::<NodeId>::empty().insert(before.config.id));
}

/// Claiming the leadership: only a candidate does, and it changes nothing but the
/// role, the known leader and the votes.
pub proof fn law_claimed_leadership<S, T, SM>(
    before: RaftNode<S, T, SM>,
    after: RaftNode<S, T, SM>,
    r: bool,
) where
    S: Storage + Send + Sync + 'static,
    T: Transport + Clone + Send + Sync + 'static,
    SM: StateMachine<Command = CommandPayload> + Send + Sync + 'static,

    requires
        exists|n: &mut RaftNode<S, T, SM>|
            *n == before && *final(n) == after && #[trigger] call_ensures(
                RaftNode::<S, T, SM>::claim_leadership,
                (n,),
                r,
            ),
    ensures
        r <==> before.state.server.role == Role::Candidate,
        !r ==> after == before,
        r ==> {
            &&& same_parts(before, after)
            &&& same_peers(before.state, after.state)
            &&& after.state.hard_state == before.state.hard_state
            &&& after.storage == before.storage
            &&& after.timer == before.timer
            &&& after.state.server.role == Role::Leader
            &&& after.state.server.leader_id == Some(before.config.id)
            &&& forall|p: NodeId| !after.votes_received@.contains(p)
        },
{
    if r {
        assert(after@.state.log == before@.state.log);
        lemma_same_entries(before.state.log@, after.state.log@);
        assert(after@.votes =~= Set::<NodeId>::empty());
    }
}

/// Preparing the bookkeeping of a leader: whatever it held before, it holds every
/// other node of the configuration and no further one, with the index behind the
/// given one to be sent and nothing known to be stored. The timer is stopped.
pub proof fn law_tracked_peers<S, T, SM>(
    before: RaftNode<S, T, SM>,
    after: RaftNode<S, T, SM>,
    last_log_index: u64,
) where
    S: Storage + Send + Sync + 'static,
    T: Transport + Clone + Send + Sync + 'static,
    SM: StateMachine<Command = CommandPayload> + Send + Sync + 'static,

    requires
        last_log_index < u64::MAX,
        exists|n: &mut RaftNode<S, T, SM>|
            *n == before && *final(n) == after && #[trigger] call_ensures(
                RaftNode::<S, T, SM>::track_peers,
                (n, last_log_index),
                (),
            ),
    ensures
        same_parts(before, after),
        after.state.hard_state == before.state.hard_state,
        after.state.server == before.state.server,
        after.storage == before.storage,
        after.votes_received == before.votes_received,
        !after.timer.armed(),
        before.timer.armed() ==> before.timer.signalled(),
        forall|p: NodeId| #[trigger]
            after.state.leader.next_index@.contains_key(p) <==> p != before.config.id
                && before.config.peers@.contains_key(p),
        forall|p: NodeId| #[trigger]
            after.state.leader.match_index@.contains_key(p) <==> p != before.config.id
                && before.config.peers@.contains_key(p),
        forall|p: NodeId|
            after.state.leader.next_index@.contains_key(p)
                ==> #[trigger] after.state.leader.next_index@[p] == last_log_index + 1,
        forall|p: NodeId|
            after.state.leader.match_index@.contains_key(p)
                ==> #[trigger] after.state.leader.match_index@[p] == 0,
{
    assert(after.state@.log == before.state@.log);
    lemma_same_entries(before.state.log@, after.state.log@);
    let others = before.config.others();
    assert forall|p: NodeId| others.contains(p) <==> p != before.config.id
        && before.config.peers@.contains_key(p) by {}
    assert(after.state.leader.next_index@ == after.state@.next_index);
    assert(after.state.leader.match_index@ == after.state@.match_index);
}

/// Deciding on a vote: it is given exactly if the log is good and the vote is free or
/// already this candidate's; it has to be saved exactly if it is given and was not
/// this candidate's before. A vote that is given is recorded and restarts the timer,
/// and one that is not changes nothing.
pub proof fn law_decided_vote<S, T, SM>(
    before: RaftNode<S, T, SM>,
    after: RaftNode<S, T, SM>,
    candidate_id: NodeId,
    log_is_ok: bool,
    r: VoteDecision,
) where
    S: Storage + Send + Sync + 'static,
    T: Transport + Clone + Send + Sync + 'static,
    SM: StateMachine<Command = CommandPayload> + Send + Sync + 'static,

    requires
        exists|n: &mut RaftNode<S, T, SM>|
            *n == before && *final(n) == after && #[trigger] call_ensures(
                RaftNode::<S, T, SM>::decide_vote,
                (n, candidate_id, log_is_ok),
                r,
            ),
    ensures
        r.granted <==> log_is_ok && (before.state.hard_state.voted_for == 0
            || before.state.hard_state.voted_for == candidate_id),
        r.persist <==> r.granted && before.state.hard_state.voted_for != candidate_id,
        !r.granted ==> after == before,
        r.granted ==> {
            &&& same_parts(before, after)
            &&& same_peers(before.state, after.state)
            &&& after.storage == before.storage
            &&& after.state.server == before.state.server
            &&& forall|p: NodeId|
                after.votes_received@.contains(p) <==> before.votes_received@.contains(p)
            &&& after.state.hard_state.term == before.state.hard_state.term
            &&& after.state.hard_state.voted_for == candidate_id
            &&& restarted(before, after)
        },
{
    if r.granted {
        assert(after@.state.log == before@.state.log);
        lemma_same_entries(before.state.log@, after.state.log@);
        assert(after@.votes =~= before@.votes);
    }
}

/// The number of nodes in the cluster of a configuration: those that it names and
/// the node itself.
pub open spec fn cluster_size(config: Config) -> nat {
    config.peers@.dom().insert(config.id).len()
}

/// How many of the first `k` replies grant the vote.
pub open spec fn yes_votes(replies: Seq<Option<RequestVoteResponse>>, k: int) -> nat
    decreases k,
{
    if k <= 0 || replies.len() == 0 {
        0
    } else {
        let rest = yes_votes(replies.drop_first(), k - 1);
        match replies[0] {
            Some(response) => if response.vote_granted {
                1 + rest
            } else {
                rest
            },
            None => rest,
        }
    }
}

/// Whether the reply at `k` carries a term newer than `term`.
pub open spec fn is_newer(replies: Seq<Option<RequestVoteResponse>>, k: int, term: u64) -> bool {
    replies[k] matches Some(response) && response.term > term
}

/// Whether the votes are more than half of the cluster with the reply at `k`.
pub open spec fn is_majority(
    replies: Seq<Option<RequestVoteResponse>>,
    k: int,
    votes: nat,
    size: nat,
) -> bool {
    2 * (votes + yes_votes(replies, k + 1)) > size
}

/// Whether the reply at `k` carries a newer term or completes a majority.
pub open spec fn settles(
    replies: Seq<Option<RequestVoteResponse>>,
    k: int,
    term: u64,
    votes: nat,
    size: nat,
) -> bool {
    is_newer(replies, k, term) || is_majority(replies, k, votes, size)
}

/// Whether the reply at `k` is the first that decides: no earlier one carries a
/// newer term or completes a majority, and this one does.
pub open spec fn decides(
    replies: Seq<Option<RequestVoteResponse>>,
    k: int,
    term: u64,
    votes: nat,
    size: nat,
) -> bool {
    &&& 0 <= k < replies.len()
    &&& settles(replies, k, term, votes, size)
    &&& forall|j: int| 0 <= j < k ==> !(#[trigger] settles(replies, j, term, votes, size))
}

/// Whether no reply decides.
pub open spec fn undecided(
    replies: Seq<Option<RequestVoteResponse>>,
    term: u64,
    votes: nat,
    size: nat,
) -> bool {
    forall|j: int|
        0 <= j < replies.len() ==> !(#[trigger] settles(replies, j, term, votes, size))
}

/// A tally stops at the first reply that decides, and does what that reply asks for.
proof fn lemma_tally_decided(
    node: crate::election::NodeView,
    ballot: crate::election::Ballot,
    votes: nat,
    size: nat,
    replies: Seq<Option<RequestVoteResponse>>,
    after: crate::election::NodeView,
    ok: bool,
    k: int,
)
    requires
        ballot.quorum == size / 2 + 1,
        crate::election::tallied(node, ballot, votes, replies, after, ok),
        decides(replies, k, node.term(), votes, size),
    ensures
        is_newer(replies, k, node.term()) ==> after == crate::election::stepped_down(
            node,
            replies[k]->Some_0.term,
            ok,
        ),
        !is_newer(replies, k, node.term()) ==> after == crate::election::won(node, ballot, ok),
    decreases k,
{
    let term = node.term();
    let rest = replies.drop_first();
    let first: nat = if replies[0] matches Some(response) && response.vote_granted {
        1
    } else {
        0
    };
    assert(yes_votes(replies, 1) == first) by {
        assert(yes_votes(rest, 0) == 0);
    }
    if k > 0 {
        assert(!settles(replies, 0, term, votes, size));
        assert(yes_votes(replies, k + 1) == first + yes_votes(rest, k));
        assert(rest[k - 1] == replies[k]);
        assert forall|j: int| 0 <= j < k - 1 implies !(#[trigger] settles(
            rest,
            j,
            term,
            votes + first,
            size,
        )) by {
            assert(rest[j] == replies[j + 1]);
            assert(!settles(replies, j + 1, term, votes, size));
            assert(yes_votes(replies, j + 2) == first + yes_votes(rest, j + 1));
        }
        assert(decides(rest, k - 1, term, votes + first, size));
        lemma_tally_decided(node, ballot, votes + first, size, rest, after, ok, k - 1);
    }
}

/// A tally that no reply decides changes nothing.
proof fn lemma_tally_undecided(
    node: crate::election::NodeView,
    ballot: crate::election::Ballot,
    votes: nat,
    size: nat,
    replies: Seq<Option<RequestVoteResponse>>,
    after: crate::election::NodeView,
    ok: bool,
)
    requires
        ballot.quorum == size / 2 + 1,
        crate::election::tallied(node, ballot, votes, replies, after, ok),
        undecided(replies, node.term(), votes, size),
    ensures
        ok,
        after == node,
    decreases replies.len(),
{
    let term = node.term();
    if replies.len() > 0 {
        let rest = replies.drop_first();
        let first: nat = if replies[0] matches Some(response) && response.vote_granted {
            1
        } else {
            0
        };
        assert(yes_votes(replies, 1) == first) by {
            assert(yes_votes(rest, 0) == 0);
        }
        assert(!settles(replies, 0, term, votes, size));
        assert forall|j: int| 0 <= j < rest.len() implies !(#[trigger] settles(
            rest,
            j,
            term,
            votes + first,
            size,
        )) by {
            assert(rest[j] == replies[j + 1]);
            assert(!settles(replies, j + 1, term, votes, size));
            assert(yes_votes(replies, j + 2) == first + yes_votes(rest, j + 1));
        }
        lemma_tally_undecided(node, ballot, votes + first, size, rest, after, ok);
    }
}

/// A reply that settles an election is the first to do so, or comes after that one.
proof fn lemma_first_decision(
    replies: Seq<Option<RequestVoteResponse>>,
    term: u64,
    votes: nat,
    size: nat,
    j: int,
)
    requires
        0 <= j < replies.len(),
        settles(replies, j, term, votes, size),
    ensures
        exists|k: int| decides(replies, k, term, votes, size),
    decreases j,
{
    if exists|i: int| 0 <= i < j && #[trigger] settles(replies, i, term, votes, size) {
        let i = choose|i: int| 0 <= i < j && #[trigger] settles(replies, i, term, votes, size);
        lemma_first_decision(replies, term, votes, size, i);
    } else {
        assert(decides(replies, j, term, votes, size));
    }
}

/// Either no reply decides, or one of them is the first to do so.
proof fn lemma_decided_or_not(
    replies: Seq<Option<RequestVoteResponse>>,
    term: u64,
    votes: nat,
    size: nat,
)
    ensures
        undecided(replies, term, votes, size) || exists|k: int|
            decides(replies, k, term, votes, size),
{
    if !undecided(replies, term, votes, size) {
        let j = choose|j: int|
            0 <= j < replies.len() && #[trigger] settles(replies, j, term, votes, size);
        lemma_first_decision(replies, term, votes, size, j);
    }
}

/// Whether a candidate has come out of an election as it must: it stepped down to
/// the newer term of the deciding reply, or leads, or stays as it was, with its
/// storage in line.
pub open spec fn election_result<S, T, SM>(
    candidate: RaftNode<S, T, SM>,
    after: RaftNode<S, T, SM>,
    replies: Seq<Option<RequestVoteResponse>>,
    votes: nat,
) -> bool where
    S: Storage + Send + Sync + 'static,
    T: Transport + Clone + Send + Sync + 'static,
    SM: StateMachine<Command = CommandPayload> + Send + Sync + 'static,
 {
    let term = candidate.state.hard_state.term;
    let size = cluster_size(candidate.config);
    &&& same_parts(candidate, after)
    &&& after.storage.log() == candidate.storage.log()
    &&& undecided(replies, term, votes, size) ==> {
        &&& after.state.hard_state == candidate.state.hard_state
        &&& after.state.server == candidate.state.server
        &&& same_peers(candidate.state, after.state)
        &&& forall|p: NodeId|
            after.votes_received@.contains(p) <==> candidate.votes_received@.contains(p)
        &&& after.storage == candidate.storage
        &&& after.timer == candidate.timer
    }
    &&& forall|k: int| #[trigger]
        decides(replies, k, term, votes, size) ==> if is_newer(replies, k, term) {
            &&& after.state.hard_state.term == replies[k]->Some_0.term
            &&& after.state.hard_state.voted_for == 0
            &&& after.state.server.role == Role::Follower
            &&& after.state.server.leader_id is None
            &&& forall|p: NodeId| !after.votes_received@.contains(p)
            &&& same_peers(candidate.state, after.state)
            &&& after.storage.hard_state() == after.state.hard_state
            &&& running(candidate) ==> restarted(candidate, after)
        } else {
            &&& after.state.hard_state == candidate.state.hard_state
            &&& after.state.server.role == Role::Leader
            &&& after.state.server.leader_id == Some(candidate.config.id)
            &&& forall|p: NodeId| !after.votes_received@.contains(p)
            &&& fresh_peers(candidate.config, candidate.storage.log(), after.state)
            &&& after.storage == candidate.storage
            &&& !after.timer.armed()
            &&& candidate.timer.armed() ==> candidate.timer.signalled()
        }
    &&& undecided(replies, term, votes, size) || exists|k: int|
        decides(replies, k, term, votes, size)
}

/// Counting replies: the first one that carries a newer term, or that makes the
/// votes more than half of the cluster, decides; where both hold of one reply, the
/// newer term counts. Without such a reply the candidate stays as it is.
pub proof fn law_tally<S, T, SM>(
    before: RaftNode<S, T, SM>,
    after: RaftNode<S, T, SM>,
    election: Election,
    replies: Vec<Option<RequestVoteResponse>>,
    r: Result<(), StorageError>,
) where
    S: Storage + Send + Sync + 'static,
    T: Transport + Clone + Send + Sync + 'static,
    SM: StateMachine<Command = CommandPayload> + Send + Sync + 'static,

    requires
        before.state.server.role == Role::Candidate,
        before.state.hard_state.term == election.request.term,
        election.votes < usize::MAX,
        2 * election.required > cluster_size(before.config),
        2 * (election.required - 1) <= cluster_size(before.config),
        end_index(before.storage.log()) < u64::MAX,
        exists|n: &mut RaftNode<S, T, SM>|
            *n == before && *final(n) == after && #[trigger] call_ensures(
                RaftNode::<S, T, SM>::tally,
                (n, election, &replies),
                r,
            ),
    ensures
        before.storage.reliable() ==> r is Ok,
        r is Ok ==> election_result(before, after, replies@, election.votes as nat),
        r matches Err(e) ==> {
            let term = before.state.hard_state.term;
            &&& gives::<S>(e)
            &&& same_parts(before, after)
            &&& same_peers(before.state, after.state)
            &&& after.timer == before.timer
            &&& exists|k: int| #[trigger]
                decides(
                    replies@,
                    k,
                    term,
                    election.votes as nat,
                    cluster_size(before.config),
                ) && if is_newer(replies@, k, term) {
                    &&& after.state.hard_state.term == replies@[k]->Some_0.term
                    &&& after.state.hard_state.voted_for == 0
                    &&& after.state.server.role == Role::Follower
                    &&& after.state.server.leader_id is None
                } else {
                    &&& after.state.hard_state == before.state.hard_state
                    &&& after.storage == before.storage
                    &&& after.state.server.role == Role::Leader
                    &&& after.state.server.leader_id == Some(before.config.id)
                }
        },
{
    if let Err(e) = r {
        let term = before.state.hard_state.term;
        let size = cluster_size(before.config);
        let votes = election.votes as nat;
        let ballot = before.ballot();
        lemma_decided_or_not(replies@, term, votes, size);
        if undecided(replies@, term, votes, size) {
            lemma_tally_undecided(before@, ballot, votes, size, replies@, after@, false);
        }
        let k = choose|k: int| decides(replies@, k, term, votes, size);
        lemma_tally_decided(before@, ballot, votes, size, replies@, after@, false, k);
        assert(after@.state.log == before@.state.log);
        lemma_same_entries(before.state.log@, after.state.log@);
        lemma_gives(before.storage, after.state.hard_state, e);
    }
    if r is Ok {
        let term = before.state.hard_state.term;
        let size = cluster_size(before.config);
        let votes = election.votes as nat;
        let ballot = before.ballot();
        assert(ballot.quorum == size / 2 + 1);
        lemma_decided_or_not(replies@, term, votes, size);
        if undecided(replies@, term, votes, size) {
            lemma_tally_undecided(before@, ballot, votes, size, replies@, after@, true);
        }
        assert forall|k: int| #[trigger] decides(replies@, k, term, votes, size) implies (
        is_newer(replies@, k, term) ==> after@ == crate::election::stepped_down(
            before@,
            replies@[k]->Some_0.term,
            true,
        )) && (!is_newer(replies@, k, term) ==> after@ == crate::election::won(
            before@,
            ballot,
            true,
        )) by {
            lemma_tally_decided(before@, ballot, votes, size, replies@, after@, true, k);
        }
        lemma_election_result(before, after, replies@, votes, r);
    }
}

/// A node that carried out the decision of a tally is in the state that the decision
/// asks for.
proof fn lemma_election_result<S, T, SM>(
    before: RaftNode<S, T, SM>,
    after: RaftNode<S, T, SM>,
    replies: Seq<Option<RequestVoteResponse>>,
    votes: nat,
    r: Result<(), StorageError>,
) where
    S: Storage + Send + Sync + 'static,
    T: Transport + Clone + Send + Sync + 'static,
    SM: StateMachine<Command = CommandPayload> + Send + Sync + 'static,

    requires
        before.state.server.role == Role::Candidate,
        end_index(before.storage.log()) < u64::MAX,
        after.same_setup(&before),
        after.carried_out(before.storage, before.timer, before.state.hard_state, r),
        r is Ok,
        before.timer_runs() && after.state.server.role != Role::Leader ==> after.timer_runs(),
        ({
            let term = before.state.hard_state.term;
            let size = cluster_size(before.config);
            &&& undecided(replies, term, votes, size) ==> after@ == before@
            &&& undecided(replies, term, votes, size) || exists|k: int|
                decides(replies, k, term, votes, size)
            &&& forall|k: int| #[trigger]
                decides(replies, k, term, votes, size) ==> if is_newer(replies, k, term) {
                    after@ == crate::election::stepped_down(before@, replies[k]->Some_0.term, true)
                } else {
                    after@ == crate::election::won(before@, before.ballot(), true)
                }
        }),
    ensures
        election_result(before, after, replies, votes),
{
    let term = before.state.hard_state.term;
    let size = cluster_size(before.config);
    assert(after@.state.log == before@.state.log);
    lemma_same_entries(before.state.log@, after.state.log@);
    assert forall|k: int| #[trigger] decides(replies, k, term, votes, size) implies if is_newer(
        replies,
        k,
        term,
    ) {
        &&& forall|p: NodeId| !after.votes_received@.contains(p)
    } else {
        &&& fresh_peers(before.config, before.storage.log(), after.state)
        &&& forall|p: NodeId| !after.votes_received@.contains(p)
    } by {
        assert(after@.votes =~= Set::<NodeId>::empty());
        if !is_newer(replies, k, term) {
            lemma_fresh_peers(before, after);
        }
    }
}

/// Starting an election: a leader starts none and stays as it is. Any other node
/// becomes a candidate; if its own vote is more than half of the cluster it leads at
/// once, and otherwise it asks every other node of the configuration once, with its
/// new term, its identifier and the end of its log, starts with one vote, and needs
/// the smallest number of votes that is more than half of the cluster.
pub proof fn law_begun_election<S, T, SM>(
    before: RaftNode<S, T, SM>,
    after: RaftNode<S, T, SM>,
    r: Result<Option<Election>, StorageError>,
) where
    S: Storage + Send + Sync + 'static,
    T: Transport + Clone + Send + Sync + 'static,
    SM: StateMachine<Command = CommandPayload> + Send + Sync + 'static,

    requires
        before.state.hard_state.term < u64::MAX,
        end_index(before.storage.log()) < u64::MAX,
        exists|n: &mut RaftNode<S, T, SM>|
            *n == before && *final(n) == after && #[trigger] call_ensures(
                RaftNode::<S, T, SM>::begin_election,
                (n,),
                r,
            ),
    ensures
        before.storage.reliable() ==> r is Ok,
        before.state.server.role == Role::Leader ==> after == before && r == Ok::<
            Option<Election>,
            StorageError,
        >(None),
        before.state.server.role != Role::Leader ==> {
            let id = before.config.id;
            let size = cluster_size(before.config);
            &&& same_parts(before, after)
            &&& after.state.hard_state.term == before.state.hard_state.term + 1
            &&& after.state.hard_state.voted_for == id
            &&& r is Ok ==> after.storage.hard_state() == after.state.hard_state
                && after.storage.log() == before.storage.log()
            &&& r is Ok ==> (before.timer.armed() ==> before.timer.signalled())
            &&& r matches Err(e) ==> {
                &&& gives::<S>(e)
                &&& same_peers(before.state, after.state)
                &&& after.state.server.role == Role::Candidate || (size < 2
                    && after.state.server.role == Role::Leader)
                &&& after.timer == before.timer || restarted(before, after)
            }
            &&& r matches Ok(None) ==> {
                &&& size < 2
                &&& after.state.server.role == Role::Leader
                &&& after.state.server.leader_id == Some(id)
                &&& forall|p: NodeId| !after.votes_received@.contains(p)
                &&& fresh_peers(before.config, before.storage.log(), after.state)
                &&& !after.timer.armed()
            }
            &&& r matches Ok(Some(election)) ==> {
                &&& size >= 2
                &&& after.state.server.role == Role::Candidate
                &&& after.state.server.leader_id is None
                &&& forall|p: NodeId| after.votes_received@.contains(p) <==> p == id
                &&& same_peers(before.state, after.state)
                &&& running(after)
                &&& election.request.term == before.state.hard_state.term + 1
                &&& election.request.candidate_id == id
                &&& election.request.last_log_index == end_index(before.storage.log())
                &&& election.request.last_log_term == end_term(before.storage.log())
                &&& election.targets@.no_duplicates()
                &&& forall|p: NodeId|
                    election.targets@.contains(p) <==> p != id && before.config.peers@.contains_key(
                        p,
                    )
                &&& election.votes == 1
                &&& 2 * election.required > size
                &&& 2 * (election.required - 1) <= size
            }
        },
{
    broadcast use vstd::std_specs::hash::group_hash_axioms;

    if before.state.server.role != Role::Leader {
        assert(after@.state.log == before@.state.log);
        lemma_same_entries(before.state.log@, after.state.log@);
        let candidate = before@.candidate(before.config.id);
        let dom = before.config.peers@.dom();
        assert(dom.finite());
        assert(dom.insert(before.config.id).contains(before.config.id));
        assert(dom.insert(before.config.id).len() > 0);
        if let Err(e) = r {
            let state = candidate.state.hard_state;
            if crate::node::save_gives(before.storage, state, Some(e)) {
                lemma_gives(before.storage, state, e);
            } else {
                lemma_gives(after.storage, state, e);
            }
        }
        if let Ok(None) = r {
            assert(after@.votes =~= Set::<NodeId>::empty());
            lemma_fresh_peers(before, after);
        }
        if let Ok(Some(election)) = r {
            assert(after@.votes =~= Set::<NodeId>::empty().insert(before.config.id));
            let targets = election.targets@;
            assert forall|p: NodeId| targets.contains(p) <==> p != before.config.id
                && before.config.peers@.contains_key(p) by {
                assert(targets.to_set().contains(p) <==> targets.contains(p));
            }
        }
    }
}

/// Counting one reply: outside the election nothing happens. A newer term makes the
/// node a follower in it, without a vote, and that is saved. Otherwise a granted vote
/// is counted, and the node leads once the votes reach what is required; until then
/// it stays as it is and the election goes on.
pub proof fn law_counted_reply<S, T, SM>(
    before: RaftNode<S, T, SM>,
    after: RaftNode<S, T, SM>,
    election: Election,
    count: Election,
    reply: Option<RequestVoteResponse>,
    r: Result<bool, StorageError>,
) where
    S: Storage + Send + Sync + 'static,
    T: Transport + Clone + Send + Sync + 'static,
    SM: StateMachine<Command = CommandPayload> + Send + Sync + 'static,

    requires
        election.votes < usize::MAX,
        end_index(before.storage.log()) < u64::MAX,
        exists|n: &mut RaftNode<S, T, SM>, b: &mut Election|
            *n == before && *final(n) == after && *b == election && *final(b) == count
                && #[trigger] call_ensures(
                RaftNode::<S, T, SM>::count_reply,
                (n, b, reply),
                r,
            ),
    ensures
        before.storage.reliable() ==> r is Ok,
        count.request == election.request,
        count.targets == election.targets,
        count.required == election.required,
        ({
            let term = before.state.hard_state.term;
            let taking_part = before.state.server.role == Role::Candidate && term
                == election.request.term;
            let newer = reply matches Some(response) && response.term > term;
            let votes: int = if reply matches Some(response) && response.vote_granted {
                election.votes + 1
            } else {
                election.votes as int
            };
            &&& !taking_part ==> after == before && count.votes == election.votes && r == Ok::<
                bool,
                StorageError,
            >(false)
            &&& taking_part && newer ==> {
                &&& count.votes == election.votes
                &&& same_parts(before, after)
                &&& same_peers(before.state, after.state)
                &&& after.state.hard_state.term == reply->Some_0.term
                &&& after.state.hard_state.voted_for == 0
                &&& after.state.server.role == Role::Follower
                &&& after.state.server.leader_id is None
                &&& forall|p: NodeId| !after.votes_received@.contains(p)
                &&& r matches Ok(goes_on) ==> {
                    &&& !goes_on
                    &&& after.storage.hard_state() == after.state.hard_state
                    &&& after.storage.log() == before.storage.log()
                    &&& restarted(before, after)
                }
                &&& r is Err ==> after.timer == before.timer
            }
            &&& taking_part && !newer && votes >= election.required ==> {
                &&& count.votes == votes
                &&& same_parts(before, after)
                &&& after.state.hard_state == before.state.hard_state
                &&& after.storage == before.storage
                &&& after.state.server.role == Role::Leader
                &&& after.state.server.leader_id == Some(before.config.id)
                &&& forall|p: NodeId| !after.votes_received@.contains(p)
                &&& r matches Ok(goes_on) ==> {
                    &&& !goes_on
                    &&& fresh_peers(before.config, before.storage.log(), after.state)
                    &&& !after.timer.armed()
                    &&& before.timer.armed() ==> before.timer.signalled()
                }
                &&& r is Err ==> after.timer == before.timer
            }
            &&& taking_part && !newer && votes < election.required ==> {
                &&& count.votes == votes
                &&& after == before
                &&& r == Ok::<bool, StorageError>(true)
            }
        }),
{
    let term = before.state.hard_state.term;
    let taking_part = before.state.server.role == Role::Candidate && term == election.request.term;
    if taking_part {
        assert(after@.state.log == before@.state.log);
        lemma_same_entries(before.state.log@, after.state.log@);
        if after@.role() != Role::Candidate {
            assert(after@.votes =~= Set::<NodeId>::empty());
        }
        if after@.role() == Role::Leader && r is Ok {
            lemma_fresh_peers(before, after);
        }
    }
}

/// Asking for votes: every target is sent the request of the election, and what the
/// transport returns for it is the reply, unchanged; only a target for which the
/// transport returns an error has none.
pub proof fn law_requested_votes<S, T, SM>(
    node: RaftNode<S, T, SM>,
    election: Election,
    r: Vec<Option<RequestVoteResponse>>,
) where
    S: Storage + Send + Sync + 'static,
    T: Transport + Clone + Send + Sync + 'static,
    SM: StateMachine<Command = CommandPayload> + Send + Sync + 'static,

    requires
        call_ensures(RaftNode::<S, T, SM>::request_votes, (&node, &election), r),
    ensures
        r@.len() == election.targets@.len(),
        forall|i: int|
            0 <= i < r@.len() ==> heard(
                node.transport,
                election.targets@[i],
                election.request,
                #[trigger] r@[i],
            ),
{
    assert forall|i: int| 0 <= i < r@.len() implies heard(
        node.transport,
        election.targets@[i],
        election.request,
        #[trigger] r@[i],
    ) by {
        lemma_heard(node, election.targets@[i], election.request, r@[i]);
    }
}

/// Whether the transport returned something for a request to `peer` of which `reply`
/// is all that there is: the response itself, or nothing where it was an error.
pub open spec fn heard<T: Transport>(
    transport: T,
    peer: NodeId,
    request: RequestVoteRequest,
    reply: Option<RequestVoteResponse>,
) -> bool {
    exists|answer: Result<RequestVoteResponse, TransportError>|
        {
            &&& #[trigger] call_ensures(
                T::send_request_vote,
                (&transport, peer, request),
                answer,
            )
            &&& answer matches Ok(response) ==> reply == Some(response)
            &&& answer is Err ==> reply is None
        }
}

/// A reply is what the transport returned.
proof fn lemma_heard<S, T, SM>(
    node: RaftNode<S, T, SM>,
    peer: NodeId,
    request: RequestVoteRequest,
    reply: Option<RequestVoteResponse>,
) where
    S: Storage + Send + Sync + 'static,
    T: Transport + Clone + Send + Sync + 'static,
    SM: StateMachine<Command = CommandPayload> + Send + Sync + 'static,

    requires
        node.replied(peer, request, reply),
    ensures
        heard(node.transport, peer, request, reply),
{
    let answer = choose|answer: Result<RequestVoteResponse, TransportError>|
        #![trigger call_ensures(T::send_request_vote, (&node.transport, peer, request), answer)]
        call_ensures(T::send_request_vote, (&node.transport, peer, request), answer) && reply == (
        match answer {
            Ok(response) => Some(response),
            Err(_) => None,
        });
    assert(call_ensures(T::send_request_vote, (&node.transport, peer, request), answer));
}

/// Whether a node has come out of an expired timer as the replies ask for.
pub open spec fn timeout_result<S, T, SM>(
    before: RaftNode<S, T, SM>,
    after: RaftNode<S, T, SM>,
    replies: Seq<Option<RequestVoteResponse>>,
) -> bool where
    S: Storage + Send + Sync + 'static,
    T: Transport + Clone + Send + Sync + 'static,
    SM: StateMachine<Command = CommandPayload> + Send + Sync + 'static,
 {
    let id = before.config.id;
    let term = (before.state.hard_state.term + 1) as u64;
    let size = cluster_size(before.config);
    &&& undecided(replies, term, 1, size) ==> {
        &&& after.state.hard_state.term == term
        &&& after.state.hard_state.voted_for == id
        &&& after.state.server.role == Role::Candidate
        &&& after.state.server.leader_id is None
        &&& forall|p: NodeId| after.votes_received@.contains(p) <==> p == id
        &&& same_peers(before.state, after.state)
        &&& running(after)
    }
    &&& forall|k: int| #[trigger]
        decides(replies, k, term, 1, size) ==> if is_newer(replies, k, term) {
            &&& after.state.hard_state.term == replies[k]->Some_0.term
            &&& after.state.hard_state.voted_for == 0
            &&& after.state.server.role == Role::Follower
            &&& after.state.server.leader_id is None
            &&& forall|p: NodeId| !after.votes_received@.contains(p)
            &&& same_peers(before.state, after.state)
            &&& running(after)
        } else {
            leads(before, after)
        }
    &&& undecided(replies, term, 1, size) || exists|k: int| decides(replies, k, term, 1, size)
}

/// Whether a node leads in the term after the one it was in.
pub open spec fn leads<S, T, SM>(
    before: RaftNode<S, T, SM>,
    after: RaftNode<S, T, SM>,
) -> bool where
    S: Storage + Send + Sync + 'static,
    T: Transport + Clone + Send + Sync + 'static,
    SM: StateMachine<Command = CommandPayload> + Send + Sync + 'static,
 {
    &&& after.state.hard_state.term == before.state.hard_state.term + 1
    &&& after.state.hard_state.voted_for == before.config.id
    &&& after.state.server.role == Role::Leader
    &&& after.state.server.leader_id == Some(before.config.id)
    &&& forall|p: NodeId| !after.votes_received@.contains(p)
    &&& fresh_peers(before.config, before.storage.log(), after.state)
    &&& !after.timer.armed()
}

/// Whether `targets` are the nodes that `before` asks when its timer expires, each
/// once, and `replies` are what came back for the request that it sends them.
pub open spec fn polls<S, T, SM>(
    before: RaftNode<S, T, SM>,
    targets: Seq<NodeId>,
    replies: Seq<Option<RequestVoteResponse>>,
) -> bool where
    S: Storage + Send + Sync + 'static,
    T: Transport + Clone + Send + Sync + 'static,
    SM: StateMachine<Command = CommandPayload> + Send + Sync + 'static,
 {
    let request = RequestVoteRequest {
        term: (before.state.hard_state.term + 1) as u64,
        candidate_id: before.config.id,
        last_log_index: end_index(before.storage.log()),
        last_log_term: end_term(before.storage.log()),
    };
    &&& targets.no_duplicates()
    &&& forall|p: NodeId| #[trigger]
        targets.contains(p) <==> p != before.config.id && before.config.peers@.contains_key(p)
    &&& replies.len() == targets.len()
    &&& forall|i: int|
        0 <= i < replies.len() ==> heard(
            before.transport,
            targets[i],
            request,
            #[trigger] replies[i],
        )
}

/// The expiry of the election timer: a leader ignores it. Any other node stands in
/// the next term. If its own vote is more than half of the cluster, it leads.
/// Otherwise it asks every other node once, and the replies that the transport
/// returned decide: the first one with a newer term makes it a follower in that term,
/// without a vote, unless the votes were more than half of the cluster before, in
/// which case it leads; without either it stays a candidate. What it is then in is
/// saved, and the timer that had expired is signalled.
pub proof fn law_expired_timer<S, T, SM>(
    before: RaftNode<S, T, SM>,
    after: RaftNode<S, T, SM>,
    r: Result<(), StorageError>,
) where
    S: Storage + Send + Sync + 'static,
    T: Transport + Clone + Send + Sync + 'static,
    SM: StateMachine<Command = CommandPayload> + Send + Sync + 'static,

    requires
        before.state.hard_state.term < u64::MAX,
        end_index(before.storage.log()) < u64::MAX,
        exists|n: &mut RaftNode<S, T, SM>|
            *n == before && *final(n) == after && #[trigger] call_ensures(
                RaftNode::<S, T, SM>::handle_election_timeout,
                (n,),
                r,
            ),
    ensures
        before.storage.reliable() ==> r is Ok,
        before.state.server.role == Role::Leader ==> r is Ok && after == before,
        before.state.server.role != Role::Leader && r is Ok ==> {
            &&& same_parts(before, after)
            &&& after.storage.hard_state() == after.state.hard_state
            &&& after.storage.log() == before.storage.log()
            &&& before.timer.armed() ==> before.timer.signalled()
            &&& if cluster_size(before.config) < 2 {
                leads(before, after)
            } else {
                exists|targets: Seq<NodeId>, replies: Seq<Option<RequestVoteResponse>>| #[trigger]
                    polls(before, targets, replies) && timeout_result(before, after, replies)
            }
        },
        r matches Err(e) ==> {
            let id = before.config.id;
            let term = before.state.hard_state.term + 1;
            &&& gives::<S>(e)
            &&& same_parts(before, after)
            &&& same_peers(before.state, after.state)
            &&& after.timer == before.timer || restarted(before, after)
            &&& match after.state.server.role {
                Role::Candidate => {
                    &&& after.state.hard_state.term == term
                    &&& after.state.hard_state.voted_for == id
                    &&& after.state.server.leader_id is None
                    &&& forall|p: NodeId| after.votes_received@.contains(p) <==> p == id
                },
                Role::Leader => {
                    &&& after.state.hard_state.term == term
                    &&& after.state.hard_state.voted_for == id
                    &&& after.state.server.leader_id == Some(id)
                    &&& forall|p: NodeId| !after.votes_received@.contains(p)
                },
                Role::Follower => {
                    &&& after.state.hard_state.term > term
                    &&& after.state.hard_state.voted_for == 0
                    &&& after.state.server.leader_id is None
                    &&& forall|p: NodeId| !after.votes_received@.contains(p)
                },
            }
        },
{
    if let Err(e) = r {
        lemma_failed_timeout(before, after, e);
    }
    broadcast use vstd::std_specs::hash::group_hash_axioms;

    if before.state.server.role != Role::Leader && r is Ok {
        let id = before.config.id;
        let candidate = before@.candidate(id);
        let size = cluster_size(before.config);
        let dom = before.config.peers@.dom();
        assert(dom.finite());
        assert(dom.insert(id).contains(id));
        assert(dom.insert(id).len() > 0);
        assert(after.after_timeout(&before, r));
        if before.config.quorum() == 1 {
            assert(after@ == crate::election::won(candidate, before.ballot(), true));
            assert(after@.state.log == before@.state.log);
            lemma_same_entries(before.state.log@, after.state.log@);
            assert(after@.votes =~= Set::<NodeId>::empty());
            lemma_fresh_peers(before, after);
        } else {
            assert(before.polled(candidate, after@, true));
            let request = RequestVoteRequest {
                term: candidate.term(),
                candidate_id: id,
                last_log_index: crate::log::last_index(before.storage.log()),
                last_log_term: crate::log::last_term(before.storage.log()),
            };
            let (targets, replies) = choose|
                targets: Seq<NodeId>,
                replies: Seq<Option<RequestVoteResponse>>,
            |
                {
                    &&& targets.no_duplicates()
                    &&& targets.to_set() == before.config.others()
                    &&& replies.len() == targets.len()
                    &&& forall|i: int|
                        0 <= i < replies.len() ==> before.replied(
                            targets[i],
                            request,
                            #[trigger] replies[i],
                        )
                    &&& #[trigger] before.tallied_from(candidate, targets, replies, after@, true)
                };
            assert forall|p: NodeId| #[trigger] targets.contains(p) <==> p != id
                && before.config.peers@.contains_key(p) by {
                assert(targets.to_set().contains(p) <==> targets.contains(p));
            }
            assert forall|i: int| 0 <= i < replies.len() implies heard(
                before.transport,
                targets[i],
                request,
                #[trigger] replies[i],
            ) by {
                lemma_heard(before, targets[i], request, replies[i]);
            }
            assert(polls(before, targets, replies));
            lemma_timeout_result(before, after, replies);
        }
    }
}

/// What an election that an expired timer started leaves behind when the storage
/// fails.
proof fn lemma_failed_timeout<S, T, SM>(
    before: RaftNode<S, T, SM>,
    after: RaftNode<S, T, SM>,
    e: StorageError,
) where
    S: Storage + Send + Sync + 'static,
    T: Transport + Clone + Send + Sync + 'static,
    SM: StateMachine<Command = CommandPayload> + Send + Sync + 'static,

    requires
        before.state.hard_state.term < u64::MAX,
        after.same_setup(&before),
        after.after_timeout(&before, Err(e)),
    ensures
        ({
            let id = before.config.id;
            let term = before.state.hard_state.term + 1;
            &&& gives::<S>(e)
            &&& same_parts(before, after)
            &&& same_peers(before.state, after.state)
            &&& after.timer == before.timer || restarted(before, after)
            &&& match after.state.server.role {
                Role::Candidate => {
                    &&& after.state.hard_state.term == term
                    &&& after.state.hard_state.voted_for == id
                    &&& after.state.server.leader_id is None
                    &&& forall|p: NodeId| after.votes_received@.contains(p) <==> p == id
                },
                Role::Leader => {
                    &&& after.state.hard_state.term == term
                    &&& after.state.hard_state.voted_for == id
                    &&& after.state.server.leader_id == Some(id)
                    &&& forall|p: NodeId| !after.votes_received@.contains(p)
                },
                Role::Follower => {
                    &&& after.state.hard_state.term > term
                    &&& after.state.hard_state.voted_for == 0
                    &&& after.state.server.leader_id is None
                    &&& forall|p: NodeId| !after.votes_received@.contains(p)
                },
            }
        }),
{
    let id = before.config.id;
    let candidate = before@.candidate(id);
    let state = candidate.state.hard_state;
    let r = Err::<(), StorageError>(e);
    if after@ == candidate.with_armed(before@.armed) && after.timer == before.timer
        && crate::node::save_gives(before.storage, state, Some(e)) {
        lemma_gives(before.storage, state, e);
        assert(after@.votes =~= Set::<NodeId>::empty().insert(id));
    } else {
        let (storage, timer) = choose|storage: S, timer: crate::timer::ElectionTimer| #[trigger]
            before.stood(storage) && #[trigger] crate::node::runs_within(before.config, timer)
                && after.after_candidacy(&before, storage, timer, r);
        if after.storage == storage && after.timer == timer && after@ == candidate
            && crate::node::log_end_fails(storage, e) {
            lemma_gives(storage, state, e);
            assert(after@.votes =~= Set::<NodeId>::empty().insert(id));
        } else {
            lemma_gives(storage, after.state.hard_state, e);
            if before.config.quorum() != 1 {
                assert(before.polled(candidate, after@, false));
                let request = RequestVoteRequest {
                    term: candidate.term(),
                    candidate_id: id,
                    last_log_index: crate::log::last_index(before.storage.log()),
                    last_log_term: crate::log::last_term(before.storage.log()),
                };
                let (targets, replies) = choose|
                    targets: Seq<NodeId>,
                    replies: Seq<Option<RequestVoteResponse>>,
                |
                    {
                        &&& targets.no_duplicates()
                        &&& targets.to_set() == before.config.others()
                        &&& replies.len() == targets.len()
                        &&& forall|i: int|
                            0 <= i < replies.len() ==> before.replied(
                                targets[i],
                                request,
                                #[trigger] replies[i],
                            )
                        &&& #[trigger] before.tallied_from(
                            candidate,
                            targets,
                            replies,
                            after@,
                            false,
                        )
                    };
                let size = cluster_size(before.config);
                let ballot = before.ballot();
                lemma_decided_or_not(replies, candidate.term(), 1, size);
                if undecided(replies, candidate.term(), 1, size) {
                    lemma_tally_undecided(candidate, ballot, 1, size, replies, after@, false);
                }
                let k = choose|k: int| decides(replies, k, candidate.term(), 1, size);
                lemma_tally_decided(candidate, ballot, 1, size, replies, after@, false, k);
            }
            assert(after@.votes =~= Set::<NodeId>::empty());
        }
    }
    assert(after@.state.log == before@.state.log);
    lemma_same_entries(before.state.log@, after.state.log@);
}

/// The tally of an election that an expired timer started.
proof fn lemma_timeout_result<S, T, SM>(
    before: RaftNode<S, T, SM>,
    after: RaftNode<S, T, SM>,
    replies: Seq<Option<RequestVoteResponse>>,
) where
    S: Storage + Send + Sync + 'static,
    T: Transport + Clone + Send + Sync + 'static,
    SM: StateMachine<Command = CommandPayload> + Send + Sync + 'static,

    requires
        before.state.hard_state.term < u64::MAX,
        end_index(before.storage.log()) < u64::MAX,
        crate::election::tallied(
            before@.candidate(before.config.id),
            before.ballot(),
            1,
            replies,
            after@,
            true,
        ),
        after.config == before.config,
        after@.role() != Role::Leader ==> after.timer_runs(),
    ensures
        same_rest(before.state, after.state),
        timeout_result(before, after, replies),
{
    let id = before.config.id;
    let candidate = before@.candidate(id);
    let ballot = before.ballot();
    let size = cluster_size(before.config);
    let term = (before.state.hard_state.term + 1) as u64;
    assert(candidate.term() == term);
    assert(ballot.quorum == size / 2 + 1);
    lemma_decided_or_not(replies, term, 1, size);
    if undecided(replies, term, 1, size) {
        lemma_tally_undecided(candidate, ballot, 1, size, replies, after@, true);
        assert(after@.votes =~= Set::<NodeId>::empty().insert(id));
    } else {
        let k = choose|k: int| decides(replies, k, term, 1, size);
        lemma_tally_decided(candidate, ballot, 1, size, replies, after@, true, k);
    }
    assert(after@.state.log == before@.state.log);
    lemma_same_entries(before.state.log@, after.state.log@);
    assert forall|k: int| #[trigger] decides(replies, k, term, 1, size) implies if is_newer(
        replies,
        k,
        term,
    ) {
        &&& after@ == crate::election::stepped_down(candidate, replies[k]->Some_0.term, true)
        &&& forall|p: NodeId| !after.votes_received@.contains(p)
    } else {
        &&& after@ == crate::election::won(candidate, ballot, true)
        &&& forall|p: NodeId| !after.votes_received@.contains(p)
        &&& fresh_peers(before.config, before.storage.log(), after.state)
    } by {
        lemma_tally_decided(candidate, ballot, 1, size, replies, after@, true, k);
        assert(after@.votes =~= Set::<NodeId>::empty());
        if !is_newer(replies, k, term) {
            lemma_fresh_peers(before, after);
        }
    }
}

/// A node whose vote for itself cannot be saved returns the error of the storage,
/// stays a candidate, and leaves its timer alone.
pub proof fn law_unsaved_self_vote_ends_the_election<S, T, SM>(
    before: RaftNode<S, T, SM>,
    after: RaftNode<S, T, SM>,
    e: StorageError,
    r: Result<(), StorageError>,
) where
    S: Storage + Send + Sync + 'static,
    T: Transport + Clone + Send + Sync + 'static,
    SM: StateMachine<Command = CommandPayload> + Send + Sync + 'static,

    requires
        before.state.server.role != Role::Leader,
        before.state.hard_state.term < u64::MAX,
        end_index(before.storage.log()) < u64::MAX,
        forall|s: &mut S, state: &HardState, outcome: Result<(), StorageError>| #[trigger]
            call_ensures(S::save_hard_state, (s, state), outcome) ==> outcome == Err::<
                (),
                StorageError,
            >(e),
        exists|n: &mut RaftNode<S, T, SM>|
            *n == before && *final(n) == after && #[trigger] call_ensures(
                RaftNode::<S, T, SM>::handle_election_timeout,
                (n,),
                r,
            ),
    ensures
        r == Err::<(), StorageError>(e),
        after.state.server.role == Role::Candidate,
        after.state.hard_state.term == before.state.hard_state.term + 1,
        after.timer == before.timer,
{
}

/// A vote or a term that cannot be saved is not answered: the error of the storage
/// comes back instead.
pub proof fn law_unsaved_vote_is_not_given<S, T, SM>(
    before: RaftNode<S, T, SM>,
    after: RaftNode<S, T, SM>,
    request: RequestVoteRequest,
    e: StorageError,
    r: Result<RequestVoteResponse, StorageError>,
) where
    S: Storage + Send + Sync + 'static,
    T: Transport + Clone + Send + Sync + 'static,
    SM: StateMachine<Command = CommandPayload> + Send + Sync + 'static,

    requires
        request.term > before.state.hard_state.term || {
            &&& request.term == before.state.hard_state.term
            &&& before.state.hard_state.voted_for == 0
            &&& request.candidate_id != 0
            &&& request.last_log_term > end_term(before.storage.log()) || (request.last_log_term
                == end_term(before.storage.log()) && request.last_log_index >= end_index(
                before.storage.log(),
            ))
        },
        forall|s: &mut S, state: &HardState, outcome: Result<(), StorageError>| #[trigger]
            call_ensures(S::save_hard_state, (s, state), outcome) ==> outcome == Err::<
                (),
                StorageError,
            >(e),
        forall|s: &S, outcome: Result<u64, StorageError>| #[trigger]
            call_ensures(S::last_log_index, (s,), outcome) ==> outcome is Ok,
        forall|s: &S, outcome: Result<u64, StorageError>| #[trigger]
            call_ensures(S::last_log_term, (s,), outcome) ==> outcome is Ok,
        exists|n: &mut RaftNode<S, T, SM>|
            *n == before && *final(n) == after && #[trigger] call_ensures(
                RaftNode::<S, T, SM>::handle_request_vote,
                (n, request),
                r,
            ),
    ensures
        r == Err::<RequestVoteResponse, StorageError>(e),
{
}

} // verus!
