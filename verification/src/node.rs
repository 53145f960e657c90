//! A Raft node.

use crate::config::Config;
use crate::election::{Ballot, NodeView};
use crate::machine::StateMachine;
use crate::messages::{
    CommandPayload, HardState, NodeId, RequestVoteRequest, RequestVoteResponse,
};
use crate::state::{RaftState, Role};
use crate::storage::{Storage, StorageError};
use crate::timer::ElectionTimer;
use crate::transport::{Transport, TransportError};
use std::collections::HashSet;
use tokio::sync::oneshot;
use vstd::prelude::*;

verus! {

/// A Raft node: its state, its configuration and the services that it uses.
pub struct RaftNode<
    S: Storage + Send + Sync + 'static,
    T: Transport + Clone + Send + Sync + 'static,
    SM: StateMachine<Command = CommandPayload> + Send + Sync + 'static,
> {
    /// The identifier of the node.
    pub id: NodeId,
    /// The current state of the node.
    pub state: RaftState,
    /// The configuration of the node.
    pub config: Config,
    /// Where the node persists its state.
    pub storage: S,
    /// How the node reaches its peers.
    pub transport: T,
    /// What committed log entries are applied to.
    pub state_machine: SM,
    /// The votes that the node has received as a candidate.
    pub votes_received: HashSet<NodeId>,
    /// The election timer.
    pub timer: ElectionTimer,
}

/// How a term that a node is told of relates to its own.
#[derive(Clone, Copy, Debug, PartialEq, Eq, Structural)]
pub enum TermChange {
    /// The term is older than the node's: it is ignored.
    Stale,
    /// The term is the node's own.
    Same,
    /// The term is newer: the hard state has changed and has to be saved.
    Newer,
}

/// What a node decides about a vote request of its own term.
#[derive(Clone, Copy, Debug, PartialEq, Eq, Structural)]
pub struct VoteDecision {
    /// Whether the vote is given.
    pub granted: bool,
    /// Whether the hard state has changed and has to be saved before the answer.
    pub persist: bool,
}

/// An election that a node has started: whom it asks for what, and how the count
/// stands.
#[derive(Debug)]
pub struct Election {
    /// The request that every target is sent.
    pub request: RequestVoteRequest,
    /// The nodes to ask.
    pub targets: Vec<NodeId>,
    /// The votes so far.
    pub votes: usize,
    /// The votes that win.
    pub required: usize,
}

/// Whether `after` holds what `before` held, with the hard state `state`.
pub open spec fn saved<S: Storage>(before: S, after: S, state: HardState) -> bool {
    &&& after.hard_state() == state
    &&& after.log() == before.log()
    &&& after.reliable() == before.reliable()
}

/// What an operation failed with, if it did.
pub open spec fn failure<A>(r: Result<A, StorageError>) -> Option<StorageError> {
    match r {
        Ok(_) => None,
        Err(e) => Some(e),
    }
}

/// Whether saving `state` to `before` can fail with `failed`, or succeed if that is
/// `None`.
pub open spec fn save_gives<S: Storage>(
    before: S,
    state: HardState,
    failed: Option<StorageError>,
) -> bool {
    exists|storage: &mut S, outcome: Result<(), StorageError>|
        *storage == before && failure(outcome) == failed && #[trigger] call_ensures(
            S::save_hard_state,
            (storage, &state),
            outcome,
        )
}

/// Whether `timer` runs with a timeout that `config` allows.
pub open spec fn runs_within(config: Config, timer: ElectionTimer) -> bool {
    &&& timer.armed()
    &&& config.allows_timeout(timer.duration())
}

/// Whether asking `storage` for the index of its last entry can fail with `e`.
pub open spec fn index_fails<S: Storage>(storage: S, e: StorageError) -> bool {
    call_ensures(S::last_log_index, (&storage,), Err::<u64, StorageError>(e))
}

/// Whether asking `storage` where its log ends can fail with `e`.
pub open spec fn log_end_fails<S: Storage>(storage: S, e: StorageError) -> bool {
    ||| index_fails(storage, e)
    ||| call_ensures(S::last_log_term, (&storage,), Err::<u64, StorageError>(e))
}

impl<
    S: Storage + Send + Sync + 'static,
    T: Transport + Clone + Send + Sync + 'static,
    SM: StateMachine<Command = CommandPayload> + Send + Sync + 'static,
> View for RaftNode<S, T, SM> {
    type V = NodeView;

    open spec fn view(&self) -> NodeView {
        NodeView { state: self.state@, votes: self.votes_received@, armed: self.timer.armed() }
    }
}

impl<
    S: Storage + Send + Sync + 'static,
    T: Transport + Clone + Send + Sync + 'static,
    SM: StateMachine<Command = CommandPayload> + Send + Sync + 'static,
> RaftNode<S, T, SM> {
    /// Whether two nodes agree in everything that no operation changes.
    pub open spec fn same_setup(&self, other: &Self) -> bool {
        &&& self.id == other.id
        &&& self.config == other.config
        &&& self.transport == other.transport
        &&& self.state_machine == other.state_machine
    }

    /// Whether the election timer runs with a timeout that the configuration allows.
    pub open spec fn timer_runs(&self) -> bool {
        runs_within(self.config, self.timer)
    }

    /// Whether the election timer was restarted after `before`: the timer that ran
    /// then, if any, was ended, and a new one runs.
    pub open spec fn timer_restarted(&self, before: &Self) -> bool {
        &&& before.timer.ended()
        &&& self.timer_runs()
    }

    /// Whether the storage holds the hard state that the node works with.
    pub open spec fn synced(&self) -> bool {
        self.storage.hard_state() == self.state.hard_state
    }

    /// Whether `later` is coherent if this node is. The identifier 0 is left out: it
    /// stands for a vote that was not given.
    pub open spec fn keeps_coherence(&self, later: &Self) -> bool {
        self.config.id != 0 && self@.coherent(self.config.id) ==> later@.coherent(self.config.id)
    }

    /// Whether the storage of this node can be `storage` once the node has taken note
    /// of `term`: a newer term is saved and ends the running timer, and otherwise
    /// nothing is written.
    pub open spec fn notes(&self, term: u64, storage: S) -> bool {
        let state = self@.noticed(term).state.hard_state;
        if term > self@.term() {
            &&& save_gives(self.storage, state, None)
            &&& saved(self.storage, storage, state)
            &&& self.timer.ended()
        } else {
            storage == self.storage
        }
    }

    /// Whether the storage of this node can be `storage` once the node has become a
    /// candidate: its vote is saved, and the running timer is ended.
    pub open spec fn stood(&self, storage: S) -> bool {
        let state = self@.candidate(self.config.id).state.hard_state;
        &&& save_gives(self.storage, state, None)
        &&& saved(self.storage, storage, state)
        &&& self.timer.ended()
    }

    /// Whether an election that was decided when the node had `storage`, `timer` and
    /// the hard state `state` was carried out with the outcome `r`. A node that steps
    /// down saves its new term, and any other node writes nothing and fails only where
    /// the end of its log cannot be read. The timer is ended by a decision that was
    /// carried out, and is left alone otherwise.
    pub open spec fn carried_out(
        &self,
        storage: S,
        timer: ElectionTimer,
        state: HardState,
        r: Result<(), StorageError>,
    ) -> bool {
        &&& if self.state.hard_state == state {
            &&& self.storage == storage
            &&& r matches Err(e) ==> index_fails(storage, e)
        } else {
            &&& save_gives(storage, self.state.hard_state, failure(r))
            &&& r is Ok ==> saved(storage, self.storage, self.state.hard_state)
        }
        &&& if r is Ok && self@.role() != Role::Candidate {
            timer.ended()
        } else {
            self.timer == timer
        }
    }

    /// Creates a node: a follower that has seen nothing yet, with its election
    /// timer set.
    pub fn new(id: NodeId, config: Config, storage: S, transport: T, state_machine: SM) -> (r: Self)
        ensures
            r@ == NodeView::initial(id),
            r.id == id,
            r.config == config,
            r.storage == storage,
            r.transport == transport,
            r.state_machine == state_machine,
            r.timer_runs(),
            storage.hard_state() == HardState::initial() ==> r.synced(),
    {
        let mut node = RaftNode {
            id,
            state: RaftState::new(id),
            config,
            storage,
            transport,
            state_machine,
            votes_received: HashSet::new(),
            timer: ElectionTimer::default(),
        };
        node.initialize_election_timeout();
        assert(node@ =~= NodeView::initial(id));
        node
    }

    /// Sets the election timer for the first time.
    fn initialize_election_timeout(&mut self)
        ensures
            final(self).same_setup(old(self)),
            final(self).state == old(self).state,
            final(self).storage == old(self).storage,
            final(self).votes_received == old(self).votes_received,
            final(self).timer_runs(),
    {
        let _ = self.reset_election_timer();
    }

    /// Resets the election timer to a timeout that the configuration allows. Returns
    /// the receiver that is notified when the timer ends early, and the timeout.
    pub fn reset_election_timer(&mut self) -> (r: (oneshot::Receiver<()>, u64))
        ensures
            final(self).same_setup(old(self)),
            final(self).state == old(self).state,
            final(self).storage == old(self).storage,
            final(self).votes_received == old(self).votes_received,
            final(self).timer_restarted(old(self)),
            final(self).timer.duration() == r.1,
            final(self).timer.notifies(r.0),
    {
        let longest: u64 = self.config.longest_timeout();
        let r = self.timer.reset(self.config.election_timeout_min_ms, longest);
        assert(self.config.allows_timeout(r.1));
        r
    }

    /// Saves the hard state that the node works with.
    fn save(&mut self) -> (r: Result<(), StorageError>)
        ensures
            final(self).same_setup(old(self)),
            final(self).state == old(self).state,
            final(self).votes_received == old(self).votes_received,
            final(self).timer == old(self).timer,
            save_gives(old(self).storage, old(self).state.hard_state, failure(r)),
            r is Ok ==> saved(
                old(self).storage,
                final(self).storage,
                final(self).state.hard_state,
            ),
            old(self).storage.reliable() ==> r is Ok,
    {
        self.storage.save_hard_state(&self.state.hard_state)
    }

    /// Takes note of `term` and becomes a follower in it, unless the term is stale.
    /// The timer is left alone until a newer term is saved.
    pub fn adopt_term(&mut self, term: u64, leader_id: Option<NodeId>) -> (r: TermChange)
        ensures
            final(self).same_setup(old(self)),
            old(self)@.evolves_to(final(self)@),
            old(self).keeps_coherence(final(self)),
            final(self).storage == old(self).storage,
            final(self).timer == old(self).timer,
            final(self)@ == old(self)@.follower(term, leader_id).with_armed(old(self)@.armed),
            term < old(self)@.term() ==> r == TermChange::Stale && *final(self) == *old(self),
            term == old(self)@.term() ==> r == TermChange::Same,
            term > old(self)@.term() ==> r == TermChange::Newer,
    {
        let change = if term > self.state.hard_state.term {
            self.state.hard_state.term = term;
            self.state.hard_state.voted_for = 0;
            TermChange::Newer
        } else if term < self.state.hard_state.term {
            assert(self@ =~= old(self)@.follower(term, leader_id).with_armed(old(self)@.armed));
            return TermChange::Stale;
        } else {
            TermChange::Same
        };
        self.state.server.role = Role::Follower;
        self.state.server.leader_id = leader_id;
        self.votes_received.clear();
        assert(self@ =~= old(self)@.follower(term, leader_id).with_armed(old(self)@.armed));
        change
    }

    /// Carries on after the hard state was saved: restarts the election timer, or
    /// hands the failure on.
    pub fn after_save(&mut self, outcome: Result<(), StorageError>) -> (r: Result<
        (),
        StorageError,
    >)
        ensures
            r == outcome,
            final(self).same_setup(old(self)),
            final(self).state == old(self).state,
            final(self).storage == old(self).storage,
            final(self).votes_received == old(self).votes_received,
            outcome is Ok ==> final(self).timer_restarted(old(self)),
            outcome is Err ==> final(self).timer == old(self).timer,
    {
        if outcome.is_ok() {
            let _ = self.reset_election_timer();
        }
        outcome
    }

    /// Becomes a follower in `term`, led by `leader_id` as far as known. A newer
    /// term is saved first; an older one is ignored.
    pub fn become_follower(&mut self, term: u64, leader_id: Option<NodeId>) -> (r: Result<
        (),
        StorageError,
    >)
        ensures
            final(self).same_setup(old(self)),
            old(self)@.evolves_to(final(self)@),
            old(self).keeps_coherence(final(self)),
            term < old(self)@.term() ==> r is Ok && *final(self) == *old(self),
            term == old(self)@.term() ==> r is Ok && final(self).storage == old(self).storage,
            term > old(self)@.term() && r is Ok ==> saved(
                old(self).storage,
                final(self).storage,
                final(self).state.hard_state,
            ),
            term > old(self)@.term() ==> save_gives(
                old(self).storage,
                final(self).state.hard_state,
                failure(r),
            ),
            r is Ok ==> final(self)@ == old(self)@.follower(term, leader_id),
            r is Ok && term >= old(self)@.term() ==> final(self).timer_restarted(old(self)),
            r is Err ==> final(self)@ == old(self)@.follower(term, leader_id).with_armed(
                old(self)@.armed,
            ) && final(self).timer == old(self).timer,
            old(self).storage.reliable() ==> r is Ok,
            old(self).synced() && r is Ok ==> final(self).synced(),
    {
        let outcome = match self.adopt_term(term, leader_id) {
            TermChange::Stale => {
                return Ok(());
            },
            TermChange::Same => Ok(()),
            TermChange::Newer => self.save(),
        };
        let r = self.after_save(outcome);
        assert(r is Ok ==> self@ =~= old(self)@.follower(term, leader_id));
        r
    }

    /// Enters the next term as a candidate that votes for itself. The timer is left
    /// alone until the vote is saved.
    pub fn stand_for_election(&mut self)
        requires
            old(self)@.term() < u64::MAX,
        ensures
            final(self).same_setup(old(self)),
            old(self)@.evolves_to(final(self)@),
            old(self).keeps_coherence(final(self)),
            final(self).storage == old(self).storage,
            final(self).timer == old(self).timer,
            final(self)@ == old(self)@.candidate(old(self).config.id).with_armed(old(self)@.armed),
    {
        self.state.server.role = Role::Candidate;
        self.state.hard_state.term = self.state.hard_state.term + 1;
        self.state.server.leader_id = None;
        self.state.hard_state.voted_for = self.config.id;
        self.votes_received.clear();
        self.votes_received.insert(self.config.id);
        assert(self@ =~= old(self)@.candidate(old(self).config.id).with_armed(old(self)@.armed));
    }

    /// Becomes a candidate: enters the next term, votes for itself and saves both.
    pub fn become_candidate(&mut self) -> (r: Result<(), StorageError>)
        requires
            old(self)@.term() < u64::MAX,
        ensures
            final(self).same_setup(old(self)),
            old(self)@.evolves_to(final(self)@),
            old(self).keeps_coherence(final(self)),
            save_gives(old(self).storage, final(self).state.hard_state, failure(r)),
            r is Ok ==> final(self)@ == old(self)@.candidate(old(self).config.id),
            r is Ok ==> saved(
                old(self).storage,
                final(self).storage,
                final(self).state.hard_state,
            ),
            r is Ok ==> final(self).timer_restarted(old(self)),
            r is Err ==> final(self)@ == old(self)@.candidate(old(self).config.id).with_armed(
                old(self)@.armed,
            ) && final(self).timer == old(self).timer,
            old(self).storage.reliable() ==> r is Ok,
    {
        self.stand_for_election();
        let outcome = self.save();
        let r = self.after_save(outcome);
        assert(r is Ok ==> self@ =~= old(self)@.candidate(old(self).config.id));
        r
    }

    /// Takes the role of the leader if the node is a candidate. Returns whether it
    /// did.
    pub fn claim_leadership(&mut self) -> (r: bool)
        ensures
            r == (old(self)@.role() == Role::Candidate),
            !r ==> *final(self) == *old(self),
            final(self).same_setup(old(self)),
            old(self)@.evolves_to(final(self)@),
            old(self).keeps_coherence(final(self)),
            final(self).storage == old(self).storage,
            final(self).timer == old(self).timer,
            r ==> final(self)@ == old(self)@.crowned(old(self).config.id),
    {
        if self.state.server.role != Role::Candidate {
            return false;
        }
        self.state.server.role = Role::Leader;
        self.state.server.leader_id = Some(self.config.id);
        self.votes_received.clear();
        assert(self@ =~= old(self)@.crowned(old(self).config.id));
        true
    }

    /// Prepares the bookkeeping of a leader whose log ends at `last_log_index`, and
    /// stops the election timer.
    pub fn track_peers(&mut self, last_log_index: u64)
        requires
            last_log_index < u64::MAX,
        ensures
            final(self).same_setup(old(self)),
            old(self)@.evolves_to(final(self)@),
            old(self).keeps_coherence(final(self)),
            final(self).storage == old(self).storage,
            final(self).votes_received == old(self).votes_received,
            old(self).timer.ended(),
            final(self).timer.duration() == old(self).timer.duration(),
            !final(self).timer.armed(),
            final(self).state@ == (crate::state::StateView {
                next_index: Map::new(
                    |peer: NodeId| old(self).config.others().contains(peer),
                    |peer: NodeId| (last_log_index + 1) as u64,
                ),
                match_index: Map::new(
                    |peer: NodeId| old(self).config.others().contains(peer),
                    |peer: NodeId| 0u64,
                ),
                ..old(self).state@
            }),
    {
        let next_log_index: u64 = last_log_index + 1;
        self.state.leader.next_index.clear();
        self.state.leader.match_index.clear();
        let peer_ids: Vec<NodeId> = self.config.other_ids();
        let ghost others = self.config.others();
        let mut i: usize = 0;
        while i < peer_ids.len()
            invariant
                i <= peer_ids.len(),
                peer_ids@.to_set() == others,
                others == old(self).config.others(),
                next_log_index == last_log_index + 1,
                self.same_setup(old(self)),
                self.storage == old(self).storage,
                self.votes_received == old(self).votes_received,
                self.timer == old(self).timer,
                self.state@ == (crate::state::StateView {
                    next_index: self.state@.next_index,
                    match_index: self.state@.match_index,
                    ..old(self).state@
                }),
                self.state@.next_index.dom() == peer_ids@.take(i as int).to_set(),
                self.state@.match_index.dom() == peer_ids@.take(i as int).to_set(),
                forall|peer: NodeId|
                    self.state@.next_index.contains_key(peer)
                        ==> #[trigger] self.state@.next_index[peer] == next_log_index,
                forall|peer: NodeId|
                    self.state@.match_index.contains_key(peer)
                        ==> #[trigger] self.state@.match_index[peer] == 0,
            decreases peer_ids.len() - i,
        {
            let peer_id: NodeId = peer_ids[i];
            self.state.leader.next_index.insert(peer_id, next_log_index);
            self.state.leader.match_index.insert(peer_id, 0);
            proof {
                assert(peer_ids@.take(i + 1) =~= peer_ids@.take(i as int).push(peer_id));
                peer_ids@.take(i as int).lemma_push_to_set_commute(peer_id);
            }
            i += 1;
        }
        assert(peer_ids@.take(i as int) =~= peer_ids@);
        self.timer.cancel();
    }

    /// Becomes the leader if the node is a candidate; otherwise does nothing.
    pub fn become_leader(&mut self) -> (r: Result<(), StorageError>)
        requires
            old(self)@.role() == Role::Candidate ==> crate::log::last_index(
                old(self).storage.log(),
            ) < u64::MAX,
        ensures
            final(self).same_setup(old(self)),
            old(self)@.evolves_to(final(self)@),
            old(self).keeps_coherence(final(self)),
            final(self).storage == old(self).storage,
            old(self)@.role() != Role::Candidate ==> r is Ok && *final(self) == *old(self),
            old(self)@.role() == Role::Candidate && r is Ok ==> final(self)@ == old(self)@.leader(
                old(self).config.id,
                old(self).config.others(),
                crate::log::last_index(old(self).storage.log()),
            ),
            r is Err ==> old(self)@.role() == Role::Candidate && final(self)@ == old(
                self,
            )@.crowned(old(self).config.id) && final(self).timer == old(self).timer,
            r matches Err(e) ==> index_fails(old(self).storage, e),
            old(self)@.role() == Role::Candidate && r is Ok ==> old(self).timer.ended(),
            final(self).timer.duration() == old(self).timer.duration(),
            old(self).storage.reliable() ==> r is Ok,
            old(self).synced() ==> final(self).synced(),
    {
        if !self.claim_leadership() {
            return Ok(());
        }
        match self.storage.last_log_index() {
            Ok(last_log_index) => {
                self.track_peers(last_log_index);
                assert(self@ =~= old(self)@.leader(
                    old(self).config.id,
                    old(self).config.others(),
                    crate::log::last_index(old(self).storage.log()),
                ));
                Ok(())
            },
            Err(e) => Err(e),
        }
    }

    /// Checks whether a log that ends with the given entry is at least as
    /// up-to-date as the log of the node.
    pub fn is_log_up_to_date(
        &self,
        candidate_last_log_term: u64,
        candidate_last_log_index: u64,
    ) -> (r: Result<bool, StorageError>)
        ensures
            r matches Ok(b) ==> b == crate::election::up_to_date(
                candidate_last_log_term,
                candidate_last_log_index,
                crate::log::last_term(self.storage.log()),
                crate::log::last_index(self.storage.log()),
            ),
            r matches Err(e) ==> log_end_fails(self.storage, e),
            self.storage.reliable() ==> r is Ok,
    {
        let last_log_term: u64 = match self.storage.last_log_term() {
            Ok(term) => term,
            Err(e) => {
                return Err(e);
            },
        };
        let last_log_index: u64 = match self.storage.last_log_index() {
            Ok(index) => index,
            Err(e) => {
                return Err(e);
            },
        };
        Ok(
            log_is_up_to_date(
                candidate_last_log_term,
                candidate_last_log_index,
                last_log_term,
                last_log_index,
            ),
        )
    }

    /// Decides on a vote request of the node's own term, given whether the log of
    /// the candidate is up-to-date. A granted vote is recorded and restarts the
    /// election timer.
    pub fn decide_vote(&mut self, candidate_id: NodeId, log_is_ok: bool) -> (r: VoteDecision)
        ensures
            final(self).same_setup(old(self)),
            old(self)@.evolves_to(final(self)@),
            old(self).keeps_coherence(final(self)),
            final(self).storage == old(self).storage,
            r.granted == (log_is_ok && (old(self)@.voted_for() == 0 || old(self)@.voted_for()
                == candidate_id)),
            r.persist == (r.granted && old(self)@.voted_for() != candidate_id),
            r.granted ==> final(self)@ == old(self)@.with_vote(candidate_id),
            r.granted ==> final(self).timer_restarted(old(self)),
            !r.granted ==> *final(self) == *old(self),
    {
        let can_vote: bool = self.state.hard_state.voted_for == 0
            || self.state.hard_state.voted_for == candidate_id;
        if can_vote && log_is_ok {
            let persist: bool = self.state.hard_state.voted_for != candidate_id;
            self.state.hard_state.voted_for = candidate_id;
            let _ = self.reset_election_timer();
            assert(self@ =~= old(self)@.with_vote(candidate_id));
            VoteDecision { granted: true, persist }
        } else {
            VoteDecision { granted: false, persist: false }
        }
    }

    /// Answers a vote request. A newer term makes the node step down first; the
    /// vote goes to at most one candidate per term, whose log is at least as
    /// up-to-date as the node's, and it is saved before the answer is given.
    pub fn handle_request_vote(&mut self, request: RequestVoteRequest) -> (r: Result<
        RequestVoteResponse,
        StorageError,
    >)
        ensures
            final(self).same_setup(old(self)),
            old(self)@.evolves_to(final(self)@),
            old(self).keeps_coherence(final(self)),
            request.term < old(self)@.term() ==> r is Ok && *final(self) == *old(self),
            r matches Ok(response) ==> {
                let last_term = crate::log::last_term(old(self).storage.log());
                let last_index = crate::log::last_index(old(self).storage.log());
                &&& response == old(self)@.answer(request, last_term, last_index)
                &&& final(self)@ == old(self)@.asked(request, last_term, last_index)
                &&& saved(
                    old(self).storage,
                    final(self).storage,
                    if final(self).state.hard_state == old(self).state.hard_state {
                        old(self).storage.hard_state()
                    } else {
                        final(self).state.hard_state
                    },
                )
                &&& final(self).state.hard_state == old(self).state.hard_state
                    ==> final(self).storage == old(self).storage
                &&& exists|noted: S| #[trigger]
                    old(self).notes(request.term, noted) && if final(self).state.hard_state
                        == old(self)@.noticed(request.term).state.hard_state {
                        final(self).storage == noted
                    } else {
                        &&& save_gives(noted, final(self).state.hard_state, None)
                        &&& saved(noted, final(self).storage, final(self).state.hard_state)
                    }
                &&& if response.vote_granted || request.term > old(self)@.term() {
                    final(self).timer_restarted(old(self))
                } else {
                    final(self).timer == old(self).timer
                }
            },
            r matches Err(e) ==> {
                let last_term = crate::log::last_term(old(self).storage.log());
                let last_index = crate::log::last_index(old(self).storage.log());
                let noticed = old(self)@.noticed(request.term);
                ||| {
                    &&& request.term > old(self)@.term()
                    &&& save_gives(old(self).storage, noticed.state.hard_state, Some(e))
                    &&& final(self)@ == noticed.with_armed(old(self)@.armed)
                    &&& final(self).timer == old(self).timer
                }
                ||| {
                    &&& old(self).notes(request.term, final(self).storage)
                    &&& log_end_fails(final(self).storage, e)
                    &&& final(self)@ == noticed
                    &&& if request.term > old(self)@.term() {
                        final(self).timer_restarted(old(self))
                    } else {
                        final(self).timer == old(self).timer
                    }
                }
                ||| {
                    &&& exists|noted: S| #[trigger]
                        old(self).notes(request.term, noted) && save_gives(
                            noted,
                            final(self).state.hard_state,
                            Some(e),
                        )
                    &&& final(self)@ == noticed.decided(request, last_term, last_index)
                    &&& final(self).state.hard_state != noticed.state.hard_state
                    &&& final(self).timer_restarted(old(self))
                }
            },
            old(self).storage.reliable() ==> r is Ok,
            old(self).synced() && r is Ok ==> final(self).synced(),
            r matches Ok(response) ==> old(self).synced() && response.vote_granted ==> {
                &&& final(self).storage.hard_state().term == request.term
                &&& final(self).storage.hard_state().voted_for == request.candidate_id
            },
    {
        if request.term < self.state.hard_state.term {
            assert(old(self).notes(request.term, self.storage));
            return Ok(
                RequestVoteResponse { term: self.state.hard_state.term, vote_granted: false },
            );
        }
        if request.term > self.state.hard_state.term {
            if let Err(e) = self.become_follower(request.term, None) {
                return Err(e);
            }
        }
        let ghost noticed = *self;
        assert(noticed@ == old(self)@.noticed(request.term));
        assert(old(self).notes(request.term, noticed.storage));
        let log_is_ok: bool = match self.is_log_up_to_date(
            request.last_log_term,
            request.last_log_index,
        ) {
            Ok(b) => b,
            Err(e) => {
                return Err(e);
            },
        };
        let decision = self.decide_vote(request.candidate_id, log_is_ok);
        if decision.persist {
            if let Err(e) = self.save() {
                return Err(e);
            }
        }
        Ok(
            RequestVoteResponse {
                term: self.state.hard_state.term,
                vote_granted: decision.granted,
            },
        )
    }

    /// What stays fixed during an election of this node.
    pub open spec fn ballot(&self) -> Ballot {
        Ballot {
            id: self.config.id,
            others: self.config.others(),
            quorum: self.config.quorum(),
            last_index: crate::log::last_index(self.storage.log()),
        }
    }

    /// Starts an election: becomes a candidate and works out whom to ask for what.
    /// A leader starts none, and a node that is a majority by itself wins on the
    /// spot; in both cases there is nobody to ask.
    pub fn begin_election(&mut self) -> (r: Result<Option<Election>, StorageError>)
        requires
            old(self)@.role() != Role::Leader ==> old(self)@.term() < u64::MAX,
            old(self)@.role() != Role::Leader && old(self).config.quorum() == 1
                ==> crate::log::last_index(old(self).storage.log()) < u64::MAX,
        ensures
            final(self).same_setup(old(self)),
            old(self)@.evolves_to(final(self)@),
            old(self).keeps_coherence(final(self)),
            old(self)@.role() == Role::Leader ==> r == Ok::<Option<Election>, StorageError>(None)
                && *final(self) == *old(self),
            old(self)@.role() != Role::Leader ==> {
                let candidate = old(self)@.candidate(old(self).config.id);
                let alone = old(self).config.quorum() == 1;
                match r {
                    Ok(Some(election)) => {
                        &&& !alone
                        &&& final(self)@ == candidate
                        &&& final(self).timer_restarted(old(self))
                        &&& election.request == (RequestVoteRequest {
                            term: candidate.term(),
                            candidate_id: old(self).config.id,
                            last_log_index: crate::log::last_index(old(self).storage.log()),
                            last_log_term: crate::log::last_term(old(self).storage.log()),
                        })
                        &&& election.targets@.no_duplicates()
                        &&& election.targets@.to_set() == old(self).config.others()
                        &&& election.votes == 1
                        &&& election.required == old(self).config.quorum()
                    },
                    Ok(None) => {
                        &&& alone
                        &&& final(self)@ == crate::election::won(
                            candidate,
                            old(self).ballot(),
                            true,
                        )
                        &&& exists|timer: ElectionTimer| #[trigger]
                            runs_within(old(self).config, timer) && timer.ended()
                    },
                    Err(e) => {
                        ||| {
                            &&& save_gives(old(self).storage, candidate.state.hard_state, Some(e))
                            &&& final(self)@ == candidate.with_armed(old(self)@.armed)
                            &&& final(self).timer == old(self).timer
                        }
                        ||| {
                            &&& old(self).stood(final(self).storage)
                            &&& log_end_fails(final(self).storage, e)
                            &&& final(self)@ == candidate
                            &&& final(self).timer_runs()
                        }
                        ||| {
                            &&& alone
                            &&& old(self).stood(final(self).storage)
                            &&& index_fails(final(self).storage, e)
                            &&& final(self)@ == crate::election::won(
                                candidate,
                                old(self).ballot(),
                                false,
                            )
                            &&& final(self).timer_runs()
                        }
                    },
                }
            },
            old(self)@.role() != Role::Leader && r is Ok ==> old(self).stood(final(self).storage),
            old(self).storage.reliable() ==> r is Ok,
    {
        if self.state.server.role == Role::Leader {
            return Ok(None);
        }
        if let Err(e) = self.become_candidate() {
            return Err(e);
        }
        let last_log_index: u64 = match self.storage.last_log_index() {
            Ok(index) => index,
            Err(e) => {
                return Err(e);
            },
        };
        let last_log_term: u64 = match self.storage.last_log_term() {
            Ok(term) => term,
            Err(e) => {
                return Err(e);
            },
        };
        let request = RequestVoteRequest {
            term: self.state.hard_state.term,
            candidate_id: self.config.id,
            last_log_index,
            last_log_term,
        };
        let targets: Vec<NodeId> = self.config.other_ids();
        let votes: usize = self.votes_received.len();
        let required: usize = self.config.required_votes();
        if votes >= required {
            let ghost timer = self.timer;
            if let Err(e) = self.become_leader() {
                return Err(e);
            }
            assert(runs_within(old(self).config, timer) && timer.ended());
            return Ok(None);
        }
        Ok(Some(Election { request, targets, votes, required }))
    }

    /// Counts one reply to a vote request; a peer that could not be asked gives
    /// none. Returns whether the election goes on: it ends when the reply makes the
    /// node step down or win, or when the node has left the election by other means.
    pub fn count_reply(
        &mut self,
        election: &mut Election,
        reply: Option<RequestVoteResponse>,
    ) -> (r: Result<bool, StorageError>)
        requires
            old(election).votes < usize::MAX,
            old(self)@.role() == Role::Candidate ==> crate::log::last_index(
                old(self).storage.log(),
            ) < u64::MAX,
        ensures
            final(self).same_setup(old(self)),
            old(self)@.evolves_to(final(self)@),
            old(self).keeps_coherence(final(self)),
            final(election).request == old(election).request,
            final(election).targets == old(election).targets,
            final(election).required == old(election).required,
            if old(self)@.role() != Role::Candidate || old(self)@.term()
                != old(election).request.term {
                &&& r == Ok::<bool, StorageError>(false)
                &&& *final(self) == *old(self)
                &&& final(election).votes == old(election).votes
            } else {
                match crate::election::judge(
                    old(self)@.term(),
                    old(election).votes as nat,
                    old(election).required as nat,
                    reply,
                ) {
                    crate::election::Verdict::StepDown(term) => {
                        &&& r is Ok ==> r == Ok::<bool, StorageError>(false)
                        &&& r is Ok ==> saved(
                            old(self).storage,
                            final(self).storage,
                            final(self).state.hard_state,
                        )
                        &&& save_gives(
                            old(self).storage,
                            final(self).state.hard_state,
                            failure(r),
                        )
                        &&& r is Ok ==> final(self).timer_restarted(old(self))
                        &&& r is Err ==> final(self).timer == old(self).timer
                        &&& final(self)@ == crate::election::stepped_down(old(self)@, term, r is Ok)
                        &&& final(election).votes == old(election).votes
                    },
                    crate::election::Verdict::Win => {
                        &&& r is Ok ==> r == Ok::<bool, StorageError>(false)
                        &&& r matches Err(e) ==> index_fails(old(self).storage, e)
                        &&& r is Ok ==> old(self).timer.ended()
                        &&& r is Err ==> final(self).timer == old(self).timer
                        &&& final(self).storage == old(self).storage
                        &&& final(self)@ == crate::election::won(
                            old(self)@,
                            old(self).ballot(),
                            r is Ok,
                        )
                        &&& final(election).votes == old(election).votes + if reply matches Some(
                            response,
                        ) && response.vote_granted {
                            1int
                        } else {
                            0
                        }
                    },
                    crate::election::Verdict::Undecided(votes) => {
                        &&& r == Ok::<bool, StorageError>(true)
                        &&& *final(self) == *old(self)
                        &&& final(election).votes == votes
                    },
                }
            },
            old(self).storage.reliable() ==> r is Ok,
            old(self).synced() && r is Ok ==> final(self).synced(),
    {
        if self.state.server.role != Role::Candidate || self.state.hard_state.term
            != election.request.term {
            return Ok(false);
        }
        if let Some(response) = reply {
            if response.term > self.state.hard_state.term {
                return match self.become_follower(response.term, None) {
                    Ok(()) => {
                        assert(self@ =~= crate::election::stepped_down(
                            old(self)@,
                            response.term,
                            true,
                        ));
                        Ok(false)
                    },
                    Err(e) => {
                        assert(self@ =~= crate::election::stepped_down(
                            old(self)@,
                            response.term,
                            false,
                        ));
                        Err(e)
                    },
                };
            }
            if response.vote_granted {
                election.votes = election.votes + 1;
            }
        }
        if election.votes >= election.required {
            return match self.become_leader() {
                Ok(()) => Ok(false),
                Err(e) => Err(e),
            };
        }
        Ok(true)
    }

    /// Whether `reply` is what sending `request` to `peer_id` can give.
    pub open spec fn replied(
        &self,
        peer_id: NodeId,
        request: RequestVoteRequest,
        reply: Option<RequestVoteResponse>,
    ) -> bool {
        exists|answer: Result<RequestVoteResponse, TransportError>|
            #![trigger call_ensures(T::send_request_vote, (&self.transport, peer_id, request), answer)]
            call_ensures(T::send_request_vote, (&self.transport, peer_id, request), answer)
                && reply == (match answer {
                Ok(response) => Some(response),
                Err(_) => None,
            })
    }

    /// Sends the request of an election to every target. The replies come in the
    /// order of the targets; a target that could not be asked has none.
    pub fn request_votes(&self, election: &Election) -> (r: Vec<Option<RequestVoteResponse>>)
        ensures
            r@.len() == election.targets@.len(),
            forall|i: int|
                0 <= i < r@.len() ==> self.replied(
                    election.targets@[i],
                    election.request,
                    #[trigger] r@[i],
                ),
    {
        let mut replies: Vec<Option<RequestVoteResponse>> = Vec::new();
        let mut i: usize = 0;
        while i < election.targets.len()
            invariant
                i <= election.targets.len(),
                replies@.len() == i,
                forall|j: int|
                    0 <= j < i ==> self.replied(
                        election.targets@[j],
                        election.request,
                        #[trigger] replies@[j],
                    ),
            decreases election.targets.len() - i,
        {
            let answer = self.transport.send_request_vote(election.targets[i], election.request);
            let ghost given = answer;
            let reply = match answer {
                Ok(response) => Some(response),
                Err(_) => None,
            };
            assert(call_ensures(
                T::send_request_vote,
                (&self.transport, election.targets@[i as int], election.request),
                given,
            ));
            assert(self.replied(election.targets@[i as int], election.request, reply));
            replies.push(reply);
            i += 1;
        }
        replies
    }

    /// Counts the replies of an election one by one until it is decided or the
    /// replies run out.
    pub fn tally(
        &mut self,
        election: Election,
        replies: &Vec<Option<RequestVoteResponse>>,
    ) -> (r: Result<(), StorageError>)
        requires
            old(self)@.role() == Role::Candidate,
            old(self)@.term() == election.request.term,
            election.votes < usize::MAX,
            election.required == old(self).config.quorum(),
            crate::log::last_index(old(self).storage.log()) < u64::MAX,
        ensures
            final(self).same_setup(old(self)),
            old(self)@.evolves_to(final(self)@),
            old(self).keeps_coherence(final(self)),
            crate::election::tallied(
                old(self)@,
                old(self).ballot(),
                election.votes as nat,
                replies@,
                final(self)@,
                r is Ok,
            ),
            final(self).carried_out(
                old(self).storage,
                old(self).timer,
                old(self).state.hard_state,
                r,
            ),
            r is Ok && old(self).timer_runs() && final(self)@.role() != Role::Leader
                ==> final(self).timer_runs(),
            old(self).storage.reliable() ==> r is Ok,
            old(self).synced() && r is Ok ==> final(self).synced(),
    {
        let ghost ballot = self.ballot();
        let ghost votes = election.votes as nat;
        let mut count = election;
        assert(replies@.skip(0) =~= replies@);
        let mut i: usize = 0;
        while i < replies.len()
            invariant
                i <= replies.len(),
                *self == *old(self),
                self@.role() == Role::Candidate,
                self@.term() == count.request.term,
                count.votes < usize::MAX,
                count.required == self.config.quorum(),
                crate::log::last_index(self.storage.log()) < u64::MAX,
                ballot == self.ballot(),
                votes == election.votes,
                forall|after: NodeView, ok: bool|
                    crate::election::tallied(
                        self@,
                        ballot,
                        count.votes as nat,
                        replies@.skip(i as int),
                        after,
                        ok,
                    ) ==> #[trigger] crate::election::tallied(
                        self@,
                        ballot,
                        votes,
                        replies@,
                        after,
                        ok,
                    ),
            decreases replies.len() - i,
        {
            let ghost before = *self;
            let ghost counted = count.votes as nat;
            let ghost rest = replies@.skip(i as int);
            assert(rest[0] == replies@[i as int]);
            assert(rest.drop_first() =~= replies@.skip(i + 1));
            match self.count_reply(&mut count, replies[i]) {
                Ok(true) => {
                    assert forall|after: NodeView, ok: bool|
                        crate::election::tallied(
                            self@,
                            ballot,
                            count.votes as nat,
                            replies@.skip(i + 1),
                            after,
                            ok,
                        ) implies #[trigger] crate::election::tallied(
                        self@,
                        ballot,
                        votes,
                        replies@,
                        after,
                        ok,
                    ) by {
                        assert(crate::election::tallied(self@, ballot, counted, rest, after, ok));
                    }
                },
                Ok(false) => {
                    assert(crate::election::tallied(
                        before@,
                        ballot,
                        counted,
                        rest,
                        self@,
                        true,
                    ));
                    assert(crate::election::tallied(
                        before@,
                        ballot,
                        votes,
                        replies@,
                        self@,
                        true,
                    ));
                    return Ok(());
                },
                Err(e) => {
                    assert(crate::election::tallied(
                        before@,
                        ballot,
                        counted,
                        rest,
                        self@,
                        false,
                    ));
                    assert(crate::election::tallied(
                        before@,
                        ballot,
                        votes,
                        replies@,
                        self@,
                        false,
                    ));
                    return Err(e);
                },
            }
            i += 1;
        }
        assert(crate::election::tallied(
            self@,
            ballot,
            count.votes as nat,
            replies@.skip(i as int),
            self@,
            true,
        ));
        Ok(())
    }

    /// Whether the node, after its election timer expired at `before`, can be as it
    /// is now. With an error as the outcome `r`, the storage failed on the way: a
    /// candidate that could not save its vote asks nobody and stays a candidate.
    pub open spec fn after_timeout(&self, before: &Self, r: Result<(), StorageError>) -> bool {
        let candidate = before@.candidate(before.config.id);
        if before@.role() == Role::Leader {
            r is Ok && self == before
        } else {
            ||| {
                &&& r is Err
                &&& self@ == candidate.with_armed(before@.armed)
                &&& self.timer == before.timer
                &&& save_gives(before.storage, candidate.state.hard_state, failure(r))
            }
            ||| exists|storage: S, timer: ElectionTimer| #[trigger]
                before.stood(storage) && #[trigger] runs_within(before.config, timer) && self.after_candidacy(
                    before,
                    storage,
                    timer,
                    r,
                )
        }
    }

    /// Whether the node, which has become a candidate from `before`, has saved its
    /// vote to `storage` and has set `timer`, can be as it is now.
    pub open spec fn after_candidacy(
        &self,
        before: &Self,
        storage: S,
        timer: ElectionTimer,
        r: Result<(), StorageError>,
    ) -> bool {
        let candidate = before@.candidate(before.config.id);
        ||| {
            &&& r matches Err(e) && log_end_fails(storage, e)
            &&& self.storage == storage
            &&& self.timer == timer
            &&& self@ == candidate
        }
        ||| {
            &&& self.carried_out(storage, timer, candidate.state.hard_state, r)
            &&& if before.config.quorum() == 1 {
                self@ == crate::election::won(candidate, before.ballot(), r is Ok)
            } else {
                before.polled(candidate, self@, r is Ok)
            }
        }
    }

    /// Whether this node, having become `candidate`, can end up as `after` once it
    /// has asked every other node for its vote.
    pub open spec fn polled(&self, candidate: NodeView, after: NodeView, ok: bool) -> bool {
        let request = RequestVoteRequest {
            term: candidate.term(),
            candidate_id: self.config.id,
            last_log_index: crate::log::last_index(self.storage.log()),
            last_log_term: crate::log::last_term(self.storage.log()),
        };
        exists|targets: Seq<NodeId>, replies: Seq<Option<RequestVoteResponse>>|
            {
                &&& targets.no_duplicates()
                &&& targets.to_set() == self.config.others()
                &&& replies.len() == targets.len()
                &&& forall|i: int|
                    0 <= i < replies.len() ==> self.replied(
                        targets[i],
                        request,
                        #[trigger] replies[i],
                    )
                &&& #[trigger] self.tallied_from(candidate, targets, replies, after, ok)
            }
    }

    /// Whether `candidate`, which has its own vote, can end up as `after` with the
    /// replies that `targets` gave.
    pub open spec fn tallied_from(
        &self,
        candidate: NodeView,
        targets: Seq<NodeId>,
        replies: Seq<Option<RequestVoteResponse>>,
        after: NodeView,
        ok: bool,
    ) -> bool {
        crate::election::tallied(candidate, self.ballot(), 1, replies, after, ok)
    }

    /// Handles the expiry of the election timer: unless it is the leader, the node
    /// becomes a candidate, asks every other node for its vote and counts the
    /// replies.
    pub fn handle_election_timeout(&mut self) -> (r: Result<(), StorageError>)
        requires
            old(self)@.role() != Role::Leader ==> old(self)@.term() < u64::MAX,
            old(self)@.role() != Role::Leader ==> crate::log::last_index(old(self).storage.log())
                < u64::MAX,
        ensures
            final(self).same_setup(old(self)),
            old(self)@.evolves_to(final(self)@),
            old(self).keeps_coherence(final(self)),
            final(self).after_timeout(old(self), r),
            old(self)@.role() != Role::Leader ==> old(self)@.candidate(
                old(self).config.id,
            ).evolves_to(final(self)@),
            old(self)@.role() != Role::Leader && r is Ok ==> saved(
                old(self).storage,
                final(self).storage,
                final(self).state.hard_state,
            ),
            old(self)@.role() != Role::Leader && r is Ok && final(self)@.role() != Role::Leader
                ==> final(self).timer_runs(),
            old(self).storage.reliable() ==> r is Ok,
    {
        let election = match self.begin_election() {
            Ok(Some(election)) => election,
            Ok(None) => {
                return Ok(());
            },
            Err(e) => {
                return Err(e);
            },
        };
        let replies: Vec<Option<RequestVoteResponse>> = self.request_votes(&election);
        let ghost candidate = self@;
        let ghost storage = self.storage;
        let ghost timer = self.timer;
        let ghost targets = election.targets@;
        let ghost request = election.request;
        assert forall|i: int| 0 <= i < replies@.len() implies old(self).replied(
            targets[i],
            request,
            #[trigger] replies@[i],
        ) by {
            assert(self.replied(targets[i], request, replies@[i]));
        }
        let r = self.tally(election, &replies);
        assert(old(self).tallied_from(candidate, targets, replies@, self@, r is Ok));
        assert(self.after_candidacy(old(self), storage, timer, r));
        r
    }
}

/// Compares the ends of two logs; see [`crate::election::up_to_date`].
pub fn log_is_up_to_date(
    their_term: u64,
    their_index: u64,
    our_term: u64,
    our_index: u64,
) -> (r: bool)
    ensures
        r == crate::election::up_to_date(their_term, their_index, our_term, our_index),
{
    if their_term > our_term {
        true
    } else if their_term == our_term {
        their_index >= our_index
    } else {
        false
    }
}

} // verus!
