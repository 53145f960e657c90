//! The rules of leader election, as functions on what a node knows.

use crate::messages::{HardState, NodeId, RequestVoteRequest, RequestVoteResponse};
use crate::state::{Role, StateView};
use vstd::prelude::*;

verus! {

/// Whether a log that ends with an entry of term `their_term` at `their_index` is
/// at least as up-to-date as one that ends with term `our_term` at `our_index`.
/// The later term wins; between equal terms the longer log wins.
pub open spec fn up_to_date(
    their_term: u64,
    their_index: u64,
    our_term: u64,
    our_index: u64,
) -> bool {
    their_term > our_term || (their_term == our_term && their_index >= our_index)
}

/// What a node knows that elections are about: its state, the votes it has
/// collected, and whether its election timer runs.
#[verifier::ext_equal]
pub struct NodeView {
    pub state: StateView,
    pub votes: Set<NodeId>,
    pub armed: bool,
}

impl NodeView {
    /// A node that has just been created.
    pub open spec fn initial(node_id: NodeId) -> NodeView {
        NodeView { state: StateView::initial(node_id), votes: Set::empty(), armed: true }
    }

    /// The current term.
    pub open spec fn term(self) -> u64 {
        self.state.hard_state.term
    }

    /// Who has the vote of the node in the current term, or 0.
    pub open spec fn voted_for(self) -> NodeId {
        self.state.hard_state.voted_for
    }

    /// The current role.
    pub open spec fn role(self) -> Role {
        self.state.role
    }

    /// The node with its election timer running or not.
    pub open spec fn with_armed(self, armed: bool) -> NodeView {
        NodeView { armed, ..self }
    }

    /// The node after it gave its vote to `candidate_id`, with its election timer
    /// restarted.
    pub open spec fn with_vote(self, candidate_id: NodeId) -> NodeView {
        NodeView {
            state: StateView {
                hard_state: HardState { voted_for: candidate_id, ..self.state.hard_state },
                ..self.state
            },
            armed: true,
            ..self
        }
    }

    /// Whether a node may turn from this into `later` without going back on what it
    /// has promised: its term never decreases, and a vote that it has given in a
    /// term stays given in that term.
    pub open spec fn evolves_to(self, later: NodeView) -> bool {
        &&& self.term() <= later.term()
        &&& self.term() == later.term() && self.voted_for() != 0 ==> later.voted_for()
            == self.voted_for()
    }

    /// Whether what the node knows fits its role: a candidate has its own vote and
    /// no leader, and a leader has its own vote and follows itself.
    pub open spec fn coherent(self, id: NodeId) -> bool {
        match self.role() {
            Role::Follower => true,
            Role::Candidate => {
                &&& self.voted_for() == id
                &&& self.state.leader_id is None
                &&& self.votes == Set::<NodeId>::empty().insert(id)
            },
            Role::Leader => {
                &&& self.voted_for() == id
                &&& self.state.leader_id == Some(id)
            },
        }
    }

    /// The node as a follower in `term`. A newer term clears the vote; an older
    /// one is ignored.
    pub open spec fn follower(self, term: u64, leader_id: Option<NodeId>) -> NodeView {
        if term < self.term() {
            self
        } else {
            NodeView {
                state: StateView {
                    hard_state: if term > self.term() {
                        HardState { term, voted_for: 0, ..self.state.hard_state }
                    } else {
                        self.state.hard_state
                    },
                    role: Role::Follower,
                    leader_id,
                    ..self.state
                },
                votes: Set::empty(),
                armed: true,
            }
        }
    }

    /// The node as a candidate in the next term, with its own vote.
    pub open spec fn candidate(self, id: NodeId) -> NodeView {
        NodeView {
            state: StateView {
                hard_state: HardState {
                    term: (self.term() + 1) as u64,
                    voted_for: id,
                    ..self.state.hard_state
                },
                role: Role::Candidate,
                leader_id: None,
                ..self.state
            },
            votes: Set::empty().insert(id),
            armed: true,
        }
    }

    /// The node in the role of the leader, before it looks at its peers.
    pub open spec fn crowned(self, id: NodeId) -> NodeView {
        NodeView {
            state: StateView { role: Role::Leader, leader_id: Some(id), ..self.state },
            votes: Set::empty(),
            ..self
        }
    }

    /// The node as the leader: every other node is sent what follows the last log
    /// entry, and none is known to store anything.
    pub open spec fn leader(self, id: NodeId, others: Set<NodeId>, last_index: u64) -> NodeView {
        let crowned = self.crowned(id);
        NodeView {
            state: StateView {
                next_index: Map::new(
                    |peer: NodeId| others.contains(peer),
                    |peer: NodeId| (last_index + 1) as u64,
                ),
                match_index: Map::new(|peer: NodeId| others.contains(peer), |peer: NodeId| 0u64),
                ..crowned.state
            },
            armed: false,
            ..crowned
        }
    }

    /// Whether the node, whose log ends with `last_term` at `last_index`, gives its
    /// vote to the candidate, once it has the candidate's term.
    pub open spec fn grants(
        self,
        request: RequestVoteRequest,
        last_term: u64,
        last_index: u64,
    ) -> bool {
        &&& self.voted_for() == 0 || self.voted_for() == request.candidate_id
        &&& up_to_date(request.last_log_term, request.last_log_index, last_term, last_index)
    }

    /// The node after it was asked for its vote in its own term.
    pub open spec fn decided(
        self,
        request: RequestVoteRequest,
        last_term: u64,
        last_index: u64,
    ) -> NodeView {
        if self.grants(request, last_term, last_index) {
            self.with_vote(request.candidate_id)
        } else {
            self
        }
    }

    /// The node after it has taken note of the term of a request: it steps down
    /// when the term is newer.
    pub open spec fn noticed(self, term: u64) -> NodeView {
        if term > self.term() {
            self.follower(term, None)
        } else {
            self
        }
    }

    /// The node after it was asked for its vote. Requests of an older term are
    /// ignored.
    pub open spec fn asked(
        self,
        request: RequestVoteRequest,
        last_term: u64,
        last_index: u64,
    ) -> NodeView {
        if request.term < self.term() {
            self
        } else {
            self.noticed(request.term).decided(request, last_term, last_index)
        }
    }

    /// The answer to a vote request.
    pub open spec fn answer(
        self,
        request: RequestVoteRequest,
        last_term: u64,
        last_index: u64,
    ) -> RequestVoteResponse {
        if request.term < self.term() {
            RequestVoteResponse { term: self.term(), vote_granted: false }
        } else {
            RequestVoteResponse {
                term: request.term,
                vote_granted: self.noticed(request.term).grants(request, last_term, last_index),
            }
        }
    }
}

/// What a reply to a vote request does to a candidate.
pub enum Verdict {
    /// The reply carries a newer term: the candidate steps down.
    StepDown(u64),
    /// The votes suffice: the candidate becomes the leader.
    Win,
    /// The candidate goes on with this many votes.
    Undecided(nat),
}

/// Judges one reply for a candidate in `term` that has `votes` votes and needs
/// `quorum`. A peer that could not be asked gives no reply.
pub open spec fn judge(
    term: u64,
    votes: nat,
    quorum: nat,
    reply: Option<RequestVoteResponse>,
) -> Verdict {
    match reply {
        Some(response) if response.term > term => Verdict::StepDown(response.term),
        _ => {
            let total: nat = if reply matches Some(response) && response.vote_granted {
                votes + 1
            } else {
                votes
            };
            if total >= quorum {
                Verdict::Win
            } else {
                Verdict::Undecided(total)
            }
        },
    }
}

/// What stays fixed during an election.
pub struct Ballot {
    /// The candidate.
    pub id: NodeId,
    /// The nodes that the candidate asks.
    pub others: Set<NodeId>,
    /// The number of votes that the candidate needs.
    pub quorum: nat,
    /// The index of the last entry of the candidate's log.
    pub last_index: u64,
}

/// Whether `node` can end up as `after` when it looks at `replies` one by one and
/// stops at the first one that decides the election. With `ok` unset, the storage
/// failed while the decision was carried out.
pub open spec fn tallied(
    node: NodeView,
    ballot: Ballot,
    votes: nat,
    replies: Seq<Option<RequestVoteResponse>>,
    after: NodeView,
    ok: bool,
) -> bool
    decreases replies.len(),
{
    if replies.len() == 0 {
        ok && after == node
    } else {
        match judge(node.term(), votes, ballot.quorum, replies[0]) {
            Verdict::StepDown(term) => after == stepped_down(node, term, ok),
            Verdict::Win => after == won(node, ballot, ok),
            Verdict::Undecided(total) => tallied(
                node,
                ballot,
                total,
                replies.drop_first(),
                after,
                ok,
            ),
        }
    }
}

/// A candidate that steps down. The timer restarts only once the new term is saved.
pub open spec fn stepped_down(node: NodeView, term: u64, ok: bool) -> NodeView {
    node.follower(term, None).with_armed(ok || node.armed)
}

/// A candidate that wins. It learns where its log ends only from the storage.
pub open spec fn won(node: NodeView, ballot: Ballot, ok: bool) -> NodeView {
    if ok {
        node.leader(ballot.id, ballot.others, ballot.last_index)
    } else {
        node.crowned(ballot.id)
    }
}

} // verus!
