//! The state of a node.

use crate::messages::{EntryView, HardState, LogEntry, NodeId};
use std::collections::HashMap;
use vstd::prelude::*;

verus! {

/// The roles that a node can be in.
#[derive(Debug, Clone, Copy, PartialEq, Eq, Structural)]
pub enum Role {
    /// The node waits for heartbeats from the leader.
    Follower,
    /// The node tries to become the leader.
    Candidate,
    /// The node sends heartbeats and log entries to the followers.
    Leader,
}

/// The volatile state of every node.
#[derive(Debug, Clone, PartialEq)]
pub struct VolatileState {
    /// The index of the highest log entry that the state machine has applied.
    pub last_applied: u64,
}

/// The state that only a leader uses.
#[derive(Debug, Clone, PartialEq)]
pub struct LeaderState {
    /// For each other node, the index of the next entry to send to it.
    pub next_index: HashMap<NodeId, u64>,
    /// For each other node, the highest index known to be stored there.
    pub match_index: HashMap<NodeId, u64>,
}

/// What a node knows about the role distribution.
#[derive(Debug, Clone, PartialEq)]
pub struct ServerState {
    /// The current role of the node.
    pub role: Role,
    /// The leader that the node knows of.
    pub leader_id: Option<NodeId>,
}

/// The complete state of a node.
#[derive(Debug, Clone, PartialEq)]
pub struct RaftState {
    /// The state that has to be persisted.
    pub hard_state: HardState,
    /// The log entries.
    pub log: Vec<LogEntry>,
    /// The volatile state.
    pub volatile: VolatileState,
    /// The state that only a leader uses.
    pub leader: LeaderState,
    /// The current role and the known leader.
    pub server: ServerState,
    /// The identifier of the node.
    pub node_id: NodeId,
}

/// What a [`RaftState`] stands for.
#[verifier::ext_equal]
pub struct StateView {
    pub hard_state: HardState,
    pub log: Seq<EntryView>,
    pub last_applied: u64,
    pub next_index: Map<NodeId, u64>,
    pub match_index: Map<NodeId, u64>,
    pub role: Role,
    pub leader_id: Option<NodeId>,
    pub node_id: NodeId,
}

impl StateView {
    /// The state of a node that has just been created.
    pub open spec fn initial(node_id: NodeId) -> StateView {
        StateView {
            hard_state: HardState::initial(),
            log: Seq::empty(),
            last_applied: 0,
            next_index: Map::empty(),
            match_index: Map::empty(),
            role: Role::Follower,
            leader_id: None,
            node_id,
        }
    }
}

impl View for RaftState {
    type V = StateView;

    open spec fn view(&self) -> StateView {
        StateView {
            hard_state: self.hard_state,
            log: crate::messages::entries_view(self.log@),
            last_applied: self.volatile.last_applied,
            next_index: self.leader.next_index@,
            match_index: self.leader.match_index@,
            role: self.server.role,
            leader_id: self.server.leader_id,
            node_id: self.node_id,
        }
    }
}

impl RaftState {
    /// Creates the state of a follower that has seen nothing yet.
    pub fn new(node_id: NodeId) -> (r: RaftState)
        ensures
            r@ == StateView::initial(node_id),
    {
        let r = RaftState {
            hard_state: HardState { term: 0, voted_for: 0, commit_index: 0 },
            log: Vec::new(),
            volatile: VolatileState { last_applied: 0 },
            leader: LeaderState { next_index: HashMap::new(), match_index: HashMap::new() },
            server: ServerState { role: Role::Follower, leader_id: None },
            node_id,
        };
        assert(r@ =~= StateView::initial(node_id));
        r
    }
}

impl Default for RaftState {
    fn default() -> (r: RaftState)
        ensures
            r@ == StateView::initial(0),
    {
        RaftState::new(0)
    }
}

} // verus!
