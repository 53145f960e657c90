//! The messages that nodes exchange and the records that they persist.

use vstd::prelude::*;

verus! {

/// Identifies a node of the cluster. Zero means "no node" wherever a vote is
/// recorded.
pub type NodeId = u64;

/// An opaque command for the state machine.
pub type CommandPayload = Vec<u8>;

/// The state that a node must have on stable storage before it answers a request.
#[derive(Clone, Copy, Debug, PartialEq, Eq, Structural)]
pub struct HardState {
    /// The latest term that the node has seen.
    pub term: u64,
    /// The candidate that received the node's vote in `term`, or 0.
    pub voted_for: NodeId,
    /// The highest log index known to be committed.
    pub commit_index: u64,
}

impl HardState {
    /// The hard state of a node that has seen nothing yet.
    pub open spec fn initial() -> HardState {
        HardState { term: 0, voted_for: 0, commit_index: 0 }
    }
}

impl Default for HardState {
    fn default() -> (r: HardState)
        ensures
            r == HardState::initial(),
    {
        HardState { term: 0, voted_for: 0, commit_index: 0 }
    }
}

/// One entry of the replicated log.
#[derive(Debug, PartialEq, Eq)]
pub struct LogEntry {
    /// The position of the entry in the replicated log; the first one is 1.
    pub index: u64,
    /// The term of the leader that created the entry.
    pub term: u64,
    /// The command that the entry carries.
    pub command: CommandPayload,
}

/// What a [`LogEntry`] stands for: its position, its term and its bytes.
#[verifier::ext_equal]
pub struct EntryView {
    pub index: u64,
    pub term: u64,
    pub command: Seq<u8>,
}

impl View for LogEntry {
    type V = EntryView;

    open spec fn view(&self) -> EntryView {
        EntryView { index: self.index, term: self.term, command: self.command@ }
    }
}

/// The views of a sequence of entries, in order.
pub open spec fn entries_view(entries: Seq<LogEntry>) -> Seq<EntryView> {
    entries.map_values(|e: LogEntry| e@)
}

impl Clone for LogEntry {
    fn clone(&self) -> (r: LogEntry)
        ensures
            r@ == self@,
    {
        let command = self.command.clone();
        assert(command@ =~= self.command@);
        LogEntry { index: self.index, term: self.term, command }
    }
}

/// Asks a peer for its vote.
#[derive(Clone, Copy, Debug, PartialEq, Eq, Structural)]
pub struct RequestVoteRequest {
    /// The term of the candidate.
    pub term: u64,
    /// The candidate that asks.
    pub candidate_id: NodeId,
    /// The index of the candidate's last log entry.
    pub last_log_index: u64,
    /// The term of the candidate's last log entry.
    pub last_log_term: u64,
}

/// The answer to a [`RequestVoteRequest`].
#[derive(Clone, Copy, Debug, PartialEq, Eq, Structural)]
pub struct RequestVoteResponse {
    /// The term of the voter.
    pub term: u64,
    /// Whether the vote was given.
    pub vote_granted: bool,
}

/// Replicates entries to a follower; without entries it is a heartbeat.
#[derive(Clone, Debug, PartialEq, Eq)]
pub struct AppendEntriesRequest {
    /// The term of the leader.
    pub term: u64,
    /// The leader that sends the entries.
    pub leader_id: NodeId,
    /// The index of the entry just before the new ones.
    pub prev_log_index: u64,
    /// The term of the entry at `prev_log_index`.
    pub prev_log_term: u64,
    /// The entries to store.
    pub entries: Vec<LogEntry>,
    /// The commit index of the leader.
    pub leader_commit: u64,
}

/// The answer to an [`AppendEntriesRequest`].
#[derive(Clone, Copy, Debug, PartialEq, Eq, Structural)]
pub struct AppendEntriesResponse {
    /// The term of the follower.
    pub term: u64,
    /// Whether the follower held the matching prefix.
    pub success: bool,
    /// The highest index that the follower stores.
    pub match_index: u64,
}

} // verus!
