use raft::{
    AppendEntriesRequest, AppendEntriesResponse, Config, HardState, InMemoryStorage, LogEntry,
    NodeId, NoopStateMachine, RaftNode, RequestVoteRequest, RequestVoteResponse, Role, Storage,
    Transport, TransportError,
};
use std::collections::HashMap;

/// A transport that reaches nobody.
#[derive(Clone, Debug)]
struct SilentTransport;

impl Transport for SilentTransport {
    fn send_append_entries(
        &self,
        peer_id: NodeId,
        _request: AppendEntriesRequest,
    ) -> Result<AppendEntriesResponse, TransportError> {
        Err(TransportError::PeerNotFound(peer_id))
    }

    fn send_request_vote(
        &self,
        peer_id: NodeId,
        _request: RequestVoteRequest,
    ) -> Result<RequestVoteResponse, TransportError> {
        Err(TransportError::PeerNotFound(peer_id))
    }
}

fn default_config(id: NodeId, peers: HashMap<NodeId, String>) -> Config {
    Config {
        id,
        peers,
        heartbeat_interval_ms: 150,
        election_timeout_min_ms: 300,
        election_timeout_max_ms: 600,
    }
}

fn create_test_node(
    id: NodeId,
    peers: HashMap<NodeId, String>,
) -> RaftNode<InMemoryStorage, SilentTransport, NoopStateMachine> {
    let config = default_config(id, peers);
    let storage = InMemoryStorage::new();
    RaftNode::new(id, config, storage, SilentTransport, NoopStateMachine)
}

fn entries(count: u64, term_of: fn(u64) -> u64) -> Vec<LogEntry> {
    (1..=count)
        .map(|i| LogEntry {
            term: term_of(i),
            index: i,
            command: Vec::new(),
        })
        .collect()
}

#[test]
fn unit_tests_test_handle_request_vote_grant_vote() {
    let mut peers = HashMap::new();
    peers.insert(1, "addr1".to_string());
    peers.insert(2, "addr2".to_string());
    peers.insert(3, "addr3".to_string());

    let mut node = create_test_node(1, peers);
    let initial_hs = HardState {
        term: 5,
        voted_for: 0,
        commit_index: 0,
    };
    node.storage.save_hard_state(&initial_hs).unwrap();
    node.storage.append_log_entries(&entries(10, |_| 5)).unwrap();
    node.state.hard_state = initial_hs;

    let request = RequestVoteRequest {
        term: 5,
        candidate_id: 2,
        last_log_index: 10,
        last_log_term: 5,
    };
    let response = node.handle_request_vote(request).unwrap();

    assert!(response.vote_granted);
    assert_eq!(response.term, 5);
    let stored_state = node.storage.read_hard_state().unwrap();
    assert_eq!(stored_state.voted_for, 2);
    assert_eq!(stored_state.term, 5);
    assert_eq!(node.state.hard_state.voted_for, 2);
    assert_eq!(node.state.hard_state.term, 5);
}

#[test]
fn test_handle_request_vote_reject_term() {
    let mut peers = HashMap::new();
    peers.insert(1, "addr1".to_string());
    peers.insert(2, "addr2".to_string());

    let mut node = create_test_node(1, peers);
    let initial_hs = HardState {
        term: 5,
        voted_for: 0,
        commit_index: 0,
    };
    node.storage.save_hard_state(&initial_hs).unwrap();
    node.state.hard_state = initial_hs;

    let request = RequestVoteRequest {
        term: 4,
        candidate_id: 2,
        last_log_index: 10,
        last_log_term: 4,
    };
    let response = node.handle_request_vote(request).unwrap();

    assert!(!response.vote_granted);
    assert_eq!(response.term, 5);
    let stored_state = node.storage.read_hard_state().unwrap();
    assert_eq!(stored_state.voted_for, 0);
    assert_eq!(stored_state.term, 5);
    assert_eq!(node.state.hard_state.voted_for, 0);
}

#[test]
fn test_handle_request_vote_step_down() {
    let mut peers = HashMap::new();
    peers.insert(1, "addr1".to_string());
    peers.insert(2, "addr2".to_string());

    let mut node = create_test_node(1, peers);
    let initial_hs = HardState {
        term: 5,
        voted_for: 1,
        commit_index: 0,
    };
    node.storage.save_hard_state(&initial_hs).unwrap();
    node.state.hard_state = initial_hs;
    node.state.server.role = Role::Candidate;

    let request = RequestVoteRequest {
        term: 6,
        candidate_id: 2,
        last_log_index: 10,
        last_log_term: 6,
    };
    let response = node.handle_request_vote(request).unwrap();

    assert!(response.vote_granted);
    assert_eq!(response.term, 6);
    assert_eq!(node.state.server.role, Role::Follower);
    let stored_state = node.storage.read_hard_state().unwrap();
    assert_eq!(stored_state.term, 6);
    assert_eq!(stored_state.voted_for, 2);
    assert_eq!(node.state.hard_state.term, 6);
    assert_eq!(node.state.hard_state.voted_for, 2);
}

#[test]
fn test_handle_request_vote_reject_already_voted() {
    let mut peers = HashMap::new();
    peers.insert(1, "addr1".to_string());
    peers.insert(2, "addr2".to_string());
    peers.insert(3, "addr3".to_string());

    let mut node = create_test_node(1, peers);
    let initial_hs = HardState {
        term: 5,
        voted_for: 3,
        commit_index: 0,
    };
    node.storage.save_hard_state(&initial_hs).unwrap();
    node.state.hard_state = initial_hs;

    let request = RequestVoteRequest {
        term: 5,
        candidate_id: 2,
        last_log_index: 10,
        last_log_term: 5,
    };
    let response = node.handle_request_vote(request).unwrap();

    assert!(!response.vote_granted);
    assert_eq!(response.term, 5);
    let stored_state = node.storage.read_hard_state().unwrap();
    assert_eq!(stored_state.voted_for, 3);
    assert_eq!(stored_state.term, 5);
    assert_eq!(node.state.hard_state.voted_for, 3);
}

#[test]
fn test_handle_request_vote_reject_log_less_up_to_date() {
    let mut peers = HashMap::new();
    peers.insert(1, "addr1".to_string());
    peers.insert(2, "addr2".to_string());

    let mut node = create_test_node(1, peers);
    let initial_hs = HardState {
        term: 5,
        voted_for: 0,
        commit_index: 0,
    };
    node.storage.save_hard_state(&initial_hs).unwrap();
    node.storage.append_log_entries(&entries(11, |_| 5)).unwrap();
    node.state.hard_state = initial_hs;

    let request_shorter = RequestVoteRequest {
        term: 5,
        candidate_id: 2,
        last_log_index: 10,
        last_log_term: 5,
    };
    let response_shorter = node.handle_request_vote(request_shorter).unwrap();
    assert!(!response_shorter.vote_granted);
    assert_eq!(response_shorter.term, 5);
    let stored_state_1 = node.storage.read_hard_state().unwrap();
    assert_eq!(stored_state_1.voted_for, 0);
    assert_eq!(node.state.hard_state.voted_for, 0);

    let request_older_term = RequestVoteRequest {
        term: 5,
        candidate_id: 2,
        last_log_index: 11,
        last_log_term: 4,
    };
    let response_older_term = node.handle_request_vote(request_older_term).unwrap();
    assert!(!response_older_term.vote_granted);
    assert_eq!(response_older_term.term, 5);
    let stored_state_2 = node.storage.read_hard_state().unwrap();
    assert_eq!(stored_state_2.voted_for, 0);
    assert_eq!(node.state.hard_state.voted_for, 0);
}

#[test]
fn unit_tests_test_is_log_up_to_date() {
    let mut peers = HashMap::new();
    peers.insert(1, "addr1".to_string());
    let mut node = create_test_node(1, peers.clone());
    node.storage
        .append_log_entries(&entries(10, |i| if i <= 9 { 4 } else { 5 }))
        .unwrap();

    assert!(node.is_log_up_to_date(6, 11).unwrap());
    assert!(node.is_log_up_to_date(5, 11).unwrap());
    assert!(node.is_log_up_to_date(5, 10).unwrap());
    assert!(!node.is_log_up_to_date(4, 12).unwrap());
    assert!(!node.is_log_up_to_date(5, 9).unwrap());

    let node_empty = create_test_node(1, peers);
    assert!(node_empty.is_log_up_to_date(1, 1).unwrap());
    assert!(node_empty.is_log_up_to_date(0, 0).unwrap());
}

#[test]
fn test_become_follower() {
    let mut peers = HashMap::new();
    peers.insert(1, "addr1".to_string());
    let mut node = create_test_node(1, peers);

    let initial_hs = HardState {
        term: 3,
        voted_for: 1,
        commit_index: 0,
    };
    node.storage.save_hard_state(&initial_hs).unwrap();
    node.state.hard_state = initial_hs;
    node.state.server.role = Role::Candidate;
    node.state.server.leader_id = None;
    node.votes_received.insert(1);

    node.become_follower(5, Some(2)).unwrap();

    assert_eq!(node.state.server.role, Role::Follower);
    assert_eq!(node.state.server.leader_id, Some(2));
    assert!(node.votes_received.is_empty());
    let stored_state = node.storage.read_hard_state().unwrap();
    assert_eq!(stored_state.term, 5);
    assert_eq!(stored_state.voted_for, 0);
    assert_eq!(node.state.hard_state.term, 5);
    assert_eq!(node.state.hard_state.voted_for, 0);
}

#[test]
fn test_become_candidate() {
    let mut peers = HashMap::new();
    peers.insert(1, "addr1".to_string());
    peers.insert(2, "addr2".to_string());
    let mut node = create_test_node(1, peers);

    let initial_hs = HardState {
        term: 3,
        voted_for: 0,
        commit_index: 0,
    };
    node.storage.save_hard_state(&initial_hs).unwrap();
    node.state.hard_state = initial_hs;
    node.state.server.role = Role::Follower;
    node.state.server.leader_id = Some(2);

    node.become_candidate().unwrap();

    assert_eq!(node.state.server.role, Role::Candidate);
    assert_eq!(node.state.server.leader_id, None);
    assert!(node.votes_received.contains(&1));
    assert_eq!(node.votes_received.len(), 1);
    let stored_state = node.storage.read_hard_state().unwrap();
    assert_eq!(stored_state.term, 4);
    assert_eq!(stored_state.voted_for, 1);
    assert_eq!(node.state.hard_state.term, 4);
    assert_eq!(node.state.hard_state.voted_for, 1);
}

#[test]
fn test_become_leader() {
    let mut peers = HashMap::new();
    peers.insert(1, "addr1".to_string());
    peers.insert(2, "addr2".to_string());
    peers.insert(3, "addr3".to_string());
    let mut node = create_test_node(1, peers);

    let initial_hs = HardState {
        term: 4,
        voted_for: 1,
        commit_index: 0,
    };
    node.storage.save_hard_state(&initial_hs).unwrap();
    node.storage.append_log_entries(&entries(5, |_| 4)).unwrap();
    node.state.hard_state = initial_hs;
    node.state.server.role = Role::Candidate;
    node.votes_received.insert(1);
    node.votes_received.insert(2);

    node.become_leader().expect("become_leader should succeed");

    assert_eq!(node.state.server.role, Role::Leader);
    assert_eq!(node.state.server.leader_id, Some(1));
    assert!(node.votes_received.is_empty());

    let last_log_idx = node.storage.last_log_index().unwrap();
    assert_eq!(last_log_idx, 5);
    assert_eq!(
        node.state.leader.next_index.get(&2),
        Some(&(last_log_idx + 1))
    );
    assert_eq!(
        node.state.leader.next_index.get(&3),
        Some(&(last_log_idx + 1))
    );
    assert_eq!(node.state.leader.match_index.get(&2), Some(&0));
    assert_eq!(node.state.leader.match_index.get(&3), Some(&0));
    assert!(!node.state.leader.next_index.contains_key(&1));

    let stored_state = node.storage.read_hard_state().unwrap();
    assert_eq!(stored_state.term, 4);
    assert_eq!(stored_state.voted_for, 1);
}
