use raft::{
    AppendEntriesRequest, AppendEntriesResponse, Config, HardState, LogEntry, NodeId,
    NoopStateMachine, RaftNode, RequestVoteRequest, RequestVoteResponse, Role, Storage,
    StorageError, Transport, TransportError,
};
use std::collections::HashMap;
use std::sync::{Arc, Mutex};

/// A storage whose handles share their contents and that can be made to fail.
#[derive(Clone, Debug, Default)]
struct MockStorage {
    hard_state: Arc<Mutex<HardState>>,
    log: Arc<Mutex<Vec<LogEntry>>>,
    error_on_save: Arc<Mutex<bool>>,
    error_on_read: Arc<Mutex<bool>>,
}

impl MockStorage {
    fn fail_saves(&self, fail: bool) {
        *self.error_on_save.lock().unwrap() = fail;
    }

    fn fail_reads(&self, fail: bool) {
        *self.error_on_read.lock().unwrap() = fail;
    }
}

impl Storage for MockStorage {
    fn save_hard_state(&mut self, state: &HardState) -> Result<(), StorageError> {
        if *self.error_on_save.lock().unwrap() {
            return Err(StorageError::Backend(
                "MockStorage: Simulated save error".to_string(),
            ));
        }
        *self.hard_state.lock().unwrap() = *state;
        Ok(())
    }

    fn read_hard_state(&self) -> Result<HardState, StorageError> {
        if *self.error_on_read.lock().unwrap() {
            return Err(StorageError::Backend(
                "MockStorage: Simulated read error".to_string(),
            ));
        }
        Ok(*self.hard_state.lock().unwrap())
    }

    fn append_log_entries(&mut self, entries: &[LogEntry]) -> Result<(), StorageError> {
        let mut log = self.log.lock().unwrap();
        for entry in entries {
            if let Some(pos) = log.iter().position(|e| e.index == entry.index) {
                log[pos] = entry.clone();
            } else {
                log.push(entry.clone());
            }
        }
        Ok(())
    }

    fn read_log_entry(&self, index: u64) -> Result<Option<LogEntry>, StorageError> {
        let log = self.log.lock().unwrap();
        Ok(log.iter().find(|e| e.index == index).cloned())
    }

    fn read_log_entries(&self, start: u64, end: u64) -> Result<Vec<LogEntry>, StorageError> {
        let log = self.log.lock().unwrap();
        Ok(log
            .iter()
            .filter(|e| e.index >= start && e.index < end)
            .cloned()
            .collect())
    }

    fn truncate_log_prefix(&mut self, end_index_exclusive: u64) -> Result<(), StorageError> {
        self.log
            .lock()
            .unwrap()
            .retain(|e| e.index >= end_index_exclusive);
        Ok(())
    }

    fn truncate_log_suffix(&mut self, start_index_inclusive: u64) -> Result<(), StorageError> {
        self.log
            .lock()
            .unwrap()
            .retain(|e| e.index < start_index_inclusive);
        Ok(())
    }

    fn last_log_index(&self) -> Result<u64, StorageError> {
        if *self.error_on_read.lock().unwrap() {
            return Err(StorageError::Backend(
                "MockStorage: Simulated read error".to_string(),
            ));
        }
        Ok(self.log.lock().unwrap().last().map_or(0, |e| e.index))
    }

    fn last_log_term(&self) -> Result<u64, StorageError> {
        Ok(self.log.lock().unwrap().last().map_or(0, |e| e.term))
    }
}

/// A transport that records what it is asked to send and answers from a table.
#[derive(Clone, Debug, Default)]
struct RecordingTransport {
    sent_append_entries: Arc<Mutex<HashMap<NodeId, Vec<AppendEntriesRequest>>>>,
    sent_request_votes: Arc<Mutex<HashMap<NodeId, Vec<RequestVoteRequest>>>>,
    request_vote_responses: Arc<Mutex<HashMap<NodeId, RequestVoteResponse>>>,
    error_on_send: bool,
}

impl RecordingTransport {
    fn new() -> Self {
        Self::default()
    }

    fn set_request_vote_response(&self, peer_id: NodeId, term: u64, vote_granted: bool) {
        self.request_vote_responses
            .lock()
            .unwrap()
            .insert(peer_id, RequestVoteResponse { term, vote_granted });
    }

    fn sent_to(&self, peer_id: NodeId) -> Vec<RequestVoteRequest> {
        self.sent_request_votes
            .lock()
            .unwrap()
            .get(&peer_id)
            .cloned()
            .unwrap_or_default()
    }
}

impl Transport for RecordingTransport {
    fn send_append_entries(
        &self,
        peer_id: NodeId,
        request: AppendEntriesRequest,
    ) -> Result<AppendEntriesResponse, TransportError> {
        let term = request.term;
        self.sent_append_entries
            .lock()
            .unwrap()
            .entry(peer_id)
            .or_default()
            .push(request);
        Ok(AppendEntriesResponse {
            term,
            success: false,
            match_index: 0,
        })
    }

    fn send_request_vote(
        &self,
        peer_id: NodeId,
        request: RequestVoteRequest,
    ) -> Result<RequestVoteResponse, TransportError> {
        if self.error_on_send {
            return Err(TransportError::Internal(
                "MockTransport: Simulated send error".to_string(),
            ));
        }
        self.sent_request_votes
            .lock()
            .unwrap()
            .entry(peer_id)
            .or_default()
            .push(request);
        Ok(self
            .request_vote_responses
            .lock()
            .unwrap()
            .get(&peer_id)
            .copied()
            .unwrap_or(RequestVoteResponse {
                term: request.term,
                vote_granted: true,
            }))
    }
}

type TestNode = RaftNode<MockStorage, RecordingTransport, NoopStateMachine>;

fn create_test_node(
    id: NodeId,
    peers: HashMap<NodeId, String>,
    storage: MockStorage,
    transport: RecordingTransport,
    state_machine: NoopStateMachine,
) -> TestNode {
    let config = Config {
        id,
        peers,
        election_timeout_min_ms: 150,
        election_timeout_max_ms: 300,
        heartbeat_interval_ms: 50,
    };
    RaftNode::new(id, config, storage, transport, state_machine)
}

fn peers(ids: &[NodeId]) -> HashMap<NodeId, String> {
    ids.iter().map(|id| (*id, format!("peer{}", id))).collect()
}

fn entry(term: u64, index: u64) -> LogEntry {
    LogEntry {
        term,
        index,
        command: Vec::new(),
    }
}

#[test]
fn test_new_node_initial_state() {
    let storage = MockStorage::default();
    let transport = RecordingTransport::new();
    let node = create_test_node(1, HashMap::new(), storage, transport, NoopStateMachine);

    assert_eq!(node.id, 1);
    assert_eq!(node.state.hard_state.term, 0);
    assert_eq!(node.state.hard_state.voted_for, 0);
    assert_eq!(node.state.server.role, Role::Follower);
    assert!(node.state.server.leader_id.is_none());
    assert!(node.timer.is_armed());
}

#[test]
fn test_become_follower_updates_state_and_persists() {
    let storage = MockStorage::default();
    let transport = RecordingTransport::new();
    let mut node = create_test_node(
        1,
        HashMap::new(),
        storage.clone(),
        transport,
        NoopStateMachine,
    );

    assert_eq!(node.state.hard_state.term, 0);
    assert_eq!(node.state.server.role, Role::Follower);

    node.become_follower(1, Some(2)).unwrap();

    assert_eq!(node.state.hard_state.term, 1);
    assert_eq!(node.state.hard_state.voted_for, 0);
    assert_eq!(node.state.server.role, Role::Follower);
    assert_eq!(node.state.server.leader_id, Some(2));

    let persisted_hs = storage.read_hard_state().unwrap();
    assert_eq!(persisted_hs.term, 1);
    assert_eq!(persisted_hs.voted_for, 0);
    assert!(node.timer.is_armed());
}

#[test]
fn test_become_candidate_transitions_state_and_persists() {
    let mut storage = MockStorage::default();
    let transport = RecordingTransport::new();
    let mut node = create_test_node(
        1,
        peers(&[2, 3]),
        storage.clone(),
        transport.clone(),
        NoopStateMachine,
    );

    node.become_follower(0, None).unwrap();
    storage.save_hard_state(&node.state.hard_state).unwrap();

    node.become_candidate().unwrap();

    assert_eq!(node.state.hard_state.term, 1);
    assert_eq!(node.state.hard_state.voted_for, 1);
    assert_eq!(node.state.server.role, Role::Candidate);
    assert_eq!(node.votes_received.len(), 1);
    assert!(node.votes_received.contains(&1));

    let persisted_hs = storage.read_hard_state().unwrap();
    assert_eq!(persisted_hs.term, 1);
    assert_eq!(persisted_hs.voted_for, 1);
    assert!(node.timer.is_armed());
}

#[test]
fn test_become_leader_transitions_state_and_persists() {
    let storage = MockStorage::default();
    let transport = RecordingTransport::new();
    let mut node = create_test_node(
        1,
        peers(&[2]),
        storage.clone(),
        transport.clone(),
        NoopStateMachine,
    );

    node.become_candidate().unwrap();

    node.config.peers.clear();
    node.votes_received.clear();
    node.votes_received.insert(node.id);

    node.become_leader().unwrap();

    assert_eq!(node.state.hard_state.term, 1);
    assert_eq!(node.state.server.role, Role::Leader);
    assert_eq!(node.state.server.leader_id, Some(1));
    assert!(node.state.leader.next_index.is_empty());
    assert!(node.state.leader.match_index.is_empty());

    let persisted_hs = storage.read_hard_state().unwrap();
    assert_eq!(persisted_hs.term, 1);
    assert!(!node.timer.is_armed());
}

#[test]
fn lib_test_is_log_up_to_date() {
    let storage = MockStorage::default();
    let transport = RecordingTransport::new();
    let mut raft_node = create_test_node(
        1,
        HashMap::new(),
        storage.clone(),
        transport.clone(),
        NoopStateMachine,
    );

    raft_node.storage.append_log_entries(&[entry(1, 1)]).unwrap();
    assert!(raft_node.is_log_up_to_date(2, 1).unwrap());
    assert!(raft_node.is_log_up_to_date(1, 2).unwrap());

    raft_node.storage.append_log_entries(&[entry(2, 2)]).unwrap();
    assert!(!raft_node.is_log_up_to_date(1, 3).unwrap());
    assert!(!raft_node.is_log_up_to_date(2, 1).unwrap());

    let empty_storage = MockStorage::default();
    let mut raft_node_empty = create_test_node(
        2,
        HashMap::new(),
        empty_storage.clone(),
        RecordingTransport::new(),
        NoopStateMachine,
    );
    assert!(raft_node_empty.is_log_up_to_date(0, 0).unwrap());
    assert!(raft_node_empty.is_log_up_to_date(1, 1).unwrap());

    raft_node_empty
        .storage
        .append_log_entries(&[entry(1, 1)])
        .unwrap();
    assert!(!raft_node_empty.is_log_up_to_date(0, 0).unwrap());
}

#[test]
fn lib_test_handle_request_vote_grant_vote() {
    let storage = MockStorage::default();
    let transport = RecordingTransport::new();
    let mut node = create_test_node(
        1,
        HashMap::new(),
        storage.clone(),
        transport.clone(),
        NoopStateMachine,
    );
    node.state.hard_state.term = 1;
    node.storage.save_hard_state(&node.state.hard_state).unwrap();

    let request = RequestVoteRequest {
        term: 1,
        candidate_id: 2,
        last_log_index: 0,
        last_log_term: 0,
    };
    let response = node.handle_request_vote(request).unwrap();
    assert!(response.vote_granted);
    assert_eq!(response.term, 1);
    assert_eq!(node.state.hard_state.voted_for, 2);
    let persisted_hs = storage.read_hard_state().unwrap();
    assert_eq!(persisted_hs.voted_for, 2);
    assert_eq!(persisted_hs.term, 1);
    assert!(node.timer.is_armed());
}

#[test]
fn test_handle_request_vote_reject_lower_term() {
    let storage = MockStorage::default();
    let transport = RecordingTransport::new();
    let mut node = create_test_node(
        1,
        HashMap::new(),
        storage.clone(),
        transport.clone(),
        NoopStateMachine,
    );
    node.state.hard_state.term = 2;
    node.storage.save_hard_state(&node.state.hard_state).unwrap();

    let request = RequestVoteRequest {
        term: 1,
        candidate_id: 2,
        last_log_index: 0,
        last_log_term: 0,
    };
    let response = node.handle_request_vote(request).unwrap();
    assert!(!response.vote_granted);
    assert_eq!(response.term, 2);
    assert_eq!(node.state.hard_state.voted_for, 0);
    assert!(node.timer.is_armed());
}

#[test]
fn test_handle_request_vote_reject_already_voted_for_other_in_same_term() {
    let storage = MockStorage::default();
    let transport = RecordingTransport::new();
    let mut node = create_test_node(
        1,
        HashMap::new(),
        storage.clone(),
        transport.clone(),
        NoopStateMachine,
    );
    node.state.hard_state.term = 1;
    node.state.hard_state.voted_for = 2;
    node.storage.save_hard_state(&node.state.hard_state).unwrap();

    let request = RequestVoteRequest {
        term: 1,
        candidate_id: 3,
        last_log_index: 0,
        last_log_term: 0,
    };
    let response = node.handle_request_vote(request).unwrap();
    assert!(!response.vote_granted);
    assert_eq!(response.term, 1);
    assert_eq!(node.state.hard_state.voted_for, 2);
}

#[test]
fn test_handle_request_vote_grant_if_already_voted_for_candidate_in_same_term() {
    let storage = MockStorage::default();
    let transport = RecordingTransport::new();
    let mut node = create_test_node(
        1,
        HashMap::new(),
        storage.clone(),
        transport.clone(),
        NoopStateMachine,
    );
    node.state.hard_state.term = 1;
    node.state.hard_state.voted_for = 3;
    node.storage.save_hard_state(&node.state.hard_state).unwrap();

    let request = RequestVoteRequest {
        term: 1,
        candidate_id: 3,
        last_log_index: 0,
        last_log_term: 0,
    };
    let response = node.handle_request_vote(request).unwrap();
    assert!(response.vote_granted);
    assert_eq!(response.term, 1);
    assert_eq!(node.state.hard_state.voted_for, 3);
}

#[test]
fn test_handle_request_vote_reject_candidate_log_not_up_to_date() {
    let mut storage = MockStorage::default();
    let transport = RecordingTransport::new();
    let mut node = create_test_node(
        1,
        HashMap::new(),
        storage.clone(),
        transport.clone(),
        NoopStateMachine,
    );

    storage
        .append_log_entries(&[entry(1, 1), entry(1, 2)])
        .unwrap();
    node.state.hard_state.term = 1;
    node.storage.save_hard_state(&node.state.hard_state).unwrap();

    let request = RequestVoteRequest {
        term: 1,
        candidate_id: 2,
        last_log_index: 1,
        last_log_term: 1,
    };
    let response = node.handle_request_vote(request).unwrap();
    assert!(!response.vote_granted);
    assert_eq!(response.term, 1);
}

#[test]
fn test_handle_request_vote_step_down_if_candidate_term_is_higher() {
    let storage = MockStorage::default();
    let transport = RecordingTransport::new();
    let mut node = create_test_node(
        1,
        HashMap::new(),
        storage.clone(),
        transport.clone(),
        NoopStateMachine,
    );

    node.state.hard_state.term = 1;
    node.state.server.role = Role::Leader;
    node.state.server.leader_id = Some(1);
    node.storage.save_hard_state(&node.state.hard_state).unwrap();

    let request = RequestVoteRequest {
        term: 2,
        candidate_id: 2,
        last_log_index: 0,
        last_log_term: 0,
    };
    let response = node.handle_request_vote(request).unwrap();

    assert_eq!(node.state.server.role, Role::Follower);
    assert_eq!(node.state.hard_state.term, 2);
    assert_eq!(node.state.server.leader_id, None);
    assert!(response.vote_granted);
    assert_eq!(node.state.hard_state.voted_for, 2);
    let persisted_hs = storage.read_hard_state().unwrap();
    assert_eq!(persisted_hs.term, 2);
    assert_eq!(persisted_hs.voted_for, 2);
}

#[test]
fn test_election_timer_reset_on_become_follower() {
    let storage = MockStorage::default();
    let transport = RecordingTransport::new();
    let mut node = create_test_node(
        1,
        HashMap::new(),
        storage.clone(),
        transport.clone(),
        NoopStateMachine,
    );

    node.timer.cancel();
    assert!(
        !node.timer.is_armed(),
        "Timer should initially be cleared for test"
    );

    node.become_follower(1, None).unwrap();

    assert!(
        node.timer.is_armed(),
        "Timer should be reset when becoming follower"
    );
}

#[test]
fn test_handle_election_timeout_single_node_becomes_leader() {
    let storage = MockStorage::default();
    let mut node = create_test_node(
        1,
        HashMap::new(),
        storage.clone(),
        RecordingTransport::new(),
        NoopStateMachine,
    );
    node.handle_election_timeout().unwrap();
    assert_eq!(node.state.server.role, Role::Leader);
    assert_eq!(node.state.hard_state.term, 1);
    assert_eq!(storage.read_hard_state().unwrap().voted_for, 1);
    assert!(!node.timer.is_armed());
}

#[test]
fn test_handle_election_timeout_becomes_candidate_and_sends_request_votes() {
    let mut storage = MockStorage::default();
    storage
        .append_log_entries(&[entry(1, 1), entry(3, 2)])
        .unwrap();
    let transport = RecordingTransport::new();
    transport.set_request_vote_response(2, 1, false);
    transport.set_request_vote_response(3, 1, false);
    let mut node = create_test_node(
        1,
        peers(&[2, 3]),
        storage.clone(),
        transport.clone(),
        NoopStateMachine,
    );
    node.handle_election_timeout().unwrap();

    assert_eq!(node.state.server.role, Role::Candidate);
    assert_eq!(node.state.hard_state.term, 1);
    let expected = RequestVoteRequest {
        term: 1,
        candidate_id: 1,
        last_log_index: 2,
        last_log_term: 3,
    };
    assert_eq!(transport.sent_to(2), vec![expected]);
    assert_eq!(transport.sent_to(3), vec![expected]);
    assert!(transport.sent_to(1).is_empty());
}

#[test]
fn test_handle_election_timeout_candidate_receives_enough_votes_becomes_leader() {
    let storage = MockStorage::default();
    let transport = RecordingTransport::new();
    transport.set_request_vote_response(2, 1, true);
    transport.set_request_vote_response(3, 1, false);
    let mut node = create_test_node(
        1,
        peers(&[2, 3]),
        storage.clone(),
        transport.clone(),
        NoopStateMachine,
    );
    node.state.hard_state.term = 0;
    node.storage.save_hard_state(&node.state.hard_state).unwrap();

    node.handle_election_timeout().unwrap();
    assert_eq!(node.state.server.role, Role::Leader);
    assert_eq!(node.state.server.leader_id, Some(1));
    assert_eq!(node.state.leader.next_index.get(&2), Some(&1));
    assert_eq!(node.state.leader.next_index.get(&3), Some(&1));
    assert_eq!(node.state.leader.match_index.get(&2), Some(&0));
}

#[test]
fn test_handle_election_timeout_candidate_does_not_receive_enough_votes_starts_new_election() {
    let storage = MockStorage::default();
    let transport = RecordingTransport::new();
    transport.set_request_vote_response(2, 1, false);
    transport.set_request_vote_response(3, 1, false);
    let mut node = create_test_node(
        1,
        peers(&[2, 3]),
        storage.clone(),
        transport.clone(),
        NoopStateMachine,
    );
    node.state.hard_state.term = 0;
    node.storage.save_hard_state(&node.state.hard_state).unwrap();

    node.handle_election_timeout().unwrap();
    assert_eq!(node.state.server.role, Role::Candidate);
    assert_eq!(node.state.hard_state.term, 1);
    assert!(node.timer.is_armed());

    node.handle_election_timeout().unwrap();
    assert_eq!(node.state.server.role, Role::Candidate);
    assert_eq!(node.state.hard_state.term, 2);
    assert_eq!(transport.sent_to(2).len(), 2);
}

#[test]
fn test_handle_election_timeout_leader_remains_leader_and_sends_heartbeats() {
    let storage = MockStorage::default();
    let transport = RecordingTransport::new();
    let mut node = create_test_node(
        1,
        peers(&[2]),
        storage.clone(),
        transport.clone(),
        NoopStateMachine,
    );

    node.become_candidate().unwrap();
    node.become_leader().unwrap();

    assert_eq!(node.state.server.role, Role::Leader);
    assert_eq!(node.state.hard_state.term, 1);

    transport.sent_append_entries.lock().unwrap().clear();

    node.handle_election_timeout().unwrap();

    assert_eq!(node.state.server.role, Role::Leader, "Should remain Leader");
    assert_eq!(node.state.hard_state.term, 1, "Term should not change");
    assert!(
        transport
            .sent_append_entries
            .lock()
            .unwrap()
            .get(&2)
            .map_or(true, |v| v.is_empty()),
        "Heartbeats should not be sent by current leader handle_election_timeout placeholder"
    );
}

#[test]
fn a_newer_term_in_a_reply_ends_the_election() {
    let storage = MockStorage::default();
    let transport = RecordingTransport::new();
    transport.set_request_vote_response(2, 9, false);
    let mut node = create_test_node(
        1,
        peers(&[1, 2]),
        storage.clone(),
        transport,
        NoopStateMachine,
    );
    node.handle_election_timeout().unwrap();
    assert_eq!(node.state.server.role, Role::Follower);
    assert_eq!(node.state.hard_state.term, 9);
    assert_eq!(node.state.hard_state.voted_for, 0);
    assert_eq!(node.state.server.leader_id, None);
    assert!(node.votes_received.is_empty());
    assert_eq!(storage.read_hard_state().unwrap(), node.state.hard_state);
}

#[test]
fn unreachable_peers_give_no_votes() {
    let storage = MockStorage::default();
    let transport = RecordingTransport {
        error_on_send: true,
        ..RecordingTransport::default()
    };
    let mut node = create_test_node(1, peers(&[1, 2, 3]), storage, transport, NoopStateMachine);
    node.handle_election_timeout().unwrap();
    assert_eq!(node.state.server.role, Role::Candidate);
}

#[test]
fn a_cluster_of_one_that_lists_itself_has_a_leader() {
    let storage = MockStorage::default();
    let mut node = create_test_node(
        1,
        peers(&[1]),
        storage,
        RecordingTransport::new(),
        NoopStateMachine,
    );
    node.handle_election_timeout().unwrap();
    assert_eq!(node.state.server.role, Role::Leader);
    assert_eq!(node.state.hard_state.term, 1);
    assert_eq!(node.state.server.leader_id, Some(1));
    assert!(!node.timer.is_armed());
}

#[test]
fn one_vote_of_two_is_no_majority() {
    for listed in [vec![2], vec![1, 2]] {
        for (granted, role) in [(false, Role::Candidate), (true, Role::Leader)] {
            let transport = RecordingTransport::new();
            transport.set_request_vote_response(2, 1, granted);
            let mut node = create_test_node(
                1,
                peers(&listed),
                MockStorage::default(),
                transport,
                NoopStateMachine,
            );
            node.handle_election_timeout().unwrap();
            assert_eq!(node.state.server.role, role);
            assert_eq!(node.state.hard_state.term, 1);
        }
    }
}

#[test]
fn four_nodes_need_three_votes() {
    for listed in [vec![2, 3, 4], vec![1, 2, 3, 4]] {
        for (granted, role) in [(1, Role::Candidate), (2, Role::Leader)] {
            let transport = RecordingTransport::new();
            for peer in 2..=4u64 {
                transport.set_request_vote_response(peer, 1, peer < 2 + granted);
            }
            let mut node = create_test_node(
                1,
                peers(&listed),
                MockStorage::default(),
                transport,
                NoopStateMachine,
            );
            node.handle_election_timeout().unwrap();
            assert_eq!(node.state.server.role, role);
        }
    }
}

#[test]
fn five_nodes_need_three_votes() {
    for (granted, role) in [(1, Role::Candidate), (2, Role::Leader), (4, Role::Leader)] {
        let storage = MockStorage::default();
        let transport = RecordingTransport::new();
        for peer in 2..=5u64 {
            transport.set_request_vote_response(peer, 1, peer < 2 + granted);
        }
        let mut node = create_test_node(
            1,
            peers(&[1, 2, 3, 4, 5]),
            storage,
            transport,
            NoopStateMachine,
        );
        node.handle_election_timeout().unwrap();
        assert_eq!(node.state.server.role, role);
    }
}

#[test]
fn a_failed_save_leaves_the_new_term_in_memory_and_the_timer_alone() {
    let storage = MockStorage::default();
    let mut node = create_test_node(
        1,
        HashMap::new(),
        storage.clone(),
        RecordingTransport::new(),
        NoopStateMachine,
    );
    node.timer.cancel();
    storage.fail_saves(true);
    let err = node.become_follower(4, Some(3)).unwrap_err();
    assert_eq!(err.message(), "MockStorage: Simulated save error");
    assert_eq!(node.state.hard_state.term, 4);
    assert_eq!(node.state.server.leader_id, Some(3));
    assert!(!node.timer.is_armed());
    assert_eq!(storage.read_hard_state().unwrap().term, 0);

    let request = RequestVoteRequest {
        term: 4,
        candidate_id: 2,
        last_log_index: 0,
        last_log_term: 0,
    };
    assert!(node.handle_request_vote(request).is_err());
    assert!(node.become_candidate().is_err());
    assert_eq!(node.state.server.role, Role::Candidate);
    assert_eq!(node.state.hard_state.term, 5);
    assert!(node.handle_election_timeout().is_err());
}

#[test]
fn a_failed_read_stops_a_vote_and_a_promotion() {
    let storage = MockStorage::default();
    let mut node = create_test_node(
        1,
        peers(&[2]),
        storage.clone(),
        RecordingTransport::new(),
        NoopStateMachine,
    );
    storage.fail_reads(true);
    let request = RequestVoteRequest {
        term: 3,
        candidate_id: 2,
        last_log_index: 0,
        last_log_term: 0,
    };
    assert!(node.handle_request_vote(request).is_err());
    assert_eq!(node.state.hard_state.term, 3);
    assert_eq!(node.state.hard_state.voted_for, 0);
    assert!(node.is_log_up_to_date(1, 1).is_err());

    node.become_candidate().unwrap();
    assert!(node.become_leader().is_err());
    assert_eq!(node.state.server.role, Role::Leader);
    assert!(node.state.leader.next_index.is_empty());
    assert!(node.timer.is_armed());
}

#[test]
fn only_a_candidate_becomes_the_leader() {
    let storage = MockStorage::default();
    let mut node = create_test_node(
        1,
        peers(&[2]),
        storage,
        RecordingTransport::new(),
        NoopStateMachine,
    );
    node.become_leader().unwrap();
    assert_eq!(node.state.server.role, Role::Follower);
    assert_eq!(node.state.server.leader_id, None);
}

#[test]
fn an_older_term_does_not_make_a_follower() {
    let storage = MockStorage::default();
    let mut node = create_test_node(
        1,
        peers(&[2]),
        storage,
        RecordingTransport::new(),
        NoopStateMachine,
    );
    node.become_candidate().unwrap();
    node.become_follower(0, Some(2)).unwrap();
    assert_eq!(node.state.server.role, Role::Candidate);
    assert_eq!(node.state.server.leader_id, None);
    node.become_follower(1, Some(2)).unwrap();
    assert_eq!(node.state.server.role, Role::Follower);
    assert_eq!(node.state.hard_state.voted_for, 1);
}

#[test]
fn a_voter_keeps_its_vote_within_a_term() {
    let storage = MockStorage::default();
    let mut node = create_test_node(
        1,
        peers(&[1, 2, 3]),
        storage.clone(),
        RecordingTransport::new(),
        NoopStateMachine,
    );
    let ask = |term: u64, candidate_id: NodeId| RequestVoteRequest {
        term,
        candidate_id,
        last_log_index: 0,
        last_log_term: 0,
    };
    assert!(node.handle_request_vote(ask(1, 2)).unwrap().vote_granted);
    assert!(!node.handle_request_vote(ask(1, 3)).unwrap().vote_granted);
    assert!(node.handle_request_vote(ask(1, 2)).unwrap().vote_granted);
    assert_eq!(storage.read_hard_state().unwrap().voted_for, 2);
    assert!(node.handle_request_vote(ask(2, 3)).unwrap().vote_granted);
    let refused = node.handle_request_vote(ask(1, 2)).unwrap();
    assert_eq!(
        refused,
        RequestVoteResponse {
            term: 2,
            vote_granted: false
        }
    );
}

#[test]
fn a_candidate_votes_for_nobody_else() {
    let storage = MockStorage::default();
    let mut node = create_test_node(
        1,
        peers(&[1, 2, 3]),
        storage,
        RecordingTransport::new(),
        NoopStateMachine,
    );
    node.become_candidate().unwrap();
    let request = RequestVoteRequest {
        term: 1,
        candidate_id: 2,
        last_log_index: 10,
        last_log_term: 10,
    };
    assert!(!node.handle_request_vote(request).unwrap().vote_granted);
    assert_eq!(node.state.server.role, Role::Candidate);
}

#[test]
fn an_election_can_be_counted_reply_by_reply() {
    let storage = MockStorage::default();
    let mut node = create_test_node(
        1,
        peers(&[1, 2, 3, 4, 5]),
        storage,
        RecordingTransport::new(),
        NoopStateMachine,
    );
    let mut election = node.begin_election().unwrap().unwrap();
    let mut targets = election.targets.clone();
    targets.sort();
    assert_eq!(targets, vec![2, 3, 4, 5]);
    assert_eq!(election.votes, 1);
    assert_eq!(election.required, 3);

    let yes = Some(RequestVoteResponse {
        term: 1,
        vote_granted: true,
    });
    assert!(node.count_reply(&mut election, None).unwrap());
    assert!(node.count_reply(&mut election, yes).unwrap());
    assert_eq!(election.votes, 2);
    assert!(!node.count_reply(&mut election, yes).unwrap());
    assert_eq!(node.state.server.role, Role::Leader);
    assert!(!node.count_reply(&mut election, yes).unwrap());
    assert!(node.begin_election().unwrap().is_none());
}

#[test]
fn the_timeout_lies_within_the_configured_bounds() {
    let storage = MockStorage::default();
    let mut node = create_test_node(
        1,
        HashMap::new(),
        storage,
        RecordingTransport::new(),
        NoopStateMachine,
    );
    let mut above_max = false;
    for _ in 0..200 {
        let (_, duration) = node.reset_election_timer();
        assert!((150..450).contains(&duration));
        assert_eq!(node.timer.duration_ms(), duration);
        above_max = above_max || duration > 300;
    }
    assert!(above_max);

    node.config.election_timeout_max_ms = 2;
    let mut seen = [false; 2];
    for _ in 0..200 {
        let (_, duration) = node.reset_election_timer();
        seen[(duration - 150) as usize] = true;
    }
    assert_eq!(seen, [true; 2]);

    node.config.election_timeout_max_ms = 0;
    let (_, duration) = node.reset_election_timer();
    assert_eq!(duration, 150);

    node.config.election_timeout_min_ms = u64::MAX;
    node.config.election_timeout_max_ms = 300;
    let (_, duration) = node.reset_election_timer();
    assert_eq!(duration, u64::MAX);
}

#[test]
fn a_vote_for_the_identifier_zero_is_no_vote() {
    let storage = MockStorage::default();
    let mut node = create_test_node(
        1,
        peers(&[2]),
        storage.clone(),
        RecordingTransport::new(),
        NoopStateMachine,
    );
    let ask = |candidate_id: NodeId| RequestVoteRequest {
        term: 0,
        candidate_id,
        last_log_index: 0,
        last_log_term: 0,
    };
    assert!(node.handle_request_vote(ask(0)).unwrap().vote_granted);
    assert_eq!(node.state.hard_state.voted_for, 0);
    assert!(node.handle_request_vote(ask(2)).unwrap().vote_granted);
    assert!(!node.handle_request_vote(ask(0)).unwrap().vote_granted);
    assert_eq!(storage.read_hard_state().unwrap().voted_for, 2);
}

#[test]
fn the_receiver_of_a_reset_is_notified_by_the_next_one() {
    let mut node = create_test_node(
        1,
        peers(&[1, 2]),
        MockStorage::default(),
        RecordingTransport::new(),
        NoopStateMachine,
    );
    let (mut first, _) = node.reset_election_timer();
    assert!(first.try_recv().is_err());
    let (mut second, _) = node.reset_election_timer();
    assert_eq!(first.try_recv(), Ok(()));
    assert!(second.try_recv().is_err());
    node.become_follower(1, None).unwrap();
    assert_eq!(second.try_recv(), Ok(()));
}

#[test]
fn a_request_that_records_no_vote_writes_nothing() {
    let storage = MockStorage::default();
    let mut node = create_test_node(
        1,
        peers(&[1, 2, 3]),
        storage.clone(),
        RecordingTransport::new(),
        NoopStateMachine,
    );
    let ask = |term: u64, candidate_id: NodeId| RequestVoteRequest {
        term,
        candidate_id,
        last_log_index: 0,
        last_log_term: 0,
    };
    let first = node.handle_request_vote(ask(1, 2)).unwrap();
    storage.fail_saves(true);
    assert_eq!(node.handle_request_vote(ask(1, 2)).unwrap(), first);
    assert!(!node.handle_request_vote(ask(1, 3)).unwrap().vote_granted);
    assert!(!node.handle_request_vote(ask(0, 3)).unwrap().vote_granted);
    let err = node.handle_request_vote(ask(2, 3)).unwrap_err();
    assert_eq!(err.message(), "MockStorage: Simulated save error");
}

#[test]
fn a_vote_for_itself_that_cannot_be_saved_ends_the_election() {
    let storage = MockStorage::default();
    let transport = RecordingTransport::new();
    let mut node = create_test_node(
        1,
        peers(&[1, 2, 3]),
        storage.clone(),
        transport.clone(),
        NoopStateMachine,
    );
    storage.fail_saves(true);
    let err = node.handle_election_timeout().unwrap_err();
    assert_eq!(err.message(), "MockStorage: Simulated save error");
    assert_eq!(node.state.server.role, Role::Candidate);
    assert!(transport.sent_to(2).is_empty());
    assert!(transport.sent_to(3).is_empty());
}

#[test]
fn every_restart_notifies_the_receiver_of_the_running_timer() {
    let storage = MockStorage::default();
    let mut node = create_test_node(
        1,
        peers(&[1, 2, 3]),
        storage.clone(),
        RecordingTransport::new(),
        NoopStateMachine,
    );
    let ask = |candidate_id: NodeId| RequestVoteRequest {
        term: 1,
        candidate_id,
        last_log_index: 0,
        last_log_term: 0,
    };

    let (mut receiver, _) = node.reset_election_timer();
    assert!(node.handle_request_vote(ask(2)).unwrap().vote_granted);
    assert_eq!(receiver.try_recv(), Ok(()));

    let (mut receiver, _) = node.reset_election_timer();
    assert!(!node.handle_request_vote(ask(3)).unwrap().vote_granted);
    assert!(receiver.try_recv().is_err());
    assert!(node.handle_request_vote(ask(2)).unwrap().vote_granted);
    assert_eq!(receiver.try_recv(), Ok(()));

    let (mut receiver, _) = node.reset_election_timer();
    storage.fail_saves(true);
    assert!(node.become_candidate().is_err());
    assert!(receiver.try_recv().is_err());
    storage.fail_saves(false);
    node.become_candidate().unwrap();
    assert_eq!(receiver.try_recv(), Ok(()));

    let (mut receiver, _) = node.reset_election_timer();
    node.become_leader().unwrap();
    assert_eq!(receiver.try_recv(), Ok(()));
    assert!(!node.timer.is_armed());

    node.become_follower(9, None).unwrap();
    let (mut receiver, _) = node.reset_election_timer();
    node.handle_election_timeout().unwrap();
    assert_eq!(receiver.try_recv(), Ok(()));
}
