use raft::{
    AppendEntriesRequest, AppendEntriesResponse, Config, InMemoryStorage, MockTransport,
    NetworkOptions, NodeId, NoopStateMachine, RaftNode, RequestVoteRequest, RequestVoteResponse,
    Role, Transport, TransportError, TransportRegistry,
};
use std::collections::HashMap;
use std::sync::{Arc, Mutex, Weak};

type Node = RaftNode<InMemoryStorage, ClusterTransport, NoopStateMachine>;
type Registry = Arc<Mutex<TransportRegistry<Weak<Mutex<Node>>>>>;

/// A transport that asks the nodes of a cluster directly, over links that can be cut.
#[derive(Clone)]
struct ClusterTransport {
    mock: Arc<Mutex<MockTransport>>,
    registry: Registry,
}

impl ClusterTransport {
    fn peer(&self, peer_id: NodeId) -> Result<Arc<Mutex<Node>>, TransportError> {
        let mock = self.mock.lock().unwrap();
        if mock.network_options.is_partitioned(mock.node_id, peer_id) {
            return Err(TransportError::Partitioned(mock.node_id, peer_id));
        }
        let registry = self.registry.lock().unwrap();
        let endpoint = mock.route(&registry, peer_id)?;
        endpoint
            .upgrade()
            .ok_or(TransportError::ChannelClosed(peer_id))
    }
}

impl Transport for ClusterTransport {
    fn send_append_entries(
        &self,
        peer_id: NodeId,
        _request: AppendEntriesRequest,
    ) -> Result<AppendEntriesResponse, TransportError> {
        Err(TransportError::ChannelClosed(peer_id))
    }

    fn send_request_vote(
        &self,
        peer_id: NodeId,
        request: RequestVoteRequest,
    ) -> Result<RequestVoteResponse, TransportError> {
        let node = self.peer(peer_id)?;
        let answer = node.lock().unwrap().handle_request_vote(request);
        answer.map_err(|e| TransportError::Internal(e.message()))
    }
}

struct Cluster {
    nodes: HashMap<NodeId, Arc<Mutex<Node>>>,
    transports: HashMap<NodeId, ClusterTransport>,
    registry: Registry,
}

impl Cluster {
    fn time_out(&self, id: NodeId) {
        self.nodes[&id]
            .lock()
            .unwrap()
            .handle_election_timeout()
            .unwrap();
    }

    fn role(&self, id: NodeId) -> Role {
        self.nodes[&id].lock().unwrap().state.server.role
    }

    fn term(&self, id: NodeId) -> u64 {
        self.nodes[&id].lock().unwrap().state.hard_state.term
    }
}

fn setup_cluster(node_ids: Vec<NodeId>) -> Cluster {
    let registry: Registry = Arc::new(Mutex::new(TransportRegistry::new()));
    let mut nodes = HashMap::new();
    let mut transports = HashMap::new();
    for &node_id in &node_ids {
        let mut peers = HashMap::new();
        for &id in &node_ids {
            if id != node_id {
                peers.insert(id, format!("addr_{}", id));
            }
        }
        let config = Config {
            id: node_id,
            peers,
            heartbeat_interval_ms: 150,
            election_timeout_min_ms: 500,
            election_timeout_max_ms: 800,
        };
        let node = Arc::new_cyclic(|endpoint: &Weak<Mutex<Node>>| {
            let mock = MockTransport::create_with_options(
                node_id,
                NetworkOptions::default(),
                &mut registry.lock().unwrap(),
                endpoint.clone(),
            );
            let transport = ClusterTransport {
                mock: Arc::new(Mutex::new(mock)),
                registry: registry.clone(),
            };
            transports.insert(node_id, transport.clone());
            let storage = InMemoryStorage::new();
            Mutex::new(RaftNode::new(
                node_id,
                config,
                storage,
                transport,
                NoopStateMachine,
            ))
        });
        nodes.insert(node_id, node);
    }
    Cluster {
        nodes,
        transports,
        registry,
    }
}

#[test]
fn test_initial_state() {
    let cluster = setup_cluster(vec![1, 2, 3]);
    for node in cluster.nodes.values() {
        let node = node.lock().unwrap();
        assert_eq!(node.state.server.role, Role::Follower);
        assert_eq!(node.state.hard_state.term, 0);
    }
}

#[test]
fn test_single_node_becomes_leader() {
    let cluster = setup_cluster(vec![1]);
    {
        let node = cluster.nodes[&1].lock().unwrap();
        assert_eq!(node.state.server.role, Role::Follower);
        assert_eq!(node.state.hard_state.term, 0);
    }

    cluster.time_out(1);

    let node = cluster.nodes[&1].lock().unwrap();
    assert_eq!(
        node.state.server.role,
        Role::Leader,
        "Node should become leader"
    );
    assert_eq!(
        node.state.hard_state.term, 1,
        "Term should be incremented to 1"
    );
    assert_eq!(
        node.state.hard_state.voted_for, 1,
        "Should have voted for self"
    );
    assert_eq!(
        node.state.server.leader_id,
        Some(1),
        "Leader ID should be self"
    );
}

#[test]
fn test_three_node_election() {
    let node_ids = vec![1, 2, 3];
    let cluster = setup_cluster(node_ids.clone());

    cluster.time_out(1);

    let leaders: Vec<NodeId> = node_ids
        .iter()
        .copied()
        .filter(|id| cluster.role(*id) == Role::Leader)
        .collect();
    assert_eq!(leaders, vec![1], "Node 1 should be the leader");

    // Every node is asked before the votes are counted, so none lags behind.
    for node_id in &node_ids {
        let node = cluster.nodes[node_id].lock().unwrap();
        assert_eq!(node.state.hard_state.term, 1, "Node {} Term", node_id);
        if *node_id == 1 {
            assert_eq!(node.state.server.role, Role::Leader, "Node 1 Role");
            assert_eq!(node.state.server.leader_id, Some(1), "Node 1 Leader ID");
        } else {
            assert_eq!(
                node.state.server.role,
                Role::Follower,
                "Node {} Role",
                node_id
            );
        }
    }

    for node_id in &node_ids {
        let mock = cluster.transports[node_id].mock.lock().unwrap();
        mock.close(&mut cluster.registry.lock().unwrap());
    }
    assert!(cluster.registry.lock().unwrap().lookup(1).is_none());
}

#[test]
fn a_newer_election_replaces_the_leader() {
    let cluster = setup_cluster(vec![1, 2, 3]);
    cluster.time_out(1);
    cluster.time_out(2);
    assert_eq!(cluster.role(1), Role::Follower);
    assert_eq!(cluster.role(2), Role::Leader);
    assert_eq!(cluster.role(3), Role::Follower);
    for id in 1..=3 {
        assert_eq!(cluster.term(id), 2);
    }
}

#[test]
fn a_cut_off_node_stays_a_candidate() {
    let cluster = setup_cluster(vec![1, 2, 3]);
    {
        let mut mock = cluster.transports[&1].mock.lock().unwrap();
        mock.partition_from(2);
        mock.partition_from(3);
    }
    cluster.time_out(1);
    cluster.time_out(1);
    assert_eq!(cluster.role(1), Role::Candidate);
    assert_eq!(cluster.term(1), 2);
    assert_eq!(cluster.term(2), 0);

    // The candidate has a newer term by now, and its answer makes another one step
    // down.
    cluster.transports[&2]
        .mock
        .lock()
        .unwrap()
        .partition_from(3);
    cluster.time_out(2);
    assert_eq!(cluster.role(2), Role::Follower);
    assert_eq!(cluster.term(2), 2);

    cluster.transports[&1]
        .mock
        .lock()
        .unwrap()
        .heal_partition_from(2);
    cluster.time_out(1);
    assert_eq!(cluster.role(1), Role::Leader);
    assert_eq!(cluster.term(2), 3);
}

#[test]
fn a_term_has_at_most_one_leader() {
    let ids: Vec<NodeId> = (1..=5).collect();
    let cluster = setup_cluster(ids.clone());
    let mut leaders: HashMap<u64, NodeId> = HashMap::new();
    for round in 0..20u64 {
        let starter = round * 7 % 5 + 1;
        let cut = round * 3 % 5 + 1;
        cluster.transports[&starter]
            .mock
            .lock()
            .unwrap()
            .partition_from(cut);
        cluster.time_out(starter);
        for id in &ids {
            if cluster.role(*id) == Role::Leader {
                let leader = leaders.entry(cluster.term(*id)).or_insert(*id);
                assert_eq!(leader, id);
            }
        }
    }
    assert!(!leaders.is_empty());
}
