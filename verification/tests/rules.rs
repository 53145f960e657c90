use raft::config::Config;
use raft::machine::{NoopStateMachine, StateMachine};
use raft::network::{Duration, LinkSet};
use raft::node::log_is_up_to_date;
use raft::text::decimal_string;
use raft::timer::ElectionTimer;
use raft::{HardState, MockTransport, NetworkOptions, RaftState, Role, TransportError, TransportRegistry};
use std::collections::HashMap;

#[test]
fn numbers_are_written_in_decimal() {
    assert_eq!(decimal_string(0), "0");
    assert_eq!(decimal_string(7), "7");
    assert_eq!(decimal_string(10), "10");
    assert_eq!(decimal_string(9_000_000_001), "9000000001");
    assert_eq!(decimal_string(u64::MAX), "18446744073709551615");
}

#[test]
fn transport_errors_describe_themselves() {
    let cases = [
        (
            TransportError::PeerNotFound(99),
            "Peer node 99 not found in the transport registry",
        ),
        (
            TransportError::ChannelClosed(3),
            "Communication channel to peer 3 is closed",
        ),
        (
            TransportError::SendError(2, "channel closed".to_string()),
            "Failed to send request to peer 2: channel closed",
        ),
        (
            TransportError::RecvError(2),
            "Failed to receive response from peer 2",
        ),
        (
            TransportError::MessageDropped(12),
            "Network simulation error: Message dropped to peer 12",
        ),
        (
            TransportError::Partitioned(1, 2),
            "Network simulation error: Node 1 is partitioned from peer 2",
        ),
        (
            TransportError::NodeAlreadyExists(0),
            "Node 0 is already registered in the transport",
        ),
        (
            TransportError::Internal("lock poisoned".to_string()),
            "Internal transport error: lock poisoned",
        ),
    ];
    for (error, text) in cases {
        assert_eq!(error.message(), text);
    }
}

#[test]
fn a_reset_notifies_the_previous_receiver() {
    let mut timer = ElectionTimer::default();
    assert!(!timer.is_armed());
    assert_eq!(timer.duration_ms(), 0);

    let (mut first, duration) = timer.reset(150, 300);
    assert!((150..=300).contains(&duration));
    assert_eq!(timer.duration_ms(), duration);
    assert!(timer.is_armed());
    assert!(first.try_recv().is_err());

    let (mut second, duration) = timer.reset(20, 10);
    assert_eq!(duration, 20);
    assert_eq!(first.try_recv(), Ok(()));
    assert!(second.try_recv().is_err());

    timer.cancel();
    assert!(!timer.is_armed());
    assert_eq!(second.try_recv(), Ok(()));
    assert_eq!(timer.duration_ms(), 20);
    timer.cancel();
    assert!(!timer.is_armed());
}

#[test]
fn timeouts_are_drawn_from_the_whole_range() {
    let mut seen = [false; 4];
    for _ in 0..500 {
        let drawn = ElectionTimer::rand_range(5, 8);
        assert!((5..=8).contains(&drawn));
        seen[(drawn - 5) as usize] = true;
    }
    assert_eq!(seen, [true; 4]);
    assert_eq!(ElectionTimer::rand_range(9, 9), 9);
    assert_eq!(ElectionTimer::rand_range(9, 3), 9);
    let _ = ElectionTimer::rand_range(0, u64::MAX);
}

#[test]
fn durations_split_into_seconds_and_nanoseconds() {
    let d = Duration::from_millis(1_250);
    assert_eq!(d.as_secs(), 1);
    assert_eq!(d.subsec_nanos(), 250_000_000);
    assert_eq!(d, Duration::from_parts(1, 250_000_000));
    assert!(Duration::from_millis(0).is_zero());
    assert!(!Duration::from_parts(0, 1).is_zero());
    assert!(Duration::from_parts(0, 999_999_999).is_shorter(&Duration::from_millis(1_000)));
    assert!(!d.is_shorter(&d));
    assert_eq!(Duration::from_millis(u64::MAX).as_secs(), 18_446_744_073_709_551);
    assert_eq!(Duration::from_millis(u64::MAX).subsec_nanos(), 615_000_000);
}

#[test]
fn delays_lie_between_the_bounds() {
    let mut options = NetworkOptions::default();
    assert_eq!(options.simulate_delay(), None);

    options.min_delay = Duration::from_millis(20);
    options.max_delay = Duration::from_millis(20);
    assert_eq!(options.simulate_delay(), Some(Duration::from_millis(20)));

    options.max_delay = Duration::from_millis(5);
    assert_eq!(options.simulate_delay(), Some(Duration::from_millis(20)));

    options.min_delay = Duration::from_millis(900);
    options.max_delay = Duration::from_millis(2_100);
    let mut seconds = [false; 3];
    for _ in 0..500 {
        let delay = options.simulate_delay().unwrap();
        assert!(!delay.is_shorter(&options.min_delay));
        assert!(!options.max_delay.is_shorter(&delay));
        seconds[delay.as_secs() as usize] = true;
    }
    assert_eq!(seconds, [true; 3]);
}

#[test]
fn a_link_set_holds_each_link_once() {
    let mut links = LinkSet::new();
    assert!(links.insert(1, 2));
    assert!(!links.insert(1, 2));
    assert!(links.insert(2, 3));
    assert!(links.contains(1, 2));
    assert!(!links.contains(2, 1));
    let copy = links.clone();
    assert!(links.remove(1, 2));
    assert!(!links.remove(1, 2));
    assert!(!links.contains(1, 2));
    assert!(links.contains(2, 3));
    assert!(copy.contains(1, 2));
}

#[test]
fn cutting_a_link_is_one_way_and_can_be_undone() {
    let mut registry: TransportRegistry<()> = TransportRegistry::new();
    let mut mock =
        MockTransport::create_with_options(1, NetworkOptions::default(), &mut registry, ());
    mock.partition_from(2);
    assert!(mock.network_options.is_partitioned(1, 2));
    assert!(!mock.network_options.is_partitioned(2, 1));
    assert!(!mock.network_options.is_partitioned(1, 3));
    mock.heal_partition_from(2);
    assert!(!mock.network_options.is_partitioned(1, 2));
    mock.heal_partition_from(2);
    assert!(!mock.network_options.is_partitioned(1, 2));
}

#[test]
fn logs_are_ordered_by_term_and_then_by_length() {
    assert!(log_is_up_to_date(2, 1, 1, 9));
    assert!(log_is_up_to_date(2, 9, 2, 9));
    assert!(!log_is_up_to_date(2, 8, 2, 9));
    assert!(!log_is_up_to_date(1, 10, 2, 9));
}

fn config(id: u64, listed: &[u64], min: u64, max: u64) -> Config {
    let peers: HashMap<u64, String> = listed.iter().map(|p| (*p, format!("addr{}", p))).collect();
    Config {
        id,
        peers,
        election_timeout_min_ms: min,
        election_timeout_max_ms: max,
        heartbeat_interval_ms: 1,
    }
}

#[test]
fn other_nodes_leave_out_the_node_itself() {
    let mut ids = config(1, &[1, 2, 3], 1, 2).other_ids();
    ids.sort();
    assert_eq!(ids, vec![2, 3]);
}

#[test]
fn a_majority_counts_the_node_itself_once() {
    assert_eq!(config(1, &[], 1, 2).required_votes(), 1);
    assert_eq!(config(1, &[1], 1, 2).required_votes(), 1);
    assert_eq!(config(1, &[2], 1, 2).required_votes(), 2);
    assert_eq!(config(1, &[1, 2], 1, 2).required_votes(), 2);
    assert_eq!(config(1, &[2, 3], 1, 2).required_votes(), 2);
    assert_eq!(config(1, &[1, 2, 3], 1, 2).required_votes(), 2);
    assert_eq!(config(1, &[2, 3, 4], 1, 2).required_votes(), 3);
    assert_eq!(config(1, &[1, 2, 3, 4], 1, 2).required_votes(), 3);
    assert_eq!(config(1, &[1, 2, 3, 4, 5], 1, 2).required_votes(), 3);
}

#[test]
fn the_longest_timeout_is_one_below_the_sum() {
    assert_eq!(config(1, &[], 150, 300).longest_timeout(), 449);
    assert_eq!(config(1, &[], 150, 1).longest_timeout(), 150);
    assert_eq!(config(1, &[], 150, 0).longest_timeout(), 150);
    assert_eq!(config(1, &[], u64::MAX, 9).longest_timeout(), u64::MAX);
}

#[test]
fn a_new_state_is_that_of_a_follower() {
    let state = RaftState::new(4);
    assert_eq!(state.node_id, 4);
    assert_eq!(state.hard_state, HardState::default());
    assert_eq!(state.hard_state.term, 0);
    assert_eq!(state.server.role, Role::Follower);
    assert_eq!(state.server.leader_id, None);
    assert_eq!(state.volatile.last_applied, 0);
    assert!(state.log.is_empty());
    assert!(state.leader.next_index.is_empty());
    assert!(state.leader.match_index.is_empty());
    assert_eq!(RaftState::default(), RaftState::new(0));
}

#[test]
fn the_idle_state_machine_takes_every_command() {
    let mut machine = NoopStateMachine;
    assert_eq!(machine.apply(vec![1, 2, 3]), Ok(()));
    assert_eq!(machine.apply(Vec::new()), Ok(()));
}
