//! A verified Raft core: leader election, the in-memory log that votes are decided
//! on, and the rules of a simulated network to run a cluster on.

pub mod config;
pub mod election;
pub mod laws;
pub mod log;
pub mod machine;
pub mod memory;
pub mod messages;
pub mod mock;
pub mod network;
pub mod network_laws;
pub mod node;
pub mod node_laws;
pub mod setup_laws;
pub mod state;
pub mod storage;
pub mod storage_laws;
pub mod text;
pub mod timer;
pub mod transport;

pub use config::Config;
pub use machine::{NoopStateMachine, StateMachine};
pub use memory::InMemoryStorage;
pub use messages::{
    AppendEntriesRequest, AppendEntriesResponse, CommandPayload, HardState, LogEntry, NodeId,
    RequestVoteRequest, RequestVoteResponse,
};
pub use mock::{MockTransport, TransportRegistry};
pub use network::NetworkOptions;
pub use node::RaftNode;
pub use state::{LeaderState, RaftState, Role, ServerState, VolatileState};
pub use storage::{Storage, StorageError};
pub use transport::{Transport, TransportError};
