//! The configuration of a node.

use crate::messages::NodeId;
use std::collections::HashMap;
use vstd::prelude::*;

verus! {

/// Configuration for a Raft node.
#[derive(Clone, Debug)]
pub struct Config {
    /// The identifier of this node within the cluster.
    pub id: NodeId,
    /// The network addresses of the nodes in the cluster, this node included.
    pub peers: HashMap<NodeId, String>,
    /// The base election timeout in milliseconds.
    pub election_timeout_min_ms: u64,
    /// What is added to the base at random, in milliseconds: the election timeout is
    /// the base and a number from 0 up to, but not including, this one.
    pub election_timeout_max_ms: u64,
    /// How often a leader sends heartbeats, in milliseconds.
    pub heartbeat_interval_ms: u64,
}

impl Config {
    /// The nodes that `peers` names.
    pub open spec fn members(&self) -> Set<NodeId> {
        self.peers@.dom()
    }

    /// The nodes that this node talks to: those that `peers` names, itself left out.
    pub open spec fn others(&self) -> Set<NodeId> {
        self.peers@.dom().remove(self.id)
    }

    /// All nodes of the cluster. This node is one of them even if `peers` leaves it
    /// out.
    pub open spec fn cluster(&self) -> Set<NodeId> {
        self.members().insert(self.id)
    }

    /// The number of votes that wins an election: a majority of the cluster.
    pub open spec fn quorum(&self) -> nat {
        self.cluster().len() / 2 + 1
    }

    /// Whether the election timeout may be `timeout` milliseconds. Where nothing is
    /// to be added, it is the base.
    pub open spec fn allows_timeout(&self, timeout: u64) -> bool {
        if self.election_timeout_max_ms == 0 {
            timeout == self.election_timeout_min_ms
        } else {
            self.election_timeout_min_ms <= timeout < self.election_timeout_min_ms
                + self.election_timeout_max_ms
        }
    }

    /// The longest election timeout that may be drawn. It ends at the largest number
    /// of milliseconds that there is.
    pub fn longest_timeout(&self) -> (r: u64)
        ensures
            self.election_timeout_min_ms <= r,
            forall|timeout: u64|
                self.election_timeout_min_ms <= timeout <= r <==> #[trigger] self.allows_timeout(
                    timeout,
                ),
    {
        if self.election_timeout_max_ms == 0 {
            self.election_timeout_min_ms
        } else {
            self.election_timeout_min_ms.saturating_add(self.election_timeout_max_ms - 1)
        }
    }

    /// Computes the number of votes that wins an election.
    pub fn required_votes(&self) -> (r: usize)
        ensures
            r == self.quorum(),
    {
        broadcast use vstd::std_specs::hash::group_hash_axioms;

        let listed: usize = self.peers.len();
        assert(self.members().finite());
        if self.peers.contains_key(&self.id) {
            assert(self.cluster() =~= self.members());
            listed / 2 + 1
        } else {
            listed / 2 + listed % 2 + 1
        }
    }

    /// Lists the nodes that this node talks to, in no particular order.
    pub fn other_ids(&self) -> (r: Vec<NodeId>)
        ensures
            r@.no_duplicates(),
            r@.to_set() == self.others(),
    {
        let mut ids: Vec<NodeId> = Vec::new();
        assert(ids@.to_set() =~= Set::<NodeId>::empty());
        for peer_id in it: self.peers.keys()
            invariant
                it.seq().unref().to_set() == self.peers@.dom(),
                it.seq().no_duplicates(),
                0 <= it.index() <= it.seq().len(),
                ids@.no_duplicates(),
                ids@.to_set() == it.seq().unref().take(it.index()).to_set().remove(self.id),
                it.seq().unref().take(it.seq().len() as int) == it.seq().unref(),
        {
            let ghost keys = it.seq().unref();
            let ghost n = it.index();
            let ghost before = ids@;
            proof {
                assert(keys[n] == *peer_id);
                assert(keys.take(n + 1) =~= keys.take(n).push(*peer_id));
                keys.take(n).lemma_push_to_set_commute(*peer_id);
                before.lemma_push_to_set_commute(*peer_id);
                assert(!keys.take(n).contains(*peer_id));
                assert(before.to_set().contains(*peer_id) ==> keys.take(n).to_set().contains(
                    *peer_id,
                ));
                assert(!before.contains(*peer_id));
            }
            if *peer_id != self.id {
                ids.push(*peer_id);
            }
            assert(ids@.to_set() =~= keys.take(n + 1).to_set().remove(self.id));
        }
        ids
    }
}

} // verus!
