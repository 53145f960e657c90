//! The simulated network: how long a message takes and which links are cut.

use crate::messages::NodeId;
use rand::rngs::SmallRng;
use rand::{Rng, SeedableRng};
use vstd::prelude::*;

verus! {

/// The number of nanoseconds in a second.
pub const NANOS_PER_SEC: u32 = 1_000_000_000;

/// The number of milliseconds in a second.
pub const MILLIS_PER_SEC: u64 = 1_000;

/// The number of nanoseconds in a millisecond.
pub const NANOS_PER_MILLI: u32 = 1_000_000;

/// A span of time, to the nanosecond.
#[derive(Clone, Copy, Debug, PartialEq, Eq, Structural)]
pub struct Duration {
    secs: u64,
    nanos: u32,
}

impl Duration {
    #[verifier::type_invariant]
    spec fn well_formed(self) -> bool {
        self.nanos < NANOS_PER_SEC
    }

    /// The length of the span in nanoseconds.
    pub closed spec fn total_nanos(self) -> nat {
        self.secs as nat * NANOS_PER_SEC as nat + self.nanos as nat
    }

    /// A span of whole seconds and nanoseconds.
    pub fn from_parts(secs: u64, nanos: u32) -> (r: Duration)
        requires
            nanos < NANOS_PER_SEC,
        ensures
            r.total_nanos() == secs as nat * NANOS_PER_SEC as nat + nanos as nat,
    {
        Duration { secs, nanos }
    }

    /// A span of milliseconds.
    pub fn from_millis(millis: u64) -> (r: Duration)
        ensures
            r.total_nanos() == millis as nat * NANOS_PER_MILLI as nat,
    {
        let secs: u64 = millis / MILLIS_PER_SEC;
        let rest: u32 = (millis % MILLIS_PER_SEC) as u32;
        assert(millis == secs * MILLIS_PER_SEC + rest);
        Duration { secs, nanos: rest * NANOS_PER_MILLI }
    }

    /// The whole seconds of the span.
    pub fn as_secs(&self) -> (r: u64)
        ensures
            r == self.total_nanos() / NANOS_PER_SEC as nat,
    {
        proof {
            use_type_invariant(self);
        }
        self.secs
    }

    /// The nanoseconds of the span beyond its whole seconds.
    pub fn subsec_nanos(&self) -> (r: u32)
        ensures
            r == self.total_nanos() % NANOS_PER_SEC as nat,
    {
        proof {
            use_type_invariant(self);
        }
        self.nanos
    }

    /// Whether this span is shorter than `other`.
    pub fn is_shorter(&self, other: &Duration) -> (r: bool)
        ensures
            r == (self.total_nanos() < other.total_nanos()),
    {
        proof {
            use_type_invariant(self);
            use_type_invariant(other);
        }
        self.secs < other.secs || (self.secs == other.secs && self.nanos < other.nanos)
    }

    /// Whether the span is empty.
    pub fn is_zero(&self) -> (r: bool)
        ensures
            r == (self.total_nanos() == 0),
    {
        self.secs == 0 && self.nanos == 0
    }
}

/// Calls `rand::Rng::gen_range` for a range of `std::time::Duration` on a
/// `SmallRng` that was seeded from `rand::thread_rng`. Spans are given as whole
/// seconds and the nanoseconds beyond them. The claim is that the span lies in
/// the range that was asked for. An empty range would panic, and so would a
/// second or more of nanoseconds that overflows the seconds.
#[verifier::external_body]
#[allow(deprecated)]
fn random_span(min_secs: u64, min_nanos: u32, max_secs: u64, max_nanos: u32) -> (r: (u64, u32))
    requires
        min_nanos < NANOS_PER_SEC,
        max_nanos < NANOS_PER_SEC,
        min_secs < max_secs || (min_secs == max_secs && min_nanos <= max_nanos),
    ensures
        r.1 < NANOS_PER_SEC,
        min_secs < r.0 || (min_secs == r.0 && min_nanos <= r.1),
        r.0 < max_secs || (r.0 == max_secs && r.1 <= max_nanos),
{
    let mut thread_rng = rand::thread_rng();
    let mut rng = SmallRng::from_rng(&mut thread_rng);
    let min = std::time::Duration::new(min_secs, min_nanos);
    let max = std::time::Duration::new(max_secs, max_nanos);
    let span = rng.gen_range(min..=max);
    (span.as_secs(), span.subsec_nanos())
}

/// A set of one-way links between nodes.
#[derive(Debug)]
pub struct LinkSet {
    links: Vec<(NodeId, NodeId)>,
}

impl View for LinkSet {
    type V = Set<(NodeId, NodeId)>;

    closed spec fn view(&self) -> Set<(NodeId, NodeId)> {
        self.links@.to_set()
    }
}

impl LinkSet {
    /// No link is stored twice.
    #[verifier::type_invariant]
    spec fn well_formed(self) -> bool {
        self.links@.no_duplicates()
    }

    /// Creates an empty set.
    pub fn new() -> (r: LinkSet)
        ensures
            r@ == Set::<(NodeId, NodeId)>::empty(),
    {
        let r = LinkSet { links: Vec::new() };
        assert(r@ =~= Set::<(NodeId, NodeId)>::empty());
        r
    }

    /// Finds the position of the link from `from` to `to`.
    fn position(&self, from: NodeId, to: NodeId) -> (r: Option<usize>)
        ensures
            match r {
                Some(i) => i < self.links@.len() && self.links@[i as int] == (from, to),
                None => !self@.contains((from, to)),
            },
    {
        let mut i: usize = 0;
        while i < self.links.len()
            invariant
                i <= self.links.len(),
                forall|j: int| 0 <= j < i ==> #[trigger] self.links@[j] != (from, to),
            decreases self.links.len() - i,
        {
            if self.links[i].0 == from && self.links[i].1 == to {
                return Some(i);
            }
            i += 1;
        }
        None
    }

    /// Whether the set holds the link from `from` to `to`.
    pub fn contains(&self, from: NodeId, to: NodeId) -> (r: bool)
        ensures
            r == self@.contains((from, to)),
    {
        match self.position(from, to) {
            Some(i) => {
                assert(self.links@.contains(self.links@[i as int]));
                true
            },
            None => false,
        }
    }

    /// Adds the link from `from` to `to`. Returns whether it is new.
    pub fn insert(&mut self, from: NodeId, to: NodeId) -> (r: bool)
        ensures
            final(self)@ == old(self)@.insert((from, to)),
            r == !old(self)@.contains((from, to)),
    {
        if self.contains(from, to) {
            assert(self@ =~= old(self)@.insert((from, to)));
            return false;
        }
        proof {
            use_type_invariant(&*self);
        }
        let mut links: Vec<(NodeId, NodeId)> = Vec::new();
        std::mem::swap(&mut links, &mut self.links);
        let ghost before = links@;
        links.push((from, to));
        proof {
            lemma_push_link(before, (from, to));
        }
        self.links = links;
        true
    }

    /// Removes the link from `from` to `to`. Returns whether it was there.
    pub fn remove(&mut self, from: NodeId, to: NodeId) -> (r: bool)
        ensures
            final(self)@ == old(self)@.remove((from, to)),
            r == old(self)@.contains((from, to)),
    {
        match self.position(from, to) {
            Some(i) => {
                proof {
                    use_type_invariant(&*self);
                }
                let mut links: Vec<(NodeId, NodeId)> = Vec::new();
                std::mem::swap(&mut links, &mut self.links);
                let ghost before = links@;
                let _ = links.swap_remove(i);
                proof {
                    lemma_swap_removed(before, links@, i as int);
                }
                self.links = links;
                true
            },
            None => {
                assert(self@ =~= old(self)@.remove((from, to)));
                false
            },
        }
    }
}

/// Pushing a link that is not there yet adds it to the set and keeps links apart.
proof fn lemma_push_link(links: Seq<(NodeId, NodeId)>, link: (NodeId, NodeId))
    requires
        links.no_duplicates(),
        !links.contains(link),
    ensures
        links.push(link).no_duplicates(),
        links.push(link).to_set() == links.to_set().insert(link),
{
    links.lemma_push_to_set_commute(link);
}

/// Moving the last link into the place of the link at `i` removes that link only.
proof fn lemma_swap_removed(
    before: Seq<(NodeId, NodeId)>,
    after: Seq<(NodeId, NodeId)>,
    i: int,
)
    requires
        before.no_duplicates(),
        0 <= i < before.len(),
        after == before.update(i, before.last()).drop_last(),
    ensures
        after.no_duplicates(),
        after.to_set() == before.to_set().remove(before[i]),
{
    let n = before.len() - 1;
    assert forall|j: int| 0 <= j < n implies #[trigger] after[j] == if j == i {
        before[n]
    } else {
        before[j]
    } by {}
    assert forall|l: (NodeId, NodeId)|
        after.to_set().contains(l) <==> before.to_set().remove(before[i]).contains(l) by {
        if after.contains(l) {
            let j = choose|j: int| 0 <= j < after.len() && after[j] == l;
            if j == i {
                assert(before[n] == l);
            } else {
                assert(before[j] == l);
            }
        }
        if before.contains(l) && l != before[i] {
            let j = choose|j: int| 0 <= j < before.len() && before[j] == l;
            if j == n {
                assert(after[i] == l);
            } else {
                assert(after[j] == l);
            }
        }
    }
    assert(after.to_set() =~= before.to_set().remove(before[i]));
}

impl Clone for LinkSet {
    fn clone(&self) -> (r: LinkSet)
        ensures
            r@ == self@,
    {
        proof {
            use_type_invariant(self);
        }
        let mut links: Vec<(NodeId, NodeId)> = Vec::new();
        let mut i: usize = 0;
        while i < self.links.len()
            invariant
                i <= self.links.len(),
                links@ == self.links@.take(i as int),
            decreases self.links.len() - i,
        {
            links.push(self.links[i]);
            i += 1;
            assert(links@ =~= self.links@.take(i as int));
        }
        assert(links@ =~= self.links@);
        LinkSet { links }
    }
}

/// How the simulated network treats the messages that a node sends.
#[derive(Clone, Debug)]
pub struct NetworkOptions {
    /// The shortest time that a message takes.
    pub min_delay: Duration,
    /// The longest time that a message takes.
    pub max_delay: Duration,
    /// The links that are cut: the first node cannot send to the second.
    pub partitioned_links: LinkSet,
}

impl Default for NetworkOptions {
    /// A network without delay and without cut links.
    fn default() -> (r: NetworkOptions)
        ensures
            r.min_delay.total_nanos() == 0,
            r.max_delay.total_nanos() == 0,
            r.partitioned_links@ == Set::<(NodeId, NodeId)>::empty(),
    {
        NetworkOptions {
            min_delay: Duration::from_millis(0),
            max_delay: Duration::from_millis(0),
            partitioned_links: LinkSet::new(),
        }
    }
}

impl NetworkOptions {
    /// Whether a message may take `nanos` nanoseconds: any time from the shortest
    /// to the longest, or the shortest when the bounds leave no room.
    pub open spec fn delay_in_bounds(&self, nanos: nat) -> bool {
        if self.max_delay.total_nanos() <= self.min_delay.total_nanos() {
            nanos == self.min_delay.total_nanos()
        } else {
            self.min_delay.total_nanos() <= nanos <= self.max_delay.total_nanos()
        }
    }

    /// Whether the link from `sender` to `receiver` is cut.
    pub fn is_partitioned(&self, sender: NodeId, receiver: NodeId) -> (r: bool)
        ensures
            r == self.partitioned_links@.contains((sender, receiver)),
    {
        self.partitioned_links.contains(sender, receiver)
    }

    /// Draws the time that a message takes. `None` means that it takes none.
    pub fn simulate_delay(&self) -> (r: Option<Duration>)
        ensures
            match r {
                Some(delay) => delay.total_nanos() > 0 && self.delay_in_bounds(
                    delay.total_nanos(),
                ),
                None => self.delay_in_bounds(0),
            },
    {
        let delay: Duration = if !self.min_delay.is_shorter(&self.max_delay) {
            self.min_delay
        } else {
            let (secs, nanos) = random_span(
                self.min_delay.as_secs(),
                self.min_delay.subsec_nanos(),
                self.max_delay.as_secs(),
                self.max_delay.subsec_nanos(),
            );
            Duration::from_parts(secs, nanos)
        };
        if delay.is_zero() {
            None
        } else {
            Some(delay)
        }
    }
}

} // verus!
