//! What the election rules guarantee, for one node and for a cluster.

use crate::config::Config;
use crate::election::{Ballot, NodeView, Verdict};
use crate::machine::StateMachine;
use crate::messages::{CommandPayload, NodeId, RequestVoteRequest, RequestVoteResponse};
use crate::node::RaftNode;
use crate::state::Role;
use crate::storage::{Storage, StorageError};
use crate::transport::Transport;
use vstd::prelude::*;

verus! {

/// "At least as up-to-date" orders the ends of all logs: every log is as
/// up-to-date as itself, of two logs at least one is as up-to-date as the other,
/// and the relation is transitive.
pub proof fn law_up_to_date_is_a_total_preorder(
    a_term: u64,
    a_index: u64,
    b_term: u64,
    b_index: u64,
    c_term: u64,
    c_index: u64,
)
    ensures
        crate::election::up_to_date(a_term, a_index, a_term, a_index),
        crate::election::up_to_date(a_term, a_index, b_term, b_index)
            || crate::election::up_to_date(b_term, b_index, a_term, a_index),
        crate::election::up_to_date(a_term, a_index, b_term, b_index)
            && crate::election::up_to_date(b_term, b_index, c_term, c_index)
            ==> crate::election::up_to_date(a_term, a_index, c_term, c_index),
{
}

/// What holds of every operation holds of every run of operations: a node that
/// evolves from `a` to `b` and from there to `c` evolves from `a` to `c`.
pub proof fn law_evolution_is_transitive(a: NodeView, b: NodeView, c: NodeView)
    requires
        a.evolves_to(b),
        b.evolves_to(c),
    ensures
        a.evolves_to(c),
{
}

/// A node votes for at most one candidate in a term, whatever it does between the
/// two requests. A candidate with the identifier 0 is left out: its vote is
/// recorded as no vote.
pub proof fn law_one_vote_per_term(
    voter: NodeView,
    first: RequestVoteRequest,
    first_log: (u64, u64),
    later: NodeView,
    second: RequestVoteRequest,
    second_log: (u64, u64),
)
    requires
        first.candidate_id != 0,
        voter.answer(first, first_log.0, first_log.1).vote_granted,
        voter.asked(first, first_log.0, first_log.1).evolves_to(later),
        second.term == first.term,
        later.answer(second, second_log.0, second_log.1).vote_granted,
    ensures
        second.candidate_id == first.candidate_id,
{
}

/// A candidate votes for nobody else in the term of its candidacy, whatever it
/// does in between. The identifier 0 is left out: it stands for no vote.
pub proof fn law_candidate_votes_only_for_itself(
    node: NodeView,
    id: NodeId,
    later: NodeView,
    request: RequestVoteRequest,
    last_term: u64,
    last_index: u64,
)
    requires
        id != 0,
        node.term() < u64::MAX,
        node.candidate(id).evolves_to(later),
        request.term == node.candidate(id).term(),
        later.answer(request, last_term, last_index).vote_granted,
    ensures
        request.candidate_id == id,
{
}

/// A vote goes only to a candidate whose log is at least as up-to-date as the
/// voter's, and whose term is not older.
pub proof fn law_vote_needs_an_up_to_date_log(
    voter: NodeView,
    request: RequestVoteRequest,
    last_term: u64,
    last_index: u64,
)
    requires
        voter.answer(request, last_term, last_index).vote_granted,
    ensures
        request.term >= voter.term(),
        crate::election::up_to_date(
            request.last_log_term,
            request.last_log_index,
            last_term,
            last_index,
        ),
{
}

/// A request with a newer term makes any node a follower in that term, whether or
/// not it gets the vote.
pub proof fn law_newer_term_makes_a_follower(
    node: NodeView,
    request: RequestVoteRequest,
    last_term: u64,
    last_index: u64,
)
    requires
        request.term > node.term(),
    ensures
        node.asked(request, last_term, last_index).role() == Role::Follower,
        node.asked(request, last_term, last_index).term() == request.term,
        node.answer(request, last_term, last_index).term == request.term,
{
}

/// A node that is asked the same twice answers the same twice, and the second
/// request changes nothing.
pub proof fn law_repeated_request_changes_nothing(
    node: NodeView,
    request: RequestVoteRequest,
    last_term: u64,
    last_index: u64,
)
    ensures
        node.asked(request, last_term, last_index).answer(request, last_term, last_index)
            == node.answer(request, last_term, last_index),
        node.asked(request, last_term, last_index).asked(request, last_term, last_index)
            == node.asked(request, last_term, last_index),
{
}

/// How many of the replies, up to the first one with a newer term than `term`,
/// grant the vote.
pub open spec fn granted(term: u64, replies: Seq<Option<RequestVoteResponse>>) -> nat
    decreases replies.len(),
{
    if replies.len() == 0 {
        0
    } else {
        match replies[0] {
            Some(response) => if response.term > term {
                0
            } else if response.vote_granted {
                1 + granted(term, replies.drop_first())
            } else {
                granted(term, replies.drop_first())
            },
            None => granted(term, replies.drop_first()),
        }
    }
}

/// A candidate that comes out of a tally as the leader has the votes it needs.
pub proof fn law_leader_has_a_quorum(
    node: NodeView,
    ballot: Ballot,
    votes: nat,
    replies: Seq<Option<RequestVoteResponse>>,
    after: NodeView,
    ok: bool,
)
    requires
        node.role() == Role::Candidate,
        crate::election::tallied(node, ballot, votes, replies, after, ok),
        after.role() == Role::Leader,
    ensures
        votes + granted(node.term(), replies) >= ballot.quorum,
    decreases replies.len(),
{
    if replies.len() > 0 {
        if let Verdict::Undecided(total) = crate::election::judge(
            node.term(),
            votes,
            ballot.quorum,
            replies[0],
        ) {
            law_leader_has_a_quorum(node, ballot, total, replies.drop_first(), after, ok);
        }
    }
}

/// A candidate whose peers grant it enough votes becomes the leader, unless a
/// reply with a newer term comes first or the storage fails.
pub proof fn law_quorum_makes_a_leader(
    node: NodeView,
    ballot: Ballot,
    votes: nat,
    replies: Seq<Option<RequestVoteResponse>>,
    after: NodeView,
)
    requires
        crate::election::tallied(node, ballot, votes, replies, after, true),
        replies.len() > 0,
        forall|i: int|
            0 <= i < replies.len() ==> ((#[trigger] replies[i]) matches Some(response)
                ==> response.term <= node.term()),
        votes + granted(node.term(), replies) >= ballot.quorum,
    ensures
        after == node.leader(ballot.id, ballot.others, ballot.last_index),
    decreases replies.len(),
{
    let rest = replies.drop_first();
    assert forall|i: int| 0 <= i < rest.len() implies ((#[trigger] rest[i]) matches Some(response)
        ==> response.term <= node.term()) by {
        assert(rest[i] == replies[i + 1]);
    }
    if let Verdict::Undecided(total) = crate::election::judge(
        node.term(),
        votes,
        ballot.quorum,
        replies[0],
    ) {
        assert(rest.len() == 0 ==> granted(node.term(), rest) == 0);
        law_quorum_makes_a_leader(node, ballot, total, rest, after);
    }
}

/// A candidate without enough votes stays a candidate, unless a reply carries a
/// newer term.
pub proof fn law_no_quorum_no_leader(
    node: NodeView,
    ballot: Ballot,
    votes: nat,
    replies: Seq<Option<RequestVoteResponse>>,
    after: NodeView,
)
    requires
        crate::election::tallied(node, ballot, votes, replies, after, true),
        forall|i: int|
            0 <= i < replies.len() ==> ((#[trigger] replies[i]) matches Some(response)
                ==> response.term <= node.term()),
        votes + granted(node.term(), replies) < ballot.quorum,
    ensures
        after == node,
    decreases replies.len(),
{
    if replies.len() > 0 {
        let rest = replies.drop_first();
        assert forall|i: int| 0 <= i < rest.len() implies ((#[trigger] rest[i]) matches Some(
            response,
        ) ==> response.term <= node.term()) by {
            assert(rest[i] == replies[i + 1]);
        }
        if let Verdict::Undecided(total) = crate::election::judge(
            node.term(),
            votes,
            ballot.quorum,
            replies[0],
        ) {
            law_no_quorum_no_leader(node, ballot, total, rest, after);
        }
    }
}

/// The votes that win an election are more than half of the cluster, and no fewer
/// votes are.
pub proof fn law_quorum_is_a_majority(config: Config)
    ensures
        2 * config.quorum() > config.cluster().len(),
        2 * (config.quorum() - 1) <= config.cluster().len(),
{
}

/// Two quorums of one cluster have a voter in common.
pub proof fn law_quorums_intersect(
    cluster: Set<NodeId>,
    quorum: nat,
    a: Set<NodeId>,
    b: Set<NodeId>,
)
    requires
        cluster.finite(),
        a.subset_of(cluster),
        b.subset_of(cluster),
        a.len() >= quorum,
        b.len() >= quorum,
        2 * quorum > cluster.len(),
    ensures
        exists|voter: NodeId| a.contains(voter) && b.contains(voter),
{
    vstd::set_lib::lemma_len_subset(a, cluster);
    vstd::set_lib::lemma_len_subset(b, cluster);
    if forall|voter: NodeId| !(a.contains(voter) && b.contains(voter)) {
        assert(a.disjoint(b));
        vstd::set_lib::lemma_set_disjoint_lens(a, b);
        assert(a.union(b).subset_of(cluster));
        vstd::set_lib::lemma_len_subset(a.union(b), cluster);
    }
}

/// The targets whose replies, up to the first one with a newer term than `term`,
/// grant the vote.
pub open spec fn supporters(
    term: u64,
    targets: Seq<NodeId>,
    replies: Seq<Option<RequestVoteResponse>>,
) -> Set<NodeId>
    decreases replies.len(),
{
    if replies.len() == 0 {
        Set::empty()
    } else {
        let rest = supporters(term, targets.drop_first(), replies.drop_first());
        match replies[0] {
            Some(response) => if response.term > term {
                Set::empty()
            } else if response.vote_granted {
                rest.insert(targets[0])
            } else {
                rest
            },
            None => rest,
        }
    }
}

/// Every vote that counts comes from a target of its own.
pub proof fn law_votes_come_from_distinct_supporters(
    term: u64,
    targets: Seq<NodeId>,
    replies: Seq<Option<RequestVoteResponse>>,
)
    requires
        targets.no_duplicates(),
        targets.len() == replies.len(),
    ensures
        supporters(term, targets, replies).finite(),
        supporters(term, targets, replies).subset_of(targets.to_set()),
        supporters(term, targets, replies).len() == granted(term, replies),
    decreases replies.len(),
{
    if replies.len() > 0 {
        let rest = targets.drop_first();
        assert forall|i: int, j: int|
            0 <= i < rest.len() && 0 <= j < rest.len() && i != j implies rest[i] != rest[j] by {
            assert(rest[i] == targets[i + 1]);
            assert(rest[j] == targets[j + 1]);
        }
        law_votes_come_from_distinct_supporters(term, rest, replies.drop_first());
        assert forall|v: NodeId| rest.contains(v) implies targets.contains(v) && v != targets[0] by {
            let i = choose|i: int| 0 <= i < rest.len() && rest[i] == v;
            assert(targets[i + 1] == v);
        }
        assert(targets.contains(targets[0]));
    }
}

/// Whether a candidate with the configuration `config` came out of an election in
/// `term` as the leader: it asked `targets`, and they gave `replies`, unless it was
/// a majority by itself.
pub open spec fn was_elected(
    config: Config,
    term: u64,
    targets: Seq<NodeId>,
    replies: Seq<Option<RequestVoteResponse>>,
) -> bool {
    &&& targets.no_duplicates()
    &&& targets.to_set() == config.others()
    &&& replies.len() == targets.len()
    &&& config.quorum() == 1 || exists|
        candidate: NodeView,
        ballot: Ballot,
        after: NodeView,
        ok: bool,
    |
        {
            &&& candidate.role() == Role::Candidate
            &&& candidate.term() == term
            &&& ballot.quorum == config.quorum()
            &&& #[trigger] crate::election::tallied(candidate, ballot, 1, replies, after, ok)
            &&& after.role() == Role::Leader
        }
}

/// A node that comes out of an expired timer as the leader was elected: its own
/// vote and those of the nodes that it asked are a quorum.
pub proof fn law_timeout_elects_only_by_quorum<S, T, SM>(
    before: RaftNode<S, T, SM>,
    after: RaftNode<S, T, SM>,
    r: Result<(), StorageError>,
) where
    S: Storage + Send + Sync + 'static,
    T: Transport + Clone + Send + Sync + 'static,
    SM: StateMachine<Command = CommandPayload> + Send + Sync + 'static,

    requires
        before@.role() != Role::Leader,
        before@.term() < u64::MAX,
        after.after_timeout(&before, r),
        after@.role() == Role::Leader,
    ensures
        exists|targets: Seq<NodeId>, replies: Seq<Option<RequestVoteResponse>>|
            #[trigger] was_elected(before.config, after@.term(), targets, replies),
{
    let candidate = before@.candidate(before.config.id);
    let ok = r is Ok;
    if before.config.quorum() == 1 {
        lemma_majority_by_itself(before.config);
        let targets = Seq::<NodeId>::empty();
        assert(targets.to_set() =~= before.config.others());
        assert(was_elected(before.config, after@.term(), targets, Seq::empty()));
    } else {
        assert(before.polled(candidate, after@, ok));
        let request = RequestVoteRequest {
            term: candidate.term(),
            candidate_id: before.config.id,
            last_log_index: crate::log::last_index(before.storage.log()),
            last_log_term: crate::log::last_term(before.storage.log()),
        };
        let (targets, replies) = choose|
            targets: Seq<NodeId>,
            replies: Seq<Option<RequestVoteResponse>>,
        |
            {
                &&& targets.no_duplicates()
                &&& targets.to_set() == before.config.others()
                &&& replies.len() == targets.len()
                &&& forall|i: int|
                    0 <= i < replies.len() ==> before.replied(targets[i], request, #[trigger] replies[i])
                &&& #[trigger] before.tallied_from(candidate, targets, replies, after@, ok)
            };
        lemma_leader_keeps_term(candidate, before.ballot(), 1, replies, after@, ok);
        assert(was_elected(before.config, after@.term(), targets, replies));
    }
}

/// A node whose own vote is a quorum has nobody to ask.
proof fn lemma_majority_by_itself(config: Config)
    requires
        config.quorum() == 1,
    ensures
        config.others() == Set::<NodeId>::empty(),
{
    broadcast use vstd::std_specs::hash::group_hash_axioms;

    assert(config.members().finite());
    assert(config.cluster() =~= config.others().insert(config.id));
    assert(config.others().len() == 0);
    assert(config.others() =~= Set::<NodeId>::empty());
}

/// A candidate that wins leads in the term of its candidacy.
proof fn lemma_leader_keeps_term(
    node: NodeView,
    ballot: Ballot,
    votes: nat,
    replies: Seq<Option<RequestVoteResponse>>,
    after: NodeView,
    ok: bool,
)
    requires
        node.role() == Role::Candidate,
        crate::election::tallied(node, ballot, votes, replies, after, ok),
        after.role() == Role::Leader,
    ensures
        after.term() == node.term(),
    decreases replies.len(),
{
    if replies.len() > 0 {
        if let Verdict::Undecided(total) = crate::election::judge(
            node.term(),
            votes,
            ballot.quorum,
            replies[0],
        ) {
            lemma_leader_keeps_term(node, ballot, total, replies.drop_first(), after, ok);
        }
    }
}

/// Whether the states of a node, in order, each evolve to the next one, as every
/// operation of a node guarantees.
pub open spec fn is_run(run: Seq<NodeView>) -> bool {
    forall|i: int| 0 <= i < run.len() - 1 ==> (#[trigger] run[i]).evolves_to(run[i + 1])
}

/// Whether a node whose states are those of `run` has given its vote to `id` at
/// some time in `term`.
pub open spec fn votes_for(run: Seq<NodeView>, term: u64, id: NodeId) -> bool {
    exists|i: int|
        0 <= i < run.len() && (#[trigger] run[i]).term() == term && run[i].voted_for() == id
}

/// A node that grants a vote has it on record in the term of the request.
pub proof fn law_granted_vote_is_recorded(
    voter: NodeView,
    request: RequestVoteRequest,
    last_term: u64,
    last_index: u64,
)
    requires
        voter.answer(request, last_term, last_index).vote_granted,
    ensures
        voter.asked(request, last_term, last_index).term() == request.term,
        voter.asked(request, last_term, last_index).voted_for() == request.candidate_id,
{
}

/// In a run, every state evolves to each later one.
proof fn lemma_run_evolves(run: Seq<NodeView>, i: int, j: int)
    requires
        is_run(run),
        0 <= i <= j < run.len(),
    ensures
        run[i].evolves_to(run[j]),
    decreases j - i,
{
    if i < j {
        lemma_run_evolves(run, i, j - 1);
        assert(run[j - 1].evolves_to(run[(j - 1) + 1]));
        law_evolution_is_transitive(run[i], run[j - 1], run[j]);
    }
}

/// Over its whole life, a node gives its vote in a term to one candidate only. The
/// identifier 0 is left out: it stands for no vote.
pub proof fn law_run_votes_once_per_term(run: Seq<NodeView>, term: u64, a: NodeId, b: NodeId)
    requires
        is_run(run),
        a != 0,
        b != 0,
        votes_for(run, term, a),
        votes_for(run, term, b),
    ensures
        a == b,
{
    let i = choose|i: int|
        0 <= i < run.len() && (#[trigger] run[i]).term() == term && run[i].voted_for() == a;
    let j = choose|j: int|
        0 <= j < run.len() && (#[trigger] run[j]).term() == term && run[j].voted_for() == b;
    if i <= j {
        lemma_run_evolves(run, i, j);
    } else {
        lemma_run_evolves(run, j, i);
    }
}

/// A cluster has at most one leader in a term: two nodes that win an election of
/// the same term are the same. `run` gives the states that each node goes through;
/// every vote that counts is on record in the run of its voter. The identifier 0 is
/// left out: it stands for no vote.
pub proof fn law_one_leader_per_term(
    cluster: Set<NodeId>,
    term: u64,
    run: spec_fn(NodeId) -> Seq<NodeView>,
    a: Config,
    a_targets: Seq<NodeId>,
    a_replies: Seq<Option<RequestVoteResponse>>,
    b: Config,
    b_targets: Seq<NodeId>,
    b_replies: Seq<Option<RequestVoteResponse>>,
)
    requires
        !cluster.contains(0),
        a.cluster() == cluster,
        b.cluster() == cluster,
        forall|v: NodeId| cluster.contains(v) ==> is_run(#[trigger] run(v)),
        was_elected(a, term, a_targets, a_replies),
        was_elected(b, term, b_targets, b_replies),
        votes_for(run(a.id), term, a.id),
        votes_for(run(b.id), term, b.id),
        forall|v: NodeId|
            supporters(term, a_targets, a_replies).contains(v) ==> votes_for(
                #[trigger] run(v),
                term,
                a.id,
            ),
        forall|v: NodeId|
            supporters(term, b_targets, b_replies).contains(v) ==> votes_for(
                #[trigger] run(v),
                term,
                b.id,
            ),
    ensures
        a.id == b.id,
{
    let a_votes = supporters(term, a_targets, a_replies).insert(a.id);
    let b_votes = supporters(term, b_targets, b_replies).insert(b.id);
    lemma_elected_by_quorum(a, term, a_targets, a_replies);
    lemma_elected_by_quorum(b, term, b_targets, b_replies);
    law_quorums_intersect(cluster, a.quorum(), a_votes, b_votes);
    let voter = choose|voter: NodeId| a_votes.contains(voter) && b_votes.contains(voter);
    assert(is_run(run(voter)));
    assert(cluster.contains(a.id) && cluster.contains(b.id));
    law_run_votes_once_per_term(run(voter), term, a.id, b.id);
}

/// Whoever was elected has a quorum of votes, its own included.
proof fn lemma_elected_by_quorum(
    config: Config,
    term: u64,
    targets: Seq<NodeId>,
    replies: Seq<Option<RequestVoteResponse>>,
)
    requires
        was_elected(config, term, targets, replies),
    ensures
        ({
            let votes = supporters(term, targets, replies).insert(config.id);
            &&& config.cluster().finite()
            &&& votes.subset_of(config.cluster())
            &&& votes.len() >= config.quorum()
        }),
{
    broadcast use vstd::std_specs::hash::group_hash_axioms;

    assert(config.members().finite());
    law_votes_come_from_distinct_supporters(term, targets, replies);
    assert(!targets.to_set().contains(config.id));
    if config.quorum() > 1 {
        let (candidate, ballot, after, ok) = choose|
            candidate: NodeView,
            ballot: Ballot,
            after: NodeView,
            ok: bool,
        |
            {
                &&& candidate.role() == Role::Candidate
                &&& candidate.term() == term
                &&& ballot.quorum == config.quorum()
                &&& #[trigger] crate::election::tallied(candidate, ballot, 1, replies, after, ok)
                &&& after.role() == Role::Leader
            };
        law_leader_has_a_quorum(candidate, ballot, 1, replies, after, ok);
    }
}

} // verus!
