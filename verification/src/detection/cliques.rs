//! Rings that deal only with themselves: what the search for collusion
//! makes of nodes of which each is connected to every other, and to nobody
//! else.

use vstd::prelude::*;
use crate::constants::{CLUSTER_SIZE, MUTUAL_RATING_THRESHOLD, STRONG_SUSPICION};
use crate::detection::collusion::{
    by_ties, collusion_found, counted, is_cluster, mutual_ratings, occurs, passed, profiles,
    rated, ratings_among, tally, tied, tied_together, ties_of, CollusionCluster,
};
use crate::detection::components::{is_walk, lemma_reaches_refl, lemma_reaches_step, reaches};
use crate::node::Node;
use crate::scalar::rank_of;
use crate::table::Table;
use crate::types::{NodeId, Score};

verus! {

/// Whether the members are a ring that deals only with itself: nodes of the
/// network, each once, of which each has a connection to every other member
/// and to nobody else, and to which nobody else has a connection.
pub open spec fn closed_clique(nodes: Table<NodeId, Node>, members: Seq<NodeId>) -> bool {
    &&& members.len() > 0
    &&& members.no_duplicates()
    &&& forall|i: int|
        0 <= i < members.len() ==> {
            &&& nodes.has(#[trigger] members[i])
            &&& nodes.at(members[i]).connections.keys().len() == members.len() - 1
        }
    &&& forall|i: int, j: int|
        0 <= i < members.len() && 0 <= j < members.len() && i != j ==> nodes.at(
            #[trigger] members[i],
        ).connections.has(#[trigger] members[j])
    &&& forall|i: int, k: NodeId|
        0 <= i < members.len() && #[trigger] nodes.at(members[i]).connections.has(k)
            ==> members.contains(k) && k != members[i]
    &&& forall|other: NodeId, k: NodeId|
        nodes.has(other) && !members.contains(other) && #[trigger] nodes.at(
            other,
        ).connections.has(k) ==> !members.contains(k)
}

/// A walk that begins inside a set of nodes which no step leaves ends inside
/// it.
proof fn lemma_walk_stays<T>(adj: spec_fn(T, T) -> bool, inside: spec_fn(T) -> bool, walk: Seq<T>, at: int)
    requires
        forall|x: T, y: T| inside(x) && #[trigger] adj(x, y) ==> inside(y),
        is_walk(adj, walk),
        inside(walk[0]),
        0 <= at < walk.len(),
    ensures
        inside(walk[at]),
    decreases at,
{
    if at > 0 {
        lemma_walk_stays(adj, inside, walk, at - 1);
        assert(adj(walk[at - 1], walk[at - 1 + 1]));
    }
}

/// What a node of a set reaches is in the set, where no step leaves the set.
pub proof fn lemma_reach_stays<T>(adj: spec_fn(T, T) -> bool, inside: spec_fn(T) -> bool, a: T, b: T)
    requires
        forall|x: T, y: T| inside(x) && #[trigger] adj(x, y) ==> inside(y),
        inside(a),
        reaches(adj, a, b),
    ensures
        inside(b),
{
    let walk = choose|walk: Seq<T>| #[trigger]
        is_walk(adj, walk) && walk[0] == a && walk.last() == b;
    lemma_walk_stays(adj, inside, walk, walk.len() as int - 1);
}

/// Of identifiers that are all members, every one counts as inside and none
/// as outside.
proof fn lemma_tally_inside(ids: Seq<NodeId>, members: Seq<NodeId>, upto: int)
    requires
        0 <= upto <= ids.len(),
        forall|j: int| 0 <= j < upto ==> members.contains(#[trigger] ids[j]),
    ensures
        tally(ids, members, true, upto) == upto,
        tally(ids, members, false, upto) == 0,
    decreases upto,
{
    if upto > 0 {
        lemma_tally_inside(ids, members, upto - 1);
        assert(members.contains(ids[upto - 1]));
    }
}

/// A node whose partners are all members keeps as many ratings of members as
/// it has partners.
proof fn lemma_ratings_inside(node: Node, members: Seq<NodeId>, upto: int)
    requires
        0 <= upto <= node.connections.keys().len(),
        forall|j: int| 0 <= j < upto ==> members.contains(#[trigger] node.connections.keys()[j]),
    ensures
        ratings_among(node, members, upto).len() == upto,
    decreases upto,
{
    if upto > 0 {
        lemma_ratings_inside(node, members, upto - 1);
        assert(members.contains(node.connections.keys()[upto - 1]));
    }
}

/// The first `upto` members of a ring that deals only with itself hold, each,
/// a connection to every other member, and none to anybody else; and they
/// keep as many ratings of one another.
proof fn lemma_ring_ties(nodes: Table<NodeId, Node>, members: Seq<NodeId>, upto: int)
    requires
        nodes.wf(),
        closed_clique(nodes, members),
        0 <= upto <= members.len(),
    ensures
        ties_of(nodes, members, true, upto) == upto * (members.len() - 1),
        ties_of(nodes, members, false, upto) == 0,
        mutual_ratings(nodes, members, upto).len() == upto * (members.len() - 1),
    decreases upto,
{
    if upto > 0 {
        lemma_ring_ties(nodes, members, upto - 1);
        let m = members[upto - 1];
        let node = nodes.at(m);
        let partners = node.connections.keys();
        assert forall|j: int| 0 <= j < partners.len() implies members.contains(
            #[trigger] partners[j],
        ) by {
            assert(node.connections.has(partners[j]));
        }
        lemma_tally_inside(partners, members, partners.len() as int);
        lemma_ratings_inside(node, members, partners.len() as int);
        assert(upto * (members.len() - 1) == (upto - 1) * (members.len() - 1) + (members.len() - 1))
            by (nonlinear_arith);
    }
}

/// The figures of a ring that deals only with itself: every connection that
/// could be inside it is there, and none leads out of it. A ring of two or
/// more is dense and keeps to itself, and is suspected strongly.
pub proof fn lemma_ring_figures(nodes: Table<NodeId, Node>, cluster: CollusionCluster)
    requires
        nodes.wf(),
        closed_clique(nodes, cluster.members@),
        counted(nodes, cluster),
    ensures
        cluster.internal_edges == cluster.possible_edges,
        cluster.possible_edges == cluster.members@.len() * (cluster.members@.len() - 1) / 2,
        cluster.external_edges == 0,
        cluster.members@.len() >= 2 ==> cluster.dense() && cluster.closed_off()
            && cluster.confidence.rank() == rank_of(STRONG_SUSPICION),
        mutual_ratings(nodes, cluster.members@, cluster.members@.len() as int).len()
            == cluster.members@.len() * (cluster.members@.len() - 1),
{
    let n = cluster.members@.len() as int;
    lemma_ring_ties(nodes, cluster.members@, n);
    if n >= 2 {
        assert(n * (n - 1) >= 2) by (nonlinear_arith)
            requires
                n >= 2,
        ;
    }
}

/// A class of the network under connection that holds a member of a ring
/// which deals only with itself holds the members of the ring, and nobody
/// else: it is itself such a ring, of the same number of members.
pub proof fn lemma_ring_is_class(nodes: Table<NodeId, Node>, members: Seq<NodeId>, class: Seq<NodeId>)
    requires
        nodes.wf(),
        closed_clique(nodes, members),
        is_cluster(nodes, class),
        class.contains(members[0]),
    ensures
        forall|v: NodeId| class.contains(v) == members.contains(v),
        class.len() == members.len(),
        closed_clique(nodes, class),
{
    let first = members[0];
    let at = class.index_of(first);
    assert(class[at] == first);
    let inside = |v: NodeId| members.contains(v);
    assert forall|x: NodeId, y: NodeId| inside(x) && #[trigger] by_ties(nodes)(x, y) implies inside(
        y,
    ) by {
        let i = members.index_of(x);
        assert(members[i] == x);
        if nodes.has(x) && nodes.at(x).connections.has(y) {
        } else {
            assert(nodes.has(y) && nodes.at(y).connections.has(x));
            if !members.contains(y) {
                assert(!members.contains(x));
            }
        }
    }
    assert forall|v: NodeId| class.contains(v) == members.contains(v) by {
        if class.contains(v) {
            let j = class.index_of(v);
            assert(class[j] == v);
            assert(occurs(nodes, v));
            assert(tied_together(nodes, class[at], v) == class.contains(v));
            lemma_reach_stays(by_ties(nodes), inside, first, v);
        }
        if members.contains(v) {
            let j = members.index_of(v);
            assert(members[j] == v);
            assert(nodes.has(v));
            lemma_reaches_refl(by_ties(nodes), first);
            if j != 0 {
                assert(nodes.at(members[0]).connections.has(members[j]));
                assert(tied(nodes, first, v));
                assert(by_ties(nodes)(first, v));
                lemma_reaches_step(by_ties(nodes), first, first, v);
            }
            assert(tied_together(nodes, class[at], v) == class.contains(v));
        }
    }
    assert(class.to_set() =~= members.to_set());
    class.unique_seq_to_set();
    members.unique_seq_to_set();
    assert forall|i: int| 0 <= i < class.len() implies nodes.has(#[trigger] class[i]) && nodes.at(
        class[i],
    ).connections.keys().len() == class.len() - 1 by {
        assert(class.contains(class[i]));
        let j = members.index_of(class[i]);
        assert(members[j] == class[i]);
    }
    assert forall|i: int, j: int|
        0 <= i < class.len() && 0 <= j < class.len() && i != j implies nodes.at(
        #[trigger] class[i],
    ).connections.has(#[trigger] class[j]) by {
        assert(class.contains(class[i]) && class.contains(class[j]));
        let a = members.index_of(class[i]);
        let b = members.index_of(class[j]);
        assert(members[a] == class[i] && members[b] == class[j]);
    }
    assert forall|i: int, k: NodeId|
        0 <= i < class.len() && #[trigger] nodes.at(class[i]).connections.has(
            k,
        ) implies class.contains(k) && k != class[i] by {
        assert(class.contains(class[i]));
        let a = members.index_of(class[i]);
        assert(members[a] == class[i]);
        assert(nodes.at(members[a]).connections.has(k));
    }
}

/// A ring of three or more nodes that deals only with itself is found by the
/// search for collusion, where the mean of the ratings that its members keep
/// of one another comes out above the mark: one of the clusters that the
/// search gives holds exactly the members of the ring, every connection
/// that could be inside it is there, none leads out of it, and it is
/// suspected strongly.
pub proof fn lemma_ring_is_found<F: Fn(&Vec<Score>) -> Score>(
    nodes: Table<NodeId, Node>,
    mean: F,
    found: Seq<CollusionCluster>,
    members: Seq<NodeId>,
) -> (at: int)
    requires
        nodes.wf(),
        closed_clique(nodes, members),
        members.len() >= CLUSTER_SIZE,
        collusion_found(nodes, mean, found),
        forall|given: Vec<Score>, rating: Score| #[trigger]
            call_ensures(mean, (&given,), rating) ==> rating.rank() > rank_of(
                MUTUAL_RATING_THRESHOLD,
            ),
    ensures
        0 <= at < found.len(),
        forall|v: NodeId| found[at].members@.contains(v) == members.contains(v),
        found[at].members@.len() == members.len(),
        found[at].internal_edges == found[at].possible_edges,
        found[at].possible_edges == members.len() * (members.len() - 1) / 2,
        found[at].external_edges == 0,
        found[at].mutual_rating.rank() > rank_of(MUTUAL_RATING_THRESHOLD),
        found[at].confidence.rank() == rank_of(STRONG_SUSPICION),
        found[at].suspicious(),
{
    let first = members[0];
    assert(nodes.has(first));
    assert(occurs(nodes, first));
    if !(exists|i: int| 0 <= i < found.len() && (#[trigger] found[i]).members@.contains(first)) {
        let k = choose|k: CollusionCluster| #[trigger]
            passed(nodes, k, mean) && k.members@.contains(first);
        lemma_ring_is_class(nodes, members, k.members@);
        assert(profiles(nodes, k, mean) && !k.suspicious());
        lemma_ring_figures(nodes, k);
        let n = k.members@.len() as int;
        assert(n * (n - 1) > 0) by (nonlinear_arith)
            requires
                n >= 3,
        ;
        assert(rated(nodes, k.members@, mean, k.mutual_rating));
        let given = choose|given: Vec<Score>| #[trigger]
            call_ensures(mean, (&given,), k.mutual_rating) && given@ == mutual_ratings(
                nodes,
                k.members@,
                k.members@.len() as int,
            );
        // The cluster looks like collusion after all: it was not passed.
        assert(k.suspicious());
    }
    let at = choose|i: int| 0 <= i < found.len() && (#[trigger] found[i]).members@.contains(first);
    lemma_ring_is_class(nodes, members, found[at].members@);
    lemma_ring_figures(nodes, found[at]);
    at
}

} // verus!
