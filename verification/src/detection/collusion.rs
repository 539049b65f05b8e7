//! The detection of collusion: of clusters of nodes that deal almost only
//! with one another and rate one another highly.

use vstd::prelude::*;
use crate::constants::{
    CLUSTER_SIZE, MUTUAL_RATING_THRESHOLD, STRONG_SUSPICION, WEAK_SUSPICION,
};
use crate::detection::components::{
    adjacent, are_components, by_links, connected, find_connected_components, is_vertex,
    lemma_reaches_image, reaches,
};
use crate::node::Node;
use crate::scalar::rank_of;
use crate::table::Table;
use crate::types::{contains_node, copy_nodes, NodeId, Real, Score};

verus! {

// ---------------------------------------------------------------------------
// The graph of a network
// ---------------------------------------------------------------------------

/// Whether a connection joins `a` and `b`: one of the two is a node of the
/// network and has a connection to the other.
pub open spec fn tied(nodes: Table<NodeId, Node>, a: NodeId, b: NodeId) -> bool {
    ||| nodes.has(a) && nodes.at(a).connections.has(b)
    ||| nodes.has(b) && nodes.at(b).connections.has(a)
}

/// Adjacency along the connections of a network.
pub open spec fn by_ties(nodes: Table<NodeId, Node>) -> spec_fn(NodeId, NodeId) -> bool {
    |a: NodeId, b: NodeId| tied(nodes, a, b)
}

/// Whether a walk along connections leads from `a` to `b`.
pub open spec fn tied_together(nodes: Table<NodeId, Node>, a: NodeId, b: NodeId) -> bool {
    reaches(by_ties(nodes), a, b)
}

/// Whether `v` occurs in the network, as a node or as the partner of one.
pub open spec fn occurs(nodes: Table<NodeId, Node>, v: NodeId) -> bool {
    nodes.has(v) || exists|k: NodeId| #[trigger] nodes.has(k) && nodes.at(k).connections.has(v)
}

/// Whether the graph gives, for each node of the network, the partners of
/// its connections as its neighbours.
pub open spec fn mirrors(graph: Table<NodeId, Vec<NodeId>>, nodes: Table<NodeId, Node>) -> bool {
    &&& graph.wf()
    &&& graph.keys() == nodes.keys()
    &&& forall|i: int|
        0 <= i < nodes.keys().len() ==> (#[trigger] graph.values()[i])@
            == nodes.values()[i].connections.keys()
}

/// The graph of a network: for each node, the partners of its connections.
pub fn connection_graph(nodes: &Table<NodeId, Node>) -> (graph: Table<NodeId, Vec<NodeId>>)
    requires
        nodes.wf(),
        forall|i: int| 0 <= i < nodes.values().len() ==> (#[trigger] nodes.values()[i]).wf(),
    ensures
        mirrors(graph, *nodes),
{
    let mut graph: Table<NodeId, Vec<NodeId>> = Table::new();
    let n = nodes.len();
    let mut i: usize = 0;
    while i < n
        invariant
            i <= n,
            n == nodes.keys().len(),
            nodes.wf(),
            forall|j: int| 0 <= j < nodes.values().len() ==> (#[trigger] nodes.values()[j]).wf(),
            graph.wf(),
            graph.keys() == nodes.keys().take(i as int),
            forall|j: int|
                0 <= j < i ==> (#[trigger] graph.values()[j])@
                    == nodes.values()[j].connections.keys(),
        decreases n - i,
    {
        let node = nodes.value_at(i);
        let mut partners: Vec<NodeId> = Vec::new();
        let m = node.connections.len();
        let mut t: usize = 0;
        while t < m
            invariant
                t <= m,
                m == node.connections.keys().len(),
                node.connections.wf(),
                partners@ == node.connections.keys().take(t as int),
            decreases m - t,
        {
            partners.push(node.connections.key_at(t));
            assert(partners@ =~= node.connections.keys().take(t as int + 1));
            t += 1;
        }
        assert(partners@ =~= node.connections.keys());
        let k = nodes.key_at(i);
        let ghost held = graph;
        proof {
            assert(!held.has(k)) by {
                if held.keys().contains(k) {
                    let j = held.keys().index_of(k);
                    assert(held.keys()[j] == k);
                    assert(nodes.keys()[j] == k);
                }
            }
        }
        graph.insert(k, partners);
        proof {
            assert(graph.keys() =~= nodes.keys().take(i as int + 1));
            assert forall|j: int| 0 <= j < i + 1 implies (#[trigger] graph.values()[j])@
                == nodes.values()[j].connections.keys() by {
                if j < i {
                    assert(graph.values()[j] == held.values()[j]);
                }
            }
        }
        i += 1;
    }
    assert(graph.keys() =~= nodes.keys());
    graph
}

/// A graph that mirrors a network has a link where the network has a
/// connection, and a node where the network has one.
pub proof fn lemma_mirror(graph: Table<NodeId, Vec<NodeId>>, nodes: Table<NodeId, Node>)
    requires
        nodes.wf(),
        mirrors(graph, nodes),
    ensures
        forall|a: NodeId, b: NodeId| #[trigger] adjacent(graph, a, b) == tied(nodes, a, b),
        forall|v: NodeId| #[trigger] is_vertex(graph, v) == occurs(nodes, v),
        forall|a: NodeId, b: NodeId| #[trigger] connected(graph, a, b) == tied_together(nodes, a, b),
{
    assert forall|a: NodeId| #[trigger] graph.has(a) implies graph.at(a)@ == nodes.at(
        a,
    ).connections.keys() by {
        let i = graph.keys().index_of(a);
        assert(graph.keys()[i] == a);
        graph.lemma_place(i);
        nodes.lemma_place(i);
    }
    assert forall|a: NodeId, b: NodeId| #[trigger] adjacent(graph, a, b) == tied(nodes, a, b) by {
        if graph.has(a) {
            assert(graph.at(a)@ == nodes.at(a).connections.keys());
        }
        if graph.has(b) {
            assert(graph.at(b)@ == nodes.at(b).connections.keys());
        }
    }
    assert forall|v: NodeId| #[trigger] is_vertex(graph, v) == occurs(nodes, v) by {
        if is_vertex(graph, v) && !graph.has(v) {
            let k = choose|k: NodeId| #[trigger] graph.has(k) && graph.at(k)@.contains(v);
            assert(nodes.has(k) && nodes.at(k).connections.has(v));
        }
        if occurs(nodes, v) && !nodes.has(v) {
            let k = choose|k: NodeId| #[trigger] nodes.has(k) && nodes.at(k).connections.has(v);
            assert(graph.has(k) && graph.at(k)@.contains(v));
        }
    }
    let same = |v: NodeId| v;
    assert forall|a: NodeId, b: NodeId| #[trigger]
        connected(graph, a, b) == tied_together(nodes, a, b) by {
        assert forall|x: NodeId, y: NodeId| #[trigger] by_links(graph)(x, y) implies by_ties(nodes)(
            same(x),
            same(y),
        ) by {
            assert(adjacent(graph, x, y) == tied(nodes, x, y));
        }
        assert forall|x: NodeId, y: NodeId| #[trigger] by_ties(nodes)(x, y) implies by_links(graph)(
            same(x),
            same(y),
        ) by {
            assert(adjacent(graph, x, y) == tied(nodes, x, y));
        }
        if connected(graph, a, b) {
            lemma_reaches_image(by_links(graph), by_ties(nodes), same, a, b);
        }
        if tied_together(nodes, a, b) {
            lemma_reaches_image(by_ties(nodes), by_links(graph), same, a, b);
        }
    }
}

// ---------------------------------------------------------------------------
// Counts and ratings
// ---------------------------------------------------------------------------

/// Among the first `upto` of `ids`, how many are members (`within`) or are
/// not members (not `within`).
pub open spec fn tally(ids: Seq<NodeId>, members: Seq<NodeId>, within: bool, upto: int) -> nat
    decreases upto,
{
    if upto <= 0 {
        0
    } else {
        tally(ids, members, within, upto - 1) + if members.contains(ids[upto - 1]) == within {
            1nat
        } else {
            0nat
        }
    }
}

/// The number of connections that the first `upto` members have to members
/// (`within`) or to others (not `within`). A connection that both of its
/// ends hold is counted at each end.
pub open spec fn ties_of(
    nodes: Table<NodeId, Node>,
    members: Seq<NodeId>,
    within: bool,
    upto: int,
) -> nat
    decreases upto,
{
    if upto <= 0 {
        0
    } else {
        ties_of(nodes, members, within, upto - 1) + if nodes.has(members[upto - 1]) {
            let partners = nodes.at(members[upto - 1]).connections.keys();
            tally(partners, members, within, partners.len() as int)
        } else {
            0
        }
    }
}

/// The quality averages that a node keeps of the members among the first
/// `upto` of its partners, in the order of its connections.
pub open spec fn ratings_among(node: Node, members: Seq<NodeId>, upto: int) -> Seq<Score>
    decreases upto,
{
    if upto <= 0 {
        Seq::empty()
    } else {
        let before = ratings_among(node, members, upto - 1);
        if members.contains(node.connections.keys()[upto - 1]) {
            before.push(node.connections.values()[upto - 1].q)
        } else {
            before
        }
    }
}

/// The quality averages that the first `upto` members keep of one another.
pub open spec fn mutual_ratings(nodes: Table<NodeId, Node>, members: Seq<NodeId>, upto: int) -> Seq<
    Score,
>
    decreases upto,
{
    if upto <= 0 {
        Seq::empty()
    } else {
        let before = mutual_ratings(nodes, members, upto - 1);
        if nodes.has(members[upto - 1]) {
            let node = nodes.at(members[upto - 1]);
            before + ratings_among(node, members, node.connections.keys().len() as int)
        } else {
            before
        }
    }
}

/// A tally over the first `upto` identifiers is at most `upto`.
proof fn lemma_tally_bound(ids: Seq<NodeId>, members: Seq<NodeId>, within: bool, upto: int)
    requires
        0 <= upto,
    ensures
        tally(ids, members, within, upto) <= upto,
    decreases upto,
{
    if upto > 0 {
        lemma_tally_bound(ids, members, within, upto - 1);
    }
}

/// Whether `id` is among `ids`.

/// Whether `a` of `m` is more than seventeen twentieths.
fn above_collusion_density(a: u128, m: u128) -> (r: bool)
    ensures
        r == (20 * a > 17 * m),
{
    let q = m / 20;
    let rest = m % 20;
    let floor = 17 * q + (17 * rest) / 20;
    a > floor
}

/// Whether `a` of `m` is more than four fifths.
fn above_four_fifths(a: u128, m: u128) -> (r: bool)
    ensures
        r == (5 * a > 4 * m),
{
    let q = m / 5;
    let rest = m % 5;
    let floor = 4 * q + (4 * rest) / 5;
    a > floor
}

/// Whether twice `e` is less than `n`.
fn below_half(e: u128, n: usize) -> (r: bool)
    ensures
        r == (2 * e < n),
{
    let half = (n / 2) as u128;
    let odd = (n % 2) as u128;
    e < half + odd
}

// ---------------------------------------------------------------------------
// Clusters
// ---------------------------------------------------------------------------

/// A cluster of nodes that is looked at for collusion.
#[derive(Debug)]
pub struct CollusionCluster {
    /// The nodes of the cluster.
    pub members: Vec<NodeId>,
    /// The number of connections inside the cluster, each counted once.
    pub internal_edges: u128,
    /// The number of connections that there would be inside the cluster if
    /// each member were connected to each other member.
    pub possible_edges: u128,
    /// The number of connections that lead out of the cluster.
    pub external_edges: u128,
    /// The mean of the quality averages that the members keep of one
    /// another.
    pub mutual_rating: Score,
    /// How sure the detector is.
    pub confidence: Score,
}

impl CollusionCluster {
    /// Whether the cluster is dense: more than the collusion threshold of
    /// the possible connections inside it are there.
    pub open spec fn dense(&self) -> bool {
        20 * self.internal_edges > 17 * self.possible_edges
    }

    /// Whether the cluster keeps to itself: it has fewer connections that
    /// lead out of it than half its number of members.
    pub open spec fn closed_off(&self) -> bool {
        2 * self.external_edges < self.members@.len()
    }

    /// Whether the cluster looks like collusion: it is dense, it keeps to
    /// itself, and its members rate one another above the mark for it.
    pub open spec fn suspicious(&self) -> bool {
        &&& self.dense()
        &&& self.closed_off()
        &&& self.mutual_rating.rank() > rank_of(MUTUAL_RATING_THRESHOLD)
    }

    /// Whether the cluster looks like collusion.
    pub fn is_suspicious(&self) -> (r: bool)
        ensures
            r == self.suspicious(),
    {
        above_collusion_density(self.internal_edges, self.possible_edges) && below_half(
            self.external_edges,
            self.members.len(),
        ) && self.mutual_rating.above(MUTUAL_RATING_THRESHOLD)
    }
}

/// Whether `rating` is the mean mutual rating of the members: zero where no
/// member keeps a quality average of another, and else what `mean` gives for
/// the quality averages that they keep.
pub open spec fn rated<F: Fn(&Vec<Score>) -> Score>(
    nodes: Table<NodeId, Node>,
    members: Seq<NodeId>,
    mean: F,
    rating: Score,
) -> bool {
    let ratings = mutual_ratings(nodes, members, members.len() as int);
    if ratings.len() == 0 {
        rating.rank() == 0
    } else {
        exists|given: Vec<Score>| #[trigger]
            call_ensures(mean, (&given,), rating) && given@ == ratings
    }
}

/// Whether the figures of the cluster are those of its members in the
/// network.
pub open spec fn profiles<F: Fn(&Vec<Score>) -> Score>(
    nodes: Table<NodeId, Node>,
    cluster: CollusionCluster,
    mean: F,
) -> bool {
    &&& counted(nodes, cluster)
    &&& rated(nodes, cluster.members@, mean, cluster.mutual_rating)
}

/// Whether the counts of the cluster are those of its members in the
/// network, and its confidence the one that goes with them: the connections
/// inside it, each counted once, those that could be inside it, and those
/// that lead out of it; a strong suspicion where more than four fifths of
/// the connections that could be inside are there, and a weak one else.
pub open spec fn counted(nodes: Table<NodeId, Node>, cluster: CollusionCluster) -> bool {
    let members = cluster.members@;
    let n = members.len() as int;
    &&& cluster.internal_edges == ties_of(nodes, members, true, n) / 2
    &&& cluster.possible_edges == n * (n - 1) / 2
    &&& cluster.external_edges == ties_of(nodes, members, false, n)
    &&& cluster.confidence.rank() == if 5 * cluster.internal_edges > 4 * cluster.possible_edges {
        rank_of(STRONG_SUSPICION)
    } else {
        rank_of(WEAK_SUSPICION)
    }
}

/// The largest number that a count of neighbours can be.
pub open spec fn limb() -> int {
    usize::MAX as int
}

/// The cluster of the given members, with its figures.
fn profile<F: Fn(&Vec<Score>) -> Score>(
    nodes: &Table<NodeId, Node>,
    members: Vec<NodeId>,
    mean: &F,
) -> (cluster: CollusionCluster)
    requires
        nodes.wf(),
        forall|i: int| 0 <= i < nodes.values().len() ==> (#[trigger] nodes.values()[i]).wf(),
        forall|given: &Vec<Score>| call_requires(*mean, (given,)),
    ensures
        cluster.members@ == members@,
        profiles(*nodes, cluster, *mean),
{
    let n = members.len();
    let mut inside: u128 = 0;
    let mut outside: u128 = 0;
    let mut ratings: Vec<Score> = Vec::new();
    let mut i: usize = 0;
    while i < n
        invariant
            i <= n,
            n == members@.len(),
            nodes.wf(),
            forall|j: int| 0 <= j < nodes.values().len() ==> (#[trigger] nodes.values()[j]).wf(),
            inside == ties_of(*nodes, members@, true, i as int),
            outside == ties_of(*nodes, members@, false, i as int),
            inside <= i * limb(),
            outside <= i * limb(),
            ratings@ == mutual_ratings(*nodes, members@, i as int),
        decreases n - i,
    {
        let member = members[i];
        match nodes.get(&member) {
            Some(node) => {
                proof {
                    let at = nodes.keys().index_of(member);
                    assert(nodes.keys()[at] == member);
                    nodes.lemma_place(at);
                    assert(node.wf());
                }
                let m = node.connections.len();
                let ghost partners = node.connections.keys();
                let ghost before = ratings@;
                let mut a: usize = 0;
                let mut b: usize = 0;
                let mut t: usize = 0;
                while t < m
                    invariant
                        t <= m,
                        m == partners.len(),
                        partners == node.connections.keys(),
                        node.connections.wf(),
                        a == tally(partners, members@, true, t as int),
                        b == tally(partners, members@, false, t as int),
                        a <= t,
                        b <= t,
                        ratings@ == before + ratings_among(*node, members@, t as int),
                    decreases m - t,
                {
                    let partner = node.connections.key_at(t);
                    if contains_node(&members, &partner) {
                        a += 1;
                        ratings.push(node.connections.value_at(t).q);
                        assert(ratings@ =~= before + ratings_among(*node, members@, t as int + 1));
                    } else {
                        b += 1;
                    }
                    t += 1;
                }
                proof {
                    assert(inside + a <= (i + 1) * limb()) by (nonlinear_arith)
                        requires
                            inside <= i * limb(),
                            a <= limb(),
                    ;
                    assert(outside + b <= (i + 1) * limb()) by (nonlinear_arith)
                        requires
                            outside <= i * limb(),
                            b <= limb(),
                    ;
                    assert((i + 1) * limb() <= limb() * limb()) by (nonlinear_arith)
                        requires
                            0 <= i + 1 <= limb(),
                    ;
                    assert(limb() * limb() <= 0xFFFF_FFFF_FFFF_FFFE_0000_0000_0000_0001) by (
                        nonlinear_arith)
                        requires
                            0 <= limb() <= 0xFFFF_FFFF_FFFF_FFFF,
                    ;
                }
                inside = inside + a as u128;
                outside = outside + b as u128;
            },
            None => {
                proof {
                    assert(ratings@ =~= mutual_ratings(*nodes, members@, i as int + 1));
                    assert(inside <= (i + 1) * limb()) by (nonlinear_arith)
                        requires
                            inside <= i * limb(),
                            0 <= limb(),
                    ;
                    assert(outside <= (i + 1) * limb()) by (nonlinear_arith)
                        requires
                            outside <= i * limb(),
                            0 <= limb(),
                    ;
                }
            },
        }
        i += 1;
    }
    let internal_edges = inside / 2;
    let possible_edges: u128 = if n == 0 {
        0
    } else {
        proof {
            assert(n * (n - 1) <= 0xFFFF_FFFF_FFFF_FFFE_0000_0000_0000_0001) by (nonlinear_arith)
                requires
                    1 <= n <= 0xFFFF_FFFF_FFFF_FFFF,
            ;
        }
        (n as u128) * ((n - 1) as u128) / 2
    };
    let confidence = if above_four_fifths(internal_edges, possible_edges) {
        Score::new(Real::from_bits(STRONG_SUSPICION))
    } else {
        Score::new(Real::from_bits(WEAK_SUSPICION))
    };
    let mutual_rating = if ratings.len() == 0 {
        Score::zero()
    } else {
        let rating = mean(&ratings);
        assert(call_ensures(*mean, (&ratings,), rating) && ratings@ == mutual_ratings(
            *nodes,
            members@,
            n as int,
        ));
        rating
    };
    CollusionCluster {
        members,
        internal_edges,
        possible_edges,
        external_edges: outside,
        mutual_rating,
        confidence,
    }
}

/// Whether `members` are a class of the network under connection: nodes
/// that occur in the network, each once, and exactly those that a walk
/// along connections reaches from any one of them.
pub open spec fn is_cluster(nodes: Table<NodeId, Node>, members: Seq<NodeId>) -> bool {
    &&& members.len() > 0
    &&& members.no_duplicates()
    &&& forall|i: int| 0 <= i < members.len() ==> occurs(nodes, #[trigger] members[i])
    &&& forall|i: int, v: NodeId|
        0 <= i < members.len() && occurs(nodes, v) ==> #[trigger] tied_together(
            nodes,
            members[i],
            v,
        ) == members.contains(v)
}

/// Whether the cluster was looked at and passed: it is too small to be
/// looked at for collusion, or its figures do not look like collusion.
pub open spec fn passed<F: Fn(&Vec<Score>) -> Score>(
    nodes: Table<NodeId, Node>,
    cluster: CollusionCluster,
    mean: F,
) -> bool {
    &&& is_cluster(nodes, cluster.members@)
    &&& cluster.members@.len() < CLUSTER_SIZE || (profiles(nodes, cluster, mean)
        && !cluster.suspicious())
}

/// A component of the graph of a network is a class of the network under
/// connection.
proof fn lemma_component_is_cluster(
    graph: Table<NodeId, Vec<NodeId>>,
    nodes: Table<NodeId, Node>,
    components: Seq<Vec<NodeId>>,
    c: int,
)
    requires
        nodes.wf(),
        mirrors(graph, nodes),
        are_components(graph, components),
        0 <= c < components.len(),
    ensures
        is_cluster(nodes, components[c]@),
{
    lemma_mirror(graph, nodes);
    let members = components[c]@;
    assert forall|i: int, j: int| 0 <= i < j < members.len() implies members[i] != members[j] by {
        if components[c]@[i] == components[c]@[j] {
            assert(i == j);
        }
    }
    assert forall|i: int| 0 <= i < members.len() implies occurs(nodes, #[trigger] members[i]) by {
        assert(is_vertex(graph, components[c]@[i]));
    }
    assert forall|i: int, v: NodeId| 0 <= i < members.len() && occurs(nodes, v) implies #[trigger]
        tied_together(nodes, members[i], v) == members.contains(v) by {
        assert(is_vertex(graph, v));
        let d = choose|d: int| 0 <= d < components.len() && (#[trigger] components[d])@.contains(v);
        let j = components[d]@.index_of(v);
        assert(components[d]@[j] == v);
        assert(connected(graph, components[c]@[i], components[d]@[j]) == (c == d));
        assert(connected(graph, members[i], v) == tied_together(nodes, members[i], v));
        if members.contains(v) {
            let j2 = members.index_of(v);
            assert(components[c]@[j2] == components[d]@[j]);
        }
    }
}

/// Whether `found` are the clusters of the network that look like
/// collusion: each is a class of the network under connection, of three
/// nodes or more, with the figures of its members, and looks like collusion;
/// no node is in two of them; and every other node of the network is in a
/// cluster that was passed.
pub open spec fn collusion_found<F: Fn(&Vec<Score>) -> Score>(
    nodes: Table<NodeId, Node>,
    mean: F,
    found: Seq<CollusionCluster>,
) -> bool {
    &&& forall|i: int|
        0 <= i < found.len() ==> {
            &&& is_cluster(nodes, (#[trigger] found[i]).members@)
            &&& found[i].members@.len() >= CLUSTER_SIZE
            &&& profiles(nodes, found[i], mean)
            &&& found[i].suspicious()
        }
    &&& forall|i: int, j: int, v: NodeId|
        0 <= i < j < found.len() ==> !(#[trigger] found[i].members@.contains(v)
            && #[trigger] found[j].members@.contains(v))
    &&& forall|v: NodeId|
        occurs(nodes, v) ==> (exists|i: int|
            0 <= i < found.len() && (#[trigger] found[i]).members@.contains(v)) || (exists|
            k: CollusionCluster,
        | #[trigger] passed(nodes, k, mean) && k.members@.contains(v))
}

/// Looks for collusion in a network.
///
/// The network falls into clusters: classes of nodes that connections tie
/// together, a connection counting in both directions. A cluster of three
/// or more nodes is looked at. It looks like collusion when more than the
/// collusion threshold of the connections that could be inside it are there,
/// when fewer connections lead out of it than half its number of members,
/// and when the mean of the quality averages that its members keep of one
/// another, as `mean` gives it, is above the mark for it. The clusters that
/// look like collusion are given, each once, with their figures. Every
/// other node of the network is in a cluster that is too small or whose
/// figures do not look like collusion.
pub fn detect_collusion<F: Fn(&Vec<Score>) -> Score>(nodes: &Table<NodeId, Node>, mean: F) -> (found:
    Vec<CollusionCluster>)
    requires
        nodes.wf(),
        forall|i: int| 0 <= i < nodes.values().len() ==> (#[trigger] nodes.values()[i]).wf(),
        forall|given: &Vec<Score>| call_requires(mean, (given,)),
    ensures
        forall|i: int|
            0 <= i < found.len() ==> {
                &&& is_cluster(*nodes, (#[trigger] found[i]).members@)
                &&& found[i].members@.len() >= CLUSTER_SIZE
                &&& profiles(*nodes, found[i], mean)
                &&& found[i].suspicious()
            },
        forall|i: int, j: int, v: NodeId|
            0 <= i < j < found.len() ==> !(#[trigger] found[i].members@.contains(v)
                && #[trigger] found[j].members@.contains(v)),
        forall|v: NodeId|
            occurs(*nodes, v) ==> (exists|i: int|
                0 <= i < found.len() && (#[trigger] found[i]).members@.contains(v)) || (exists|
                k: CollusionCluster,
            | #[trigger] passed(*nodes, k, mean) && k.members@.contains(v)),
        collusion_found(*nodes, mean, found@),
{
    let graph = connection_graph(nodes);
    let communities = find_connected_components(&graph);
    proof {
        lemma_mirror(graph, *nodes);
    }
    let mut found: Vec<CollusionCluster> = Vec::new();
    let ghost mut origin: Seq<int> = Seq::empty();
    let mut c: usize = 0;
    while c < communities.len()
        invariant
            c <= communities.len(),
            nodes.wf(),
            forall|i: int| 0 <= i < nodes.values().len() ==> (#[trigger] nodes.values()[i]).wf(),
            forall|given: &Vec<Score>| call_requires(mean, (given,)),
            mirrors(graph, *nodes),
            are_components(graph, communities@),
            origin.len() == found.len(),
            forall|i: int|
                0 <= i < found.len() ==> 0 <= (#[trigger] origin[i]) < c && found[i].members@
                    == communities[origin[i]]@,
            forall|i: int, j: int| 0 <= i < j < origin.len() ==> origin[i] < origin[j],
            forall|i: int|
                0 <= i < found.len() ==> {
                    &&& is_cluster(*nodes, (#[trigger] found[i]).members@)
                    &&& found[i].members@.len() >= CLUSTER_SIZE
                    &&& profiles(*nodes, found[i], mean)
                    &&& found[i].suspicious()
                },
            forall|d: int|
                0 <= d < c ==> (exists|i: int|
                    0 <= i < found.len() && (#[trigger] found[i]).members@ == communities[d]@) || (
                exists|k: CollusionCluster| #[trigger]
                    passed(*nodes, k, mean) && k.members@ == (#[trigger] communities[d])@),
        decreases communities.len() - c,
    {
        let members = copy_nodes(&communities[c]);
        proof {
            lemma_component_is_cluster(graph, *nodes, communities@, c as int);
        }
        let ghost held = found@;
        let ghost held_origin = origin;
        if members.len() >= CLUSTER_SIZE {
            let cluster = profile(nodes, members, &mean);
            if cluster.is_suspicious() {
                found.push(cluster);
                proof {
                    origin = origin.push(c as int);
                    assert forall|i: int| 0 <= i < found.len() implies 0 <= (#[trigger] origin[i])
                        < c + 1 && found[i].members@ == communities[origin[i]]@ by {
                        if i < held.len() {
                            assert(found[i] == held[i]);
                            assert(origin[i] == held_origin[i]);
                        }
                    }
                    assert forall|i: int| 0 <= i < found.len() implies {
                        &&& is_cluster(*nodes, (#[trigger] found[i]).members@)
                        &&& found[i].members@.len() >= CLUSTER_SIZE
                        &&& profiles(*nodes, found[i], mean)
                        &&& found[i].suspicious()
                    } by {
                        if i < held.len() {
                            assert(found[i] == held[i]);
                        }
                    }
                    assert(found[held.len() as int].members@ == communities[c as int]@);
                }
            } else {
                proof {
                    assert(passed(*nodes, cluster, mean) && cluster.members@ == communities[c as int]@);
                }
            }
        } else {
            let ghost small = CollusionCluster {
                members,
                internal_edges: 0,
                possible_edges: 0,
                external_edges: 0,
                mutual_rating: arbitrary(),
                confidence: arbitrary(),
            };
            proof {
                assert(passed(*nodes, small, mean) && small.members@ == communities[c as int]@);
            }
        }
        proof {
            assert forall|d: int| 0 <= d < c + 1 implies (exists|i: int|
                0 <= i < found.len() && (#[trigger] found[i]).members@ == communities[d]@) || (
            exists|k: CollusionCluster| #[trigger]
                passed(*nodes, k, mean) && k.members@ == (#[trigger] communities[d])@) by {
                if d < c {
                    if exists|i: int|
                        0 <= i < held.len() && (#[trigger] held[i]).members@ == communities[d]@ {
                        let i = choose|i: int|
                            0 <= i < held.len() && (#[trigger] held[i]).members@ == communities[d]@;
                        assert(found[i] == held[i]);
                    }
                }
            }
        }
        c += 1;
    }
    proof {
        assert forall|i: int, j: int, v: NodeId| 0 <= i < j < found.len() implies !(
        #[trigger] found[i].members@.contains(v) && #[trigger] found[j].members@.contains(v)) by {
            if found[i].members@.contains(v) && found[j].members@.contains(v) {
                let a = origin[i];
                let b = origin[j];
                let x = communities[a]@.index_of(v);
                let y = communities[b]@.index_of(v);
                assert(communities[a]@[x] == communities[b]@[y]);
            }
        }
        assert forall|v: NodeId| occurs(*nodes, v) implies (exists|i: int|
            0 <= i < found.len() && (#[trigger] found[i]).members@.contains(v)) || (exists|
            k: CollusionCluster,
        | #[trigger] passed(*nodes, k, mean) && k.members@.contains(v)) by {
            assert(is_vertex(graph, v));
            let d = choose|d: int|
                0 <= d < communities.len() && (#[trigger] communities[d])@.contains(v);
            if exists|i: int|
                0 <= i < found.len() && (#[trigger] found[i]).members@ == communities[d]@ {
                let i = choose|i: int|
                    0 <= i < found.len() && (#[trigger] found[i]).members@ == communities[d]@;
                assert(found[i].members@.contains(v));
            } else {
                let k = choose|k: CollusionCluster| #[trigger]
                    passed(*nodes, k, mean) && k.members@ == communities[d]@;
                assert(passed(*nodes, k, mean) && k.members@.contains(v));
            }
        }
    }
    found
}

} // verus!
