//! The connected components of a graph.
//!
//! A graph is given by the neighbours of each of its nodes. A link counts in
//! both directions, whichever of its two ends names the other. Two nodes
//! belong to one component exactly when a walk along links leads from the
//! one to the other.

use vstd::prelude::*;
use crate::table::Table;
use crate::types::NodeId;

verus! {

// ---------------------------------------------------------------------------
// Walks
// ---------------------------------------------------------------------------

/// Whether each step of `walk` goes from a node to one that is adjacent to
/// it.
pub open spec fn is_walk<T>(adj: spec_fn(T, T) -> bool, walk: Seq<T>) -> bool {
    &&& walk.len() > 0
    &&& forall|i: int| 0 <= i < walk.len() - 1 ==> adj(#[trigger] walk[i], walk[i + 1])
}

/// Whether a walk leads from `a` to `b`.
pub open spec fn reaches<T>(adj: spec_fn(T, T) -> bool, a: T, b: T) -> bool {
    exists|walk: Seq<T>| #[trigger] is_walk(adj, walk) && walk[0] == a && walk.last() == b
}

/// Whether adjacency goes both ways.
pub open spec fn symmetric<T>(adj: spec_fn(T, T) -> bool) -> bool {
    forall|x: T, y: T| #[trigger] adj(x, y) ==> adj(y, x)
}

/// Every node reaches itself.
pub proof fn lemma_reaches_refl<T>(adj: spec_fn(T, T) -> bool, a: T)
    ensures
        reaches(adj, a, a),
{
    let walk = seq![a];
    assert(is_walk(adj, walk));
    assert(walk[0] == a && walk.last() == a);
}

/// A walk can be made one step longer.
pub proof fn lemma_reaches_step<T>(adj: spec_fn(T, T) -> bool, a: T, b: T, c: T)
    requires
        reaches(adj, a, b),
        adj(b, c),
    ensures
        reaches(adj, a, c),
{
    let walk = choose|walk: Seq<T>| #[trigger]
        is_walk(adj, walk) && walk[0] == a && walk.last() == b;
    let longer = walk.push(c);
    assert forall|i: int| 0 <= i < longer.len() - 1 implies adj(
        #[trigger] longer[i],
        longer[i + 1],
    ) by {
        if i < walk.len() - 1 {
            assert(longer[i] == walk[i]);
            assert(longer[i + 1] == walk[i + 1]);
        } else {
            assert(longer[i] == b);
            assert(longer[i + 1] == c);
        }
    }
    assert(is_walk(adj, longer));
    assert(longer[0] == a && longer.last() == c);
}

/// A node that reaches the start of a walk reaches each node of the walk.
proof fn lemma_along_walk<T>(adj: spec_fn(T, T) -> bool, a: T, walk: Seq<T>, upto: int)
    requires
        is_walk(adj, walk),
        reaches(adj, a, walk[0]),
        0 <= upto < walk.len(),
    ensures
        reaches(adj, a, walk[upto]),
    decreases upto,
{
    if upto > 0 {
        lemma_along_walk(adj, a, walk, upto - 1);
        assert(adj(walk[upto - 1], walk[upto - 1 + 1]));
        lemma_reaches_step(adj, a, walk[upto - 1], walk[upto]);
    }
}

/// A walk from `b` to `c` can be put behind a walk from `a` to `b`.
pub proof fn lemma_reaches_trans<T>(adj: spec_fn(T, T) -> bool, a: T, b: T, c: T)
    requires
        reaches(adj, a, b),
        reaches(adj, b, c),
    ensures
        reaches(adj, a, c),
{
    let second = choose|walk: Seq<T>| #[trigger]
        is_walk(adj, walk) && walk[0] == b && walk.last() == c;
    lemma_along_walk(adj, a, second, second.len() as int - 1);
}

/// Each node of a walk reaches the start of the walk, where adjacency goes
/// both ways.
proof fn lemma_walk_back<T>(adj: spec_fn(T, T) -> bool, walk: Seq<T>, from: int)
    requires
        symmetric(adj),
        is_walk(adj, walk),
        0 <= from < walk.len(),
    ensures
        reaches(adj, walk[from], walk[0]),
    decreases from,
{
    if from == 0 {
        lemma_reaches_refl(adj, walk[0]);
    } else {
        lemma_walk_back(adj, walk, from - 1);
        assert(adj(walk[from - 1], walk[from - 1 + 1]));
        assert(adj(walk[from], walk[from - 1]));
        lemma_reaches_refl(adj, walk[from]);
        lemma_reaches_step(adj, walk[from], walk[from], walk[from - 1]);
        lemma_reaches_trans(adj, walk[from], walk[from - 1], walk[0]);
    }
}

/// A walk can be gone backwards, where adjacency goes both ways.
pub proof fn lemma_reaches_sym<T>(adj: spec_fn(T, T) -> bool, a: T, b: T)
    requires
        symmetric(adj),
        reaches(adj, a, b),
    ensures
        reaches(adj, b, a),
{
    let walk = choose|walk: Seq<T>| #[trigger]
        is_walk(adj, walk) && walk[0] == a && walk.last() == b;
    lemma_walk_back(adj, walk, walk.len() as int - 1);
}

/// A map that carries adjacent nodes to adjacent nodes carries each node of
/// a walk to a node that the image of the start reaches.
proof fn lemma_walk_image<S, T>(
    from: spec_fn(S, S) -> bool,
    to: spec_fn(T, T) -> bool,
    f: spec_fn(S) -> T,
    walk: Seq<S>,
    upto: int,
)
    requires
        forall|x: S, y: S| #[trigger] from(x, y) ==> to(f(x), f(y)),
        is_walk(from, walk),
        0 <= upto < walk.len(),
    ensures
        reaches(to, f(walk[0]), f(walk[upto])),
    decreases upto,
{
    if upto == 0 {
        lemma_reaches_refl(to, f(walk[0]));
    } else {
        lemma_walk_image(from, to, f, walk, upto - 1);
        assert(from(walk[upto - 1], walk[upto - 1 + 1]));
        lemma_reaches_step(to, f(walk[0]), f(walk[upto - 1]), f(walk[upto]));
    }
}

/// A map that carries adjacent nodes to adjacent nodes carries nodes of
/// which one reaches the other to nodes of which one reaches the other.
pub proof fn lemma_reaches_image<S, T>(
    from: spec_fn(S, S) -> bool,
    to: spec_fn(T, T) -> bool,
    f: spec_fn(S) -> T,
    a: S,
    b: S,
)
    requires
        forall|x: S, y: S| #[trigger] from(x, y) ==> to(f(x), f(y)),
        reaches(from, a, b),
    ensures
        reaches(to, f(a), f(b)),
{
    let walk = choose|walk: Seq<S>| #[trigger]
        is_walk(from, walk) && walk[0] == a && walk.last() == b;
    lemma_walk_image(from, to, f, walk, walk.len() as int - 1);
}

// ---------------------------------------------------------------------------
// Graphs on indices
// ---------------------------------------------------------------------------

/// Whether an edge joins `a` and `b`, in either direction.
pub open spec fn linked(edges: Seq<(usize, usize)>, a: int, b: int) -> bool {
    exists|e: int|
        0 <= e < edges.len() && ((#[trigger] edges[e]).0 == a && edges[e].1 == b || edges[e].0 == b
            && edges[e].1 == a)
}

/// Adjacency along the edges.
pub open spec fn by_edges(edges: Seq<(usize, usize)>) -> spec_fn(int, int) -> bool {
    |a: int, b: int| linked(edges, a, b)
}

/// Whether a walk along edges leads from `a` to `b`.
pub open spec fn joined(edges: Seq<(usize, usize)>, a: int, b: int) -> bool {
    reaches(by_edges(edges), a, b)
}

/// Every index is joined to itself.
proof fn lemma_joined_refl(edges: Seq<(usize, usize)>, a: int)
    ensures
        joined(edges, a, a),
{
    lemma_reaches_refl(by_edges(edges), a);
}

/// What is joined to an index is joined to what that index is linked to.
proof fn lemma_joined_step(edges: Seq<(usize, usize)>, a: int, b: int, c: int)
    requires
        joined(edges, a, b),
        linked(edges, b, c),
    ensures
        joined(edges, a, c),
{
    assert(by_edges(edges)(b, c));
    lemma_reaches_step(by_edges(edges), a, b, c);
}

/// Being joined carries over: from `a` to `b` and from `b` to `c` gives
/// from `a` to `c`.
proof fn lemma_joined_trans(edges: Seq<(usize, usize)>, a: int, b: int, c: int)
    requires
        joined(edges, a, b),
        joined(edges, b, c),
    ensures
        joined(edges, a, c),
{
    lemma_reaches_trans(by_edges(edges), a, b, c);
}

/// Being joined holds in both directions.
proof fn lemma_joined_sym(edges: Seq<(usize, usize)>, a: int, b: int)
    requires
        joined(edges, a, b),
    ensures
        joined(edges, b, a),
{
    assert(symmetric(by_edges(edges))) by {
        assert forall|x: int, y: int| #[trigger] by_edges(edges)(x, y) implies by_edges(edges)(
            y,
            x,
        ) by {
            assert(linked(edges, x, y));
            assert(linked(edges, y, x));
        }
    }
    lemma_reaches_sym(by_edges(edges), a, b);
}

/// Whether the two ends of every edge carry the same label.
pub open spec fn settled(edges: Seq<(usize, usize)>, labels: Seq<usize>) -> bool {
    forall|e: int|
        0 <= e < edges.len() ==> labels[(#[trigger] edges[e]).0 as int] == labels[edges[e].1 as int]
}

/// Where the two ends of every edge carry the same label, so do the two ends
/// of every walk.
proof fn lemma_settled_walk(
    edges: Seq<(usize, usize)>,
    labels: Seq<usize>,
    walk: Seq<int>,
    upto: int,
)
    requires
        settled(edges, labels),
        is_walk(by_edges(edges), walk),
        0 <= upto < walk.len(),
    ensures
        labels[walk[0]] == labels[walk[upto]],
    decreases upto,
{
    if upto > 0 {
        lemma_settled_walk(edges, labels, walk, upto - 1);
        assert(by_edges(edges)(walk[upto - 1], walk[upto - 1 + 1]));
        assert(linked(edges, walk[upto - 1], walk[upto]));
        let e = choose|e: int|
            0 <= e < edges.len() && ((#[trigger] edges[e]).0 == walk[upto - 1] && edges[e].1
                == walk[upto] || edges[e].0 == walk[upto] && edges[e].1 == walk[upto - 1]);
        assert(labels[edges[e].0 as int] == labels[edges[e].1 as int]);
    }
}

/// The sum of the labels.
pub open spec fn total(labels: Seq<usize>) -> int
    decreases labels.len(),
{
    if labels.len() == 0 {
        0
    } else {
        total(labels.drop_last()) + labels.last()
    }
}

/// Lowering one label lowers the sum by as much.
proof fn lemma_total_update(labels: Seq<usize>, i: int, v: usize)
    requires
        0 <= i < labels.len(),
    ensures
        total(labels.update(i, v)) == total(labels) - labels[i] + v,
        total(labels) >= 0,
    decreases labels.len(),
{
    let updated = labels.update(i, v);
    if i == labels.len() - 1 {
        assert(updated.drop_last() =~= labels.drop_last());
        lemma_total_nonneg(labels.drop_last());
    } else {
        assert(updated.drop_last() =~= labels.drop_last().update(i, v));
        lemma_total_update(labels.drop_last(), i, v);
    }
}

/// A total of labels is not negative.
proof fn lemma_total_nonneg(labels: Seq<usize>)
    ensures
        total(labels) >= 0,
    decreases labels.len(),
{
    if labels.len() > 0 {
        lemma_total_nonneg(labels.drop_last());
    }
}

/// Labels the nodes `0..n` of a graph by component: two nodes get the same
/// label exactly when they are joined, and the label of a component is one of
/// its nodes, which carries its own label.
pub fn label_components(n: usize, edges: &Vec<(usize, usize)>) -> (labels: Vec<usize>)
    requires
        forall|e: int| 0 <= e < edges.len() ==> (#[trigger] edges[e]).0 < n && edges[e].1 < n,
    ensures
        labels.len() == n,
        forall|a: int| 0 <= a < n ==> (#[trigger] labels[a]) < n,
        forall|a: int| 0 <= a < n ==> labels[(#[trigger] labels[a]) as int] == labels[a],
        forall|a: int, b: int|
            0 <= a < n && 0 <= b < n ==> ((#[trigger] labels[a]) == (#[trigger] labels[b])) == joined(
                edges@,
                a,
                b,
            ),
{
    let mut labels: Vec<usize> = Vec::new();
    let mut i: usize = 0;
    while i < n
        invariant
            i <= n,
            labels.len() == i,
            forall|a: int| 0 <= a < i ==> labels[a] == a,
        decreases n - i,
    {
        labels.push(i);
        i += 1;
    }
    proof {
        assert forall|a: int| 0 <= a < n implies joined(edges@, a, (#[trigger] labels[a]) as int) by {
            lemma_joined_refl(edges@, a);
        }
    }
    loop
        invariant_except_break
            labels.len() == n,
            forall|e: int| 0 <= e < edges.len() ==> (#[trigger] edges[e]).0 < n && edges[e].1 < n,
            forall|a: int| 0 <= a < n ==> (#[trigger] labels[a]) < n,
            forall|a: int| 0 <= a < n ==> joined(edges@, a, (#[trigger] labels[a]) as int),
        ensures
            labels.len() == n,
            forall|a: int| 0 <= a < n ==> (#[trigger] labels[a]) < n,
            forall|a: int| 0 <= a < n ==> joined(edges@, a, (#[trigger] labels[a]) as int),
            settled(edges@, labels@),
        decreases total(labels@),
    {
        let ghost start = labels@;
        let mut changed = false;
        let mut e: usize = 0;
        while e < edges.len()
            invariant
                e <= edges.len(),
                labels.len() == n,
                start.len() == n,
                forall|e: int|
                    0 <= e < edges.len() ==> (#[trigger] edges[e]).0 < n && edges[e].1 < n,
                forall|a: int| 0 <= a < n ==> (#[trigger] labels[a]) < n,
                forall|a: int| 0 <= a < n ==> joined(edges@, a, (#[trigger] labels[a]) as int),
                total(labels@) <= total(start),
                changed ==> total(labels@) < total(start),
                !changed ==> labels@ == start,
                !changed ==> forall|d: int|
                    0 <= d < e ==> labels[(#[trigger] edges[d]).0 as int] == labels[edges[d].1 as int],
            decreases edges.len() - e,
        {
            let (u, v) = edges[e];
            let lu = labels[u];
            let lv = labels[v];
            if lu < lv {
                proof {
                    lemma_total_update(labels@, v as int, lu);
                    assert(linked(edges@, u as int, v as int)) by {
                        assert(edges@[e as int].0 == u && edges@[e as int].1 == v);
                    }
                    assert(linked(edges@, v as int, u as int)) by {
                        assert(edges@[e as int].0 == u && edges@[e as int].1 == v);
                    }
                    lemma_joined_refl(edges@, v as int);
                    lemma_joined_step(edges@, v as int, v as int, u as int);
                    lemma_joined_trans(edges@, v as int, u as int, lu as int);
                }
                labels[v] = lu;
                changed = true;
            } else if lv < lu {
                proof {
                    lemma_total_update(labels@, u as int, lv);
                    assert(linked(edges@, u as int, v as int)) by {
                        assert(edges@[e as int].0 == u && edges@[e as int].1 == v);
                    }
                    lemma_joined_refl(edges@, u as int);
                    lemma_joined_step(edges@, u as int, u as int, v as int);
                    lemma_joined_trans(edges@, u as int, v as int, lv as int);
                }
                labels[u] = lv;
                changed = true;
            }
            e += 1;
        }
        if !changed {
            break ;
        }
        proof {
            lemma_total_nonneg(labels@);
        }
    }
    proof {
        assert forall|a: int, b: int| 0 <= a < n && 0 <= b < n implies ((#[trigger] labels[a]) == (
        #[trigger] labels[b])) == joined(edges@, a, b) by {
            if joined(edges@, a, b) {
                let walk = choose|walk: Seq<int>| #[trigger]
                    is_walk(by_edges(edges@), walk) && walk[0] == a && walk.last() == b;
                lemma_settled_walk(edges@, labels@, walk, walk.len() as int - 1);
            }
            if labels[a] == labels[b] {
                lemma_joined_sym(edges@, b, labels[b] as int);
                lemma_joined_trans(edges@, a, labels[a] as int, b);
            }
        }
        assert forall|a: int| 0 <= a < n implies labels[(#[trigger] labels[a]) as int]
            == labels[a] by {
            let r = labels[a] as int;
            assert(joined(edges@, a, r));
            assert((labels[a] == labels[r]) == joined(edges@, a, r));
        }
    }
    labels
}

// ---------------------------------------------------------------------------
// Graphs on node identifiers
// ---------------------------------------------------------------------------

/// Whether a link joins `a` and `b`: one of the two is a node of the graph
/// and has the other among its neighbours.
pub open spec fn adjacent(graph: Table<NodeId, Vec<NodeId>>, a: NodeId, b: NodeId) -> bool {
    ||| graph.has(a) && graph.at(a)@.contains(b)
    ||| graph.has(b) && graph.at(b)@.contains(a)
}

/// Adjacency along the links of a graph.
pub open spec fn by_links(graph: Table<NodeId, Vec<NodeId>>) -> spec_fn(NodeId, NodeId) -> bool {
    |a: NodeId, b: NodeId| adjacent(graph, a, b)
}

/// Whether a walk along links leads from `a` to `b`.
pub open spec fn connected(graph: Table<NodeId, Vec<NodeId>>, a: NodeId, b: NodeId) -> bool {
    reaches(by_links(graph), a, b)
}

/// Whether `v` occurs in the graph, as a node or as a neighbour of one.
pub open spec fn is_vertex(graph: Table<NodeId, Vec<NodeId>>, v: NodeId) -> bool {
    graph.has(v) || exists|k: NodeId| #[trigger] graph.has(k) && graph.at(k)@.contains(v)
}

/// Whether an edge goes from place `k` to the place of `id` in `universe`.
pub open spec fn recorded(
    edges: Seq<(usize, usize)>,
    universe: Seq<NodeId>,
    k: int,
    id: NodeId,
) -> bool {
    exists|e: int|
        0 <= e < edges.len() && (#[trigger] edges[e]).0 == k && edges[e].1 < universe.len()
            && universe[edges[e].1 as int] == id
}

/// What is recorded stays recorded when the row of nodes and the list of
/// edges grow at their ends.
proof fn lemma_recorded_grows(
    pairs: Seq<(usize, usize)>,
    row: Seq<NodeId>,
    edges: Seq<(usize, usize)>,
    universe: Seq<NodeId>,
    k: int,
    id: NodeId,
)
    requires
        recorded(pairs, row, k, id),
        pairs.len() <= edges.len(),
        forall|e: int| 0 <= e < pairs.len() ==> edges[e] == pairs[e],
        row.len() <= universe.len(),
        forall|i: int| 0 <= i < row.len() ==> universe[i] == row[i],
    ensures
        recorded(edges, universe, k, id),
{
    let e = choose|e: int|
        0 <= e < pairs.len() && (#[trigger] pairs[e]).0 == k && pairs[e].1 < row.len()
            && row[pairs[e].1 as int] == id;
    assert(edges[e] == pairs[e]);
}

/// The place of `id` in `universe`, where it is put at the end if it was not
/// there.
fn place_of(universe: &mut Vec<NodeId>, id: NodeId) -> (i: usize)
    requires
        old(universe)@.no_duplicates(),
    ensures
        final(universe)@.no_duplicates(),
        i < final(universe).len(),
        final(universe)@[i as int] == id,
        final(universe)@ == old(universe)@ || final(universe)@ == old(universe)@.push(id),
        old(universe)@.contains(id) ==> final(universe)@ == old(universe)@,
{
    let mut i: usize = 0;
    while i < universe.len()
        invariant
            i <= universe.len(),
            universe@ == old(universe)@,
            universe@.no_duplicates(),
            forall|j: int| 0 <= j < i ==> universe@[j] != id,
        decreases universe.len() - i,
    {
        if universe[i].same_as(&id) {
            return i;
        }
        i += 1;
    }
    universe.push(id);
    i
}

/// The nodes of a graph in a row, and its links as pairs of places in that
/// row.
fn index_graph(graph: &Table<NodeId, Vec<NodeId>>) -> (r: (Vec<NodeId>, Vec<(usize, usize)>))
    requires
        graph.wf(),
    ensures
        r.0@.no_duplicates(),
        forall|v: NodeId| r.0@.contains(v) == is_vertex(*graph, v),
        forall|e: int|
            0 <= e < r.1.len() ==> (#[trigger] r.1[e]).0 < r.0.len() && r.1[e].1 < r.0.len(),
        forall|e: int|
            0 <= e < r.1.len() ==> adjacent(*graph, r.0[(#[trigger] r.1[e]).0 as int], r.0[r.1[e].1 as int]),
        forall|a: NodeId, b: NodeId| #[trigger]
            adjacent(*graph, a, b) ==> linked(r.1@, r.0@.index_of(a), r.0@.index_of(b)),
{
    let nkeys = graph.len();
    let mut universe: Vec<NodeId> = Vec::new();
    let mut ki: usize = 0;
    while ki < nkeys
        invariant
            graph.wf(),
            nkeys == graph.keys().len(),
            ki <= nkeys,
            universe@ == graph.keys().take(ki as int),
        decreases nkeys - ki,
    {
        let k = graph.key_at(ki);
        universe.push(k);
        assert(universe@ =~= graph.keys().take(ki as int + 1));
        ki += 1;
    }
    assert(universe@ =~= graph.keys());
    let mut edges: Vec<(usize, usize)> = Vec::new();
    let mut ki: usize = 0;
    while ki < nkeys
        invariant
            graph.wf(),
            nkeys == graph.keys().len(),
            ki <= nkeys,
            universe@.no_duplicates(),
            universe.len() >= nkeys,
            forall|i: int| 0 <= i < nkeys ==> universe@[i] == graph.keys()[i],
            forall|i: int| 0 <= i < universe.len() ==> is_vertex(*graph, #[trigger] universe@[i]),
            forall|e: int|
                0 <= e < edges.len() ==> (#[trigger] edges[e]).0 < nkeys && edges[e].1
                    < universe.len() && graph.values()[edges[e].0 as int]@.contains(
                    universe@[edges[e].1 as int],
                ),
            forall|k: int, t: int|
                0 <= k < ki && 0 <= t < graph.values()[k]@.len() ==> recorded(
                    edges@,
                    universe@,
                    k,
                    #[trigger] graph.values()[k]@[t],
                ),
        decreases nkeys - ki,
    {
        let neighbours = graph.value_at(ki);
        let mut t: usize = 0;
        while t < neighbours.len()
            invariant
                graph.wf(),
                nkeys == graph.keys().len(),
                ki < nkeys,
                *neighbours == graph.values()[ki as int],
                t <= neighbours.len(),
                universe@.no_duplicates(),
                universe.len() >= nkeys,
                forall|i: int| 0 <= i < nkeys ==> universe@[i] == graph.keys()[i],
                forall|i: int|
                    0 <= i < universe.len() ==> is_vertex(*graph, #[trigger] universe@[i]),
                forall|e: int|
                    0 <= e < edges.len() ==> (#[trigger] edges[e]).0 < nkeys && edges[e].1
                        < universe.len() && graph.values()[edges[e].0 as int]@.contains(
                        universe@[edges[e].1 as int],
                    ),
                forall|k: int, t: int|
                    0 <= k < ki && 0 <= t < graph.values()[k]@.len() ==> recorded(
                        edges@,
                        universe@,
                        k,
                        #[trigger] graph.values()[k]@[t],
                    ),
                forall|s: int|
                    0 <= s < t ==> recorded(edges@, universe@, ki as int, #[trigger] neighbours@[s]),
            decreases neighbours.len() - t,
        {
            let nb = neighbours[t];
            let ghost row = universe@;
            let ghost pairs = edges@;
            let j = place_of(&mut universe, nb);
            edges.push((ki, j));
            proof {
                graph.lemma_place(ki as int);
                assert(graph.at(graph.keys()[ki as int])@.contains(nb)) by {
                    assert(neighbours@[t as int] == nb);
                }
                assert forall|i: int| 0 <= i < universe.len() implies is_vertex(
                    *graph,
                    #[trigger] universe@[i],
                ) by {
                    if i < row.len() {
                        assert(universe@[i] == row[i]);
                    } else {
                        assert(universe@[i] == nb);
                    }
                }
                assert forall|e: int| 0 <= e < edges.len() implies (#[trigger] edges[e]).0 < nkeys
                    && edges[e].1 < universe.len() && graph.values()[edges[e].0 as int]@.contains(
                    universe@[edges[e].1 as int],
                ) by {
                    if e < pairs.len() {
                        assert(edges[e] == pairs[e]);
                        assert(universe@[edges[e].1 as int] == row[edges[e].1 as int]);
                    } else {
                        assert(neighbours@[t as int] == nb);
                    }
                }
                assert forall|k: int, t: int|
                    0 <= k < ki && 0 <= t < graph.values()[k]@.len() implies recorded(
                    edges@,
                    universe@,
                    k,
                    #[trigger] graph.values()[k]@[t],
                ) by {
                    lemma_recorded_grows(pairs, row, edges@, universe@, k, graph.values()[k]@[t]);
                }
                assert forall|s: int| 0 <= s < t + 1 implies recorded(
                    edges@,
                    universe@,
                    ki as int,
                    #[trigger] neighbours@[s],
                ) by {
                    if s < t {
                        lemma_recorded_grows(pairs, row, edges@, universe@, ki as int, neighbours@[s]);
                    } else {
                        let e = pairs.len() as int;
                        assert(edges[e] == (ki, j));
                    }
                }
            }
            t += 1;
        }
        ki += 1;
    }
    proof {
        assert forall|v: NodeId| universe@.contains(v) == is_vertex(*graph, v) by {
            if is_vertex(*graph, v) {
                if graph.has(v) {
                    let i = graph.keys().index_of(v);
                    assert(graph.keys()[i] == v);
                    assert(universe@[i] == v);
                } else {
                    let k = choose|k: NodeId| #[trigger] graph.has(k) && graph.at(k)@.contains(v);
                    let ix = graph.keys().index_of(k);
                    assert(graph.keys()[ix] == k);
                    graph.lemma_place(ix);
                    let t = graph.values()[ix]@.index_of(v);
                    assert(graph.values()[ix]@[t] == v);
                    assert(recorded(edges@, universe@, ix, graph.values()[ix]@[t]));
                    let e = choose|e: int|
                        0 <= e < edges.len() && (#[trigger] edges[e]).0 == ix && edges[e].1
                            < universe.len() && universe@[edges[e].1 as int] == v;
                    assert(universe@[edges[e].1 as int] == v);
                }
            }
            if universe@.contains(v) {
                let i = universe@.index_of(v);
                assert(universe@[i] == v);
            }
        }
        assert forall|e: int| 0 <= e < edges.len() implies adjacent(
            *graph,
            universe@[(#[trigger] edges[e]).0 as int],
            universe@[edges[e].1 as int],
        ) by {
            let k = edges[e].0 as int;
            graph.lemma_place(k);
        }
        assert forall|a: NodeId, b: NodeId| #[trigger] adjacent(*graph, a, b) implies linked(
            edges@,
            universe@.index_of(a),
            universe@.index_of(b),
        ) by {
            if graph.has(a) && graph.at(a)@.contains(b) {
                lemma_link_recorded(*graph, universe@, edges@, a, b);
            } else {
                lemma_link_recorded(*graph, universe@, edges@, b, a);
            }
        }
    }
    (universe, edges)
}

/// A neighbour of a node is linked to it in the recorded edges.
proof fn lemma_link_recorded(
    graph: Table<NodeId, Vec<NodeId>>,
    universe: Seq<NodeId>,
    edges: Seq<(usize, usize)>,
    a: NodeId,
    b: NodeId,
)
    requires
        graph.wf(),
        universe.no_duplicates(),
        universe.len() >= graph.keys().len(),
        forall|i: int| 0 <= i < graph.keys().len() ==> universe[i] == graph.keys()[i],
        forall|k: int, t: int|
            0 <= k < graph.keys().len() && 0 <= t < graph.values()[k]@.len() ==> recorded(
                edges,
                universe,
                k,
                #[trigger] graph.values()[k]@[t],
            ),
        graph.has(a),
        graph.at(a)@.contains(b),
    ensures
        linked(edges, universe.index_of(a), universe.index_of(b)),
        linked(edges, universe.index_of(b), universe.index_of(a)),
{
    let k = graph.keys().index_of(a);
    assert(graph.keys()[k] == a);
    graph.lemma_place(k);
    let t = graph.values()[k]@.index_of(b);
    assert(graph.values()[k]@[t] == b);
    assert(recorded(edges, universe, k, graph.values()[k]@[t]));
    let e = choose|e: int|
        0 <= e < edges.len() && (#[trigger] edges[e]).0 == k && edges[e].1 < universe.len()
            && universe[edges[e].1 as int] == b;
    assert(universe[k] == a);
    assert(universe.contains(a));
    assert(universe.contains(b));
    let ia = universe.index_of(a);
    let ib = universe.index_of(b);
    assert(universe[ia] == a);
    assert(universe[ib] == b);
    assert(ia == k);
    assert(ib == edges[e].1);
}

/// Whether `id` stands in the row at a place that carries the label `root`.
pub open spec fn labelled(universe: Seq<NodeId>, labels: Seq<usize>, id: NodeId, root: int) -> bool {
    exists|a: int| 0 <= a < universe.len() && #[trigger] universe[a] == id && labels[a] == root
}

/// The nodes that carry the label `root`, in the order of the row.
fn members_of(universe: &Vec<NodeId>, labels: &Vec<usize>, root: usize) -> (members: Vec<NodeId>)
    requires
        labels.len() == universe.len(),
        universe@.no_duplicates(),
    ensures
        members@.no_duplicates(),
        forall|j: int|
            0 <= j < members.len() ==> labelled(
                universe@,
                labels@,
                #[trigger] members@[j],
                root as int,
            ),
        forall|a: int|
            0 <= a < universe.len() && labels@[a] == root ==> members@.contains(
                #[trigger] universe@[a],
            ),
{
    let mut members: Vec<NodeId> = Vec::new();
    let mut a: usize = 0;
    while a < universe.len()
        invariant
            a <= universe.len(),
            labels.len() == universe.len(),
            universe@.no_duplicates(),
            members@.no_duplicates(),
            forall|j: int|
                0 <= j < members.len() ==> labelled(
                    universe@.take(a as int),
                    labels@,
                    #[trigger] members@[j],
                    root as int,
                ),
            forall|b: int|
                0 <= b < a && labels@[b] == root ==> members@.contains(#[trigger] universe@[b]),
        decreases universe.len() - a,
    {
        proof {
            assert forall|j: int| 0 <= j < members.len() implies labelled(
                universe@.take(a as int + 1),
                labels@,
                #[trigger] members@[j],
                root as int,
            ) by {
                assert(labelled(universe@.take(a as int), labels@, members@[j], root as int));
                let b = choose|b: int|
                    0 <= b < a && #[trigger] universe@.take(a as int)[b] == members@[j]
                        && labels@[b] == root;
                assert(universe@.take(a as int + 1)[b] == members@[j]);
            }
        }
        if labels[a] == root {
            let ghost held = members@;
            members.push(universe[a]);
            proof {
                assert forall|j: int| 0 <= j < members.len() implies labelled(
                    universe@.take(a as int + 1),
                    labels@,
                    #[trigger] members@[j],
                    root as int,
                ) by {
                    if j < held.len() {
                        assert(labelled(universe@.take(a as int), labels@, held[j], root as int));
                        let b = choose|b: int|
                            0 <= b < a && #[trigger] universe@.take(a as int)[b] == held[j]
                                && labels@[b] == root;
                        assert(universe@.take(a as int + 1)[b] == members@[j]);
                    } else {
                        assert(universe@.take(a as int + 1)[a as int] == members@[j]);
                    }
                }
                assert forall|i: int, j: int| 0 <= i < j < members.len() implies members@[i]
                    != members@[j] by {
                    if j == held.len() {
                        assert(labelled(universe@.take(a as int), labels@, held[i], root as int));
                        let b = choose|b: int|
                            0 <= b < a && #[trigger] universe@.take(a as int)[b] == held[i]
                                && labels@[b] == root;
                        assert(universe@[b] != universe@[a as int]);
                    } else {
                        assert(held[i] != held[j]);
                    }
                }
                assert forall|b: int| 0 <= b < a + 1 && labels@[b] == root implies members@.contains(
                    #[trigger] universe@[b],
                ) by {
                    if b < a {
                        let j = held.index_of(universe@[b]);
                        assert(held[j] == universe@[b]);
                        assert(members@[j] == universe@[b]);
                    } else {
                        assert(members@[held.len() as int] == universe@[b]);
                    }
                }
            }
        }
        a += 1;
    }
    assert(universe@.take(a as int) =~= universe@);
    members
}

/// Whether the components are the classes of the nodes of the graph under
/// connection by links: every node of the graph is in one component and at
/// one place of it, no component is empty, and two nodes are in the same
/// component exactly when a walk along links leads from the one to the other.
pub open spec fn are_components(
    graph: Table<NodeId, Vec<NodeId>>,
    components: Seq<Vec<NodeId>>,
) -> bool {
    &&& forall|i: int| 0 <= i < components.len() ==> (#[trigger] components[i]).len() > 0
    &&& forall|i: int, j: int|
        0 <= i < components.len() && 0 <= j < components[i].len() ==> is_vertex(
            graph,
            #[trigger] components[i]@[j],
        )
    &&& forall|v: NodeId|
        is_vertex(graph, v) ==> exists|i: int|
            0 <= i < components.len() && (#[trigger] components[i])@.contains(v)
    &&& forall|i1: int, j1: int, i2: int, j2: int|
        0 <= i1 < components.len() && 0 <= j1 < components[i1].len() && 0 <= i2 < components.len()
            && 0 <= j2 < components[i2].len() && #[trigger] components[i1]@[j1]
            == #[trigger] components[i2]@[j2] ==> i1 == i2 && j1 == j2
    &&& forall|i1: int, j1: int, i2: int, j2: int|
        0 <= i1 < components.len() && 0 <= j1 < components[i1].len() && 0 <= i2 < components.len()
            && 0 <= j2 < components[i2].len() ==> connected(
            graph,
            #[trigger] components[i1]@[j1],
            #[trigger] components[i2]@[j2],
        ) == (i1 == i2)
}

/// The connected components of a graph that is given by the neighbours of
/// each node. A link counts in both directions. The components come in the
/// order in which their first nodes come in the graph, and the nodes of a
/// component in the order in which they come in the graph.
pub fn find_connected_components(graph: &Table<NodeId, Vec<NodeId>>) -> (components: Vec<
    Vec<NodeId>,
>)
    requires
        graph.wf(),
    ensures
        are_components(*graph, components@),
{
    let (universe, edges) = index_graph(graph);
    let n = universe.len();
    let labels = label_components(n, &edges);
    let mut components: Vec<Vec<NodeId>> = Vec::new();
    let ghost mut roots: Seq<int> = Seq::empty();
    let mut r: usize = 0;
    while r < n
        invariant
            r <= n,
            n == universe.len(),
            labels.len() == n,
            universe@.no_duplicates(),
            forall|a: int| 0 <= a < n ==> (#[trigger] labels[a]) < n,
            roots.len() == components.len(),
            forall|i: int|
                0 <= i < roots.len() ==> 0 <= (#[trigger] roots[i]) < r && labels[roots[i]]
                    == roots[i],
            forall|i: int, j: int| 0 <= i < j < roots.len() ==> roots[i] != roots[j],
            forall|q: int| 0 <= q < r && #[trigger] labels[q] == q ==> roots.contains(q),
            forall|i: int| 0 <= i < components.len() ==> (#[trigger] components[i])@.no_duplicates(),
            forall|i: int, j: int|
                0 <= i < components.len() && 0 <= j < components[i].len() ==> labelled(
                    universe@,
                    labels@,
                    #[trigger] components[i]@[j],
                    roots[i],
                ),
            forall|i: int, a: int|
                0 <= i < components.len() && 0 <= a < n && labels@[a] == roots[i] ==> (
                #[trigger] components[i])@.contains(#[trigger] universe@[a]),
        decreases n - r,
    {
        if labels[r] == r {
            let members = members_of(&universe, &labels, r);
            let ghost held = components@;
            let ghost held_roots = roots;
            components.push(members);
            proof {
                roots = roots.push(r as int);
                assert forall|i: int, j: int|
                    0 <= i < components.len() && 0 <= j < components[i].len() implies labelled(
                    universe@,
                    labels@,
                    #[trigger] components[i]@[j],
                    roots[i],
                ) by {
                    if i < held.len() {
                        assert(components[i] == held[i]);
                        assert(labelled(universe@, labels@, held[i]@[j], held_roots[i]));
                    } else {
                        assert(components[i] == members);
                    }
                }
                assert forall|i: int, a: int|
                    0 <= i < components.len() && 0 <= a < n && labels@[a] == roots[i] implies (
                #[trigger] components[i])@.contains(#[trigger] universe@[a]) by {
                    if i < held.len() {
                        assert(components[i] == held[i]);
                        assert(roots[i] == held_roots[i]);
                    } else {
                        assert(components[i] == members);
                    }
                }
                assert forall|q: int| 0 <= q < r + 1 && labels[q] == q implies roots.contains(q) by {
                    if q < r {
                        assert(held_roots.contains(q));
                        let i = held_roots.index_of(q);
                        assert(held_roots[i] == q);
                        assert(roots[i] == q);
                    } else {
                        assert(roots[held_roots.len() as int] == q);
                    }
                }
                assert forall|i: int| 0 <= i < components.len() implies (
                #[trigger] components[i])@.no_duplicates() by {
                    if i < held.len() {
                        assert(components[i] == held[i]);
                    }
                }
            }
        }
        r += 1;
    }
    proof {
        let comps = components@;
        let idx = |i: int| universe@[i];
        let place = |v: NodeId| universe@.index_of(v);
        assert forall|x: int, y: int| #[trigger] by_edges(edges@)(x, y) implies by_links(*graph)(
            idx(x),
            idx(y),
        ) by {
            assert(linked(edges@, x, y));
            let e = choose|e: int|
                0 <= e < edges.len() && ((#[trigger] edges[e]).0 == x && edges[e].1 == y
                    || edges[e].0 == y && edges[e].1 == x);
            assert(adjacent(*graph, universe@[edges[e].0 as int], universe@[edges[e].1 as int]));
        }
        assert forall|a: NodeId, b: NodeId| #[trigger] by_links(*graph)(a, b) implies by_edges(
            edges@,
        )(place(a), place(b)) by {
            assert(adjacent(*graph, a, b));
        }
        // Each member stands at one place of the row, and carries the label
        // of its component.
        assert forall|i: int| 0 <= i < comps.len() implies (#[trigger] comps[i]).len() > 0 by {
            let q = roots[i];
            assert(comps[i]@.contains(universe@[q]));
        }
        assert forall|i: int, j: int|
            0 <= i < comps.len() && 0 <= j < comps[i].len() implies is_vertex(
            *graph,
            #[trigger] comps[i]@[j],
        ) by {
            assert(labelled(universe@, labels@, comps[i]@[j], roots[i]));
            let a = choose|a: int|
                0 <= a < n && #[trigger] universe@[a] == comps[i]@[j] && labels@[a] == roots[i];
            assert(universe@.contains(universe@[a]));
        }
        assert forall|v: NodeId| is_vertex(*graph, v) implies exists|i: int|
            0 <= i < comps.len() && (#[trigger] comps[i])@.contains(v) by {
            assert(universe@.contains(v));
            let a = universe@.index_of(v);
            assert(universe@[a] == v);
            let q = labels[a] as int;
            assert(labels[q] == q);
            assert(roots.contains(q));
            let i = roots.index_of(q);
            assert(roots[i] == q);
            assert(comps[i]@.contains(universe@[a]));
        }
        assert forall|i1: int, j1: int, i2: int, j2: int|
            0 <= i1 < comps.len() && 0 <= j1 < comps[i1].len() && 0 <= i2 < comps.len() && 0 <= j2
                < comps[i2].len() && #[trigger] comps[i1]@[j1]
                == #[trigger] comps[i2]@[j2] implies i1 == i2 && j1 == j2 by {
            assert(labelled(universe@, labels@, comps[i1]@[j1], roots[i1]));
            assert(labelled(universe@, labels@, comps[i2]@[j2], roots[i2]));
            let a1 = choose|a: int|
                0 <= a < n && #[trigger] universe@[a] == comps[i1]@[j1] && labels@[a] == roots[i1];
            let a2 = choose|a: int|
                0 <= a < n && #[trigger] universe@[a] == comps[i2]@[j2] && labels@[a] == roots[i2];
            assert(a1 == a2);
            assert(roots[i1] == roots[i2]);
        }
        assert forall|i1: int, j1: int, i2: int, j2: int|
            0 <= i1 < comps.len() && 0 <= j1 < comps[i1].len() && 0 <= i2 < comps.len() && 0 <= j2
                < comps[i2].len() implies connected(
            *graph,
            #[trigger] comps[i1]@[j1],
            #[trigger] comps[i2]@[j2],
        ) == (i1 == i2) by {
            let x = comps[i1]@[j1];
            let y = comps[i2]@[j2];
            assert(labelled(universe@, labels@, x, roots[i1]));
            assert(labelled(universe@, labels@, y, roots[i2]));
            let a1 = choose|a: int|
                0 <= a < n && #[trigger] universe@[a] == x && labels@[a] == roots[i1];
            let a2 = choose|a: int|
                0 <= a < n && #[trigger] universe@[a] == y && labels@[a] == roots[i2];
            assert((labels[a1] == labels[a2]) == joined(edges@, a1, a2));
            if joined(edges@, a1, a2) {
                lemma_reaches_image(by_edges(edges@), by_links(*graph), idx, a1, a2);
            }
            if connected(*graph, x, y) {
                lemma_reaches_image(by_links(*graph), by_edges(edges@), place, x, y);
                assert(universe@.contains(x));
                assert(universe@.contains(y));
                assert(place(x) == a1);
                assert(place(y) == a2);
            }
            if i1 == i2 {
                assert(labels[a1] == labels[a2]);
            }
            if labels[a1] == labels[a2] {
                assert(roots[i1] == roots[i2]);
            }
        }
    }
    components
}

} // verus!
