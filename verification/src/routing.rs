//! Routing: which node a task goes to.
//!
//! A candidate must have the capability that the task asks for, must be able
//! to take work, and must meet the constraints of the task. Among those that
//! do, the one with the highest routing score is chosen. The score is a
//! product of real factors, which the caller works out from the factors that
//! are gathered here; routing changes nothing.

use vstd::prelude::*;
use crate::node::Node;
use crate::scalar::W_INIT_BITS;
use crate::table::Table;
use crate::types::{
    contains_node, copy_nodes, CapabilityId, NodeId, Real, Score, TaskId, Timestamp, Weight,
};

verus! {

/// How urgent a task is.
#[derive(Clone, Copy, Debug, PartialEq, Eq, Structural, Hash)]
pub enum Priority {
    /// Can wait.
    Low,
    /// The usual.
    Normal,
    /// Before the usual.
    High,
    /// Before everything else.
    Critical,
}

impl Default for Priority {
    /// Normal.
    fn default() -> (p: Self)
        ensures
            p == Priority::Normal,
    {
        Priority::Normal
    }
}

/// What a task asks of the node that it is routed to.
#[derive(Debug)]
pub struct TaskConstraints {
    /// The time that the task may take, in milliseconds. Routing does not
    /// enforce it.
    pub timeout_ms: Option<u64>,
    /// How urgent the task is.
    pub priority: Priority,
    /// The least trust that the node must have.
    pub min_trust: Option<Score>,
    /// The least quality that the node must have with the capability.
    pub min_quality: Option<Score>,
    /// Nodes that are preferred.
    pub preferred_nodes: Vec<NodeId>,
    /// Nodes that are ruled out.
    pub excluded_nodes: Vec<NodeId>,
}

impl TaskConstraints {
    /// Whether a node meets the constraints for a capability: it is not
    /// ruled out, its trust is not below the least trust, and its quality
    /// with the capability is not below the least quality.
    pub open spec fn accepts(&self, node: Node, capability: CapabilityId) -> bool {
        &&& !self.excluded_nodes@.contains(node.id)
        &&& self.min_trust matches Some(least) ==> node.trust.rank() >= least.rank()
        &&& self.min_quality matches Some(least) ==> node.own_quality_rank(capability)
            >= least.rank()
    }

    /// Constraints that ask for nothing.
    pub fn new() -> (c: Self)
        ensures
            c.timeout_ms.is_none(),
            c.priority == Priority::Normal,
            c.min_trust.is_none(),
            c.min_quality.is_none(),
            c.preferred_nodes@.len() == 0,
            c.excluded_nodes@.len() == 0,
    {
        Self {
            timeout_ms: None,
            priority: Priority::Normal,
            min_trust: None,
            min_quality: None,
            preferred_nodes: Vec::new(),
            excluded_nodes: Vec::new(),
        }
    }

    /// The same constraints with the given least trust.
    pub fn with_min_trust(self, trust: Score) -> (c: Self)
        ensures
            c == (TaskConstraints { min_trust: Some(trust), ..self }),
    {
        let mut c = self;
        c.min_trust = Some(trust);
        c
    }

    /// The same constraints with the given least quality.
    pub fn with_min_quality(self, quality: Score) -> (c: Self)
        ensures
            c == (TaskConstraints { min_quality: Some(quality), ..self }),
    {
        let mut c = self;
        c.min_quality = Some(quality);
        c
    }

    /// The same constraints with one preferred node more.
    pub fn prefer(self, node_id: NodeId) -> (c: Self)
        ensures
            c.preferred_nodes@ == self.preferred_nodes@.push(node_id),
            c == (TaskConstraints { preferred_nodes: c.preferred_nodes, ..self }),
    {
        let mut c = self;
        c.preferred_nodes.push(node_id);
        c
    }

    /// The same constraints with one node more ruled out.
    pub fn exclude(self, node_id: NodeId) -> (c: Self)
        ensures
            c.excluded_nodes@ == self.excluded_nodes@.push(node_id),
            c == (TaskConstraints { excluded_nodes: c.excluded_nodes, ..self }),
    {
        let mut c = self;
        c.excluded_nodes.push(node_id);
        c
    }

    /// The same constraints with the given priority.
    pub fn with_priority(self, priority: Priority) -> (c: Self)
        ensures
            c == (TaskConstraints { priority, ..self }),
    {
        let mut c = self;
        c.priority = priority;
        c
    }

    /// Whether a node meets the constraints for a capability.
    pub fn is_acceptable(&self, node: &Node, capability: CapabilityId) -> (r: bool)
        requires
            node.wf(),
        ensures
            r == self.accepts(*node, capability),
    {
        if contains_node(&self.excluded_nodes, &node.id) {
            return false;
        }
        if let Some(least) = self.min_trust {
            if node.trust.lt(&least) {
                return false;
            }
        }
        if let Some(least) = self.min_quality {
            if node.capability_quality(capability).lt(&least) {
                return false;
            }
        }
        true
    }

    /// A copy of the constraints.
    pub fn duplicate(&self) -> (c: Self)
        ensures
            c.timeout_ms == self.timeout_ms,
            c.priority == self.priority,
            c.min_trust == self.min_trust,
            c.min_quality == self.min_quality,
            c.preferred_nodes@ == self.preferred_nodes@,
            c.excluded_nodes@ == self.excluded_nodes@,
    {
        Self {
            timeout_ms: self.timeout_ms,
            priority: self.priority,
            min_trust: self.min_trust,
            min_quality: self.min_quality,
            preferred_nodes: copy_nodes(&self.preferred_nodes),
            excluded_nodes: copy_nodes(&self.excluded_nodes),
        }
    }
}

impl Default for TaskConstraints {
    /// Constraints that ask for nothing.
    fn default() -> (c: Self)
        ensures
            c.timeout_ms.is_none(),
            c.priority == Priority::Normal,
            c.min_trust.is_none(),
            c.min_quality.is_none(),
            c.preferred_nodes@.len() == 0,
            c.excluded_nodes@.len() == 0,
    {
        Self::new()
    }
}

/// A task to be routed.
#[derive(Debug)]
pub struct Task {
    /// The identifier.
    pub id: TaskId,
    /// The capabilities that the task needs. Routing goes by the first.
    pub required_caps: Vec<CapabilityId>,
    /// What the task asks of the node that it is routed to.
    pub constraints: TaskConstraints,
    /// The node that the task comes from.
    pub origin: NodeId,
    /// When the task was made.
    pub created: Timestamp,
}

impl Task {
    /// A task that needs one capability and asks for nothing else.
    pub fn new(id: TaskId, origin: NodeId, required_cap: CapabilityId, now: Timestamp) -> (t: Self)
        ensures
            t.id == id,
            t.required_caps@ == seq![required_cap],
            t.constraints.timeout_ms.is_none(),
            t.constraints.priority == Priority::Normal,
            t.constraints.min_trust.is_none(),
            t.constraints.min_quality.is_none(),
            t.constraints.preferred_nodes@.len() == 0,
            t.constraints.excluded_nodes@.len() == 0,
            t.origin == origin,
            t.created == now,
    {
        let mut required_caps: Vec<CapabilityId> = Vec::new();
        required_caps.push(required_cap);
        Self { id, required_caps, constraints: TaskConstraints::new(), origin, created: now }
    }

    /// The same task, needing one capability more.
    pub fn require_cap(self, cap: CapabilityId) -> (t: Self)
        ensures
            t.required_caps@ == self.required_caps@.push(cap),
            t == (Task { required_caps: t.required_caps, ..self }),
    {
        let mut t = self;
        t.required_caps.push(cap);
        t
    }

    /// The same task with the given constraints.
    pub fn with_constraints(self, constraints: TaskConstraints) -> (t: Self)
        ensures
            t == (Task { constraints, ..self }),
    {
        let mut t = self;
        t.constraints = constraints;
        t
    }

    /// A copy of the task.
    pub fn duplicate(&self) -> (t: Self)
        ensures
            t.id == self.id,
            t.required_caps@ == self.required_caps@,
            t.constraints.timeout_ms == self.constraints.timeout_ms,
            t.constraints.priority == self.constraints.priority,
            t.constraints.min_trust == self.constraints.min_trust,
            t.constraints.min_quality == self.constraints.min_quality,
            t.constraints.preferred_nodes@ == self.constraints.preferred_nodes@,
            t.constraints.excluded_nodes@ == self.constraints.excluded_nodes@,
            t.origin == self.origin,
            t.created == self.created,
    {
        let mut required_caps: Vec<CapabilityId> = Vec::new();
        let mut i: usize = 0;
        while i < self.required_caps.len()
            invariant
                i <= self.required_caps.len(),
                required_caps@ == self.required_caps@.take(i as int),
            decreases self.required_caps.len() - i,
        {
            required_caps.push(self.required_caps[i]);
            assert(required_caps@ =~= self.required_caps@.take(i as int + 1));
            i += 1;
        }
        assert(self.required_caps@.take(i as int) =~= self.required_caps@);
        Self {
            id: self.id,
            required_caps,
            constraints: self.constraints.duplicate(),
            origin: self.origin,
            created: self.created,
        }
    }
}

/// The factors of a routing score.
#[derive(Clone, Copy, Debug)]
pub struct RoutingFactors {
    /// The trust in the candidate.
    pub trust: Score,
    /// The quality of the candidate with the capability.
    pub capability_quality: Score,
    /// The load of the candidate.
    pub load: Score,
    /// The weight of the connection to the candidate.
    pub connection: Weight,
    /// How sure the routing node is that the candidate is a threat.
    pub threat: Score,
    /// Whether the candidate is preferred.
    pub preferred: bool,
}

/// A candidate with its routing score.
#[derive(Clone, Copy, Debug)]
pub struct CandidateScore {
    /// The candidate.
    pub node_id: NodeId,
    /// The routing score.
    pub score: Real,
    /// The factors that the score was worked out from.
    pub factors: RoutingFactors,
}

/// Whether `factors` are the factors of the routing score of a candidate:
/// its trust, its quality with the capability, its load, the weight of the
/// connection to it, or the initial weight where there is none, the belief
/// that it is a threat, and whether the constraints prefer it.
pub open spec fn factors_of(
    from_node: Node,
    candidate: Node,
    capability: CapabilityId,
    constraints: TaskConstraints,
    factors: RoutingFactors,
) -> bool {
    &&& factors.trust == candidate.trust
    &&& factors.capability_quality.rank() == candidate.own_quality_rank(capability)
    &&& factors.load == candidate.load
    &&& factors.connection.rank() == if from_node.connections.has(candidate.id) {
        from_node.connections.at(candidate.id).w.rank()
    } else {
        W_INIT_BITS as int
    }
    &&& factors.threat.rank() == from_node.threat_rank(candidate.id)
    &&& factors.preferred == constraints.preferred_nodes@.contains(candidate.id)
}

/// Gathers the factors of the routing score of a candidate.
pub fn routing_factors(
    from_node: &Node,
    candidate: &Node,
    capability: CapabilityId,
    constraints: &TaskConstraints,
) -> (factors: RoutingFactors)
    requires
        from_node.wf(),
        candidate.wf(),
    ensures
        factors_of(*from_node, *candidate, capability, *constraints, factors),
{
    let connection = match from_node.get_connection(&candidate.id) {
        Some(c) => c.w,
        None => Weight::init(),
    };
    RoutingFactors {
        trust: candidate.trust,
        capability_quality: candidate.capability_quality(capability),
        load: candidate.load,
        connection,
        threat: from_node.get_threat_level(&candidate.id),
        preferred: contains_node(&constraints.preferred_nodes, &candidate.id),
    }
}

/// The routing score of a candidate, with the factors that it was worked
/// out from: the score is what `score` gives for the factors.
pub fn compute_routing_score<F: Fn(RoutingFactors) -> Real>(
    from_node: &Node,
    candidate: &Node,
    capability: CapabilityId,
    constraints: &TaskConstraints,
    score: &F,
) -> (scored: CandidateScore)
    requires
        from_node.wf(),
        candidate.wf(),
        forall|factors: RoutingFactors| call_requires(*score, (factors,)),
    ensures
        scored.node_id == candidate.id,
        factors_of(*from_node, *candidate, capability, *constraints, scored.factors),
        call_ensures(*score, (scored.factors,), scored.score),
{
    let factors = routing_factors(from_node, candidate, capability, constraints);
    CandidateScore { node_id: candidate.id, score: score(factors), factors }
}

/// How routing ended.
#[derive(Clone, Copy, Debug)]
pub enum RoutingResult {
    /// With a candidate.
    Success(CandidateScore),
    /// Without one: no node can take the task.
    NoCandidates,
    /// Without one: the constraints ruled every candidate out.
    ConstraintsNotMet,
}

impl RoutingResult {
    /// The candidate that routing ended with, if it ended with one.
    pub open spec fn selected(&self) -> Option<NodeId> {
        match *self {
            RoutingResult::Success(scored) => Some(scored.node_id),
            _ => None,
        }
    }

    /// Whether routing ended with a candidate.
    pub fn is_success(&self) -> (r: bool)
        ensures
            r == (*self is Success),
    {
        matches!(self, RoutingResult::Success(_))
    }

    /// The candidate that routing ended with, if it ended with one.
    pub fn selected_node(&self) -> (r: Option<NodeId>)
        ensures
            r == self.selected(),
    {
        match self {
            RoutingResult::Success(scored) => Some(scored.node_id),
            _ => None,
        }
    }
}

// ---------------------------------------------------------------------------
// The shortlist and its ranking
// ---------------------------------------------------------------------------

/// Whether a candidate may be routed to: it offers the capability, it takes
/// work for it, it meets the constraints, and it is not the routing node
/// itself.
pub open spec fn eligible(
    from_node: Node,
    candidate: Node,
    capability: CapabilityId,
    constraints: TaskConstraints,
) -> bool {
    &&& candidate.offers(capability)
    &&& candidate.accepts_capability_work(capability)
    &&& constraints.accepts(candidate, capability)
    &&& candidate.id != from_node.id
}

/// Whether `out` is the shortlist of the first `upto` candidates: those of
/// them that may be routed to, in their order, each with its factors and
/// with the score that `score` gives for them.
pub open spec fn shortlist<F: Fn(RoutingFactors) -> Real>(
    from_node: Node,
    capability: CapabilityId,
    constraints: TaskConstraints,
    candidates: Seq<Node>,
    score: F,
    upto: int,
    out: Seq<CandidateScore>,
) -> bool
    decreases upto,
{
    if upto <= 0 {
        out.len() == 0
    } else if eligible(from_node, candidates[upto - 1], capability, constraints) {
        &&& out.len() > 0
        &&& out.last().node_id == candidates[upto - 1].id
        &&& factors_of(from_node, candidates[upto - 1], capability, constraints, out.last().factors)
        &&& call_ensures(score, (out.last().factors,), out.last().score)
        &&& shortlist(
            from_node,
            capability,
            constraints,
            candidates,
            score,
            upto - 1,
            out.drop_last(),
        )
    } else {
        shortlist(from_node, capability, constraints, candidates, score, upto - 1, out)
    }
}

/// The place at which a candidate of the given score goes into a ranking:
/// behind every candidate whose score is not smaller.
pub open spec fn place_for(ranking: Seq<CandidateScore>, score: int) -> int
    decreases ranking.len(),
{
    if ranking.len() == 0 {
        0
    } else if ranking.last().score.rank() >= score {
        ranking.len() as int
    } else {
        place_for(ranking.drop_last(), score)
    }
}

/// The ranking of a shortlist: by falling score, and candidates of equal
/// score in the order of the shortlist.
pub open spec fn ranked(list: Seq<CandidateScore>) -> Seq<CandidateScore>
    decreases list.len(),
{
    if list.len() == 0 {
        list
    } else {
        let before = ranked(list.drop_last());
        before.insert(place_for(before, list.last().score.rank()), list.last())
    }
}

/// Whether the scores fall, or stay, from each place to the next.
pub open spec fn falling(ranking: Seq<CandidateScore>) -> bool {
    forall|i: int, j: int|
        0 <= i < j < ranking.len() ==> (#[trigger] ranking[i]).score.rank() >= (
        #[trigger] ranking[j]).score.rank()
}

/// The place for a score lies in the ranking or at its end; in a falling
/// ranking every candidate before the place has a score that is not smaller,
/// and every candidate from the place on has a smaller score.
pub proof fn lemma_place_for(ranking: Seq<CandidateScore>, score: int)
    ensures
        0 <= place_for(ranking, score) <= ranking.len(),
        falling(ranking) ==> forall|i: int|
            0 <= i < place_for(ranking, score) ==> (#[trigger] ranking[i]).score.rank() >= score,
        forall|i: int|
            place_for(ranking, score) <= i < ranking.len() ==> (#[trigger] ranking[i]).score.rank()
                < score,
    decreases ranking.len(),
{
    if ranking.len() > 0 {
        lemma_place_for(ranking.drop_last(), score);
        if ranking.last().score.rank() >= score {
            if falling(ranking) {
                assert forall|i: int| 0 <= i < ranking.len() implies (
                #[trigger] ranking[i]).score.rank() >= score by {
                    if i < ranking.len() - 1 {
                        assert(ranking[i].score.rank() >= ranking[ranking.len() - 1].score.rank());
                    }
                }
            }
        } else {
            assert forall|i: int| place_for(ranking, score) <= i < ranking.len() implies (
            #[trigger] ranking[i]).score.rank() < score by {
                if i < ranking.len() - 1 {
                    assert(ranking.drop_last()[i] == ranking[i]);
                }
            }
            if falling(ranking) {
                assert(falling(ranking.drop_last())) by {
                    assert forall|i: int, j: int| 0 <= i < j < ranking.drop_last().len() implies (
                    #[trigger] ranking.drop_last()[i]).score.rank() >= (
                    #[trigger] ranking.drop_last()[j]).score.rank() by {
                        assert(ranking.drop_last()[i] == ranking[i]);
                        assert(ranking.drop_last()[j] == ranking[j]);
                    }
                }
                assert forall|i: int| 0 <= i < place_for(ranking, score) implies (
                #[trigger] ranking[i]).score.rank() >= score by {
                    assert(ranking.drop_last()[i] == ranking[i]);
                }
            }
        }
    }
}

/// A ranking holds the candidates of its shortlist, each as often as the
/// shortlist does, and its scores fall.
pub proof fn lemma_ranked(list: Seq<CandidateScore>)
    ensures
        ranked(list).len() == list.len(),
        ranked(list).to_multiset() == list.to_multiset(),
        falling(ranked(list)),
    decreases list.len(),
{
    broadcast use vstd::seq_lib::group_to_multiset_ensures;

    if list.len() > 0 {
        let before = ranked(list.drop_last());
        let x = list.last();
        lemma_ranked(list.drop_last());
        lemma_place_for(before, x.score.rank());
        let at = place_for(before, x.score.rank());
        let after = before.insert(at, x);
        assert(list =~= list.drop_last().push(x));
        assert(after.to_multiset() == list.to_multiset());
        assert forall|i: int, j: int| 0 <= i < j < after.len() implies (
        #[trigger] after[i]).score.rank() >= (#[trigger] after[j]).score.rank() by {
            if j < at {
                assert(after[i] == before[i] && after[j] == before[j]);
            } else if j == at {
                assert(after[i] == before[i]);
            } else if i < at {
                assert(after[i] == before[i] && after[j] == before[j - 1]);
            } else if i == at {
                assert(after[j] == before[j - 1]);
            } else {
                assert(after[i] == before[i - 1] && after[j] == before[j - 1]);
            }
        }
    }
}

/// Whether `ranking` holds the candidates of `list` such that those of one
/// score keep the order that they have in `list`: `places` gives, for each
/// place of the ranking, the place in the list that its candidate comes
/// from, and of two candidates of one score the one that stands earlier in
/// the ranking comes from the earlier place.
pub open spec fn keeps_order(
    list: Seq<CandidateScore>,
    ranking: Seq<CandidateScore>,
    places: Seq<int>,
) -> bool {
    &&& places.len() == ranking.len()
    &&& forall|i: int|
        0 <= i < ranking.len() ==> 0 <= (#[trigger] places[i]) < list.len() && ranking[i]
            == list[places[i]]
    &&& forall|i: int, j: int|
        0 <= i < j < ranking.len() ==> (#[trigger] places[i]) != (#[trigger] places[j])
    &&& forall|i: int, j: int|
        0 <= i < j < ranking.len() && ranking[i].score.rank() == ranking[j].score.rank()
            ==> (#[trigger] places[i]) < (#[trigger] places[j])
}

/// In a ranking, candidates of one score stand in the order of the
/// shortlist.
pub proof fn lemma_ranked_stable(list: Seq<CandidateScore>) -> (places: Seq<int>)
    ensures
        keeps_order(list, ranked(list), places),
    decreases list.len(),
{
    if list.len() == 0 {
        Seq::empty()
    } else {
        let shorter = list.drop_last();
        let before = ranked(shorter);
        let held = lemma_ranked_stable(shorter);
        let x = list.last();
        lemma_ranked(shorter);
        lemma_place_for(before, x.score.rank());
        let at = place_for(before, x.score.rank());
        let after = before.insert(at, x);
        let places = held.insert(at, list.len() - 1);
        assert forall|i: int| 0 <= i < after.len() implies 0 <= (#[trigger] places[i]) < list.len()
            && after[i] == list[places[i]] by {
            if i < at {
                assert(after[i] == before[i] && places[i] == held[i]);
                assert(shorter[held[i]] == list[held[i]]);
            } else if i > at {
                assert(after[i] == before[i - 1] && places[i] == held[i - 1]);
                assert(shorter[held[i - 1]] == list[held[i - 1]]);
            }
        }
        assert forall|i: int, j: int| 0 <= i < j < after.len() implies (#[trigger] places[i]) != (
        #[trigger] places[j]) by {
            let a = if i < at {
                held[i]
            } else if i == at {
                list.len() - 1
            } else {
                held[i - 1]
            };
            let b = if j < at {
                held[j]
            } else if j == at {
                list.len() - 1
            } else {
                held[j - 1]
            };
            assert(places[i] == a && places[j] == b);
            if i != at && j != at {
                let i0 = if i < at {
                    i
                } else {
                    i - 1
                };
                let j0 = if j < at {
                    j
                } else {
                    j - 1
                };
                assert(held[i0] != held[j0]);
            }
        }
        assert forall|i: int, j: int|
            0 <= i < j < after.len() && after[i].score.rank() == after[j].score.rank() implies (
        #[trigger] places[i]) < (#[trigger] places[j]) by {
            if j == at {
                assert(after[i] == before[i]);
                assert(places[i] == held[i]);
            } else if i == at {
                // Behind the place of the new candidate every score is
                // smaller than its own.
                assert(after[j] == before[j - 1]);
                assert(before[j - 1].score.rank() < x.score.rank());
            } else {
                let i0 = if i < at {
                    i
                } else {
                    i - 1
                };
                let j0 = if j < at {
                    j
                } else {
                    j - 1
                };
                assert(after[i] == before[i0] && after[j] == before[j0]);
                assert(places[i] == held[i0] && places[j] == held[j0]);
                assert(held[i0] < held[j0]);
            }
        }
        places
    }
}

/// No candidate of the shortlist has a higher score than the first of the
/// ranking.
pub proof fn lemma_ranked_first(list: Seq<CandidateScore>)
    requires
        list.len() > 0,
    ensures
        forall|i: int| 0 <= i < list.len() ==> ranked(list)[0].score.rank() >= (
        #[trigger] list[i]).score.rank(),
{
    broadcast use vstd::seq_lib::group_to_multiset_ensures;

    lemma_ranked(list);
    let r = ranked(list);
    assert forall|i: int| 0 <= i < list.len() implies r[0].score.rank() >= (
    #[trigger] list[i]).score.rank() by {
        assert(list.to_multiset().count(list[i]) > 0);
        assert(r.to_multiset().count(list[i]) > 0);
        assert(r.contains(list[i]));
        let j = r.index_of(list[i]);
        assert(r[j] == list[i]);
        if j > 0 {
            assert(r[0].score.rank() >= r[j].score.rank());
        }
    }
}

/// The shortlist for a capability: each eligible candidate with its
/// factors and score, in the order of the candidates.
fn gather<F: Fn(RoutingFactors) -> Real>(
    from_node: &Node,
    capability: CapabilityId,
    constraints: &TaskConstraints,
    candidates: &Table<NodeId, Node>,
    score: &F,
) -> (out: Vec<CandidateScore>)
    requires
        from_node.wf(),
        candidates.wf(),
        forall|i: int|
            0 <= i < candidates.values().len() ==> (#[trigger] candidates.values()[i]).wf(),
        forall|factors: RoutingFactors| call_requires(*score, (factors,)),
    ensures
        shortlist(
            *from_node,
            capability,
            *constraints,
            candidates.values(),
            *score,
            candidates.values().len() as int,
            out@,
        ),
{
    let mut out: Vec<CandidateScore> = Vec::new();
    let n = candidates.len();
    let mut i: usize = 0;
    while i < n
        invariant
            i <= n,
            n == candidates.values().len(),
            from_node.wf(),
            candidates.wf(),
            forall|j: int|
                0 <= j < candidates.values().len() ==> (#[trigger] candidates.values()[j]).wf(),
            forall|factors: RoutingFactors| call_requires(*score, (factors,)),
            shortlist(
                *from_node,
                capability,
                *constraints,
                candidates.values(),
                *score,
                i as int,
                out@,
            ),
        decreases n - i,
    {
        let node = candidates.value_at(i);
        if node.has_capability(capability) && node.can_accept_capability_work(capability)
            && constraints.is_acceptable(node, capability) && !node.id.same_as(&from_node.id) {
            let scored = compute_routing_score(from_node, node, capability, constraints, score);
            let ghost held = out@;
            out.push(scored);
            assert(out@.drop_last() =~= held);
        }
        i += 1;
    }
    out
}

/// The ranking of a shortlist: each candidate is put behind those whose
/// score is not smaller than its own.
fn rank(list: Vec<CandidateScore>) -> (ranking: Vec<CandidateScore>)
    ensures
        ranking@ == ranked(list@),
{
    let mut ranking: Vec<CandidateScore> = Vec::new();
    let mut j: usize = 0;
    while j < list.len()
        invariant
            j <= list.len(),
            ranking@ == ranked(list@.take(j as int)),
        decreases list.len() - j,
    {
        let x = list[j];
        let mut at: usize = ranking.len();
        assert(ranking@.take(at as int) =~= ranking@);
        while at > 0 && ranking[at - 1].score.lt(&x.score)
            invariant
                at <= ranking.len(),
                place_for(ranking@, x.score.rank()) == place_for(
                    ranking@.take(at as int),
                    x.score.rank(),
                ),
            decreases at,
        {
            proof {
                let part = ranking@.take(at as int);
                assert(part.last() == ranking@[at as int - 1]);
                assert(part.drop_last() =~= ranking@.take(at as int - 1));
            }
            at -= 1;
        }
        proof {
            assert(ranking@.take(ranking@.len() as int) =~= ranking@);
            let part = ranking@.take(at as int);
            if at > 0 {
                assert(part.last() == ranking@[at as int - 1]);
            }
            assert(place_for(part, x.score.rank()) == at);
            let longer = list@.take(j as int + 1);
            assert(longer.drop_last() =~= list@.take(j as int));
            assert(longer.last() == x);
        }
        ranking.insert(at, x);
        j += 1;
    }
    assert(list@.take(j as int) =~= list@);
    ranking
}

/// Whether `result` is how the routing of a task ends.
///
/// Routing goes by the first capability that the task needs; a task that
/// needs none has no candidate. The candidates that may be routed to are
/// shortlisted, each with the score that `score` gives for its factors.
/// With an empty shortlist routing ends without a candidate. Otherwise it
/// ends with the candidate of the highest score, and among candidates of
/// that score with the one that comes first among the candidates.
pub open spec fn routes_to<F: Fn(RoutingFactors) -> Real>(
    from_node: Node,
    task: Task,
    candidates: Table<NodeId, Node>,
    score: F,
    result: RoutingResult,
) -> bool {
    if task.required_caps@.len() == 0 {
        result is NoCandidates
    } else {
        exists|list: Seq<CandidateScore>| #[trigger]
            shortlist(
                from_node,
                task.required_caps@[0],
                task.constraints,
                candidates.values(),
                score,
                candidates.values().len() as int,
                list,
            ) && if list.len() == 0 {
                result is NoCandidates
            } else {
                result == RoutingResult::Success(ranked(list)[0])
            }
    }
}

/// Routes a task to the best candidate (see `routes_to`).
pub fn route_task<F: Fn(RoutingFactors) -> Real>(
    from_node: &Node,
    task: &Task,
    candidates: &Table<NodeId, Node>,
    score: &F,
) -> (result: RoutingResult)
    requires
        from_node.wf(),
        candidates.wf(),
        forall|i: int|
            0 <= i < candidates.values().len() ==> (#[trigger] candidates.values()[i]).wf(),
        forall|factors: RoutingFactors| call_requires(*score, (factors,)),
    ensures
        routes_to(*from_node, *task, *candidates, *score, result),
{
    if task.required_caps.len() == 0 {
        return RoutingResult::NoCandidates;
    }
    let required_cap = task.required_caps[0];
    let list = gather(from_node, required_cap, &task.constraints, candidates, score);
    if list.len() == 0 {
        return RoutingResult::NoCandidates;
    }
    let ghost shortlisted = list@;
    proof {
        lemma_ranked(shortlisted);
    }
    let ranking = rank(list);
    RoutingResult::Success(ranking[0])
}

/// The best candidates for a task: the first `k` of the ranking of the
/// shortlist, or all of it where it is shorter. A task that needs no
/// capability has none.
pub fn route_ensemble<F: Fn(RoutingFactors) -> Real>(
    from_node: &Node,
    task: &Task,
    candidates: &Table<NodeId, Node>,
    k: usize,
    score: &F,
) -> (best: Vec<CandidateScore>)
    requires
        from_node.wf(),
        candidates.wf(),
        forall|i: int|
            0 <= i < candidates.values().len() ==> (#[trigger] candidates.values()[i]).wf(),
        forall|factors: RoutingFactors| call_requires(*score, (factors,)),
    ensures
        task.required_caps@.len() == 0 || k == 0 ==> best@.len() == 0,
        task.required_caps@.len() > 0 && k > 0 ==> exists|list: Seq<CandidateScore>| #[trigger]
            shortlist(
                *from_node,
                task.required_caps@[0],
                task.constraints,
                candidates.values(),
                *score,
                candidates.values().len() as int,
                list,
            ) && best@ == if k < list.len() {
                ranked(list).take(k as int)
            } else {
                ranked(list)
            },
{
    if task.required_caps.len() == 0 || k == 0 {
        return Vec::new();
    }
    let required_cap = task.required_caps[0];
    let list = gather(from_node, required_cap, &task.constraints, candidates, score);
    let ghost shortlisted = list@;
    proof {
        lemma_ranked(shortlisted);
    }
    let mut ranking = rank(list);
    if k < ranking.len() {
        ranking.truncate(k);
    }
    ranking
}

} // verus!
