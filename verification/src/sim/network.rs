//! The network of a simulation, and what happens in it in one tick.

use vstd::prelude::*;
use crate::capability::Capability;
use crate::connection::{Connection, Dynamics};
use crate::constants::{
    ADVERSARY_INTERVAL, CALM_BELOW, CLUSTER_SIZE, DETECTION_CONFIDENCE, DIVERSITY_PARTNERS,
    FRAUD_CONFIDENCE, FRAUD_HISTORY, FRAUD_WINDOW, LOW_DIVERSITY_CAP, PROBATION_COUNT,
    STRATEGIC_HISTORY,
};
use crate::defense::{DefenseSignal, SignalType};
use crate::detection::collusion::{
    counted, detect_collusion, is_cluster, mutual_ratings, occurs, passed, rated,
    CollusionCluster,
};
use crate::detection::{
    all_findings, detect_all_threats, finds_threat, grounded, DetectionResult, QualityFigures,
};
use crate::interaction::qualities;
use crate::node::{DefenseState, Node, NodeFlag, ProbationOutcome, ThreatType};
use crate::scalar::{rank_of, HALF_BITS, ONE_BITS, W_INIT_BITS};
use crate::sim::agents::{begun_by, Agent};
use crate::sim::arithmetic::{Arithmetic, Chance, Observation};
use crate::sim::events::Event;
use crate::sim::figures::{
    based, mean_quality, mean_quality_by, quality_variance, quality_variance_by, trust_base,
};
use crate::sim::metrics::MetricsCollector;
use crate::table::Table;
use crate::trust::{compute_trust, diversity_cap_bits, lower};
use crate::types::{blake3_digest, CapabilityId, NodeId, Real, Score, Timestamp, Weight};

verus! {

/// How a network is to be made.
#[derive(Debug)]
pub struct NetworkConfig {
    /// The number of nodes.
    pub node_count: usize,
    /// The capabilities that every node gets.
    pub capabilities: Vec<Capability>,
    /// The probability that two nodes are connected.
    pub connection_probability: Real,
    /// The seed of the source of chance, if the run is to be repeatable.
    pub seed: Option<u64>,
}

/// Three tenths: the probability that two nodes are connected, unless
/// another is asked for.
pub const CONNECTION_PROBABILITY: u64 = 0x3FD3_3333_3333_3333;

impl NetworkConfig {
    /// Ten nodes without capabilities, connected with a probability of three
    /// tenths, and no seed.
    pub fn new() -> (c: Self)
        ensures
            c.node_count == 10,
            c.capabilities@.len() == 0,
            c.connection_probability == Real(CONNECTION_PROBABILITY),
            c.seed.is_none(),
    {
        Self {
            node_count: 10,
            capabilities: Vec::new(),
            connection_probability: Real::from_bits(CONNECTION_PROBABILITY),
            seed: None,
        }
    }

    /// The same configuration with the given number of nodes.
    pub fn with_nodes(self, count: usize) -> (c: Self)
        ensures
            c == (NetworkConfig { node_count: count, ..self }),
    {
        let mut c = self;
        c.node_count = count;
        c
    }

    /// The same configuration with one capability more.
    pub fn with_capability(self, cap: Capability) -> (c: Self)
        ensures
            c.capabilities@ == self.capabilities@.push(cap),
            c == (NetworkConfig { capabilities: c.capabilities, ..self }),
    {
        let mut c = self;
        c.capabilities.push(cap);
        c
    }

    /// The same configuration with the given probability of a connection.
    pub fn with_connection_prob(self, prob: Real) -> (c: Self)
        ensures
            c == (NetworkConfig { connection_probability: prob, ..self }),
    {
        let mut c = self;
        c.connection_probability = prob;
        c
    }

    /// The same configuration with the given seed.
    pub fn with_seed(self, seed: u64) -> (c: Self)
        ensures
            c == (NetworkConfig { seed: Some(seed), ..self }),
    {
        let mut c = self;
        c.seed = Some(seed);
        c
    }
}

impl Default for NetworkConfig {
    /// Ten nodes without capabilities, connected with a probability of three
    /// tenths, and no seed.
    fn default() -> (c: Self)
        ensures
            c.node_count == 10,
            c.capabilities@.len() == 0,
            c.connection_probability == Real(CONNECTION_PROBABILITY),
            c.seed.is_none(),
    {
        Self::new()
    }
}

/// Figures on a network.
#[derive(Clone, Copy, Debug)]
pub struct NetworkStats {
    /// The number of nodes.
    pub node_count: usize,
    /// The number of connections, each counted once.
    pub connection_count: usize,
    /// The mean trust.
    pub mean_trust: Real,
    /// The mean number of connections of a node.
    pub mean_connections: Real,
    /// The tick.
    pub tick: u64,
}

/// Whether every node of the table is well formed and stands under its own
/// identifier.
pub open spec fn nodes_wf(nodes: Table<NodeId, Node>) -> bool {
    &&& nodes.wf()
    &&& forall|i: int|
        0 <= i < nodes.values().len() ==> (#[trigger] nodes.values()[i]).wf() && nodes.values()[i].id
            == nodes.keys()[i]
}

/// Whether every event carries well-formed nodes only.
pub open spec fn events_wf(events: Seq<Event>) -> bool {
    forall|i: int| 0 <= i < events.len() ==> (#[trigger] events[i]).wf()
}

/// Whether `after` is the node `before` with a connection to `partner_id`:
/// the one that it had, or else a fresh one of the time `now` behind those
/// that it had. Nothing else about the node differs.
pub open spec fn connected_to(before: Node, after: Node, partner_id: NodeId, now: Timestamp) -> bool {
    &&& after == (Node { connections: after.connections, ..before })
    &&& after.connections.has(partner_id)
    &&& forall|other: NodeId|
        other != partner_id && #[trigger] before.connections.has(other) ==> after.connections.has(
            other,
        ) && after.connections.at(other) == before.connections.at(other)
    &&& if before.connections.has(partner_id) {
        &&& after.connections.keys() == before.connections.keys()
        &&& after.connections.at(partner_id) == before.connections.at(partner_id)
    } else {
        &&& after.connections.keys() == before.connections.keys().push(partner_id)
        &&& after.connections.at(partner_id)@.is_fresh(partner_id, now)
        &&& after.connections.at(partner_id).w.rank() == W_INIT_BITS
    }
}

/// Whether the connections of the nodes stay within the table and go both
/// ways: a node is connected to no node but another of the table, which is
/// connected to it in turn.
pub open spec fn mutual(nodes: Table<NodeId, Node>) -> bool {
    forall|a: NodeId, b: NodeId|
        nodes.has(a) && #[trigger] nodes.at(a).connections.has(b) ==> a != b && nodes.has(b)
            && nodes.at(b).connections.has(a)
}

/// Whether every node of the table has each of the capabilities.
pub open spec fn equipped(nodes: Table<NodeId, Node>, capabilities: Seq<Capability>) -> bool {
    forall|id: NodeId, c: int|
        #[trigger] nodes.has(id) && 0 <= c < capabilities.len() ==> nodes.at(id).capabilities.has(
            (#[trigger] capabilities[c]).id,
        )
}

/// Whether the node `id` and each other node among the first `upto` of the
/// table are connected to each other.
pub open spec fn joined_to_all(nodes: Table<NodeId, Node>, id: NodeId, upto: int) -> bool {
    forall|k: int|
        0 <= k < upto && #[trigger] nodes.keys()[k] != id ==> nodes.at(id).connections.has(
            nodes.keys()[k],
        ) && nodes.at(nodes.keys()[k]).connections.has(id)
}

/// Whether `after` is the node `before`, looked over at the time `now` with
/// the arithmetic of `kernel`.
///
/// The alertness is what the kernel lets it decay to; with an alertness
/// below the calm mark the node is back to normal. No connection is added,
/// and those that stay keep their order. A connection that is not idle stays
/// as it is. An idle connection gets the weight that the kernel lets its
/// weight decay to, and is dropped where that is the smallest weight. With
/// fewer different recent partners than the diversity threshold asks for,
/// the node is marked as of low diversity and its trust cap is the
/// low-diversity cap; else the mark is off and the cap is one. Nothing else
/// about the node differs.
pub open spec fn looked_over<A: Arithmetic>(kernel: &A, before: Node, after: Node, now: Timestamp) -> bool {
    &&& after == (Node {
        priming: after.priming,
        defense_state: after.defense_state,
        connections: after.connections,
        flags: after.flags,
        trust_cap: after.trust_cap,
        ..before
    })
    &&& call_ensures(A::decay_priming, (kernel, before.priming), after.priming)
    &&& after.defense_state == if after.priming.rank() < rank_of(CALM_BELOW) {
        DefenseState::Normal
    } else {
        before.defense_state
    }
    &&& after.flags.has(NodeFlag::LowDiversity) == (before.diversity() < DIVERSITY_PARTNERS)
    &&& forall|other: NodeFlag|
        other != NodeFlag::LowDiversity ==> after.flags.has(other) == before.flags.has(other)
    &&& after.trust_cap.rank() == if before.diversity() < DIVERSITY_PARTNERS {
        rank_of(LOW_DIVERSITY_CAP)
    } else {
        ONE_BITS as int
    }
    &&& forall|k: NodeId| #[trigger] after.connections.has(k) ==> before.connections.has(k)
    &&& forall|k: NodeId| #[trigger]
        before.connections.has(k) && !Node::idle_at(before.connections.at(k), now)
            ==> after.connections.has(k) && after.connections.at(k) == before.connections.at(k)
    &&& forall|k: NodeId| #[trigger]
        before.connections.has(k) && Node::idle_at(before.connections.at(k), now) ==> decayed(
            kernel,
            before.connections.at(k),
            after.connections,
            k,
        )
    &&& after.connections.in_order_of(before.connections)
}

/// Whether the table holds of the idle connection `before` to `partner_id`
/// what the kernel lets it decay to: the same connection with the weight
/// that the kernel gives for its weight, and no connection at all where that
/// weight is the smallest.
pub open spec fn decayed<A: Arithmetic>(
    kernel: &A,
    before: Connection,
    after: Table<NodeId, Connection>,
    partner_id: NodeId,
) -> bool {
    exists|w: Weight| #[trigger]
        call_ensures(A::decay_weight, (kernel, before.w), w) && Node::decayed_to(
            before,
            w,
            after,
            partner_id,
        )
}

/// A network of nodes.
#[derive(Debug)]
pub struct Network {
    /// The nodes, by identifier.
    pub nodes: Table<NodeId, Node>,
    /// The agents, by the identifier of their node.
    pub agents: Table<NodeId, Agent>,
    /// The tick that the simulation is at.
    pub tick: u64,
    /// The events that wait to happen.
    pub event_queue: Vec<Event>,
    /// What was recorded.
    pub metrics: MetricsCollector,
}

impl Network {
    /// The tables are well formed, every node is well formed and stands
    /// under its own identifier, and every event that waits carries
    /// well-formed nodes only.
    pub open spec fn wf(&self) -> bool {
        &&& nodes_wf(self.nodes)
        &&& self.agents.wf()
        &&& events_wf(self.event_queue@)
        &&& self.metrics.wf()
    }

    /// A network without nodes, at tick zero.
    pub fn new() -> (n: Self)
        ensures
            n.wf(),
            n.nodes.keys().len() == 0,
            n.agents.keys().len() == 0,
            n.tick == 0,
            n.event_queue@.len() == 0,
            n.metrics.trust_history@.len() == 0,
            n.metrics.interaction_counts.keys().len() == 0,
            n.metrics.quality_history.keys().len() == 0,
            n.metrics.detection_events@.len() == 0,
    {
        Self {
            nodes: Table::new(),
            agents: Table::new(),
            tick: 0,
            event_queue: Vec::new(),
            metrics: MetricsCollector::new(),
        }
    }

    /// Puts a node into the network, in place of one with the same
    /// identifier.
    pub fn add_node(&mut self, node: Node)
        requires
            old(self).wf(),
            node.wf(),
        ensures
            final(self).wf(),
            final(self).nodes.has(node.id),
            final(self).nodes.at(node.id) == node,
            final(self).nodes.keys() == if old(self).nodes.has(node.id) {
                old(self).nodes.keys()
            } else {
                old(self).nodes.keys().push(node.id)
            },
            forall|other: NodeId|
                other != node.id ==> final(self).nodes.has(other) == old(self).nodes.has(
                    other,
                ),
            forall|other: NodeId|
                other != node.id && old(self).nodes.has(other) ==> final(self).nodes.at(
                    other,
                ) == old(self).nodes.at(other),
            final(self).agents == old(self).agents,
            final(self).tick == old(self).tick,
            final(self).event_queue == old(self).event_queue,
            final(self).metrics == old(self).metrics,
    {
        let id = node.id;
        let ghost held = self.nodes;
        self.nodes.insert(id, node);
        proof {
            lemma_inserted_wf(held, self.nodes, id, node);
        }
    }

    /// Puts a node into the network, with an agent.
    pub fn add_node_with_agent(&mut self, node: Node, agent: Agent)
        requires
            old(self).wf(),
            node.wf(),
        ensures
            final(self).wf(),
            final(self).nodes.has(node.id),
            final(self).nodes.at(node.id) == node,
            final(self).nodes.keys() == if old(self).nodes.has(node.id) {
                old(self).nodes.keys()
            } else {
                old(self).nodes.keys().push(node.id)
            },
            forall|other: NodeId|
                other != node.id && old(self).nodes.has(other) ==> final(self).nodes.at(other)
                    == old(self).nodes.at(other),
            final(self).agents.has(node.id),
            final(self).agents.at(node.id) == agent,
            forall|other: NodeId|
                other != node.id ==> final(self).agents.has(other) == old(self).agents.has(other),
            forall|other: NodeId|
                other != node.id && old(self).agents.has(other) ==> final(self).agents.at(other)
                    == old(self).agents.at(other),
            final(self).tick == old(self).tick,
            final(self).event_queue == old(self).event_queue,
            final(self).metrics == old(self).metrics,
    {
        let id = node.id;
        self.add_node(node);
        self.agents.insert(id, agent);
    }

    /// The node with the given identifier, if there is one.
    pub fn get_node(&self, id: &NodeId) -> (r: Option<&Node>)
        requires
            self.wf(),
        ensures
            match r {
                Some(node) => self.nodes.has(*id) && *node == self.nodes.at(*id)
                    && node.wf() && node.id == *id,
                None => !self.nodes.has(*id),
            },
    {
        match self.nodes.position(id) {
            Some(i) => {
                proof {
                    self.nodes.lemma_place(i as int);
                }
                Some(self.nodes.value_at(i))
            },
            None => None,
        }
    }

    /// The node with the given identifier, if there is one, to be changed
    /// where it stands. The network stays well formed as long as the node
    /// does and keeps its identifier.
    pub fn get_node_mut(&mut self, id: &NodeId) -> (r: Option<&mut Node>)
        requires
            old(self).wf(),
        ensures
            r.is_some() == old(self).nodes.has(*id),
            r.is_some() ==> {
                &&& *r.unwrap() == old(self).nodes.at(*id)
                &&& final(self).nodes.keys() == old(self).nodes.keys()
                &&& final(self).nodes.at(*id) == *final(r.unwrap())
                &&& forall|other: NodeId|
                    other != *id && old(self).nodes.has(other) ==> final(self).nodes.at(other)
                        == old(self).nodes.at(other)
            },
            r.is_none() ==> final(self).nodes == old(self).nodes,
            *final(self) == (Network { nodes: final(self).nodes, ..*old(self) }),
    {
        match self.nodes.position(id) {
            Some(i) => {
                proof {
                    self.nodes.lemma_place(i as int);
                }
                Some(self.nodes.value_at_mut(i))
            },
            None => None,
        }
    }

    /// The nodes, to be changed where they stand.
    pub fn nodes_mut(&mut self) -> (r: &mut Table<NodeId, Node>)
        ensures
            *r == old(self).nodes,
            *final(self) == (Network { nodes: *final(r), ..*old(self) }),
    {
        &mut self.nodes
    }

    /// The nodes.
    pub fn nodes(&self) -> (r: &Table<NodeId, Node>)
        ensures
            *r == self.nodes,
    {
        &self.nodes
    }

    /// The number of nodes.
    pub fn node_count(&self) -> (n: usize)
        requires
            self.wf(),
        ensures
            n == self.nodes.keys().len(),
    {
        self.nodes.len()
    }

    /// The number of events that wait to happen.
    pub fn queued(&self) -> (n: usize)
        ensures
            n == self.event_queue@.len(),
    {
        self.event_queue.len()
    }

    /// Connects two nodes at the time `now`: each of them that is in the
    /// network gets a fresh connection to the other, unless it has one.
    pub fn connect(&mut self, a: NodeId, b: NodeId, now: Timestamp)
        requires
            old(self).wf(),
        ensures
            final(self).wf(),
            final(self).nodes.keys() == old(self).nodes.keys(),
            old(self).nodes.has(a) ==> final(self).nodes.at(a).connections.has(b),
            old(self).nodes.has(b) ==> final(self).nodes.at(b).connections.has(a),
            a != b && old(self).nodes.has(a) ==> connected_to(
                old(self).nodes.at(a),
                final(self).nodes.at(a),
                b,
                now,
            ),
            a != b && old(self).nodes.has(b) ==> connected_to(
                old(self).nodes.at(b),
                final(self).nodes.at(b),
                a,
                now,
            ),
            a == b && old(self).nodes.has(a) ==> connected_to(
                old(self).nodes.at(a),
                final(self).nodes.at(a),
                a,
                now,
            ),
            forall|other: NodeId|
                other != a && other != b && old(self).nodes.has(other) ==> final(self).nodes.at(other) == old(self).nodes.at(other),
            final(self).agents == old(self).agents,
            final(self).tick == old(self).tick,
            final(self).event_queue == old(self).event_queue,
            final(self).metrics == old(self).metrics,
    {
        self.tie(a, b, now);
        let ghost mid = self.nodes;
        self.tie(b, a, now);
        proof {
            if a == b && old(self).nodes.has(a) {
                let first = old(self).nodes.at(a);
                let then = mid.at(a);
                let last = self.nodes.at(a);
                assert forall|other: NodeId|
                    other != a && #[trigger] first.connections.has(other) implies last.connections.has(
                    other,
                ) && last.connections.at(other) == first.connections.at(other) by {
                    assert(then.connections.has(other));
                }
            }
        }
    }

    /// Gives `a`, if it is in the network, a connection to `b`, unless it
    /// has one.
    fn tie(&mut self, a: NodeId, b: NodeId, now: Timestamp)
        requires
            old(self).wf(),
        ensures
            final(self).wf(),
            final(self).nodes.keys() == old(self).nodes.keys(),
            old(self).nodes.has(a) ==> connected_to(
                old(self).nodes.at(a),
                final(self).nodes.at(a),
                b,
                now,
            ),
            !old(self).nodes.has(a) ==> final(self).nodes.keys() == old(self).nodes.keys()
                && final(self).nodes.values() == old(self).nodes.values(),
            forall|other: NodeId|
                other != a && old(self).nodes.has(other) ==> final(self).nodes.at(other)
                    == old(self).nodes.at(other),
            final(self).agents == old(self).agents,
            final(self).tick == old(self).tick,
            final(self).event_queue == old(self).event_queue,
            final(self).metrics == old(self).metrics,
    {
        match self.nodes.position(&a) {
            Some(i) => {
                let ghost held = self.nodes;
                proof {
                    held.lemma_place(i as int);
                }
                let node = self.nodes.value_at_mut(i);
                let _ = node.get_or_create_connection(b, now);
                proof {
                    lemma_replaced_wf(held, self.nodes, i as int);
                }
            },
            None => {},
        }
    }

    /// Gives a node an agent.
    pub fn set_agent(&mut self, id: NodeId, agent: Agent)
        requires
            old(self).wf(),
        ensures
            final(self).wf(),
            final(self).agents.has(id),
            final(self).agents.at(id) == agent,
            forall|other: NodeId|
                other != id ==> final(self).agents.has(other) == old(self).agents.has(other),
            forall|other: NodeId|
                other != id && old(self).agents.has(other) ==> final(self).agents.at(other) == old(self).agents.at(other),
            final(self).nodes == old(self).nodes,
            final(self).tick == old(self).tick,
            final(self).event_queue == old(self).event_queue,
            final(self).metrics == old(self).metrics,
    {
        self.agents.insert(id, agent);
    }

    /// Lets an event wait to happen, behind those that wait already.
    pub fn queue_event(&mut self, event: Event)
        requires
            old(self).wf(),
            event.wf(),
        ensures
            final(self).wf(),
            final(self).event_queue@ == old(self).event_queue@.push(event),
            final(self).nodes == old(self).nodes,
            final(self).agents == old(self).agents,
            final(self).tick == old(self).tick,
            final(self).metrics == old(self).metrics,
    {
        self.event_queue.push(event);
    }

    /// Lets an event happen at the time `now`.
    ///
    /// An exchange is taken in by the node that began it and then by the
    /// node that it was begun with, as far as they are in the network, and
    /// is recorded. A defense signal raises the belief that the node which
    /// it names holds. A node that joins is put into the network; where it
    /// joins with a behaviour, it gets the agent for it, and the node and
    /// every other node are connected to each other. A node that leaves is
    /// taken out, with its agent.
    pub fn handle_event<A: Arithmetic>(&mut self, event: Event, kernel: &A, now: Timestamp)
        requires
            old(self).wf(),
            event.wf(),
        ensures
            final(self).wf(),
            final(self).tick == old(self).tick,
            final(self).event_queue == old(self).event_queue,
            final(self).metrics.trust_history == old(self).metrics.trust_history,
            final(self).metrics.detection_events == old(self).metrics.detection_events,
            match event {
                Event::Interaction { from, to, .. } => {
                    &&& final(self).nodes.keys() == old(self).nodes.keys()
                    &&& final(self).agents == old(self).agents
                    &&& old(self).nodes.has(from) ==> final(self).nodes.at(from).connections.has(to)
                    &&& old(self).nodes.has(to) ==> final(self).nodes.at(to).connections.has(from)
                    &&& forall|other: NodeId|
                        other != from && other != to && old(self).nodes.has(other) ==> final(self).nodes.at(other) == old(self).nodes.at(other)
                    &&& final(self).metrics.interaction_counts.has(
                        crate::sim::metrics::pair_of(from, to),
                    )
                },
                Event::DefenseSignal { signal } => {
                    &&& final(self).nodes.keys() == old(self).nodes.keys()
                    &&& final(self).agents == old(self).agents
                    &&& final(self).metrics == old(self).metrics
                    &&& old(self).nodes.has(signal.threat) ==> final(self).nodes.at(
                        signal.threat,
                    ).threat_rank(signal.threat) >= old(self).nodes.at(signal.threat).threat_rank(
                        signal.threat,
                    )
                    &&& forall|other: NodeId|
                        other != signal.threat && old(self).nodes.has(other) ==> final(self).nodes.at(other) == old(self).nodes.at(other)
                },
                Event::NodeJoin { node, agent_type } => {
                    &&& final(self).nodes.has(node.id)
                    &&& final(self).metrics == old(self).metrics
                    &&& forall|other: NodeId|
                        other != node.id ==> final(self).nodes.has(other) == old(self).nodes.has(
                            other,
                        )
                    &&& match agent_type {
                        Some(behaviour) => {
                            &&& final(self).agents.has(node.id)
                            &&& Agent::is_for(behaviour, final(self).agents.at(node.id))
                            &&& joined_to_all(
                                final(self).nodes,
                                node.id,
                                final(self).nodes.keys().len() as int,
                            )
                        },
                        None => final(self).nodes.at(node.id) == node && final(self).agents == old(self).agents,
                    }
                },
                Event::NodeLeave { node_id } => {
                    &&& !final(self).nodes.has(node_id)
                    &&& !final(self).agents.has(node_id)
                    &&& final(self).metrics == old(self).metrics
                    &&& forall|other: NodeId|
                        other != node_id ==> final(self).nodes.has(other) == old(self).nodes.has(
                            other,
                        )
                    &&& forall|other: NodeId|
                        other != node_id && old(self).nodes.has(other) ==> final(self).nodes.at(other) == old(self).nodes.at(other)
                },
            },
            happened(kernel, *old(self), event, *final(self), now),
    {
        match event {
            Event::Interaction { from, to, volume, quality, tone, capability } => {
                let observed = Observation {
                    volume,
                    exchange_in: Real::one(),
                    exchange_out: Real::one(),
                    quality,
                    tone,
                };
                match self.nodes.position(&from) {
                    Some(i) => {
                        let ghost held = self.nodes;
                        let node = self.nodes.value_at_mut(i);
                        took_part(node, kernel, to, observed, capability, true, now);
                        proof {
                            lemma_replaced_wf(held, self.nodes, i as int);
                            held.lemma_place(i as int);
                        }
                    },
                    None => {},
                }
                let ghost mid = self.nodes;
                proof {
                    assert(ended(
                        kernel,
                        old(self).nodes,
                        mid,
                        from,
                        to,
                        observed,
                        capability,
                        true,
                        now,
                    ));
                }
                match self.nodes.position(&to) {
                    Some(i) => {
                        let ghost held = self.nodes;
                        let node = self.nodes.value_at_mut(i);
                        took_part(node, kernel, from, observed, capability, false, now);
                        proof {
                            lemma_replaced_wf(held, self.nodes, i as int);
                            held.lemma_place(i as int);
                        }
                    },
                    None => {},
                }
                proof {
                    assert(ended(kernel, mid, self.nodes, to, from, observed, capability, false, now));
                    assert(exchanged_between(
                        kernel,
                        old(self).nodes,
                        self.nodes,
                        from,
                        to,
                        observed,
                        capability,
                        now,
                    ));
                }
                self.metrics.record_interaction(from, to, quality);
            },
            Event::DefenseSignal { signal } => {
                match self.nodes.position(&signal.threat) {
                    Some(i) => {
                        let ghost held = self.nodes;
                        let ghost before = self.nodes.values()[i as int];
                        let target = self.nodes.value_at_mut(i);
                        let belief = target.get_threat_level(&signal.threat);
                        let level = kernel.believe(belief, signal.confidence);
                        target.update_threat_belief(
                            signal.threat,
                            signal.threat_type,
                            level,
                            Some(signal.evidence),
                            now,
                        );
                        proof {
                            assert(delivered(kernel, before, *target, signal, now, belief, level));
                            lemma_replaced_wf(held, self.nodes, i as int);
                            held.lemma_place(i as int);
                        }
                    },
                    None => {},
                }
                proof {
                    assert(informed(kernel, old(self).nodes, self.nodes, signal, now));
                }
            },
            Event::NodeJoin { node, agent_type } => {
                let node_id = node.id;
                self.add_node(node);
                if let Some(at) = agent_type {
                    self.agents.insert(node_id, Agent::from_type(at));
                    let n = self.nodes.len();
                    let mut i: usize = 0;
                    while i < n
                        invariant
                            i <= n,
                            self.wf(),
                            n == self.nodes.keys().len(),
                            self.nodes.has(node_id),
                            self.agents.has(node_id),
                            Agent::is_for(at, self.agents.at(node_id)),
                            joined_to_all(self.nodes, node_id, i as int),
                            forall|other: NodeId|
                                other != node_id ==> self.nodes.has(other) == old(self).nodes.has(
                                    other,
                                ),
                            self.tick == old(self).tick,
                            self.event_queue == old(self).event_queue,
                            self.metrics == old(self).metrics,
                        decreases n - i,
                    {
                        let other_id = self.nodes.key_at(i);
                        let ghost held = self.nodes;
                        if !other_id.same_as(&node_id) {
                            self.connect(node_id, other_id, now);
                        }
                        proof {
                            assert forall|k: int|
                                0 <= k < i + 1 && #[trigger] self.nodes.keys()[k]
                                    != node_id implies self.nodes.at(node_id).connections.has(
                                self.nodes.keys()[k],
                            ) && self.nodes.at(self.nodes.keys()[k]).connections.has(node_id) by {
                                let o = held.keys()[k];
                                held.lemma_place(k);
                                if k < i && other_id != node_id && o != other_id {
                                    assert(held.at(node_id).connections.has(o));
                                    assert(self.nodes.at(o) == held.at(o));
                                }
                            }
                        }
                        i += 1;
                    }
                }
            },
            Event::NodeLeave { node_id } => {
                let ghost held = self.nodes;
                let _ = self.nodes.remove(&node_id);
                let _ = self.agents.remove(&node_id);
                proof {
                    lemma_removed_wf(held, self.nodes, node_id);
                }
            },
        }
    }

    /// Lets the events that wait happen, in the order in which they came to
    /// wait (see `events_happened`). No event waits afterwards.
    pub fn process_events<A: Arithmetic>(&mut self, kernel: &A, now: Timestamp)
        requires
            old(self).wf(),
        ensures
            final(self).wf(),
            final(self).tick == old(self).tick,
            final(self).event_queue@.len() == 0,
            final(self).metrics.trust_history == old(self).metrics.trust_history,
            final(self).metrics.detection_events == old(self).metrics.detection_events,
            events_happened(kernel, *old(self), old(self).event_queue@, *final(self), now),
    {
        let ghost all = self.event_queue@;
        let mut events: Vec<Event> = Vec::new();
        core::mem::swap(&mut self.event_queue, &mut events);
        let ghost mut done: int = 0;
        proof {
            assert(all.take(0).len() == 0);
            assert(all.skip(0) =~= all);
        }
        while events.len() > 0
            invariant
                self.wf(),
                events_wf(events@),
                self.tick == old(self).tick,
                self.event_queue@.len() == 0,
                self.metrics.trust_history == old(self).metrics.trust_history,
                self.metrics.detection_events == old(self).metrics.detection_events,
                0 <= done <= all.len(),
                events@ == all.skip(done),
                events_happened(kernel, *old(self), all.take(done), *self, now),
            decreases events.len(),
        {
            let ghost held = events@;
            let ghost mid = *self;
            let event = events.remove(0);
            proof {
                assert(event == held[0]);
                assert forall|i: int| 0 <= i < events@.len() implies (#[trigger] events@[i]).wf() by {
                    assert(events@[i] == held[i + 1]);
                }
            }
            self.handle_event(event, kernel, now);
            proof {
                let longer = all.take(done + 1);
                assert(longer.last() == event);
                assert(longer.drop_last() =~= all.take(done));
                assert(happened(kernel, mid, longer.last(), *self, now));
                assert(events_happened(kernel, *old(self), longer.drop_last(), mid, now));
                assert(events_happened(kernel, *old(self), longer, *self, now));
                assert(events@ =~= all.skip(done + 1));
                done = done + 1;
            }
        }
        proof {
            assert(all.take(done) =~= all);
        }
    }

    /// Puts the trust in every node where its figures put it (see
    /// `retrusted`). No trust exceeds the trust cap of its node afterwards.
    pub fn update_trust_scores<A: Arithmetic>(&mut self, kernel: &A)
        requires
            old(self).wf(),
        ensures
            final(self).wf(),
            final(self).nodes.keys() == old(self).nodes.keys(),
            final(self).nodes.values().len() == old(self).nodes.values().len(),
            forall|i: int|
                0 <= i < final(self).nodes.values().len() ==> (
                #[trigger] final(self).nodes.values()[i]).trust.rank() <= final(self).nodes.values()[i].trust_cap.rank(),
            forall|i: int|
                0 <= i < final(self).nodes.values().len() ==> retrusted(
                    kernel,
                    old(self).nodes.values()[i],
                    #[trigger] final(self).nodes.values()[i],
                ),
            final(self).agents == old(self).agents,
            final(self).tick == old(self).tick,
            final(self).event_queue == old(self).event_queue,
            final(self).metrics == old(self).metrics,
            trusts_updated(kernel, *old(self), *final(self)),
    {
        let n = self.nodes.len();
        let mut i: usize = 0;
        while i < n
            invariant
                i <= n,
                self.wf(),
                n == self.nodes.keys().len(),
                self.nodes.keys() == old(self).nodes.keys(),
                self.nodes.values().len() == old(self).nodes.values().len(),
                forall|j: int|
                    0 <= j < i ==> (#[trigger] self.nodes.values()[j]).trust.rank()
                        <= self.nodes.values()[j].trust_cap.rank(),
                forall|j: int|
                    0 <= j < i ==> retrusted(
                        kernel,
                        old(self).nodes.values()[j],
                        #[trigger] self.nodes.values()[j],
                    ),
                forall|j: int|
                    i <= j < n ==> (#[trigger] self.nodes.values()[j]) == old(self).nodes.values()[j],
                self.agents == old(self).agents,
                self.tick == old(self).tick,
                self.event_queue == old(self).event_queue,
                self.metrics == old(self).metrics,
            decreases n - i,
        {
            let ghost held = self.nodes;
            let ghost before = self.nodes.values()[i as int];
            let node = self.nodes.value_at_mut(i);
            let base = trust_base(kernel, node);
            node.trust = compute_trust(node, base);
            proof {
                assert(capped(kernel, before, base, *node));
                assert(retrusted(kernel, before, *node));
                lemma_replaced_wf(held, self.nodes, i as int);
                assert forall|j: int| 0 <= j < i + 1 implies (
                #[trigger] self.nodes.values()[j]).trust.rank()
                    <= self.nodes.values()[j].trust_cap.rank() && retrusted(
                    kernel,
                    old(self).nodes.values()[j],
                    self.nodes.values()[j],
                ) by {
                    if j < i {
                        assert(self.nodes.values()[j] == held.values()[j]);
                    }
                }
                assert forall|j: int| i + 1 <= j < n implies (#[trigger] self.nodes.values()[j])
                    == old(self).nodes.values()[j] by {
                    assert(self.nodes.values()[j] == held.values()[j]);
                }
            }
            i += 1;
        }
    }

    /// Records the trust in the nodes at the present tick: the trust in each
    /// node, in the order of the nodes, with the mean and the standard
    /// deviation that the kernel gives for it (see `collected`). Without
    /// nodes nothing is recorded.
    pub fn collect_metrics<A: Arithmetic>(&mut self, kernel: &A)
        requires
            old(self).wf(),
        ensures
            final(self).wf(),
            final(self).nodes == old(self).nodes,
            final(self).agents == old(self).agents,
            final(self).tick == old(self).tick,
            final(self).event_queue == old(self).event_queue,
            collected(kernel, old(self).nodes.values(), old(self).tick, old(self).metrics, final(self).metrics),
            final(self).metrics.trust_history@.len() == if old(self).nodes.keys().len() > 0 {
                old(self).metrics.trust_history@.len() + 1
            } else {
                old(self).metrics.trust_history@.len()
            },
            old(self).nodes.keys().len() > 0 ==> final(self).metrics.trust_history@.last().tick
                == old(self).tick,
            metrics_collected(kernel, *old(self), *final(self)),
    {
        let n = self.nodes.len();
        if n == 0 {
            return ;
        }
        let mut trusts: Vec<Score> = Vec::new();
        let mut i: usize = 0;
        while i < n
            invariant
                i <= n,
                n == self.nodes.keys().len(),
                self.nodes.wf(),
                trusts@ == trusts_of(self.nodes.values().take(i as int)),
            decreases n - i,
        {
            trusts.push(self.nodes.value_at(i).trust);
            proof {
                assert(trusts@ =~= trusts_of(self.nodes.values().take(i as int + 1)));
            }
            i += 1;
        }
        proof {
            assert(self.nodes.values().take(n as int) =~= self.nodes.values());
        }
        let figures = kernel.spread(&trusts);
        let ghost before = self.metrics;
        self.metrics.record_trust_distribution(self.tick, &trusts, figures.0, figures.1);
        proof {
            assert(spread_recorded(
                kernel,
                self.nodes.values(),
                self.tick,
                before,
                self.metrics,
                trusts,
                figures,
            ));
        }
    }

    /// Looks over every node once, at the time `now`: the alertness of the
    /// node decays, its idle connections decay, and its diversity is
    /// checked (see `looked_over`).
    pub fn maintain<A: Arithmetic>(&mut self, kernel: &A, now: Timestamp)
        requires
            old(self).wf(),
        ensures
            final(self).wf(),
            final(self).nodes.keys() == old(self).nodes.keys(),
            final(self).nodes.values().len() == old(self).nodes.values().len(),
            forall|i: int|
                0 <= i < old(self).nodes.values().len() ==> looked_over(
                    kernel,
                    old(self).nodes.values()[i],
                    #[trigger] final(self).nodes.values()[i],
                    now,
                ),
            final(self).agents == old(self).agents,
            final(self).tick == old(self).tick,
            final(self).event_queue == old(self).event_queue,
            final(self).metrics == old(self).metrics,
            maintained(kernel, *old(self), *final(self), now),
    {
        let n = self.nodes.len();
        let mut i: usize = 0;
        while i < n
            invariant
                i <= n,
                self.wf(),
                old(self).wf(),
                n == self.nodes.keys().len(),
                self.nodes.keys() == old(self).nodes.keys(),
                self.nodes.values().len() == old(self).nodes.values().len(),
                forall|j: int|
                    0 <= j < i ==> looked_over(
                        kernel,
                        old(self).nodes.values()[j],
                        #[trigger] self.nodes.values()[j],
                        now,
                    ),
                forall|j: int|
                    i <= j < n ==> (#[trigger] self.nodes.values()[j]) == old(self).nodes.values()[j],
                self.agents == old(self).agents,
                self.tick == old(self).tick,
                self.event_queue == old(self).event_queue,
                self.metrics == old(self).metrics,
            decreases n - i,
        {
            let ghost held = self.nodes;
            let ghost before = self.nodes.values()[i as int];
            let node = self.nodes.value_at_mut(i);
            node.decay_priming(kernel.decay_priming(node.priming));
            let ghost calmed = *node;
            let decay = |w: Weight| -> (r: Weight)
                ensures
                    call_ensures(A::decay_weight, (kernel, w), r),
                { kernel.decay_weight(w) };
            node.decay_idle_connections(now, decay);
            let ghost thinned = *node;
            node.check_diversity();
            proof {
                let after = *node;
                assert forall|k: NodeId| #[trigger]
                    before.connections.has(k) && Node::idle_at(
                        before.connections.at(k),
                        now,
                    ) implies decayed(kernel, before.connections.at(k), after.connections, k) by {
                    assert(calmed.connections.has(k));
                    let w = choose|w: Weight| #[trigger]
                        call_ensures(decay, (calmed.connections.at(k).w,), w) && Node::decayed_to(
                            calmed.connections.at(k),
                            w,
                            thinned.connections,
                            k,
                        );
                    assert(call_ensures(A::decay_weight, (kernel, before.connections.at(k).w), w));
                }
                assert(looked_over(kernel, before, after, now));
            }
            proof {
                lemma_replaced_wf(held, self.nodes, i as int);
                assert forall|j: int| 0 <= j < i + 1 implies looked_over(
                    kernel,
                    old(self).nodes.values()[j],
                    #[trigger] self.nodes.values()[j],
                    now,
                ) by {
                    if j < i {
                        assert(self.nodes.values()[j] == held.values()[j]);
                    }
                }
                assert forall|j: int| i + 1 <= j < n implies (#[trigger] self.nodes.values()[j])
                    == old(self).nodes.values()[j] by {
                    assert(self.nodes.values()[j] == held.values()[j]);
                }
            }
            i += 1;
        }
    }

    /// Scans the network for adversaries at the time `now`, and lets a
    /// defense signal wait for each threat that was found: for each finding
    /// of the detectors about a node, in the order of the nodes, and then
    /// for each member of each cluster that looks like collusion (see
    /// `scan_raised`).
    ///
    /// Nothing but the queue changes, and what waited still waits, in
    /// front. Whatever the figures of the kernel come to, each signal that
    /// is added is fresh, names as the threat the node that it comes from,
    /// and has the grounds of its kind (see `raised`).
    pub fn scan_for_adversaries<A: Arithmetic>(&mut self, kernel: &A, now: Timestamp)
        requires
            old(self).wf(),
        ensures
            final(self).wf(),
            final(self).nodes == old(self).nodes,
            final(self).agents == old(self).agents,
            final(self).tick == old(self).tick,
            final(self).metrics == old(self).metrics,
            exists|signals: Seq<DefenseSignal>| #[trigger]
                scan_raised(kernel, old(self).nodes, now, signals) && final(self).event_queue@
                    == old(self).event_queue@ + as_events(signals),
            final(self).event_queue@.len() >= old(self).event_queue@.len(),
            final(self).event_queue@.take(old(self).event_queue@.len() as int) == old(self).event_queue@,
            forall|i: int|
                old(self).event_queue@.len() <= i < final(self).event_queue@.len() ==> is_fresh_signal(
                    #[trigger] final(self).event_queue@[i],
                ),
            forall|i: int|
                old(self).event_queue@.len() <= i < final(self).event_queue@.len() ==> raised(
                    old(self).nodes,
                    #[trigger] final(self).event_queue@[i],
                    now,
                ),
            scanned(kernel, *old(self), *final(self), now),
    {
        let mut signals: Vec<DefenseSignal> = Vec::new();
        let ghost mut node_parts: Seq<Seq<DefenseSignal>> = Seq::empty();
        let n = self.nodes.len();
        let mut i: usize = 0;
        while i < n
            invariant
                i <= n,
                self.wf(),
                n == self.nodes.keys().len(),
                *self == *old(self),
                node_parts.len() == i,
                forall|k: int|
                    0 <= k < i ==> node_scanned(
                        kernel,
                        self.nodes.values()[k],
                        now,
                        #[trigger] node_parts[k],
                    ),
                signals@ == node_parts.flatten(),
                forall|k: int|
                    0 <= k < signals@.len() ==> signalled(self.nodes, #[trigger] signals@[k], now),
            decreases n - i,
        {
            let mut part = scan_node(&self.nodes, i, kernel, now);
            let ghost before = signals@;
            let ghost more = part@;
            signals.append(&mut part);
            proof {
                node_parts.lemma_flatten_push(more);
                node_parts = node_parts.push(more);
                assert(signals@ =~= before + more);
                assert forall|k: int| 0 <= k < signals@.len() implies signalled(
                    self.nodes,
                    #[trigger] signals@[k],
                    now,
                ) by {
                    if k < before.len() {
                        assert(signals@[k] == before[k]);
                    } else {
                        assert(signals@[k] == more[k - before.len()]);
                    }
                }
            }
            i += 1;
        }
        proof {
            assert(nodes_scanned(kernel, self.nodes.values(), now, node_parts));
        }
        let mean = |given: &Vec<Score>| -> (r: Score)
            ensures
                call_ensures(A::mean, (kernel, given), r),
            { kernel.mean(given) };
        let clusters = detect_collusion(&self.nodes, mean);
        proof {
            assert forall|members: Seq<NodeId>, rating: Score| #[trigger]
                rated(self.nodes, members, mean, rating) implies rated_by(
                kernel,
                self.nodes,
                members,
                rating,
            ) by {
                if mutual_ratings(self.nodes, members, members.len() as int).len() != 0 {
                    let given = choose|given: Vec<Score>| #[trigger]
                        call_ensures(mean, (&given,), rating) && given@ == mutual_ratings(
                            self.nodes,
                            members,
                            members.len() as int,
                        );
                    assert(call_ensures(A::mean, (kernel, &given), rating));
                }
            }
            assert forall|v: NodeId| occurs(self.nodes, v) implies (exists|k: int|
                0 <= k < clusters.len() && (#[trigger] clusters[k]).members@.contains(v)) || (exists|
                cluster: CollusionCluster,
            | #[trigger] passed_by(kernel, self.nodes, cluster) && cluster.members@.contains(v)) by {
                if !(exists|k: int|
                    0 <= k < clusters.len() && (#[trigger] clusters[k]).members@.contains(v)) {
                    let cluster = choose|cluster: CollusionCluster| #[trigger]
                        passed(self.nodes, cluster, mean) && cluster.members@.contains(v);
                    assert(passed_by(kernel, self.nodes, cluster));
                }
            }
            assert(clusters_found(kernel, self.nodes, clusters@));
        }
        let mut late: Vec<DefenseSignal> = Vec::new();
        let ghost mut cluster_parts: Seq<Seq<DefenseSignal>> = Seq::empty();
        let mut c: usize = 0;
        while c < clusters.len()
            invariant
                c <= clusters.len(),
                clusters_found(kernel, self.nodes, clusters@),
                cluster_parts.len() == c,
                forall|k: int|
                    0 <= k < c ==> cluster_signalled(
                        kernel,
                        clusters@[k],
                        now,
                        #[trigger] cluster_parts[k],
                    ),
                late@ == cluster_parts.flatten(),
                forall|k: int|
                    0 <= k < late@.len() ==> signalled(self.nodes, #[trigger] late@[k], now),
            decreases clusters.len() - c,
        {
            let mut part = cluster_signals(&self.nodes, &clusters[c], kernel, now);
            let ghost before = late@;
            let ghost more = part@;
            late.append(&mut part);
            proof {
                cluster_parts.lemma_flatten_push(more);
                cluster_parts = cluster_parts.push(more);
                assert(late@ =~= before + more);
                assert forall|k: int| 0 <= k < late@.len() implies signalled(
                    self.nodes,
                    #[trigger] late@[k],
                    now,
                ) by {
                    if k < before.len() {
                        assert(late@[k] == before[k]);
                    } else {
                        assert(late@[k] == more[k - before.len()]);
                    }
                }
            }
            c += 1;
        }
        let ghost by_nodes = signals@;
        let ghost by_clusters = late@;
        signals.append(&mut late);
        proof {
            assert(clusters_signalled(kernel, clusters@, now, cluster_parts));
            assert(signals@ == node_parts.flatten() + cluster_parts.flatten());
            assert(scan_raised(kernel, self.nodes, now, signals@));
            assert forall|k: int| 0 <= k < signals@.len() implies signalled(
                self.nodes,
                #[trigger] signals@[k],
                now,
            ) by {
                if k < by_nodes.len() {
                    assert(signals@[k] == by_nodes[k]);
                } else {
                    assert(signals@[k] == by_clusters[k - by_nodes.len()]);
                }
            }
        }
        let mut s: usize = 0;
        while s < signals.len()
            invariant
                s <= signals.len(),
                self.wf(),
                self.nodes == old(self).nodes,
                self.agents == old(self).agents,
                self.tick == old(self).tick,
                self.metrics == old(self).metrics,
                forall|k: int|
                    0 <= k < signals@.len() ==> signalled(self.nodes, #[trigger] signals@[k], now),
                self.event_queue@ == old(self).event_queue@ + as_events(signals@.take(s as int)),
            decreases signals.len() - s,
        {
            let ghost held = self.event_queue@;
            let signal = signals[s];
            self.queue_event(Event::DefenseSignal { signal });
            proof {
                assert(as_events(signals@.take(s as int + 1)) =~= as_events(
                    signals@.take(s as int),
                ).push(Event::DefenseSignal { signal }));
                assert(self.event_queue@ =~= old(self).event_queue@ + as_events(
                    signals@.take(s as int + 1),
                ));
            }
            s += 1;
        }
        proof {
            assert(signals@.take(signals@.len() as int) =~= signals@);
            let before = old(self).event_queue@;
            assert(self.event_queue@.take(before.len() as int) =~= before);
            assert forall|k: int| before.len() <= k < self.event_queue@.len() implies raised(
                old(self).nodes,
                #[trigger] self.event_queue@[k],
                now,
            ) && is_fresh_signal(self.event_queue@[k]) by {
                assert(self.event_queue@[k] == as_events(signals@)[k - before.len()]);
                assert(signalled(self.nodes, signals@[k - before.len()], now));
            }
        }
    }

    /// Lets one tick pass, at the time `now` (see `ticked`).
    ///
    /// The tick is counted. Every agent whose node is in the network acts,
    /// in the order of the agents, and what it does waits behind the events
    /// that waited already. Then every event that waits happens, in order.
    /// Every node is looked over (see `maintain`). At every hundredth tick
    /// the network is scanned for adversaries: the signals about them wait,
    /// and happen no earlier than in the next tick. The trust in every node
    /// is put where its figures put it, so that no trust exceeds the trust
    /// cap of its node. The trust in the nodes is recorded.
    pub fn tick<A: Arithmetic, C: Chance>(&mut self, kernel: &A, chance: &mut C, now: Timestamp)
        requires
            old(self).wf(),
        ensures
            final(self).wf(),
            ticked(kernel, *old(self), *final(self), now),
            final(self).tick == next_tick(old(self).tick),
            forall|i: int|
                0 <= i < final(self).event_queue@.len() ==> is_fresh_signal(
                    #[trigger] final(self).event_queue@[i],
                ),
            final(self).tick % ADVERSARY_INTERVAL != 0 ==> final(self).event_queue@.len() == 0,
            forall|i: int|
                0 <= i < final(self).nodes.values().len() ==> (
                #[trigger] final(self).nodes.values()[i]).trust.rank() <= final(self).nodes.values()[i].trust_cap.rank(),
            final(self).metrics.trust_history@.len() == if final(self).nodes.keys().len() > 0 {
                old(self).metrics.trust_history@.len() + 1
            } else {
                old(self).metrics.trust_history@.len()
            },
            final(self).nodes.keys().len() > 0 ==> final(self).metrics.trust_history@.last().tick
                == final(self).tick,
    {
        if self.tick < u64::MAX {
            self.tick = self.tick + 1;
        }
        let ghost mut parts: Seq<Seq<Event>> = Seq::empty();
        let n = self.agents.len();
        let mut i: usize = 0;
        while i < n
            invariant
                i <= n,
                self.wf(),
                n == self.agents.keys().len(),
                self.agents == old(self).agents,
                self.nodes == old(self).nodes,
                self.tick == next_tick(old(self).tick),
                self.metrics == old(self).metrics,
                parts.len() == i,
                forall|a: int|
                    0 <= a < i ==> done_by(self.nodes, self.agents.keys()[a], #[trigger] parts[a]),
                self.event_queue@ == old(self).event_queue@ + parts.flatten(),
            decreases n - i,
        {
            let id = self.agents.key_at(i);
            let mut events = match self.nodes.position(&id) {
                Some(at) => {
                    proof {
                        self.nodes.lemma_place(at as int);
                    }
                    let events = self.agents.value_at(i).act(
                        self.nodes.value_at(at),
                        &self.nodes,
                        self.tick,
                        chance,
                    );
                    proof {
                        assert(self.nodes.values()[at as int].id == id);
                        assert forall|k: int| 0 <= k < events@.len() implies begun_by(
                            #[trigger] events@[k],
                            id,
                        ) && events@[k].wf() by {}
                    }
                    events
                },
                None => Vec::new(),
            };
            let ghost held = self.event_queue@;
            let ghost more = events@;
            let ghost earlier = parts;
            proof {
                assert(more.len() > 0 ==> self.nodes.has(id));
                assert forall|k: int| 0 <= k < more.len() implies begun_by(#[trigger] more[k], id)
                    && more[k].wf() by {}
            }
            self.event_queue.append(&mut events);
            proof {
                earlier.lemma_flatten_push(more);
                parts = earlier.push(more);
                assert(self.event_queue@ =~= old(self).event_queue@ + parts.flatten());
                assert forall|k: int| 0 <= k < self.event_queue@.len() implies (
                #[trigger] self.event_queue@[k]).wf() by {
                    if k < held.len() {
                        assert(self.event_queue@[k] == held[k]);
                    } else {
                        assert(self.event_queue@[k] == more[k - held.len()]);
                    }
                }
                assert(done_by(self.nodes, id, more));
                assert forall|a: int| 0 <= a < i + 1 implies done_by(
                    self.nodes,
                    self.agents.keys()[a],
                    #[trigger] parts[a],
                ) by {
                    if a < i {
                        assert(parts[a] == earlier[a]);
                    } else {
                        assert(parts[a] == more);
                    }
                }
            }
            i += 1;
        }
        let ghost begun = *self;
        self.process_events(kernel, now);
        let ghost m1 = *self;
        self.maintain(kernel, now);
        let ghost m2 = *self;
        if self.tick % ADVERSARY_INTERVAL == 0 {
            self.scan_for_adversaries(kernel, now);
        }
        let ghost m3 = *self;
        self.update_trust_scores(kernel);
        let ghost m4 = *self;
        self.collect_metrics(kernel);
        proof {
            assert(acted_by(old(self).agents, old(self).nodes, parts));
            assert(tick_steps(kernel, *old(self), *self, now, parts, begun, m1, m2, m3, m4));
        }
    }

    /// A network as the configuration asks for it, made at the time `now`,
    /// with the connections that were drawn.
    ///
    /// The nodes stand under the identifiers of the indices from zero, and
    /// each has every capability of the configuration. Two nodes are
    /// connected to each other exactly when that was drawn for them: `links`
    /// says so in the row of the earlier node, at the place of the later
    /// one, and a draw that is not there counts as one against. Every
    /// connection is fresh.
    pub fn with_links(config: NetworkConfig, links: &Vec<Vec<bool>>, now: Timestamp) -> (network: Self)
        ensures
            wired(network.nodes, links@, config.node_count as int, 0),
            all_fresh(network.nodes, now),
            network.wf(),
            network.tick == 0,
            network.event_queue@.len() == 0,
            network.agents.keys().len() == 0,
            network.metrics.trust_history@.len() == 0,
            network.nodes.keys().len() == config.node_count,
            forall|i: int|
                0 <= i < config.node_count ==> (#[trigger] network.nodes.keys()[i])@
                    == crate::types::index_bytes(i as u64),
            equipped(network.nodes, config.capabilities@),
            mutual(network.nodes),
            configured(config.node_count, config.capabilities@, network),
    {
        let mut network = Self::new();
        let mut i: usize = 0;
        while i < config.node_count
            invariant
                i <= config.node_count,
                network.wf(),
                network.tick == 0,
                network.event_queue@.len() == 0,
                network.agents.keys().len() == 0,
                network.metrics.trust_history@.len() == 0,
                network.nodes.keys().len() == i,
                forall|k: int|
                    0 <= k < i ==> (#[trigger] network.nodes.keys()[k])@
                        == crate::types::index_bytes(k as u64),
                equipped(network.nodes, config.capabilities@),
                forall|id: NodeId| #[trigger]
                    network.nodes.has(id) ==> network.nodes.at(id).connections.keys().len() == 0,
            decreases config.node_count - i,
        {
            let id = NodeId::from_index(i as u64);
            let mut node = Node::new(id, now);
            let mut c: usize = 0;
            while c < config.capabilities.len()
                invariant
                    c <= config.capabilities.len(),
                    node.wf(),
                    node.id == id,
                    node.connections.keys().len() == 0,
                    forall|k: int|
                        0 <= k < c ==> node.capabilities.has((#[trigger] config.capabilities@[k]).id),
                decreases config.capabilities.len() - c,
            {
                node.add_capability(config.capabilities[c].clone(), now);
                c += 1;
            }
            proof {
                if network.nodes.has(id) {
                    let k = network.nodes.keys().index_of(id);
                    assert(network.nodes.keys()[k] == id);
                    assert(network.nodes.keys()[k]@ == crate::types::index_bytes(k as u64));
                    crate::types::lemma_from_index_injective(k as u64, i as u64);
                }
            }
            network.add_node(node);
            i += 1;
        }
        proof {
            assert forall|a: NodeId, b: NodeId|
                network.nodes.has(a) && #[trigger] network.nodes.at(a).connections.has(
                    b,
                ) implies false by {
                let held = network.nodes.at(a).connections.keys();
                assert(held[held.index_of(b)] == b);
            }
            assert forall|x: int, y: int| 0 <= x < network.nodes.keys().len() && 0 <= y
                < network.nodes.keys().len() implies !#[trigger] tied(network.nodes, x, y) by {
                network.nodes.lemma_place(x);
            }
            assert forall|i: int, k: NodeId|
                0 <= i < network.nodes.values().len() && #[trigger] network.nodes.values()[i].connections.has(
                    k,
                ) implies false by {
                network.nodes.lemma_place(i);
            }
        }
        let n = network.nodes.len();
        let mut a: usize = 0;
        while a < n
            invariant
                a <= n,
                network.wf(),
                network.tick == 0,
                network.event_queue@.len() == 0,
                network.agents.keys().len() == 0,
                network.metrics.trust_history@.len() == 0,
                n == config.node_count,
                network.nodes.keys().len() == n,
                forall|k: int|
                    0 <= k < n ==> (#[trigger] network.nodes.keys()[k])@
                        == crate::types::index_bytes(k as u64),
                equipped(network.nodes, config.capabilities@),
                mutual(network.nodes),
                wired(network.nodes, links@, a as int, 0),
                all_fresh(network.nodes, now),
            decreases n - a,
        {
            let mut b: usize = a + 1;
            proof {
                assert forall|x: int, y: int| 0 <= x < y < n implies #[trigger] tied(
                    network.nodes,
                    x,
                    y,
                ) == drawn_by(links@, a as int, b as int, x, y) && tied(network.nodes, y, x)
                    == drawn_by(links@, a as int, b as int, x, y) by {
                    assert(tied(network.nodes, x, y) == drawn_by(links@, a as int, 0, x, y));
                }
            }
            while b < n
                invariant
                    a < b <= n,
                    network.wf(),
                    network.tick == 0,
                    network.event_queue@.len() == 0,
                    network.agents.keys().len() == 0,
                    network.metrics.trust_history@.len() == 0,
                    network.nodes.keys().len() == n,
                    forall|k: int|
                        0 <= k < n ==> (#[trigger] network.nodes.keys()[k])@
                            == crate::types::index_bytes(k as u64),
                    equipped(network.nodes, config.capabilities@),
                    mutual(network.nodes),
                    wired(network.nodes, links@, a as int, b as int),
                    all_fresh(network.nodes, now),
                decreases n - b,
            {
                let ghost earlier = network.nodes;
                if a < links.len() && b < links[a].len() && links[a][b] {
                    let first = network.nodes.key_at(a);
                    let second = network.nodes.key_at(b);
                    let ghost held = network.nodes;
                    network.connect(first, second, now);
                    proof {
                        lemma_connected(held, network.nodes, first, second, now);
                        held.lemma_place(a as int);
                        held.lemma_place(b as int);
                        lemma_wired(held, network.nodes, links@, a as int, b as int, now);
                        assert forall|id: NodeId, c: int|
                            #[trigger] network.nodes.has(id) && 0 <= c
                                < config.capabilities@.len() implies network.nodes.at(
                            id,
                        ).capabilities.has((#[trigger] config.capabilities@[c]).id) by {
                            assert(held.has(id));
                            assert(network.nodes.at(id).capabilities == held.at(id).capabilities);
                        }
                    }
                } else {
                    proof {
                        assert forall|x: int, y: int| 0 <= x < y < n implies #[trigger] tied(
                            network.nodes,
                            x,
                            y,
                        ) == drawn_by(links@, a as int, b as int + 1, x, y) && tied(
                            network.nodes,
                            y,
                            x,
                        ) == drawn_by(links@, a as int, b as int + 1, x, y) by {
                            assert(tied(network.nodes, x, y) == drawn_by(
                                links@,
                                a as int,
                                b as int,
                                x,
                                y,
                            ));
                            assert(!linked(links@, a as int, b as int));
                        }
                    }
                }
                proof {
                    assert(wired(network.nodes, links@, a as int, b as int + 1));
                }
                b += 1;
            }
            proof {
                assert forall|x: int, y: int| 0 <= x < y < n implies #[trigger] tied(
                    network.nodes,
                    x,
                    y,
                ) == drawn_by(links@, a as int + 1, 0, x, y) && tied(network.nodes, y, x)
                    == drawn_by(links@, a as int + 1, 0, x, y) by {
                    assert(tied(network.nodes, x, y) == drawn_by(links@, a as int, n as int, x, y));
                }
            }
            a += 1;
        }
        network
    }


    /// A network as the configuration asks for it, made at the time `now`.
    ///
    /// The nodes stand under the identifiers of the indices from zero, and
    /// each has every capability of the configuration. For each pair of
    /// nodes it is drawn, with the probability of a connection, whether the
    /// two are connected; the network is the one with the connections that
    /// were drawn (see `with_links`). Whatever is drawn, connections go both
    /// ways, and none goes from a node to itself.
    pub fn from_config<C: Chance>(config: NetworkConfig, chance: &mut C, now: Timestamp) -> (network:
        Self)
        ensures
            network.wf(),
            network.tick == 0,
            network.event_queue@.len() == 0,
            network.agents.keys().len() == 0,
            network.metrics.trust_history@.len() == 0,
            network.nodes.keys().len() == config.node_count,
            forall|i: int|
                0 <= i < config.node_count ==> (#[trigger] network.nodes.keys()[i])@
                    == crate::types::index_bytes(i as u64),
            equipped(network.nodes, config.capabilities@),
            mutual(network.nodes),
            configured(config.node_count, config.capabilities@, network),
            all_fresh(network.nodes, now),
            exists|links: Seq<Vec<bool>>| #[trigger]
                wired(network.nodes, links, config.node_count as int, 0),
    {
        let n = config.node_count;
        let mut links: Vec<Vec<bool>> = Vec::new();
        let mut a: usize = 0;
        while a < n
            invariant
                a <= n,
            decreases n - a,
        {
            let mut row: Vec<bool> = Vec::new();
            let mut b: usize = 0;
            while b < n
                invariant
                    b <= n,
                decreases n - b,
            {
                let on = b > a && chance.happens(config.connection_probability);
                row.push(on);
                b += 1;
            }
            links.push(row);
            a += 1;
        }
        let network = Self::with_links(config, &links, now);
        proof {
            assert(wired(network.nodes, links@, config.node_count as int, 0));
        }
        network
    }

    /// Figures on the network: the number of nodes, the number of
    /// connections, each counted once, the mean trust, the mean number of
    /// connections of a node, and the tick. Without nodes both means are
    /// zero; else they are what the kernel gives (see `means_by`).
    pub fn stats<A: Arithmetic>(&self, kernel: &A) -> (stats: NetworkStats)
        requires
            self.wf(),
        ensures
            stats.node_count == self.nodes.keys().len(),
            stats.connection_count == connection_ends(
                self.nodes.values(),
                self.nodes.values().len() as int,
            ) / 2,
            stats.tick == self.tick,
            self.nodes.keys().len() == 0 ==> stats.mean_trust.0 == 0 && stats.mean_connections.0
                == 0,
            self.nodes.keys().len() > 0 ==> exists|given: Vec<Score>, mean: Score| #[trigger]
                means_by(kernel, self.nodes.values(), given, mean, stats),
    {
        let n = self.nodes.len();
        let mut trusts: Vec<Score> = Vec::new();
        let mut ends: usize = 0;
        let mut i: usize = 0;
        while i < n
            invariant
                i <= n,
                n == self.nodes.keys().len(),
                self.wf(),
                trusts@ == trusts_of(self.nodes.values().take(i as int)),
                ends == connection_ends(self.nodes.values(), i as int),
            decreases n - i,
        {
            let node = self.nodes.value_at(i);
            trusts.push(node.trust);
            proof {
                assert(trusts@ =~= trusts_of(self.nodes.values().take(i as int + 1)));
            }
            let held = node.connections.len();
            ends = if held > usize::MAX - ends {
                usize::MAX
            } else {
                ends + held
            };
            i += 1;
        }
        proof {
            assert(self.nodes.values().take(n as int) =~= self.nodes.values());
        }
        if n == 0 {
            return NetworkStats {
                node_count: n,
                connection_count: ends / 2,
                mean_trust: Real::zero(),
                mean_connections: Real::zero(),
                tick: self.tick,
            };
        }
        let mean = kernel.mean(&trusts);
        let mean_connections = kernel.ratio(ends, n);
        let stats = NetworkStats {
            node_count: n,
            connection_count: ends / 2,
            mean_trust: mean.value(),
            mean_connections,
            tick: self.tick,
        };
        proof {
            assert(means_by(kernel, self.nodes.values(), trusts, mean, stats));
        }
        stats
    }
}

/// Whether the means of the figures on a network are those that the kernel
/// gives: the mean trust is the mean `mean` that it gives for the trusts
/// `given` of the nodes, in their order, and the mean number of connections
/// is the quotient that it gives for the number of connections that the
/// nodes hold and the number of nodes.
pub open spec fn means_by<A: Arithmetic>(
    kernel: &A,
    nodes: Seq<Node>,
    given: Vec<Score>,
    mean: Score,
    stats: NetworkStats,
) -> bool {
    &&& given@ == trusts_of(nodes)
    &&& call_ensures(A::mean, (kernel, &given), mean)
    &&& stats.mean_trust.0 == mean.rank()
    &&& call_ensures(
        A::ratio,
        (kernel, connection_ends(nodes, nodes.len() as int), nodes.len() as usize),
        stats.mean_connections,
    )
}

/// The number of connections that the first `upto` nodes hold. A number
/// that has reached the largest that can be held stays there.
pub open spec fn connection_ends(nodes: Seq<Node>, upto: int) -> usize
    decreases upto,
{
    if upto <= 0 {
        0
    } else {
        let before = connection_ends(nodes, upto - 1);
        let held = nodes[upto - 1].connections.keys().len();
        if before + held > usize::MAX {
            usize::MAX
        } else {
            (before + held) as usize
        }
    }
}

impl Default for Network {
    /// A network without nodes, at tick zero.
    fn default() -> (n: Self)
        ensures
            n.wf(),
            n.nodes.keys().len() == 0,
            n.tick == 0,
    {
        Self::new()
    }
}

/// The tick after a tick. The count of ticks stays at the largest number
/// that it can hold.
pub open spec fn next_tick(tick: u64) -> u64 {
    if tick < u64::MAX {
        (tick + 1) as u64
    } else {
        tick
    }
}

/// Whether `v` is a member of the cluster, and the cluster one that a scan
/// raises signals about with the given confidence: a class of the network
/// under connection, of three nodes or more, with the counts and the
/// confidence of its members in the network, that looks like collusion.
pub open spec fn in_cluster(
    nodes: Table<NodeId, Node>,
    cluster: CollusionCluster,
    v: NodeId,
    confidence: Score,
) -> bool {
    &&& cluster.members@.contains(v)
    &&& is_cluster(nodes, cluster.members@)
    &&& cluster.members@.len() >= CLUSTER_SIZE
    &&& counted(nodes, cluster)
    &&& cluster.suspicious()
    &&& confidence == cluster.confidence
}

/// Whether a scan of the network has grounds to suspect `v` of a threat of
/// the given kind, with the given confidence.
///
/// A node of the network is suspected as a strategic adversary only with a
/// hundred remembered exchanges or more, and of quality fraud only with more
/// than thirty, and then with the confidence for it. A Sybil is suspected
/// in a node of the network with fewer different recent partners than the
/// diversity threshold asks for, and in a member of a cluster that looks
/// like collusion. A finding of the detectors counts with a confidence above
/// one half only. Nothing else is suspected.
pub open spec fn suspected(
    nodes: Table<NodeId, Node>,
    v: NodeId,
    threat_type: ThreatType,
    confidence: Score,
) -> bool {
    match threat_type {
        ThreatType::Strategic => nodes.has(v) && nodes.at(v).history.entries().len()
            >= STRATEGIC_HISTORY && confidence.rank() > rank_of(DETECTION_CONFIDENCE),
        ThreatType::QualityFraud => nodes.has(v) && nodes.at(v).history.entries().len()
            > FRAUD_HISTORY && confidence.rank() == rank_of(FRAUD_CONFIDENCE),
        ThreatType::Sybil => (nodes.has(v) && nodes.at(v).diversity() < DIVERSITY_PARTNERS
            && confidence.rank() > rank_of(DETECTION_CONFIDENCE)) || exists|
            cluster: CollusionCluster,
        | #[trigger] in_cluster(nodes, cluster, v, confidence),
        _ => false,
    }
}

/// Whether a signal is one that a scan of the network raises at the time
/// `now`: a fresh signal of a specific threat, by which the node that is
/// suspected is named as its own origin, and for which the scan has grounds.
pub open spec fn signalled(nodes: Table<NodeId, Node>, signal: DefenseSignal, now: Timestamp) -> bool {
    &&& signal.wf()
    &&& signal.signal_type == SignalType::SpecificThreat
    &&& signal.hops == 0
    &&& signal.timestamp == now
    &&& signal.origin == signal.threat
    &&& signal.sender == signal.threat
    &&& signal.signature@ == Seq::new(64, |i: int| 0u8)
    &&& suspected(nodes, signal.threat, signal.threat_type, signal.confidence)
}

/// Whether an event is a signal that a scan of the network raises at the
/// time `now`.
pub open spec fn raised(nodes: Table<NodeId, Node>, e: Event, now: Timestamp) -> bool {
    e matches Event::DefenseSignal { signal } && signalled(nodes, signal, now)
}

/// The events by which signals come to wait, in the order of the signals.
pub open spec fn as_events(signals: Seq<DefenseSignal>) -> Seq<Event> {
    signals.map_values(|signal: DefenseSignal| Event::DefenseSignal { signal })
}

/// Whether the kernel gave the figures for the scan of a node.
///
/// The figures on the quality of the two halves of its history are asked of
/// the kernel for a history of a hundred exchanges or more, with the
/// qualities of the more recent half and of the earlier half. The
/// confidence and the words of a finding of low diversity are asked for the
/// number of its different recent partners. The variance and the mean of
/// the quality are those of its most recent exchanges.
pub open spec fn figured<A: Arithmetic>(
    kernel: &A,
    node: Node,
    recent: Vec<Score>,
    early: Vec<Score>,
    figures: QualityFigures,
    diversity: (Score, String),
    variance: Real,
    mean: Score,
) -> bool {
    let entries = node.history.entries();
    &&& entries.len() >= STRATEGIC_HISTORY ==> {
        &&& recent@ == crate::interaction::qualities_of(entries.take(entries.len() as int / 2))
        &&& early@ == crate::interaction::qualities_of(entries.skip(entries.len() as int / 2))
        &&& call_ensures(A::quality_figures, (kernel, &recent, &early), figures)
    }
    &&& call_ensures(A::diversity_finding, (kernel, node.diversity() as usize), diversity)
    &&& quality_variance_by(kernel, node.history.latest(FRAUD_WINDOW as nat), variance)
    &&& mean_quality_by(kernel, node.history.latest(FRAUD_WINDOW as nat), mean)
}

/// Whether `all` are the findings of the three detectors about a node, by
/// the figures that the kernel gives for it.
pub open spec fn findings_by<A: Arithmetic>(kernel: &A, node: Node, all: Seq<DetectionResult>) -> bool {
    exists|
        recent: Vec<Score>,
        early: Vec<Score>,
        figures: QualityFigures,
        diversity: (Score, String),
        variance: Real,
        mean: Score,
    | #[trigger]
        figured(kernel, node, recent, early, figures, diversity, variance, mean) && all_findings(
            node,
            node.history,
            figures,
            diversity.0,
            diversity.1@,
            variance,
            mean,
            all,
        )
}

/// Whether `signal` is the signal that a scan raises at the time `now` for
/// the finding `r`: a fresh signal of a specific threat by which the node of
/// the finding names itself, of the kind and the confidence of the finding,
/// with the digest of the words of the finding as its evidence.
pub open spec fn signal_of(r: DetectionResult, now: Timestamp, signal: DefenseSignal) -> bool {
    &&& r.threat_type == Some(signal.threat_type)
    &&& signal.signal_type == SignalType::SpecificThreat
    &&& signal.sender == r.node_id
    &&& signal.origin == r.node_id
    &&& signal.threat == r.node_id
    &&& signal.confidence == r.confidence
    &&& signal.evidence@ == blake3_digest(vstd::utf8::encode_utf8(r.reason@))
    &&& signal.hops == 0
    &&& signal.timestamp == now
    &&& signal.signature@ == Seq::new(64, |i: int| 0u8)
}

/// Whether `part` are the signals that a scan raises about a node at the
/// time `now`: one for each finding of a threat that the detectors make by
/// the figures of the kernel, in the order strategic adversary, low
/// diversity, quality fraud.
pub open spec fn node_scanned<A: Arithmetic>(
    kernel: &A,
    node: Node,
    now: Timestamp,
    part: Seq<DefenseSignal>,
) -> bool {
    exists|all: Seq<DetectionResult>| #[trigger]
        findings_by(kernel, node, all) && part.len() == all.filter(finds_threat()).len()
            && forall|k: int|
            0 <= k < part.len() ==> signal_of(all.filter(finds_threat())[k], now, #[trigger] part[k])
}

/// Whether `parts` are the signals that a scan raises about the nodes, node
/// by node.
pub open spec fn nodes_scanned<A: Arithmetic>(
    kernel: &A,
    nodes: Seq<Node>,
    now: Timestamp,
    parts: Seq<Seq<DefenseSignal>>,
) -> bool {
    &&& parts.len() == nodes.len()
    &&& forall|i: int|
        0 <= i < parts.len() ==> node_scanned(kernel, nodes[i], now, #[trigger] parts[i])
}

/// Whether `rating` is the mean mutual rating of the members by the kernel:
/// zero where no member keeps a quality average of another, and else the
/// mean that the kernel gives for the quality averages that they keep.
pub open spec fn rated_by<A: Arithmetic>(
    kernel: &A,
    nodes: Table<NodeId, Node>,
    members: Seq<NodeId>,
    rating: Score,
) -> bool {
    let ratings = mutual_ratings(nodes, members, members.len() as int);
    if ratings.len() == 0 {
        rating.rank() == 0
    } else {
        exists|given: Vec<Score>| #[trigger]
            call_ensures(A::mean, (kernel, &given), rating) && given@ == ratings
    }
}

/// Whether the cluster was looked at by the kernel and passed: it is too
/// small to be looked at for collusion, or its figures do not look like
/// collusion.
pub open spec fn passed_by<A: Arithmetic>(
    kernel: &A,
    nodes: Table<NodeId, Node>,
    cluster: CollusionCluster,
) -> bool {
    &&& is_cluster(nodes, cluster.members@)
    &&& cluster.members@.len() < CLUSTER_SIZE || (counted(nodes, cluster) && rated_by(
        kernel,
        nodes,
        cluster.members@,
        cluster.mutual_rating,
    ) && !cluster.suspicious())
}

/// Whether `found` are the clusters of the network that look like collusion
/// by the kernel: each is a class of the network under connection, of three
/// nodes or more, with the figures of its members, and looks like collusion;
/// no node is in two of them; and every other node of the network is in a
/// cluster that was passed.
pub open spec fn clusters_found<A: Arithmetic>(
    kernel: &A,
    nodes: Table<NodeId, Node>,
    found: Seq<CollusionCluster>,
) -> bool {
    &&& forall|i: int|
        0 <= i < found.len() ==> {
            &&& is_cluster(nodes, (#[trigger] found[i]).members@)
            &&& found[i].members@.len() >= CLUSTER_SIZE
            &&& counted(nodes, found[i])
            &&& rated_by(kernel, nodes, found[i].members@, found[i].mutual_rating)
            &&& found[i].suspicious()
        }
    &&& forall|i: int, j: int, v: NodeId|
        0 <= i < j < found.len() ==> !(#[trigger] found[i].members@.contains(v)
            && #[trigger] found[j].members@.contains(v))
    &&& forall|v: NodeId|
        occurs(nodes, v) ==> (exists|i: int|
            0 <= i < found.len() && (#[trigger] found[i]).members@.contains(v)) || (exists|
            cluster: CollusionCluster,
        | #[trigger] passed_by(kernel, nodes, cluster) && cluster.members@.contains(v))
}

/// Whether `signal` is the signal that a scan raises at the time `now` about
/// a member of a cluster that looks like collusion: a fresh signal of a
/// specific threat by which the member names itself as a Sybil, with the
/// confidence of the cluster, and with the digest of the words that the
/// kernel gives for the cluster as its evidence.
pub open spec fn member_signal<A: Arithmetic>(
    kernel: &A,
    cluster: CollusionCluster,
    member: NodeId,
    now: Timestamp,
    signal: DefenseSignal,
) -> bool {
    &&& exists|text: String| #[trigger]
        call_ensures(A::collusion_evidence, (kernel, &cluster), text) && signal.evidence@
            == blake3_digest(vstd::utf8::encode_utf8(text@))
    &&& signal.signal_type == SignalType::SpecificThreat
    &&& signal.sender == member
    &&& signal.origin == member
    &&& signal.threat == member
    &&& signal.threat_type == ThreatType::Sybil
    &&& signal.confidence == cluster.confidence
    &&& signal.hops == 0
    &&& signal.timestamp == now
    &&& signal.signature@ == Seq::new(64, |i: int| 0u8)
}

/// Whether `part` are the signals that a scan raises about a cluster: one
/// about each member, in the order of the members.
pub open spec fn cluster_signalled<A: Arithmetic>(
    kernel: &A,
    cluster: CollusionCluster,
    now: Timestamp,
    part: Seq<DefenseSignal>,
) -> bool {
    &&& part.len() == cluster.members@.len()
    &&& forall|m: int|
        0 <= m < part.len() ==> member_signal(
            kernel,
            cluster,
            cluster.members@[m],
            now,
            #[trigger] part[m],
        )
}

/// Whether `parts` are the signals that a scan raises about the clusters,
/// cluster by cluster.
pub open spec fn clusters_signalled<A: Arithmetic>(
    kernel: &A,
    clusters: Seq<CollusionCluster>,
    now: Timestamp,
    parts: Seq<Seq<DefenseSignal>>,
) -> bool {
    &&& parts.len() == clusters.len()
    &&& forall|i: int|
        0 <= i < parts.len() ==> cluster_signalled(kernel, clusters[i], now, #[trigger] parts[i])
}

/// Whether `signals` are what a scan of the network raises at the time
/// `now`, by the arithmetic of `kernel`: the signals about the nodes, in the
/// order of the nodes, and behind them the signals about the members of the
/// clusters that look like collusion, in the order of the clusters.
pub open spec fn scan_raised<A: Arithmetic>(
    kernel: &A,
    nodes: Table<NodeId, Node>,
    now: Timestamp,
    signals: Seq<DefenseSignal>,
) -> bool {
    exists|
        by_nodes: Seq<Seq<DefenseSignal>>,
        clusters: Seq<CollusionCluster>,
        by_clusters: Seq<Seq<DefenseSignal>>,
    |
        #![trigger nodes_scanned(kernel, nodes.values(), now, by_nodes), clusters_signalled(kernel, clusters, now, by_clusters)]
        nodes_scanned(kernel, nodes.values(), now, by_nodes) && clusters_found(
            kernel,
            nodes,
            clusters,
        ) && clusters_signalled(kernel, clusters, now, by_clusters) && signals
            == by_nodes.flatten() + by_clusters.flatten()
}

/// The signals that a scan raises at the time `now` about the node at the
/// place `i` of the table.
fn scan_node<A: Arithmetic>(nodes: &Table<NodeId, Node>, i: usize, kernel: &A, now: Timestamp) -> (part:
    Vec<DefenseSignal>)
    requires
        nodes_wf(*nodes),
        i < nodes.keys().len(),
    ensures
        node_scanned(kernel, nodes.values()[i as int], now, part@),
        forall|k: int| 0 <= k < part@.len() ==> signalled(*nodes, #[trigger] part@[k], now),
{
    let node = nodes.value_at(i);
    proof {
        nodes.lemma_place(i as int);
    }
    let (recent, early) = if node.history.len() >= STRATEGIC_HISTORY {
        let (recent, early) = node.history.halves();
        (qualities(recent), qualities(early))
    } else {
        (Vec::new(), Vec::new())
    };
    let figures = if node.history.len() >= STRATEGIC_HISTORY {
        kernel.quality_figures(&recent, &early)
    } else {
        QualityFigures::unknown()
    };
    let ghost held_figures = figures;
    let diversity = kernel.diversity_finding(node.diversity_hundredths());
    let ghost held_diversity = diversity;
    let variance = quality_variance(kernel, &node.history, FRAUD_WINDOW);
    let mean = mean_quality(kernel, &node.history, FRAUD_WINDOW);
    proof {
        assert(figured(kernel, *node, recent, early, held_figures, held_diversity, variance, mean));
    }
    let threats = detect_all_threats(
        node,
        &node.history,
        figures,
        diversity.0,
        diversity.1,
        variance,
        mean,
    );
    let ghost all = choose|all: Seq<DetectionResult>| #[trigger]
        all_findings(
            *node,
            node.history,
            held_figures,
            held_diversity.0,
            held_diversity.1@,
            variance,
            mean,
            all,
        ) && threats@ == all.filter(finds_threat());
    proof {
        assert(findings_by(kernel, *node, all));
    }
    let mut part: Vec<DefenseSignal> = Vec::new();
    let mut t: usize = 0;
    while t < threats.len()
        invariant
            t <= threats.len(),
            nodes.has(node.id),
            nodes.at(node.id) == *node,
            forall|k: int| 0 <= k < threats.len() ==> (#[trigger] threats[k]).found(),
            forall|k: int|
                0 <= k < threats.len() ==> grounded(*node, node.history, #[trigger] threats[k]),
            part@.len() == t,
            forall|k: int| 0 <= k < t ==> signal_of(threats@[k], now, #[trigger] part@[k]),
            forall|k: int| 0 <= k < part@.len() ==> signalled(*nodes, #[trigger] part@[k], now),
        decreases threats.len() - t,
    {
        let detection = &threats[t];
        if detection.is_threat() {
            if let Some(threat_type) = detection.threat_type {
                let evidence = crate::types::Hash::compute(detection.reason.as_str().as_bytes());
                let ghost held = part@;
                let signal = DefenseSignal::new(
                    node.id,
                    detection.node_id,
                    threat_type,
                    detection.confidence,
                    evidence,
                    now,
                );
                part.push(signal);
                proof {
                    assert(grounded(*node, node.history, threats[t as int]));
                    assert(signalled(*nodes, signal, now));
                    assert(signal_of(threats@[t as int], now, signal));
                    assert forall|k: int| 0 <= k < part@.len() implies signalled(
                        *nodes,
                        #[trigger] part@[k],
                        now,
                    ) by {
                        if k < held.len() {
                            assert(part@[k] == held[k]);
                        }
                    }
                    assert forall|k: int| 0 <= k < t + 1 implies signal_of(
                        threats@[k],
                        now,
                        #[trigger] part@[k],
                    ) by {
                        if k < t {
                            assert(part@[k] == held[k]);
                        }
                    }
                }
            }
        }
        t += 1;
    }
    part
}

/// The signals that a scan raises at the time `now` about the members of a
/// cluster that looks like collusion.
fn cluster_signals<A: Arithmetic>(
    nodes: &Table<NodeId, Node>,
    cluster: &CollusionCluster,
    kernel: &A,
    now: Timestamp,
) -> (part: Vec<DefenseSignal>)
    requires
        is_cluster(*nodes, cluster.members@),
        cluster.members@.len() >= CLUSTER_SIZE,
        counted(*nodes, *cluster),
        cluster.suspicious(),
    ensures
        cluster_signalled(kernel, *cluster, now, part@),
        forall|k: int| 0 <= k < part@.len() ==> signalled(*nodes, #[trigger] part@[k], now),
{
    let mut part: Vec<DefenseSignal> = Vec::new();
    if cluster.is_suspicious() {
        let mut m: usize = 0;
        while m < cluster.members.len()
            invariant
                m <= cluster.members.len(),
                is_cluster(*nodes, cluster.members@),
                cluster.members@.len() >= CLUSTER_SIZE,
                counted(*nodes, *cluster),
                cluster.suspicious(),
                part@.len() == m,
                forall|k: int|
                    0 <= k < m ==> member_signal(
                        kernel,
                        *cluster,
                        cluster.members@[k],
                        now,
                        #[trigger] part@[k],
                    ),
                forall|k: int| 0 <= k < part@.len() ==> signalled(*nodes, #[trigger] part@[k], now),
            decreases cluster.members.len() - m,
        {
            let member = cluster.members[m];
            let text = kernel.collusion_evidence(cluster);
            let evidence = crate::types::Hash::compute(text.as_str().as_bytes());
            let ghost held = part@;
            let signal = DefenseSignal::new(
                member,
                member,
                ThreatType::Sybil,
                cluster.confidence,
                evidence,
                now,
            );
            part.push(signal);
            proof {
                assert(cluster.members@[m as int] == member);
                assert(call_ensures(A::collusion_evidence, (kernel, cluster), text));
                assert(member_signal(kernel, *cluster, member, now, signal));
                assert(in_cluster(*nodes, *cluster, member, cluster.confidence));
                assert(signalled(*nodes, signal, now));
                assert forall|k: int| 0 <= k < part@.len() implies signalled(
                    *nodes,
                    #[trigger] part@[k],
                    now,
                ) by {
                    if k < held.len() {
                        assert(part@[k] == held[k]);
                    }
                }
                assert forall|k: int| 0 <= k < m + 1 implies member_signal(
                    kernel,
                    *cluster,
                    cluster.members@[k],
                    now,
                    #[trigger] part@[k],
                ) by {
                    if k < m {
                        assert(part@[k] == held[k]);
                    }
                }
            }
            m += 1;
        }
    }
    part
}

/// Whether `ends` are the nodes `begins` after the node `id` took part in an
/// exchange with `partner` at the time `now` (see `took_part_as`). A node
/// that is not in the network takes no part, and no other node changes.
pub open spec fn ended<A: Arithmetic>(
    kernel: &A,
    begins: Table<NodeId, Node>,
    ends: Table<NodeId, Node>,
    id: NodeId,
    partner: NodeId,
    observed: Observation,
    capability: Option<CapabilityId>,
    began: bool,
    now: Timestamp,
) -> bool {
    &&& ends.keys() == begins.keys()
    &&& ends.values().len() == begins.values().len()
    &&& forall|other: NodeId|
        other != id && #[trigger] begins.has(other) ==> ends.at(other) == begins.at(other)
    &&& if begins.has(id) {
        took_part_as(kernel, begins.at(id), ends.at(id), partner, observed, capability, began, now)
    } else {
        ends.values() == begins.values()
    }
}

/// Whether `ends` are the nodes `begins` after an exchange that `from` began
/// with `to` at the time `now`: first the node that began it takes part,
/// then the node that it was begun with.
pub open spec fn exchanged_between<A: Arithmetic>(
    kernel: &A,
    begins: Table<NodeId, Node>,
    ends: Table<NodeId, Node>,
    from: NodeId,
    to: NodeId,
    observed: Observation,
    capability: Option<CapabilityId>,
    now: Timestamp,
) -> bool {
    exists|mid: Table<NodeId, Node>| #[trigger]
        ended(kernel, begins, mid, from, to, observed, capability, true, now) && ended(
            kernel,
            mid,
            ends,
            to,
            from,
            observed,
            capability,
            false,
            now,
        )
}

/// Whether `after` is the node `before` after a signal that names it as the
/// threat was delivered to it at the time `now`: its belief about itself is
/// put at the level `level` that the kernel gives for the belief `held` and
/// the confidence of the signal, with the evidence of the signal added.
pub open spec fn delivered<A: Arithmetic>(
    kernel: &A,
    before: Node,
    after: Node,
    signal: DefenseSignal,
    now: Timestamp,
    held: Score,
    level: Score,
) -> bool {
    &&& held.rank() == before.threat_rank(signal.threat)
    &&& call_ensures(A::believe, (kernel, held, signal.confidence), level)
    &&& Node::believed(
        before,
        after,
        signal.threat,
        signal.threat_type,
        level,
        Some(signal.evidence),
        now,
    )
}

/// Whether `ends` are the nodes `begins` after a signal was delivered at the
/// time `now` to the node that it names as the threat (see `delivered`).
/// Where that node is not in the network, nothing changes.
pub open spec fn informed<A: Arithmetic>(
    kernel: &A,
    begins: Table<NodeId, Node>,
    ends: Table<NodeId, Node>,
    signal: DefenseSignal,
    now: Timestamp,
) -> bool {
    &&& ends.keys() == begins.keys()
    &&& ends.values().len() == begins.values().len()
    &&& forall|other: NodeId|
        other != signal.threat && #[trigger] begins.has(other) ==> ends.at(other) == begins.at(
            other,
        )
    &&& if begins.has(signal.threat) {
        exists|held: Score, level: Score| #[trigger]
            delivered(
                kernel,
                begins.at(signal.threat),
                ends.at(signal.threat),
                signal,
                now,
                held,
                level,
            )
    } else {
        ends.values() == begins.values()
    }
}

/// Whether `after` is the network `before` after an event happened at the
/// time `now`.
///
/// An exchange is taken in by the node that began it and then by the node
/// that it was begun with, as far as they are in the network, and is
/// recorded. A defense signal is delivered to the node that it names as the
/// threat. A node that joins is put into the network; where it joins with a
/// behaviour, it gets the agent for it, and the node and every other node
/// are connected to each other. A node that leaves is taken out, with its
/// agent. What waits is as it was.
pub open spec fn happened<A: Arithmetic>(
    kernel: &A,
    before: Network,
    event: Event,
    after: Network,
    now: Timestamp,
) -> bool {
    &&& after.tick == before.tick
    &&& after.event_queue == before.event_queue
    &&& after.metrics.trust_history == before.metrics.trust_history
    &&& after.metrics.detection_events == before.metrics.detection_events
    &&& match event {
        Event::Interaction { from, to, volume, quality, tone, capability } => {
            &&& exchanged_between(
                kernel,
                before.nodes,
                after.nodes,
                from,
                to,
                (Observation {
                    volume,
                    exchange_in: Real(ONE_BITS),
                    exchange_out: Real(ONE_BITS),
                    quality,
                    tone,
                }),
                capability,
                now,
            )
            &&& MetricsCollector::exchange_recorded(before.metrics, after.metrics, from, to, quality)
            &&& after.nodes.keys() == before.nodes.keys()
            &&& after.agents == before.agents
            &&& before.nodes.has(from) ==> after.nodes.at(from).connections.has(to)
            &&& before.nodes.has(to) ==> after.nodes.at(to).connections.has(from)
            &&& forall|other: NodeId|
                other != from && other != to && before.nodes.has(other) ==> after.nodes.at(other) == before.nodes.at(other)
            &&& after.metrics.interaction_counts.has(
                crate::sim::metrics::pair_of(from, to),
            )
        },
        Event::DefenseSignal { signal } => {
            &&& informed(kernel, before.nodes, after.nodes, signal, now)
            &&& after.nodes.keys() == before.nodes.keys()
            &&& after.agents == before.agents
            &&& after.metrics == before.metrics
            &&& before.nodes.has(signal.threat) ==> after.nodes.at(
                signal.threat,
            ).threat_rank(signal.threat) >= before.nodes.at(signal.threat).threat_rank(
                signal.threat,
            )
            &&& forall|other: NodeId|
                other != signal.threat && before.nodes.has(other) ==> after.nodes.at(other) == before.nodes.at(other)
        },
        Event::NodeJoin { node, agent_type } => {
            &&& after.nodes.has(node.id)
            &&& after.metrics == before.metrics
            &&& forall|other: NodeId|
                other != node.id ==> after.nodes.has(other) == before.nodes.has(
                    other,
                )
            &&& match agent_type {
                Some(behaviour) => {
                    &&& after.agents.has(node.id)
                    &&& Agent::is_for(behaviour, after.agents.at(node.id))
                    &&& joined_to_all(
                        after.nodes,
                        node.id,
                        after.nodes.keys().len() as int,
                    )
                },
                None => after.nodes.at(node.id) == node && after.agents == before.agents,
            }
        },
        Event::NodeLeave { node_id } => {
            &&& !after.nodes.has(node_id)
            &&& !after.agents.has(node_id)
            &&& after.metrics == before.metrics
            &&& forall|other: NodeId|
                other != node_id ==> after.nodes.has(other) == before.nodes.has(
                    other,
                )
            &&& forall|other: NodeId|
                other != node_id && before.nodes.has(other) ==> after.nodes.at(other) == before.nodes.at(other)
        },
    }
}

/// Whether `after` is as `before` but for the events that wait: the nodes,
/// the agents, the tick and what was recorded are the same.
pub open spec fn same_state(before: Network, after: Network) -> bool {
    &&& after.nodes == before.nodes
    &&& after.agents == before.agents
    &&& after.tick == before.tick
    &&& after.metrics == before.metrics
}

/// Whether `after` is the network `before` after the events happened at the
/// time `now`, one after the other in their order (see `happened`).
pub open spec fn events_happened<A: Arithmetic>(
    kernel: &A,
    before: Network,
    events: Seq<Event>,
    after: Network,
    now: Timestamp,
) -> bool
    decreases events.len(),
{
    if events.len() == 0 {
        same_state(before, after)
    } else {
        exists|mid: Network| #[trigger]
            happened(kernel, mid, events.last(), after, now) && events_happened(
                kernel,
                before,
                events.drop_last(),
                mid,
                now,
            )
    }
}

/// Whether `after` is the network `before` after every node was looked over
/// at the time `now` (see `looked_over`). Nothing else changes.
pub open spec fn maintained<A: Arithmetic>(
    kernel: &A,
    before: Network,
    after: Network,
    now: Timestamp,
) -> bool {
    &&& after.nodes.keys() == before.nodes.keys()
    &&& after.nodes.values().len() == before.nodes.values().len()
    &&& forall|i: int|
        0 <= i < before.nodes.values().len() ==> looked_over(
            kernel,
            before.nodes.values()[i],
            #[trigger] after.nodes.values()[i],
            now,
        )
    &&& after.agents == before.agents
    &&& after.tick == before.tick
    &&& after.event_queue@ == before.event_queue@
    &&& after.metrics == before.metrics
}

/// Whether `after` is the network `before` after it was scanned for
/// adversaries at the time `now`: the signals that the scan raises wait
/// behind what waited (see `scan_raised`). Nothing else changes.
pub open spec fn scanned<A: Arithmetic>(
    kernel: &A,
    before: Network,
    after: Network,
    now: Timestamp,
) -> bool {
    &&& after.nodes == before.nodes
    &&& after.agents == before.agents
    &&& after.tick == before.tick
    &&& after.metrics == before.metrics
    &&& exists|signals: Seq<DefenseSignal>| #[trigger]
        scan_raised(kernel, before.nodes, now, signals) && after.event_queue@
            == before.event_queue@ + as_events(signals)
}

/// Whether `after` is the network `before` after the trust in every node
/// was put where its figures put it (see `retrusted`). Nothing else changes.
pub open spec fn trusts_updated<A: Arithmetic>(kernel: &A, before: Network, after: Network) -> bool {
    &&& after.nodes.keys() == before.nodes.keys()
    &&& after.nodes.values().len() == before.nodes.values().len()
    &&& forall|i: int|
        0 <= i < after.nodes.values().len() ==> retrusted(
            kernel,
            before.nodes.values()[i],
            #[trigger] after.nodes.values()[i],
        )
    &&& after.agents == before.agents
    &&& after.tick == before.tick
    &&& after.event_queue@ == before.event_queue@
    &&& after.metrics == before.metrics
}

/// Whether `after` is the network `before` after the trust in its nodes was
/// recorded (see `collected`). Nothing else changes.
pub open spec fn metrics_collected<A: Arithmetic>(kernel: &A, before: Network, after: Network) -> bool {
    &&& after.nodes == before.nodes
    &&& after.agents == before.agents
    &&& after.tick == before.tick
    &&& after.event_queue@ == before.event_queue@
    &&& collected(kernel, before.nodes.values(), before.tick, before.metrics, after.metrics)
}

/// Whether `parts` can be what the agents did in a tick, agent by agent:
/// each event is an exchange that the node of its agent begins, and an agent
/// whose node is not in the network does nothing.
pub open spec fn acted_by(
    agents: Table<NodeId, Agent>,
    nodes: Table<NodeId, Node>,
    parts: Seq<Seq<Event>>,
) -> bool {
    &&& parts.len() == agents.keys().len()
    &&& forall|a: int| 0 <= a < parts.len() ==> done_by(nodes, agents.keys()[a], #[trigger] parts[a])
}

/// Whether `part` can be what the agent of the node `id` did in a tick: each
/// event is an exchange that the node begins, and there is none where the
/// node is not in the network.
pub open spec fn done_by(nodes: Table<NodeId, Node>, id: NodeId, part: Seq<Event>) -> bool {
    &&& part.len() > 0 ==> nodes.has(id)
    &&& forall|k: int| 0 <= k < part.len() ==> begun_by(#[trigger] part[k], id) && part[k].wf()
}

/// Whether `after` is the network `before` one tick later, by way of the
/// networks in between.
///
/// The tick is counted, and the agents act: what they do (`parts`) waits
/// behind what waited, which makes `begun`. Every event that waits happens,
/// in order, which makes `m1`, where nothing waits. Every node is looked
/// over, which makes `m2`. At every hundredth tick the network is scanned,
/// which makes `m3`. The trust in every node is put where its figures put
/// it, which makes `m4`, and is recorded.
pub open spec fn tick_steps<A: Arithmetic>(
    kernel: &A,
    before: Network,
    after: Network,
    now: Timestamp,
    parts: Seq<Seq<Event>>,
    begun: Network,
    m1: Network,
    m2: Network,
    m3: Network,
    m4: Network,
) -> bool {
    &&& acted_by(before.agents, before.nodes, parts)
    &&& begun.nodes == before.nodes
    &&& begun.agents == before.agents
    &&& begun.metrics == before.metrics
    &&& begun.tick == next_tick(before.tick)
    &&& begun.event_queue@ == before.event_queue@ + parts.flatten()
    &&& events_happened(kernel, begun, begun.event_queue@, m1, now)
    &&& m1.event_queue@.len() == 0
    &&& maintained(kernel, m1, m2, now)
    &&& if m2.tick % ADVERSARY_INTERVAL == 0 {
        scanned(kernel, m2, m3, now)
    } else {
        same_state(m2, m3) && m3.event_queue@ == m2.event_queue@
    }
    &&& trusts_updated(kernel, m3, m4)
    &&& metrics_collected(kernel, m4, after)
}

/// Whether `after` is the network `before` one tick later, at the time
/// `now` and by the arithmetic of `kernel` (see `tick_steps`).
pub open spec fn ticked<A: Arithmetic>(kernel: &A, before: Network, after: Network, now: Timestamp) -> bool {
    exists|
        parts: Seq<Seq<Event>>,
        begun: Network,
        m1: Network,
        m2: Network,
        m3: Network,
        m4: Network,
    | #[trigger] tick_steps(kernel, before, after, now, parts, begun, m1, m2, m3, m4)
}

/// Whether the network is one that is made for the given number of nodes
/// and the given capabilities: at tick zero, with nothing waiting, no agent
/// and nothing recorded; its nodes stand under the identifiers of the
/// indices from zero, and each has every capability; connections go both
/// ways, and none goes from a node to itself.
pub open spec fn configured(node_count: usize, capabilities: Seq<Capability>, network: Network) -> bool {
    &&& network.tick == 0
    &&& network.event_queue@.len() == 0
    &&& network.agents.keys().len() == 0
    &&& network.metrics.trust_history@.len() == 0
    &&& network.nodes.keys().len() == node_count
    &&& forall|i: int|
        0 <= i < node_count ==> (#[trigger] network.nodes.keys()[i])@ == crate::types::index_bytes(
            i as u64,
        )
    &&& equipped(network.nodes, capabilities)
    &&& mutual(network.nodes)
}

/// Whether the node at the place `x` of the table has a connection to the
/// node at the place `y`.
pub open spec fn tied(nodes: Table<NodeId, Node>, x: int, y: int) -> bool {
    nodes.values()[x].connections.has(nodes.keys()[y])
}

/// Whether it was drawn that the nodes at the places `x` and `y`, of which
/// `x` is the earlier, are connected: the row of `x` says so at the place of
/// `y`. A draw that is not there counts as one against.
pub open spec fn linked(links: Seq<Vec<bool>>, x: int, y: int) -> bool {
    0 <= x < links.len() && 0 <= y < links[x]@.len() && links[x]@[y]
}

/// Whether the pair of places `x` and `y` is connected once the pairs before
/// the pair of `a` and `b` were seen to: it comes before that pair, in the
/// order of the rows and then of the places, and it was drawn that the two
/// are connected.
pub open spec fn drawn_by(links: Seq<Vec<bool>>, a: int, b: int, x: int, y: int) -> bool {
    (x < a || (x == a && y < b)) && linked(links, x, y)
}

/// Whether the nodes are connected as it was drawn, as far as the pairs
/// before the pair of `a` and `b` go: two nodes of such a pair are connected
/// to each other exactly when that was drawn for them, and no other two
/// nodes are connected.
pub open spec fn wired(nodes: Table<NodeId, Node>, links: Seq<Vec<bool>>, a: int, b: int) -> bool {
    forall|x: int, y: int|
        0 <= x < y < nodes.keys().len() ==> #[trigger] tied(nodes, x, y) == drawn_by(
            links,
            a,
            b,
            x,
            y,
        ) && tied(nodes, y, x) == drawn_by(links, a, b, x, y)
}

/// Whether every connection of every node is fresh: made at the time `now`,
/// of the initial weight, and with nothing gone over it.
pub open spec fn all_fresh(nodes: Table<NodeId, Node>, now: Timestamp) -> bool {
    forall|i: int, k: NodeId|
        0 <= i < nodes.values().len() && #[trigger] nodes.values()[i].connections.has(k) ==> {
            &&& nodes.values()[i].connections.at(k)@.is_fresh(k, now)
            &&& nodes.values()[i].connections.at(k).w.rank() == W_INIT_BITS
        }
}

/// Whether `after` is the node `before` after a tick in which nothing
/// happened to it but that it was looked over at the time `now` and its
/// trust was put where its figures put it.
pub open spec fn kept<A: Arithmetic>(kernel: &A, before: Node, after: Node, now: Timestamp) -> bool {
    exists|mid: Node| #[trigger] looked_over(kernel, before, mid, now) && retrusted(kernel, mid, after)
}

/// A tick of a network without agents, in which no event waits, adds no
/// node and no connection: every node is looked over, and its trust is put
/// where its figures put it.
pub proof fn lemma_quiet_tick<A: Arithmetic>(kernel: &A, before: Network, after: Network, now: Timestamp)
    requires
        ticked(kernel, before, after, now),
        before.agents.keys().len() == 0,
        before.event_queue@.len() == 0,
    ensures
        after.tick == next_tick(before.tick),
        after.agents == before.agents,
        after.nodes.keys() == before.nodes.keys(),
        after.nodes.values().len() == before.nodes.values().len(),
        forall|i: int|
            0 <= i < before.nodes.values().len() ==> kept(
                kernel,
                before.nodes.values()[i],
                #[trigger] after.nodes.values()[i],
                now,
            ),
        forall|i: int, k: NodeId|
            0 <= i < before.nodes.values().len() && #[trigger] after.nodes.values()[i].connections.has(
                k,
            ) ==> before.nodes.values()[i].connections.has(k),
{
    let (parts, begun, m1, m2, m3, m4) = choose|
        parts: Seq<Seq<Event>>,
        begun: Network,
        m1: Network,
        m2: Network,
        m3: Network,
        m4: Network,
    | #[trigger] tick_steps(kernel, before, after, now, parts, begun, m1, m2, m3, m4);
    assert(parts.len() == 0);
    assert(parts.flatten() =~= Seq::<Event>::empty());
    assert(begun.event_queue@.len() == 0);
    assert(same_state(begun, m1));
    assert(m3.nodes == m2.nodes);
    assert forall|i: int| 0 <= i < before.nodes.values().len() implies kept(
        kernel,
        before.nodes.values()[i],
        #[trigger] after.nodes.values()[i],
        now,
    ) by {
        assert(looked_over(kernel, m1.nodes.values()[i], m2.nodes.values()[i], now));
        assert(retrusted(kernel, m3.nodes.values()[i], m4.nodes.values()[i]));
    }
    assert forall|i: int, k: NodeId|
        0 <= i < before.nodes.values().len() && #[trigger] after.nodes.values()[i].connections.has(
            k,
        ) implies before.nodes.values()[i].connections.has(k) by {
        assert(looked_over(kernel, m1.nodes.values()[i], m2.nodes.values()[i], now));
        assert(retrusted(kernel, m3.nodes.values()[i], m4.nodes.values()[i]));
        let base = choose|base: Score| #[trigger]
            capped(kernel, m3.nodes.values()[i], base, m4.nodes.values()[i]);
        assert(m2.nodes.values()[i].connections.has(k));
    }
}

/// Whether an event is a defense signal that has made no hop.
pub open spec fn is_fresh_signal(e: Event) -> bool {
    e matches Event::DefenseSignal { signal } && signal.hops == 0
}

/// Whether `basis` are the measures that an exchange of a node with
/// `partner` builds on: those of its connection to the partner, and those of
/// a fresh connection where it has none.
pub open spec fn basis_of(node: Node, partner: NodeId, basis: Dynamics) -> bool {
    if node.connections.has(partner) {
        let held = node.connections.at(partner);
        basis.r == held.r && basis.q == held.q && basis.tau == held.tau && basis.w == held.w
    } else {
        basis.r.0 == 0 && basis.q.rank() == HALF_BITS && basis.tau.rank() == 0 && basis.w.rank()
            == W_INIT_BITS
    }
}

/// Whether the kernel gave `dynamics` as the measures of the connection of a
/// node to `partner` after an exchange: for the measures `basis` that the
/// exchange builds on, for what was observed of it, and for the belief
/// `threat` of the node that the partner is a threat.
pub open spec fn measured<A: Arithmetic>(
    kernel: &A,
    node: Node,
    partner: NodeId,
    observed: Observation,
    threat: Score,
    basis: Dynamics,
    dynamics: Dynamics,
) -> bool {
    &&& threat.rank() == node.threat_rank(partner)
    &&& basis_of(node, partner, basis)
    &&& call_ensures(A::exchange, (kernel, basis, observed, threat), dynamics)
}

/// Whether `dynamics` are the measures of the connection of a node to
/// `partner` after an exchange, by the kernel.
pub open spec fn measures_by<A: Arithmetic>(
    kernel: &A,
    node: Node,
    partner: NodeId,
    observed: Observation,
    dynamics: Dynamics,
) -> bool {
    exists|threat: Score, basis: Dynamics| #[trigger]
        measured(kernel, node, partner, observed, threat, basis, dynamics)
}

/// Whether `held` is the quality average of the partner that an observation
/// builds on: the one that the connection keeps for the capability, and one
/// half where there is no capability, no connection or no average.
pub open spec fn partner_quality_basis(
    node: Node,
    partner: NodeId,
    capability: Option<CapabilityId>,
    held: Score,
) -> bool {
    match capability {
        Some(cap) => if node.connections.has(partner) && node.connections.at(
            partner,
        ).capability_qualities.has(cap) {
            held == node.connections.at(partner).capability_qualities.at(cap)
        } else {
            held.rank() == HALF_BITS
        },
        None => held.rank() == HALF_BITS,
    }
}

/// Whether `held` is the quality of the node's own work that an observation
/// builds on: the quality of its work with the capability, and one half
/// where there is no capability.
pub open spec fn own_quality_basis(node: Node, capability: Option<CapabilityId>, held: Score) -> bool {
    match capability {
        Some(cap) => held.rank() == node.own_quality_rank(cap),
        None => held.rank() == HALF_BITS,
    }
}

/// Whether `outcome` is what the probation of a node is judged by, by the
/// kernel: the mean quality of the exchanges of the probation period, and
/// the trust raised and lowered that the kernel gives for the trust of the
/// node.
pub open spec fn probation_judged<A: Arithmetic>(kernel: &A, node: Node, outcome: ProbationOutcome) -> bool {
    &&& mean_quality_by(kernel, node.history.latest(PROBATION_COUNT as nat), outcome.mean_quality)
    &&& call_ensures(
        A::probation_trust,
        (kernel, node.trust),
        (outcome.raised_trust, outcome.lowered_trust),
    )
}

/// Whether `after` is the node `before` after an exchange that it began
/// with `partner` at the time `now`.
///
/// The connection gets the measures `dynamics` that the kernel gives, and
/// keeps as the partner's quality average for the capability the moving
/// average `quality` that the kernel gives for the average `held` and the
/// quality that was observed. That makes the node `mid`. A node whose
/// probation period is over with this exchange is then judged.
pub open spec fn began_with<A: Arithmetic>(
    kernel: &A,
    before: Node,
    after: Node,
    partner: NodeId,
    observed: Observation,
    capability: Option<CapabilityId>,
    now: Timestamp,
    dynamics: Dynamics,
    held: Score,
    quality: Score,
    mid: Node,
) -> bool {
    &&& measures_by(kernel, before, partner, observed, dynamics)
    &&& partner_quality_basis(before, partner, capability, held)
    &&& call_ensures(A::average, (kernel, held, observed.quality), quality)
    &&& Node::sent(
        before,
        mid,
        partner,
        observed.volume,
        observed.exchange_in,
        observed.exchange_out,
        observed.quality,
        observed.tone,
        capability,
        dynamics,
        quality,
        now,
    )
    &&& if Node::probation_over(mid) {
        exists|outcome: ProbationOutcome| #[trigger]
            probation_judged(kernel, mid, outcome) && Node::judged(mid, after, outcome)
    } else {
        after == mid
    }
}

/// What the node that an exchange was begun with observes of it: what the
/// node that began it received is what this node gave, and the other way
/// round.
pub open spec fn flipped(observed: Observation) -> Observation {
    Observation {
        exchange_in: observed.exchange_out,
        exchange_out: observed.exchange_in,
        ..observed
    }
}

/// Whether `after` is the node `before` after an exchange that `partner`
/// began with it at the time `now`.
///
/// The connection gets the measures `dynamics` that the kernel gives for
/// the exchange as this node observes it (see `flipped`), and
/// the capability that was used gets as the quality of the node's own work
/// the moving average `quality` that the kernel gives for the quality `held`
/// and the quality that was observed.
pub open spec fn answered<A: Arithmetic>(
    kernel: &A,
    before: Node,
    after: Node,
    partner: NodeId,
    observed: Observation,
    capability: Option<CapabilityId>,
    now: Timestamp,
    dynamics: Dynamics,
    held: Score,
    quality: Score,
) -> bool {
    &&& measures_by(kernel, before, partner, flipped(observed), dynamics)
    &&& own_quality_basis(before, capability, held)
    &&& call_ensures(A::average, (kernel, held, observed.quality), quality)
    &&& Node::received(
        before,
        after,
        partner,
        observed.volume,
        observed.exchange_in,
        observed.exchange_out,
        observed.quality,
        observed.tone,
        capability,
        dynamics,
        quality,
        now,
    )
}

/// Whether `after` is the node `before` after it took part in an exchange
/// with `partner` at the time `now`: as the node that began it (`began`, see
/// `began_with`), or as the node that it was begun with (see `answered`).
pub open spec fn took_part_as<A: Arithmetic>(
    kernel: &A,
    before: Node,
    after: Node,
    partner: NodeId,
    observed: Observation,
    capability: Option<CapabilityId>,
    began: bool,
    now: Timestamp,
) -> bool {
    if began {
        exists|dynamics: Dynamics, held: Score, quality: Score, mid: Node| #[trigger]
            began_with(
                kernel,
                before,
                after,
                partner,
                observed,
                capability,
                now,
                dynamics,
                held,
                quality,
                mid,
            )
    } else {
        exists|dynamics: Dynamics, held: Score, quality: Score| #[trigger]
            answered(
                kernel,
                before,
                after,
                partner,
                observed,
                capability,
                now,
                dynamics,
                held,
                quality,
            )
    }
}

/// A node takes part in an exchange with `partner` at the time `now`: as
/// the node that began it (`began`), or as the node that it was begun with
/// (see `took_part_as`). What was observed of the exchange is given as the
/// node that began it observed it.
pub fn took_part<A: Arithmetic>(
    node: &mut Node,
    kernel: &A,
    partner: NodeId,
    observed: Observation,
    capability: Option<CapabilityId>,
    began: bool,
    now: Timestamp,
)
    requires
        old(node).wf(),
    ensures
        final(node).wf(),
        final(node).id == old(node).id,
        final(node).connections.has(partner),
        forall|other: NodeId|
            old(node).connections.has(other) ==> final(node).connections.has(other),
        final(node).threat_beliefs == old(node).threat_beliefs,
        took_part_as(kernel, *old(node), *final(node), partner, observed, capability, began, now),
{
    let threat = node.get_threat_level(&partner);
    let basis = match node.get_connection(&partner) {
        Some(c) => c.measures(),
        None => Dynamics::fresh(),
    };
    let seen = if began {
        observed
    } else {
        Observation {
            volume: observed.volume,
            exchange_in: observed.exchange_out,
            exchange_out: observed.exchange_in,
            quality: observed.quality,
            tone: observed.tone,
        }
    };
    let dynamics = kernel.exchange(basis, seen, threat);
    proof {
        assert(measured(kernel, *node, partner, seen, threat, basis, dynamics));
    }
    if began {
        let held = match capability {
            Some(cap) => match node.get_connection(&partner) {
                Some(c) => c.capability_quality_basis(cap),
                None => Score::half(),
            },
            None => Score::half(),
        };
        let capability_quality = kernel.average(held, observed.quality);
        let probation_over = node.handle_outgoing_interaction(
            partner,
            observed.volume,
            observed.exchange_in,
            observed.exchange_out,
            observed.quality,
            observed.tone,
            capability,
            dynamics,
            capability_quality,
            now,
        );
        let ghost mid = *node;
        if probation_over {
            let mean_quality = mean_quality(kernel, &node.history, PROBATION_COUNT as usize);
            let trusts = kernel.probation_trust(node.trust);
            let outcome = ProbationOutcome {
                mean_quality,
                raised_trust: trusts.0,
                lowered_trust: trusts.1,
            };
            proof {
                assert(probation_judged(kernel, mid, outcome));
            }
            node.check_probation_status(outcome);
        }
        proof {
            assert(began_with(
                kernel,
                *old(node),
                *node,
                partner,
                observed,
                capability,
                now,
                dynamics,
                held,
                capability_quality,
                mid,
            ));
        }
    } else {
        let held = match capability {
            Some(cap) => node.capability_quality(cap),
            None => Score::half(),
        };
        let own_quality = kernel.average(held, observed.quality);
        node.handle_incoming_interaction(
            partner,
            observed.volume,
            observed.exchange_in,
            observed.exchange_out,
            observed.quality,
            observed.tone,
            capability,
            dynamics,
            own_quality,
            now,
        );
        proof {
            assert(answered(
                kernel,
                *old(node),
                *node,
                partner,
                observed,
                capability,
                now,
                dynamics,
                held,
                own_quality,
            ));
        }
    }
}

/// Whether `after` is the node `before` with the trust that its figures put
/// it at: the combination `base` of its figures by the kernel, capped by the
/// diversity cap of the node, which is its diversity and three tenths, and
/// by its trust cap.
pub open spec fn capped<A: Arithmetic>(kernel: &A, before: Node, base: Score, after: Node) -> bool {
    &&& based(kernel, before, base)
    &&& after.trust.rank() == lower(
        lower(base.rank(), diversity_cap_bits(before.diversity()) as int),
        before.trust_cap.rank(),
    )
    &&& after == (Node { trust: after.trust, ..before })
}

/// Whether `after` is the node `before` with the trust that its figures put
/// it at, by the kernel (see `capped`). Nothing but the trust differs.
pub open spec fn retrusted<A: Arithmetic>(kernel: &A, before: Node, after: Node) -> bool {
    exists|base: Score| #[trigger] capped(kernel, before, base, after)
}

/// The trust in each of the nodes, in their order.
pub open spec fn trusts_of(nodes: Seq<Node>) -> Seq<Score> {
    nodes.map_values(|node: Node| node.trust)
}

/// Whether `after` is the collector `before` after the trust in the nodes
/// was recorded at a tick, with the mean and the standard deviation
/// `figures` that the kernel gave for the trusts `given`.
pub open spec fn spread_recorded<A: Arithmetic>(
    kernel: &A,
    nodes: Seq<Node>,
    tick: u64,
    before: MetricsCollector,
    after: MetricsCollector,
    given: Vec<Score>,
    figures: (Real, Real),
) -> bool {
    &&& given@ == trusts_of(nodes)
    &&& call_ensures(A::spread, (kernel, &given), figures)
    &&& MetricsCollector::distribution_recorded(before, after, tick, given@, figures.0, figures.1)
}

/// Whether `after` is the collector `before` after the trust in the nodes
/// was recorded at a tick: the snapshot is that of the trust in each node,
/// in the order of the nodes, with the mean and the standard deviation that
/// the kernel gives for it. Without nodes nothing is recorded.
pub open spec fn collected<A: Arithmetic>(
    kernel: &A,
    nodes: Seq<Node>,
    tick: u64,
    before: MetricsCollector,
    after: MetricsCollector,
) -> bool {
    if nodes.len() == 0 {
        after == before
    } else {
        exists|given: Vec<Score>, figures: (Real, Real)| #[trigger]
            spread_recorded(kernel, nodes, tick, before, after, given, figures)
    }
}

/// Connections that go both ways still do when two different nodes of the
/// table are connected to each other.
pub proof fn lemma_connected(
    before: Table<NodeId, Node>,
    after: Table<NodeId, Node>,
    first: NodeId,
    second: NodeId,
    now: Timestamp,
)
    requires
        mutual(before),
        first != second,
        before.has(first),
        before.has(second),
        after.keys() == before.keys(),
        connected_to(before.at(first), after.at(first), second, now),
        connected_to(before.at(second), after.at(second), first, now),
        forall|other: NodeId|
            other != first && other != second && before.has(other) ==> after.at(other)
                == before.at(other),
    ensures
        mutual(after),
{
    assert forall|a: NodeId, b: NodeId|
        after.has(a) && #[trigger] after.at(a).connections.has(b) implies a != b && after.has(b)
        && after.at(b).connections.has(a) by {
        assert(before.has(a));
        if a == first && b == second {
        } else if a == second && b == first {
        } else {
            // The connection was there before.
            if a == first {
                lemma_held_before(before.at(first), after.at(first), second, now, b);
            } else if a == second {
                lemma_held_before(before.at(second), after.at(second), first, now, b);
            }
            assert(before.at(a).connections.has(b));
            assert(before.has(b) && before.at(b).connections.has(a));
        }
    }
}

/// Nodes that are connected as it was drawn still are when the two nodes at
/// the places `a` and `b`, for which it was drawn, are connected to each
/// other; and every connection is still fresh.
pub proof fn lemma_wired(
    before: Table<NodeId, Node>,
    after: Table<NodeId, Node>,
    links: Seq<Vec<bool>>,
    a: int,
    b: int,
    now: Timestamp,
)
    requires
        nodes_wf(before),
        nodes_wf(after),
        0 <= a < b < before.keys().len(),
        after.keys() == before.keys(),
        linked(links, a, b),
        wired(before, links, a, b),
        all_fresh(before, now),
        connected_to(before.at(before.keys()[a]), after.at(before.keys()[a]), before.keys()[b], now),
        connected_to(before.at(before.keys()[b]), after.at(before.keys()[b]), before.keys()[a], now),
        forall|other: NodeId|
            other != before.keys()[a] && other != before.keys()[b] && before.has(other)
                ==> after.at(other) == before.at(other),
    ensures
        wired(after, links, a, b + 1),
        all_fresh(after, now),
{
    let keys = before.keys();
    let ka = keys[a];
    let kb = keys[b];
    before.lemma_place(a);
    before.lemma_place(b);
    after.lemma_place(a);
    after.lemma_place(b);
    assert forall|i: int| 0 <= i < keys.len() && i != a && i != b implies after.values()[i]
        == before.values()[i] by {
        before.lemma_place(i);
        after.lemma_place(i);
    }
    assert forall|x: int, y: int| 0 <= x < keys.len() && 0 <= y < keys.len() && !((x == a && y
        == b) || (x == b && y == a)) implies #[trigger] tied(after, x, y) == tied(before, x, y) by {
        if x == a {
            assert(keys[y] != kb);
            if after.values()[a].connections.has(keys[y]) {
                lemma_held_before(before.at(ka), after.at(ka), kb, now, keys[y]);
            }
        } else if x == b {
            assert(keys[y] != ka);
            if after.values()[b].connections.has(keys[y]) {
                lemma_held_before(before.at(kb), after.at(kb), ka, now, keys[y]);
            }
        }
    }
    assert forall|x: int, y: int| 0 <= x < y < keys.len() implies #[trigger] tied(after, x, y)
        == drawn_by(links, a, b + 1, x, y) && tied(after, y, x) == drawn_by(links, a, b + 1, x, y) by {
        assert(tied(before, x, y) == drawn_by(links, a, b, x, y));
        if x == a && y == b {
            assert(tied(after, a, b));
            assert(tied(after, b, a));
        } else {
            assert(tied(after, x, y) == tied(before, x, y));
            assert(tied(after, y, x) == tied(before, y, x));
        }
    }
    assert forall|i: int, k: NodeId|
        0 <= i < after.values().len() && #[trigger] after.values()[i].connections.has(k) implies {
        &&& after.values()[i].connections.at(k)@.is_fresh(k, now)
        &&& after.values()[i].connections.at(k).w.rank() == W_INIT_BITS
    } by {
        if i == a {
            if k != kb {
                lemma_held_before(before.at(ka), after.at(ka), kb, now, k);
                assert(before.values()[a].connections.has(k));
            } else {
                assert(!tied(before, a, b));
            }
        } else if i == b {
            if k != ka {
                lemma_held_before(before.at(kb), after.at(kb), ka, now, k);
                assert(before.values()[b].connections.has(k));
            } else {
                assert(!tied(before, a, b));
                assert(!tied(before, b, a));
            }
        } else {
            assert(before.values()[i].connections.has(k));
        }
    }
}

/// A connection of a node that was given one to `partner_id` is that one,
/// or one that the node had.
pub proof fn lemma_held_before(
    before: Node,
    after: Node,
    partner_id: NodeId,
    now: Timestamp,
    other: NodeId,
)
    requires
        connected_to(before, after, partner_id, now),
        after.connections.has(other),
        other != partner_id,
    ensures
        before.connections.has(other),
{
    let keys = after.connections.keys();
    let at = keys.index_of(other);
    assert(keys[at] == other);
    if !before.connections.has(partner_id) {
        assert(before.connections.keys().push(partner_id)[at] == other);
        assert(before.connections.keys()[at] == other);
    }
}

/// A table of well-formed nodes stays one when a node is taken out of it.
pub proof fn lemma_removed_wf(before: Table<NodeId, Node>, after: Table<NodeId, Node>, id: NodeId)
    requires
        nodes_wf(before),
        after.wf(),
        before.has(id) ==> after.keys() == before.keys().remove(before.keys().index_of(id))
            && after.values() == before.values().remove(before.keys().index_of(id)),
        !before.has(id) ==> after.keys() == before.keys() && after.values() == before.values(),
    ensures
        nodes_wf(after),
{
    assert forall|i: int| 0 <= i < after.values().len() implies (#[trigger] after.values()[i]).wf()
        && after.values()[i].id == after.keys()[i] by {
        if before.has(id) {
            let at = before.keys().index_of(id);
            assert(before.keys()[at] == id);
            let i0 = if i < at {
                i
            } else {
                i + 1
            };
            assert(after.values()[i] == before.values()[i0]);
            assert(after.keys()[i] == before.keys()[i0]);
        }
    }
}

/// A table of well-formed nodes stays one when a well-formed node is put
/// into it under its own identifier.
pub proof fn lemma_inserted_wf(
    before: Table<NodeId, Node>,
    after: Table<NodeId, Node>,
    id: NodeId,
    node: Node,
)
    requires
        nodes_wf(before),
        node.wf(),
        node.id == id,
        after.wf(),
        before.has(id) ==> after.keys() == before.keys() && after.values() == before.values().update(
            before.keys().index_of(id),
            node,
        ),
        !before.has(id) ==> after.keys() == before.keys().push(id) && after.values()
            == before.values().push(node),
    ensures
        nodes_wf(after),
{
    assert forall|i: int| 0 <= i < after.values().len() implies (#[trigger] after.values()[i]).wf()
        && after.values()[i].id == after.keys()[i] by {
        if before.has(id) {
            let at = before.keys().index_of(id);
            assert(before.keys()[at] == id);
            if i != at {
                assert(after.values()[i] == before.values()[i]);
            }
        } else {
            if i < before.values().len() {
                assert(after.values()[i] == before.values()[i]);
            }
        }
    }
}

/// A table of well-formed nodes stays one when a node is changed where it
/// stands into a well-formed node of the same identifier.
pub proof fn lemma_replaced_wf(before: Table<NodeId, Node>, after: Table<NodeId, Node>, at: int)
    requires
        nodes_wf(before),
        after.wf(),
        0 <= at < before.keys().len(),
        after.keys() == before.keys(),
        after.values().len() == before.values().len(),
        forall|i: int|
            0 <= i < before.values().len() && i != at ==> after.values()[i] == before.values()[i],
        after.values()[at].wf(),
        after.values()[at].id == before.values()[at].id,
    ensures
        nodes_wf(after),
        forall|other: NodeId|
            other != before.keys()[at] && before.has(other) ==> after.at(other) == before.at(other),
        after.at(before.keys()[at]) == after.values()[at],
{
    assert forall|i: int| 0 <= i < after.values().len() implies (#[trigger] after.values()[i]).wf()
        && after.values()[i].id == after.keys()[i] by {
        if i != at {
            assert(after.values()[i] == before.values()[i]);
        }
    }
    assert forall|other: NodeId| other != before.keys()[at] && before.has(other) implies after.at(
        other,
    ) == before.at(other) by {
        let j = before.keys().index_of(other);
        assert(before.keys()[j] == other);
    }
    after.lemma_place(at);
}

} // verus!
