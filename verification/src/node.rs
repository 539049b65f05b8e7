//! A node: one agent of the network, with everything it owns.

use vstd::prelude::*;
use crate::capability::{Capability, CapabilityState};
use crate::connection::{
    averaged, exchanges_over, Connection, ConnectionStats, ConnectionView, Dynamics,
};
use crate::constants::{
    CALM_BELOW, DIVERSITY_PARTNERS, DIVERSITY_WINDOW, IDLE_THRESHOLD, LOAD_LIMIT,
    LOW_DIVERSITY_CAP, PRIMED_ABOVE, PROBATION_COUNT, PROBATION_THRESHOLD, PROMOTION_CEILING,
    SWIFT_TRUST_BASE,
};
use crate::interaction::{responders, Interaction, InteractionHistory};
use crate::scalar::{bump, bumped, rank_of, HALF_BITS, ONE_BITS, W_INIT_BITS, W_MIN_BITS};
use crate::table::Table;
use crate::types::{
    CapabilityId, NodeId, Real, Score, SignedScore, Timestamp, Weight,
};

verus! {

/// Where a node stands in the network.
#[derive(Clone, Copy, Debug, PartialEq, Eq, Structural, Hash)]
pub enum NodeStatus {
    /// New, and still proving itself.
    Probationary,
    /// Past probation.
    Member,
    /// A member of long standing.
    Established,
    /// A member with very many connections.
    Hub,
    /// Thrown out of the network.
    Expelled,
}

impl NodeStatus {
    /// Whether a node of this status takes part in the network: every one
    /// does but an expelled one.
    pub fn is_active(&self) -> (r: bool)
        ensures
            r == !(*self is Expelled),
    {
        !matches!(self, NodeStatus::Expelled)
    }
}

/// What a node is suspected of.
#[derive(Clone, Copy, Debug, PartialEq, Eq, Structural, Hash)]
pub enum ThreatType {
    /// Cheating on quality or reciprocity.
    Cheating,
    /// Standing behind several identities.
    Sybil,
    /// Belonging to a ring that rates itself up.
    Collusion,
    /// Faking ratings.
    QualityFraud,
    /// Building trust in order to defect.
    Strategic,
}

/// How far a node is on its guard.
#[derive(Clone, Copy, Debug, PartialEq, Eq, Structural, Hash)]
pub enum DefenseState {
    /// Not alarmed.
    Normal,
    /// Alert, after signals came in.
    Primed,
    /// Defending itself against a threat.
    Defending,
}

/// A mark on a node.
#[derive(Clone, Copy, Debug, PartialEq, Eq, Structural, Hash)]
pub enum NodeFlag {
    /// The node deals with few different partners.
    LowDiversity,
    /// The quality of the node looks anomalous.
    QualityAnomaly,
    /// The trust in the node changes fast.
    TrustVolatility,
}

/// The set of marks on a node.
#[derive(Clone, Copy, Debug, PartialEq, Eq, Structural)]
pub struct NodeFlags {
    /// Whether `LowDiversity` is set.
    pub low_diversity: bool,
    /// Whether `QualityAnomaly` is set.
    pub quality_anomaly: bool,
    /// Whether `TrustVolatility` is set.
    pub trust_volatility: bool,
}

impl NodeFlags {
    /// Whether the set holds the mark.
    pub open spec fn has(&self, flag: NodeFlag) -> bool {
        match flag {
            NodeFlag::LowDiversity => self.low_diversity,
            NodeFlag::QualityAnomaly => self.quality_anomaly,
            NodeFlag::TrustVolatility => self.trust_volatility,
        }
    }

    /// The empty set.
    pub fn new() -> (f: Self)
        ensures
            forall|flag: NodeFlag| !f.has(flag),
    {
        Self { low_diversity: false, quality_anomaly: false, trust_volatility: false }
    }

    /// Whether the set holds the mark.
    pub fn contains(&self, flag: NodeFlag) -> (r: bool)
        ensures
            r == self.has(flag),
    {
        match flag {
            NodeFlag::LowDiversity => self.low_diversity,
            NodeFlag::QualityAnomaly => self.quality_anomaly,
            NodeFlag::TrustVolatility => self.trust_volatility,
        }
    }

    /// Puts the mark into the set.
    pub fn insert(&mut self, flag: NodeFlag)
        ensures
            final(self).has(flag),
            forall|other: NodeFlag| other != flag ==> final(self).has(other) == old(self).has(other),
    {
        match flag {
            NodeFlag::LowDiversity => {
                self.low_diversity = true;
            },
            NodeFlag::QualityAnomaly => {
                self.quality_anomaly = true;
            },
            NodeFlag::TrustVolatility => {
                self.trust_volatility = true;
            },
        }
    }

    /// Takes the mark out of the set.
    pub fn remove(&mut self, flag: NodeFlag)
        ensures
            !final(self).has(flag),
            forall|other: NodeFlag| other != flag ==> final(self).has(other) == old(self).has(other),
    {
        match flag {
            NodeFlag::LowDiversity => {
                self.low_diversity = false;
            },
            NodeFlag::QualityAnomaly => {
                self.quality_anomaly = false;
            },
            NodeFlag::TrustVolatility => {
                self.trust_volatility = false;
            },
        }
    }
}

/// What a node believes of another node that it suspects.
#[derive(Debug)]
pub struct ThreatBelief {
    /// How sure the node is: zero is trust, one is certainty of a threat.
    pub level: Score,
    /// What the other node is suspected of.
    pub threat_type: ThreatType,
    /// The digests of the evidence, in the order in which it came.
    pub evidence: Vec<crate::types::Hash>,
    /// When the belief last changed.
    pub updated: Timestamp,
}

impl ThreatBelief {
    /// A belief of the given level, without evidence.
    pub fn new(threat_type: ThreatType, initial_level: Score, now: Timestamp) -> (b: Self)
        ensures
            b.level == initial_level,
            b.threat_type == threat_type,
            b.evidence@ == Seq::<crate::types::Hash>::empty(),
            b.updated == now,
    {
        Self { level: initial_level, threat_type, evidence: Vec::new(), updated: now }
    }

    /// Takes in new evidence at the time `now`, after which the belief
    /// stands at `level`. A belief never falls: a level below the present
    /// one leaves the level as it is.
    pub fn update(&mut self, level: Score, evidence: Option<crate::types::Hash>, now: Timestamp)
        ensures
            final(self).level.rank() >= old(self).level.rank(),
            final(self).level.rank() == if level.rank() >= old(self).level.rank() {
                level.rank()
            } else {
                old(self).level.rank()
            },
            final(self).threat_type == old(self).threat_type,
            final(self).updated == now,
            final(self).evidence@ == match evidence {
                Some(hash) => old(self).evidence@.push(hash),
                None => old(self).evidence@,
            },
    {
        self.level = level.max(self.level);
        self.updated = now;
        if let Some(hash) = evidence {
            self.evidence.push(hash);
        }
    }
}

/// A node of the network. It owns its connections, its capabilities, its
/// beliefs and its history; nothing in it refers to another node but by
/// identifier.
#[derive(Debug)]
pub struct Node {
    /// The identifier.
    pub id: NodeId,
    /// Where the node stands in the network.
    pub status: NodeStatus,
    /// The trust in the node.
    pub trust: Score,
    /// The most that the trust may be.
    pub trust_cap: Score,
    /// The confidence of the node in itself.
    pub confidence: Score,
    /// The alertness of the node.
    pub priming: Score,
    /// The connections, by partner.
    pub connections: Table<NodeId, Connection>,
    /// The capabilities, by identifier.
    pub capabilities: Table<CapabilityId, CapabilityState>,
    /// The beliefs about suspected nodes, by node.
    pub threat_beliefs: Table<NodeId, ThreatBelief>,
    /// The overall quality of the node.
    pub quality_score: Score,
    /// The marks on the node.
    pub flags: NodeFlags,
    /// How far the node is on its guard.
    pub defense_state: DefenseState,
    /// The exchanges that the node remembers.
    pub history: InteractionHistory,
    /// The number of exchanges in the running probation period.
    pub probation_count: u32,
    /// When the node was made.
    pub created: Timestamp,
    /// How busy the node is: zero is idle, one is full.
    pub load: Score,
}

impl Node {
    /// No partner has two connections, no capability two states and no
    /// suspect two beliefs, and every connection is well formed.
    pub open spec fn wf(&self) -> bool {
        &&& self.connections.wf()
        &&& forall|i: int|
            0 <= i < self.connections.values().len() ==> (#[trigger] self.connections.values()[i]).wf()
        &&& self.capabilities.wf()
        &&& self.threat_beliefs.wf()
    }

    /// Whether the node offers the capability at present.
    pub open spec fn offers(&self, cap_id: CapabilityId) -> bool {
        self.capabilities.has(cap_id) && self.capabilities.at(cap_id).available
    }

    /// The quality of the node's own work with a capability: zero where the
    /// node does not have it.
    pub open spec fn own_quality_rank(&self, cap_id: CapabilityId) -> int {
        if self.capabilities.has(cap_id) {
            self.capabilities.at(cap_id).quality.rank()
        } else {
            0
        }
    }

    /// How sure the node is that another node is a threat: zero where it
    /// holds no belief about that node.
    pub open spec fn threat_rank(&self, node_id: NodeId) -> int {
        if self.threat_beliefs.has(node_id) {
            self.threat_beliefs.at(node_id).level.rank()
        } else {
            0
        }
    }

    /// Whether the node takes work at all: it is active and its load is
    /// below the limit.
    pub open spec fn accepts_work(&self) -> bool {
        !(self.status is Expelled) && self.load.rank() < rank_of(LOAD_LIMIT)
    }

    /// Whether the node takes work for a capability: it takes work at all,
    /// it has the capability, and the capability takes work.
    pub open spec fn accepts_capability_work(&self, cap_id: CapabilityId) -> bool {
        self.accepts_work() && self.capabilities.has(cap_id) && self.capabilities.at(
            cap_id,
        ).accepts_work()
    }

    /// The number of different partners that answered among the hundred most
    /// recent exchanges: the diversity of the node, in hundredths.
    pub open spec fn diversity(&self) -> nat {
        responders(self.history.latest(DIVERSITY_WINDOW as nat)).to_set().len()
    }

    /// A new node at the time `now`: on probation, with the trust that every
    /// newcomer is granted, with no cap on its trust, and with no
    /// connection, capability, belief or remembered exchange.
    pub fn new(id: NodeId, now: Timestamp) -> (n: Self)
        ensures
            n.wf(),
            n.id == id,
            n.status == NodeStatus::Probationary,
            n.trust.rank() == rank_of(SWIFT_TRUST_BASE),
            n.trust_cap.rank() == ONE_BITS,
            n.confidence.rank() == HALF_BITS,
            n.priming.rank() == 0,
            n.connections.keys().len() == 0,
            n.capabilities.keys().len() == 0,
            n.threat_beliefs.keys().len() == 0,
            n.quality_score.rank() == HALF_BITS,
            forall|flag: NodeFlag| !n.flags.has(flag),
            n.defense_state == DefenseState::Normal,
            n.history.entries().len() == 0,
            n.history.capacity() == 100,
            n.probation_count == 0,
            n.created == now,
            n.load.rank() == 0,
    {
        Self {
            id,
            status: NodeStatus::Probationary,
            trust: Score::new(Real::from_bits(SWIFT_TRUST_BASE)),
            trust_cap: Score::one(),
            confidence: Score::half(),
            priming: Score::zero(),
            connections: Table::new(),
            capabilities: Table::new(),
            threat_beliefs: Table::new(),
            quality_score: Score::half(),
            flags: NodeFlags::new(),
            defense_state: DefenseState::Normal,
            history: InteractionHistory::new(),
            probation_count: 0,
            created: now,
            load: Score::zero(),
        }
    }

    /// A new node with the given capabilities.
    pub fn with_capabilities(id: NodeId, capabilities: Vec<Capability>, now: Timestamp) -> (n: Self)
        ensures
            n.wf(),
            n.id == id,
            n.status == NodeStatus::Probationary,
            n.trust.rank() == rank_of(SWIFT_TRUST_BASE),
            n.connections.keys().len() == 0,
            n.history.entries().len() == 0,
            forall|i: int|
                0 <= i < capabilities.len() ==> n.offers(#[trigger] capabilities[i].id),
            forall|c: CapabilityId|
                n.capabilities.has(c) ==> exists|i: int|
                    0 <= i < capabilities.len() && capabilities[i].id == c,
    {
        let mut node = Self::new(id, now);
        let mut i: usize = 0;
        while i < capabilities.len()
            invariant
                i <= capabilities.len(),
                node.wf(),
                node.id == id,
                node.status == NodeStatus::Probationary,
                node.trust.rank() == rank_of(SWIFT_TRUST_BASE),
                node.connections.keys().len() == 0,
                node.history.entries().len() == 0,
                forall|j: int| 0 <= j < i ==> node.offers(#[trigger] capabilities[j].id),
                forall|c: CapabilityId|
                    node.capabilities.has(c) ==> exists|j: int|
                        0 <= j < i && capabilities[j].id == c,
            decreases capabilities.len() - i,
        {
            let ghost before = node.capabilities;
            let cap = capabilities[i].clone();
            node.add_capability(cap, now);
            assert forall|j: int| 0 <= j < i + 1 implies node.offers(
                #[trigger] capabilities[j].id,
            ) by {
                if capabilities[j].id != capabilities[i as int].id {
                    assert(before.has(capabilities[j].id));
                }
            }
            assert forall|c: CapabilityId| node.capabilities.has(c) implies exists|j: int|
                0 <= j < i + 1 && capabilities[j].id == c by {
                if c != capabilities[i as int].id {
                    assert(before.has(c));
                    let j = choose|j: int| 0 <= j < i && capabilities[j].id == c;
                    assert(0 <= j < i + 1 && capabilities[j].id == c);
                } else {
                    assert(capabilities[i as int].id == c);
                }
            }
            i += 1;
        }
        node
    }

    /// Gives the node a capability, in the state of one that was never used.
    /// A capability that the node already had starts over.
    pub fn add_capability(&mut self, capability: Capability, now: Timestamp)
        requires
            old(self).wf(),
        ensures
            final(self).wf(),
            final(self).capabilities.has(capability.id),
            final(self).capabilities.at(capability.id).capability == capability,
            final(self).capabilities.at(capability.id).quality.rank() == HALF_BITS,
            final(self).capabilities.at(capability.id).volume == 0,
            final(self).capabilities.at(capability.id).last_used == now,
            final(self).capabilities.at(capability.id).available,
            final(self).capabilities.at(capability.id).load.rank() == 0,
            final(self).offers(capability.id),
            forall|other: CapabilityId|
                other != capability.id ==> final(self).capabilities.has(other) == old(self).capabilities.has(other),
            forall|other: CapabilityId|
                other != capability.id && old(self).capabilities.has(other) ==> final(self).capabilities.at(other) == old(self).capabilities.at(other),
            *final(self) == (Node { capabilities: final(self).capabilities, ..*old(self) }),
    {
        let id = capability.id;
        let state = CapabilityState::new(capability, now);
        self.capabilities.insert(id, state);
    }

    /// Whether the node offers the capability at present.
    pub fn has_capability(&self, cap_id: CapabilityId) -> (r: bool)
        requires
            self.wf(),
        ensures
            r == self.offers(cap_id),
    {
        match self.capabilities.get(&cap_id) {
            Some(state) => state.available,
            None => false,
        }
    }

    /// The quality of the node's own work with a capability: zero where the
    /// node does not have it.
    pub fn capability_quality(&self, cap_id: CapabilityId) -> (q: Score)
        requires
            self.wf(),
        ensures
            q.rank() == self.own_quality_rank(cap_id),
    {
        match self.capabilities.get(&cap_id) {
            Some(state) => state.quality,
            None => Score::zero(),
        }
    }

    /// The connection to a partner, if there is one.
    pub fn get_connection(&self, partner_id: &NodeId) -> (r: Option<&Connection>)
        requires
            self.wf(),
        ensures
            match r {
                Some(c) => self.connections.has(*partner_id) && *c == self.connections.at(
                    *partner_id,
                ) && c.wf(),
                None => !self.connections.has(*partner_id),
            },
    {
        match self.connections.position(partner_id) {
            Some(i) => {
                proof {
                    self.connections.lemma_place(i as int);
                }
                Some(self.connections.value_at(i))
            },
            None => None,
        }
    }

    /// The connection to a partner, if there is one, to be changed where it
    /// stands.
    pub fn get_connection_mut(&mut self, partner_id: &NodeId) -> (r: Option<&mut Connection>)
        requires
            old(self).wf(),
        ensures
            r.is_some() == old(self).connections.has(*partner_id),
            r.is_some() ==> {
                &&& *r.unwrap() == old(self).connections.at(*partner_id)
                &&& final(self).connections.keys() == old(self).connections.keys()
                &&& final(self).connections.at(*partner_id) == *final(r.unwrap())
                &&& forall|other: NodeId|
                    other != *partner_id && old(self).connections.has(other) ==> final(self).connections.at(other) == old(self).connections.at(other)
                &&& final(r.unwrap()).wf() ==> final(self).wf()
            },
            r.is_none() ==> final(self).connections == old(self).connections,
            *final(self) == (Node { connections: final(self).connections, ..*old(self) }),
    {
        match self.connections.position(partner_id) {
            Some(i) => {
                proof {
                    self.connections.lemma_place(i as int);
                }
                Some(self.connections.value_at_mut(i))
            },
            None => None,
        }
    }

    /// How sure the node is that another node is a threat: zero where it
    /// holds no belief about that node.
    pub fn get_threat_level(&self, node_id: &NodeId) -> (level: Score)
        requires
            self.wf(),
        ensures
            level.rank() == self.threat_rank(*node_id),
    {
        match self.threat_beliefs.get(node_id) {
            Some(belief) => belief.level,
            None => Score::zero(),
        }
    }

    /// Whether the node takes work at all.
    pub fn can_accept_work(&self) -> (r: bool)
        ensures
            r == self.accepts_work(),
    {
        self.status.is_active() && self.load.below(LOAD_LIMIT)
    }

    /// Whether the node takes work for a capability.
    pub fn can_accept_capability_work(&self, cap_id: CapabilityId) -> (r: bool)
        requires
            self.wf(),
        ensures
            r == self.accepts_capability_work(cap_id),
    {
        self.can_accept_work() && match self.capabilities.get(&cap_id) {
            Some(state) => state.can_accept_work(),
            None => false,
        }
    }

    /// The diversity of the node, in hundredths: the number of different
    /// partners that answered among the hundred most recent exchanges.
    pub fn diversity_hundredths(&self) -> (n: usize)
        ensures
            n == self.diversity(),
            n <= DIVERSITY_WINDOW,
    {
        self.history.unique_partners(DIVERSITY_WINDOW)
    }

    /// Figures on the connections of the node (see
    /// `ConnectionStats::from_connections`).
    pub fn connection_stats<M: Fn(&Vec<Real>) -> Real>(&self, mean: &M) -> (stats: ConnectionStats)
        requires
            self.wf(),
            forall|given: &Vec<Real>| call_requires(*mean, (given,)),
        ensures
            stats.count == self.connections.keys().len(),
            stats.total_interactions == exchanges_over(
                self.connections.values(),
                self.connections.values().len() as int,
            ),
            stats.count == 0 ==> stats.mean_weight.0 == 0 && stats.mean_reciprocity.0 == 0
                && stats.mean_quality.0 == 0,
            stats.count > 0 ==> averaged(self.connections.values(), *mean, stats),
    {
        ConnectionStats::from_connections(&self.connections, mean)
    }

    /// The qualities of capabilities, in their order.
    pub open spec fn qualities_held(capabilities: Seq<CapabilityState>) -> Seq<Score> {
        capabilities.map_values(|c: CapabilityState| c.quality)
    }

    /// The number of times that each of the capabilities was used, in their
    /// order.
    pub open spec fn volumes_held(capabilities: Seq<CapabilityState>) -> Seq<u32> {
        capabilities.map_values(|c: CapabilityState| c.volume)
    }

    /// Whether none of the first `upto` capabilities was ever used.
    pub open spec fn unused(capabilities: Seq<CapabilityState>, upto: int) -> bool {
        forall|i: int| 0 <= i < upto ==> (#[trigger] capabilities[i]).volume == 0
    }

    /// Whether `q` is the quality of the work of the node over all its
    /// capabilities: one half where the node has no capability or has used
    /// none, and else what `weighted` gives for the qualities of the
    /// capabilities and the number of times that each was used.
    pub open spec fn aggregated<W: Fn(&Vec<Score>, &Vec<u32>) -> Score>(
        capabilities: Seq<CapabilityState>,
        weighted: W,
        q: Score,
    ) -> bool {
        if Self::unused(capabilities, capabilities.len() as int) {
            q.rank() == HALF_BITS
        } else {
            exists|qualities: Vec<Score>, volumes: Vec<u32>| #[trigger]
                call_ensures(weighted, (&qualities, &volumes), q) && qualities@
                    == Self::qualities_held(capabilities) && volumes@ == Self::volumes_held(
                    capabilities,
                )
        }
    }

    /// The quality of the work of the node over all its capabilities, each
    /// weighted by the number of times that it was used (see `aggregated`).
    pub fn aggregate_capability_quality<W: Fn(&Vec<Score>, &Vec<u32>) -> Score>(
        &self,
        weighted: &W,
    ) -> (q: Score)
        requires
            self.wf(),
            forall|qualities: &Vec<Score>, volumes: &Vec<u32>|
                call_requires(*weighted, (qualities, volumes)),
        ensures
            Self::aggregated(self.capabilities.values(), *weighted, q),
    {
        let n = self.capabilities.len();
        let ghost all = self.capabilities.values();
        let mut qualities: Vec<Score> = Vec::new();
        let mut volumes: Vec<u32> = Vec::new();
        let mut used = false;
        let mut i: usize = 0;
        while i < n
            invariant
                i <= n,
                n == all.len(),
                all == self.capabilities.values(),
                self.capabilities.wf(),
                qualities@ == Self::qualities_held(all.take(i as int)),
                volumes@ == Self::volumes_held(all.take(i as int)),
                used == !Self::unused(all, i as int),
            decreases n - i,
        {
            let state = self.capabilities.value_at(i);
            qualities.push(state.quality);
            volumes.push(state.volume);
            if state.volume > 0 {
                used = true;
            }
            proof {
                assert(qualities@ =~= Self::qualities_held(all.take(i as int + 1)));
                assert(volumes@ =~= Self::volumes_held(all.take(i as int + 1)));
                if !used {
                    assert(Self::unused(all, i as int + 1));
                } else {
                    if state.volume > 0 {
                        assert(all[i as int].volume > 0);
                    }
                }
            }
            i += 1;
        }
        if !used {
            return Score::half();
        }
        assert(all.take(n as int) =~= all);
        let q = weighted(&qualities, &volumes);
        assert(call_ensures(*weighted, (&qualities, &volumes), q));
        q
    }

    /// The connection to a partner, made afresh at the time `now` where there
    /// was none, to be changed where it stands.
    pub fn get_or_create_connection(&mut self, partner_id: NodeId, now: Timestamp) -> (c:
        &mut Connection)
        requires
            old(self).wf(),
        ensures
            c.wf(),
            old(self).connections.has(partner_id) ==> *c == old(self).connections.at(partner_id),
            !old(self).connections.has(partner_id) ==> c@.is_fresh(partner_id, now) && c.w.rank()
                == W_INIT_BITS,
            final(self).connections.has(partner_id),
            final(self).connections.at(partner_id) == *final(c),
            final(self).connections.keys() == if old(self).connections.has(partner_id) {
                old(self).connections.keys()
            } else {
                old(self).connections.keys().push(partner_id)
            },
            forall|other: NodeId|
                other != partner_id ==> final(self).connections.has(other) == old(self).connections.has(other),
            forall|other: NodeId|
                other != partner_id && old(self).connections.has(other) ==> final(self).connections.at(other) == old(self).connections.at(other),
            *final(self) == (Node { connections: final(self).connections, ..*old(self) }),
            final(c).wf() ==> final(self).wf(),
    {
        let i = match self.connections.position(&partner_id) {
            Some(i) => i,
            None => {
                let i = self.connections.len();
                self.connections.insert(partner_id, Connection::new(partner_id, now));
                proof {
                    self.connections.lemma_place(i as int);
                }
                i
            },
        };
        let ghost mid = self.connections;
        proof {
            mid.lemma_place(i as int);
            assert forall|other: NodeId|
                other != partner_id && old(self).connections.has(other) implies mid.at(other)
                == old(self).connections.at(other) by {}
        }
        proof {
            assert forall|j: int| 0 <= j < mid.values().len() implies (#[trigger] mid.values()[j]).wf() by {
                if j < old(self).connections.values().len() {
                    assert(mid.values()[j] == old(self).connections.values()[j]) by {
                        if old(self).connections.has(partner_id) {
                        } else {
                        }
                    }
                }
            }
        }
        let c = self.connections.value_at_mut(i);
        c
    }

    /// The exchange that a node remembers of an exchange with the given
    /// observations: it names no capability.
    pub open spec fn remembered(
        initiator: NodeId,
        responder: NodeId,
        volume: Real,
        quality: Score,
        tone: SignedScore,
        exchange_in: Real,
        exchange_out: Real,
        now: Timestamp,
    ) -> Interaction {
        Interaction {
            initiator,
            responder,
            volume,
            capability: None,
            quality,
            tone,
            exchange_in,
            exchange_out,
            timestamp: now,
        }
    }

    /// What the connection to `partner_id` holds in `after` when an exchange
    /// at the time `now` went over it that left it with the measures
    /// `dynamics`: one exchange more than in `before`, where a connection
    /// that was not there counts as fresh.
    pub open spec fn exchanged(
        before: Table<NodeId, Connection>,
        after: Table<NodeId, Connection>,
        partner_id: NodeId,
        dynamics: Dynamics,
        now: Timestamp,
    ) -> bool {
        &&& after.has(partner_id)
        &&& after.keys() == if before.has(partner_id) {
            before.keys()
        } else {
            before.keys().push(partner_id)
        }
        &&& forall|other: NodeId| other != partner_id ==> after.has(other) == before.has(other)
        &&& forall|other: NodeId|
            other != partner_id && before.has(other) ==> after.at(other) == before.at(other)
        &&& before.has(partner_id) ==> after.at(partner_id)@ == before.at(
            partner_id,
        )@.after_exchange(dynamics, now)
        &&& !before.has(partner_id) ==> exists|fresh: ConnectionView|
            fresh.is_fresh(partner_id, now) && after.at(partner_id)@ == fresh.after_exchange(
                dynamics,
                now,
            )
    }

    /// What the connection to `partner_id` holds in `after` when this node
    /// began an exchange over it: what `basis` holds, with one exchange more
    /// and the measures `dynamics`, and with `capability_quality` kept for
    /// the capability where one was used. The `basis` is the connection in
    /// `before`, or a fresh one where `before` has none.
    pub open spec fn carried(
        before: Table<NodeId, Connection>,
        after: Table<NodeId, Connection>,
        partner_id: NodeId,
        dynamics: Dynamics,
        capability: Option<CapabilityId>,
        capability_quality: Score,
        now: Timestamp,
        basis: ConnectionView,
    ) -> bool {
        &&& before.has(partner_id) ==> basis == before.at(partner_id)@
        &&& !before.has(partner_id) ==> basis.is_fresh(partner_id, now)
        &&& after.at(partner_id)@ == match capability {
            Some(cap) => basis.after_exchange(dynamics, now).with_capability_quality(
                cap,
                capability_quality,
            ),
            None => basis.after_exchange(dynamics, now),
        }
    }

    /// Takes the figures that an exchange gave into the connection to the
    /// partner, which is made where there was none.
    fn exchange_over(&mut self, partner_id: NodeId, dynamics: Dynamics, now: Timestamp)
        requires
            old(self).wf(),
        ensures
            final(self).wf(),
            Self::exchanged(
                old(self).connections,
                final(self).connections,
                partner_id,
                dynamics,
                now,
            ),
            *final(self) == (Node { connections: final(self).connections, ..*old(self) }),
    {
        let conn = self.get_or_create_connection(partner_id, now);
        let ghost basis = conn@;
        conn.process_interaction(dynamics, now);
        proof {
            if !old(self).connections.has(partner_id) {
                assert(basis.is_fresh(partner_id, now));
            }
        }
    }

    /// Whether `later` is the node `earlier` after it took in an exchange that
    /// it began with `partner_id` at the time `now`, which left the connection
    /// with the measures `dynamics` (see `handle_outgoing_interaction`).
    pub open spec fn sent(
        earlier: Node,
        later: Node,
        partner_id: NodeId,
        volume: Real,
        exchange_in: Real,
        exchange_out: Real,
        quality: Score,
        tone: SignedScore,
        capability: Option<CapabilityId>,
        dynamics: Dynamics,
        capability_quality: Score,
        now: Timestamp,
    ) -> bool {
        &&& later.wf()
        &&& later.connections.has(partner_id)
        &&& later.connections.keys() == if earlier.connections.has(partner_id) {
            earlier.connections.keys()
        } else {
            earlier.connections.keys().push(partner_id)
        }
        &&& forall|other: NodeId|
            other != partner_id ==> later.connections.has(other) == earlier.connections.has(other)
        &&& forall|other: NodeId|
            other != partner_id && earlier.connections.has(other) ==> later.connections.at(other) == earlier.connections.at(other)
        &&& exists|basis: ConnectionView|
            Self::carried(
                earlier.connections,
                later.connections,
                partner_id,
                dynamics,
                capability,
                capability_quality,
                now,
                basis,
            )
        &&& later.history.capacity() == earlier.history.capacity()
        &&& later.history.entries() == InteractionHistory::added(
            earlier.history.entries(),
            earlier.history.capacity(),
            Self::remembered(
                earlier.id,
                partner_id,
                volume,
                quality,
                tone,
                exchange_in,
                exchange_out,
                now,
            ),
        )
        &&& later.probation_count == if earlier.status is Probationary {
            bumped(earlier.probation_count)
        } else {
            earlier.probation_count
        }
        &&& later == (Node {
            connections: later.connections,
            history: later.history,
            probation_count: later.probation_count,
            ..earlier
        })
    }

    /// Takes in an exchange that this node began with `partner_id` at the
    /// time `now`.
    ///
    /// The connection to the partner, made afresh where there was none, has
    /// one exchange more and holds the measures `dynamics`; where the
    /// exchange used a capability, the connection keeps `capability_quality`
    /// as the partner's quality average for it. The exchange is remembered.
    /// A node on probation has one exchange more in its probation period;
    /// the result says whether the period is now over, so that the node is
    /// due for `check_probation_status`.
    pub fn handle_outgoing_interaction(
        &mut self,
        partner_id: NodeId,
        volume: Real,
        exchange_in: Real,
        exchange_out: Real,
        quality: Score,
        tone: SignedScore,
        capability: Option<CapabilityId>,
        dynamics: Dynamics,
        capability_quality: Score,
        now: Timestamp,
    ) -> (probation_over: bool)
        requires
            old(self).wf(),
        ensures
            final(self).wf(),
            final(self).connections.has(partner_id),
            final(self).connections.keys() == if old(self).connections.has(partner_id) {
                old(self).connections.keys()
            } else {
                old(self).connections.keys().push(partner_id)
            },
            forall|other: NodeId|
                other != partner_id ==> final(self).connections.has(other) == old(self).connections.has(other),
            forall|other: NodeId|
                other != partner_id && old(self).connections.has(other) ==> final(self).connections.at(other) == old(self).connections.at(other),
            exists|basis: ConnectionView|
                Self::carried(
                    old(self).connections,
                    final(self).connections,
                    partner_id,
                    dynamics,
                    capability,
                    capability_quality,
                    now,
                    basis,
                ),
            final(self).history.capacity() == old(self).history.capacity(),
            final(self).history.entries() == InteractionHistory::added(
                old(self).history.entries(),
                old(self).history.capacity(),
                Self::remembered(
                    old(self).id,
                    partner_id,
                    volume,
                    quality,
                    tone,
                    exchange_in,
                    exchange_out,
                    now,
                ),
            ),
            final(self).probation_count == if old(self).status is Probationary {
                bumped(old(self).probation_count)
            } else {
                old(self).probation_count
            },
            probation_over == (old(self).status is Probationary && bumped(old(self).probation_count)
                >= PROBATION_COUNT),
            *final(self) == (Node {
                connections: final(self).connections,
                history: final(self).history,
                probation_count: final(self).probation_count,
                ..*old(self)
            }),
            Self::sent(*old(self), *final(self), partner_id, volume, exchange_in, exchange_out, quality, tone, capability, dynamics, capability_quality, now),
    {
        let conn = self.get_or_create_connection(partner_id, now);
        let ghost basis = conn@;
        conn.process_interaction(dynamics, now);
        if let Some(cap) = capability {
            conn.update_capability_quality(cap, capability_quality);
        }
        let interaction = Interaction::new(self.id, partner_id, now).with_volume(
            volume,
        ).with_outcome(quality, tone).with_exchange(exchange_in, exchange_out);
        self.history.add(interaction);
        proof {
            assert(Self::carried(
                old(self).connections,
                self.connections,
                partner_id,
                dynamics,
                capability,
                capability_quality,
                now,
                basis,
            ));
        }
        if matches!(self.status, NodeStatus::Probationary) {
            self.probation_count = bump(self.probation_count);
            self.probation_count >= PROBATION_COUNT
        } else {
            false
        }
    }

    /// Whether `later` is the node `earlier` after it took in an exchange that
    /// `initiator_id` began with it at the time `now`, which left the
    /// connection with the measures `dynamics` (see
    /// `handle_incoming_interaction`).
    pub open spec fn received(
        earlier: Node,
        later: Node,
        initiator_id: NodeId,
        volume: Real,
        exchange_in: Real,
        exchange_out: Real,
        quality: Score,
        tone: SignedScore,
        capability: Option<CapabilityId>,
        dynamics: Dynamics,
        own_quality: Score,
        now: Timestamp,
    ) -> bool {
        &&& later.wf()
        &&& Self::exchanged(
            earlier.connections,
            later.connections,
            initiator_id,
            dynamics,
            now,
        )
        &&& match capability {
            Some(cap) => {
                &&& later.capabilities.keys() == earlier.capabilities.keys()
                &&& forall|other: CapabilityId|
                    other != cap && earlier.capabilities.has(other) ==> later.capabilities.at(other) == earlier.capabilities.at(other)
                &&& earlier.capabilities.has(cap) ==> {
                    let before = earlier.capabilities.at(cap);
                    let after = later.capabilities.at(cap);
                    &&& after.quality == own_quality
                    &&& after.volume == bumped(before.volume)
                    &&& after.last_used == now
                    &&& after.capability == before.capability
                    &&& after.available == before.available
                    &&& after.load == before.load
                }
            },
            None => later.capabilities == earlier.capabilities,
        }
        &&& later.history.capacity() == earlier.history.capacity()
        &&& later.history.entries() == InteractionHistory::added(
            earlier.history.entries(),
            earlier.history.capacity(),
            Self::remembered(
                initiator_id,
                earlier.id,
                volume,
                quality,
                tone,
                exchange_out,
                exchange_in,
                now,
            ),
        )
        &&& later == (Node {
            connections: later.connections,
            capabilities: later.capabilities,
            history: later.history,
            ..earlier
        })
    }

    /// Takes in an exchange that `initiator_id` began with this node at the
    /// time `now`.
    ///
    /// The connection to the initiator, made afresh where there was none,
    /// has one exchange more and holds the measures `dynamics`. Where the
    /// exchange used a capability that this node has, the capability has one
    /// use more and its quality average stands at `own_quality`. The
    /// exchange is remembered, with what this node received and gave.
    pub fn handle_incoming_interaction(
        &mut self,
        initiator_id: NodeId,
        volume: Real,
        exchange_in: Real,
        exchange_out: Real,
        quality: Score,
        tone: SignedScore,
        capability: Option<CapabilityId>,
        dynamics: Dynamics,
        own_quality: Score,
        now: Timestamp,
    )
        requires
            old(self).wf(),
        ensures
            final(self).wf(),
            Self::exchanged(
                old(self).connections,
                final(self).connections,
                initiator_id,
                dynamics,
                now,
            ),
            match capability {
                Some(cap) => {
                    &&& final(self).capabilities.keys() == old(self).capabilities.keys()
                    &&& forall|other: CapabilityId|
                        other != cap && old(self).capabilities.has(other) ==> final(self).capabilities.at(other) == old(self).capabilities.at(other)
                    &&& old(self).capabilities.has(cap) ==> {
                        let before = old(self).capabilities.at(cap);
                        let after = final(self).capabilities.at(cap);
                        &&& after.quality == own_quality
                        &&& after.volume == bumped(before.volume)
                        &&& after.last_used == now
                        &&& after.capability == before.capability
                        &&& after.available == before.available
                        &&& after.load == before.load
                    }
                },
                None => final(self).capabilities == old(self).capabilities,
            },
            final(self).history.capacity() == old(self).history.capacity(),
            final(self).history.entries() == InteractionHistory::added(
                old(self).history.entries(),
                old(self).history.capacity(),
                Self::remembered(
                    initiator_id,
                    old(self).id,
                    volume,
                    quality,
                    tone,
                    exchange_out,
                    exchange_in,
                    now,
                ),
            ),
            *final(self) == (Node {
                connections: final(self).connections,
                capabilities: final(self).capabilities,
                history: final(self).history,
                ..*old(self)
            }),
            Self::received(*old(self), *final(self), initiator_id, volume, exchange_in, exchange_out, quality, tone, capability, dynamics, own_quality, now),
    {
        self.exchange_over(initiator_id, dynamics, now);
        if let Some(cap) = capability {
            match self.capabilities.position(&cap) {
                Some(i) => {
                    proof {
                        self.capabilities.lemma_place(i as int);
                    }
                    let state = self.capabilities.value_at_mut(i);
                    state.record_usage(own_quality, now);
                },
                None => {},
            }
        }
        let interaction = Interaction::new(initiator_id, self.id, now).with_volume(
            volume,
        ).with_outcome(quality, tone).with_exchange(exchange_out, exchange_in);
        self.history.add(interaction);
    }

    /// Whether `later` is the node `earlier` after its probation was judged by
    /// `outcome` (see `check_probation_status`).
    pub open spec fn judged(
        earlier: Node,
        later: Node,
        outcome: ProbationOutcome,
    ) -> bool {
        &&& later.status == if Self::probation_over(earlier) && outcome.mean_quality.rank()
            >= rank_of(PROBATION_THRESHOLD) {
            NodeStatus::Member
        } else {
            earlier.status
        }
        &&& later.trust.rank() == if !Self::probation_over(earlier) {
            earlier.trust.rank()
        } else if outcome.mean_quality.rank() >= rank_of(PROBATION_THRESHOLD) {
            if outcome.raised_trust.rank() <= rank_of(PROMOTION_CEILING) {
                outcome.raised_trust.rank()
            } else {
                rank_of(PROMOTION_CEILING)
            }
        } else {
            outcome.lowered_trust.rank()
        }
        &&& later.probation_count == if Self::probation_over(earlier)
            && outcome.mean_quality.rank() < rank_of(PROBATION_THRESHOLD) {
            0
        } else {
            earlier.probation_count
        }
        &&& later == (Node {
            status: later.status,
            trust: later.trust,
            probation_count: later.probation_count,
            ..earlier
        })
        &&& earlier.wf() ==> later.wf()
    }

    /// Judges a node whose probation period is over, by the mean quality
    /// of the period's exchanges.
    ///
    /// A node that is not on probation, or whose period is not over, is left
    /// as it is. With a mean quality at or above the probation threshold
    /// the node becomes a member, and its trust is the raised trust or the
    /// promotion ceiling, whichever is smaller. Below the threshold the trust
    /// is the lowered trust and a new period begins.
    pub fn check_probation_status(&mut self, outcome: ProbationOutcome)
        ensures
            final(self).status == if Self::probation_over(*old(self)) && outcome.mean_quality.rank()
                >= rank_of(PROBATION_THRESHOLD) {
                NodeStatus::Member
            } else {
                old(self).status
            },
            final(self).trust.rank() == if !Self::probation_over(*old(self)) {
                old(self).trust.rank()
            } else if outcome.mean_quality.rank() >= rank_of(PROBATION_THRESHOLD) {
                if outcome.raised_trust.rank() <= rank_of(PROMOTION_CEILING) {
                    outcome.raised_trust.rank()
                } else {
                    rank_of(PROMOTION_CEILING)
                }
            } else {
                outcome.lowered_trust.rank()
            },
            final(self).probation_count == if Self::probation_over(*old(self))
                && outcome.mean_quality.rank() < rank_of(PROBATION_THRESHOLD) {
                0
            } else {
                old(self).probation_count
            },
            *final(self) == (Node {
                status: final(self).status,
                trust: final(self).trust,
                probation_count: final(self).probation_count,
                ..*old(self)
            }),
            old(self).wf() ==> final(self).wf(),
            Self::judged(*old(self), *final(self), outcome),
    {
        if !matches!(self.status, NodeStatus::Probationary) {
            return ;
        }
        if self.probation_count >= PROBATION_COUNT {
            if !outcome.mean_quality.below(PROBATION_THRESHOLD) {
                self.status = NodeStatus::Member;
                self.trust = outcome.raised_trust.min(Score::new(Real::from_bits(PROMOTION_CEILING)));
            } else {
                self.trust = outcome.lowered_trust;
                self.probation_count = 0;
            }
        }
    }

    /// Whether a node is on probation and its probation period is over.
    pub open spec fn probation_over(node: Node) -> bool {
        node.status is Probationary && node.probation_count >= PROBATION_COUNT
    }

    /// Whether `later` is the node `earlier` after it took in evidence against
    /// `target` at the time `now`, which put its belief at `level` (see
    /// `update_threat_belief`).
    pub open spec fn believed(
        earlier: Node,
        later: Node,
        target: NodeId,
        threat_type: ThreatType,
        level: Score,
        evidence: Option<crate::types::Hash>,
        now: Timestamp,
    ) -> bool {
        &&& later.wf()
        &&& later.threat_beliefs.has(target)
        &&& later.threat_rank(target) == if level.rank() >= earlier.threat_rank(target) {
            level.rank()
        } else {
            earlier.threat_rank(target)
        }
        &&& later.threat_rank(target) >= earlier.threat_rank(target)
        &&& later.threat_beliefs.at(target).threat_type == if earlier.threat_beliefs.has(
            target,
        ) {
            earlier.threat_beliefs.at(target).threat_type
        } else {
            threat_type
        }
        &&& later.threat_beliefs.at(target).updated == now
        &&& later.threat_beliefs.at(target).evidence@ == {
            let held = if earlier.threat_beliefs.has(target) {
                earlier.threat_beliefs.at(target).evidence@
            } else {
                Seq::<crate::types::Hash>::empty()
            };
            match evidence {
                Some(hash) => held.push(hash),
                None => held,
            }
        }
        &&& later.threat_beliefs.keys() == if earlier.threat_beliefs.has(target) {
            earlier.threat_beliefs.keys()
        } else {
            earlier.threat_beliefs.keys().push(target)
        }
        &&& forall|other: NodeId|
            other != target ==> later.threat_beliefs.has(other) == earlier.threat_beliefs.has(other)
        &&& forall|other: NodeId|
            other != target && earlier.threat_beliefs.has(other) ==> later.threat_beliefs.at(other) == earlier.threat_beliefs.at(other)
        &&& later == (Node { threat_beliefs: later.threat_beliefs, ..earlier })
    }

    /// Takes in evidence against `target` at the time `now`, after which the
    /// belief about the target stands at `level`.
    ///
    /// Where the node held no belief about the target, one of the given kind
    /// is made, at level zero, before the evidence is taken in. A belief
    /// never falls.
    pub fn update_threat_belief(
        &mut self,
        target: NodeId,
        threat_type: ThreatType,
        level: Score,
        evidence: Option<crate::types::Hash>,
        now: Timestamp,
    )
        requires
            old(self).wf(),
        ensures
            final(self).wf(),
            final(self).threat_beliefs.has(target),
            final(self).threat_rank(target) == if level.rank() >= old(self).threat_rank(target) {
                level.rank()
            } else {
                old(self).threat_rank(target)
            },
            final(self).threat_rank(target) >= old(self).threat_rank(target),
            final(self).threat_beliefs.at(target).threat_type == if old(self).threat_beliefs.has(
                target,
            ) {
                old(self).threat_beliefs.at(target).threat_type
            } else {
                threat_type
            },
            final(self).threat_beliefs.at(target).updated == now,
            final(self).threat_beliefs.at(target).evidence@ == {
                let held = if old(self).threat_beliefs.has(target) {
                    old(self).threat_beliefs.at(target).evidence@
                } else {
                    Seq::<crate::types::Hash>::empty()
                };
                match evidence {
                    Some(hash) => held.push(hash),
                    None => held,
                }
            },
            final(self).threat_beliefs.keys() == if old(self).threat_beliefs.has(target) {
                old(self).threat_beliefs.keys()
            } else {
                old(self).threat_beliefs.keys().push(target)
            },
            forall|other: NodeId|
                other != target ==> final(self).threat_beliefs.has(other) == old(self).threat_beliefs.has(other),
            forall|other: NodeId|
                other != target && old(self).threat_beliefs.has(other) ==> final(self).threat_beliefs.at(other) == old(self).threat_beliefs.at(other),
            *final(self) == (Node { threat_beliefs: final(self).threat_beliefs, ..*old(self) }),
            Self::believed(*old(self), *final(self), target, threat_type, level, evidence, now),
    {
        let i = match self.threat_beliefs.position(&target) {
            Some(i) => i,
            None => {
                let i = self.threat_beliefs.len();
                self.threat_beliefs.insert(
                    target,
                    ThreatBelief::new(threat_type, Score::zero(), now),
                );
                proof {
                    self.threat_beliefs.lemma_place(i as int);
                }
                i
            },
        };
        proof {
            self.threat_beliefs.lemma_place(i as int);
        }
        let belief = self.threat_beliefs.value_at_mut(i);
        belief.update(level, evidence, now);
    }

    /// Lets the alertness fall to `priming`. Below the calm mark the node is
    /// back to normal.
    pub fn decay_priming(&mut self, priming: Score)
        ensures
            final(self).priming == priming,
            final(self).defense_state == if priming.rank() < rank_of(CALM_BELOW) {
                DefenseState::Normal
            } else {
                old(self).defense_state
            },
            *final(self) == (Node {
                priming: final(self).priming,
                defense_state: final(self).defense_state,
                ..*old(self)
            }),
    {
        self.priming = priming;
        if priming.below(CALM_BELOW) {
            self.defense_state = DefenseState::Normal;
        }
    }

    /// Lets the alertness rise to `priming`. Above the primed mark the node
    /// is primed.
    pub fn increase_priming(&mut self, priming: Score)
        ensures
            final(self).priming == priming,
            final(self).defense_state == if priming.rank() > rank_of(PRIMED_ABOVE) {
                DefenseState::Primed
            } else {
                old(self).defense_state
            },
            *final(self) == (Node {
                priming: final(self).priming,
                defense_state: final(self).defense_state,
                ..*old(self)
            }),
    {
        self.priming = priming;
        if priming.above(PRIMED_ABOVE) {
            self.defense_state = DefenseState::Primed;
        }
    }

    /// Marks the node, and caps its trust, where its diversity is low.
    ///
    /// With fewer different recent partners than the diversity threshold
    /// asks for, the node is marked as of low diversity and its trust cap is
    /// the low-diversity cap. Otherwise the mark is taken off and the cap is
    /// one.
    pub fn check_diversity(&mut self)
        ensures
            final(self).flags.has(NodeFlag::LowDiversity) == (old(self).diversity()
                < DIVERSITY_PARTNERS),
            forall|other: NodeFlag|
                other != NodeFlag::LowDiversity ==> final(self).flags.has(other) == old(self).flags.has(other),
            final(self).trust_cap.rank() == if old(self).diversity() < DIVERSITY_PARTNERS {
                rank_of(LOW_DIVERSITY_CAP)
            } else {
                ONE_BITS as int
            },
            *final(self) == (Node {
                flags: final(self).flags,
                trust_cap: final(self).trust_cap,
                ..*old(self)
            }),
    {
        let partners = self.diversity_hundredths();
        if partners < DIVERSITY_PARTNERS {
            self.flags.insert(NodeFlag::LowDiversity);
            self.trust_cap = Score::new(Real::from_bits(LOW_DIVERSITY_CAP));
        } else {
            self.flags.remove(NodeFlag::LowDiversity);
            self.trust_cap = Score::one();
        }
    }

    /// Whether a connection is idle at the time `now`.
    pub open spec fn idle_at(c: Connection, now: Timestamp) -> bool {
        c.last_active.age_at(now) > IDLE_THRESHOLD
    }

    /// Whether a connection is idle at the time `now` and its weight has
    /// fallen to the smallest weight.
    pub open spec fn spent_at(c: Connection, now: Timestamp) -> bool {
        Self::idle_at(c, now) && c.w.rank() <= W_MIN_BITS
    }

    /// What passive decay makes of the connection `before`, by the weight
    /// `w` that `decay` gave for its weight: the same connection with that
    /// weight, and no connection at all where that weight is the smallest.
    pub open spec fn decayed_to(
        before: Connection,
        w: Weight,
        after: Table<NodeId, Connection>,
        partner_id: NodeId,
    ) -> bool {
        if w.rank() <= W_MIN_BITS {
            !after.has(partner_id)
        } else {
            after.has(partner_id) && after.at(partner_id) == (Connection { w, ..before })
        }
    }

    /// Lets the weight of each idle connection decay, and drops the
    /// connections whose weight has fallen to the smallest weight.
    ///
    /// A connection is idle when it was last active longer ago than the idle
    /// threshold. The weight of an idle connection becomes what `decay`
    /// gives for it; a connection that is not idle stays as it is. No
    /// connection is added, and those that stay keep their order.
    pub fn decay_idle_connections<F: Fn(Weight) -> Weight>(&mut self, now: Timestamp, decay: F)
        requires
            old(self).wf(),
            forall|w: Weight| call_requires(decay, (w,)),
        ensures
            final(self).wf(),
            forall|k: NodeId|
                final(self).connections.has(k) ==> #[trigger] old(self).connections.has(k),
            forall|k: NodeId| #[trigger]
                old(self).connections.has(k) && !Self::idle_at(old(self).connections.at(k), now)
                    ==> final(self).connections.has(k) && final(self).connections.at(k) == old(self).connections.at(k),
            forall|k: NodeId| #[trigger]
                old(self).connections.has(k) && Self::idle_at(old(self).connections.at(k), now)
                    ==> exists|w: Weight| #[trigger]
                    call_ensures(decay, (old(self).connections.at(k).w,), w) && Self::decayed_to(
                        old(self).connections.at(k),
                        w,
                        final(self).connections,
                        k,
                    ),
            final(self).connections.in_order_of(old(self).connections),
            *final(self) == (Node { connections: final(self).connections, ..*old(self) }),
    {
        let ghost before = self.connections;
        let n = self.connections.len();
        let mut i: usize = 0;
        while i < n
            invariant
                i <= n,
                n == before.keys().len(),
                before.wf(),
                self.wf(),
                self.connections.keys() == before.keys(),
                forall|w: Weight| call_requires(decay, (w,)),
                forall|j: int|
                    0 <= j < i && Self::idle_at(before.values()[j], now) ==> call_ensures(
                        decay,
                        (before.values()[j].w,),
                        (#[trigger] self.connections.values()[j]).w,
                    ) && self.connections.values()[j] == (Connection {
                        w: self.connections.values()[j].w,
                        ..before.values()[j]
                    }),
                forall|j: int|
                    0 <= j < i && !Self::idle_at(before.values()[j], now) ==> (
                    #[trigger] self.connections.values()[j]) == before.values()[j],
                forall|j: int|
                    i <= j < n ==> (#[trigger] self.connections.values()[j]) == before.values()[j],
                *self == (Node { connections: self.connections, ..*old(self) }),
            decreases n - i,
        {
            if self.connections.value_at(i).is_idle(IDLE_THRESHOLD, now) {
                let ghost held = self.connections;
                let conn = self.connections.value_at_mut(i);
                let w = decay(conn.w);
                conn.w = w;
                proof {
                    assert forall|j: int| 0 <= j < self.connections.values().len() implies (
                    #[trigger] self.connections.values()[j]).wf() by {
                        if j != i {
                            assert(self.connections.values()[j] == held.values()[j]);
                        }
                    }
                }
            }
            i += 1;
        }
        let ghost mid = self.connections;
        proof {
            mid.lemma_own_order();
        }
        let mut i: usize = 0;
        while i < self.connections.len()
            invariant
                i <= self.connections.keys().len(),
                mid.wf(),
                self.wf(),
                self.connections.in_order_of(mid),
                forall|k: NodeId| #[trigger]
                    self.connections.has(k) ==> mid.has(k) && self.connections.at(k) == mid.at(k),
                forall|k: NodeId| #[trigger]
                    mid.has(k) ==> self.connections.has(k) || Self::spent_at(mid.at(k), now),
                forall|j: int|
                    0 <= j < i ==> !Self::spent_at(#[trigger] self.connections.values()[j], now),
                *self == (Node { connections: self.connections, ..*old(self) }),
            decreases self.connections.keys().len() - i,
        {
            let ghost held = self.connections;
            proof {
                held.lemma_place(i as int);
            }
            let conn = self.connections.value_at(i);
            if conn.is_idle(IDLE_THRESHOLD, now) && conn.w.is_min() {
                let k = self.connections.key_at(i);
                self.connections.remove(&k);
                proof {
                    held.lemma_order_without(mid, self.connections, i as int);
                    assert(self.connections.values() == held.values().remove(i as int));
                    assert forall|j: int| 0 <= j < self.connections.values().len() implies (
                    #[trigger] self.connections.values()[j]).wf() by {
                        let j0 = if j < i {
                            j
                        } else {
                            j + 1
                        };
                        assert(self.connections.values()[j] == held.values()[j0]);
                    }
                    assert forall|j: int| 0 <= j < i implies !Self::spent_at(
                        #[trigger] self.connections.values()[j],
                        now,
                    ) by {
                        assert(self.connections.values()[j] == held.values()[j]);
                    }
                }
            } else {
                i += 1;
            }
        }
        proof {
            let fin = self.connections;
            assert forall|k: NodeId| fin.has(k) implies !Self::spent_at(fin.at(k), now) by {
                let j = fin.keys().index_of(k);
                assert(fin.keys()[j] == k);
                assert(!Self::spent_at(fin.values()[j], now));
            }
            assert forall|k: NodeId| #[trigger]
                before.has(k) && !Self::idle_at(before.at(k), now) implies fin.has(k) && fin.at(k)
                == before.at(k) by {
                let j = before.keys().index_of(k);
                assert(before.keys()[j] == k);
                mid.lemma_place(j);
                assert(mid.values()[j] == before.values()[j]);
                assert(mid.has(k));
            }
            assert forall|k: NodeId| #[trigger]
                before.has(k) && Self::idle_at(before.at(k), now) implies exists|w: Weight| #[trigger]
                call_ensures(decay, (before.at(k).w,), w) && Self::decayed_to(
                    before.at(k),
                    w,
                    fin,
                    k,
                ) by {
                let j = before.keys().index_of(k);
                assert(before.keys()[j] == k);
                mid.lemma_place(j);
                let m = mid.values()[j];
                assert(call_ensures(decay, (before.values()[j].w,), m.w));
                assert(m == (Connection { w: m.w, ..before.values()[j] }));
                assert(mid.has(k));
                assert(Self::idle_at(m, now));
                if m.w.rank() <= W_MIN_BITS {
                    assert(Self::spent_at(mid.at(k), now));
                    if fin.has(k) {
                        assert(fin.at(k) == mid.at(k));
                    }
                } else {
                    assert(!Self::spent_at(mid.at(k), now));
                }
                assert(Self::decayed_to(before.at(k), m.w, fin, k));
            }
            assert forall|k: NodeId| fin.has(k) implies #[trigger] before.has(k) by {
                assert(mid.has(k));
            }
        }
    }
}

/// What the end of a probation period is judged by.
#[derive(Clone, Copy, Debug)]
pub struct ProbationOutcome {
    /// The mean quality of the exchanges of the period.
    pub mean_quality: Score,
    /// The trust of the node, raised by one half.
    pub raised_trust: Score,
    /// The trust of the node, lowered by one fifth.
    pub lowered_trust: Score,
}

/// Builds a node piece by piece.
#[derive(Debug)]
pub struct NodeBuilder {
    id: NodeId,
    status: NodeStatus,
    trust: Score,
    capabilities: Vec<Capability>,
    connections: Table<NodeId, Connection>,
}

impl NodeBuilder {
    /// The identifier of the node that is built.
    pub closed spec fn id_of(&self) -> NodeId {
        self.id
    }

    /// The status of the node that is built.
    pub closed spec fn status_of(&self) -> NodeStatus {
        self.status
    }

    /// The trust of the node that is built.
    pub closed spec fn trust_of(&self) -> Score {
        self.trust
    }

    /// The capabilities of the node that is built.
    pub closed spec fn capabilities_of(&self) -> Seq<Capability> {
        self.capabilities@
    }

    /// The connections of the node that is built.
    pub closed spec fn connections_of(&self) -> Table<NodeId, Connection> {
        self.connections
    }

    /// The connections are a well-formed table of well-formed connections.
    pub open spec fn wf(&self) -> bool {
        &&& self.connections_of().wf()
        &&& forall|i: int|
            0 <= i < self.connections_of().values().len() ==> (
            #[trigger] self.connections_of().values()[i]).wf()
    }

    /// A builder of a node on probation, with the trust of a newcomer.
    pub fn new(id: NodeId) -> (b: Self)
        ensures
            b.wf(),
            b.id_of() == id,
            b.status_of() == NodeStatus::Probationary,
            b.trust_of().rank() == rank_of(SWIFT_TRUST_BASE),
            b.capabilities_of().len() == 0,
            b.connections_of().keys().len() == 0,
    {
        Self {
            id,
            status: NodeStatus::Probationary,
            trust: Score::new(Real::from_bits(SWIFT_TRUST_BASE)),
            capabilities: Vec::new(),
            connections: Table::new(),
        }
    }

    /// The same builder with the given status.
    pub fn status(self, status: NodeStatus) -> (b: Self)
        ensures
            b.status_of() == status,
            b.id_of() == self.id_of(),
            b.trust_of() == self.trust_of(),
            b.capabilities_of() == self.capabilities_of(),
            b.connections_of() == self.connections_of(),
    {
        let mut b = self;
        b.status = status;
        b
    }

    /// The same builder with the given trust.
    pub fn trust(self, trust: Score) -> (b: Self)
        ensures
            b.trust_of() == trust,
            b.id_of() == self.id_of(),
            b.status_of() == self.status_of(),
            b.capabilities_of() == self.capabilities_of(),
            b.connections_of() == self.connections_of(),
    {
        let mut b = self;
        b.trust = trust;
        b
    }

    /// The same builder with one capability more.
    pub fn capability(self, cap: Capability) -> (b: Self)
        ensures
            b.capabilities_of() == self.capabilities_of().push(cap),
            b.id_of() == self.id_of(),
            b.status_of() == self.status_of(),
            b.trust_of() == self.trust_of(),
            b.connections_of() == self.connections_of(),
    {
        let mut b = self;
        b.capabilities.push(cap);
        b
    }

    /// The same builder with `conn` as the connection to `partner_id`, in
    /// place of one that was given for that partner before.
    pub fn connection(self, partner_id: NodeId, conn: Connection) -> (b: Self)
        requires
            self.wf(),
            conn.wf(),
        ensures
            b.wf(),
            b.connections_of().has(partner_id),
            b.connections_of().at(partner_id) == conn,
            forall|other: NodeId|
                other != partner_id ==> b.connections_of().has(other) == self.connections_of().has(
                    other,
                ),
            forall|other: NodeId|
                other != partner_id && self.connections_of().has(other) ==> b.connections_of().at(
                    other,
                ) == self.connections_of().at(other),
            b.id_of() == self.id_of(),
            b.status_of() == self.status_of(),
            b.trust_of() == self.trust_of(),
            b.capabilities_of() == self.capabilities_of(),
    {
        let mut b = self;
        let ghost held = b.connections;
        b.connections.insert(partner_id, conn);
        proof {
            assert forall|i: int| 0 <= i < b.connections.values().len() implies (
            #[trigger] b.connections.values()[i]).wf() by {
                if held.has(partner_id) {
                    if i != held.keys().index_of(partner_id) {
                        assert(b.connections.values()[i] == held.values()[i]);
                    }
                } else {
                    if i < held.values().len() {
                        assert(b.connections.values()[i] == held.values()[i]);
                    }
                }
            }
        }
        b
    }

    /// The node, made at the time `now`: with each capability in the state
    /// of one that was never used, and with the connections as they were
    /// given.
    pub fn build(self, now: Timestamp) -> (n: Node)
        requires
            self.wf(),
        ensures
            n.wf(),
            n.id == self.id_of(),
            n.status == self.status_of(),
            n.trust == self.trust_of(),
            n.connections == self.connections_of(),
            n.history.entries().len() == 0,
            forall|i: int|
                0 <= i < self.capabilities_of().len() ==> n.offers(
                    #[trigger] self.capabilities_of()[i].id,
                ),
            forall|c: CapabilityId|
                n.capabilities.has(c) ==> exists|i: int|
                    0 <= i < self.capabilities_of().len() && self.capabilities_of()[i].id == c,
    {
        let mut node = Node::with_capabilities(self.id, self.capabilities, now);
        node.status = self.status;
        node.trust = self.trust;
        node.connections = self.connections;
        node
    }
}

} // verus!
