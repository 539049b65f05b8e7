//! How the nodes of a simulation behave.
//!
//! An agent decides, tick by tick, which exchanges its node begins. Every
//! draw is made by a source of chance that the caller gives.

use vstd::prelude::*;
use crate::node::Node;
use crate::scalar::{clamp_rank, rank_of, ONE_BITS};
use crate::sim::arithmetic::Chance;
use crate::sim::events::{AgentType, Event};
use crate::table::Table;
use crate::types::{contains_node, CapabilityId, NodeId, Real, Score, SignedScore, Weight};

verus! {

/// Eight tenths: the probability with which an honest agent turns to a node
/// that it knows, and with which a strategic adversary begins an exchange.
pub const OFTEN: u64 = 0x3FE9_9999_9999_999A;

/// The quality of the work of an honest agent: eight tenths.
pub const HONEST_QUALITY: u64 = 0x3FE9_9999_9999_999A;

/// How far the quality of the work of an honest agent varies: one tenth.
pub const HONEST_VARIANCE: u64 = 0x3FB9_9999_9999_999A;

/// The lowest tone of an honest agent: two tenths below neutral.
pub const HONEST_TONE_LOW: u64 = 0xBFC9_9999_9999_999A;

/// The highest tone of an honest agent: three tenths above neutral.
pub const HONEST_TONE_HIGH: u64 = 0x3FD3_3333_3333_3333;

/// The quality of the work of a strategic adversary before it defects:
/// ninety-five hundredths.
pub const STRATEGIC_GOOD: u64 = 0x3FEE_6666_6666_6666;

/// The quality of the work of a strategic adversary once it has defected:
/// two tenths.
pub const STRATEGIC_BAD: u64 = 0x3FC9_9999_9999_999A;

/// The lowest quality of the work of a free rider: one tenth.
pub const FREE_RIDER_LOW: u64 = 0x3FB9_9999_9999_999A;

/// The highest quality of the work of a free rider: three tenths.
pub const FREE_RIDER_HIGH: u64 = 0x3FD3_3333_3333_3333;

/// The tone of a free rider: three tenths below neutral.
pub const FREE_RIDER_TONE: u64 = 0xBFD3_3333_3333_3333;

/// The probability with which a Sybil identity deals with another one in a
/// tick: nine tenths.
pub const SYBIL_INTERNAL_RATE: u64 = 0x3FEC_CCCC_CCCC_CCCD;

/// The probability with which a Sybil identity deals with an outsider in a
/// tick: one tenth.
pub const SYBIL_EXTERNAL_RATE: u64 = 0x3FB9_9999_9999_999A;

/// The quality that Sybil identities give one another: ninety-nine
/// hundredths.
pub const SYBIL_INTERNAL_QUALITY: u64 = 0x3FEF_AE14_7AE1_47AE;

/// The tone of Sybil identities among themselves: nine tenths.
pub const SYBIL_INTERNAL_TONE: u64 = 0x3FEC_CCCC_CCCC_CCCD;

/// The quality that Sybil identities give outsiders: three tenths.
pub const SYBIL_EXTERNAL_QUALITY: u64 = 0x3FD3_3333_3333_3333;

/// The tone of Sybil identities towards outsiders: two tenths below neutral.
pub const SYBIL_EXTERNAL_TONE: u64 = 0xBFC9_9999_9999_999A;

/// The probability with which a passive agent begins an exchange in a tick:
/// five hundredths.
pub const PASSIVE_RATE: u64 = 0x3FA9_9999_9999_999A;

/// The volume of the exchanges of a passive agent: one half.
pub const PASSIVE_VOLUME: u64 = 0x3FE0_0000_0000_0000;

/// The quality of the work of a passive agent: six tenths.
pub const PASSIVE_QUALITY: u64 = 0x3FE3_3333_3333_3333;

/// Whether an event is an exchange that `from` begins.
pub open spec fn begun_by(e: Event, from: NodeId) -> bool {
    e matches Event::Interaction { from: f, .. } && f == from
}

/// The node that an exchange is begun with.
pub open spec fn partner_of(e: Event) -> NodeId {
    match e {
        Event::Interaction { to, .. } => to,
        _ => arbitrary(),
    }
}

/// The quality of an exchange; zero for any other event.
pub open spec fn quality_rank(e: Event) -> int {
    match e {
        Event::Interaction { quality, .. } => quality.rank(),
        _ => 0,
    }
}

/// The capability that the exchanges of a node go by: its first, if it has
/// one.
pub open spec fn first_of(node: Node) -> Option<CapabilityId> {
    if node.capabilities.keys().len() > 0 {
        Some(node.capabilities.keys()[0])
    } else {
        None
    }
}

/// Whether an event is an exchange of the given volume that goes by the
/// given capability.
pub open spec fn carries(e: Event, volume: u64, capability: Option<CapabilityId>) -> bool {
    e matches Event::Interaction { volume: v, capability: c, .. } && v.0 == volume && c
        == capability
}

/// The tone of an exchange; zero for any other event.
pub open spec fn tone_rank(e: Event) -> int {
    match e {
        Event::Interaction { tone, .. } => tone.rank(),
        _ => 0,
    }
}

/// The first capability of a node, if it has one.
fn first_capability(node: &Node) -> (r: Option<CapabilityId>)
    requires
        node.wf(),
    ensures
        r == first_of(*node),
{
    if node.capabilities.len() > 0 {
        Some(node.capabilities.key_at(0))
    } else {
        None
    }
}

/// Whether `e` is the exchange that a node begins with `partner`: of the
/// given volume, with the given quality and tone, each clamped into its
/// interval, and with the first capability of the node.
pub open spec fn begins(
    node: Node,
    partner: NodeId,
    volume: Real,
    quality: Real,
    tone: Real,
    e: Event,
) -> bool {
    e matches Event::Interaction { from, to, volume: v, quality: q, tone: t, capability }
        && from == node.id && to == partner && v == volume && q.rank() == Score::clamped(quality)
        && t.rank() == clamp_rank(tone.rank(), -(ONE_BITS as int), ONE_BITS as int) && capability
        == first_of(node)
}

/// The exchange that a node begins with `partner`.
pub fn begin_exchange(node: &Node, partner: NodeId, volume: Real, quality: Real, tone: Real) -> (e:
    Event)
    requires
        node.wf(),
    ensures
        begins(*node, partner, volume, quality, tone, e),
        begun_by(e, node.id),
        e.wf(),
{
    Event::Interaction {
        from: node.id,
        to: partner,
        volume,
        quality: Score::new(quality),
        tone: SignedScore::new(tone),
        capability: first_capability(node),
    }
}

/// The partner of a node at the place that was drawn among its connections:
/// the drawn number is taken modulo the number of connections. A node
/// without connections has no partner.
pub open spec fn partner_drawn(node: Node, pick: usize) -> Option<NodeId> {
    let n = node.connections.keys().len();
    if n == 0 {
        None
    } else {
        Some(node.connections.keys()[(pick as int) % (n as int)])
    }
}

/// The partner of a node at the place that was drawn among its connections.
pub fn partner_at(node: &Node, pick: usize) -> (partner: Option<NodeId>)
    requires
        node.wf(),
    ensures
        partner == partner_drawn(*node, pick),
        partner matches Some(p) ==> node.connections.has(p),
{
    let n = node.connections.len();
    if n == 0 {
        None
    } else {
        Some(node.connections.key_at(pick % n))
    }
}

/// What an agent does in a tick that begins at most one exchange, with a
/// partner among the connections of its node: where it was drawn that the
/// agent begins one (`begins`) and the node has connections, the exchange
/// with the partner at the place that was drawn, of the given volume,
/// quality and tone; else nothing.
pub open spec fn one_exchange(
    node: Node,
    begins_one: bool,
    pick: usize,
    volume: Real,
    quality: Real,
    tone: Real,
    events: Seq<Event>,
) -> bool {
    match partner_drawn(node, pick) {
        Some(partner) if begins_one => events.len() == 1 && begins(
            node,
            partner,
            volume,
            quality,
            tone,
            events[0],
        ),
        _ => events.len() == 0,
    }
}

/// What an agent does in a tick that begins at most one exchange (see
/// `one_exchange`).
pub fn exchange_once(node: &Node, begins_one: bool, pick: usize, volume: Real, quality: Real, tone: Real) -> (events:
    Vec<Event>)
    requires
        node.wf(),
    ensures
        one_exchange(*node, begins_one, pick, volume, quality, tone, events@),
        events@.len() <= 1,
        node.connections.keys().len() == 0 ==> events@.len() == 0,
        forall|i: int|
            0 <= i < events@.len() ==> begun_by(#[trigger] events@[i], node.id)
                && node.connections.has(partner_of(events@[i])) && events@[i].wf(),
{
    let mut events: Vec<Event> = Vec::new();
    if begins_one {
        if let Some(partner) = partner_at(node, pick) {
            events.push(begin_exchange(node, partner, volume, quality, tone));
        }
    }
    events
}

/// The test whether a node of the network is a stranger to a node: another
/// node, to which it has no connection.
pub open spec fn stranger_to(node: Node) -> spec_fn(NodeId) -> bool {
    |id: NodeId| id != node.id && !node.connections.has(id)
}

/// The strangers to a node in a network, in the order of the network.
pub open spec fn strangers_of(node: Node, network: Table<NodeId, Node>) -> Seq<NodeId> {
    network.keys().filter(stranger_to(node))
}

/// The strangers to a node in a network, in the order of the network.
pub fn strangers(node: &Node, network: &Table<NodeId, Node>) -> (found: Vec<NodeId>)
    requires
        node.wf(),
        network.wf(),
    ensures
        found@ == strangers_of(*node, *network),
        forall|j: int|
            0 <= j < found@.len() ==> network.has(#[trigger] found@[j]) && found@[j] != node.id
                && !node.connections.has(found@[j]),
{
    let mut found: Vec<NodeId> = Vec::new();
    let m = network.len();
    let mut i: usize = 0;
    while i < m
        invariant
            i <= m,
            m == network.keys().len(),
            network.wf(),
            node.wf(),
            found@ == network.keys().take(i as int).filter(stranger_to(*node)),
            forall|j: int|
                0 <= j < found@.len() ==> network.has(#[trigger] found@[j]) && found@[j]
                    != node.id && !node.connections.has(found@[j]),
        decreases m - i,
    {
        let id = network.key_at(i);
        proof {
            let seen = network.keys().take(i as int);
            assert(network.keys().take(i as int + 1) =~= seen.push(id));
            seen.lemma_filter_push(id, stranger_to(*node));
        }
        if !id.same_as(&node.id) && !node.connections.contains_key(&id) {
            found.push(id);
        }
        i += 1;
    }
    assert(network.keys().take(m as int) =~= network.keys());
    found
}

/// The weights of the connections of a node, in their order.
pub fn weights(node: &Node) -> (given: Vec<Weight>)
    requires
        node.wf(),
    ensures
        given@.len() == node.connections.keys().len(),
        forall|i: int| 0 <= i < given@.len() ==> (#[trigger] given@[i]) == node.connections.values()[i].w,
{
    let n = node.connections.len();
    let mut given: Vec<Weight> = Vec::new();
    let mut i: usize = 0;
    while i < n
        invariant
            i <= n,
            n == node.connections.keys().len(),
            node.connections.wf(),
            given@.len() == i,
            forall|k: int| 0 <= k < i ==> (#[trigger] given@[k]) == node.connections.values()[k].w,
        decreases n - i,
    {
        given.push(node.connections.value_at(i).w);
        i += 1;
    }
    given
}

/// The partner that an honest agent turns to, by what was drawn: whether it
/// turns to a node that it knows (`familiar`), and a place.
///
/// A node that it knows is the partner at the place that was drawn among the
/// connections of its node. Else it is the stranger at the place that was
/// drawn among the strangers, the number taken modulo their number; where
/// there is no stranger, it is a node that the agent knows after all; and
/// where its node has no connection either, there is no partner.
pub open spec fn partner_chosen(
    node: Node,
    strangers: Seq<NodeId>,
    familiar: bool,
    pick: usize,
) -> Option<NodeId> {
    if familiar && node.connections.keys().len() > 0 {
        partner_drawn(node, pick)
    } else if strangers.len() > 0 {
        Some(strangers[(pick as int) % (strangers.len() as int)])
    } else {
        partner_drawn(node, pick)
    }
}

/// The partner that an honest agent turns to, by what was drawn (see
/// `partner_chosen`).
pub fn partner_for(node: &Node, strangers: &Vec<NodeId>, familiar: bool, pick: usize) -> (partner:
    Option<NodeId>)
    requires
        node.wf(),
    ensures
        partner == partner_chosen(*node, strangers@, familiar, pick),
        partner matches Some(p) ==> node.connections.has(p) || strangers@.contains(p),
        partner.is_none() ==> node.connections.keys().len() == 0,
{
    if familiar && node.connections.len() > 0 {
        partner_at(node, pick)
    } else if strangers.len() > 0 {
        Some(strangers[pick % strangers.len()])
    } else {
        partner_at(node, pick)
    }
}

/// An agent that follows the protocol.
#[derive(Clone, Copy, Debug)]
pub struct HonestAgent {
    interaction_rate: Real,
    base_quality: Real,
    quality_variance: Real,
}

impl HonestAgent {
    /// The probability of beginning an exchange in a tick.
    pub closed spec fn rate(&self) -> Real {
        self.interaction_rate
    }

    /// The quality of the work, and how far it varies.
    pub closed spec fn quality(&self) -> (Real, Real) {
        (self.base_quality, self.quality_variance)
    }

    /// An honest agent with the given probability of beginning an exchange
    /// in a tick.
    pub fn new(interaction_rate: Real) -> (a: Self)
        ensures
            a.rate() == interaction_rate,
            a.quality() == (Real(HONEST_QUALITY), Real(HONEST_VARIANCE)),
    {
        Self {
            interaction_rate,
            base_quality: Real::from_bits(HONEST_QUALITY),
            quality_variance: Real::from_bits(HONEST_VARIANCE),
        }
    }

    /// The same agent with the given quality of work.
    pub fn with_quality(self, base: Real, variance: Real) -> (a: Self)
        ensures
            a.rate() == self.rate(),
            a.quality() == (base, variance),
    {
        Self { interaction_rate: self.interaction_rate, base_quality: base, quality_variance: variance }
    }

    /// What the agent does in a tick, by what was drawn: whether it begins an
    /// exchange, the partner, and the quality and the tone of the exchange.
    /// The exchange is of the usual volume. Without a partner there is no
    /// exchange.
    pub fn acts(
        &self,
        node: &Node,
        partner: Option<NodeId>,
        begins_one: bool,
        quality: Real,
        tone: Real,
    ) -> (events: Vec<Event>)
        requires
            node.wf(),
        ensures
            match partner {
                Some(p) if begins_one => events@.len() == 1 && begins(
                    *node,
                    p,
                    Real(ONE_BITS),
                    quality,
                    tone,
                    events@[0],
                ),
                _ => events@.len() == 0,
            },
            forall|i: int|
                0 <= i < events@.len() ==> begun_by(#[trigger] events@[i], node.id)
                    && events@[i].wf() && Some(partner_of(events@[i])) == partner,
    {
        let mut events: Vec<Event> = Vec::new();
        if begins_one {
            if let Some(p) = partner {
                events.push(begin_exchange(node, p, Real::one(), quality, tone));
            }
        }
        events
    }

    /// What the agent does in a tick: with its probability of doing so it
    /// begins one exchange, with the first capability of its node.
    ///
    /// Mostly the agent turns to a node that it has a connection to, with a
    /// preference for strong connections. Otherwise it turns to a node of
    /// the network that it has no connection to, and where there is none, to
    /// a node that it has a connection to (see `partner_chosen`).
    pub fn act<C: Chance>(
        &self,
        node: &Node,
        network: &Table<NodeId, Node>,
        tick: u64,
        chance: &mut C,
    ) -> (events: Vec<Event>)
        requires
            node.wf(),
            network.wf(),
        ensures
            events@.len() <= 1,
            forall|i: int|
                0 <= i < events@.len() ==> begun_by(#[trigger] events@[i], node.id) && (
                node.connections.has(partner_of(events@[i])) || (network.has(
                    partner_of(events@[i]),
                ) && partner_of(events@[i]) != node.id)),
            forall|i: int|
                0 <= i < events@.len() ==> carries(#[trigger] events@[i], ONE_BITS, first_of(*node)),
            forall|i: int| 0 <= i < events@.len() ==> (#[trigger] events@[i]).wf(),
    {
        if !chance.happens(self.interaction_rate) {
            return Vec::new();
        }
        let familiar = node.connections.len() > 0 && chance.happens(Real::from_bits(OFTEN));
        let found = if familiar {
            Vec::new()
        } else {
            strangers(node, network)
        };
        let pick = if familiar {
            chance.weighted(&weights(node))
        } else if found.len() > 0 {
            chance.below(found.len())
        } else if node.connections.len() > 0 {
            chance.below(node.connections.len())
        } else {
            0
        };
        let partner = partner_for(node, &found, familiar, pick);
        if partner.is_none() {
            return Vec::new();
        }
        let quality = chance.around(self.base_quality, self.quality_variance);
        let tone = chance.between(
            Real::from_bits(HONEST_TONE_LOW),
            Real::from_bits(HONEST_TONE_HIGH),
        );
        self.acts(node, partner, true, quality, tone)
    }

    /// The name of the behaviour.
    pub fn agent_type(&self) -> (name: &'static str)
        ensures
            name@ == "honest"@,
    {
        "honest"
    }
}

/// An agent that builds trust with good work, and defects at a given tick.
#[derive(Clone, Copy, Debug)]
pub struct StrategicAdversary {
    defection_tick: u64,
    good_quality: Real,
    bad_quality: Real,
    interaction_rate: Real,
}

impl StrategicAdversary {
    /// The tick at which the agent defects.
    pub closed spec fn defects_at(&self) -> u64 {
        self.defection_tick
    }

    /// The quality of the work before and after the defection.
    pub closed spec fn qualities(&self) -> (Real, Real) {
        (self.good_quality, self.bad_quality)
    }

    /// A strategic adversary that defects at the given tick.
    pub fn new(defection_tick: u64) -> (a: Self)
        ensures
            a.defects_at() == defection_tick,
            a.qualities() == (Real(STRATEGIC_GOOD), Real(STRATEGIC_BAD)),
    {
        Self {
            defection_tick,
            good_quality: Real::from_bits(STRATEGIC_GOOD),
            bad_quality: Real::from_bits(STRATEGIC_BAD),
            interaction_rate: Real::from_bits(OFTEN),
        }
    }

    /// What the agent does in the tick `tick`, by what was drawn: whether it
    /// begins an exchange, and the place of the partner among the
    /// connections of its node. The exchange is of the usual volume and of
    /// neutral tone; its quality is good before the tick of the defection,
    /// and bad from it on.
    pub fn acts(&self, node: &Node, tick: u64, begins_one: bool, pick: usize) -> (events: Vec<Event>)
        requires
            node.wf(),
        ensures
            one_exchange(
                *node,
                begins_one,
                pick,
                Real(ONE_BITS),
                if tick < self.defects_at() {
                    self.qualities().0
                } else {
                    self.qualities().1
                },
                Real(0),
                events@,
            ),
            events@.len() <= 1,
            node.connections.keys().len() == 0 ==> events@.len() == 0,
            forall|i: int|
                0 <= i < events@.len() ==> begun_by(#[trigger] events@[i], node.id)
                    && node.connections.has(partner_of(events@[i])) && events@[i].wf(),
    {
        let quality = if tick < self.defection_tick {
            self.good_quality
        } else {
            self.bad_quality
        };
        exchange_once(node, begins_one, pick, Real::one(), quality, Real::zero())
    }

    /// What the agent does in a tick: often it begins one exchange with a
    /// node that it has a connection to. The quality of the exchange is
    /// good before the tick of the defection, and bad from it on.
    pub fn act<C: Chance>(
        &self,
        node: &Node,
        network: &Table<NodeId, Node>,
        tick: u64,
        chance: &mut C,
    ) -> (events: Vec<Event>)
        requires
            node.wf(),
        ensures
            events@.len() <= 1,
            node.connections.keys().len() == 0 ==> events@.len() == 0,
            forall|i: int|
                0 <= i < events@.len() ==> begun_by(#[trigger] events@[i], node.id)
                    && node.connections.has(partner_of(events@[i])),
            forall|i: int|
                0 <= i < events@.len() ==> quality_rank(#[trigger] events@[i]) == if tick
                    < self.defects_at() {
                    Score::clamped(self.qualities().0)
                } else {
                    Score::clamped(self.qualities().1)
                },
            forall|i: int|
                0 <= i < events@.len() ==> carries(#[trigger] events@[i], ONE_BITS, first_of(*node))
                    && tone_rank(events@[i]) == 0,
    {
        let begins_one = chance.happens(self.interaction_rate);
        let pick = if begins_one && node.connections.len() > 0 {
            chance.below(node.connections.len())
        } else {
            0
        };
        self.acts(node, tick, begins_one, pick)
    }

    /// The name of the behaviour.
    pub fn agent_type(&self) -> (name: &'static str)
        ensures
            name@ == "strategic_adversary"@,
    {
        "strategic_adversary"
    }
}

/// An agent that takes, and gives work of low quality.
#[derive(Clone, Copy, Debug)]
pub struct FreeRider {
    interaction_rate: Real,
}

impl FreeRider {
    /// The probability of beginning an exchange in a tick.
    pub closed spec fn rate(&self) -> Real {
        self.interaction_rate
    }

    /// A free rider with the given probability of beginning an exchange in
    /// a tick.
    pub fn new(interaction_rate: Real) -> (a: Self)
        ensures
            a.rate() == interaction_rate,
    {
        Self { interaction_rate }
    }

    /// What the agent does in a tick, by what was drawn: whether it begins an
    /// exchange, the place of the partner among the connections of its node,
    /// and the quality of the exchange. The exchange is of the usual volume
    /// and of the tone of a free rider.
    pub fn acts(&self, node: &Node, begins_one: bool, pick: usize, quality: Real) -> (events: Vec<Event>)
        requires
            node.wf(),
        ensures
            one_exchange(
                *node,
                begins_one,
                pick,
                Real(ONE_BITS),
                quality,
                Real(FREE_RIDER_TONE),
                events@,
            ),
            events@.len() <= 1,
            node.connections.keys().len() == 0 ==> events@.len() == 0,
            forall|i: int|
                0 <= i < events@.len() ==> begun_by(#[trigger] events@[i], node.id)
                    && node.connections.has(partner_of(events@[i])) && events@[i].wf(),
    {
        exchange_once(
            node,
            begins_one,
            pick,
            Real::one(),
            quality,
            Real::from_bits(FREE_RIDER_TONE),
        )
    }

    /// What the agent does in a tick: with its probability of doing so it
    /// begins one exchange of low quality with a node that it has a
    /// connection to.
    pub fn act<C: Chance>(
        &self,
        node: &Node,
        network: &Table<NodeId, Node>,
        tick: u64,
        chance: &mut C,
    ) -> (events: Vec<Event>)
        requires
            node.wf(),
        ensures
            events@.len() <= 1,
            node.connections.keys().len() == 0 ==> events@.len() == 0,
            forall|i: int|
                0 <= i < events@.len() ==> begun_by(#[trigger] events@[i], node.id)
                    && node.connections.has(partner_of(events@[i])),
            forall|i: int|
                0 <= i < events@.len() ==> carries(#[trigger] events@[i], ONE_BITS, first_of(*node))
                    && tone_rank(events@[i]) == rank_of(FREE_RIDER_TONE),
    {
        let begins_one = chance.happens(self.interaction_rate);
        let draws = begins_one && node.connections.len() > 0;
        let pick = if draws {
            chance.below(node.connections.len())
        } else {
            0
        };
        let quality = if draws {
            chance.between(Real::from_bits(FREE_RIDER_LOW), Real::from_bits(FREE_RIDER_HIGH))
        } else {
            Real::zero()
        };
        self.acts(node, begins_one, pick, quality)
    }

    /// The name of the behaviour.
    pub fn agent_type(&self) -> (name: &'static str)
        ensures
            name@ == "free_rider"@,
    {
        "free_rider"
    }
}

/// One of several identities that work together: they rate one another
/// highly, and outsiders poorly.
#[derive(Debug)]
pub struct SybilCluster {
    cluster_members: Vec<NodeId>,
    internal_rate: Real,
    external_rate: Real,
}

impl SybilCluster {
    /// The identities of the cluster.
    pub closed spec fn members(&self) -> Seq<NodeId> {
        self.cluster_members@
    }

    /// An identity of the cluster of the given identities.
    pub fn new(cluster_members: Vec<NodeId>) -> (a: Self)
        ensures
            a.members() == cluster_members@,
    {
        Self {
            cluster_members,
            internal_rate: Real::from_bits(SYBIL_INTERNAL_RATE),
            external_rate: Real::from_bits(SYBIL_EXTERNAL_RATE),
        }
    }

    /// Whether `parts` are the exchanges with the other identities of the
    /// cluster, identity by identity, by what was drawn: with each other
    /// identity for which it was drawn that the agent deals with it, the
    /// exchange of the usual volume and of the quality and tone that the
    /// identities give one another; with no other, none.
    pub open spec fn deals_inside(&self, node: Node, inside: Seq<bool>, parts: Seq<Seq<Event>>) -> bool {
        &&& parts.len() == self.members().len()
        &&& forall|i: int|
            0 <= i < parts.len() ==> if self.members()[i] != node.id && i < inside.len()
                && inside[i] {
                (#[trigger] parts[i]).len() == 1 && begins(
                    node,
                    self.members()[i],
                    Real(ONE_BITS),
                    Real(SYBIL_INTERNAL_QUALITY),
                    Real(SYBIL_INTERNAL_TONE),
                    parts[i][0],
                )
            } else {
                (#[trigger] parts[i]).len() == 0
            }
    }

    /// Whether `parts` are the exchanges with the partners outside the
    /// cluster, connection by connection, by what was drawn: with each
    /// partner outside the cluster for which it was drawn that the agent
    /// deals with it, the exchange of the usual volume and of the quality
    /// and tone that the identities give outsiders; with no other, none.
    pub open spec fn deals_outside(&self, node: Node, outside: Seq<bool>, parts: Seq<Seq<Event>>) -> bool {
        &&& parts.len() == node.connections.keys().len()
        &&& forall|i: int|
            0 <= i < parts.len() ==> if !self.members().contains(node.connections.keys()[i]) && i
                < outside.len() && outside[i] {
                (#[trigger] parts[i]).len() == 1 && begins(
                    node,
                    node.connections.keys()[i],
                    Real(ONE_BITS),
                    Real(SYBIL_EXTERNAL_QUALITY),
                    Real(SYBIL_EXTERNAL_TONE),
                    parts[i][0],
                )
            } else {
                (#[trigger] parts[i]).len() == 0
            }
    }

    /// Whether `events` are what the agent does in a tick, by what was
    /// drawn: the exchanges with the other identities of the cluster, in the
    /// order of the identities, and behind them the exchanges with the
    /// partners outside the cluster, in the order of the connections.
    pub open spec fn acted(
        &self,
        node: Node,
        inside: Seq<bool>,
        outside: Seq<bool>,
        events: Seq<Event>,
    ) -> bool {
        exists|within: Seq<Seq<Event>>, without: Seq<Seq<Event>>|
            #![trigger self.deals_inside(node, inside, within), self.deals_outside(node, outside, without)]
            self.deals_inside(node, inside, within) && self.deals_outside(node, outside, without)
                && events == within.flatten() + without.flatten()
    }

    /// What the agent does in a tick, by what was drawn (see `acted`): for
    /// each identity of the cluster, and for each connection of its node,
    /// whether the agent deals with it. A draw that is not there counts as
    /// one against.
    pub fn acts(&self, node: &Node, inside: &Vec<bool>, outside: &Vec<bool>) -> (events: Vec<Event>)
        requires
            node.wf(),
        ensures
            self.acted(*node, inside@, outside@, events@),
            forall|i: int|
                0 <= i < events@.len() ==> begun_by(#[trigger] events@[i], node.id) && self.dealt(
                    *node,
                    events@[i],
                ) && events@[i].wf(),
    {
        let mut events: Vec<Event> = Vec::new();
        let ghost mut within: Seq<Seq<Event>> = Seq::empty();
        let mut i: usize = 0;
        while i < self.cluster_members.len()
            invariant
                i <= self.cluster_members.len(),
                node.wf(),
                within.len() == i,
                forall|k: int|
                    0 <= k < i ==> if self.members()[k] != node.id && k < inside@.len()
                        && inside@[k] {
                        (#[trigger] within[k]).len() == 1 && begins(
                            *node,
                            self.members()[k],
                            Real(ONE_BITS),
                            Real(SYBIL_INTERNAL_QUALITY),
                            Real(SYBIL_INTERNAL_TONE),
                            within[k][0],
                        )
                    } else {
                        (#[trigger] within[k]).len() == 0
                    },
                events@ == within.flatten(),
                forall|k: int|
                    0 <= k < events@.len() ==> begun_by(#[trigger] events@[k], node.id)
                        && self.dealt(*node, events@[k]) && events@[k].wf(),
            decreases self.cluster_members.len() - i,
        {
            let member = self.cluster_members[i];
            let ghost held = events@;
            let ghost earlier = within;
            let ghost mut part: Seq<Event> = Seq::empty();
            if !member.same_as(&node.id) && i < inside.len() && inside[i] {
                let e = begin_exchange(
                    node,
                    member,
                    Real::one(),
                    Real::from_bits(SYBIL_INTERNAL_QUALITY),
                    Real::from_bits(SYBIL_INTERNAL_TONE),
                );
                proof {
                    part = seq![e];
                    assert(self.members()[i as int] == member);
                    assert(self.members().contains(partner_of(e)));
                    assert(self.dealt(*node, e));
                }
                events.push(e);
            }
            proof {
                earlier.lemma_flatten_push(part);
                within = earlier.push(part);
                assert(events@ =~= held + part);
                assert forall|k: int| 0 <= k < events@.len() implies begun_by(
                    #[trigger] events@[k],
                    node.id,
                ) && self.dealt(*node, events@[k]) && events@[k].wf() by {
                    if k < held.len() {
                        assert(events@[k] == held[k]);
                    }
                }
                assert forall|k: int| 0 <= k < i + 1 implies if self.members()[k] != node.id && k
                    < inside@.len() && inside@[k] {
                    (#[trigger] within[k]).len() == 1 && begins(
                        *node,
                        self.members()[k],
                        Real(ONE_BITS),
                        Real(SYBIL_INTERNAL_QUALITY),
                        Real(SYBIL_INTERNAL_TONE),
                        within[k][0],
                    )
                } else {
                    (#[trigger] within[k]).len() == 0
                } by {
                    if k < i {
                        assert(within[k] == earlier[k]);
                    } else {
                        assert(within[k] == part);
                    }
                }
            }
            i += 1;
        }
        let ghost first = events@;
        let ghost mut without: Seq<Seq<Event>> = Seq::empty();
        let n = node.connections.len();
        let mut t: usize = 0;
        while t < n
            invariant
                t <= n,
                n == node.connections.keys().len(),
                node.wf(),
                without.len() == t,
                forall|k: int|
                    0 <= k < t ==> if !self.members().contains(node.connections.keys()[k]) && k
                        < outside@.len() && outside@[k] {
                        (#[trigger] without[k]).len() == 1 && begins(
                            *node,
                            node.connections.keys()[k],
                            Real(ONE_BITS),
                            Real(SYBIL_EXTERNAL_QUALITY),
                            Real(SYBIL_EXTERNAL_TONE),
                            without[k][0],
                        )
                    } else {
                        (#[trigger] without[k]).len() == 0
                    },
                events@ == first + without.flatten(),
                forall|k: int|
                    0 <= k < events@.len() ==> begun_by(#[trigger] events@[k], node.id)
                        && self.dealt(*node, events@[k]) && events@[k].wf(),
            decreases n - t,
        {
            let partner = node.connections.key_at(t);
            let ghost held = events@;
            let ghost earlier = without;
            let ghost mut part: Seq<Event> = Seq::empty();
            if !contains_node(&self.cluster_members, &partner) && t < outside.len() && outside[t] {
                let e = begin_exchange(
                    node,
                    partner,
                    Real::one(),
                    Real::from_bits(SYBIL_EXTERNAL_QUALITY),
                    Real::from_bits(SYBIL_EXTERNAL_TONE),
                );
                proof {
                    part = seq![e];
                    assert(self.dealt(*node, e));
                }
                events.push(e);
            }
            proof {
                earlier.lemma_flatten_push(part);
                without = earlier.push(part);
                assert(events@ =~= held + part);
                assert(events@ =~= first + without.flatten());
                assert forall|k: int| 0 <= k < events@.len() implies begun_by(
                    #[trigger] events@[k],
                    node.id,
                ) && self.dealt(*node, events@[k]) && events@[k].wf() by {
                    if k < held.len() {
                        assert(events@[k] == held[k]);
                    }
                }
                assert forall|k: int| 0 <= k < t + 1 implies if !self.members().contains(
                    node.connections.keys()[k],
                ) && k < outside@.len() && outside@[k] {
                    (#[trigger] without[k]).len() == 1 && begins(
                        *node,
                        node.connections.keys()[k],
                        Real(ONE_BITS),
                        Real(SYBIL_EXTERNAL_QUALITY),
                        Real(SYBIL_EXTERNAL_TONE),
                        without[k][0],
                    )
                } else {
                    (#[trigger] without[k]).len() == 0
                } by {
                    if k < t {
                        assert(without[k] == earlier[k]);
                    } else {
                        assert(without[k] == part);
                    }
                }
            }
            t += 1;
        }
        proof {
            assert(self.deals_inside(*node, inside@, within));
            assert(self.deals_outside(*node, outside@, without));
        }
        events
    }

    /// What the agent does in a tick. With each other identity of the
    /// cluster it mostly begins an exchange of the highest quality. With
    /// each node outside the cluster that it has a connection to it seldom
    /// begins an exchange, and then one of low quality.
    pub fn act<C: Chance>(
        &self,
        node: &Node,
        network: &Table<NodeId, Node>,
        tick: u64,
        chance: &mut C,
    ) -> (events: Vec<Event>)
        requires
            node.wf(),
        ensures
            forall|i: int|
                0 <= i < events@.len() ==> begun_by(#[trigger] events@[i], node.id) && self.dealt(
                    *node,
                    events@[i],
                ),
            forall|i: int| 0 <= i < events@.len() ==> (#[trigger] events@[i]).wf(),
    {
        let mut inside: Vec<bool> = Vec::new();
        let mut i: usize = 0;
        while i < self.cluster_members.len()
            invariant
                i <= self.cluster_members.len(),
            decreases self.cluster_members.len() - i,
        {
            let deals = !self.cluster_members[i].same_as(&node.id) && chance.happens(
                self.internal_rate,
            );
            inside.push(deals);
            i += 1;
        }
        let mut outside: Vec<bool> = Vec::new();
        let n = node.connections.len();
        let mut t: usize = 0;
        while t < n
            invariant
                t <= n,
                n == node.connections.keys().len(),
                node.wf(),
            decreases n - t,
        {
            let partner = node.connections.key_at(t);
            let deals = !contains_node(&self.cluster_members, &partner) && chance.happens(
                self.external_rate,
            );
            outside.push(deals);
            t += 1;
        }
        self.acts(node, &inside, &outside)
    }

    /// Whether an exchange is one that an identity of the cluster begins:
    /// with another identity of the cluster and of the highest quality, or
    /// with a node outside the cluster that it has a connection to and of
    /// low quality.
    pub open spec fn dealt(&self, node: Node, e: Event) -> bool {
        &&& carries(e, ONE_BITS, first_of(node))
        &&& if self.members().contains(partner_of(e)) {
            &&& partner_of(e) != node.id
            &&& quality_rank(e) == rank_of(SYBIL_INTERNAL_QUALITY)
            &&& tone_rank(e) == rank_of(SYBIL_INTERNAL_TONE)
        } else {
            &&& node.connections.has(partner_of(e))
            &&& quality_rank(e) == rank_of(SYBIL_EXTERNAL_QUALITY)
            &&& tone_rank(e) == rank_of(SYBIL_EXTERNAL_TONE)
        }
    }

    /// The name of the behaviour.
    pub fn agent_type(&self) -> (name: &'static str)
        ensures
            name@ == "sybil"@,
    {
        "sybil"
    }
}

/// An agent that seldom does anything.
#[derive(Clone, Copy, Debug)]
pub struct PassiveAgent {
    interaction_rate: Real,
}

impl PassiveAgent {
    /// The probability of beginning an exchange in a tick.
    pub closed spec fn rate(&self) -> Real {
        self.interaction_rate
    }

    /// A passive agent.
    pub fn new() -> (a: Self)
        ensures
            a.rate() == Real(PASSIVE_RATE),
    {
        Self { interaction_rate: Real::from_bits(PASSIVE_RATE) }
    }

    /// What the agent does in a tick, by what was drawn: whether it begins an
    /// exchange, and the place of the partner among the connections of its
    /// node. The exchange is of half the usual volume, of the quality of a
    /// passive agent, and of neutral tone.
    pub fn acts(&self, node: &Node, begins_one: bool, pick: usize) -> (events: Vec<Event>)
        requires
            node.wf(),
        ensures
            one_exchange(
                *node,
                begins_one,
                pick,
                Real(PASSIVE_VOLUME),
                Real(PASSIVE_QUALITY),
                Real(0),
                events@,
            ),
            events@.len() <= 1,
            node.connections.keys().len() == 0 ==> events@.len() == 0,
            forall|i: int|
                0 <= i < events@.len() ==> begun_by(#[trigger] events@[i], node.id)
                    && node.connections.has(partner_of(events@[i])) && events@[i].wf(),
    {
        exchange_once(
            node,
            begins_one,
            pick,
            Real::from_bits(PASSIVE_VOLUME),
            Real::from_bits(PASSIVE_QUALITY),
            Real::zero(),
        )
    }

    /// What the agent does in a tick: seldom it begins one exchange, of half
    /// the usual volume, with a node that it has a connection to.
    pub fn act<C: Chance>(
        &self,
        node: &Node,
        network: &Table<NodeId, Node>,
        tick: u64,
        chance: &mut C,
    ) -> (events: Vec<Event>)
        requires
            node.wf(),
        ensures
            events@.len() <= 1,
            node.connections.keys().len() == 0 ==> events@.len() == 0,
            forall|i: int|
                0 <= i < events@.len() ==> begun_by(#[trigger] events@[i], node.id)
                    && node.connections.has(partner_of(events@[i])),
            forall|i: int|
                0 <= i < events@.len() ==> quality_rank(#[trigger] events@[i]) == rank_of(
                    PASSIVE_QUALITY,
                ),
            forall|i: int|
                0 <= i < events@.len() ==> carries(
                    #[trigger] events@[i],
                    PASSIVE_VOLUME,
                    first_of(*node),
                ) && tone_rank(events@[i]) == 0,
    {
        let begins_one = chance.happens(self.interaction_rate);
        let pick = if begins_one && node.connections.len() > 0 {
            chance.below(node.connections.len())
        } else {
            0
        };
        self.acts(node, begins_one, pick)
    }

    /// The name of the behaviour.
    pub fn agent_type(&self) -> (name: &'static str)
        ensures
            name@ == "passive"@,
    {
        "passive"
    }
}

impl Default for PassiveAgent {
    /// A passive agent.
    fn default() -> (a: Self)
        ensures
            a.rate() == Real(PASSIVE_RATE),
    {
        Self::new()
    }
}

/// The behaviour of a node: one of the five.
#[derive(Debug)]
pub enum Agent {
    /// Follows the protocol.
    Honest(HonestAgent),
    /// Builds trust, then defects.
    Strategic(StrategicAdversary),
    /// Takes, and gives little.
    FreeRider(FreeRider),
    /// One of several identities that rate one another.
    Sybil(SybilCluster),
    /// Begins little.
    Passive(PassiveAgent),
}

impl Agent {
    /// Whether `a` is the agent of the given behaviour: of the figures that
    /// the behaviour names, and else of the usual ones.
    pub open spec fn is_for(agent_type: AgentType, a: Agent) -> bool {
        match agent_type {
            AgentType::Honest { interaction_rate, base_quality } => a matches Agent::Honest(h)
                && h.rate() == interaction_rate && h.quality() == (
                base_quality,
                Real(HONEST_VARIANCE),
            ),
            AgentType::Strategic { defection_tick } => a matches Agent::Strategic(s)
                && s.defects_at() == defection_tick && s.qualities() == (
                Real(STRATEGIC_GOOD),
                Real(STRATEGIC_BAD),
            ),
            AgentType::FreeRider { interaction_rate } => a matches Agent::FreeRider(f) && f.rate()
                == interaction_rate,
            AgentType::Sybil { cluster_members } => a matches Agent::Sybil(s) && s.members()
                == cluster_members@,
            AgentType::Passive => a matches Agent::Passive(p) && p.rate() == Real(PASSIVE_RATE),
        }
    }

    /// The agent that a node is to get when it joins.
    pub fn from_type(agent_type: AgentType) -> (a: Self)
        ensures
            Self::is_for(agent_type, a),
    {
        match agent_type {
            AgentType::Honest { interaction_rate, base_quality } => Agent::Honest(
                HonestAgent::new(interaction_rate).with_quality(
                    base_quality,
                    Real::from_bits(HONEST_VARIANCE),
                ),
            ),
            AgentType::Strategic { defection_tick } => Agent::Strategic(
                StrategicAdversary::new(defection_tick),
            ),
            AgentType::FreeRider { interaction_rate } => Agent::FreeRider(
                FreeRider::new(interaction_rate),
            ),
            AgentType::Sybil { cluster_members } => Agent::Sybil(SybilCluster::new(cluster_members)),
            AgentType::Passive => Agent::Passive(PassiveAgent::new()),
        }
    }

    /// What the agent does in a tick: the exchanges that its node begins.
    /// Each of them is one that the node begins.
    pub fn act<C: Chance>(
        &self,
        node: &Node,
        network: &Table<NodeId, Node>,
        tick: u64,
        chance: &mut C,
    ) -> (events: Vec<Event>)
        requires
            node.wf(),
            network.wf(),
        ensures
            forall|i: int| 0 <= i < events@.len() ==> begun_by(#[trigger] events@[i], node.id),
            forall|i: int| 0 <= i < events@.len() ==> (#[trigger] events@[i]).wf(),
    {
        let events = match self {
            Agent::Honest(a) => a.act(node, network, tick, chance),
            Agent::Strategic(a) => a.act(node, network, tick, chance),
            Agent::FreeRider(a) => a.act(node, network, tick, chance),
            Agent::Sybil(a) => a.act(node, network, tick, chance),
            Agent::Passive(a) => a.act(node, network, tick, chance),
        };
        events
    }

    /// The name of the behaviour.
    pub fn agent_type(&self) -> (name: &'static str)
        ensures
            name@ == match *self {
                Agent::Honest(_) => "honest"@,
                Agent::Strategic(_) => "strategic_adversary"@,
                Agent::FreeRider(_) => "free_rider"@,
                Agent::Sybil(_) => "sybil"@,
                Agent::Passive(_) => "passive"@,
            },
    {
        match self {
            Agent::Honest(a) => a.agent_type(),
            Agent::Strategic(a) => a.agent_type(),
            Agent::FreeRider(a) => a.agent_type(),
            Agent::Sybil(a) => a.agent_type(),
            Agent::Passive(a) => a.agent_type(),
        }
    }
}

} // verus!
