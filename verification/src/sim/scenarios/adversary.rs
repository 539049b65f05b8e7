//! The injection of adversaries into a network of honest agents.

use vstd::prelude::*;
use crate::capability::common;
use crate::node::Node;
use crate::scalar::HALF_BITS;
use crate::sim::agents::{HONEST_QUALITY, HONEST_VARIANCE};
use crate::sim::events::{AgentType, Event, EventScheduler, ScheduledEvent};
use crate::sim::network::Network;
use crate::sim::scenarios::trust_emergence::{attach_honest_agents, is_honest};
use crate::sim::scenarios::Scenario;
use crate::types::{copy_nodes, index_bytes, CapabilityId, NodeId, Real, Timestamp};

verus! {

/// The kind of adversary that is injected.
#[derive(Clone, Copy, Debug, PartialEq, Eq, Structural)]
pub enum AdversaryType {
    /// Builds trust, and defects.
    Strategic,
    /// Takes, and gives work of low quality.
    FreeRider,
    /// Several identities that work together.
    Sybil,
}

/// Adversaries join a network of honest agents.
#[derive(Clone, Copy, Debug)]
pub struct AdversaryScenario {
    /// The kind of adversary.
    pub adversary_type: AdversaryType,
    /// The tick at which the adversaries join.
    pub inject_at_tick: u64,
    /// The number of adversaries.
    pub adversary_count: usize,
    /// The tick at which strategic adversaries defect.
    pub defection_tick: u64,
    /// The probability with which an honest agent begins an exchange in a
    /// tick.
    pub honest_interaction_rate: Real,
}

/// The distance of the indices of the adversaries from the number of nodes.
pub const ADVERSARY_OFFSET: u64 = 1000;

/// The index behind the identifier of adversary `i` in a network of
/// `nodes` nodes: a thousand and `i` beyond the number of nodes. The index
/// wraps round at the largest number.
pub open spec fn adversary_index(nodes: nat, i: nat) -> u64 {
    ((nodes + ADVERSARY_OFFSET + i) % 0x1_0000_0000_0000_0000) as u64
}

/// The sum of two numbers, wrapped round at the end of the 64-bit range.
fn wrapping_sum(a: u64, b: u64) -> (r: u64)
    ensures
        r == ((a + b) % 0x1_0000_0000_0000_0000) as u64,
{
    if b <= u64::MAX - a {
        a + b
    } else {
        b - (u64::MAX - a) - 1
    }
}

/// Whether a scheduled event is the joining of adversary `i` of the
/// scenario: at the tick of the injection, a new node under the identifier
/// of the adversary joins, with the behaviour of its kind. An identity of a
/// Sybil cluster knows all identities of the cluster.
pub open spec fn is_injection(
    scheduled: ScheduledEvent,
    scenario: AdversaryScenario,
    nodes: nat,
    i: nat,
) -> bool {
    &&& scheduled.at_tick == scenario.inject_at_tick
    &&& scheduled.event matches Event::NodeJoin { node, agent_type }
    &&& node.id@ == index_bytes(adversary_index(nodes, i))
    &&& node.offers(CapabilityId(CapabilityId::of_name("analysis"@)))
    &&& node.connections.keys().len() == 0
    &&& agent_type matches Some(kind)
    &&& match scenario.adversary_type {
        AdversaryType::Strategic => kind matches AgentType::Strategic { defection_tick }
            && defection_tick == scenario.defection_tick,
        AdversaryType::FreeRider => kind matches AgentType::FreeRider { interaction_rate }
            && interaction_rate == Real(HALF_BITS),
        AdversaryType::Sybil => kind matches AgentType::Sybil { cluster_members }
            && cluster_members@.len() == scenario.adversary_count && forall|k: int|
            0 <= k < cluster_members@.len() ==> (#[trigger] cluster_members@[k])@ == index_bytes(
                adversary_index(nodes, k as nat),
            ),
    }
}

/// Whether the joining of adversary `i` is scheduled.
pub open spec fn injection_scheduled(
    pending: Seq<ScheduledEvent>,
    scenario: AdversaryScenario,
    nodes: nat,
    i: nat,
) -> bool {
    exists|k: int| 0 <= k < pending.len() && is_injection(#[trigger] pending[k], scenario, nodes, i)
}

impl AdversaryScenario {
    /// The scenario with three adversaries of the given kind that join at
    /// tick zero; strategic ones defect at tick one hundred.
    pub fn new(adversary_type: AdversaryType) -> (s: Self)
        ensures
            s.adversary_type == adversary_type,
            s.inject_at_tick == 0,
            s.adversary_count == 3,
            s.defection_tick == 100,
            s.honest_interaction_rate == Real(HALF_BITS),
    {
        Self {
            adversary_type,
            inject_at_tick: 0,
            adversary_count: 3,
            defection_tick: 100,
            honest_interaction_rate: Real::from_bits(HALF_BITS),
        }
    }

    /// The same scenario with the given tick of the injection.
    pub fn inject_at(self, tick: u64) -> (s: Self)
        ensures
            s == (AdversaryScenario { inject_at_tick: tick, ..self }),
    {
        Self { inject_at_tick: tick, ..self }
    }

    /// The same scenario with the given number of adversaries.
    pub fn with_count(self, count: usize) -> (s: Self)
        ensures
            s == (AdversaryScenario { adversary_count: count, ..self }),
    {
        Self { adversary_count: count, ..self }
    }

    /// The same scenario with the given tick of the defection.
    pub fn defect_at(self, tick: u64) -> (s: Self)
        ensures
            s == (AdversaryScenario { defection_tick: tick, ..self }),
    {
        Self { defection_tick: tick, ..self }
    }

    /// The identifiers of the adversaries.
    fn adversary_ids(&self, nodes: usize) -> (ids: Vec<NodeId>)
        ensures
            ids@.len() == self.adversary_count,
            forall|k: int|
                0 <= k < ids@.len() ==> (#[trigger] ids@[k])@ == index_bytes(
                    adversary_index(nodes as nat, k as nat),
                ),
    {
        let base = wrapping_sum(nodes as u64, ADVERSARY_OFFSET);
        let mut ids: Vec<NodeId> = Vec::new();
        let mut i: usize = 0;
        while i < self.adversary_count
            invariant
                i <= self.adversary_count,
                base == ((nodes + ADVERSARY_OFFSET) % 0x1_0000_0000_0000_0000) as u64,
                ids@.len() == i,
                forall|k: int|
                    0 <= k < i ==> (#[trigger] ids@[k])@ == index_bytes(
                        adversary_index(nodes as nat, k as nat),
                    ),
            decreases self.adversary_count - i,
        {
            let index = wrapping_sum(base, i as u64);
            assert(index == adversary_index(nodes as nat, i as nat)) by {
                assert(((nodes + ADVERSARY_OFFSET) % 0x1_0000_0000_0000_0000 + i)
                    % 0x1_0000_0000_0000_0000 == (nodes + ADVERSARY_OFFSET + i)
                    % 0x1_0000_0000_0000_0000) by (nonlinear_arith)
                    requires
                        nodes >= 0,
                        i >= 0,
                ;
            }
            ids.push(NodeId::from_index(index));
            i += 1;
        }
        ids
    }
}

impl Default for AdversaryScenario {
    /// Three strategic adversaries that join at tick zero and defect at tick
    /// one hundred.
    fn default() -> (s: Self)
        ensures
            s.adversary_type == AdversaryType::Strategic,
            s.inject_at_tick == 0,
            s.adversary_count == 3,
            s.defection_tick == 100,
            s.honest_interaction_rate == Real(HALF_BITS),
    {
        Self::new(AdversaryType::Strategic)
    }
}

impl Scenario for AdversaryScenario {
    /// Every node of the network has an honest agent, the nodes are as they
    /// were, and the schedule holds the joining of each adversary besides
    /// what it held (see `is_injection`).
    open spec fn sets_up(
        &self,
        before: Network,
        before_schedule: EventScheduler,
        after: Network,
        after_schedule: EventScheduler,
        now: Timestamp,
    ) -> bool {
        &&& after.nodes == before.nodes
        &&& forall|i: int|
            0 <= i < after.nodes.keys().len() ==> is_honest(
                after,
                #[trigger] after.nodes.keys()[i],
                self.honest_interaction_rate,
                Real(HONEST_QUALITY),
                Real(HONEST_VARIANCE),
            )
        &&& after_schedule.pending().len() == before_schedule.pending().len()
            + self.adversary_count
        &&& forall|i: nat|
            i < self.adversary_count ==> #[trigger] injection_scheduled(
                after_schedule.pending(),
                *self,
                before.nodes.keys().len(),
                i,
            )
    }

    /// The name of the scenario, as a plain value.
    open spec fn name_text(&self) -> Seq<char> {
        match self.adversary_type {
            AdversaryType::Strategic => "adversary_strategic"@,
            AdversaryType::FreeRider => "adversary_free_rider"@,
            AdversaryType::Sybil => "adversary_sybil"@,
        }
    }

    /// What the scenario is about, as a plain value.
    open spec fn description_text(&self) -> Seq<char> {
        match self.adversary_type {
            AdversaryType::Strategic => "Inject strategic adversaries that build trust then defect"@,
            AdversaryType::FreeRider => "Inject free riders that take but don't contribute"@,
            AdversaryType::Sybil => "Inject a coordinated Sybil cluster"@,
        }
    }

    /// Gives every node of the network an honest agent, and schedules the
    /// joining of each adversary for the tick of the injection (see
    /// `is_injection`).
    fn setup(&self, network: &mut Network, scheduler: &mut EventScheduler, now: Timestamp) {
        attach_honest_agents(
            network,
            self.honest_interaction_rate,
            Real::from_bits(HONEST_QUALITY),
            Real::from_bits(HONEST_VARIANCE),
        );
        let nodes = network.node_count();
        let ids = self.adversary_ids(nodes);
        let mut i: usize = 0;
        while i < self.adversary_count
            invariant
                i <= self.adversary_count,
                scheduler.wf(),
                ids@.len() == self.adversary_count,
                forall|k: int|
                    0 <= k < ids@.len() ==> (#[trigger] ids@[k])@ == index_bytes(
                        adversary_index(nodes as nat, k as nat),
                    ),
                scheduler.pending().len() == old(scheduler).pending().len() + i,
                forall|j: nat|
                    j < i ==> #[trigger] injection_scheduled(
                        scheduler.pending(),
                        *self,
                        nodes as nat,
                        j,
                    ),
            decreases self.adversary_count - i,
        {
            let mut node = Node::new(ids[i], now);
            node.add_capability(common::analysis(), now);
            let agent_type = match self.adversary_type {
                AdversaryType::Strategic => AgentType::Strategic {
                    defection_tick: self.defection_tick,
                },
                AdversaryType::FreeRider => AgentType::FreeRider {
                    interaction_rate: Real::from_bits(HALF_BITS),
                },
                AdversaryType::Sybil => AgentType::Sybil { cluster_members: copy_nodes(&ids) },
            };
            let ghost held = scheduler.pending();
            let event = Event::node_join_with_agent(node, agent_type);
            scheduler.schedule(self.inject_at_tick, event);
            proof {
                let slot = crate::sim::events::slot_for(held, self.inject_at_tick);
                crate::sim::events::lemma_slot_for(held, self.inject_at_tick);
                let after = scheduler.pending();
                assert(after[slot] == (ScheduledEvent { at_tick: self.inject_at_tick, event }));
                assert(is_injection(after[slot], *self, nodes as nat, i as nat));
                assert forall|j: nat| j < i + 1 implies #[trigger] injection_scheduled(
                    after,
                    *self,
                    nodes as nat,
                    j,
                ) by {
                    if j < i {
                        assert(injection_scheduled(held, *self, nodes as nat, j));
                        let k = choose|k: int|
                            0 <= k < held.len() && is_injection(
                                #[trigger] held[k],
                                *self,
                                nodes as nat,
                                j,
                            );
                        let k2 = if k < slot {
                            k
                        } else {
                            k + 1
                        };
                        assert(after[k2] == held[k]);
                    }
                }
            }
            i += 1;
        }
    }

    /// The name of the scenario.
    fn name(&self) -> (name: &'static str) {
        match self.adversary_type {
            AdversaryType::Strategic => "adversary_strategic",
            AdversaryType::FreeRider => "adversary_free_rider",
            AdversaryType::Sybil => "adversary_sybil",
        }
    }

    /// What the scenario is about.
    fn description(&self) -> (text: &'static str) {
        match self.adversary_type {
            AdversaryType::Strategic => "Inject strategic adversaries that build trust then defect",
            AdversaryType::FreeRider => "Inject free riders that take but don't contribute",
            AdversaryType::Sybil => "Inject a coordinated Sybil cluster",
        }
    }
}

} // verus!
