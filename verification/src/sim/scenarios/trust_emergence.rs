//! Trust in a network of honest agents.

use vstd::prelude::*;
use crate::sim::agents::{Agent, HonestAgent, HONEST_QUALITY, HONEST_VARIANCE};
use crate::sim::events::EventScheduler;
use crate::sim::network::Network;
use crate::sim::scenarios::Scenario;
use crate::scalar::HALF_BITS;
use crate::types::{NodeId, Real, Timestamp};

verus! {

/// Every node of the network behaves honestly.
#[derive(Clone, Copy, Debug)]
pub struct TrustEmergenceScenario {
    /// The probability with which an agent begins an exchange in a tick.
    pub interaction_rate: Real,
    /// The quality of the work of the agents.
    pub base_quality: Real,
    /// How far the quality varies.
    pub quality_variance: Real,
}

/// Whether a node has an honest agent of the given figures.
pub open spec fn is_honest(
    network: Network,
    id: NodeId,
    interaction_rate: Real,
    base_quality: Real,
    quality_variance: Real,
) -> bool {
    &&& network.agents.has(id)
    &&& network.agents.at(id) matches Agent::Honest(h) && h.rate() == interaction_rate
        && h.quality() == (base_quality, quality_variance)
}

/// Gives every node of the network an honest agent of the given figures.
pub fn attach_honest_agents(
    network: &mut Network,
    interaction_rate: Real,
    base_quality: Real,
    quality_variance: Real,
)
    requires
        old(network).wf(),
    ensures
        final(network).wf(),
        final(network).nodes == old(network).nodes,
        final(network).tick == old(network).tick,
        final(network).event_queue == old(network).event_queue,
        final(network).metrics == old(network).metrics,
        forall|i: int|
            0 <= i < final(network).nodes.keys().len() ==> is_honest(
                *final(network),
                #[trigger] final(network).nodes.keys()[i],
                interaction_rate,
                base_quality,
                quality_variance,
            ),
        forall|id: NodeId|
            old(network).agents.has(id) && !old(network).nodes.has(id) ==> final(network).agents.has(
                id,
            ),
{
    let n = network.nodes.len();
    let mut i: usize = 0;
    while i < n
        invariant
            i <= n,
            network.wf(),
            n == network.nodes.keys().len(),
            network.nodes == old(network).nodes,
            network.tick == old(network).tick,
            network.event_queue == old(network).event_queue,
            network.metrics == old(network).metrics,
            forall|k: int|
                0 <= k < i ==> is_honest(
                    *network,
                    #[trigger] network.nodes.keys()[k],
                    interaction_rate,
                    base_quality,
                    quality_variance,
                ),
            forall|id: NodeId|
                old(network).agents.has(id) && !old(network).nodes.has(id) ==> network.agents.has(id),
        decreases n - i,
    {
        let id = network.nodes.key_at(i);
        let agent = HonestAgent::new(interaction_rate).with_quality(base_quality, quality_variance);
        let ghost held = *network;
        network.set_agent(id, Agent::Honest(agent));
        proof {
            assert forall|k: int| 0 <= k < i + 1 implies is_honest(
                *network,
                #[trigger] network.nodes.keys()[k],
                interaction_rate,
                base_quality,
                quality_variance,
            ) by {
                let other = network.nodes.keys()[k];
                if other != id {
                    assert(is_honest(held, held.nodes.keys()[k], interaction_rate, base_quality, quality_variance));
                    assert(held.agents.has(other));
                    assert(network.agents.has(other));
                    assert(network.agents.at(other) == held.agents.at(other));
                }
            }
            assert forall|other: NodeId|
                old(network).agents.has(other) && !old(network).nodes.has(other) implies network.agents.has(
                other,
            ) by {
                if other != id {
                    assert(held.agents.has(other));
                }
            }
        }
        i += 1;
    }
}

impl TrustEmergenceScenario {
    /// The scenario with agents that begin an exchange in every second tick
    /// and do work of a quality of eight tenths, give or take one tenth.
    pub fn new() -> (s: Self)
        ensures
            s.interaction_rate == Real(HALF_BITS),
            s.base_quality == Real(HONEST_QUALITY),
            s.quality_variance == Real(HONEST_VARIANCE),
    {
        Self {
            interaction_rate: Real::from_bits(HALF_BITS),
            base_quality: Real::from_bits(HONEST_QUALITY),
            quality_variance: Real::from_bits(HONEST_VARIANCE),
        }
    }

    /// The same scenario with the given probability of an exchange.
    pub fn with_interaction_rate(self, rate: Real) -> (s: Self)
        ensures
            s == (TrustEmergenceScenario { interaction_rate: rate, ..self }),
    {
        Self { interaction_rate: rate, ..self }
    }

    /// The same scenario with the given quality of work.
    pub fn with_quality(self, base: Real, variance: Real) -> (s: Self)
        ensures
            s == (TrustEmergenceScenario { base_quality: base, quality_variance: variance, ..self }),
    {
        Self { base_quality: base, quality_variance: variance, ..self }
    }
}

impl Default for TrustEmergenceScenario {
    fn default() -> (s: Self)
        ensures
            s.interaction_rate == Real(HALF_BITS),
            s.base_quality == Real(HONEST_QUALITY),
            s.quality_variance == Real(HONEST_VARIANCE),
    {
        Self::new()
    }
}

impl Scenario for TrustEmergenceScenario {
    /// Every node of the network has an honest agent of the figures of the
    /// scenario; the nodes and the schedule are as they were.
    open spec fn sets_up(
        &self,
        before: Network,
        before_schedule: EventScheduler,
        after: Network,
        after_schedule: EventScheduler,
        now: Timestamp,
    ) -> bool {
        &&& after.nodes == before.nodes
        &&& after_schedule == before_schedule
        &&& forall|i: int|
            0 <= i < after.nodes.keys().len() ==> is_honest(
                after,
                #[trigger] after.nodes.keys()[i],
                self.interaction_rate,
                self.base_quality,
                self.quality_variance,
            )
    }

    /// The name of the scenario, as a plain value.
    open spec fn name_text(&self) -> Seq<char> {
        "trust_emergence"@
    }

    /// What the scenario is about, as a plain value.
    open spec fn description_text(&self) -> Seq<char> {
        "Observe trust dynamics emergence in a network of honest agents"@
    }

    /// Gives every node of the network an honest agent, and schedules
    /// nothing.
    fn setup(&self, network: &mut Network, scheduler: &mut EventScheduler, now: Timestamp) {
        attach_honest_agents(
            network,
            self.interaction_rate,
            self.base_quality,
            self.quality_variance,
        );
    }

    /// The name of the scenario.
    fn name(&self) -> (name: &'static str) {
        "trust_emergence"
    }

    /// What the scenario is about.
    fn description(&self) -> (text: &'static str) {
        "Observe trust dynamics emergence in a network of honest agents"
    }
}

} // verus!
