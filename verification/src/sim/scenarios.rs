//! Scenarios: what a simulation is set up with.

use vstd::prelude::*;
use crate::scalar::HALF_BITS;
use crate::sim::agents::{HONEST_QUALITY, HONEST_VARIANCE};
use crate::sim::events::EventScheduler;
use crate::sim::network::Network;
use crate::sim::scenarios::workflow::WORKFLOW_INTERACTION_RATE;
use crate::types::{Real, Timestamp};

pub mod adversary;
pub mod trust_emergence;
pub mod workflow;

pub use crate::sim::scenarios::adversary::{AdversaryScenario, AdversaryType};
pub use crate::sim::scenarios::trust_emergence::TrustEmergenceScenario;
pub use crate::sim::scenarios::workflow::{WorkflowScenario, WorkflowType};

verus! {

/// The scenarios that a simulation can be set up with.
#[derive(Clone, Copy, Debug, PartialEq, Eq, Structural)]
pub enum ScenarioKind {
    /// Trust among honest agents.
    TrustEmergence,
    /// Strategic adversaries join.
    Strategic,
    /// Free riders join.
    FreeRider,
    /// A Sybil cluster joins.
    Sybil,
    /// A chain of steps is routed.
    WorkflowChain,
    /// Steps side by side, and one that merges them, are routed.
    WorkflowFanOut,
}

/// The name of a scenario, what it is about in a line, and what it is
/// about at length.
pub fn scenario_details(scenario: ScenarioKind) -> (details: (
    &'static str,
    &'static str,
    &'static str,
))
    ensures
        details.0@ == match scenario {
            ScenarioKind::TrustEmergence => "trust-emergence"@,
            ScenarioKind::Strategic => "strategic"@,
            ScenarioKind::FreeRider => "free-rider"@,
            ScenarioKind::Sybil => "sybil"@,
            ScenarioKind::WorkflowChain => "workflow-chain"@,
            ScenarioKind::WorkflowFanOut => "workflow-fan-out"@,
        },
        details.1@ == match scenario {
            ScenarioKind::TrustEmergence => "Watch trust dynamics emerge in an honest network"@,
            ScenarioKind::Strategic => "Strategic adversary injection"@,
            ScenarioKind::FreeRider => "Free rider injection"@,
            ScenarioKind::Sybil => "Sybil cluster injection"@,
            ScenarioKind::WorkflowChain => "Chain workflow routing test"@,
            ScenarioKind::WorkflowFanOut => "Fan-out/fan-in workflow routing test"@,
        },
{
    match scenario {
        ScenarioKind::TrustEmergence => (
            "trust-emergence",
            "Watch trust dynamics emerge in an honest network",
            "All nodes behave honestly with configurable quality.\nObserve how trust scores converge over time.\nExpected outcome: stable, high trust distribution.",
        ),
        ScenarioKind::Strategic => (
            "strategic",
            "Strategic adversary injection",
            "Adversaries behave well initially to build trust,\nthen defect at a specified tick.\nTests the protocol's ability to detect reputation manipulation.\nOptions: --inject-at, --adversary-count, --defect-at",
        ),
        ScenarioKind::FreeRider => (
            "free-rider",
            "Free rider injection",
            "Agents that receive value but provide poor quality.\nTests reciprocity dynamics and quality-based filtering.\nOptions: --inject-at, --adversary-count",
        ),
        ScenarioKind::Sybil => (
            "sybil",
            "Sybil cluster injection",
            "Coordinated fake identities that rate each other highly.\nTests diversity requirements and collusion detection.\nOptions: --inject-at, --adversary-count",
        ),
        ScenarioKind::WorkflowChain => (
            "workflow-chain",
            "Chain workflow routing test",
            "Sequential workflow: A -> B -> C\nTests task routing based on capability and trust.\nMeasures routing quality and completion rate.",
        ),
        ScenarioKind::WorkflowFanOut => (
            "workflow-fan-out",
            "Fan-out/fan-in workflow routing test",
            "Parallel workflow with merge step.\nTests load balancing and ensemble aggregation.\nMeasures parallel efficiency and result quality.",
        ),
    }
}

/// A scenario.
pub trait Scenario {
    /// Whether the scenario, at the time `now`, makes the network `after`
    /// and the schedule `after_schedule` of the network `before` and the
    /// schedule `before_schedule`.
    spec fn sets_up(
        &self,
        before: Network,
        before_schedule: EventScheduler,
        after: Network,
        after_schedule: EventScheduler,
        now: Timestamp,
    ) -> bool;

    /// The name of the scenario, as a plain value.
    spec fn name_text(&self) -> Seq<char>;

    /// What the scenario is about, as a plain value.
    spec fn description_text(&self) -> Seq<char>;

    /// Sets the simulation up at the time `now`: gives the nodes their
    /// agents, and schedules what is to happen (see `sets_up`).
    fn setup(&self, network: &mut Network, scheduler: &mut EventScheduler, now: Timestamp)
        requires
            old(network).wf(),
            old(scheduler).wf(),
        ensures
            final(network).wf(),
            final(scheduler).wf(),
            final(network).tick == old(network).tick,
            self.sets_up(*old(network), *old(scheduler), *final(network), *final(scheduler), now),
    ;

    /// The name of the scenario.
    fn name(&self) -> (name: &'static str)
        ensures
            name@ == self.name_text(),
    ;

    /// What the scenario is about.
    fn description(&self) -> (text: &'static str)
        ensures
            text@ == self.description_text(),
    ;
}

/// A scenario of any kind.
#[derive(Clone, Copy, Debug)]
pub enum AnyScenario {
    /// Honest agents only.
    TrustEmergence(TrustEmergenceScenario),
    /// Adversaries join honest agents.
    Adversary(AdversaryScenario),
    /// Workflows are routed.
    Workflow(WorkflowScenario),
}

impl AnyScenario {
    /// The scenario of a kind, as it is when nothing else is asked of it,
    /// but for the adversaries: they join at the tick `inject_at`, there are
    /// `adversary_count` of them, and strategic ones defect at the tick
    /// `defect_at`.
    pub open spec fn of_kind(
        kind: ScenarioKind,
        inject_at: u64,
        adversary_count: usize,
        defect_at: u64,
    ) -> AnyScenario {
        let joining = AdversaryScenario {
            adversary_type: AdversaryType::Strategic,
            inject_at_tick: inject_at,
            adversary_count,
            defection_tick: 100,
            honest_interaction_rate: Real(HALF_BITS),
        };
        let routed = WorkflowScenario {
            workflow_type: WorkflowType::Chain,
            chain_length: 3,
            parallelism: 3,
            interaction_rate: Real(WORKFLOW_INTERACTION_RATE),
        };
        match kind {
            ScenarioKind::TrustEmergence => AnyScenario::TrustEmergence(
                TrustEmergenceScenario {
                    interaction_rate: Real(HALF_BITS),
                    base_quality: Real(HONEST_QUALITY),
                    quality_variance: Real(HONEST_VARIANCE),
                },
            ),
            ScenarioKind::Strategic => AnyScenario::Adversary(
                AdversaryScenario { defection_tick: defect_at, ..joining },
            ),
            ScenarioKind::FreeRider => AnyScenario::Adversary(
                AdversaryScenario { adversary_type: AdversaryType::FreeRider, ..joining },
            ),
            ScenarioKind::Sybil => AnyScenario::Adversary(
                AdversaryScenario { adversary_type: AdversaryType::Sybil, ..joining },
            ),
            ScenarioKind::WorkflowChain => AnyScenario::Workflow(routed),
            ScenarioKind::WorkflowFanOut => AnyScenario::Workflow(
                WorkflowScenario { workflow_type: WorkflowType::FanOutFanIn, ..routed },
            ),
        }
    }

    /// The scenario of a kind (see `of_kind`).
    pub fn for_kind(kind: ScenarioKind, inject_at: u64, adversary_count: usize, defect_at: u64) -> (s:
        Self)
        ensures
            s == Self::of_kind(kind, inject_at, adversary_count, defect_at),
    {
        match kind {
            ScenarioKind::TrustEmergence => AnyScenario::TrustEmergence(
                TrustEmergenceScenario::new(),
            ),
            ScenarioKind::Strategic => AnyScenario::Adversary(
                AdversaryScenario::new(AdversaryType::Strategic).inject_at(inject_at).with_count(
                    adversary_count,
                ).defect_at(defect_at),
            ),
            ScenarioKind::FreeRider => AnyScenario::Adversary(
                AdversaryScenario::new(AdversaryType::FreeRider).inject_at(inject_at).with_count(
                    adversary_count,
                ),
            ),
            ScenarioKind::Sybil => AnyScenario::Adversary(
                AdversaryScenario::new(AdversaryType::Sybil).inject_at(inject_at).with_count(
                    adversary_count,
                ),
            ),
            ScenarioKind::WorkflowChain => AnyScenario::Workflow(
                WorkflowScenario::new(WorkflowType::Chain),
            ),
            ScenarioKind::WorkflowFanOut => AnyScenario::Workflow(
                WorkflowScenario::new(WorkflowType::FanOutFanIn),
            ),
        }
    }
}

impl Scenario for AnyScenario {
    /// What the scenario does that this one holds.
    open spec fn sets_up(
        &self,
        before: Network,
        before_schedule: EventScheduler,
        after: Network,
        after_schedule: EventScheduler,
        now: Timestamp,
    ) -> bool {
        match *self {
            AnyScenario::TrustEmergence(s) => s.sets_up(
                before,
                before_schedule,
                after,
                after_schedule,
                now,
            ),
            AnyScenario::Adversary(s) => s.sets_up(before, before_schedule, after, after_schedule, now),
            AnyScenario::Workflow(s) => s.sets_up(before, before_schedule, after, after_schedule, now),
        }
    }

    /// The name of the scenario that this one holds.
    open spec fn name_text(&self) -> Seq<char> {
        match *self {
            AnyScenario::TrustEmergence(s) => s.name_text(),
            AnyScenario::Adversary(s) => s.name_text(),
            AnyScenario::Workflow(s) => s.name_text(),
        }
    }

    /// What the scenario that this one holds is about.
    open spec fn description_text(&self) -> Seq<char> {
        match *self {
            AnyScenario::TrustEmergence(s) => s.description_text(),
            AnyScenario::Adversary(s) => s.description_text(),
            AnyScenario::Workflow(s) => s.description_text(),
        }
    }

    /// Sets the simulation up as the scenario does that this one holds.
    fn setup(&self, network: &mut Network, scheduler: &mut EventScheduler, now: Timestamp) {
        match self {
            AnyScenario::TrustEmergence(s) => s.setup(network, scheduler, now),
            AnyScenario::Adversary(s) => s.setup(network, scheduler, now),
            AnyScenario::Workflow(s) => s.setup(network, scheduler, now),
        }
    }

    /// The name of the scenario that this one holds.
    fn name(&self) -> (name: &'static str) {
        match self {
            AnyScenario::TrustEmergence(s) => s.name(),
            AnyScenario::Adversary(s) => s.name(),
            AnyScenario::Workflow(s) => s.name(),
        }
    }

    /// What the scenario that this one holds is about.
    fn description(&self) -> (text: &'static str) {
        match self {
            AnyScenario::TrustEmergence(s) => s.description(),
            AnyScenario::Adversary(s) => s.description(),
            AnyScenario::Workflow(s) => s.description(),
        }
    }
}

} // verus!
