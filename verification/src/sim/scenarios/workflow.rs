//! The routing of workflows over nodes of different capabilities.

use vstd::prelude::*;
use crate::capability::{common, Capability, CapabilityCategory};
use crate::sim::events::EventScheduler;
use crate::sim::network::{lemma_replaced_wf, Network};
use crate::sim::scenarios::trust_emergence::is_honest;
use crate::sim::agents::{Agent, HonestAgent, HONEST_QUALITY, HONEST_VARIANCE};
use crate::sim::scenarios::Scenario;
use crate::types::{CapabilityId, Real, Timestamp};

verus! {

/// The shape of the workflow that is tried.
#[derive(Clone, Copy, Debug, PartialEq, Eq, Structural)]
pub enum WorkflowType {
    /// One step after the other.
    Chain,
    /// Steps side by side, and one that merges them.
    FanOutFanIn,
    /// Steps that wait for other steps.
    Dag,
}

/// Workflows are routed over nodes of which each has one capability.
#[derive(Clone, Copy, Debug)]
pub struct WorkflowScenario {
    /// The shape of the workflow.
    pub workflow_type: WorkflowType,
    /// The number of steps of a chain.
    pub chain_length: usize,
    /// The number of steps side by side.
    pub parallelism: usize,
    /// The probability with which an agent begins an exchange in a tick.
    pub interaction_rate: Real,
}

/// Six tenths: the probability with which an agent of this scenario begins
/// an exchange in a tick, unless another is asked for.
pub const WORKFLOW_INTERACTION_RATE: u64 = 0x3FE3_3333_3333_3333;

/// The names of the capabilities that the nodes share out among
/// themselves.
pub open spec fn capability_names(workflow_type: WorkflowType) -> Seq<Seq<char>> {
    match workflow_type {
        WorkflowType::Chain => seq!["intake"@, "process"@, "output"@],
        WorkflowType::FanOutFanIn => seq!["split"@, "worker"@, "merge"@],
        WorkflowType::Dag => seq!["analysis"@, "transformation"@, "generation"@, "validation"@],
    }
}

impl WorkflowScenario {
    /// The scenario with a workflow of the given shape, of three steps in a
    /// chain or side by side.
    pub fn new(workflow_type: WorkflowType) -> (s: Self)
        ensures
            s.workflow_type == workflow_type,
            s.chain_length == 3,
            s.parallelism == 3,
            s.interaction_rate == Real(WORKFLOW_INTERACTION_RATE),
    {
        Self {
            workflow_type,
            chain_length: 3,
            parallelism: 3,
            interaction_rate: Real::from_bits(WORKFLOW_INTERACTION_RATE),
        }
    }

    /// The same scenario with the given number of steps of a chain.
    pub fn with_chain_length(self, length: usize) -> (s: Self)
        ensures
            s == (WorkflowScenario { chain_length: length, ..self }),
    {
        Self { chain_length: length, ..self }
    }

    /// The same scenario with the given number of steps side by side.
    pub fn with_parallelism(self, parallelism: usize) -> (s: Self)
        ensures
            s == (WorkflowScenario { parallelism, ..self }),
    {
        Self { parallelism, ..self }
    }

    /// The capabilities that the nodes share out among themselves (see
    /// `capability_names`).
    pub fn create_capabilities(&self) -> (capabilities: Vec<Capability>)
        ensures
            capabilities@.len() == capability_names(self.workflow_type).len(),
            capabilities@.len() > 0,
            forall|i: int|
                0 <= i < capabilities@.len() ==> (#[trigger] capabilities@[i]).name@
                    == capability_names(self.workflow_type)[i] && capabilities@[i].id.0
                    == CapabilityId::of_name(capabilities@[i].name@),
    {
        let mut capabilities: Vec<Capability> = Vec::new();
        match self.workflow_type {
            WorkflowType::Chain => {
                capabilities.push(Capability::from_name("intake", CapabilityCategory::Analysis));
                capabilities.push(
                    Capability::from_name("process", CapabilityCategory::Transformation),
                );
                capabilities.push(Capability::from_name("output", CapabilityCategory::Generation));
            },
            WorkflowType::FanOutFanIn => {
                capabilities.push(Capability::from_name("split", CapabilityCategory::Analysis));
                capabilities.push(
                    Capability::from_name("worker", CapabilityCategory::Transformation),
                );
                capabilities.push(Capability::from_name("merge", CapabilityCategory::Generation));
            },
            WorkflowType::Dag => {
                capabilities.push(common::analysis());
                capabilities.push(common::transformation());
                capabilities.push(common::generation());
                capabilities.push(common::validation());
            },
        }
        capabilities
    }
}

impl Default for WorkflowScenario {
    /// The scenario with a chain of three steps.
    fn default() -> (s: Self)
        ensures
            s.workflow_type == WorkflowType::Chain,
            s.chain_length == 3,
            s.parallelism == 3,
            s.interaction_rate == Real(WORKFLOW_INTERACTION_RATE),
    {
        Self::new(WorkflowType::Chain)
    }
}

impl Scenario for WorkflowScenario {
    /// Every node of the network offers the capability of the workflow that
    /// falls to it by its place, and has an honest agent; nothing is
    /// scheduled.
    open spec fn sets_up(
        &self,
        before: Network,
        before_schedule: EventScheduler,
        after: Network,
        after_schedule: EventScheduler,
        now: Timestamp,
    ) -> bool {
        &&& after.nodes.keys() == before.nodes.keys()
        &&& after_schedule == before_schedule
        &&& forall|i: int|
            0 <= i < after.nodes.keys().len() ==> (
            #[trigger] after.nodes.values()[i]).offers(
                CapabilityId(
                    CapabilityId::of_name(
                        capability_names(self.workflow_type)[i % (capability_names(
                            self.workflow_type,
                        ).len() as int)],
                    ),
                ),
            )
        &&& forall|i: int|
            0 <= i < after.nodes.keys().len() ==> is_honest(
                after,
                #[trigger] after.nodes.keys()[i],
                self.interaction_rate,
                Real(HONEST_QUALITY),
                Real(HONEST_VARIANCE),
            )
    }

    /// The name of the scenario, as a plain value.
    open spec fn name_text(&self) -> Seq<char> {
        match self.workflow_type {
            WorkflowType::Chain => "workflow_chain"@,
            WorkflowType::FanOutFanIn => "workflow_fan_out_fan_in"@,
            WorkflowType::Dag => "workflow_dag"@,
        }
    }

    /// What the scenario is about, as a plain value.
    open spec fn description_text(&self) -> Seq<char> {
        match self.workflow_type {
            WorkflowType::Chain => "Test sequential chain workflow routing"@,
            WorkflowType::FanOutFanIn => "Test parallel fan-out/fan-in workflow routing"@,
            WorkflowType::Dag => "Test complex DAG workflow routing"@,
        }
    }

    /// Gives each node one of the capabilities, in turn, and an honest
    /// agent. Nothing is scheduled.
    fn setup(&self, network: &mut Network, scheduler: &mut EventScheduler, now: Timestamp) {
        let capabilities = self.create_capabilities();
        let n = network.nodes.len();
        let ghost names = capability_names(self.workflow_type);
        let mut i: usize = 0;
        while i < n
            invariant
                i <= n,
                network.wf(),
                n == network.nodes.keys().len(),
                network.nodes.keys() == old(network).nodes.keys(),
                network.tick == old(network).tick,
                names == capability_names(self.workflow_type),
                capabilities@.len() == names.len(),
                capabilities@.len() > 0,
                forall|k: int|
                    0 <= k < capabilities@.len() ==> (#[trigger] capabilities@[k]).name@ == names[k]
                        && capabilities@[k].id.0 == CapabilityId::of_name(capabilities@[k].name@),
                forall|k: int|
                    0 <= k < i ==> (#[trigger] network.nodes.values()[k]).offers(
                        CapabilityId(CapabilityId::of_name(names[k % (names.len() as int)])),
                    ),
                forall|k: int|
                    0 <= k < i ==> is_honest(
                        *network,
                        #[trigger] network.nodes.keys()[k],
                        self.interaction_rate,
                        Real(HONEST_QUALITY),
                        Real(HONEST_VARIANCE),
                    ),
            decreases n - i,
        {
            let cap = capabilities[i % capabilities.len()].clone();
            let id = network.nodes.key_at(i);
            let ghost held = network.nodes;
            let ghost before = *network;
            let node = network.nodes.value_at_mut(i);
            node.add_capability(cap, now);
            proof {
                lemma_replaced_wf(held, network.nodes, i as int);
            }
            let ghost middle = *network;
            let agent = HonestAgent::new(self.interaction_rate).with_quality(
                Real::from_bits(HONEST_QUALITY),
                Real::from_bits(HONEST_VARIANCE),
            );
            network.set_agent(id, Agent::Honest(agent));
            proof {
                assert forall|k: int| 0 <= k < i + 1 implies (
                #[trigger] network.nodes.values()[k]).offers(
                    CapabilityId(CapabilityId::of_name(names[k % (names.len() as int)])),
                ) by {
                    if k < i {
                        assert(network.nodes.values()[k] == held.values()[k]);
                    }
                }
                assert forall|k: int| 0 <= k < i + 1 implies is_honest(
                    *network,
                    #[trigger] network.nodes.keys()[k],
                    self.interaction_rate,
                    Real(HONEST_QUALITY),
                    Real(HONEST_VARIANCE),
                ) by {
                    let other = network.nodes.keys()[k];
                    if other != id {
                        assert(is_honest(
                            before,
                            before.nodes.keys()[k],
                            self.interaction_rate,
                            Real(HONEST_QUALITY),
                            Real(HONEST_VARIANCE),
                        ));
                        assert(middle.agents.has(other));
                        assert(network.agents.at(other) == middle.agents.at(other));
                    }
                }
            }
            i += 1;
        }
    }

    /// The name of the scenario.
    fn name(&self) -> (name: &'static str) {
        match self.workflow_type {
            WorkflowType::Chain => "workflow_chain",
            WorkflowType::FanOutFanIn => "workflow_fan_out_fan_in",
            WorkflowType::Dag => "workflow_dag",
        }
    }

    /// What the scenario is about.
    fn description(&self) -> (text: &'static str) {
        match self.workflow_type {
            WorkflowType::Chain => "Test sequential chain workflow routing",
            WorkflowType::FanOutFanIn => "Test parallel fan-out/fan-in workflow routing",
            WorkflowType::Dag => "Test complex DAG workflow routing",
        }
    }
}

} // verus!
