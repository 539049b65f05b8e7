//! The run of a simulation.

use vstd::prelude::*;
use crate::capability::common;
use crate::scalar::HALF_BITS;
use crate::sim::agents::{HONEST_QUALITY, HONEST_VARIANCE};
use crate::sim::arithmetic::{Arithmetic, Chance};
use crate::sim::events::{due_count, Event, EventScheduler, ScheduledEvent};
use crate::sim::metrics::{MetricsCollector, MetricsSummary};
use crate::sim::network::{
    configured, same_state, ticked, Network, NetworkConfig, CONNECTION_PROBABILITY,
};
use crate::sim::scenarios::trust_emergence::TrustEmergenceScenario;
use crate::sim::scenarios::Scenario;
use crate::types::{Real, Timestamp};

verus! {

/// How a simulation is to be run.
#[derive(Debug)]
pub struct SimulationConfig {
    /// The tick at which the run ends.
    pub max_ticks: u64,
    /// How the network is to be made.
    pub network_config: NetworkConfig,
    /// Whether metrics are taken in detail.
    pub detailed_metrics: bool,
    /// The number of ticks between two reports of progress, if progress is
    /// reported.
    pub progress_interval: Option<u64>,
}

impl SimulationConfig {
    /// A run of a thousand ticks on a network of ten nodes, with detailed
    /// metrics and a report of progress every hundred ticks.
    pub fn new() -> (c: Self)
        ensures
            c.max_ticks == 1000,
            c.network_config.node_count == 10,
            c.network_config.capabilities@.len() == 0,
            c.network_config.seed.is_none(),
            c.detailed_metrics,
            c.progress_interval == Some(100u64),
    {
        Self {
            max_ticks: 1000,
            network_config: NetworkConfig::new(),
            detailed_metrics: true,
            progress_interval: Some(100),
        }
    }

    /// The same run, ending at the given tick.
    pub fn with_ticks(self, ticks: u64) -> (c: Self)
        ensures
            c == (SimulationConfig { max_ticks: ticks, ..self }),
    {
        let mut c = self;
        c.max_ticks = ticks;
        c
    }

    /// The same run on a network that is made as given.
    pub fn with_network(self, config: NetworkConfig) -> (c: Self)
        ensures
            c == (SimulationConfig { network_config: config, ..self }),
    {
        let mut c = self;
        c.network_config = config;
        c
    }

    /// The same run with or without detailed metrics.
    pub fn with_detailed_metrics(self, enabled: bool) -> (c: Self)
        ensures
            c == (SimulationConfig { detailed_metrics: enabled, ..self }),
    {
        let mut c = self;
        c.detailed_metrics = enabled;
        c
    }
}

/// The run of a simulation over a network of `nodes` nodes, of which each
/// has the four common capabilities: analysis, generation, transformation
/// and validation. The run ends at the tick `ticks`.
pub fn standard_config(nodes: usize, ticks: u64, seed: Option<u64>, connection_prob: Real) -> (c:
    SimulationConfig)
    ensures
        c.max_ticks == ticks,
        c.detailed_metrics,
        c.progress_interval == Some(100u64),
        c.network_config.node_count == nodes,
        c.network_config.connection_probability == connection_prob,
        c.network_config.seed == seed,
        c.network_config.capabilities@.len() == 4,
        c.network_config.capabilities@[0].name@ == "analysis"@,
        c.network_config.capabilities@[1].name@ == "generation"@,
        c.network_config.capabilities@[2].name@ == "transformation"@,
        c.network_config.capabilities@[3].name@ == "validation"@,
        forall|i: int|
            0 <= i < 4 ==> (#[trigger] c.network_config.capabilities@[i]).id.0
                == crate::types::CapabilityId::of_name(c.network_config.capabilities@[i].name@),
{
    let network = NetworkConfig::new().with_nodes(nodes).with_capability(
        common::analysis(),
    ).with_capability(common::generation()).with_capability(
        common::transformation(),
    ).with_capability(common::validation()).with_connection_prob(connection_prob);
    let network = match seed {
        Some(s) => network.with_seed(s),
        None => network,
    };
    SimulationConfig::new().with_ticks(ticks).with_network(network)
}

impl Default for SimulationConfig {
    /// A run of a thousand ticks on a network of ten nodes.
    fn default() -> (c: Self)
        ensures
            c.max_ticks == 1000,
            c.network_config.node_count == 10,
            c.detailed_metrics,
            c.progress_interval == Some(100u64),
    {
        Self::new()
    }
}

/// What a run gave.
#[derive(Debug)]
pub struct SimulationResult {
    /// The summary of the metrics.
    pub summary: MetricsSummary,
    /// How long the run took, in milliseconds.
    pub duration_ms: u64,
    /// The tick at which the run ended.
    pub final_tick: u64,
    /// Whether the run came to its end.
    pub completed: bool,
    /// What went wrong, if anything did.
    pub error: Option<String>,
}

/// The number of ticks that a run from the tick `tick` to the tick `end`
/// takes.
pub open spec fn ticks_left(tick: u64, end: u64) -> nat {
    if tick < end {
        (end - tick) as nat
    } else {
        0
    }
}

/// The events of a schedule that are due at a tick, in the order of the
/// schedule.
pub open spec fn due_events(pending: Seq<ScheduledEvent>, tick: u64) -> Seq<Event> {
    Seq::new(due_count(pending, tick) as nat, |i: int| pending[i].event)
}

/// Whether `queued` is the network `before` with the events that are due at
/// its tick waiting behind what waited, and `later` the schedule `schedule`
/// without them.
pub open spec fn due_queued(
    before: Network,
    schedule: EventScheduler,
    queued: Network,
    later: EventScheduler,
) -> bool {
    &&& same_state(before, queued)
    &&& queued.event_queue@ == before.event_queue@ + due_events(schedule.pending(), before.tick)
    &&& later.pending() == schedule.pending().skip(due_count(schedule.pending(), before.tick))
}

/// Whether `after` and `later` are the network `before` and the schedule
/// `schedule` one step of a run later: the events that are due come to wait,
/// which makes `queued`, and then one tick passes at the time `now`.
pub open spec fn stepped<A: Arithmetic>(
    kernel: &A,
    before: Network,
    schedule: EventScheduler,
    after: Network,
    later: EventScheduler,
    now: Timestamp,
    queued: Network,
) -> bool {
    due_queued(before, schedule, queued, later) && ticked(kernel, queued, after, now)
}

/// Whether `after` and `later` are the network `before` and the schedule
/// `schedule` after a run of `ticks` ticks: each tick passed after the
/// events that were due at it had come to wait, at a time that the clock
/// gave.
pub open spec fn ran<A: Arithmetic>(
    kernel: &A,
    before: Network,
    schedule: EventScheduler,
    ticks: nat,
    after: Network,
    later: EventScheduler,
) -> bool
    decreases ticks,
{
    if ticks == 0 {
        same_state(before, after) && after.event_queue@ == before.event_queue@ && later.pending()
            == schedule.pending()
    } else {
        exists|mid: Network, held: EventScheduler, now: Timestamp, queued: Network| #[trigger]
            stepped(kernel, mid, held, after, later, now, queued) && ran(
                kernel,
                before,
                schedule,
                (ticks - 1) as nat,
                mid,
                held,
            )
    }
}

/// Whether `c` says how far the trust came together, by the kernel: zero
/// for fewer than two snapshots, and else what the kernel gives for the
/// snapshots.
pub open spec fn converged<A: Arithmetic>(kernel: &A, metrics: MetricsCollector, c: Real) -> bool {
    if metrics.trust_history@.len() < 2 {
        c.0 == 0
    } else {
        call_ensures(A::convergence, (kernel, &metrics.trust_history), c)
    }
}

/// Whether `summary` is the summary of what was recorded, with how far the
/// trust came together by the kernel.
pub open spec fn summarised<A: Arithmetic>(
    kernel: &A,
    metrics: MetricsCollector,
    summary: MetricsSummary,
) -> bool {
    exists|c: Real| #[trigger] converged(kernel, metrics, c) && metrics.summed(c, summary)
}

/// Runs simulations.
#[derive(Debug)]
pub struct SimulationRunner {
    /// How the simulation is run.
    pub config: SimulationConfig,
    /// The network.
    pub network: Network,
    /// The schedule of the events to come.
    pub scheduler: EventScheduler,
}

impl SimulationRunner {
    /// The network and the schedule are well formed.
    pub open spec fn wf(&self) -> bool {
        self.network.wf() && self.scheduler.wf()
    }

    /// Whether `r` is a runner that is made for the configuration: on a
    /// network that is made as the configuration asks for it (see
    /// `configured`), with nothing scheduled.
    pub open spec fn made(config: SimulationConfig, r: SimulationRunner) -> bool {
        &&& r.wf()
        &&& configured(
            config.network_config.node_count,
            config.network_config.capabilities@,
            r.network,
        )
        &&& r.scheduler.pending().len() == 0
        &&& r.config.max_ticks == config.max_ticks
        &&& r.config.progress_interval == config.progress_interval
        &&& r.config.detailed_metrics == config.detailed_metrics
    }

    /// A runner on a network that is made as the configuration asks for it,
    /// at the time `now`, with nothing scheduled.
    pub fn new<C: Chance>(config: SimulationConfig, chance: &mut C, now: Timestamp) -> (r: Self)
        ensures
            r.wf(),
            r.network.tick == 0,
            r.network.nodes.keys().len() == config.network_config.node_count,
            r.network.event_queue@.len() == 0,
            r.scheduler.pending().len() == 0,
            r.config.max_ticks == config.max_ticks,
            r.config.progress_interval == config.progress_interval,
            r.config.detailed_metrics == config.detailed_metrics,
            Self::made(config, r),
    {
        let network_config = NetworkConfig {
            node_count: config.network_config.node_count,
            capabilities: copy_capabilities(&config.network_config.capabilities),
            connection_probability: config.network_config.connection_probability,
            seed: config.network_config.seed,
        };
        let network = Network::from_config(network_config, chance, now);
        Self { config, network, scheduler: EventScheduler::new() }
    }

    /// The network, to be set up.
    pub fn network_mut(&mut self) -> (n: &mut Network)
        ensures
            *n == old(self).network,
            *final(self) == (SimulationRunner { network: *final(n), ..*old(self) }),
    {
        &mut self.network
    }

    /// The schedule, to be filled.
    pub fn scheduler_mut(&mut self) -> (s: &mut EventScheduler)
        ensures
            *s == old(self).scheduler,
            *final(self) == (SimulationRunner { scheduler: *final(s), ..*old(self) }),
    {
        &mut self.scheduler
    }

    /// The network.
    pub fn network(&self) -> (n: &Network)
        ensures
            *n == self.network,
    {
        &self.network
    }

    /// Sets the simulation up with a scenario, at the time `now`: the
    /// network and the schedule become what the scenario makes of them.
    pub fn apply_scenario<S: Scenario>(&mut self, scenario: &S, now: Timestamp)
        requires
            old(self).wf(),
        ensures
            final(self).wf(),
            final(self).network.tick == old(self).network.tick,
            final(self).config == old(self).config,
            scenario.sets_up(
                old(self).network,
                old(self).scheduler,
                final(self).network,
                final(self).scheduler,
                now,
            ),
    {
        scenario.setup(&mut self.network, &mut self.scheduler, now);
    }

    /// Runs the simulation to the tick at which it is to end (see `ran`).
    ///
    /// At each tick the events that the schedule holds for it, or for an
    /// earlier tick, come to wait, in the order of the schedule and before
    /// anything that an agent does in the tick; then the tick passes (see
    /// `Network::tick`). After every `progress_interval` ticks `progress`
    /// is told the tick and the tick of the end. The run comes to its end
    /// without an error, and its summary is that of what the network
    /// recorded (see `summarised`).
    pub fn run<A: Arithmetic, C: Chance, P: Fn(u64, u64)>(
        &mut self,
        kernel: &A,
        chance: &mut C,
        progress: &P,
    ) -> (result: SimulationResult)
        requires
            old(self).wf(),
            forall|tick: u64, end: u64| call_requires(*progress, (tick, end)),
        ensures
            final(self).wf(),
            ran(
                kernel,
                old(self).network,
                old(self).scheduler,
                ticks_left(old(self).network.tick, old(self).config.max_ticks),
                final(self).network,
                final(self).scheduler,
            ),
            final(self).network.tick == if old(self).network.tick < old(self).config.max_ticks {
                old(self).config.max_ticks
            } else {
                old(self).network.tick
            },
            result.final_tick == final(self).network.tick,
            result.completed,
            result.error.is_none(),
            summarised(kernel, final(self).network.metrics, result.summary),
            result.summary.total_ticks == final(self).network.metrics.trust_history@.len(),
            forall|i: int|
                0 <= i < final(self).network.nodes.values().len() && old(self).network.tick < old(self).config.max_ticks ==> (
                #[trigger] final(self).network.nodes.values()[i]).trust.rank() <= final(self).network.nodes.values()[i].trust_cap.rank(),
            final(self).config == old(self).config,
    {
        let start = Timestamp::now();
        while self.network.tick < self.config.max_ticks
            invariant
                self.wf(),
                self.config == old(self).config,
                forall|tick: u64, end: u64| call_requires(*progress, (tick, end)),
                old(self).network.tick <= self.network.tick,
                self.network.tick > old(self).network.tick ==> self.network.tick
                    <= self.config.max_ticks,
                ran(
                    kernel,
                    old(self).network,
                    old(self).scheduler,
                    (self.network.tick - old(self).network.tick) as nat,
                    self.network,
                    self.scheduler,
                ),
                forall|i: int|
                    0 <= i < self.network.nodes.values().len() && old(self).network.tick
                        < self.network.tick ==> (
                    #[trigger] self.network.nodes.values()[i]).trust.rank()
                        <= self.network.nodes.values()[i].trust_cap.rank(),
            decreases self.config.max_ticks - self.network.tick,
        {
            let ghost mid = self.network;
            let ghost held_schedule = self.scheduler;
            let mut due = self.scheduler.due_at(self.network.tick);
            let ghost held = self.network.event_queue@;
            let ghost more = due@;
            self.network.event_queue.append(&mut due);
            proof {
                assert forall|k: int| 0 <= k < self.network.event_queue@.len() implies (
                #[trigger] self.network.event_queue@[k]).wf() by {
                    if k < held.len() {
                        assert(self.network.event_queue@[k] == held[k]);
                    } else {
                        assert(self.network.event_queue@[k] == more[k - held.len()]);
                    }
                }
                assert(more =~= due_events(held_schedule.pending(), mid.tick));
            }
            let ghost queued = self.network;
            let now = Timestamp::now();
            self.network.tick(kernel, chance, now);
            proof {
                let count = (self.network.tick - old(self).network.tick) as nat;
                assert(due_queued(mid, held_schedule, queued, self.scheduler));
                assert(stepped(kernel, mid, held_schedule, self.network, self.scheduler, now, queued));
                assert(ran(
                    kernel,
                    old(self).network,
                    old(self).scheduler,
                    (count - 1) as nat,
                    mid,
                    held_schedule,
                ));
                assert(ran(
                    kernel,
                    old(self).network,
                    old(self).scheduler,
                    count,
                    self.network,
                    self.scheduler,
                ));
            }
            if let Some(interval) = self.config.progress_interval {
                if interval > 0 && self.network.tick % interval == 0 {
                    progress(self.network.tick, self.config.max_ticks);
                }
            }
        }
        let end = Timestamp::now();
        let duration_ms = if end.0 >= start.0 {
            end.0 - start.0
        } else {
            0
        };
        let convergence = if self.network.metrics.trust_history.len() < 2 {
            Real::zero()
        } else {
            kernel.convergence(&self.network.metrics.trust_history)
        };
        let summary = self.network.metrics.summary(convergence);
        proof {
            assert(converged(kernel, self.network.metrics, convergence));
        }
        SimulationResult {
            summary,
            duration_ms,
            final_tick: self.network.tick,
            completed: true,
            error: None,
        }
    }

    /// Makes a runner, sets it up with a scenario, and runs it (see
    /// `scenario_run`).
    pub fn run_scenario<S: Scenario, A: Arithmetic, C: Chance, P: Fn(u64, u64)>(
        config: SimulationConfig,
        scenario: &S,
        kernel: &A,
        chance: &mut C,
        progress: &P,
    ) -> (result: SimulationResult)
        requires
            forall|tick: u64, end: u64| call_requires(*progress, (tick, end)),
        ensures
            result.final_tick == config.max_ticks,
            result.completed,
            result.error.is_none(),
            scenario_run(kernel, config, *scenario, result),
    {
        let mut runner = SimulationRunner::new(config, chance, Timestamp::now());
        let ghost made = runner;
        let now = Timestamp::now();
        runner.apply_scenario(scenario, now);
        let ghost set = runner;
        let result = runner.run(kernel, chance, progress);
        proof {
            assert(scenario_steps(kernel, config, *scenario, result, made, set, runner, now));
        }
        result
    }
}

/// Whether `result` is what the run of a scenario gave, by way of the runner
/// as it was made, as the scenario set it up at the time `now`, and as it was
/// at the end of the run: the run went from tick zero to the tick at which
/// it was to end, and the summary is that of what the network recorded.
pub open spec fn scenario_steps<S: Scenario, A: Arithmetic>(
    kernel: &A,
    config: SimulationConfig,
    scenario: S,
    result: SimulationResult,
    made: SimulationRunner,
    set: SimulationRunner,
    done: SimulationRunner,
    now: Timestamp,
) -> bool {
    &&& SimulationRunner::made(config, made)
    &&& scenario.sets_up(made.network, made.scheduler, set.network, set.scheduler, now)
    &&& set.network.tick == 0
    &&& ran(
        kernel,
        set.network,
        set.scheduler,
        config.max_ticks as nat,
        done.network,
        done.scheduler,
    )
    &&& summarised(kernel, done.network.metrics, result.summary)
    &&& result.final_tick == done.network.tick
    &&& result.completed
    &&& result.error.is_none()
}

/// Whether `result` is what the run of a scenario gave (see
/// `scenario_steps`).
pub open spec fn scenario_run<S: Scenario, A: Arithmetic>(
    kernel: &A,
    config: SimulationConfig,
    scenario: S,
    result: SimulationResult,
) -> bool {
    exists|made: SimulationRunner, set: SimulationRunner, done: SimulationRunner, now: Timestamp| #[trigger]
        scenario_steps(kernel, config, scenario, result, made, set, done, now)
}

/// A copy of a row of capabilities.
fn copy_capabilities(capabilities: &Vec<crate::capability::Capability>) -> (r: Vec<
    crate::capability::Capability,
>)
    ensures
        r@ == capabilities@,
{
    let mut r: Vec<crate::capability::Capability> = Vec::new();
    let mut i: usize = 0;
    while i < capabilities.len()
        invariant
            i <= capabilities.len(),
            r@ == capabilities@.take(i as int),
        decreases capabilities.len() - i,
    {
        r.push(capabilities[i].clone());
        assert(r@ =~= capabilities@.take(i as int + 1));
        i += 1;
    }
    assert(capabilities@.take(i as int) =~= capabilities@);
    r
}

/// The configuration of a quick run: the given number of nodes, of which
/// each has the capability of analysis, and the given number of ticks.
pub open spec fn is_quick(node_count: usize, ticks: u64, config: SimulationConfig) -> bool {
    &&& config.max_ticks == ticks
    &&& config.detailed_metrics
    &&& config.progress_interval == Some(100u64)
    &&& config.network_config.node_count == node_count
    &&& config.network_config.connection_probability == Real(CONNECTION_PROBABILITY)
    &&& config.network_config.seed.is_none()
    &&& config.network_config.capabilities@.len() == 1
    &&& config.network_config.capabilities@[0].name@ == "analysis"@
}

/// A run of the given number of ticks on a network of the given number of
/// honest nodes, of which each has the capability of analysis: the run of
/// the scenario of honest agents with the configuration of a quick run.
pub fn quick_run<A: Arithmetic, C: Chance>(node_count: usize, ticks: u64, kernel: &A, chance: &mut C) -> (result:
    SimulationResult)
    ensures
        result.final_tick == ticks,
        result.completed,
        result.error.is_none(),
        exists|config: SimulationConfig| #[trigger]
            is_quick(node_count, ticks, config) && scenario_run(
                kernel,
                config,
                (TrustEmergenceScenario {
                    interaction_rate: Real(HALF_BITS),
                    base_quality: Real(HONEST_QUALITY),
                    quality_variance: Real(HONEST_VARIANCE),
                }),
                result,
            ),
{
    let config = SimulationConfig::new().with_ticks(ticks).with_network(
        NetworkConfig::new().with_nodes(node_count).with_capability(
            common::analysis(),
        ).with_connection_prob(Real::from_bits(CONNECTION_PROBABILITY)),
    );
    let ghost asked = config;
    proof {
        assert(is_quick(node_count, ticks, asked));
    }
    let quiet = |tick: u64, end: u64| {  };
    SimulationRunner::run_scenario(config, &TrustEmergenceScenario::new(), kernel, chance, &quiet)
}

} // verus!
