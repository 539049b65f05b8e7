use rand::rngs::StdRng;
use rand::{Rng, SeedableRng};
use symbiont::capability::common;
use symbiont::connection::Dynamics;
use symbiont::constants;
use symbiont::detection::collusion::{detect_collusion, CollusionCluster};
use symbiont::detection::QualityFigures;
use symbiont::interaction::Interaction;
use symbiont::node::{Node, ThreatType};
use symbiont::routing::RoutingFactors;
use symbiont::scalar::{Real, Score, SignedScore, Weight};
use symbiont::sim::agents::{
    Agent, FreeRider, HonestAgent, PassiveAgent, StrategicAdversary, SybilCluster,
};
use symbiont::sim::arithmetic::{Arithmetic, Chance, Observation};
use symbiont::sim::events::{AgentType, Event, EventScheduler, ScheduledEvent};
use symbiont::sim::metrics::{MetricsCollector, NodePair, TrustSnapshot};
use symbiont::sim::network::{Network, NetworkConfig};
use symbiont::sim::runner::{quick_run, SimulationConfig, SimulationRunner};
use symbiont::sim::scenarios::adversary::{AdversaryScenario, AdversaryType};
use symbiont::sim::scenarios::trust_emergence::TrustEmergenceScenario;
use symbiont::sim::scenarios::workflow::{WorkflowScenario, WorkflowType};
use symbiont::sim::scenarios::{AnyScenario, Scenario, ScenarioKind};
use symbiont::table::Table;
use symbiont::types::{CapabilityId, NodeId, Timestamp};

// ---------------------------------------------------------------------------
// Real arithmetic and chance, as the protocol defines them
// ---------------------------------------------------------------------------

fn lift(x: f64) -> Real {
    Real::from_bits(x.to_bits())
}

fn plain(r: Real) -> f64 {
    f64::from_bits(r.to_bits())
}

fn score(x: f64) -> Score {
    Score::new(lift(x))
}

fn signed(x: f64) -> SignedScore {
    SignedScore::new(lift(x))
}

fn weight(x: f64) -> Weight {
    Weight::new(lift(x))
}

fn sv(s: Score) -> f64 {
    plain(s.value())
}

fn tv(s: SignedScore) -> f64 {
    plain(s.value())
}

fn wv(w: Weight) -> f64 {
    plain(w.value())
}

fn constant(bits: u64) -> f64 {
    f64::from_bits(bits)
}

fn ema(held: f64, observed: f64) -> f64 {
    let lambda = constant(constants::LAMBDA);
    lambda * held + (1.0 - lambda) * observed
}

fn safe_log(x: f64) -> f64 {
    x.max(constant(constants::EPSILON)).ln()
}

fn reciprocity_sigmoid(r: f64) -> f64 {
    let x = -constant(constants::BETA) * r;
    if x > 700.0 {
        return -1.0;
    }
    if x < -700.0 {
        return 1.0;
    }
    ((2.0 / (1.0 + x.exp())) - 1.0).clamp(-1.0, 1.0)
}

fn sigmoid(x: f64) -> f64 {
    if x > 700.0 {
        return 1.0;
    }
    if x < -700.0 {
        return 0.0;
    }
    (1.0 / (1.0 + (-x).exp())).clamp(0.0, 1.0)
}

fn plain_scores(scores: &Vec<Score>) -> Vec<f64> {
    scores.iter().map(|s| sv(*s)).collect()
}

fn mean(values: &[f64]) -> f64 {
    values.iter().sum::<f64>() / values.len() as f64
}

fn variance(values: &[f64]) -> f64 {
    let m = mean(values);
    values.iter().map(|v| (v - m).powi(2)).sum::<f64>() / values.len() as f64
}

struct Math;

impl Arithmetic for Math {
    fn exchange(&self, before: Dynamics, observed: Observation, threat_level: Score) -> Dynamics {
        let lambda = constant(constants::LAMBDA);
        let ratio = plain(observed.exchange_in) / (plain(observed.exchange_out) + constant(constants::EPSILON));
        let quality_adj = constant(constants::THETA) * (sv(observed.quality) - 0.5);
        let r = lambda * plain(before.r) + (1.0 - lambda) * (safe_log(ratio) + quality_adj);
        let q = score(ema(sv(before.q), sv(observed.quality)));
        let tau = signed(ema(tv(before.tau), tv(observed.tone)));
        let flow = plain(observed.volume).abs().powf(constant(constants::MU));
        let phi = constant(constants::GAMMA) * flow * reciprocity_sigmoid(r) * (0.5 + sv(q))
            * (0.7 + 0.3 * tv(tau));
        let w = wv(before.w);
        let delta_w = phi - constant(constants::ALPHA) * w - constant(constants::DELTA) * sv(threat_level);
        Dynamics { r: lift(r), q, tau, w: weight(w + delta_w) }
    }

    fn average(&self, held: Score, observed: Score) -> Score {
        score(ema(sv(held), sv(observed)))
    }

    fn probation_trust(&self, trust: Score) -> (Score, Score) {
        (score(sv(trust) * 1.5), score(sv(trust) * 0.8))
    }

    fn decay_priming(&self, priming: Score) -> Score {
        score(sv(priming) * constant(constants::PRIMING_DECAY))
    }

    fn decay_weight(&self, w: Weight) -> Weight {
        weight(wv(w) - constant(constants::ALPHA) * wv(w))
    }

    fn believe(&self, belief: Score, w: Score) -> Score {
        score(sv(belief) + sv(w) * (1.0 - sv(belief)))
    }

    fn quality_figures(&self, recent: &Vec<Score>, early: &Vec<Score>) -> QualityFigures {
        let early_mean = mean(&plain_scores(early));
        let drop = early_mean - mean(&plain_scores(recent));
        QualityFigures {
            early_mean: score(early_mean),
            early_variance: lift(variance(&plain_scores(early))),
            quality_drop: lift(drop),
            drop_confidence: score((drop / 0.5).min(1.0)),
            drop_reason: format!("Quality dropped by {drop:.2} after building trust"),
        }
    }

    fn diversity_finding(&self, partners: usize) -> (Score, String) {
        let diversity = sv(score(partners as f64 / 100.0));
        let confidence = 0.5 + 0.3 * (1.0 - diversity / constant(constants::DIVERSITY_THRESHOLD));
        (score(confidence), format!("Low interaction diversity: {diversity:.2}"))
    }

    fn variance(&self, scores: &Vec<Score>) -> Real {
        lift(variance(&plain_scores(scores)))
    }

    fn mean(&self, scores: &Vec<Score>) -> Score {
        score(mean(&scores.iter().map(|s| sv(*s)).collect::<Vec<_>>()))
    }

    fn collusion_evidence(&self, cluster: &CollusionCluster) -> String {
        let density = if cluster.possible_edges > 0 {
            cluster.internal_edges as f64 / cluster.possible_edges as f64
        } else {
            0.0
        };
        format!(
            "Collusion cluster detected: density={:.2}, mutual_rating={:.2}",
            density,
            sv(cluster.mutual_rating)
        )
    }

    fn mean_real(&self, values: &Vec<Real>) -> Real {
        lift(mean(&values.iter().map(|v| plain(*v)).collect::<Vec<_>>()))
    }

    fn weighted_quality(&self, qualities: &Vec<Score>, volumes: &Vec<u32>) -> Score {
        let sum: f64 = qualities.iter().zip(volumes).map(|(q, v)| sv(*q) * *v as f64).sum();
        score(sum / volumes.iter().map(|v| *v as f64).sum::<f64>())
    }

    fn trust_base(&self, quality: Score, reciprocity: Real, social_proof: Real, partners: usize) -> Score {
        let d = sv(score(partners as f64 / 100.0));
        let (wq, wr, ws, wd) = (
            constant(constants::TRUST_WEIGHT_QUALITY),
            constant(constants::TRUST_WEIGHT_RECIPROCITY),
            constant(constants::TRUST_WEIGHT_SOCIAL),
            constant(constants::TRUST_WEIGHT_DIVERSITY),
        );
        score(
            (wq * sv(quality) + wr * sigmoid(plain(reciprocity)) + ws * sv(score(plain(social_proof))) + wd * d)
                / (wq + wr + ws + wd),
        )
    }

    fn spread(&self, scores: &Vec<Score>) -> (Real, Real) {
        let values: Vec<f64> = scores.iter().map(|s| sv(*s)).collect();
        (lift(mean(&values)), lift(variance(&values).sqrt()))
    }

    fn routing_score(&self, f: RoutingFactors) -> Real {
        let bonus = if f.preferred { 1.2 } else { 1.0 };
        lift(sv(f.trust) * sv(f.capability_quality) * (1.0 - sv(f.load)) * wv(f.connection)
            * (1.0 - sv(f.threat)) * bonus)
    }

    fn ratio(&self, count: usize, of: usize) -> Real {
        lift(count as f64 / of as f64)
    }

    fn convergence(&self, history: &Vec<TrustSnapshot>) -> Real {
        let (early, late) = history.split_at(history.len() / 2);
        let std = |part: &[TrustSnapshot]| mean(&part.iter().map(|s| plain(s.std_dev)).collect::<Vec<_>>());
        lift(std(early) - std(late))
    }
}

struct Dice(StdRng);

impl Dice {
    fn seeded(seed: u64) -> Self {
        Dice(StdRng::seed_from_u64(seed))
    }
}

impl Chance for Dice {
    fn happens(&mut self, probability: Real) -> bool {
        self.0.gen::<f64>() < plain(probability)
    }

    fn below(&mut self, n: usize) -> usize {
        if n == 0 {
            0
        } else {
            self.0.gen_range(0..n)
        }
    }

    fn around(&mut self, center: Real, spread: Real) -> Real {
        let s = plain(spread);
        if s > 0.0 {
            lift(plain(center) + self.0.gen_range(-s..s))
        } else {
            center
        }
    }

    fn between(&mut self, low: Real, high: Real) -> Real {
        if plain(low) < plain(high) {
            lift(self.0.gen_range(plain(low)..plain(high)))
        } else {
            low
        }
    }

    fn weighted(&mut self, weights: &Vec<Weight>) -> usize {
        let total: f64 = weights.iter().map(|w| wv(*w)).sum();
        let mut pick = self.0.gen::<f64>() * total;
        for (i, w) in weights.iter().enumerate() {
            pick -= wv(*w);
            if pick <= 0.0 {
                return i;
            }
        }
        self.below(weights.len())
    }
}

/// Chance that always, or never, lets an event happen.
struct Fixed(bool);

impl Chance for Fixed {
    fn happens(&mut self, _probability: Real) -> bool {
        self.0
    }

    fn below(&mut self, n: usize) -> usize {
        // More than any table holds: what is drawn is taken modulo `n`.
        n + 1
    }

    fn around(&mut self, center: Real, _spread: Real) -> Real {
        center
    }

    fn between(&mut self, low: Real, _high: Real) -> Real {
        low
    }

    fn weighted(&mut self, weights: &Vec<Weight>) -> usize {
        weights.len() + 2
    }
}

fn quiet(_tick: u64, _end: u64) {}

fn now() -> Timestamp {
    Timestamp::now()
}

// ---------------------------------------------------------------------------
// Agents
// ---------------------------------------------------------------------------

#[test]
fn test_honest_agent() {
    let agent = HonestAgent::new(lift(1.0)); // Always interact
    assert_eq!(agent.agent_type(), "honest");
}

#[test]
fn test_strategic_adversary() {
    let agent = StrategicAdversary::new(100);
    assert_eq!(agent.agent_type(), "strategic_adversary");
}

fn connected_node(me: u64, partners: &[u64]) -> Node {
    let mut node = Node::with_capabilities(NodeId::from_index(me), vec![common::analysis()], now());
    for p in partners {
        node.get_or_create_connection(NodeId::from_index(*p), now());
    }
    node
}

fn exchange_of(event: &Event) -> (NodeId, NodeId, f64, f64, f64, Option<CapabilityId>) {
    match event {
        Event::Interaction { from, to, volume, quality, tone, capability } => {
            (*from, *to, plain(*volume), sv(*quality), tv(*tone), *capability)
        }
        _ => panic!("an agent begins exchanges only"),
    }
}

#[test]
fn a_strategic_adversary_defects_at_its_tick() {
    let node = connected_node(1, &[2, 3]);
    let network = Table::new();
    let agent = StrategicAdversary::new(100);
    for (tick, quality) in [(0, 0.95), (99, 0.95), (100, 0.2), (500, 0.2)] {
        let events = agent.act(&node, &network, tick, &mut Fixed(true));
        assert_eq!(events.len(), 1);
        let (from, to, volume, q, tone, capability) = exchange_of(&events[0]);
        assert_eq!(from, node.id);
        // Three taken modulo the two connections: the second.
        assert_eq!(to, NodeId::from_index(3));
        assert_eq!(volume, 1.0);
        assert_eq!(q, quality);
        assert_eq!(tone, 0.0);
        assert_eq!(capability, Some(common::analysis().id));
    }
    assert!(agent.act(&node, &network, 0, &mut Fixed(false)).is_empty());
    // Without a connection there is no one to turn to.
    let lonely = connected_node(1, &[]);
    assert!(agent.act(&lonely, &network, 0, &mut Fixed(true)).is_empty());
}

#[test]
fn agents_behave_by_their_kind() {
    let node = connected_node(1, &[2, 1000, 3]);
    let mut network = Table::new();
    for i in [1, 2, 3, 4] {
        network.insert(NodeId::from_index(i), Node::new(NodeId::from_index(i), now()));
    }
    // A free rider gives work of low quality, in a poor tone.
    let events = FreeRider::new(lift(0.5)).act(&node, &network, 1, &mut Fixed(true));
    let (_, _, _, q, tone, _) = exchange_of(&events[0]);
    assert_eq!(q, 0.1);
    assert_eq!(tone, -0.3);
    assert_eq!(FreeRider::new(lift(0.5)).agent_type(), "free_rider");
    // A passive agent does half the usual volume.
    let events = PassiveAgent::new().act(&node, &network, 1, &mut Fixed(true));
    let (_, _, volume, q, _, _) = exchange_of(&events[0]);
    assert_eq!(volume, 0.5);
    assert_eq!(q, 0.6);
    assert_eq!(PassiveAgent::default().agent_type(), "passive");
    // A Sybil identity rates the other identities highly and outsiders
    // poorly, and does not deal with itself.
    let cluster = vec![NodeId::from_index(1), NodeId::from_index(1000), NodeId::from_index(1001)];
    let sybil = SybilCluster::new(cluster);
    assert_eq!(sybil.agent_type(), "sybil");
    let events = sybil.act(&node, &network, 1, &mut Fixed(true));
    let dealt: Vec<(u64, f64, f64)> = events
        .iter()
        .map(|e| {
            let (from, to, _, q, tone, _) = exchange_of(e);
            assert_eq!(from, node.id);
            (u64::from_le_bytes(to.as_bytes()[..8].try_into().unwrap()), q, tone)
        })
        .collect();
    assert_eq!(dealt, vec![(1000, 0.99, 0.9), (1001, 0.99, 0.9), (2, 0.3, -0.2), (3, 0.3, -0.2)]);
    assert!(sybil.act(&node, &network, 1, &mut Fixed(false)).is_empty());
    // An honest agent turns to a node that it knows; where it explores, to
    // a node that it does not know yet.
    let honest = HonestAgent::new(lift(0.5)).with_quality(lift(0.85), lift(0.05));
    let events = honest.act(&node, &network, 1, &mut Fixed(true));
    let (from, to, volume, q, tone, capability) = exchange_of(&events[0]);
    assert_eq!((from, volume, q, tone), (node.id, 1.0, 0.85, -0.2));
    assert!(node.connections.contains_key(&to));
    assert_eq!(capability, Some(common::analysis().id));
    let newcomer = Node::new(NodeId::from_index(1), now());
    let events = honest.act(&newcomer, &network, 1, &mut Fixed(true));
    let (_, to, _, _, _, capability) = exchange_of(&events[0]);
    assert!(network.contains_key(&to));
    assert_ne!(to, newcomer.id);
    assert_eq!(capability, None);
    assert!(honest.act(&newcomer, &Table::new(), 1, &mut Fixed(true)).is_empty());
    // The agent of a kind.
    assert_eq!(Agent::from_type(AgentType::Passive).agent_type(), "passive");
    assert_eq!(Agent::from_type(AgentType::Strategic { defection_tick: 3 }).agent_type(), "strategic_adversary");
    assert_eq!(
        Agent::from_type(AgentType::Honest { interaction_rate: lift(0.5), base_quality: lift(0.8) }).agent_type(),
        "honest"
    );
    assert_eq!(Agent::from_type(AgentType::FreeRider { interaction_rate: lift(0.5) }).agent_type(), "free_rider");
    assert_eq!(Agent::from_type(AgentType::Sybil { cluster_members: vec![] }).agent_type(), "sybil");
}

// ---------------------------------------------------------------------------
// Events
// ---------------------------------------------------------------------------

#[test]
fn test_event_scheduler() {
    let mut scheduler = EventScheduler::new();

    scheduler.schedule(10, Event::node_leave(NodeId::from_index(1)));
    scheduler.schedule(5, Event::node_leave(NodeId::from_index(2)));
    scheduler.schedule(15, Event::node_leave(NodeId::from_index(3)));

    // Events should be sorted
    assert_eq!(scheduler.next_tick(), Some(5));

    // Get events at tick 5
    let events = scheduler.due_at(5);
    assert_eq!(events.len(), 1);

    // Get events at tick 12 (should include tick 10)
    let events = scheduler.due_at(12);
    assert_eq!(events.len(), 1);

    // Tick 15 event still pending
    assert!(scheduler.has_pending());
}

fn leaver(event: &Event) -> u64 {
    match event {
        Event::NodeLeave { node_id } => u64::from_le_bytes(node_id.as_bytes()[..8].try_into().unwrap()),
        _ => panic!("a node leaves"),
    }
}

#[test]
fn scheduled_events_fire_by_tick_and_then_in_the_order_of_scheduling() {
    let mut scheduler = EventScheduler::default();
    assert!(!scheduler.has_pending());
    assert_eq!(scheduler.next_tick(), None);
    assert!(scheduler.due_at(100).is_empty());
    for (tick, id) in [(7, 1), (3, 2), (7, 3), (3, 4), (9, 5), (0, 6), (7, 7), (3, 8)] {
        scheduler.schedule(tick, Event::node_leave(NodeId::from_index(id)));
    }
    assert_eq!(scheduler.next_tick(), Some(0));
    let due: Vec<u64> = scheduler.due_at(2).iter().map(leaver).collect();
    assert_eq!(due, vec![6]);
    // Events of earlier ticks that are still there fire too.
    let due: Vec<u64> = scheduler.due_at(7).iter().map(leaver).collect();
    assert_eq!(due, vec![2, 4, 8, 1, 3, 7]);
    assert!(scheduler.due_at(8).is_empty());
    assert_eq!(scheduler.next_tick(), Some(9));
    let due: Vec<u64> = scheduler.due_at(u64::MAX).iter().map(leaver).collect();
    assert_eq!(due, vec![5]);
    assert!(!scheduler.has_pending());
    let scheduled = ScheduledEvent::new(4, Event::node_leave(NodeId::from_index(1)));
    assert_eq!(scheduled.at_tick, 4);
    let e = Event::interaction(NodeId::from_index(1), NodeId::from_index(2), score(0.7));
    let (from, to, volume, q, tone, capability) = exchange_of(&e);
    assert_eq!((from, to), (NodeId::from_index(1), NodeId::from_index(2)));
    assert_eq!((volume, q, tone, capability), (1.0, 0.7, 0.0, None));
    assert!(matches!(Event::node_join(Node::new(NodeId::from_index(1), now())), Event::NodeJoin { agent_type: None, .. }));
}

// ---------------------------------------------------------------------------
// Metrics
// ---------------------------------------------------------------------------

#[test]
fn test_metrics_collector() {
    let mut collector = MetricsCollector::new();

    let trusts = vec![score(0.5), score(0.6), score(0.7)];
    let (mean, std_dev) = Math.spread(&trusts);
    collector.record_trust_distribution(1, &trusts, mean, std_dev);

    assert_eq!(collector.trust_history.len(), 1);
    assert!((plain(collector.trust_history[0].mean) - 0.6).abs() < 0.01);
}

#[test]
fn test_interaction_recording() {
    let mut collector = MetricsCollector::new();

    let n1 = NodeId::from_index(1);
    let n2 = NodeId::from_index(2);

    collector.record_interaction(n1, n2, score(0.8));
    collector.record_interaction(n1, n2, score(0.9));

    assert_eq!(*collector.interaction_counts.get(&NodePair(n1, n2)).unwrap(), 2);
}

#[test]
fn metrics_count_pairs_whichever_node_began() {
    let mut collector = MetricsCollector::default();
    let (a, b, c) = (NodeId::from_index(1), NodeId::from_index(2), NodeId::from_index(3));
    collector.record_interaction(a, b, score(0.8));
    collector.record_interaction(b, a, score(0.6));
    collector.record_interaction(c, a, score(0.4));
    assert_eq!(collector.interaction_counts.len(), 2);
    assert_eq!(*collector.interaction_counts.get(&NodePair(a, b)).unwrap(), 2);
    assert_eq!(*collector.interaction_counts.get(&NodePair(a, c)).unwrap(), 1);
    assert!(collector.interaction_counts.get(&NodePair(b, a)).is_none());
    let began = |id: &NodeId| -> Vec<f64> {
        collector.quality_history.get(id).unwrap().iter().map(|q| sv(*q)).collect()
    };
    assert_eq!(began(&a), vec![0.8]);
    assert_eq!(began(&b), vec![0.6]);
    assert_eq!(began(&c), vec![0.4]);
    // Without nodes no snapshot is recorded.
    collector.record_trust_distribution(1, &vec![], lift(0.0), lift(0.0));
    assert!(collector.trust_history.is_empty());
    let trusts = vec![score(0.2), score(0.75), score(0.9)];
    collector.record_trust_distribution(4, &trusts, lift(0.5), lift(0.25));
    let snapshot = collector.trust_history[0];
    assert_eq!(snapshot.tick, 4);
    assert_eq!((plain(snapshot.min), plain(snapshot.max)), (0.2, 0.9));
    assert_eq!((snapshot.high_trust_count, snapshot.low_trust_count), (2, 1));
    collector.record_detection(9, a, "Sybil", score(0.8));
    assert_eq!(collector.detection_events[0].threat_type, "Sybil");
    assert_eq!(collector.detection_events[0].tick, 9);
    let summary = collector.summary(lift(0.125));
    assert_eq!(summary.total_ticks, 1);
    assert_eq!(summary.total_interactions, 3);
    assert_eq!(plain(summary.final_mean_trust), 0.5);
    assert_eq!(plain(summary.trust_convergence), 0.125);
    assert_eq!(summary.detection_count, 1);
    assert_eq!(plain(MetricsCollector::new().summary(lift(0.0)).final_mean_trust), 0.0);
}

// ---------------------------------------------------------------------------
// The network
// ---------------------------------------------------------------------------

#[test]
fn test_network_creation() {
    let config = NetworkConfig::default()
        .with_nodes(5)
        .with_capability(common::analysis())
        .with_connection_prob(lift(0.5))
        .with_seed(42);

    let network = Network::from_config(config, &mut Dice::seeded(42), now());

    assert_eq!(network.node_count(), 5);
    assert!(network.stats(&Math).connection_count > 0);
}

#[test]
fn test_network_tick() {
    let mut network =
        Network::from_config(NetworkConfig::default().with_nodes(3).with_seed(42), &mut Dice::seeded(42), now());

    // Add honest agents
    let node_ids: Vec<NodeId> = (0..network.nodes.len()).map(|i| network.nodes.key_at(i)).collect();
    for id in node_ids {
        network.set_agent(id, Agent::Honest(HonestAgent::new(lift(0.5))));
    }

    let initial_tick = network.tick;
    network.tick(&Math, &mut Dice::seeded(1), now());

    assert_eq!(network.tick, initial_tick + 1);
}

#[test]
fn a_network_is_made_as_its_configuration_asks() {
    let config = NetworkConfig::new().with_nodes(4).with_capability(common::analysis()).with_capability(common::generation());
    let network = Network::from_config(config, &mut Fixed(true), Timestamp::new(3));
    let ids: Vec<NodeId> = (0..network.nodes.len()).map(|i| network.nodes.key_at(i)).collect();
    assert_eq!(ids, (0..4).map(NodeId::from_index).collect::<Vec<_>>());
    for id in &ids {
        let node = network.get_node(id).unwrap();
        assert!(node.has_capability(common::analysis().id));
        assert!(node.has_capability(common::generation().id));
        // Every pair is connected, in both directions.
        assert_eq!(node.connections.len(), 3);
        assert!(!node.connections.contains_key(id));
        assert_eq!(node.created, Timestamp::new(3));
    }
    let stats = network.stats(&Math);
    assert_eq!((stats.node_count, stats.connection_count, stats.tick), (4, 6, 0));
    assert!((plain(stats.mean_trust) - 0.4).abs() < 1e-12);
    assert_eq!(plain(stats.mean_connections), 3.0);
    let sparse = Network::from_config(NetworkConfig::new().with_nodes(4), &mut Fixed(false), now());
    assert_eq!(sparse.stats(&Math).connection_count, 0);
    let empty = Network::default();
    assert_eq!(empty.node_count(), 0);
    assert_eq!(plain(empty.stats(&Math).mean_trust), 0.0);
    assert!(empty.get_node(&NodeId::from_index(0)).is_none());
    let config = NetworkConfig::default();
    assert_eq!(config.node_count, 10);
    assert_eq!(plain(config.connection_probability), 0.3);
    assert_eq!(config.seed, None);
}

#[test]
fn events_change_the_network_as_they_happen() {
    let (a, b, c) = (NodeId::from_index(0), NodeId::from_index(1), NodeId::from_index(7));
    let mut network = Network::from_config(
        NetworkConfig::new().with_nodes(2).with_capability(common::analysis()),
        &mut Fixed(false),
        now(),
    );
    let cap = common::analysis().id;
    // An exchange is taken in by both nodes, and recorded.
    network.queue_event(Event::Interaction {
        from: a,
        to: b,
        volume: lift(1.0),
        quality: score(0.9),
        tone: signed(0.5),
        capability: Some(cap),
    });
    assert_eq!(network.queued(), 1);
    network.process_events(&Math, Timestamp::new(50));
    assert_eq!(network.queued(), 0);
    let began = network.get_node(&a).unwrap();
    let answered = network.get_node(&b).unwrap();
    assert_eq!(began.get_connection(&b).unwrap().count, 1);
    assert_eq!(answered.get_connection(&a).unwrap().count, 1);
    assert!((sv(began.get_connection(&b).unwrap().q) - 0.54).abs() < 1e-12);
    assert!((sv(began.get_connection(&b).unwrap().capability_quality(cap)) - 0.54).abs() < 1e-12);
    assert_eq!(began.probation_count, 1);
    assert_eq!(answered.probation_count, 0);
    assert_eq!(answered.capabilities.get(&cap).unwrap().volume, 1);
    assert_eq!(began.capabilities.get(&cap).unwrap().volume, 0);
    assert_eq!(began.history.len(), 1);
    assert_eq!(answered.history.len(), 1);
    assert_eq!(*network.metrics.interaction_counts.get(&NodePair(a, b)).unwrap(), 1);
    // A node that joins with a behaviour is connected to every other node.
    let joiner = Node::with_capabilities(c, vec![common::analysis()], now());
    network.queue_event(Event::node_join_with_agent(joiner, AgentType::Passive));
    network.process_events(&Math, now());
    assert_eq!(network.node_count(), 3);
    assert_eq!(network.get_node(&c).unwrap().connections.len(), 2);
    assert!(network.get_node(&a).unwrap().connections.contains_key(&c));
    assert!(network.agents.contains_key(&c));
    // One that joins without a behaviour is not.
    network.queue_event(Event::node_join(Node::new(NodeId::from_index(8), now())));
    network.process_events(&Math, now());
    assert_eq!(network.get_node(&NodeId::from_index(8)).unwrap().connections.len(), 0);
    assert!(!network.agents.contains_key(&NodeId::from_index(8)));
    // A signal raises the belief that the node which it names holds.
    let signal = symbiont::defense::DefenseSignal::new(
        a,
        b,
        ThreatType::Strategic,
        score(0.5),
        symbiont::types::Hash::compute(b"e"),
        now(),
    );
    network.queue_event(Event::DefenseSignal { signal });
    network.queue_event(Event::DefenseSignal { signal });
    network.process_events(&Math, now());
    assert!((sv(network.get_node(&b).unwrap().get_threat_level(&b)) - 0.75).abs() < 1e-12);
    assert_eq!(sv(network.get_node(&a).unwrap().get_threat_level(&b)), 0.0);
    // A node that leaves is gone, with its agent.
    network.queue_event(Event::node_leave(c));
    network.process_events(&Math, now());
    assert!(network.get_node(&c).is_none());
    assert!(!network.agents.contains_key(&c));
    assert_eq!(network.node_count(), 3);
    // An exchange with a node that is not there is taken in by the other.
    network.queue_event(Event::interaction(a, c, score(0.5)));
    network.process_events(&Math, now());
    assert_eq!(network.get_node(&a).unwrap().get_connection(&c).unwrap().count, 1);
}

#[test]
fn a_tick_without_agents_changes_no_trust() {
    let mut network = Network::from_config(
        NetworkConfig::new().with_nodes(6).with_capability(common::analysis()),
        &mut Dice::seeded(5),
        now(),
    );
    network.tick(&Math, &mut Dice::seeded(1), now());
    let trusts = |network: &Network| -> Vec<f64> {
        (0..network.nodes.len()).map(|i| sv(network.nodes.value_at(i).trust)).collect()
    };
    let before = trusts(&network);
    for _ in 0..5 {
        network.tick(&Math, &mut Dice::seeded(1), now());
    }
    assert_eq!(network.tick, 6);
    for (b, a) in before.iter().zip(trusts(&network)) {
        assert!((b - a).abs() < 1e-12);
    }
    assert_eq!(network.metrics.trust_history.len(), 6);
    assert_eq!(network.metrics.trust_history[5].tick, 6);
    assert_eq!(network.queued(), 0);
}

#[test]
fn signals_of_a_scan_wait_for_the_next_tick() {
    let mut network = Network::from_config(
        NetworkConfig::new().with_nodes(3).with_capability(common::analysis()),
        &mut Fixed(true),
        now(),
    );
    network.tick = 99;
    network.tick(&Math, &mut Fixed(false), now());
    assert_eq!(network.tick, 100);
    // Every node has low diversity: one signal about each waits.
    assert_eq!(network.queued(), 3);
    for i in 0..3 {
        let node = network.nodes.value_at(i);
        assert_eq!(sv(node.get_threat_level(&node.id)), 0.0);
        // No trust exceeds the diversity cap or the trust cap.
        assert!(sv(node.trust) <= 0.3 + 1e-12);
        assert!(sv(node.trust) <= sv(node.trust_cap));
        assert_eq!(sv(node.trust_cap), 0.7);
    }
    network.tick(&Math, &mut Fixed(false), now());
    assert_eq!(network.queued(), 0);
    for i in 0..3 {
        let node = network.nodes.value_at(i);
        assert!((sv(node.get_threat_level(&node.id)) - 0.8).abs() < 1e-12);
        assert_eq!(node.threat_beliefs.get(&node.id).unwrap().threat_type, ThreatType::Sybil);
    }
}

// ---------------------------------------------------------------------------
// Runs and scenarios
// ---------------------------------------------------------------------------

#[test]
fn test_quick_run() {
    let result = quick_run(5, 100, &Math, &mut Dice::seeded(7));

    assert!(result.completed);
    assert_eq!(result.final_tick, 100);
    assert!(result.duration_ms < 10000); // Should be fast
}

#[test]
fn test_simulation_runner() {
    let config = SimulationConfig::default().with_ticks(50).with_network(NetworkConfig::default().with_nodes(3));

    let mut dice = Dice::seeded(3);
    let mut runner = SimulationRunner::new(config, &mut dice, now());
    let result = runner.run(&Math, &mut dice, &quiet);

    assert!(result.completed);
    assert_eq!(result.final_tick, 50);
}

#[test]
fn test_strategic_adversary_scenario() {
    let config = SimulationConfig::default().with_ticks(200).with_network(
        NetworkConfig::default().with_nodes(10).with_capability(common::analysis()).with_seed(42),
    );

    let scenario = AdversaryScenario::new(AdversaryType::Strategic).inject_at(0).with_count(2).defect_at(100);

    let result = SimulationRunner::run_scenario(config, &scenario, &Math, &mut Dice::seeded(42), &quiet);

    assert!(result.completed);
}

#[test]
fn test_free_rider_scenario() {
    let config = SimulationConfig::default().with_ticks(100).with_network(
        NetworkConfig::default().with_nodes(8).with_capability(common::analysis()).with_seed(123),
    );

    let scenario = AdversaryScenario::new(AdversaryType::FreeRider).inject_at(10).with_count(2);

    let result = SimulationRunner::run_scenario(config, &scenario, &Math, &mut Dice::seeded(123), &quiet);

    assert!(result.completed);
}

#[test]
fn test_trust_emergence_scenario() {
    let config = SimulationConfig::default().with_ticks(100).with_network(
        NetworkConfig::default()
            .with_nodes(10)
            .with_capability(common::analysis())
            .with_connection_prob(lift(0.4))
            .with_seed(42),
    );

    let scenario = TrustEmergenceScenario::new().with_interaction_rate(lift(0.6)).with_quality(lift(0.85), lift(0.05));

    let result = SimulationRunner::run_scenario(config, &scenario, &Math, &mut Dice::seeded(42), &quiet);

    assert!(result.completed);
    // In an honest network, trust should generally increase
    assert!(plain(result.summary.final_mean_trust) > 0.3);
}

#[test]
fn test_chain_workflow_scenario() {
    let config = SimulationConfig::default().with_ticks(100).with_network(
        NetworkConfig::default().with_nodes(12).with_connection_prob(lift(0.4)).with_seed(42),
    );

    let scenario = WorkflowScenario::new(WorkflowType::Chain).with_chain_length(3);

    let result = SimulationRunner::run_scenario(config, &scenario, &Math, &mut Dice::seeded(42), &quiet);

    assert!(result.completed);
}

#[test]
fn test_fan_out_workflow_scenario() {
    let config = SimulationConfig::default().with_ticks(100).with_network(
        NetworkConfig::default().with_nodes(15).with_connection_prob(lift(0.3)).with_seed(123),
    );

    let scenario = WorkflowScenario::new(WorkflowType::FanOutFanIn).with_parallelism(4);

    let result = SimulationRunner::run_scenario(config, &scenario, &Math, &mut Dice::seeded(123), &quiet);

    assert!(result.completed);
}

fn run_of(
    nodes: usize,
    ticks: u64,
    seed: u64,
    connection_prob: f64,
    scenario: &impl Scenario,
) -> SimulationRunner {
    let config = SimulationConfig::default().with_ticks(ticks).with_network(
        NetworkConfig::default()
            .with_nodes(nodes)
            .with_capability(common::analysis())
            .with_connection_prob(lift(connection_prob))
            .with_seed(seed),
    );
    let mut dice = Dice::seeded(seed);
    let mut runner = SimulationRunner::new(config, &mut dice, now());
    runner.apply_scenario(scenario, now());
    let result = runner.run(&Math, &mut dice, &quiet);
    assert!(result.completed);
    assert!(result.error.is_none());
    assert_eq!(result.final_tick, ticks);
    assert_eq!(result.summary.total_ticks, ticks);
    runner
}

fn snapshots(runner: &SimulationRunner) -> Vec<(u64, u64, u64, u64, u64, usize, usize)> {
    runner
        .network
        .metrics
        .trust_history
        .iter()
        .map(|s| {
            (
                s.tick,
                s.mean.to_bits(),
                s.std_dev.to_bits(),
                s.min.to_bits(),
                s.max.to_bits(),
                s.high_trust_count,
                s.low_trust_count,
            )
        })
        .collect()
}

#[test]
fn trust_emerges_among_honest_agents() {
    let scenario = TrustEmergenceScenario::new().with_interaction_rate(lift(0.5)).with_quality(lift(0.8), lift(0.1));
    let runner = run_of(20, 500, 42, 0.3, &scenario);
    let history = &runner.network.metrics.trust_history;
    assert_eq!(history.len(), 500);
    assert_eq!(history[99].tick, 100);
    assert_eq!(history[499].tick, 500);
    assert!(plain(history[499].mean) > 0.3);
    // Trust has come together: it is spread less than while it rose.
    let widest = history[..100].iter().map(|s| plain(s.std_dev)).fold(0.0, f64::max);
    assert!(plain(history[499].std_dev) < widest);
    assert!(plain(history[499].std_dev) < 0.05);
    assert!(plain(history[499].max) - plain(history[499].min) < 0.1);
    // No trust exceeds its caps.
    for i in 0..runner.network.nodes.len() {
        let node = runner.network.nodes.value_at(i);
        assert!(sv(node.trust) <= sv(node.trust_cap));
        assert!(sv(node.trust) <= node.diversity_hundredths() as f64 / 100.0 + 0.3 + 1e-12);
        for c in 0..node.connections.len() {
            let w = wv(node.connections.value_at(c).w);
            assert!((0.01..=1.0).contains(&w));
        }
    }
}

#[test]
fn the_same_seed_gives_the_same_run() {
    let scenario = AdversaryScenario::new(AdversaryType::Sybil).inject_at(5).with_count(3);
    let first = run_of(8, 120, 9, 0.3, &scenario);
    let second = run_of(8, 120, 9, 0.3, &scenario);
    assert_eq!(snapshots(&first), snapshots(&second));
    assert_eq!(snapshots(&first).len(), 120);
    let other = run_of(8, 120, 10, 0.3, &scenario);
    assert_ne!(snapshots(&first), snapshots(&other));
}

#[test]
fn strategic_adversaries_join_and_defect() {
    let scenario = AdversaryScenario::new(AdversaryType::Strategic).inject_at(0).with_count(2).defect_at(100);
    let runner = run_of(10, 200, 42, 0.3, &scenario);
    assert_eq!(runner.network.node_count(), 12);
    for i in [1010u64, 1011] {
        let id = NodeId::from_index(i);
        let adversary = runner.network.get_node(&id).unwrap();
        assert!(matches!(runner.network.agents.get(&id), Some(Agent::Strategic(_))));
        // It is connected to every honest node.
        assert!(adversary.connections.len() >= 10);
        // Its work was good before the defection and poor after it.
        let began: Vec<f64> =
            runner.network.metrics.quality_history.get(&id).unwrap().iter().map(|q| sv(*q)).collect();
        assert!(began.iter().any(|q| *q == 0.95));
        assert!(began.iter().any(|q| *q == 0.2));
        let first_bad = began.iter().position(|q| *q == 0.2).unwrap();
        assert!(began[..first_bad].iter().all(|q| *q == 0.95));
        assert!(began[first_bad..].iter().all(|q| *q == 0.2));
        // With a dozen nodes the diversity cap keeps every trust low.
        assert!(sv(adversary.trust) <= 0.42 + 1e-12);
    }
}

#[test]
fn free_riders_are_rated_poorly() {
    let scenario = AdversaryScenario::new(AdversaryType::FreeRider).inject_at(10).with_count(2);
    let runner = run_of(8, 100, 123, 0.3, &scenario);
    assert_eq!(runner.network.node_count(), 10);
    let riders = [NodeId::from_index(1008), NodeId::from_index(1009)];
    // The honest nodes hold a lower quality of the free riders than of one
    // another.
    let mut of_riders = Vec::new();
    let mut of_peers = Vec::new();
    for i in 0..8u64 {
        let honest = runner.network.get_node(&NodeId::from_index(i)).unwrap();
        for c in 0..honest.connections.len() {
            let quality = sv(honest.connections.value_at(c).q);
            if riders.contains(&honest.connections.key_at(c)) {
                of_riders.push(quality);
            } else {
                of_peers.push(quality);
            }
        }
    }
    assert_eq!(of_riders.len(), 16);
    assert!(mean(&of_riders) < 0.5);
    assert!(mean(&of_riders) < mean(&of_peers) - 0.1);
}

#[test]
fn a_sybil_cluster_is_scheduled_to_join() {
    let mut network = Network::from_config(NetworkConfig::new().with_nodes(4), &mut Fixed(false), now());
    let mut scheduler = EventScheduler::new();
    let scenario = AdversaryScenario::new(AdversaryType::Sybil).inject_at(7).with_count(3);
    assert_eq!(scenario.name(), "adversary_sybil");
    assert_eq!(scenario.description(), "Inject a coordinated Sybil cluster");
    scenario.setup(&mut network, &mut scheduler, now());
    // Every node that was there is honest.
    for i in 0..4 {
        assert!(matches!(network.agents.get(&NodeId::from_index(i)), Some(Agent::Honest(_))));
    }
    assert_eq!(scheduler.next_tick(), Some(7));
    assert!(scheduler.due_at(6).is_empty());
    let due = scheduler.due_at(7);
    assert_eq!(due.len(), 3);
    let cluster: Vec<NodeId> = (1004..1007).map(NodeId::from_index).collect();
    for (i, event) in due.iter().enumerate() {
        match event {
            Event::NodeJoin { node, agent_type: Some(AgentType::Sybil { cluster_members }) } => {
                assert_eq!(node.id, cluster[i]);
                assert_eq!(cluster_members, &cluster);
                assert!(node.has_capability(common::analysis().id));
            }
            _ => panic!("an identity of the cluster joins"),
        }
    }
    let defaults = AdversaryScenario::default();
    assert_eq!(defaults.adversary_type, AdversaryType::Strategic);
    assert_eq!((defaults.inject_at_tick, defaults.adversary_count, defaults.defection_tick), (0, 3, 100));
    assert_eq!(AdversaryScenario::new(AdversaryType::FreeRider).name(), "adversary_free_rider");
    assert_eq!(AdversaryScenario::new(AdversaryType::Strategic).name(), "adversary_strategic");
}

#[test]
fn a_sybil_cluster_is_found_to_collude() {
    let scenario = AdversaryScenario::new(AdversaryType::Sybil).inject_at(0).with_count(3);
    let config = SimulationConfig::default().with_ticks(99).with_network(NetworkConfig::default().with_nodes(0));
    let mut dice = Dice::seeded(11);
    let mut runner = SimulationRunner::new(config, &mut dice, now());
    runner.apply_scenario(&scenario, now());
    runner.run(&Math, &mut dice, &quiet);
    let cluster: Vec<NodeId> = (1000..1003).map(NodeId::from_index).collect();
    let found = detect_collusion(&runner.network.nodes, |given: &Vec<Score>| Math.mean(given));
    assert_eq!(found.len(), 1);
    assert_eq!(found[0].members, cluster);
    // The density is one, and the identities rate one another highly.
    assert_eq!(found[0].internal_edges, found[0].possible_edges);
    assert_eq!(found[0].external_edges, 0);
    assert!(sv(found[0].mutual_rating) > 0.95);
    assert!(found[0].is_suspicious());
    // At the hundredth tick the scan finds the cluster, and a signal about
    // each identity waits.
    runner.config.max_ticks = 100;
    runner.run(&Math, &mut dice, &quiet);
    assert_eq!(runner.network.tick, 100);
    assert!(runner.network.queued() >= 3);
    let named: Vec<NodeId> = runner
        .network
        .event_queue
        .iter()
        .filter_map(|e| match e {
            Event::DefenseSignal { signal }
                if signal.threat_type == ThreatType::Sybil && sv(signal.confidence) == 0.7 =>
            {
                Some(signal.threat)
            }
            _ => None,
        })
        .collect();
    assert_eq!(named, cluster);
}

#[test]
fn workflow_scenarios_share_out_capabilities() {
    let mut network = Network::from_config(NetworkConfig::new().with_nodes(12), &mut Dice::seeded(1), now());
    let mut scheduler = EventScheduler::new();
    let scenario = WorkflowScenario::new(WorkflowType::Chain);
    assert_eq!((scenario.chain_length, scenario.parallelism), (3, 3));
    assert_eq!(plain(scenario.interaction_rate), 0.6);
    scenario.setup(&mut network, &mut scheduler, now());
    assert!(!scheduler.has_pending());
    let names = ["intake", "process", "output"];
    for i in 0..12usize {
        let node = network.get_node(&NodeId::from_index(i as u64)).unwrap();
        assert_eq!(node.capabilities.len(), 1);
        assert!(node.has_capability(CapabilityId::from_name(names[i % 3])));
        assert!(matches!(network.agents.get(&node.id), Some(Agent::Honest(_))));
    }
    let names_of = |kind| -> Vec<String> {
        WorkflowScenario::new(kind).create_capabilities().iter().map(|c| c.name.clone()).collect()
    };
    assert_eq!(names_of(WorkflowType::FanOutFanIn), vec!["split", "worker", "merge"]);
    assert_eq!(names_of(WorkflowType::Dag), vec!["analysis", "transformation", "generation", "validation"]);
    assert_eq!(scenario.name(), "workflow_chain");
    assert_eq!(WorkflowScenario::new(WorkflowType::FanOutFanIn).with_parallelism(4).parallelism, 4);
    assert_eq!(WorkflowScenario::default().with_chain_length(5).chain_length, 5);
    assert_eq!(TrustEmergenceScenario::default().name(), "trust_emergence");
}

#[test]
fn a_run_tells_its_progress_and_queues_scheduled_events_first() {
    let config = SimulationConfig::new().with_ticks(10).with_detailed_metrics(false).with_network(
        NetworkConfig::new().with_nodes(2),
    );
    let mut dice = Fixed(false);
    let mut runner = SimulationRunner::new(config, &mut dice, now());
    runner.config.progress_interval = Some(4);
    runner.scheduler.schedule(3, Event::node_join(Node::new(NodeId::from_index(50), now())));
    runner.scheduler.schedule(6, Event::node_leave(NodeId::from_index(0)));
    let told = std::cell::RefCell::new(Vec::new());
    let progress = |tick: u64, end: u64| told.borrow_mut().push((tick, end));
    let result = runner.run(&Math, &mut dice, &progress);
    assert_eq!(*told.borrow(), vec![(4, 10), (8, 10)]);
    assert_eq!(result.final_tick, 10);
    assert_eq!(runner.network().node_count(), 2);
    assert!(runner.network.get_node(&NodeId::from_index(50)).is_some());
    assert!(runner.network.get_node(&NodeId::from_index(0)).is_none());
    // An event that is scheduled for a tick happens in the tick that is
    // counted next: the node that joined at tick three is in the snapshot
    // of tick four.
    let sizes: Vec<usize> = runner
        .network
        .metrics
        .trust_history
        .iter()
        .map(|s| s.high_trust_count + s.low_trust_count)
        .collect();
    assert_eq!(sizes.len(), 10);
    // A run that has reached its end does nothing more.
    let again = runner.run(&Math, &mut dice, &quiet);
    assert_eq!(again.final_tick, 10);
    assert_eq!(runner.network.metrics.trust_history.len(), 10);
}

#[test]
fn nodes_and_schedule_are_reached_through_the_runner() {
    let mut config = SimulationConfig::default();
    config.network_config.node_count = 4;
    let mut runner = SimulationRunner::new(config, &mut Dice::seeded(3), now());
    let first = runner.network().nodes.key_at(0);
    assert!(runner.network_mut().get_node_mut(&NodeId::from_index(99)).is_none());
    runner.network_mut().get_node_mut(&first).unwrap().trust = score(0.25);
    assert_eq!(sv(runner.network().get_node(&first).unwrap().trust), 0.25);
    let second = runner.network().nodes.key_at(1);
    runner.network_mut().nodes_mut().value_at_mut(1).load = score(0.5);
    assert_eq!(sv(runner.network().get_node(&second).unwrap().load), 0.5);
    assert_eq!(runner.network().node_count(), 4);
    assert!(!runner.scheduler.has_pending());
    runner.scheduler_mut().schedule(7, Event::node_leave(first));
    assert!(runner.scheduler.has_pending());
    assert_eq!(runner.scheduler.next_tick(), Some(7));
}

#[test]
fn connections_of_a_made_network_go_both_ways() {
    let config = NetworkConfig::new().with_nodes(12).with_connection_prob(lift(0.4));
    let network = Network::from_config(config, &mut Dice::seeded(11), now());
    let mut ends = 0;
    for i in 0..network.nodes.len() {
        let a = network.nodes.key_at(i);
        let node = network.nodes.value_at(i);
        assert!(!node.connections.contains_key(&a));
        for j in 0..node.connections.len() {
            let b = node.connections.key_at(j);
            let other = network.get_node(&b).unwrap();
            assert!(other.connections.contains_key(&a));
            ends += 1;
        }
    }
    assert!(ends > 0 && ends < 12 * 11);
    assert_eq!(network.stats(&Math).connection_count, ends / 2);
}

#[test]
fn connecting_leaves_a_held_connection_as_it_is() {
    let (a, b) = (NodeId::from_index(0), NodeId::from_index(1));
    let mut network = Network::from_config(NetworkConfig::new().with_nodes(2), &mut Fixed(false), now());
    network.get_node_mut(&a).unwrap().get_or_create_connection(b, Timestamp::new(5)).w = weight(0.75);
    network.connect(a, b, Timestamp::new(9));
    let held = network.get_node(&a).unwrap().get_connection(&b).unwrap();
    assert_eq!(wv(held.w), 0.75);
    assert_eq!(held.last_active, Timestamp::new(5));
    let made = network.get_node(&b).unwrap().get_connection(&a).unwrap();
    assert_eq!(wv(made.w), constant(constants::W_INIT));
    assert_eq!(made.last_active, Timestamp::new(9));
    assert_eq!(made.count, 0);
    // A node that is not in the network gets no connection, the other does.
    let c = NodeId::from_index(7);
    network.connect(a, c, Timestamp::new(9));
    assert!(network.get_node(&a).unwrap().get_connection(&c).is_some());
    assert!(network.get_node(&c).is_none());
}

#[test]
fn a_scenario_is_chosen_by_its_kind() {
    match AnyScenario::for_kind(ScenarioKind::Strategic, 7, 2, 50) {
        AnyScenario::Adversary(s) => {
            assert_eq!(s.adversary_type, AdversaryType::Strategic);
            assert_eq!((s.inject_at_tick, s.adversary_count, s.defection_tick), (7, 2, 50));
            assert_eq!(plain(s.honest_interaction_rate), 0.5);
        }
        _ => panic!("an adversary scenario was asked for"),
    }
    // Only strategic adversaries defect at the tick that was asked for.
    for (kind, adversary) in
        [(ScenarioKind::FreeRider, AdversaryType::FreeRider), (ScenarioKind::Sybil, AdversaryType::Sybil)]
    {
        match AnyScenario::for_kind(kind, 7, 2, 50) {
            AnyScenario::Adversary(s) => {
                assert_eq!(s.adversary_type, adversary);
                assert_eq!((s.inject_at_tick, s.adversary_count, s.defection_tick), (7, 2, 100));
            }
            _ => panic!("an adversary scenario was asked for"),
        }
    }
    match AnyScenario::for_kind(ScenarioKind::TrustEmergence, 7, 2, 50) {
        AnyScenario::TrustEmergence(s) => {
            assert_eq!(plain(s.interaction_rate), 0.5);
            assert_eq!(plain(s.base_quality), 0.8);
            assert_eq!(plain(s.quality_variance), 0.1);
        }
        _ => panic!("the scenario of honest agents was asked for"),
    }
    for (kind, shape) in [
        (ScenarioKind::WorkflowChain, WorkflowType::Chain),
        (ScenarioKind::WorkflowFanOut, WorkflowType::FanOutFanIn),
    ] {
        match AnyScenario::for_kind(kind, 7, 2, 50) {
            AnyScenario::Workflow(s) => {
                assert_eq!(s.workflow_type, shape);
                assert_eq!((s.chain_length, s.parallelism), (3, 3));
            }
            _ => panic!("a workflow scenario was asked for"),
        }
    }
    let chosen = AnyScenario::for_kind(ScenarioKind::Sybil, 0, 3, 0);
    assert_eq!(chosen.name(), AdversaryScenario::new(AdversaryType::Sybil).name());
    assert_eq!(chosen.description(), AdversaryScenario::new(AdversaryType::Sybil).description());
    // The scenario that is chosen sets the simulation up as its own kind does.
    let config = symbiont::sim::runner::standard_config(6, 20, Some(5), lift(0.5));
    let mut runner = SimulationRunner::new(config, &mut Dice::seeded(5), now());
    runner.apply_scenario(&chosen, now());
    assert!(runner.scheduler.has_pending());
    assert_eq!(runner.network().agents.len(), 6);
}

#[test]
fn the_standard_run_gives_every_node_the_four_common_capabilities() {
    let config = symbiont::sim::runner::standard_config(5, 30, Some(9), lift(0.25));
    assert_eq!(config.max_ticks, 30);
    assert_eq!(config.network_config.node_count, 5);
    assert_eq!(config.network_config.seed, Some(9));
    assert_eq!(plain(config.network_config.connection_probability), 0.25);
    let names: Vec<&str> = config.network_config.capabilities.iter().map(|c| c.name.as_str()).collect();
    assert_eq!(names, vec!["analysis", "generation", "transformation", "validation"]);
    assert!(config.detailed_metrics);
    assert_eq!(config.progress_interval, Some(100));
    let unseeded = symbiont::sim::runner::standard_config(5, 30, None, lift(0.25));
    assert_eq!(unseeded.network_config.seed, None);
    let runner = SimulationRunner::new(config, &mut Dice::seeded(9), now());
    for i in 0..5 {
        let node = runner.network().nodes.value_at(i);
        assert_eq!(node.capabilities.len(), 4);
        assert!(node.has_capability(common::validation().id));
    }
}

#[test]
fn maintenance_decays_what_is_idle_and_marks_low_diversity() {
    let day = constants::IDLE_THRESHOLD;
    let (a, b) = (NodeId::from_index(0), NodeId::from_index(1));
    let mut network = Network::from_config(NetworkConfig::new().with_nodes(2), &mut Fixed(false), Timestamp::new(0));
    {
        let node = network.get_node_mut(&a).unwrap();
        node.priming = score(0.5);
        node.defense_state = symbiont::node::DefenseState::Primed;
        node.trust_cap = score(1.0);
        // Three connections that were last used at time zero, and one of late.
        for (i, w) in [(11u64, 0.5), (12, 0.01), (13, 0.25)] {
            node.get_or_create_connection(NodeId::from_index(i), Timestamp::new(0)).w = weight(w);
        }
        node.get_or_create_connection(NodeId::from_index(14), Timestamp::new(day)).w = weight(0.5);
    }
    network.get_node_mut(&b).unwrap().priming = score(0.1);
    network.get_node_mut(&b).unwrap().defense_state = symbiont::node::DefenseState::Primed;
    let before_tick = network.tick;
    network.maintain(&Math, Timestamp::new(day + 1));
    assert_eq!(network.tick, before_tick);
    assert_eq!(network.queued(), 0);
    let node = network.get_node(&a).unwrap();
    // The alertness decays, and stays above the calm mark.
    assert_eq!(sv(node.priming), 0.5 * constant(constants::PRIMING_DECAY));
    assert_eq!(node.defense_state, symbiont::node::DefenseState::Primed);
    // Idle connections lose weight; the one that falls to the smallest
    // weight is dropped; the others keep their order.
    let left: Vec<NodeId> = (0..node.connections.len()).map(|i| node.connections.key_at(i)).collect();
    assert_eq!(left, [11, 13, 14].map(NodeId::from_index).to_vec());
    let alpha = constant(constants::ALPHA);
    assert_eq!(wv(node.get_connection(&NodeId::from_index(11)).unwrap().w), 0.5 - alpha * 0.5);
    assert_eq!(wv(node.get_connection(&NodeId::from_index(13)).unwrap().w), 0.25 - alpha * 0.25);
    assert_eq!(wv(node.get_connection(&NodeId::from_index(14)).unwrap().w), 0.5);
    assert_eq!(node.get_connection(&NodeId::from_index(11)).unwrap().last_active, Timestamp::new(0));
    // A node without partners is of low diversity, and its trust is capped.
    assert!(node.flags.low_diversity);
    assert_eq!(sv(node.trust_cap), constant(constants::LOW_DIVERSITY_CAP));
    // An alertness that decays below the calm mark lets the node calm down.
    let calm = network.get_node(&b).unwrap();
    assert!(sv(calm.priming) < 0.1);
    assert_eq!(calm.defense_state, symbiont::node::DefenseState::Normal);
}

#[test]
fn a_scan_raises_a_signal_for_each_finding_and_for_each_colluder() {
    let ids: Vec<NodeId> = (0..3).map(NodeId::from_index).collect();
    let mut network = Network::from_config(NetworkConfig::new().with_nodes(3), &mut Fixed(true), Timestamp::new(0));
    for id in &ids {
        let node = network.get_node_mut(id).unwrap();
        for i in 0..node.connections.len() {
            node.connections.value_at_mut(i).q = score(0.99);
        }
    }
    // What waits already stays in front.
    network.queue_event(Event::node_leave(NodeId::from_index(9)));
    let at = Timestamp::new(77);
    network.scan_for_adversaries(&Math, at);
    let signals: Vec<symbiont::defense::DefenseSignal> = network
        .event_queue
        .iter()
        .skip(1)
        .map(|e| match e {
            Event::DefenseSignal { signal } => *signal,
            _ => panic!("a scan raises signals only"),
        })
        .collect();
    assert!(matches!(network.event_queue[0], Event::NodeLeave { .. }));
    // First the findings about the nodes, in their order: each node has no
    // recent partner at all. Then the members of the cluster, in their order.
    assert_eq!(signals.len(), 6);
    let threats: Vec<NodeId> = signals.iter().map(|s| s.threat).collect();
    assert_eq!(threats, [0, 1, 2, 0, 1, 2].map(NodeId::from_index).to_vec());
    let (low_diversity, words) = Math.diversity_finding(0);
    let cluster = &detect_collusion(&network.nodes, |given: &Vec<Score>| Math.mean(given))[0];
    let evidence = symbiont::types::Hash::compute(Math.collusion_evidence(cluster).as_bytes());
    for (k, signal) in signals.iter().enumerate() {
        assert_eq!(signal.sender, signal.threat);
        assert_eq!(signal.origin, signal.threat);
        assert_eq!(signal.threat_type, ThreatType::Sybil);
        assert_eq!(signal.hops, 0);
        assert_eq!(signal.timestamp, at);
        if k < 3 {
            assert_eq!(signal.confidence, low_diversity);
            assert_eq!(signal.evidence, symbiont::types::Hash::compute(words.as_bytes()));
        } else {
            assert_eq!(sv(signal.confidence), constant(constants::STRONG_SUSPICION));
            assert_eq!(signal.evidence, evidence);
        }
    }
    // A network in which nothing can be suspected is left as it is.
    let mut empty = Network::new();
    empty.scan_for_adversaries(&Math, at);
    assert_eq!(empty.queued(), 0);
}

#[test]
fn agents_do_what_was_drawn_for_them() {
    let node = connected_node(0, &[5, 6, 7]);
    // A strategic adversary: good work before it defects, bad work after.
    let strategic = StrategicAdversary::new(10);
    assert!(strategic.acts(&node, 3, false, 1).is_empty());
    let before = strategic.acts(&node, 9, true, 1);
    assert_eq!(exchange_of(&before[0]), (node.id, NodeId::from_index(6), 1.0, 0.95, 0.0, Some(common::analysis().id)));
    // The place that was drawn is taken modulo the number of connections.
    let after = strategic.acts(&node, 10, true, 5);
    assert_eq!(exchange_of(&after[0]), (node.id, NodeId::from_index(7), 1.0, 0.2, 0.0, Some(common::analysis().id)));
    // A free rider: the quality that was drawn, clamped, and a cool tone.
    let rider = FreeRider::new(lift(0.5));
    let events = rider.acts(&node, true, 0, lift(0.25));
    assert_eq!(exchange_of(&events[0]), (node.id, NodeId::from_index(5), 1.0, 0.25, -0.3, Some(common::analysis().id)));
    assert_eq!(sv(match &rider.acts(&node, true, 0, lift(7.0))[0] {
        Event::Interaction { quality, .. } => *quality,
        _ => panic!("an exchange was begun"),
    }), 1.0);
    // A passive agent: half the usual volume.
    let events = PassiveAgent::new().acts(&node, true, 2);
    assert_eq!(exchange_of(&events[0]), (node.id, NodeId::from_index(7), 0.5, 0.6, 0.0, Some(common::analysis().id)));
    // Without connections there is no exchange, whatever was drawn.
    let lonely = connected_node(1, &[]);
    assert!(strategic.acts(&lonely, 0, true, 0).is_empty());
    assert!(rider.acts(&lonely, true, 0, lift(0.2)).is_empty());
    assert!(PassiveAgent::new().acts(&lonely, true, 0).is_empty());
}

#[test]
fn an_honest_agent_turns_to_the_partner_that_was_drawn() {
    use_network(|network| {
        let node = connected_node(0, &[2, 3]);
        let found = symbiont::sim::agents::strangers(&node, network);
        // Nodes 1 and 4 are in the network, are not the node itself, and are
        // not connected to it.
        assert_eq!(found, vec![NodeId::from_index(1), NodeId::from_index(4)]);
        let partner = |familiar: bool, pick: usize| symbiont::sim::agents::partner_for(&node, &found, familiar, pick);
        assert_eq!(partner(true, 1), Some(NodeId::from_index(3)));
        assert_eq!(partner(true, 2), Some(NodeId::from_index(2)));
        assert_eq!(partner(false, 1), Some(NodeId::from_index(4)));
        assert_eq!(partner(false, 3), Some(NodeId::from_index(4)));
        // Without strangers the agent turns to a node that it knows.
        assert_eq!(symbiont::sim::agents::partner_for(&node, &vec![], false, 1), Some(NodeId::from_index(3)));
        // A node that knows nobody turns to a stranger even when it was drawn
        // that it turns to a node that it knows; with nobody there, to nobody.
        let lonely = connected_node(0, &[]);
        assert_eq!(symbiont::sim::agents::partner_for(&lonely, &found, true, 0), Some(NodeId::from_index(1)));
        assert_eq!(symbiont::sim::agents::partner_for(&lonely, &vec![], true, 0), None);
        let honest = HonestAgent::new(lift(0.5));
        let events = honest.acts(&node, Some(NodeId::from_index(4)), true, lift(0.75), lift(0.25));
        assert_eq!(exchange_of(&events[0]), (node.id, NodeId::from_index(4), 1.0, 0.75, 0.25, Some(common::analysis().id)));
        assert!(honest.acts(&node, None, true, lift(0.75), lift(0.25)).is_empty());
        assert!(honest.acts(&node, Some(NodeId::from_index(4)), false, lift(0.75), lift(0.25)).is_empty());
        assert_eq!(symbiont::sim::agents::weights(&node).len(), 2);
    });
}

fn use_network(body: impl Fn(&Table<NodeId, Node>)) {
    let mut network: Table<NodeId, Node> = Table::new();
    for i in 0..5u64 {
        network.insert(NodeId::from_index(i), Node::new(NodeId::from_index(i), now()));
    }
    body(&network);
}

#[test]
fn a_sybil_identity_deals_as_it_was_drawn() {
    let members: Vec<NodeId> = [0u64, 8, 9].map(NodeId::from_index).to_vec();
    let node = connected_node(0, &[8, 5, 6]);
    let sybil = SybilCluster::new(members);
    // Inside: with the identities 8 and 9, but never with itself. Outside:
    // with the partner 6, but not with 8, which is inside.
    let events = sybil.acts(&node, &vec![true, false, true], &vec![true, false, true]);
    let dealt: Vec<(NodeId, f64)> = events.iter().map(|e| (exchange_of(e).1, exchange_of(e).3)).collect();
    assert_eq!(dealt, vec![(NodeId::from_index(9), 0.99), (NodeId::from_index(6), 0.3)]);
    // A draw that is not there counts as one against.
    assert!(sybil.acts(&node, &vec![], &vec![]).is_empty());
    let all = sybil.acts(&node, &vec![true; 3], &vec![true; 3]);
    let partners: Vec<NodeId> = all.iter().map(|e| exchange_of(e).1).collect();
    assert_eq!(partners, [8u64, 9, 5, 6].map(NodeId::from_index).to_vec());
}

#[test]
fn a_network_is_wired_as_it_was_drawn() {
    let config = || NetworkConfig::new().with_nodes(4).with_capability(common::analysis());
    // 0-1 and 1-3 are drawn; what stands below the diagonal does not count.
    let links = vec![
        vec![false, true, false, false],
        vec![true, true, false, true],
        vec![true, true, true],
        vec![],
    ];
    let network = Network::with_links(config(), &links, Timestamp::new(5));
    let partners = |i: u64| -> Vec<NodeId> {
        let node = network.get_node(&NodeId::from_index(i)).unwrap();
        (0..node.connections.len()).map(|k| node.connections.key_at(k)).collect()
    };
    assert_eq!(partners(0), vec![NodeId::from_index(1)]);
    assert_eq!(partners(1), vec![NodeId::from_index(0), NodeId::from_index(3)]);
    assert!(partners(2).is_empty());
    assert_eq!(partners(3), vec![NodeId::from_index(1)]);
    let made = network.get_node(&NodeId::from_index(3)).unwrap().get_connection(&NodeId::from_index(1)).unwrap();
    assert_eq!(wv(made.w), constant(constants::W_INIT));
    assert_eq!((made.count, made.last_active), (0, Timestamp::new(5)));
    assert!(network.get_node(&NodeId::from_index(2)).unwrap().has_capability(common::analysis().id));
    // Without draws nobody is connected.
    let bare = Network::with_links(config(), &vec![], now());
    assert_eq!(bare.stats(&Math).connection_count, 0);
    assert_eq!(bare.node_count(), 4);
}

#[test]
fn the_kernel_is_asked_for_figures_only_where_there_is_something_to_work_out() {
    let mut node = Node::new(NodeId::from_index(0), now());
    // No exchange, no connection, no capability: the defaults, without the kernel.
    assert_eq!(sv(symbiont::sim::figures::mean_quality(&Math, &node.history, 10)), 0.5);
    assert_eq!(plain(symbiont::sim::figures::quality_variance(&Math, &node.history, 10)), 0.0);
    // (0.4 * 0.5 + 0.2 * sigmoid(0) + 0.2 * 0 + 0.2 * 0) / 1.0
    let base = symbiont::sim::figures::trust_base(&Math, &node);
    assert_eq!(base, Math.trust_base(score(0.5), lift(0.0), lift(0.0), 0));
    node.get_or_create_connection(NodeId::from_index(1), now()).q = score(1.0);
    node.get_or_create_connection(NodeId::from_index(2), now()).r = lift(2.0);
    node.add_capability(common::analysis(), now());
    node.capabilities.value_at_mut(0).volume = 2;
    node.capabilities.value_at_mut(0).quality = score(0.75);
    let base = symbiont::sim::figures::trust_base(&Math, &node);
    // Quality 0.75, mean reciprocity 1.0, mean partner quality 0.75, no partner of late.
    assert_eq!(base, Math.trust_base(score(0.75), lift(1.0), lift(0.75), 0));
}

#[test]
fn the_two_ends_of_an_exchange_see_it_from_their_own_side() {
    let (a, b) = (NodeId::from_index(0), NodeId::from_index(1));
    let observed = Observation {
        volume: lift(1.0),
        exchange_in: lift(4.0),
        exchange_out: lift(1.0),
        quality: score(0.5),
        tone: signed(0.0),
    };
    let mut beginner = Node::new(a, now());
    symbiont::sim::network::took_part(&mut beginner, &Math, b, observed, None, true, now());
    let mut answerer = Node::new(b, now());
    symbiont::sim::network::took_part(&mut answerer, &Math, a, observed, None, false, now());
    // The node that began the exchange received more than it gave; the other
    // gave more than it received.
    assert!(plain(beginner.get_connection(&b).unwrap().r) > 0.0);
    assert!(plain(answerer.get_connection(&a).unwrap().r) < 0.0);
    assert_eq!(beginner.get_connection(&b).unwrap().count, 1);
    assert_eq!(answerer.get_connection(&a).unwrap().count, 1);
    // Each remembers the exchange as the one that the first node began.
    assert_eq!(beginner.history.all()[0].initiator, a);
    assert_eq!(answerer.history.all()[0].initiator, a);
    assert_eq!(beginner.probation_count, 1);
    assert_eq!(answerer.probation_count, 0);
}
