use symbiont::capability::common;
use symbiont::capability::{Capability, CapabilityCategory, CapabilityState};
use symbiont::connection::{Connection, Dynamics};
use symbiont::constants;
use symbiont::convergence::{
    execute_atd, should_invoke_atd, AgreeToDisagreeResult, ConvergenceState, ConvergenceTracker,
    ConvergenceTrend, Position,
};
use symbiont::defense::{
    emit_defense_signal, Affirmation, AffirmationType, DefenseHandler, DefenseSignal, SignalEffect,
    SignalResult, SignalType,
};
use symbiont::detection::collusion::{connection_graph, detect_collusion, CollusionCluster};
use symbiont::detection::components::find_connected_components;
use symbiont::detection::{
    detect_all_threats, detect_low_diversity, detect_quality_fraud, detect_strategic_adversary,
    DetectionResult, QualityFigures,
};
use symbiont::handoff::{create_handoff, Handoff, HandoffContext, HandoffHandler, HandoffResult};
use symbiont::interaction::{Feedback, Interaction, InteractionHistory};
use symbiont::node::{
    DefenseState, Node, NodeBuilder, NodeFlag, NodeFlags, NodeStatus, ProbationOutcome, ThreatBelief,
    ThreatType,
};
use symbiont::routing::{
    compute_routing_score, route_ensemble, route_task, routing_factors, Priority, RoutingFactors,
    RoutingResult, Task, TaskConstraints,
};
use symbiont::scalar::{Real, Score, SignedScore, Weight};
use symbiont::table::Table;
use symbiont::trust::{apply_diversity_cap, compute_trust, TrustLevel, TrustMetrics};
use symbiont::types::{CapabilityId, NodeId, StepId, TaskId, Timestamp, WorkflowId};
use symbiont::workflow::patterns;
use symbiont::workflow::{
    execute_sequential_workflow, StepResult, StepStatus, Workflow, WorkflowContext, WorkflowResult,
    WorkflowStatus, WorkflowStep, WorkflowType,
};

// ---------------------------------------------------------------------------
// Real arithmetic, as the protocol defines it
// ---------------------------------------------------------------------------

fn lift(x: f64) -> Real {
    Real::from_bits(x.to_bits())
}

fn plain(r: Real) -> f64 {
    f64::from_bits(r.to_bits())
}

fn score(x: f64) -> Score {
    Score::new(lift(x))
}

fn signed(x: f64) -> SignedScore {
    SignedScore::new(lift(x))
}

fn weight(x: f64) -> Weight {
    Weight::new(lift(x))
}

fn sv(s: Score) -> f64 {
    plain(s.value())
}

fn tv(s: SignedScore) -> f64 {
    plain(s.value())
}

fn wv(w: Weight) -> f64 {
    plain(w.value())
}

fn constant(bits: u64) -> f64 {
    f64::from_bits(bits)
}

fn ema(held: f64, observed: f64) -> f64 {
    let lambda = constant(constants::LAMBDA);
    lambda * held + (1.0 - lambda) * observed
}

fn safe_log(x: f64) -> f64 {
    x.max(constant(constants::EPSILON)).ln()
}

fn reciprocity_sigmoid(r: f64) -> f64 {
    let x = -constant(constants::BETA) * r;
    if x > 700.0 {
        return -1.0;
    }
    if x < -700.0 {
        return 1.0;
    }
    ((2.0 / (1.0 + x.exp())) - 1.0).clamp(-1.0, 1.0)
}

fn bayesian_update(belief: f64, w: f64) -> f64 {
    belief + w * (1.0 - belief)
}

/// The measures of a connection after an exchange.
fn exchange(
    before: Dynamics,
    volume: f64,
    exchange_in: f64,
    exchange_out: f64,
    quality: f64,
    tone: f64,
    threat: f64,
) -> Dynamics {
    let lambda = constant(constants::LAMBDA);
    let log_rho = safe_log(exchange_in / (exchange_out + constant(constants::EPSILON)));
    let quality_adj = constant(constants::THETA) * (quality - 0.5);
    let r = lambda * plain(before.r) + (1.0 - lambda) * (log_rho + quality_adj);
    let q = score(ema(sv(before.q), quality));
    let tau = signed(ema(tv(before.tau), tone));
    let flow = volume.abs().powf(constant(constants::MU));
    let phi = constant(constants::GAMMA) * flow * reciprocity_sigmoid(r) * (0.5 + sv(q))
        * (0.7 + 0.3 * tv(tau));
    let w = wv(before.w);
    let delta_w = phi - constant(constants::ALPHA) * w - constant(constants::DELTA) * threat;
    Dynamics { r: lift(r), q, tau, w: weight(w + delta_w) }
}

fn mean_quality(recent: &[Interaction]) -> Score {
    if recent.is_empty() {
        return Score::half();
    }
    let sum: f64 = recent.iter().map(|i| sv(i.quality)).sum();
    score(sum / recent.len() as f64)
}

fn quality_variance(recent: &[Interaction]) -> f64 {
    if recent.len() < 2 {
        return 0.0;
    }
    let mean = sv(mean_quality(recent));
    let sum_sq: f64 = recent.iter().map(|i| (sv(i.quality) - mean).powi(2)).sum();
    sum_sq / recent.len() as f64
}

fn mean_of(scores: &Vec<Score>) -> Score {
    let sum: f64 = scores.iter().map(|s| sv(*s)).sum();
    score(sum / scores.len() as f64)
}

fn quality_figures(history: &InteractionHistory) -> QualityFigures {
    let (recent, early) = history.halves();
    let early_mean = early.iter().map(|i| sv(i.quality)).sum::<f64>() / early.len() as f64;
    let early_variance = early.iter().map(|i| (sv(i.quality) - early_mean).powi(2)).sum::<f64>()
        / early.len() as f64;
    let recent_mean = recent.iter().map(|i| sv(i.quality)).sum::<f64>() / recent.len() as f64;
    let drop = early_mean - recent_mean;
    QualityFigures {
        early_mean: score(early_mean),
        early_variance: lift(early_variance),
        quality_drop: lift(drop),
        drop_confidence: score((drop / 0.5).min(1.0)),
        drop_reason: format!("Quality dropped by {drop:.2} after building trust"),
    }
}

fn diversity_finding(node: &Node) -> (Score, String) {
    let diversity = sv(score(node.diversity_hundredths() as f64 / 100.0));
    let confidence = 0.5 + 0.3 * (1.0 - diversity / constant(constants::DIVERSITY_THRESHOLD));
    (score(confidence), format!("Low interaction diversity: {diversity:.2}"))
}

fn sigmoid(x: f64) -> f64 {
    if x > 700.0 {
        return 1.0;
    }
    if x < -700.0 {
        return 0.0;
    }
    (1.0 / (1.0 + (-x).exp())).clamp(0.0, 1.0)
}

fn key_values<V>(table: &Table<NodeId, V>) -> Vec<(NodeId, &V)> {
    (0..table.len()).map(|i| (table.key_at(i), table.value_at(i))).collect()
}

/// The weighted combination of quality, reciprocity, social proof and
/// diversity of a node.
fn trust_base(node: &Node) -> Score {
    let caps: Vec<&CapabilityState> =
        (0..node.capabilities.len()).map(|i| node.capabilities.value_at(i)).collect();
    let (sum, weight_sum) = caps.iter().fold((0.0, 0.0), |(s, w), c| {
        (s + sv(c.quality) * c.volume as f64, w + c.volume as f64)
    });
    let q_agg = if caps.is_empty() || weight_sum < 0.001 { 0.5 } else { sv(score(sum / weight_sum)) };
    let conns = key_values(&node.connections);
    let r_agg = if conns.is_empty() {
        0.0
    } else {
        conns.iter().map(|(_, c)| plain(c.r)).sum::<f64>() / conns.len() as f64
    };
    let s_social = if conns.is_empty() {
        0.0
    } else {
        sv(score(conns.iter().map(|(_, c)| sv(c.q)).sum::<f64>() / conns.len() as f64))
    };
    let d = sv(score(node.diversity_hundredths() as f64 / 100.0));
    let (wq, wr, ws, wd) = (
        constant(constants::TRUST_WEIGHT_QUALITY),
        constant(constants::TRUST_WEIGHT_RECIPROCITY),
        constant(constants::TRUST_WEIGHT_SOCIAL),
        constant(constants::TRUST_WEIGHT_DIVERSITY),
    );
    score((wq * q_agg + wr * sigmoid(r_agg) + ws * s_social + wd * d) / (wq + wr + ws + wd))
}

fn trust_of(node: &Node) -> Score {
    compute_trust(node, trust_base(node))
}

fn routing_score(f: RoutingFactors) -> Real {
    let bonus = if f.preferred { 1.2 } else { 1.0 };
    lift(sv(f.trust) * sv(f.capability_quality) * (1.0 - sv(f.load)) * wv(f.connection)
        * (1.0 - sv(f.threat)) * bonus)
}

/// A node takes in an exchange that it began, as the protocol defines it.
fn outgoing(
    node: &mut Node,
    partner: NodeId,
    volume: f64,
    exchange_in: f64,
    exchange_out: f64,
    quality: Score,
    tone: SignedScore,
    capability: Option<CapabilityId>,
) {
    let now = Timestamp::now();
    let threat = sv(node.get_threat_level(&partner));
    let (basis, held) = match node.get_connection(&partner) {
        Some(c) => (
            c.measures(),
            capability.map(|cap| c.capability_quality_basis(cap)).unwrap_or(Score::half()),
        ),
        None => (Dynamics::fresh(), Score::half()),
    };
    let dynamics =
        exchange(basis, volume, exchange_in, exchange_out, sv(quality), tv(tone), threat);
    let due = node.handle_outgoing_interaction(
        partner,
        lift(volume),
        lift(exchange_in),
        lift(exchange_out),
        quality,
        tone,
        capability,
        dynamics,
        score(ema(sv(held), sv(quality))),
        now,
    );
    if due {
        let outcome = ProbationOutcome {
            mean_quality: mean_quality(node.history.recent(constants::PROBATION_COUNT as usize)),
            raised_trust: score(sv(node.trust) * 1.5),
            lowered_trust: score(sv(node.trust) * 0.8),
        };
        node.check_probation_status(outcome);
    }
}

fn now() -> Timestamp {
    Timestamp::now()
}

// ---------------------------------------------------------------------------
// Capabilities
// ---------------------------------------------------------------------------

#[test]
fn test_capability_state() {
    let cap = common::analysis();
    let mut state = CapabilityState::new(cap, now());

    assert!(state.can_accept_work());
    assert_eq!(state.volume, 0);

    // Record usage
    let averaged = score(0.9 * sv(state.quality) + (1.0 - 0.9) * sv(score(0.8)));
    state.record_usage(averaged, now());
    assert_eq!(state.volume, 1);
    assert!(sv(state.quality) > 0.5);
}

#[test]
fn test_load_management() {
    let cap = common::generation();
    let mut state = CapabilityState::new(cap, now());

    state.load = score(0.96);
    assert!(!state.can_accept_work());

    state.decay_load(score(sv(state.load) * 0.9));
    assert!(sv(state.load) < 0.9);
    assert!(state.can_accept_work());
}

#[test]
fn capability_accepts_work_exactly_below_the_load_limit() {
    let mut state = CapabilityState::new(common::validation(), Timestamp::new(5));
    assert_eq!(sv(state.quality), 0.5);
    assert_eq!(sv(state.load), 0.0);
    assert_eq!(state.last_used, Timestamp::new(5));
    assert!(state.available);
    state.load = score(0.949);
    assert!(state.can_accept_work());
    state.load = score(0.95);
    assert!(!state.can_accept_work());
    state.load = score(0.5);
    state.available = false;
    assert!(!state.can_accept_work());
    // Availability comes back below nine tenths of load, and not at it.
    state.decay_load(score(0.9));
    assert!(!state.available);
    state.decay_load(score(0.899));
    assert!(state.available);
    state.volume = u32::MAX;
    state.record_usage(score(0.7), Timestamp::new(9));
    assert_eq!(state.volume, u32::MAX);
    assert_eq!(state.last_used, Timestamp::new(9));
    assert_eq!(sv(state.quality), 0.7);
}

#[test]
fn common_capabilities_are_named_and_described() {
    let cases = [
        (common::analysis(), "analysis", CapabilityCategory::Analysis, "General analysis and reasoning"),
        (common::generation(), "generation", CapabilityCategory::Generation, "Content generation and synthesis"),
        (
            common::transformation(),
            "transformation",
            CapabilityCategory::Transformation,
            "Data transformation and conversion",
        ),
        (common::validation(), "validation", CapabilityCategory::Validation, "Verification and validation"),
    ];
    for (cap, name, category, description) in cases {
        assert_eq!(cap.name, name);
        assert_eq!(cap.category, category);
        assert_eq!(cap.description, description);
        assert_eq!(cap.id, CapabilityId::from_name(name));
        let copy = cap.clone();
        assert_eq!(copy.name, cap.name);
        assert_eq!(copy.id, cap.id);
    }
    let plain_cap = Capability::new(CapabilityId::new(4), "x", CapabilityCategory::Analysis);
    assert_eq!(plain_cap.id, CapabilityId::new(4));
    assert_eq!(plain_cap.description, "");
    assert_eq!(plain_cap.with_description("d").description, "d");
}

// ---------------------------------------------------------------------------
// Connections
// ---------------------------------------------------------------------------

#[test]
fn test_new_connection() {
    let id = NodeId::from_index(1);
    let conn = Connection::new(id, now());

    assert_eq!(wv(conn.w), constant(constants::W_INIT));
    assert_eq!(plain(conn.r), 0.0);
    assert_eq!(sv(conn.q), 0.5);
    assert_eq!(conn.count, 0);
}

#[test]
fn test_process_interaction() {
    let id = NodeId::from_index(1);
    let mut conn = Connection::new(id, now());

    let after = exchange(
        conn.measures(),
        1.0, // volume
        2.0, // exchange_in
        1.0, // exchange_out
        sv(score(0.9)),   // quality
        tv(signed(0.8)),  // tone
        0.0, // threat_level
    );
    conn.process_interaction(after, now());

    assert!(plain(conn.r) > 0.0); // Positive reciprocity
    assert!(sv(conn.q) > 0.5); // Quality increased
    assert!(tv(conn.tau) > 0.0); // Positive tone
    assert_eq!(conn.count, 1);
}

#[test]
fn connection_keeps_quality_by_capability() {
    let partner = NodeId::from_index(3);
    let mut conn = Connection::with_weight(partner, weight(0.7), Timestamp::new(10));
    assert_eq!(wv(conn.w), 0.7);
    assert_eq!(conn.partner_id, partner);
    assert_eq!(conn.last_active, Timestamp::new(10));
    let cap = CapabilityId::new(1);
    let other = CapabilityId::new(2);
    conn.q = score(0.4);
    // Without an average of its own a capability has the overall one.
    assert_eq!(sv(conn.capability_quality(cap)), 0.4);
    assert_eq!(sv(conn.capability_quality_basis(cap)), 0.5);
    conn.update_capability_quality(cap, score(0.9));
    assert_eq!(sv(conn.capability_quality(cap)), 0.9);
    assert_eq!(sv(conn.capability_quality_basis(cap)), 0.9);
    assert_eq!(sv(conn.capability_quality(other)), 0.4);
    conn.update_capability_quality(cap, score(0.2));
    assert_eq!(sv(conn.capability_quality(cap)), 0.2);
    assert_eq!(conn.capability_qualities.len(), 1);
    // Idleness goes by the time of the last use.
    assert!(!conn.is_idle(100, Timestamp::new(110)));
    assert!(conn.is_idle(100, Timestamp::new(111)));
    conn.count = u32::MAX;
    conn.process_interaction(Dynamics::fresh(), Timestamp::new(50));
    assert_eq!(conn.count, u32::MAX);
    assert_eq!(conn.last_active, Timestamp::new(50));
    assert_eq!(wv(conn.w), 0.3);
}

#[test]
fn weights_stay_in_their_interval_under_any_dynamics() {
    // Whatever an exchange is said to leave behind, the weight of the
    // connection lies between the smallest weight and one.
    let mut conn = Connection::new(NodeId::from_index(1), now());
    for raw in [-5.0, -0.0, 0.0, 0.005, 0.01, 0.5, 1.0, 1.5, 1e10, f64::NAN, f64::INFINITY] {
        let after = Dynamics { r: lift(raw), q: score(raw), tau: signed(raw), w: weight(raw) };
        conn.process_interaction(after, now());
        assert!((0.01..=1.0).contains(&wv(conn.w)));
        assert!((0.0..=1.0).contains(&sv(conn.q)));
        assert!((-1.0..=1.0).contains(&tv(conn.tau)));
    }
    // A strong threat takes the weight down, and never below the smallest.
    let mut conn = Connection::new(NodeId::from_index(1), now());
    for _ in 0..20 {
        let after = exchange(conn.measures(), 0.0, 1.0, 1.0, 0.5, 0.0, 1.0);
        conn.process_interaction(after, now());
    }
    assert_eq!(wv(conn.w), 0.01);
}

// ---------------------------------------------------------------------------
// Interactions
// ---------------------------------------------------------------------------

#[test]
fn test_interaction_history() {
    let mut history = InteractionHistory::with_max_size(10);

    for i in 0..15 {
        let interaction = Interaction::new(NodeId::from_index(0), NodeId::from_index(i as u64), now())
            .with_outcome(score(0.5 + i as f64 * 0.03), SignedScore::zero());
        history.add(interaction);
    }

    // Should only keep last 10
    assert_eq!(history.len(), 10);

    // Most recent should have highest quality
    let recent = history.recent(1);
    assert!(sv(recent[0].quality) > 0.8);
}

#[test]
fn test_unique_partners() {
    let mut history = InteractionHistory::new();

    // Add interactions with 3 unique partners, some repeated
    for _ in 0..5 {
        history.add(Interaction::new(NodeId::from_index(0), NodeId::from_index(1), now()));
    }
    for _ in 0..3 {
        history.add(Interaction::new(NodeId::from_index(0), NodeId::from_index(2), now()));
    }
    history.add(Interaction::new(NodeId::from_index(0), NodeId::from_index(3), now()));

    assert_eq!(history.unique_partners(100), 3);
}

#[test]
fn history_is_most_recent_first_and_bounded() {
    let mut history = InteractionHistory::with_max_size(3);
    assert!(history.is_empty());
    assert_eq!(history.max_size(), 3);
    for i in 0..5u64 {
        history.add(Interaction::new(NodeId::from_index(0), NodeId::from_index(i), Timestamp::new(i)));
    }
    let all: Vec<u64> = history.all().iter().map(|i| i.timestamp.millis()).collect();
    assert_eq!(all, vec![4, 3, 2]);
    let recent: Vec<u64> = history.recent(2).iter().map(|i| i.timestamp.millis()).collect();
    assert_eq!(recent, vec![4, 3]);
    assert_eq!(history.recent(0).len(), 0);
    assert_eq!(history.recent(9).len(), 3);
    // The earlier half is the one at the back.
    let (recent, early) = history.halves();
    assert_eq!(recent.iter().map(|i| i.timestamp.millis()).collect::<Vec<_>>(), vec![4]);
    assert_eq!(early.iter().map(|i| i.timestamp.millis()).collect::<Vec<_>>(), vec![3, 2]);
    // Partners are counted among the most recent only.
    assert_eq!(history.unique_partners(1), 1);
    assert_eq!(history.unique_partners(3), 3);
    assert_eq!(InteractionHistory::new().max_size(), 100);
    assert_eq!(InteractionHistory::new().unique_partners(100), 0);
    // A history that keeps nothing stays empty.
    let mut none = InteractionHistory::default();
    none.add(Interaction::new(NodeId::from_index(0), NodeId::from_index(1), now()));
    assert_eq!(none.len(), 0);
}

#[test]
fn interactions_are_built_piece_by_piece() {
    let a = NodeId::from_index(1);
    let b = NodeId::from_index(2);
    let i = Interaction::new(a, b, Timestamp::new(3));
    assert_eq!(plain(i.volume), 1.0);
    assert_eq!(sv(i.quality), 0.5);
    assert_eq!(tv(i.tone), 0.0);
    assert_eq!(plain(i.exchange_in), 1.0);
    assert_eq!(plain(i.exchange_out), 1.0);
    assert!(i.capability.is_none());
    let i = i
        .with_volume(lift(2.0))
        .with_capability(CapabilityId::new(5))
        .with_outcome(score(0.9), signed(-0.4))
        .with_exchange(lift(3.0), lift(4.0));
    assert_eq!(plain(i.volume), 2.0);
    assert_eq!(i.capability, Some(CapabilityId::new(5)));
    assert_eq!(sv(i.quality), 0.9);
    assert_eq!(tv(i.tone), -0.4);
    assert_eq!(plain(i.exchange_in), 3.0);
    assert_eq!(plain(i.exchange_out), 4.0);
    assert_eq!(i.initiator, a);
    assert_eq!(i.responder, b);
    let f = Interaction::from_feedback(a, b, None, score(0.8), lift(5.0), Timestamp::new(4));
    assert_eq!(sv(f.quality), 0.8);
    assert_eq!(plain(f.volume), 5.0);
    assert_eq!(tv(f.tone), 0.0);
    assert_eq!(f.timestamp, Timestamp::new(4));
}

#[test]
fn feedback_ratings_are_clamped() {
    let f = Feedback::new(0, 9, 3, 255, true);
    assert_eq!((f.helpfulness, f.accuracy, f.relevance, f.timeliness), (1, 5, 3, 5));
    assert!(f.would_reuse);
    assert_eq!(Feedback::perfect(), Feedback::new(5, 5, 5, 5, true));
    assert_eq!(Feedback::poor(), Feedback::new(1, 1, 1, 1, false));
    assert_eq!(Feedback::neutral(), Feedback::new(3, 3, 3, 3, false));
}

#[test]
fn test_feedback_quality() {
    let quality = |f: Feedback| {
        let (numerator, denominator) = f.quality_parts();
        numerator as f64 / denominator as f64
    };

    // Perfect feedback
    let q = quality(Feedback::perfect());
    assert!(q > 0.9);

    // Poor feedback
    let q = quality(Feedback::poor());
    assert!(q < 0.1);

    // Neutral
    let q = quality(Feedback::neutral());
    assert!(q > 0.3 && q < 0.7);
}

#[test]
fn feedback_quality_is_an_exact_fraction() {
    assert_eq!(Feedback::perfect().quality_parts(), (520, 520));
    assert_eq!(Feedback::poor().quality_parts(), (0, 520));
    assert_eq!(Feedback::neutral().quality_parts(), (160, 520));
    assert_eq!(Feedback::new(3, 3, 3, 3, true).quality_parts(), (280, 520));
    // 4*5 + 3*4 + 2*2 + 1 = 37; 37 * 12 - 80 = 364.
    assert_eq!(Feedback::new(5, 4, 2, 1, true).quality_parts(), (364, 520));
    // A record built by hand, with ratings below the scale, gives zero.
    let low = Feedback {
        helpfulness: 0,
        accuracy: 0,
        relevance: 0,
        timeliness: 0,
        would_reuse: false,
    };
    assert_eq!(low.quality_parts(), (0, 520));
}

// ---------------------------------------------------------------------------
// Nodes
// ---------------------------------------------------------------------------

#[test]
fn test_node_creation() {
    let id = NodeId::from_index(1);
    let node = Node::new(id, now());

    assert_eq!(node.status, NodeStatus::Probationary);
    assert_eq!(sv(node.trust), constant(constants::SWIFT_TRUST_BASE));
    assert!(node.connections.is_empty());
}

#[test]
fn test_node_with_capabilities() {
    let id = NodeId::from_index(1);
    let node = Node::with_capabilities(id, vec![common::analysis(), common::generation()], now());

    assert_eq!(node.capabilities.len(), 2);
    assert!(node.has_capability(common::analysis().id));
    assert!(node.has_capability(common::generation().id));
    assert!(!node.has_capability(CapabilityId::new(999)));
}

#[test]
fn test_connection_management() {
    let id = NodeId::from_index(1);
    let partner = NodeId::from_index(2);
    let mut node = Node::new(id, now());

    // Get or create should create
    let conn = node.get_or_create_connection(partner, now());
    assert_eq!(conn.partner_id, partner);

    // Second call should return existing
    let conn2 = node.get_or_create_connection(partner, now());
    assert_eq!(conn2.count, 0); // Same connection

    assert_eq!(node.connections.len(), 1);
}

#[test]
fn test_threat_belief_update() {
    let id = NodeId::from_index(1);
    let adversary = NodeId::from_index(99);
    let mut node = Node::new(id, now());

    // Initially no threat
    assert_eq!(sv(node.get_threat_level(&adversary)), 0.0);

    // Update belief
    let level = score(bayesian_update(sv(node.get_threat_level(&adversary)), 0.5));
    node.update_threat_belief(adversary, ThreatType::Strategic, level, None, now());
    assert!(sv(node.get_threat_level(&adversary)) > 0.0);

    // Multiple updates increase belief
    for _ in 0..5 {
        let level = score(bayesian_update(sv(node.get_threat_level(&adversary)), 0.3));
        node.update_threat_belief(adversary, ThreatType::Strategic, level, None, now());
    }
    assert!(sv(node.get_threat_level(&adversary)) > 0.8);
}

#[test]
fn test_probation_status() {
    let id = NodeId::from_index(1);
    let partner = NodeId::from_index(2);
    let mut node = Node::new(id, now());

    // Simulate good interactions
    for _ in 0..constants::PROBATION_COUNT {
        outgoing(&mut node, partner, 1.0, 1.0, 1.0, score(0.8), SignedScore::zero(), None);
    }

    // Should have passed probation
    assert_eq!(node.status, NodeStatus::Member);
    assert!(sv(node.trust) > constant(constants::SWIFT_TRUST_BASE));
}

#[test]
fn test_node_builder() {
    let id = NodeId::from_index(1);
    let partner = NodeId::from_index(2);

    let node = NodeBuilder::new(id)
        .status(NodeStatus::Established)
        .trust(score(0.9))
        .capability(common::analysis())
        .connection(partner, Connection::new(partner, now()))
        .build(now());

    assert_eq!(node.status, NodeStatus::Established);
    assert_eq!(sv(node.trust), 0.9);
    assert!(node.has_capability(common::analysis().id));
    assert!(node.connections.contains_key(&partner));
}

#[test]
fn a_new_node_has_the_figures_of_a_newcomer() {
    let node = Node::new(NodeId::from_index(4), Timestamp::new(77));
    assert_eq!(sv(node.trust), 0.4);
    assert_eq!(sv(node.trust_cap), 1.0);
    assert_eq!(sv(node.confidence), 0.5);
    assert_eq!(sv(node.priming), 0.0);
    assert_eq!(sv(node.quality_score), 0.5);
    assert_eq!(sv(node.load), 0.0);
    assert_eq!(node.defense_state, DefenseState::Normal);
    assert_eq!(node.probation_count, 0);
    assert_eq!(node.created, Timestamp::new(77));
    assert_eq!(node.history.len(), 0);
    assert_eq!(node.history.max_size(), 100);
    assert!(!node.flags.contains(NodeFlag::LowDiversity));
    assert!(node.can_accept_work());
    assert!(NodeStatus::Probationary.is_active());
    assert!(NodeStatus::Hub.is_active());
    assert!(!NodeStatus::Expelled.is_active());
}

#[test]
fn probation_promotes_or_starts_over() {
    let partner = NodeId::from_index(2);
    // Good work: promotion, with trust raised by one half.
    let mut node = Node::new(NodeId::from_index(1), now());
    for i in 0..50 {
        assert_eq!(node.status, NodeStatus::Probationary);
        assert_eq!(node.probation_count, i);
        outgoing(&mut node, partner, 1.0, 1.0, 1.0, score(0.6), SignedScore::zero(), None);
    }
    assert_eq!(node.status, NodeStatus::Member);
    assert!((sv(node.trust) - 0.6).abs() < 1e-12);
    // A member is no longer counted.
    outgoing(&mut node, partner, 1.0, 1.0, 1.0, score(0.1), SignedScore::zero(), None);
    assert_eq!(node.probation_count, 50);
    assert_eq!(node.status, NodeStatus::Member);

    // The promotion never takes trust above eight tenths.
    let mut node = Node::new(NodeId::from_index(1), now());
    node.trust = score(0.7);
    for _ in 0..50 {
        outgoing(&mut node, partner, 1.0, 1.0, 1.0, score(0.9), SignedScore::zero(), None);
    }
    assert_eq!(node.status, NodeStatus::Member);
    assert_eq!(sv(node.trust), 0.8);

    // Poor work: trust lowered by one fifth, and a new period.
    let mut node = Node::new(NodeId::from_index(1), now());
    for _ in 0..50 {
        outgoing(&mut node, partner, 1.0, 1.0, 1.0, score(0.59), SignedScore::zero(), None);
    }
    assert_eq!(node.status, NodeStatus::Probationary);
    assert_eq!(node.probation_count, 0);
    assert!((sv(node.trust) - 0.32).abs() < 1e-12);

    // No node is judged before its probation is over.
    let mut node = Node::new(NodeId::from_index(1), now());
    node.check_probation_status(ProbationOutcome {
        mean_quality: score(1.0),
        raised_trust: score(1.0),
        lowered_trust: score(0.0),
    });
    assert_eq!(node.status, NodeStatus::Probationary);
    assert_eq!(sv(node.trust), 0.4);
}

#[test]
fn outgoing_and_incoming_exchanges_are_taken_in() {
    let me = NodeId::from_index(1);
    let partner = NodeId::from_index(2);
    let cap = common::analysis().id;
    let mut node = Node::with_capabilities(me, vec![common::analysis()], now());
    let after = Dynamics { r: lift(0.25), q: score(0.6), tau: signed(0.1), w: weight(0.35) };
    let due = node.handle_outgoing_interaction(
        partner,
        lift(2.0),
        lift(3.0),
        lift(4.0),
        score(0.9),
        signed(0.2),
        Some(cap),
        after,
        score(0.55),
        Timestamp::new(100),
    );
    assert!(!due);
    assert_eq!(node.probation_count, 1);
    let conn = node.get_connection(&partner).unwrap();
    assert_eq!(conn.count, 1);
    assert_eq!(plain(conn.r), 0.25);
    assert_eq!(sv(conn.q), 0.6);
    assert_eq!(tv(conn.tau), 0.1);
    assert_eq!(wv(conn.w), 0.35);
    assert_eq!(conn.last_active, Timestamp::new(100));
    assert_eq!(sv(conn.capability_quality(cap)), 0.55);
    let remembered = node.history.recent(1)[0];
    assert_eq!(remembered.initiator, me);
    assert_eq!(remembered.responder, partner);
    assert_eq!(plain(remembered.volume), 2.0);
    assert_eq!(plain(remembered.exchange_in), 3.0);
    assert_eq!(plain(remembered.exchange_out), 4.0);
    assert!(remembered.capability.is_none());

    // The node that an exchange was begun with remembers what it received
    // and gave, and counts one use of its capability.
    node.handle_incoming_interaction(
        partner,
        lift(1.0),
        lift(3.0),
        lift(4.0),
        score(0.9),
        signed(0.2),
        Some(cap),
        after,
        score(0.77),
        Timestamp::new(200),
    );
    assert_eq!(node.get_connection(&partner).unwrap().count, 2);
    assert_eq!(node.probation_count, 1);
    let state = node.capabilities.get(&cap).unwrap();
    assert_eq!(state.volume, 1);
    assert_eq!(sv(state.quality), 0.77);
    assert_eq!(state.last_used, Timestamp::new(200));
    let remembered = node.history.recent(1)[0];
    assert_eq!(remembered.initiator, partner);
    assert_eq!(remembered.responder, me);
    assert_eq!(plain(remembered.exchange_in), 4.0);
    assert_eq!(plain(remembered.exchange_out), 3.0);
    // A capability that the node does not have is not counted.
    node.handle_incoming_interaction(
        partner,
        lift(1.0),
        lift(1.0),
        lift(1.0),
        score(0.9),
        signed(0.2),
        Some(CapabilityId::new(12345)),
        after,
        score(0.1),
        Timestamp::new(300),
    );
    assert_eq!(node.capabilities.len(), 1);
    assert_eq!(sv(node.capabilities.get(&cap).unwrap().quality), 0.77);
}

#[test]
fn beliefs_never_fall() {
    let mut belief = ThreatBelief::new(ThreatType::Cheating, score(0.5), Timestamp::new(1));
    let evidence = symbiont::types::Hash::compute(b"seen");
    belief.update(score(0.2), Some(evidence), Timestamp::new(2));
    assert_eq!(sv(belief.level), 0.5);
    assert_eq!(belief.evidence, vec![evidence]);
    assert_eq!(belief.updated, Timestamp::new(2));
    belief.update(score(0.9), None, Timestamp::new(3));
    assert_eq!(sv(belief.level), 0.9);
    assert_eq!(belief.evidence.len(), 1);
    assert_eq!(belief.threat_type, ThreatType::Cheating);

    let mut node = Node::new(NodeId::from_index(1), now());
    let suspect = NodeId::from_index(2);
    node.update_threat_belief(suspect, ThreatType::Sybil, score(0.6), Some(evidence), now());
    node.update_threat_belief(suspect, ThreatType::Collusion, score(0.3), Some(evidence), now());
    assert_eq!(sv(node.get_threat_level(&suspect)), 0.6);
    let held = node.threat_beliefs.get(&suspect).unwrap();
    // The kind of the first suspicion stays.
    assert_eq!(held.threat_type, ThreatType::Sybil);
    assert_eq!(held.evidence.len(), 2);
}

#[test]
fn priming_moves_the_defense_state() {
    let mut node = Node::new(NodeId::from_index(1), now());
    node.increase_priming(score(0.3));
    assert_eq!(node.defense_state, DefenseState::Normal);
    node.increase_priming(score(0.31));
    assert_eq!(node.defense_state, DefenseState::Primed);
    node.decay_priming(score(0.1));
    assert_eq!(node.defense_state, DefenseState::Primed);
    node.decay_priming(score(0.099));
    assert_eq!(node.defense_state, DefenseState::Normal);
    assert_eq!(sv(node.priming), 0.099);
    // Priming that has fallen low ends a defense too.
    node.defense_state = DefenseState::Defending;
    node.decay_priming(score(0.0));
    assert_eq!(node.defense_state, DefenseState::Normal);
}

#[test]
fn idle_connections_decay_and_are_dropped() {
    let mut node = Node::new(NodeId::from_index(0), Timestamp::new(0));
    let idle = NodeId::from_index(1);
    let spent = NodeId::from_index(2);
    let active = NodeId::from_index(3);
    let low_active = NodeId::from_index(4);
    let long_ago = Timestamp::new(1_000);
    let at = Timestamp::new(1_000 + constants::IDLE_THRESHOLD + 1);
    *node.get_or_create_connection(idle, long_ago) = Connection::with_weight(idle, weight(0.5), long_ago);
    *node.get_or_create_connection(spent, long_ago) =
        Connection::with_weight(spent, weight(0.0101), long_ago);
    *node.get_or_create_connection(active, at) = Connection::with_weight(active, weight(0.5), at);
    *node.get_or_create_connection(low_active, at) =
        Connection::with_weight(low_active, Weight::min(), at);
    let alpha = constant(constants::ALPHA);
    node.decay_idle_connections(at, |w: Weight| weight(wv(w) - alpha * wv(w)));
    // The idle connection has decayed.
    assert!((wv(node.get_connection(&idle).unwrap().w) - 0.495).abs() < 1e-12);
    // The idle connection that fell to the smallest weight is gone.
    assert!(node.get_connection(&spent).is_none());
    // A connection that is in use does not decay, and is kept even at the
    // smallest weight.
    assert_eq!(wv(node.get_connection(&active).unwrap().w), 0.5);
    assert_eq!(wv(node.get_connection(&low_active).unwrap().w), 0.01);
    assert_eq!(node.connections.len(), 3);
    // Exactly at the threshold a connection is not idle yet.
    let mut node = Node::new(NodeId::from_index(0), Timestamp::new(0));
    node.get_or_create_connection(idle, Timestamp::new(0));
    node.decay_idle_connections(Timestamp::new(constants::IDLE_THRESHOLD), |_w: Weight| Weight::min());
    assert_eq!(wv(node.get_connection(&idle).unwrap().w), 0.3);
}

#[test]
fn diversity_is_flagged_below_thirty_partners() {
    let mut node = Node::new(NodeId::from_index(0), now());
    for i in 0..29u64 {
        node.history.add(Interaction::new(NodeId::from_index(0), NodeId::from_index(i + 1), now()));
    }
    assert_eq!(node.diversity_hundredths(), 29);
    node.check_diversity();
    assert!(node.flags.contains(NodeFlag::LowDiversity));
    assert_eq!(sv(node.trust_cap), 0.7);
    node.history.add(Interaction::new(NodeId::from_index(0), NodeId::from_index(30), now()));
    assert_eq!(node.diversity_hundredths(), 30);
    node.check_diversity();
    assert!(!node.flags.contains(NodeFlag::LowDiversity));
    assert_eq!(sv(node.trust_cap), 1.0);
    let mut flags = NodeFlags::new();
    flags.insert(NodeFlag::QualityAnomaly);
    assert!(flags.contains(NodeFlag::QualityAnomaly));
    assert!(!flags.contains(NodeFlag::TrustVolatility));
    flags.remove(NodeFlag::QualityAnomaly);
    assert!(!flags.contains(NodeFlag::QualityAnomaly));
}

#[test]
fn work_is_accepted_by_status_load_and_capability() {
    let cap = common::analysis().id;
    let mut node = Node::with_capabilities(NodeId::from_index(1), vec![common::analysis()], now());
    assert!(node.can_accept_capability_work(cap));
    assert!(!node.can_accept_capability_work(CapabilityId::new(1)));
    assert_eq!(sv(node.capability_quality(cap)), 0.5);
    assert_eq!(sv(node.capability_quality(CapabilityId::new(1))), 0.0);
    node.load = score(0.95);
    assert!(!node.can_accept_work());
    assert!(!node.can_accept_capability_work(cap));
    node.load = score(0.94);
    assert!(node.can_accept_capability_work(cap));
    node.status = NodeStatus::Expelled;
    assert!(!node.can_accept_work());
    node.status = NodeStatus::Member;
    node.capabilities.value_at_mut(0).load = score(0.99);
    assert!(node.has_capability(cap));
    assert!(!node.can_accept_capability_work(cap));
    node.capabilities.value_at_mut(0).available = false;
    assert!(!node.has_capability(cap));
}

// ---------------------------------------------------------------------------
// Trust
// ---------------------------------------------------------------------------

#[test]
fn test_compute_trust_new_node() {
    let id = NodeId::from_index(1);
    let node = Node::new(id, now());

    let trust = trust_of(&node);
    // New node with no connections should have low-medium trust
    assert!(sv(trust) >= 0.0 && sv(trust) <= 1.0);
}

#[test]
fn test_compute_trust_with_good_connections() {
    let id = NodeId::from_index(1);
    let mut node = Node::with_capabilities(id, vec![common::analysis()], now());

    // Add many good connections
    for i in 0..50 {
        let partner = NodeId::from_index(100 + i);
        let mut conn = Connection::new(partner, now());
        conn.r = lift(1.0); // Good reciprocity
        conn.q = score(0.9); // High quality
        node.connections.insert(partner, conn);
    }

    // Add interaction history for diversity (50 unique partners = 50% diversity)
    for i in 0..50 {
        let partner = NodeId::from_index(100 + i);
        outgoing(&mut node, partner, 1.0, 1.0, 1.0, score(0.9), SignedScore::zero(), None);
    }

    // Diversity = 50/100 = 0.5, so cap = 0.5 + 0.3 = 0.8
    let trust = trust_of(&node);
    assert!(sv(trust) > 0.5);
}

#[test]
fn test_diversity_cap() {
    let id = NodeId::from_index(1);
    let mut node = Node::new(id, now());

    // Only interact with one partner (low diversity)
    for _ in 0..100 {
        outgoing(&mut node, NodeId::from_index(2), 1.0, 1.0, 1.0, Score::one(), SignedScore::one(), None);
    }

    // Diversity is 1/100 = 0.01
    let diversity = score(node.diversity_hundredths() as f64 / 100.0);
    assert!(sv(diversity) < 0.1);

    // Trust should be capped at diversity + 0.3
    let trust = trust_of(&node);
    assert!(sv(trust) <= sv(diversity) + 0.31); // Small epsilon for float
}

#[test]
fn test_trust_level_categorization() {
    assert_eq!(TrustLevel::from_score(score(0.1)), TrustLevel::VeryLow);
    assert_eq!(TrustLevel::from_score(score(0.3)), TrustLevel::Low);
    assert_eq!(TrustLevel::from_score(score(0.5)), TrustLevel::Medium);
    assert_eq!(TrustLevel::from_score(score(0.7)), TrustLevel::High);
    assert_eq!(TrustLevel::from_score(score(0.9)), TrustLevel::VeryHigh);
}

#[test]
fn test_trust_metrics() {
    let scores = vec![score(0.2), score(0.4), score(0.6), score(0.8)];
    let values: Vec<f64> = scores.iter().map(|s| sv(*s)).collect();
    let mean = values.iter().sum::<f64>() / values.len() as f64;
    let variance = values.iter().map(|v| (v - mean).powi(2)).sum::<f64>() / values.len() as f64;

    let metrics = TrustMetrics::from_scores(&scores, lift(mean), lift(variance));

    assert_eq!(metrics.node_count, 4);
    assert!((plain(metrics.mean_trust) - 0.5).abs() < 0.01);
    assert_eq!(metrics.low_trust_count, 1);
    assert_eq!(metrics.high_trust_count, 1);
}

#[test]
fn trust_never_exceeds_its_caps() {
    for partners in [0u64, 1, 30, 69, 70, 100] {
        let mut node = diverse_node(partners);
        // T <= D + 0.3, and at most one.
        let cap = (partners as f64 / 100.0 + 0.3).min(1.0);
        for base in [0.0, 0.2, 0.5, 0.9, 1.0] {
            for own in [0.7, 1.0] {
                node.trust_cap = score(own);
                let trust = sv(compute_trust(&node, score(base)));
                assert!(trust <= cap);
                assert!(trust <= own);
                assert_eq!(trust, base.min(cap).min(own));
            }
        }
    }
    // A node without a remembered exchange is trusted no more than three tenths.
    assert_eq!(sv(compute_trust(&Node::new(NodeId::from_index(1), now()), score(1.0))), 0.3);
    assert_eq!(sv(apply_diversity_cap(score(0.9), score(0.4))), 0.4);
    assert_eq!(sv(apply_diversity_cap(score(0.2), score(0.4))), 0.2);
}

#[test]
fn the_diversity_cap_is_the_diversity_and_three_tenths() {
    for partners in 0..=100usize {
        let cap = symbiont::trust::diversity_cap(partners);
        assert_eq!(sv(cap), (partners as f64 / 100.0 + 0.3).min(1.0), "for {partners} partners");
    }
    assert_eq!(sv(symbiont::trust::diversity_cap(0)), 0.3);
    assert_eq!(sv(symbiont::trust::diversity_cap(70)), 1.0);
    assert_eq!(sv(symbiont::trust::diversity_cap(usize::MAX)), 1.0);
}

#[test]
fn trust_levels_change_at_their_bounds() {
    assert_eq!(TrustLevel::from_score(score(0.0)), TrustLevel::VeryLow);
    assert_eq!(TrustLevel::from_score(score(0.2)), TrustLevel::Low);
    assert_eq!(TrustLevel::from_score(score(0.4)), TrustLevel::Medium);
    assert_eq!(TrustLevel::from_score(score(0.6)), TrustLevel::High);
    assert_eq!(TrustLevel::from_score(score(0.8)), TrustLevel::VeryHigh);
    assert_eq!(TrustLevel::from_score(score(1.0)), TrustLevel::VeryHigh);
    assert_eq!(TrustLevel::from_score(score(0.7999)), TrustLevel::High);
}

#[test]
fn trust_metrics_span_and_count() {
    let empty = TrustMetrics::from_scores(&vec![], lift(9.0), lift(9.0));
    assert_eq!(empty.node_count, 0);
    assert_eq!(plain(empty.mean_trust), 0.0);
    assert_eq!(plain(empty.max_trust), 0.0);
    let scores = vec![score(0.7), score(0.3), score(0.71), score(0.29), score(0.5)];
    let m = TrustMetrics::from_scores(&scores, lift(0.5), lift(0.1));
    assert_eq!(plain(m.min_trust), 0.29);
    assert_eq!(plain(m.max_trust), 0.71);
    // The marks themselves count on neither side.
    assert_eq!(m.high_trust_count, 1);
    assert_eq!(m.low_trust_count, 1);
    assert_eq!(plain(m.trust_variance), 0.1);
}

// ---------------------------------------------------------------------------
// Defense
// ---------------------------------------------------------------------------

fn create_test_signal() -> DefenseSignal {
    DefenseSignal::new(
        NodeId::from_index(1),
        NodeId::from_index(99),
        ThreatType::Strategic,
        score(0.8),
        symbiont::types::Hash::compute(b"test evidence"),
        now(),
    )
}

fn attenuated(signal: &DefenseSignal, connection_weight: f64) -> Score {
    score(sv(signal.confidence) * constant(constants::DECAY_PER_HOP) * connection_weight)
}

fn attenuate(confidence: Score, w: Weight) -> Score {
    score(sv(confidence) * constant(constants::DECAY_PER_HOP) * wv(w))
}

fn effect_of(node: &Node, signal: &DefenseSignal) -> SignalEffect {
    let sender_trust = plain(symbiont::defense::sender_weight(node, signal.sender));
    let w = sender_trust * sv(signal.confidence);
    let boost = sv(signal.confidence) * constant(constants::PRIMING_SENSITIVITY);
    SignalEffect {
        belief: score(bayesian_update(sv(node.get_threat_level(&signal.threat)), w)),
        priming: score((sv(node.priming) + boost).min(1.0)),
        boost: lift(boost),
    }
}

#[test]
fn test_defense_signal_creation() {
    let signal = create_test_signal();

    assert_eq!(signal.hops, 0);
    assert_eq!(signal.origin, NodeId::from_index(1));
    assert_eq!(signal.threat, NodeId::from_index(99));
    assert!(sv(signal.confidence) > 0.7);
}

#[test]
fn test_signal_forwarding() {
    let signal = create_test_signal();
    let new_sender = NodeId::from_index(2);

    let forwarded = signal.forward(new_sender, attenuated(&signal, 0.8), now()).unwrap();

    assert_eq!(forwarded.hops, 1);
    assert_eq!(forwarded.sender, new_sender);
    assert_eq!(forwarded.origin, signal.origin); // Origin unchanged
    assert!(sv(forwarded.confidence) < sv(signal.confidence)); // Decayed
}

#[test]
fn test_signal_forwarding_stops() {
    let mut signal = create_test_signal();
    signal.hops = constants::MAX_HOPS;

    // Should not forward at max hops
    assert!(signal.forward(NodeId::from_index(2), attenuated(&signal, 1.0), now()).is_none());

    // Low confidence should also stop propagation
    signal.hops = 0;
    signal.confidence = score(0.1);
    assert!(signal.forward(NodeId::from_index(2), attenuated(&signal, 1.0), now()).is_none());
}

#[test]
fn test_defense_handler() {
    let mut node = Node::new(NodeId::from_index(1), now());

    // Add a connection to the sender
    let sender = NodeId::from_index(2);
    node.get_or_create_connection(sender, now());

    let mut handler = DefenseHandler::new();
    let signal = DefenseSignal::new(
        sender,
        NodeId::from_index(99),
        ThreatType::Strategic,
        score(0.8),
        symbiont::types::Hash::compute(b"evidence"),
        now(),
    );

    let effect = effect_of(&node, &signal);
    let result = handler.handle_signal(&mut node, &signal, effect, attenuate, now());

    match result {
        SignalResult::Processed { new_threat_level, priming_boost } => {
            assert!(sv(new_threat_level) > 0.0);
            assert!(plain(priming_boost) > 0.0);
        }
        SignalResult::Ignored => panic!("Signal should have been processed"),
    }

    // Node's priming should have increased
    assert!(sv(node.priming) > 0.0);
}

#[test]
fn test_affirmation() {
    let affirmation = Affirmation::new(
        NodeId::from_index(1),
        NodeId::from_index(2),
        AffirmationType::Quality,
        score(0.9),
        now(),
    );

    assert_eq!(affirmation.from, NodeId::from_index(1));
    assert_eq!(affirmation.to, NodeId::from_index(2));
    assert!(sv(affirmation.strength) > 0.8);
}

#[test]
fn a_forwarded_signal_has_made_one_hop_more() {
    let mut signal = create_test_signal();
    assert_eq!(signal.signal_type, SignalType::SpecificThreat);
    assert_eq!(signal.sender, signal.origin);
    for hops in 0..constants::MAX_HOPS {
        signal.hops = hops;
        let copy = signal.forward(NodeId::from_index(7), attenuated(&signal, 1.0), Timestamp::new(9)).unwrap();
        assert_eq!(copy.hops, hops + 1);
        assert!(copy.hops <= constants::MAX_HOPS);
        assert_eq!(copy.threat, signal.threat);
        assert_eq!(copy.threat_type, signal.threat_type);
        assert_eq!(copy.evidence, signal.evidence);
        assert_eq!(copy.timestamp, Timestamp::new(9));
        assert!(sv(copy.confidence) < sv(signal.confidence));
        assert!((sv(copy.confidence) - 0.64).abs() < 1e-12);
    }
    // Only above the propagation threshold is a signal passed on, and not
    // with an attenuated confidence below the smallest signal.
    signal.hops = 0;
    signal.confidence = score(0.6);
    assert!(signal.forward(NodeId::from_index(7), score(0.1), now()).is_none());
    signal.confidence = score(0.6001);
    assert!(signal.forward(NodeId::from_index(7), score(0.1), now()).is_some());
    assert!(signal.forward(NodeId::from_index(7), score(0.0999), now()).is_none());
    signal.confidence = score(0.5999);
    assert!(signal.forward(NodeId::from_index(7), score(0.5), now()).is_none());
    // A copy is less sure than the signal that it is a copy of.
    signal.confidence = score(0.7);
    assert!(signal.forward(NodeId::from_index(7), score(0.6999), now()).is_some());
    assert!(signal.forward(NodeId::from_index(7), score(0.7), now()).is_none());
    assert!(signal.forward(NodeId::from_index(7), score(1.0), now()).is_none());
    assert!(signal.is_valid(10, Timestamp::new(signal.timestamp.millis() + 10)));
    assert!(!signal.is_valid(10, Timestamp::new(signal.timestamp.millis() + 11)));
}

#[test]
fn signals_about_or_from_the_node_itself_are_ignored() {
    let me = NodeId::from_index(1);
    let mut node = Node::new(me, now());
    let mut handler = DefenseHandler::new();
    let about_me = DefenseSignal::new(
        NodeId::from_index(2),
        me,
        ThreatType::Cheating,
        score(0.9),
        symbiont::types::Hash::compute(b"e"),
        now(),
    );
    let effect = effect_of(&node, &about_me);
    assert!(matches!(
        handler.handle_signal(&mut node, &about_me, effect, attenuate, now()),
        SignalResult::Ignored
    ));
    let from_me = DefenseSignal::new(
        me,
        NodeId::from_index(3),
        ThreatType::Cheating,
        score(0.9),
        symbiont::types::Hash::compute(b"e"),
        now(),
    );
    let effect = effect_of(&node, &from_me);
    assert!(matches!(
        handler.handle_signal(&mut node, &from_me, effect, attenuate, now()),
        SignalResult::Ignored
    ));
    assert_eq!(node.threat_beliefs.len(), 0);
    assert_eq!(sv(node.priming), 0.0);
    assert!(handler.take_pending_signals().is_empty());
}

#[test]
fn a_strong_belief_leads_to_defense_and_signals_are_passed_on() {
    let me = NodeId::from_index(1);
    let sender = NodeId::from_index(2);
    let origin = NodeId::from_index(3);
    let threat = NodeId::from_index(4);
    let strong = NodeId::from_index(5);
    let weak = NodeId::from_index(6);
    let mut node = Node::new(me, now());
    for (id, w) in [(sender, 1.0), (origin, 1.0), (threat, 0.9), (strong, 1.0), (weak, 0.1)] {
        *node.get_or_create_connection(id, now()) = Connection::with_weight(id, weight(w), now());
    }
    let mut signal = DefenseSignal::new(
        origin,
        threat,
        ThreatType::Collusion,
        score(0.9),
        symbiont::types::Hash::compute(b"e"),
        now(),
    );
    signal.sender = sender;
    signal.hops = 2;
    let mut handler = DefenseHandler::new();
    let effect = effect_of(&node, &signal);
    let result = handler.handle_signal(&mut node, &signal, effect, attenuate, Timestamp::new(5));
    match result {
        SignalResult::Processed { new_threat_level, priming_boost } => {
            assert!((sv(new_threat_level) - 0.9).abs() < 1e-12);
            assert!((plain(priming_boost) - 0.09).abs() < 1e-12);
        }
        SignalResult::Ignored => panic!("the signal concerns another node"),
    }
    // The belief is above the action threshold: the node defends itself
    // and its connection to the threat is at the smallest weight.
    assert_eq!(node.defense_state, DefenseState::Defending);
    assert_eq!(wv(node.get_connection(&threat).unwrap().w), 0.01);
    assert_eq!(wv(node.get_connection(&strong).unwrap().w), 1.0);
    assert!((sv(node.priming) - 0.09).abs() < 1e-12);
    // One copy goes on: to the strong neighbour. The sender, the origin and
    // the threat get none, and the copy over the weak connection is below
    // the smallest signal.
    let pending = handler.take_pending_signals();
    assert_eq!(pending.len(), 1);
    assert_eq!(pending[0].hops, 3);
    assert_eq!(pending[0].sender, me);
    assert_eq!(pending[0].origin, origin);
    assert_eq!(pending[0].threat, threat);
    assert!((sv(pending[0].confidence) - 0.72).abs() < 1e-12);
    assert!(handler.take_pending_signals().is_empty());

    // A signal at the propagation threshold is taken in, and not passed on.
    let mut quiet = signal;
    quiet.confidence = score(0.6);
    let effect = effect_of(&node, &quiet);
    handler.handle_signal(&mut node, &quiet, effect, attenuate, now());
    assert!(handler.take_pending_signals().is_empty());
    // Nor is one that has made all its hops.
    let mut tired = signal;
    tired.hops = constants::MAX_HOPS;
    let effect = effect_of(&node, &tired);
    handler.handle_signal(&mut node, &tired, effect, attenuate, now());
    assert!(handler.take_pending_signals().is_empty());
}

#[test]
fn good_exchanges_are_affirmed() {
    let node = Node::new(NodeId::from_index(1), now());
    let partner = NodeId::from_index(2);
    let mut handler = DefenseHandler::default();
    handler.maybe_affirm(&node, partner, score(0.8), score(0.9), score(0.85), now());
    handler.maybe_affirm(&node, partner, score(0.9), score(0.5), score(0.7), now());
    assert!(handler.take_pending_affirmations().is_empty());
    handler.maybe_affirm(&node, partner, score(0.81), score(0.51), score(0.66), Timestamp::new(3));
    let pending = handler.take_pending_affirmations();
    assert_eq!(pending.len(), 1);
    assert_eq!(pending[0].from, node.id);
    assert_eq!(pending[0].to, partner);
    assert_eq!(pending[0].affirmation_type, AffirmationType::Quality);
    assert_eq!(sv(pending[0].strength), 0.66);
    assert_eq!(pending[0].timestamp, Timestamp::new(3));
    let signal = emit_defense_signal(&node, partner, ThreatType::Sybil, score(0.7), b"proof", now());
    assert_eq!(signal.evidence, symbiont::types::Hash::compute(b"proof"));
    assert_eq!(signal.origin, node.id);
    assert_eq!(signal.hops, 0);
}

// ---------------------------------------------------------------------------
// Detection
// ---------------------------------------------------------------------------

#[test]
fn test_detection_result() {
    let clean = DetectionResult::clean(NodeId::from_index(1));
    assert!(!clean.is_threat());

    let threat = DetectionResult::threat(
        NodeId::from_index(1),
        ThreatType::Strategic,
        score(0.8),
        String::from("Test threat"),
    );
    assert!(threat.is_threat());
}

fn no_figures() -> QualityFigures {
    QualityFigures {
        early_mean: Score::zero(),
        early_variance: lift(0.0),
        quality_drop: lift(0.0),
        drop_confidence: Score::zero(),
        drop_reason: String::new(),
    }
}

#[test]
fn test_strategic_adversary_not_enough_history() {
    let node = Node::new(NodeId::from_index(1), now());
    let history = InteractionHistory::new();

    let result = detect_strategic_adversary(&node, &history, no_figures());
    assert!(!result.is_threat());
}

#[test]
fn test_strategic_adversary_quality_drop() {
    let mut node = Node::new(NodeId::from_index(1), now());
    node.trust = score(0.8);

    let mut history = InteractionHistory::new();

    // Add good early history
    for _ in 0..50 {
        let interaction = Interaction::new(NodeId::from_index(1), NodeId::from_index(2), now())
            .with_outcome(score(0.9), SignedScore::zero());
        history.add(interaction);
    }

    // Add poor recent history
    for _ in 0..50 {
        let interaction = Interaction::new(NodeId::from_index(1), NodeId::from_index(2), now())
            .with_outcome(score(0.3), SignedScore::zero());
        history.add(interaction);
    }

    let figures = quality_figures(&history);
    let result = detect_strategic_adversary(&node, &history, figures);
    assert!(result.is_threat());
    assert_eq!(result.threat_type, Some(ThreatType::Strategic));
}

#[test]
fn test_low_diversity_detection() {
    let node = Node::new(NodeId::from_index(1), now());
    // New node has no history, so low diversity

    let (confidence, reason) = diversity_finding(&node);
    let result = detect_low_diversity(&node, confidence, reason);
    assert!(result.is_threat());
}

#[test]
fn test_connected_components() {
    let mut graph: Table<NodeId, Vec<NodeId>> = Table::new();

    // Create two disconnected clusters
    // Cluster 1: nodes 1, 2, 3
    let n1 = NodeId::from_index(1);
    let n2 = NodeId::from_index(2);
    let n3 = NodeId::from_index(3);

    graph.insert(n1, vec![n2, n3]);
    graph.insert(n2, vec![n1, n3]);
    graph.insert(n3, vec![n1, n2]);

    // Cluster 2: nodes 4, 5
    let n4 = NodeId::from_index(4);
    let n5 = NodeId::from_index(5);

    graph.insert(n4, vec![n5]);
    graph.insert(n5, vec![n4]);

    let components = find_connected_components(&graph);
    assert_eq!(components.len(), 2);

    let sizes: Vec<_> = components.iter().map(|c| c.len()).collect();
    assert!(sizes.contains(&3));
    assert!(sizes.contains(&2));
}

#[test]
fn components_count_links_in_both_directions() {
    let id = NodeId::from_index;
    let mut graph: Table<NodeId, Vec<NodeId>> = Table::new();
    // A chain that is given from one side only: 1 -> 2, 3 -> 2, 3 -> 4.
    graph.insert(id(1), vec![id(2)]);
    graph.insert(id(3), vec![id(2), id(4)]);
    // A node by itself, a node with a link to itself, and a pair of which
    // one end is no node of the graph.
    graph.insert(id(5), vec![]);
    graph.insert(id(6), vec![id(6)]);
    graph.insert(id(7), vec![id(8)]);
    let components = find_connected_components(&graph);
    assert_eq!(
        components,
        vec![vec![id(1), id(3), id(2), id(4)], vec![id(5)], vec![id(6)], vec![id(7), id(8)]]
    );
    assert!(find_connected_components(&Table::new()).is_empty());
    // A long chain is one component, whichever way its links run.
    let mut chain: Table<NodeId, Vec<NodeId>> = Table::new();
    for i in (0..40u64).rev() {
        chain.insert(id(i), if i % 2 == 0 { vec![id(i + 1)] } else { vec![] });
        if i % 2 == 1 {
            chain.insert(id(i), vec![id(i + 1)]);
        }
    }
    let components = find_connected_components(&chain);
    assert_eq!(components.len(), 1);
    assert_eq!(components[0].len(), 41);
}

#[test]
fn detectors_decide_at_their_thresholds() {
    let mut node = Node::new(NodeId::from_index(1), now());
    let mut history = InteractionHistory::new();
    for _ in 0..100 {
        history.add(
            Interaction::new(NodeId::from_index(1), NodeId::from_index(2), now())
                .with_outcome(score(0.96), SignedScore::zero()),
        );
    }
    // Suspiciously perfect early behaviour.
    let result = detect_strategic_adversary(&node, &history, quality_figures(&history));
    assert_eq!(result.threat_type, Some(ThreatType::Strategic));
    assert_eq!(sv(result.confidence), 0.7);
    assert_eq!(result.reason, "Suspiciously perfect early behavior");
    assert_eq!(result.node_id, node.id);
    // A mean at the mark, or a variance at the mark, is not suspicious.
    let at_mean = QualityFigures { early_mean: score(0.95), early_variance: lift(0.0), ..no_figures() };
    assert!(!detect_strategic_adversary(&node, &history, at_mean).is_threat());
    let at_variance =
        QualityFigures { early_mean: score(0.99), early_variance: lift(0.01), ..no_figures() };
    assert!(!detect_strategic_adversary(&node, &history, at_variance).is_threat());
    // A drop counts only for a node whose trust is built.
    let drop = |d: f64| QualityFigures {
        quality_drop: lift(d),
        drop_confidence: score((d / 0.5).min(1.0)),
        drop_reason: format!("Quality dropped by {d:.2} after building trust"),
        ..no_figures()
    };
    node.trust = score(0.7);
    assert!(!detect_strategic_adversary(&node, &history, drop(0.4)).is_threat());
    node.trust = score(0.71);
    assert!(!detect_strategic_adversary(&node, &history, drop(0.3)).is_threat());
    let found = detect_strategic_adversary(&node, &history, drop(0.4));
    assert!(found.is_threat());
    assert!((sv(found.confidence) - 0.8).abs() < 1e-12);
    assert_eq!(found.reason, "Quality dropped by 0.40 after building trust");
    // A drop that gives a confidence of no more than one half is found, and
    // is no threat.
    let slight = detect_strategic_adversary(&node, &history, drop(0.31));
    assert_eq!(slight.threat_type, Some(ThreatType::Strategic));
    assert!(slight.is_threat());
    // A rise is never a threat.
    assert!(!detect_strategic_adversary(&node, &history, drop(-0.4)).is_threat());

    // Quality fraud needs more than thirty exchanges.
    let mut node = Node::new(NodeId::from_index(1), now());
    for _ in 0..30 {
        node.history.add(Interaction::new(NodeId::from_index(1), NodeId::from_index(2), now()));
    }
    assert!(!detect_quality_fraud(&node, lift(0.0), score(0.99)).is_threat());
    node.history.add(Interaction::new(NodeId::from_index(1), NodeId::from_index(2), now()));
    let fraud = detect_quality_fraud(&node, lift(0.0), score(0.99));
    assert_eq!(fraud.threat_type, Some(ThreatType::QualityFraud));
    assert_eq!(sv(fraud.confidence), 0.6);
    assert_eq!(fraud.reason, "Suspiciously uniform high quality scores");
    assert!(!detect_quality_fraud(&node, lift(0.001), score(0.99)).is_threat());
    assert!(!detect_quality_fraud(&node, lift(0.0), score(0.95)).is_threat());

    // Low diversity below thirty partners.
    let clean = detect_low_diversity(&diverse_node(30), score(0.9), String::from("unused"));
    assert!(!clean.is_threat());
    assert_eq!(clean.reason, "No anomalies detected");
    let low = detect_low_diversity(&diverse_node(29), score(0.51), String::from("low"));
    assert_eq!(low.threat_type, Some(ThreatType::Sybil));
    assert_eq!(low.reason, "low");

    // All detectors together give the threats only, in their order.
    let node = Node::new(NodeId::from_index(1), now());
    let (confidence, reason) = diversity_finding(&node);
    let threats = detect_all_threats(
        &node,
        &node.history,
        no_figures(),
        confidence,
        reason,
        lift(quality_variance(node.history.recent(50))),
        mean_quality(node.history.recent(50)),
    );
    assert_eq!(threats.len(), 1);
    assert_eq!(threats[0].threat_type, Some(ThreatType::Sybil));
    assert!((sv(threats[0].confidence) - 0.8).abs() < 1e-12);
    assert_eq!(threats[0].reason, "Low interaction diversity: 0.00");
}

fn diverse_node(partners: u64) -> Node {
    let mut node = Node::new(NodeId::from_index(0), now());
    for i in 0..partners {
        node.history.add(Interaction::new(NodeId::from_index(0), NodeId::from_index(i + 1), now()));
    }
    node
}

fn clique(ids: &[u64], quality: f64) -> Vec<Node> {
    ids.iter()
        .map(|a| {
            let mut node = Node::new(NodeId::from_index(*a), now());
            for b in ids {
                if a != b {
                    let partner = NodeId::from_index(*b);
                    let mut conn = Connection::new(partner, now());
                    conn.q = score(quality);
                    node.connections.insert(partner, conn);
                }
            }
            node
        })
        .collect()
}

fn network_of(nodes: Vec<Node>) -> Table<NodeId, Node> {
    let mut table = Table::new();
    for node in nodes {
        table.insert(node.id, node);
    }
    table
}

#[test]
fn a_sybil_cluster_of_three_is_found() {
    let mut nodes = clique(&[1000, 1001, 1002], 0.99);
    // Honest nodes that rate one another moderately, and a pair.
    nodes.extend(clique(&[1, 2, 3, 4], 0.6));
    nodes.extend(clique(&[8, 9], 0.99));
    let network = network_of(nodes);
    let found = detect_collusion(&network, mean_of);
    assert_eq!(found.len(), 1);
    let cluster = &found[0];
    let mut members = cluster.members.clone();
    members.sort();
    let mut expected: Vec<NodeId> = [1000, 1001, 1002].iter().map(|i| NodeId::from_index(*i)).collect();
    expected.sort();
    assert_eq!(members, expected);
    // Every possible connection is there: the density is one.
    assert_eq!(cluster.internal_edges, 3);
    assert_eq!(cluster.possible_edges, 3);
    assert_eq!(cluster.external_edges, 0);
    assert!(sv(cluster.mutual_rating) > 0.95);
    assert_eq!(sv(cluster.confidence), 0.7);
    assert!(cluster.is_suspicious());
}

#[test]
fn clusters_are_judged_by_density_and_rating() {
    // A complete cluster of four whose members rate one another below the
    // mark is not suspicious; one whose members rate one another above it
    // is.
    assert!(detect_collusion(&network_of(clique(&[1, 2, 3, 4], 0.875)), mean_of).is_empty());
    assert_eq!(detect_collusion(&network_of(clique(&[1, 2, 3, 4], 0.91)), mean_of).len(), 1);
    // A ring of seven is connected, and far from dense.
    let mut ring = Vec::new();
    for i in 0..7u64 {
        let mut node = Node::new(NodeId::from_index(i), now());
        for j in [(i + 1) % 7, (i + 6) % 7] {
            let mut conn = Connection::new(NodeId::from_index(j), now());
            conn.q = score(0.99);
            node.connections.insert(NodeId::from_index(j), conn);
        }
        ring.push(node);
    }
    assert!(detect_collusion(&network_of(ring), mean_of).is_empty());
    // Density is judged against seventeen in twenty: of the twenty-one
    // possible connections among seven nodes, eighteen are more than that
    // and seventeen are less.
    let dense = |missing: &[(u64, u64)]| {
        let mut nodes = clique(&[0, 1, 2, 3, 4, 5, 6], 0.99);
        for (a, b) in missing {
            nodes[*a as usize].connections.remove(&NodeId::from_index(*b));
            nodes[*b as usize].connections.remove(&NodeId::from_index(*a));
        }
        detect_collusion(&network_of(nodes), mean_of)
    };
    let found = dense(&[(0, 1), (2, 3), (4, 5)]);
    assert_eq!(found.len(), 1);
    assert_eq!((found[0].internal_edges, found[0].possible_edges), (18, 21));
    assert!(dense(&[(0, 1), (2, 3), (4, 5), (0, 6)]).is_empty());
    // The graph of a network gives each node the partners of its
    // connections.
    let network = network_of(clique(&[1, 2, 3], 0.5));
    let graph = connection_graph(&network);
    assert_eq!(graph.len(), 3);
    assert_eq!(graph.get(&NodeId::from_index(1)), Some(&vec![NodeId::from_index(2), NodeId::from_index(3)]));
    let members = || vec![NodeId::from_index(1), NodeId::from_index(2), NodeId::from_index(3)];
    let lone = CollusionCluster {
        members: members(),
        internal_edges: 3,
        possible_edges: 3,
        external_edges: 2,
        mutual_rating: score(0.99),
        confidence: score(0.7),
    };
    // Two connections that lead out of three members are not fewer than
    // one and a half.
    assert!(!lone.is_suspicious());
    assert!(CollusionCluster { external_edges: 1, members: members(), ..lone }.is_suspicious());
    // A mutual rating at the mark is not above it.
    let mut at_mark = CollusionCluster { external_edges: 0, mutual_rating: score(0.9), members: members(), ..lone };
    assert!(!at_mark.is_suspicious());
    at_mark.mutual_rating = score(0.9000001);
    assert!(at_mark.is_suspicious());
}

// ---------------------------------------------------------------------------
// Routing
// ---------------------------------------------------------------------------

fn setup_test_network() -> (Node, Table<NodeId, Node>) {
    let from_id = NodeId::from_index(0);
    let from_node =
        NodeBuilder::new(from_id).trust(score(0.8)).capability(common::analysis()).build(now());

    let mut candidates = Table::new();

    // High quality candidate
    let high_quality = NodeBuilder::new(NodeId::from_index(1))
        .trust(score(0.9))
        .capability(common::analysis())
        .build(now());

    // Low quality candidate
    let low_quality = NodeBuilder::new(NodeId::from_index(2))
        .trust(score(0.3))
        .capability(common::analysis())
        .build(now());

    // No capability
    let no_cap = NodeBuilder::new(NodeId::from_index(3)).trust(score(0.9)).build(now());

    candidates.insert(high_quality.id, high_quality);
    candidates.insert(low_quality.id, low_quality);
    candidates.insert(no_cap.id, no_cap);

    (from_node, candidates)
}

#[test]
fn test_routing_score() {
    let (from_node, candidates) = setup_test_network();
    let high_quality = candidates.get(&NodeId::from_index(1)).unwrap();

    let scored = compute_routing_score(
        &from_node,
        high_quality,
        common::analysis().id,
        &TaskConstraints::default(),
        &routing_score,
    );

    assert!(plain(scored.score) > 0.0);
    assert!(sv(scored.factors.trust) > 0.5);
}

#[test]
fn test_route_task() {
    let (from_node, candidates) = setup_test_network();

    let task = Task::new(TaskId::random(), from_node.id, common::analysis().id, now());

    let result = route_task(&from_node, &task, &candidates, &routing_score);

    assert!(result.is_success());
    // Should select the high-quality node
    assert_eq!(result.selected_node(), Some(NodeId::from_index(1)));
}

#[test]
fn test_route_with_constraints() {
    let (from_node, candidates) = setup_test_network();

    let task = Task::new(TaskId::random(), from_node.id, common::analysis().id, now()).with_constraints(
        TaskConstraints::new()
            .with_min_trust(score(0.2)) // Lower min_trust so NodeId 2 (0.3) passes
            .exclude(NodeId::from_index(1)), // Exclude best candidate
    );

    let result = route_task(&from_node, &task, &candidates, &routing_score);

    // Should still succeed with fallback candidate
    assert!(result.is_success());
    // But not the excluded node
    assert_ne!(result.selected_node(), Some(NodeId::from_index(1)));
    // Should select NodeId 2 (the only remaining candidate with capability)
    assert_eq!(result.selected_node(), Some(NodeId::from_index(2)));
}

#[test]
fn test_route_no_capability() {
    let (from_node, candidates) = setup_test_network();

    // Request a capability no one has
    let task = Task::new(TaskId::random(), from_node.id, CapabilityId::new(99999), now());

    let result = route_task(&from_node, &task, &candidates, &routing_score);
    assert!(!result.is_success());
}

#[test]
fn test_route_ensemble() {
    let (from_node, candidates) = setup_test_network();

    let task = Task::new(TaskId::random(), from_node.id, common::analysis().id, now());

    let top_k = route_ensemble(&from_node, &task, &candidates, 3, &routing_score);

    // Should get 2 (the ones with the capability)
    assert_eq!(top_k.len(), 2);
    // First should be highest scored
    assert!(plain(top_k[0].score) >= plain(top_k[1].score));
}

#[test]
fn test_connection_weight_affects_routing() {
    let from_id = NodeId::from_index(0);
    let mut from_node =
        NodeBuilder::new(from_id).trust(score(0.8)).capability(common::analysis()).build(now());

    // Create two identical candidates
    let candidate1 = NodeBuilder::new(NodeId::from_index(1))
        .trust(score(0.8))
        .capability(common::analysis())
        .build(now());

    let candidate2 = NodeBuilder::new(NodeId::from_index(2))
        .trust(score(0.8))
        .capability(common::analysis())
        .build(now());

    // Establish connections with different weights
    let mut conn1 = Connection::new(candidate1.id, now());
    conn1.w = weight(0.9); // High weight connection

    let mut conn2 = Connection::new(candidate2.id, now());
    conn2.w = weight(0.2); // Low weight connection

    from_node.connections.insert(candidate1.id, conn1);
    from_node.connections.insert(candidate2.id, conn2);

    let mut candidates = Table::new();
    candidates.insert(candidate1.id, candidate1);
    candidates.insert(candidate2.id, candidate2);

    // Route - should prefer candidate1 due to higher connection weight
    let task = Task::new(TaskId::random(), from_node.id, common::analysis().id, now());

    let result = route_task(&from_node, &task, &candidates, &routing_score);
    assert!(result.is_success());
    assert_eq!(result.selected_node(), Some(NodeId::from_index(1)));

    // Verify the connection weight component
    let score1 = compute_routing_score(
        &from_node,
        candidates.get(&NodeId::from_index(1)).unwrap(),
        common::analysis().id,
        &TaskConstraints::default(),
        &routing_score,
    );
    let score2 = compute_routing_score(
        &from_node,
        candidates.get(&NodeId::from_index(2)).unwrap(),
        common::analysis().id,
        &TaskConstraints::default(),
        &routing_score,
    );

    assert!(wv(score1.factors.connection) > wv(score2.factors.connection));
    assert!((wv(score1.factors.connection) - 0.9).abs() < 0.01);
    assert!((wv(score2.factors.connection) - 0.2).abs() < 0.01);
}

fn worker(index: u64, trust: f64) -> Node {
    NodeBuilder::new(NodeId::from_index(index))
        .trust(score(trust))
        .capability(common::analysis())
        .build(now())
}

#[test]
fn routing_gathers_the_factors_of_the_score() {
    let cap = common::analysis().id;
    let mut from_node = worker(0, 0.5);
    let mut candidate = worker(1, 0.75);
    candidate.load = score(0.25);
    candidate.capabilities.value_at_mut(0).quality = score(0.625);
    let constraints = TaskConstraints::new().prefer(candidate.id);
    // Without a connection the initial weight counts, and without a belief
    // no threat.
    let f = routing_factors(&from_node, &candidate, cap, &constraints);
    assert_eq!(sv(f.trust), 0.75);
    assert_eq!(sv(f.capability_quality), 0.625);
    assert_eq!(sv(f.load), 0.25);
    assert_eq!(wv(f.connection), 0.3);
    assert_eq!(sv(f.threat), 0.0);
    assert!(f.preferred);
    // S = T * q * (1 - load) * w * (1 - threat) * preference
    let s = plain(routing_score(f));
    assert!((s - 0.75 * 0.625 * 0.75 * 0.3 * 1.0 * 1.2).abs() < 1e-12);
    from_node.connections.insert(candidate.id, Connection::with_weight(candidate.id, weight(0.5), now()));
    from_node.update_threat_belief(candidate.id, ThreatType::Cheating, score(0.5), None, now());
    let f = routing_factors(&from_node, &candidate, cap, &TaskConstraints::new());
    assert_eq!(wv(f.connection), 0.5);
    assert_eq!(sv(f.threat), 0.5);
    assert!(!f.preferred);
    assert!((plain(routing_score(f)) - 0.75 * 0.625 * 0.75 * 0.5 * 0.5).abs() < 1e-12);
    // A capability that the candidate does not have has quality zero.
    let f = routing_factors(&from_node, &candidate, CapabilityId::new(1), &TaskConstraints::new());
    assert_eq!(sv(f.capability_quality), 0.0);
}

#[test]
fn routing_filters_and_ranks_candidates() {
    let cap = common::analysis().id;
    let from_node = worker(0, 0.5);
    let mut candidates = Table::new();
    // The routing node itself is no candidate, whatever its score.
    candidates.insert(from_node.id, worker(0, 1.0));
    for (i, trust) in [(1, 0.5), (2, 0.9), (3, 0.9), (4, 0.7)] {
        candidates.insert(NodeId::from_index(i), worker(i, trust));
    }
    let mut overloaded = worker(5, 1.0);
    overloaded.load = score(0.95);
    candidates.insert(overloaded.id, overloaded);
    let mut unavailable = worker(6, 1.0);
    unavailable.capabilities.value_at_mut(0).available = false;
    candidates.insert(unavailable.id, unavailable);
    let mut expelled = worker(7, 1.0);
    expelled.status = NodeStatus::Expelled;
    candidates.insert(expelled.id, expelled);
    let task = Task::new(TaskId::new(1), from_node.id, cap, now());
    let ids = |ranking: &Vec<symbiont::routing::CandidateScore>| -> Vec<NodeId> {
        ranking.iter().map(|c| c.node_id).collect()
    };
    let id = NodeId::from_index;
    // By falling score; of two candidates of one score the one that comes
    // first among the candidates.
    let all = route_ensemble(&from_node, &task, &candidates, 10, &routing_score);
    assert_eq!(ids(&all), vec![id(2), id(3), id(4), id(1)]);
    assert_eq!(ids(&route_ensemble(&from_node, &task, &candidates, 2, &routing_score)), vec![id(2), id(3)]);
    assert_eq!(ids(&route_ensemble(&from_node, &task, &candidates, 4, &routing_score)), ids(&all));
    assert!(route_ensemble(&from_node, &task, &candidates, 0, &routing_score).is_empty());
    assert_eq!(route_task(&from_node, &task, &candidates, &routing_score).selected_node(), Some(id(2)));
    // A preference lifts a candidate over one of higher trust.
    let preferring = Task::new(TaskId::new(1), from_node.id, cap, now())
        .with_constraints(TaskConstraints::new().prefer(id(4)).exclude(id(3)).with_priority(Priority::High));
    let ranking = route_ensemble(&from_node, &preferring, &candidates, 10, &routing_score);
    assert_eq!(ids(&ranking), vec![id(2), id(4), id(1)]);
    // The least trust and the least quality are met at the bound.
    let strict = Task::new(TaskId::new(1), from_node.id, cap, now())
        .with_constraints(TaskConstraints::new().with_min_trust(score(0.7)).with_min_quality(score(0.5)));
    assert_eq!(
        ids(&route_ensemble(&from_node, &strict, &candidates, 10, &routing_score)),
        vec![id(2), id(3), id(4)]
    );
    let stricter = Task::new(TaskId::new(1), from_node.id, cap, now())
        .with_constraints(TaskConstraints::new().with_min_quality(score(0.51)));
    let result = route_task(&from_node, &stricter, &candidates, &routing_score);
    assert!(matches!(result, RoutingResult::NoCandidates));
    assert_eq!(result.selected_node(), None);
    // A task that needs no capability has no candidate.
    let mut needless = Task::new(TaskId::new(1), from_node.id, cap, now());
    needless.required_caps.clear();
    assert!(matches!(
        route_task(&from_node, &needless, &candidates, &routing_score),
        RoutingResult::NoCandidates
    ));
    assert!(route_ensemble(&from_node, &needless, &candidates, 3, &routing_score).is_empty());
    // Routing goes by the first capability that a task needs.
    let two = Task::new(TaskId::new(1), from_node.id, CapabilityId::new(1), now()).require_cap(cap);
    assert!(!route_task(&from_node, &two, &candidates, &routing_score).is_success());
    assert_eq!(Priority::default(), Priority::Normal);
}

// ---------------------------------------------------------------------------
// Workflows
// ---------------------------------------------------------------------------

#[test]
fn test_workflow_creation() {
    let id = WorkflowId::random();
    let workflow = Workflow::new(id, WorkflowType::Sequential, now());

    assert_eq!(workflow.status, WorkflowStatus::Pending);
    assert!(workflow.steps.is_empty());
}

#[test]
fn test_step_dependencies() {
    let step1 = StepId::new(1);
    let step2 = StepId::new(2);

    let task = Task::new(TaskId::random(), NodeId::from_index(0), common::analysis().id, now());
    let step = WorkflowStep::new(step2, task).depends_on(step1);

    // Not satisfied if step1 not completed
    assert!(!step.dependencies_satisfied(&[]));

    // Satisfied if step1 completed
    assert!(step.dependencies_satisfied(&[step1]));
}

#[test]
fn test_chain_pattern() {
    let origin = NodeId::from_index(0);
    let caps = vec![common::analysis().id, common::transformation().id, common::validation().id];

    let workflow = patterns::chain(origin, caps, now());

    assert_eq!(workflow.workflow_type, WorkflowType::Sequential);
    assert_eq!(workflow.steps.len(), 3);

    // First step has no dependencies
    assert!(workflow.steps[0].depends_on.is_empty());

    // Second step depends on first
    assert_eq!(workflow.steps[1].depends_on.len(), 1);
    assert!(workflow.steps[1].depends_on.contains(&StepId::new(0)));

    // Third step depends on second
    assert!(workflow.steps[2].depends_on.contains(&StepId::new(1)));
}

#[test]
fn test_fan_out_fan_in() {
    let origin = NodeId::from_index(0);
    let workflow = patterns::fan_out_fan_in(
        origin,
        common::analysis().id,
        3, // 3 parallel workers
        common::transformation().id,
        now(),
    );

    assert_eq!(workflow.workflow_type, WorkflowType::Dag);
    assert_eq!(workflow.steps.len(), 4); // 3 parallel + 1 merge

    // Merge step should depend on all 3 parallel steps
    let merge_step = &workflow.steps[3];
    assert_eq!(merge_step.depends_on.len(), 3);
}

#[test]
fn test_workflow_context() {
    let mut context = WorkflowContext::new(WorkflowId::random());

    context.set_data("key1", vec![1, 2, 3]);

    let result = StepResult {
        step_id: StepId::new(0),
        success: true,
        output: vec![4, 5, 6],
        quality: score(0.9),
        executor: NodeId::from_index(1),
        duration_ms: 100,
    };

    context.add_result(result);

    assert_eq!(context.step_index, 1);
    assert_eq!(context.prior_results.len(), 1);
    assert!(context.lineage.contains(&NodeId::from_index(1)));
    assert_eq!(context.get_data("key1"), Some(&vec![1, 2, 3]));
}

#[test]
fn test_ready_steps() {
    let id = WorkflowId::random();
    let mut workflow = Workflow::new(id, WorkflowType::Dag, now());

    let task = Task::new(TaskId::random(), NodeId::from_index(0), common::analysis().id, now());

    let step1 = WorkflowStep::new(StepId::new(0), task.duplicate());
    let step2 = WorkflowStep::new(StepId::new(1), task.duplicate()).depends_on(StepId::new(0));
    let step3 = WorkflowStep::new(StepId::new(2), task); // No deps

    workflow.add_step(step1);
    workflow.add_step(step2);
    workflow.add_step(step3);

    // Steps without deps should be ready
    let ready = workflow.ready_steps();
    assert_eq!(ready.len(), 2); // step1 and step3

    // Complete step1
    workflow.steps[0].status = StepStatus::Completed;

    // Now step2 should also be ready
    let ready = workflow.ready_steps();
    assert_eq!(ready.len(), 2); // step2 and step3
}

fn result_of(step: u64, success: bool, quality: f64, executor: u64) -> StepResult {
    StepResult {
        step_id: StepId::new(step),
        success,
        output: vec![step as u8],
        quality: score(quality),
        executor: NodeId::from_index(executor),
        duration_ms: 1,
    }
}

#[test]
fn the_merge_step_waits_for_all_parallel_steps() {
    let mut workflow = patterns::fan_out_fan_in(
        NodeId::from_index(0),
        common::analysis().id,
        4,
        common::transformation().id,
        now(),
    );
    assert_eq!(workflow.steps.len(), 5);
    assert_eq!(
        workflow.steps[4].depends_on,
        vec![StepId::new(0), StepId::new(1), StepId::new(2), StepId::new(3)]
    );
    assert_eq!(workflow.steps[4].task.required_caps, vec![common::transformation().id]);
    let ready_ids = |w: &Workflow| -> Vec<u64> { w.ready_steps().iter().map(|s| s.id.0).collect() };
    assert_eq!(ready_ids(&workflow), vec![0, 1, 2, 3]);
    for i in 0..4u64 {
        assert!(!ready_ids(&workflow).contains(&4));
        workflow.start_step(StepId::new(i), NodeId::from_index(10 + i), Timestamp::new(i));
        assert_eq!(workflow.steps[i as usize].status, StepStatus::Running);
        assert_eq!(workflow.steps[i as usize].assigned_to, Some(NodeId::from_index(10 + i)));
        assert!(!ready_ids(&workflow).contains(&4));
        workflow.complete_step(StepId::new(i), result_of(i, true, 0.8, 10 + i), Timestamp::new(50));
        assert_eq!(workflow.steps[i as usize].status, StepStatus::Completed);
    }
    assert_eq!(ready_ids(&workflow), vec![4]);
    assert_eq!(workflow.status, WorkflowStatus::Running);
    assert_eq!(workflow.started, Some(Timestamp::new(0)));
    assert_eq!(workflow.completed, None);
    workflow.start_step(StepId::new(4), NodeId::from_index(10), Timestamp::new(60));
    workflow.complete_step(StepId::new(4), result_of(4, true, 0.6, 10), Timestamp::new(70));
    assert_eq!(workflow.status, WorkflowStatus::Completed);
    assert_eq!(workflow.completed, Some(Timestamp::new(70)));
    assert_eq!(workflow.started, Some(Timestamp::new(0)));
    // The lineage holds each node once, in the order in which it first
    // worked.
    let lineage: Vec<NodeId> = (10..14).map(NodeId::from_index).collect();
    assert_eq!(workflow.context.lineage, lineage);
    assert_eq!(workflow.context.step_index, 5);
    assert_eq!(workflow.context.prior_results.len(), 5);
    let qualities: Vec<f64> = workflow.successful_qualities().iter().map(|q| sv(*q)).collect();
    assert_eq!(qualities, vec![0.8, 0.8, 0.8, 0.8, 0.6]);
}

#[test]
fn a_failed_step_fails_the_workflow_once_all_steps_are_done() {
    let mut workflow = patterns::chain(
        NodeId::from_index(0),
        vec![common::analysis().id, common::generation().id],
        now(),
    );
    workflow.start_step(StepId::new(0), NodeId::from_index(1), Timestamp::new(1));
    workflow.complete_step(StepId::new(0), result_of(0, false, 0.1, 1), Timestamp::new(2));
    assert_eq!(workflow.steps[0].status, StepStatus::Failed);
    assert!(!workflow.steps[0].result.as_ref().unwrap().success);
    // The second step is still pending: the workflow is not done.
    assert_eq!(workflow.status, WorkflowStatus::Running);
    // It waits for a step that did not complete, so it is never ready.
    assert!(workflow.ready_steps().is_empty());
    workflow.steps[1].status = StepStatus::Skipped;
    workflow.complete_step(StepId::new(99), result_of(99, true, 0.9, 2), Timestamp::new(3));
    assert_eq!(workflow.status, WorkflowStatus::Failed);
    assert_eq!(workflow.completed, Some(Timestamp::new(3)));
    assert!(workflow.successful_qualities().is_empty());
    // Starting a step that is not there changes no step.
    workflow.start_step(StepId::new(42), NodeId::from_index(1), Timestamp::new(4));
    assert_eq!(workflow.steps[0].status, StepStatus::Failed);
    assert_eq!(workflow.steps[1].status, StepStatus::Skipped);
    // A workflow without steps is done with the first result.
    let mut empty = Workflow::new(WorkflowId::new(1), WorkflowType::Single, now());
    empty.complete_step(StepId::new(0), result_of(0, true, 0.5, 1), Timestamp::new(9));
    assert_eq!(empty.status, WorkflowStatus::Completed);
}

#[test]
fn a_chain_is_routed_over_a_healthy_network() {
    let names = ["intake", "process", "output"];
    let mut network = Table::new();
    for i in 0..12u64 {
        let cap = Capability::from_name(names[(i % 3) as usize], CategoryOf::at(i));
        let node = NodeBuilder::new(NodeId::from_index(i)).capability(cap).build(now());
        network.insert(node.id, node);
    }
    let current = Node::new(NodeId::from_index(100), now());
    let caps: Vec<CapabilityId> = names.iter().map(|n| CapabilityId::from_name(n)).collect();
    let mut workflow = patterns::chain(current.id, caps, now());
    let result = execute_sequential_workflow(&mut workflow, &current, &network, &routing_score);
    assert!(matches!(result, WorkflowResult::InProgress));
    for (i, step) in workflow.steps.iter().enumerate() {
        assert_eq!(step.status, StepStatus::Ready);
        assert_ne!(step.status, StepStatus::Failed);
        // Equal scores: the first node with the capability is chosen.
        assert_eq!(step.assigned_to, Some(NodeId::from_index(i as u64)));
    }
    assert_eq!(workflow.status, WorkflowStatus::Pending);

    // Where no node has the capability of a step, the step and the
    // workflow fail there, and the steps behind it are left as they were.
    let caps = vec![CapabilityId::from_name("intake"), CapabilityId::new(7), CapabilityId::from_name("output")];
    let mut workflow = patterns::chain(current.id, caps, now());
    let result = execute_sequential_workflow(&mut workflow, &current, &network, &routing_score);
    match result {
        WorkflowResult::Failed { step_id, reason } => {
            assert_eq!(step_id, StepId::new(1));
            assert_eq!(reason, "No suitable candidates");
        }
        _ => panic!("the second step cannot be routed"),
    }
    assert_eq!(workflow.status, WorkflowStatus::Failed);
    assert_eq!(workflow.steps[0].status, StepStatus::Ready);
    assert_eq!(workflow.steps[1].status, StepStatus::Failed);
    assert_eq!(workflow.steps[2].status, StepStatus::Pending);
    assert_eq!(workflow.steps[2].assigned_to, None);
}

struct CategoryOf;

impl CategoryOf {
    fn at(i: u64) -> CapabilityCategory {
        match i % 3 {
            0 => CapabilityCategory::Analysis,
            1 => CapabilityCategory::Transformation,
            _ => CapabilityCategory::Generation,
        }
    }
}

#[test]
fn workflow_data_is_kept_by_name() {
    let mut context = WorkflowContext::new(WorkflowId::new(3));
    assert_eq!(context.get_data("a"), None);
    context.set_data("a", vec![1]);
    context.set_data("b", vec![2]);
    context.set_data("a", vec![3]);
    assert_eq!(context.get_data("a"), Some(&vec![3]));
    assert_eq!(context.get_data("b"), Some(&vec![2]));
    assert_eq!(context.data.len(), 2);
    assert_eq!(context.data.entry_at(0).0, "a");
    context.add_result(result_of(0, true, 0.5, 1));
    context.add_result(result_of(1, true, 0.5, 2));
    context.add_result(result_of(2, true, 0.5, 1));
    assert_eq!(context.lineage, vec![NodeId::from_index(1), NodeId::from_index(2)]);
    context.step_index = u32::MAX;
    context.add_result(result_of(3, true, 0.5, 3));
    assert_eq!(context.step_index, u32::MAX);
    let copy = result_of(5, false, 0.25, 6).duplicate();
    assert_eq!(copy.step_id, StepId::new(5));
    assert_eq!(copy.output, vec![5]);
    assert!(!copy.success);
}

// ---------------------------------------------------------------------------
// Handoffs
// ---------------------------------------------------------------------------

#[test]
fn test_handoff_creation() {
    let from = NodeId::from_index(1);
    let to = NodeId::from_index(2);
    let task = Task::new(TaskId::random(), from, common::analysis().id, now());

    let handoff = Handoff::new(from, to, task, HandoffContext::new(), now());

    assert_eq!(handoff.from_node, from);
    assert_eq!(handoff.to_node, to);
    assert!(handoff.is_valid(60_000, now()));
}

#[test]
fn test_handoff_context() {
    let mut ctx = HandoffContext::new();
    ctx.add_to_lineage(NodeId::from_index(1));
    ctx.add_to_lineage(NodeId::from_index(2));
    ctx.add_to_lineage(NodeId::from_index(1)); // Duplicate

    assert_eq!(ctx.lineage.len(), 2); // No duplicate
}

#[test]
fn test_handoff_handler() {
    let handler = HandoffHandler::new(60_000);

    let from = NodeId::from_index(1);
    let to = NodeId::from_index(2);
    let task = Task::new(TaskId::random(), from, common::analysis().id, now());
    let handoff = Handoff::new(from, to, task, HandoffContext::new(), now());

    // Should be valid
    assert!(handler.validate(&handoff, now()).is_none());
}

#[test]
fn test_expired_handoff() {
    let handler = HandoffHandler::new(0); // Immediate expiry

    let from = NodeId::from_index(1);
    let to = NodeId::from_index(2);
    let task = Task::new(TaskId::random(), from, common::analysis().id, now());
    let mut handoff = Handoff::new(from, to, task, HandoffContext::new(), now());

    // Manually set timestamp to 100ms in the past to ensure expiry
    handoff.timestamp = Timestamp::new(Timestamp::now().millis().saturating_sub(100));

    // Should be expired
    let result = handler.validate(&handoff, now());
    assert!(matches!(result, Some(HandoffResult::Expired)));
}

#[test]
fn a_handoff_is_taken_or_refused_for_a_reason() {
    let cap = common::analysis().id;
    let handler = HandoffHandler::default();
    let task = || Task::new(TaskId::new(7), NodeId::from_index(1), cap, Timestamp::new(0));
    let at = Timestamp::new(1_000_000);
    let handoff = Handoff::new(NodeId::from_index(1), NodeId::from_index(2), task(), HandoffContext::new(), at);
    let mut node = Node::with_capabilities(NodeId::from_index(2), vec![common::analysis()], now());
    // Up to one minute old, a handoff is taken.
    let result = handler.process(&handoff, &node, Timestamp::new(1_060_000));
    assert!(result.is_success());
    assert!(matches!(result, HandoffResult::Success { ref output } if output.is_empty()));
    // Older, it has expired, whatever the node can do.
    assert!(matches!(handler.process(&handoff, &node, Timestamp::new(1_060_001)), HandoffResult::Expired));
    assert!(!HandoffResult::Expired.is_success());
    // The node must take work for the capability.
    node.capabilities.value_at_mut(0).load = score(0.95);
    assert!(matches!(handler.process(&handoff, &node, at), HandoffResult::Overloaded));
    // A capability that the node has but does not offer overloads it too.
    node.capabilities.value_at_mut(0).load = score(0.0);
    node.capabilities.value_at_mut(0).available = false;
    assert!(matches!(handler.process(&handoff, &node, at), HandoffResult::Overloaded));
    node.capabilities.value_at_mut(0).available = true;
    node.load = score(0.95);
    assert!(matches!(handler.process(&handoff, &node, at), HandoffResult::Overloaded));
    // A node that does not have the capability at all lacks it.
    let stranger = Node::new(NodeId::from_index(3), now());
    assert!(matches!(handler.process(&handoff, &stranger, at), HandoffResult::MissingCapability));
    // A task that needs no capability is taken by any node.
    let mut needless = task();
    needless.required_caps.clear();
    let free = Handoff::new(NodeId::from_index(1), NodeId::from_index(3), needless, HandoffContext::new(), at);
    assert!(handler.process(&free, &stranger, at).is_success());
    // The digest is that of the two nodes, the task and the time, in
    // writing.
    let text = "0100000000000000:0200000000000000:7:1000000";
    assert_eq!(handoff.compute_hash(), symbiont::types::Hash::compute(text.as_bytes()));
}

#[test]
fn a_workflow_hands_its_context_on() {
    let mut ctx = WorkflowContext::new(WorkflowId::new(5));
    ctx.set_data("k", vec![9]);
    ctx.add_result(result_of(0, true, 0.5, 4));
    ctx.add_result(result_of(1, true, 0.5, 5));
    let from = Node::new(NodeId::from_index(1), now());
    let task = Task::new(TaskId::new(1), from.id, common::analysis().id, now());
    let handoff = create_handoff(&from, NodeId::from_index(2), task.duplicate(), Some(&ctx), Timestamp::new(8));
    assert_eq!(handoff.from_node, from.id);
    assert_eq!(handoff.to_node, NodeId::from_index(2));
    assert_eq!(handoff.timestamp, Timestamp::new(8));
    assert_eq!(handoff.context.workflow_id, Some(WorkflowId::new(5)));
    assert_eq!(handoff.context.step_index, 2);
    assert_eq!(handoff.context.prior_results, vec![vec![0u8], vec![1u8]]);
    assert_eq!(handoff.context.accumulated, vec![(String::from("k"), vec![9u8])]);
    assert_eq!(handoff.context.lineage, vec![NodeId::from_index(4), NodeId::from_index(5)]);
    let bare = create_handoff(&from, NodeId::from_index(2), task, None, Timestamp::new(8));
    assert_eq!(bare.context.workflow_id, None);
    assert!(bare.context.lineage.is_empty());
    assert!(HandoffContext::default().prior_results.is_empty());
}

// ---------------------------------------------------------------------------
// Convergence
// ---------------------------------------------------------------------------

#[test]
fn test_convergence_state() {
    assert_eq!(ConvergenceState::from_score(score(0.9)), ConvergenceState::Converged);
    assert_eq!(ConvergenceState::from_score(score(0.7)), ConvergenceState::Converging);
    assert_eq!(ConvergenceState::from_score(score(0.1)), ConvergenceState::Polarized);
}

#[test]
fn convergence_is_read_off_scores_and_changes() {
    assert_eq!(ConvergenceState::from_score(score(0.85)), ConvergenceState::Converging);
    assert_eq!(ConvergenceState::from_score(score(0.6)), ConvergenceState::Exploring);
    assert_eq!(ConvergenceState::from_score(score(0.4)), ConvergenceState::Stuck);
    assert_eq!(ConvergenceState::from_score(score(0.2)), ConvergenceState::Polarized);
    assert_eq!(ConvergenceState::from_score(score(0.21)), ConvergenceState::Stuck);
    assert_eq!(ConvergenceTrend::from_change(lift(0.051)), ConvergenceTrend::Improving);
    assert_eq!(ConvergenceTrend::from_change(lift(0.05)), ConvergenceTrend::Stable);
    assert_eq!(ConvergenceTrend::from_change(lift(0.0)), ConvergenceTrend::Stable);
    assert_eq!(ConvergenceTrend::from_change(lift(-0.05)), ConvergenceTrend::Stable);
    assert_eq!(ConvergenceTrend::from_change(lift(-0.051)), ConvergenceTrend::Declining);
    // A tracker in a given state, after the given number of rounds.
    let tracker = |rounds: u32, at: f64| {
        let mut tracker = ConvergenceTracker::new(TaskId::new(1), lift(100.0));
        tracker.round_count = rounds;
        tracker.current_score = score(at);
        tracker
    };
    assert_eq!(tracker(4, 0.3).state(), ConvergenceState::Stuck);
    assert!(!should_invoke_atd(&tracker(4, 0.3), score(0.5), &change_of));
    assert!(should_invoke_atd(&tracker(5, 0.3), score(0.5), &change_of));
    assert!(should_invoke_atd(&tracker(10, 0.1), score(0.79), &change_of));
    assert!(!should_invoke_atd(&tracker(10, 0.5), score(0.5), &change_of));
    assert!(!should_invoke_atd(&tracker(10, 0.3), score(0.8), &change_of));
}

fn plain_values(values: &Vec<Real>) -> Vec<f64> {
    values.iter().map(|v| plain(*v)).collect()
}

fn variance_of(values: &[f64]) -> f64 {
    let mean = values.iter().sum::<f64>() / values.len() as f64;
    values.iter().map(|x| (x - mean).powi(2)).sum::<f64>() / values.len() as f64
}

// Conv = 1 - min(Var / Var_max, 1)
fn convergence_of(values: &Vec<Real>, max_variance: Real) -> Score {
    score(1.0 - (variance_of(&plain_values(values)) / plain(max_variance)).min(1.0))
}

fn mean_position(values: &Vec<Real>) -> Real {
    lift(plain_values(values).iter().sum::<f64>() / values.len() as f64)
}

fn change_of(early: &[(Timestamp, Score)], late: &[(Timestamp, Score)]) -> Real {
    let early_avg = early.iter().map(|(_, s)| sv(*s)).sum::<f64>() / early.len() as f64;
    let late_avg = late.iter().map(|(_, s)| sv(*s)).sum::<f64>() / late.len() as f64;
    lift(late_avg - early_avg)
}

fn total_of(trusts: &Vec<Score>) -> Real {
    lift(trusts.iter().map(|s| sv(*s)).sum::<f64>())
}

fn weighted_of(values: &Vec<Real>, trusts: &Vec<Score>) -> Real {
    let sum: f64 = values.iter().zip(trusts).map(|(v, t)| plain(*v) * sv(*t)).sum();
    lift(sum / trusts.iter().map(|t| sv(*t)).sum::<f64>())
}

fn confidence_of(above: Real, below: Real) -> Score {
    let (a, b) = (plain(above), plain(below));
    score(0.5 + (a - b).abs() / (a + b) * 0.5)
}

fn create_position(node_idx: u64, value: f64) -> Position {
    Position {
        node_id: NodeId::from_index(node_idx),
        value: lift(value),
        confidence: score(0.9),
        timestamp: Timestamp::now(),
    }
}

fn agree(tracker: &ConvergenceTracker, trusts: &Table<NodeId, Score>) -> AgreeToDisagreeResult {
    execute_atd(tracker, trusts, &mean_position, &total_of, &weighted_of, &confidence_of)
}

#[test]
fn test_convergence_tracker() {
    let mut tracker = ConvergenceTracker::new(TaskId::random(), lift(100.0));

    // All same position = converged
    tracker.record_position(create_position(1, 50.0), &convergence_of, now());
    tracker.record_position(create_position(2, 50.0), &convergence_of, now());
    tracker.record_position(create_position(3, 50.0), &convergence_of, now());

    assert!(sv(tracker.score()) > 0.95);
    assert_eq!(tracker.state(), ConvergenceState::Converged);
}

#[test]
fn test_convergence_polarized() {
    let mut tracker = ConvergenceTracker::new(TaskId::random(), lift(100.0));

    // Very different positions
    tracker.record_position(create_position(1, 0.0), &convergence_of, now());
    tracker.record_position(create_position(2, 100.0), &convergence_of, now());

    // Variance = (50² + 50²) / 2 = 2500
    // Score = 1 - 2500/100 = very low (clamped)
    assert!(sv(tracker.score()) < 0.5);
}

#[test]
fn test_agree_to_disagree() {
    let mut tracker = ConvergenceTracker::new(TaskId::random(), lift(100.0));

    // Two clusters
    tracker.record_position(create_position(1, 10.0), &convergence_of, now());
    tracker.record_position(create_position(2, 12.0), &convergence_of, now());
    tracker.record_position(create_position(3, 88.0), &convergence_of, now());
    tracker.record_position(create_position(4, 90.0), &convergence_of, now());

    let mut trusts = Table::new();
    trusts.insert(NodeId::from_index(1), score(0.9));
    trusts.insert(NodeId::from_index(2), score(0.9));
    trusts.insert(NodeId::from_index(3), score(0.5));
    trusts.insert(NodeId::from_index(4), score(0.5));

    let result = agree(&tracker, &trusts);

    // Higher trust cluster (1, 2) should win
    assert!(result.agreeing_nodes.contains(&NodeId::from_index(1)));
    assert!(result.agreeing_nodes.contains(&NodeId::from_index(2)));
    assert!(result.dissenting_nodes.contains(&NodeId::from_index(3)));
    assert!(result.dissenting_nodes.contains(&NodeId::from_index(4)));

    // Chosen position should be near the low cluster
    assert!(plain(result.chosen_position) < 50.0);
}

#[test]
fn test_should_invoke_atd() {
    let mut tracker = ConvergenceTracker::new(TaskId::random(), lift(100.0));

    // Not enough rounds
    assert!(!should_invoke_atd(&tracker, score(0.5), &change_of));

    // Simulate stuck situation
    tracker.round_count = 10;
    tracker.record_position(create_position(1, 0.0), &convergence_of, now());
    tracker.record_position(create_position(2, 100.0), &convergence_of, now());

    // Add stable history
    for _ in 0..10 {
        tracker.score_history.push((Timestamp::now(), score(0.2)));
    }

    // Should invoke for non-critical task
    assert!(should_invoke_atd(&tracker, score(0.5), &change_of));

    // Should NOT invoke for critical task
    assert!(!should_invoke_atd(&tracker, score(0.9), &change_of));
}

#[test]
fn a_tracker_keeps_the_latest_position_of_each_node() {
    let task = TaskId::new(4);
    let mut tracker = ConvergenceTracker::new(task, lift(100.0));
    assert_eq!(tracker.task_id, task);
    assert_eq!(sv(tracker.score()), 0.0);
    assert_eq!(plain(tracker.mean_position(&mean_position)), 0.0);
    // One position: the score is one, and nothing is put into the history.
    tracker.record_position(create_position(1, 10.0), &convergence_of, Timestamp::new(1));
    assert_eq!(sv(tracker.score()), 1.0);
    assert!(tracker.score_history.is_empty());
    // A second position: Var = 25, Conv = 1 - 25/100.
    tracker.record_position(create_position(2, 20.0), &convergence_of, Timestamp::new(2));
    assert_eq!(sv(tracker.score()), 0.75);
    assert_eq!(tracker.state(), ConvergenceState::Converging);
    assert_eq!(tracker.score_history, vec![(Timestamp::new(2), score(0.75))]);
    assert_eq!(plain(tracker.mean_position(&mean_position)), 15.0);
    // A node that speaks again takes the place that it had.
    tracker.record_position(create_position(1, 20.0), &convergence_of, Timestamp::new(3));
    assert_eq!(tracker.positions().len(), 2);
    assert_eq!(tracker.positions().key_at(0), NodeId::from_index(1));
    assert_eq!(plain(tracker.positions().value_at(0).value), 20.0);
    assert_eq!(sv(tracker.score()), 1.0);
    assert_eq!(tracker.score_history.len(), 2);
    assert_eq!(tracker.score_history[1], (Timestamp::new(3), score(1.0)));
    tracker.advance_round();
    tracker.advance_round();
    assert_eq!(tracker.round_count, 2);
    tracker.round_count = u32::MAX;
    tracker.advance_round();
    assert_eq!(tracker.round_count, u32::MAX);
}

#[test]
fn a_trend_needs_more_scores_than_its_window() {
    let mut tracker = ConvergenceTracker::new(TaskId::new(1), lift(100.0));
    let put = |tracker: &mut ConvergenceTracker, values: &[f64]| {
        for v in values {
            tracker.score_history.push((Timestamp::new(0), score(*v)));
        }
    };
    put(&mut tracker, &[0.1, 0.1, 0.5, 0.5]);
    // Four scores are no more than the window.
    assert_eq!(tracker.trend(4, &change_of), ConvergenceTrend::Stable);
    // The last two: from 0.5 to 0.5.
    assert_eq!(tracker.trend(2, &change_of), ConvergenceTrend::Stable);
    // The last three: the earlier half is the first of them, 0.1.
    assert_eq!(tracker.trend(3, &change_of), ConvergenceTrend::Improving);
    put(&mut tracker, &[0.2, 0.2]);
    // The last four: from 0.5 to 0.2.
    assert_eq!(tracker.trend(4, &change_of), ConvergenceTrend::Declining);
    // The last five: from (0.1 + 0.5) / 2 to (0.5 + 0.2 + 0.2) / 3.
    assert_eq!(tracker.trend(5, &change_of), ConvergenceTrend::Stable);
    // A window of fewer than two scores shows no trend.
    assert_eq!(tracker.trend(1, &change_of), ConvergenceTrend::Stable);
    assert_eq!(tracker.trend(0, &change_of), ConvergenceTrend::Stable);
}

#[test]
fn the_heavier_side_wins_and_the_upper_side_wins_a_tie() {
    let id = NodeId::from_index;
    let mut tracker = ConvergenceTracker::new(TaskId::new(1), lift(100.0));
    for (i, v) in [(1, 10.0), (2, 90.0), (3, 20.0), (4, 80.0)] {
        tracker.record_position(create_position(i, v), &convergence_of, now());
    }
    // Nodes without a known trust count one half each: a tie, which the
    // side at or above the mean wins.
    let result = agree(&tracker, &Table::new());
    assert_eq!(result.agreeing_nodes, vec![id(2), id(4)]);
    assert_eq!(result.dissenting_nodes, vec![id(1), id(3)]);
    assert_eq!(plain(result.chosen_position), 85.0);
    assert_eq!(sv(result.confidence), 0.5);
    // With more trust below the mean, the lower side wins.
    let mut trusts = Table::new();
    trusts.insert(id(1), score(0.75));
    trusts.insert(id(3), score(0.25));
    trusts.insert(id(2), score(0.25));
    trusts.insert(id(4), score(0.25));
    let result = agree(&tracker, &trusts);
    assert_eq!(result.agreeing_nodes, vec![id(1), id(3)]);
    assert_eq!(result.dissenting_nodes, vec![id(2), id(4)]);
    // (10 * 0.75 + 20 * 0.25) / 1.0
    assert_eq!(plain(result.chosen_position), 12.5);
    // 0.5 + |0.5 - 1.0| / 1.5 * 0.5
    assert!((sv(result.confidence) - (0.5 + 0.5 / 1.5 * 0.5)).abs() < 1e-12);
    // A position at the mean stands on the upper side.
    let mut level = ConvergenceTracker::new(TaskId::new(1), lift(100.0));
    for (i, v) in [(1, 10.0), (2, 20.0), (3, 30.0)] {
        level.record_position(create_position(i, v), &convergence_of, now());
    }
    let result = agree(&level, &Table::new());
    assert_eq!(result.agreeing_nodes, vec![id(2), id(3)]);
    assert_eq!(result.dissenting_nodes, vec![id(1)]);
}

#[test]
fn fewer_than_two_positions_leave_nothing_to_differ_on() {
    let mut tracker = ConvergenceTracker::new(TaskId::new(1), lift(100.0));
    let result = agree(&tracker, &Table::new());
    assert_eq!(plain(result.chosen_position), 0.0);
    assert!(result.agreeing_nodes.is_empty());
    assert!(result.dissenting_nodes.is_empty());
    assert_eq!(sv(result.confidence), 1.0);
    tracker.record_position(create_position(7, 42.0), &convergence_of, now());
    let result = agree(&tracker, &Table::new());
    assert_eq!(plain(result.chosen_position), 42.0);
    assert_eq!(result.agreeing_nodes, vec![NodeId::from_index(7)]);
    assert!(result.dissenting_nodes.is_empty());
    assert_eq!(sv(result.confidence), 1.0);
}

#[test]
fn positions_are_left_to_differ_only_when_stuck_without_a_trend() {
    let mut tracker = ConvergenceTracker::new(TaskId::new(1), lift(100.0));
    tracker.record_position(create_position(1, 0.0), &convergence_of, now());
    tracker.record_position(create_position(2, 100.0), &convergence_of, now());
    assert_eq!(tracker.state(), ConvergenceState::Polarized);
    tracker.round_count = 4;
    assert!(!should_invoke_atd(&tracker, score(0.5), &change_of));
    tracker.round_count = 5;
    assert!(should_invoke_atd(&tracker, score(0.5), &change_of));
    // The task is critical from eight tenths on.
    assert!(!should_invoke_atd(&tracker, score(0.8), &change_of));
    assert!(should_invoke_atd(&tracker, score(0.79), &change_of));
    // A trend over the last five scores keeps the decision open.
    for v in [0.0, 0.0, 0.0, 0.2, 0.2, 0.2] {
        tracker.score_history.push((Timestamp::new(0), score(v)));
    }
    assert_eq!(tracker.trend(5, &change_of), ConvergenceTrend::Improving);
    assert!(!should_invoke_atd(&tracker, score(0.5), &change_of));
    // Positions that are coming together are not left to differ.
    let mut close = ConvergenceTracker::new(TaskId::new(1), lift(100.0));
    close.round_count = 9;
    close.record_position(create_position(1, 50.0), &convergence_of, now());
    close.record_position(create_position(2, 52.0), &convergence_of, now());
    assert_eq!(close.state(), ConvergenceState::Converged);
    assert!(!should_invoke_atd(&close, score(0.5), &change_of));
}

#[test]
fn a_connection_is_changed_through_the_node() {
    let me = NodeId::from_index(1);
    let partner = NodeId::from_index(2);
    let mut node = Node::new(me, now());
    assert!(node.get_connection_mut(&partner).is_none());
    node.get_or_create_connection(partner, now());
    assert_eq!(plain(node.get_connection(&partner).unwrap().weight()), constant(constants::W_INIT));
    node.get_connection_mut(&partner).unwrap().w = weight(0.75);
    assert_eq!(plain(node.get_connection(&partner).unwrap().weight()), 0.75);
    assert_eq!(node.connections.len(), 1);
    assert!(node.get_connection_mut(&me).is_none());
}

#[test]
fn connections_that_stay_keep_their_order() {
    let me = NodeId::from_index(0);
    let mut node = Node::new(me, Timestamp::new(0));
    let day = constants::IDLE_THRESHOLD;
    // Partners 1 to 6; the even ones were active of late.
    for i in 1..=6u64 {
        let at = if i % 2 == 0 { day } else { 0 };
        node.get_or_create_connection(NodeId::from_index(i), Timestamp::new(at));
    }
    // Partner 3 has a weight that decay takes to the smallest.
    node.get_connection_mut(&NodeId::from_index(3)).unwrap().w = weight(0.011);
    let decay = |w: Weight| weight(wv(w) - 0.005);
    node.decay_idle_connections(Timestamp::new(day + 1), decay);
    let left: Vec<NodeId> = (0..node.connections.len()).map(|i| node.connections.key_at(i)).collect();
    assert_eq!(left, [1, 2, 4, 5, 6].map(NodeId::from_index).to_vec());
    assert_eq!(wv(node.get_connection(&NodeId::from_index(1)).unwrap().w), 0.3 - 0.005);
    assert_eq!(wv(node.get_connection(&NodeId::from_index(2)).unwrap().w), 0.3);
}

// ---------------------------------------------------------------------------
// Figures over connections, capabilities and histories
// ---------------------------------------------------------------------------

fn mean_of_reals(values: &Vec<Real>) -> Real {
    lift(values.iter().map(|v| plain(*v)).sum::<f64>() / values.len() as f64)
}

fn variance_of_scores(scores: &Vec<Score>) -> Real {
    lift(variance_of(&scores.iter().map(|s| sv(*s)).collect::<Vec<_>>()))
}

fn weighted_quality(qualities: &Vec<Score>, volumes: &Vec<u32>) -> Score {
    let sum: f64 = qualities.iter().zip(volumes).map(|(q, v)| sv(*q) * *v as f64).sum();
    score(sum / volumes.iter().map(|v| *v as f64).sum::<f64>())
}

#[test]
fn test_connection_stats() {
    let mut node = Node::new(NodeId::from_index(0), now());
    let stats = node.connection_stats(&mean_of_reals);
    assert_eq!(stats.count, 0);
    assert_eq!(plain(stats.mean_weight), 0.0);
    assert_eq!(stats.total_interactions, 0);

    for (i, (w, r, q, count)) in [(0.25, 1.0, 0.5, 3u32), (0.75, -2.0, 1.0, 4)].into_iter().enumerate() {
        let conn = node.get_or_create_connection(NodeId::from_index(i as u64 + 1), now());
        conn.w = weight(w);
        conn.r = lift(r);
        conn.q = score(q);
        conn.count = count;
    }
    let stats = node.connection_stats(&mean_of_reals);
    assert_eq!(stats.count, 2);
    assert_eq!(plain(stats.mean_weight), 0.5);
    assert_eq!(plain(stats.mean_reciprocity), -0.5);
    assert_eq!(plain(stats.mean_quality), 0.75);
    assert_eq!(stats.total_interactions, 7);
    // The number of exchanges stays at the largest that can be held.
    node.get_connection_mut(&NodeId::from_index(1)).unwrap().count = u32::MAX - 2;
    assert_eq!(node.connection_stats(&mean_of_reals).total_interactions, u32::MAX);
    let none = symbiont::connection::ConnectionStats::default();
    assert_eq!((none.count, none.total_interactions), (0, 0));
}

#[test]
fn capability_quality_is_weighted_by_use() {
    let mut node = Node::new(NodeId::from_index(0), now());
    // No capability: one half.
    assert_eq!(sv(node.aggregate_capability_quality(&weighted_quality)), 0.5);
    node.add_capability(common::analysis(), now());
    node.add_capability(common::generation(), now());
    // No capability was used: one half, whatever their qualities.
    node.capabilities.value_at_mut(0).quality = score(1.0);
    assert_eq!(sv(node.aggregate_capability_quality(&weighted_quality)), 0.5);
    // (1.0 * 3 + 0.5 * 1) / 4
    node.capabilities.value_at_mut(0).volume = 3;
    node.capabilities.value_at_mut(1).volume = 1;
    assert_eq!(sv(node.aggregate_capability_quality(&weighted_quality)), 0.875);
}

#[test]
fn history_figures_are_taken_over_the_most_recent_exchanges() {
    let mut history = InteractionHistory::new();
    assert_eq!(sv(history.mean_quality(10, &mean_of)), 0.5);
    assert_eq!(plain(history.quality_variance(10, &variance_of_scores)), 0.0);
    let exchange = |q: f64| {
        Interaction::new(NodeId::from_index(0), NodeId::from_index(1), now()).with_outcome(score(q), signed(0.0))
    };
    history.add(exchange(0.25));
    // One exchange has a mean and no variance.
    assert_eq!(sv(history.mean_quality(10, &mean_of)), 0.25);
    assert_eq!(plain(history.quality_variance(10, &variance_of_scores)), 0.0);
    history.add(exchange(0.75));
    history.add(exchange(0.25));
    // The two most recent: 0.25 and 0.75.
    assert_eq!(sv(history.mean_quality(2, &mean_of)), 0.5);
    assert_eq!(plain(history.quality_variance(2, &variance_of_scores)), 0.0625);
    // None at all.
    assert_eq!(sv(history.mean_quality(0, &mean_of)), 0.5);
    let given: Vec<f64> = symbiont::interaction::qualities(history.all()).iter().map(|q| sv(*q)).collect();
    assert_eq!(given, vec![0.25, 0.75, 0.25]);
}

#[test]
fn trust_is_stable_when_quality_varies_little() {
    let mut node = Node::new(NodeId::from_index(0), now());
    assert!(symbiont::trust::is_trust_stable(&node, lift(0.01), &variance_of_scores));
    // A threshold of zero is met by no variance.
    assert!(!symbiont::trust::is_trust_stable(&node, lift(0.0), &variance_of_scores));
    for i in 0..60 {
        let q = if i < 50 { 0.5 } else { if i % 2 == 0 { 0.0 } else { 1.0 } };
        node.history.add(
            Interaction::new(node.id, NodeId::from_index(1), now()).with_outcome(score(q), signed(0.0)),
        );
    }
    // The ten latest vary between zero and one; with the forty before them
    // the variance is 10 * 0.25 / 50.
    assert!(!symbiont::trust::is_trust_stable(&node, lift(0.04), &variance_of_scores));
    assert!(symbiont::trust::is_trust_stable(&node, lift(0.06), &variance_of_scores));
}

#[test]
fn network_trust_caps_the_trust_in_every_node() {
    let mut nodes: Table<NodeId, Node> = Table::new();
    for i in 0..4u64 {
        let mut node = Node::new(NodeId::from_index(i), now());
        node.trust_cap = score(if i == 3 { 0.25 } else { 1.0 });
        nodes.insert(node.id, node);
    }
    // The combination rises with the index; without recent partners the
    // diversity cap is 0.3.
    let base = |node: &Node| score(0.2 * (node.id.as_bytes()[0] as f64 + 1.0));
    let trusts = symbiont::trust::compute_network_trust(&nodes, &base);
    let given: Vec<(NodeId, f64)> = (0..trusts.len()).map(|i| (trusts.key_at(i), sv(*trusts.value_at(i)))).collect();
    let id = NodeId::from_index;
    assert_eq!(given, vec![(id(0), 0.2), (id(1), 0.3), (id(2), 0.3), (id(3), 0.25)]);
    let spread = |scores: &Vec<Score>| {
        let values: Vec<f64> = scores.iter().map(|s| sv(*s)).collect();
        (lift(values.iter().sum::<f64>() / values.len() as f64), lift(variance_of(&values)))
    };
    let metrics = TrustMetrics::from_network(&nodes, &base, &spread);
    assert_eq!(metrics.node_count, 4);
    assert!((plain(metrics.mean_trust) - 0.2625).abs() < 1e-12);
    assert_eq!(plain(metrics.min_trust), 0.2);
    assert_eq!(plain(metrics.max_trust), 0.3);
    assert_eq!((metrics.high_trust_count, metrics.low_trust_count), (0, 2));
    let none = TrustMetrics::from_network(&Table::new(), &base, &spread);
    assert_eq!(none.node_count, 0);
    assert_eq!(plain(none.mean_trust), 0.0);
}

#[test]
fn the_quality_of_a_workflow_is_that_of_its_successes() {
    let mut workflow = Workflow::new(WorkflowId::new(1), WorkflowType::Sequential, now());
    let cap = common::analysis().id;
    for i in 0..3u64 {
        let task = Task::new(TaskId::new(i), NodeId::from_index(0), cap, now());
        workflow.add_step(WorkflowStep::new(StepId::new(i), task));
    }
    // No result of success: zero.
    assert_eq!(sv(workflow.overall_quality(&mean_of)), 0.0);
    for (i, (success, q)) in [(true, 0.5), (false, 0.0), (true, 1.0)].into_iter().enumerate() {
        workflow.start_step(StepId::new(i as u64), NodeId::from_index(9), now());
        workflow.complete_step(StepId::new(i as u64), result_of(i as u64, success, q, 9), now());
    }
    assert_eq!(sv(workflow.overall_quality(&mean_of)), 0.75);
}

#[test]
fn the_sender_of_a_signal_weighs_what_the_connection_to_it_weighs() {
    let mut node = Node::new(NodeId::from_index(0), now());
    let (known, unknown) = (NodeId::from_index(1), NodeId::from_index(2));
    node.get_or_create_connection(known, now()).w = weight(0.75);
    assert_eq!(plain(symbiont::defense::sender_weight(&node, known)), 0.75);
    assert_eq!(plain(symbiont::defense::sender_weight(&node, unknown)), 0.3);
}

#[test]
fn every_construction_of_a_bounded_scalar_clamps() {
    assert_eq!(sv(Score::from_raw(lift(1.5))), 1.0);
    assert_eq!(sv(Score::from_raw(lift(-0.5))), 0.0);
    assert_eq!(sv(Score::from_raw(lift(0.25))), 0.25);
    assert_eq!(tv(SignedScore::from_raw(lift(-7.0))), -1.0);
    assert_eq!(tv(SignedScore::from_raw(lift(7.0))), 1.0);
    assert_eq!(wv(Weight::from_raw(lift(0.0))), 0.01);
    assert_eq!(wv(Weight::from_raw(lift(2.0))), 1.0);
    assert_eq!(wv(Weight::from_raw(lift(0.5))), 0.5);
}
