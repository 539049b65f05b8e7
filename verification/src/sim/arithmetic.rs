//! What the simulation leaves to its caller: arithmetic on real numbers, and
//! chance.
//!
//! The simulation decides what happens and in which order. The figures that
//! it needs on the way are worked out by an implementation of `Arithmetic`,
//! and every draw is made by an implementation of `Chance`. Nothing is
//! assumed of either: whatever they give, the simulation keeps every bounded
//! quantity in its interval and every table well formed.

use vstd::prelude::*;
use crate::connection::Dynamics;
use crate::detection::collusion::CollusionCluster;
use crate::detection::QualityFigures;
use crate::routing::RoutingFactors;
use crate::sim::metrics::TrustSnapshot;
use crate::types::{Real, Score, SignedScore, Weight};

verus! {

/// What is observed of one exchange.
#[derive(Clone, Copy, Debug)]
pub struct Observation {
    /// The amount of work.
    pub volume: Real,
    /// The value that the node received.
    pub exchange_in: Real,
    /// The value that the node gave.
    pub exchange_out: Real,
    /// The quality that was measured.
    pub quality: Score,
    /// The tone that was measured.
    pub tone: SignedScore,
}

/// The arithmetic of the protocol.
pub trait Arithmetic {
    /// The measures of a connection after an exchange: the reciprocity, the
    /// quality and the tone as moving averages, and the weight after
    /// reinforcement, decay and dampening by threat.
    fn exchange(&self, before: Dynamics, observed: Observation, threat_level: Score) -> Dynamics;

    /// A moving average after one more observation.
    fn average(&self, held: Score, observed: Score) -> Score;

    /// The trust of a node whose probation went well, and the trust of one
    /// whose probation went badly, for a node of the given trust.
    fn probation_trust(&self, trust: Score) -> (Score, Score);

    /// The alertness of a node one tick later.
    fn decay_priming(&self, priming: Score) -> Score;

    /// The weight of an idle connection one tick later.
    fn decay_weight(&self, weight: Weight) -> Weight;

    /// A belief after evidence of the given weight.
    fn believe(&self, belief: Score, weight: Score) -> Score;

    /// Figures on the quality of the two halves of a history, of which the
    /// qualities are given: those of the more recent half, and those of the
    /// earlier half. Neither half is empty.
    fn quality_figures(&self, recent: &Vec<Score>, early: &Vec<Score>) -> QualityFigures;

    /// The confidence in a finding of low diversity, and the finding in
    /// words, for a node with the given number of different recent partners.
    fn diversity_finding(&self, partners: usize) -> (Score, String);

    /// The variance of the given scores, of which there are at least two.
    fn variance(&self, scores: &Vec<Score>) -> Real;

    /// The mean of the given scores, of which there is at least one.
    fn mean(&self, scores: &Vec<Score>) -> Score;

    /// The figures of a cluster in words.
    fn collusion_evidence(&self, cluster: &CollusionCluster) -> String;

    /// The mean of the given reals, of which there is at least one.
    fn mean_real(&self, values: &Vec<Real>) -> Real;

    /// The mean of the given qualities, each weighted by the number that
    /// goes with it; the numbers are not all zero.
    fn weighted_quality(&self, qualities: &Vec<Score>, volumes: &Vec<u32>) -> Score;

    /// The weighted combination of the quality of the work of a node, the
    /// mean reciprocity of its connections, the mean quality that it holds
    /// of its partners, and the number of its different recent partners.
    fn trust_base(&self, quality: Score, reciprocity: Real, social_proof: Real, partners: usize) -> Score;

    /// The mean and the standard deviation of the given scores, of which
    /// there is at least one.
    fn spread(&self, scores: &Vec<Score>) -> (Real, Real);

    /// The routing score that the given factors make.
    fn routing_score(&self, factors: RoutingFactors) -> Real;

    /// The quotient of two counts.
    fn ratio(&self, count: usize, of: usize) -> Real;

    /// How far the trust came together in the second half of a run: by how
    /// much the mean standard deviation of the second half of the snapshots
    /// lies below that of the first.
    fn convergence(&self, history: &Vec<TrustSnapshot>) -> Real;
}

/// A source of chance.
pub trait Chance {
    /// Whether an event of the given probability happens.
    fn happens(&mut self, probability: Real) -> bool;

    /// A number below `n`, each with the same probability. What an
    /// implementation gives for it is taken modulo `n`.
    fn below(&mut self, n: usize) -> usize;

    /// A real around `center`, no further from it than `spread`.
    fn around(&mut self, center: Real, spread: Real) -> Real;

    /// A real from `low` to `high`.
    fn between(&mut self, low: Real, high: Real) -> Real;

    /// A place in `weights`, each with a probability in proportion to its
    /// weight. What an implementation gives for it is taken modulo the number
    /// of weights.
    fn weighted(&mut self, weights: &Vec<Weight>) -> usize;
}

} // verus!
