//! The protocol's parameters.
//!
//! A real parameter is given as the 64-bit encoding of its value (see
//! `scalar`); a count or a duration is given as an integer.

use vstd::prelude::*;

verus! {

// Connection dynamics.

/// γ, the reinforcement rate: one tenth.
pub const GAMMA: u64 = 0x3FB9_9999_9999_999A;

/// μ, the exponent of the flow: one half.
pub const MU: u64 = 0x3FE0_0000_0000_0000;

/// α, the rate of passive decay: one hundredth.
pub const ALPHA: u64 = 0x3F84_7AE1_47AE_147B;

/// β, the steepness of the reciprocity sigmoid: two.
pub const BETA: u64 = 0x4000_0000_0000_0000;

/// λ, the memory of every moving average: nine tenths.
pub const LAMBDA: u64 = 0x3FEC_CCCC_CCCC_CCCD;

/// θ, the weight of quality in reciprocity: one half.
pub const THETA: u64 = 0x3FE0_0000_0000_0000;

/// δ, the dampening by threat: one fifth.
pub const DELTA: u64 = 0x3FC9_9999_9999_999A;

/// ε, the floor of every denominator: one thousandth.
pub const EPSILON: u64 = 0x3F50_624D_D2F1_A9FC;

// Connection bounds.

/// The smallest connection weight: one hundredth.
pub const W_MIN: u64 = 0x3F84_7AE1_47AE_147B;

/// The largest connection weight: one.
pub const W_MAX: u64 = 0x3FF0_0000_0000_0000;

/// The weight of a fresh connection: three tenths.
pub const W_INIT: u64 = 0x3FD3_3333_3333_3333;

// Cold start.

/// The trust granted to a new node: four tenths.
pub const SWIFT_TRUST_BASE: u64 = 0x3FD9_9999_9999_999A;

/// The factor on a voucher's trust when the vouched node fails: one half.
pub const VOUCH_PENALTY: u64 = 0x3FE0_0000_0000_0000;

/// The number of interactions in a probation period.
pub const PROBATION_COUNT: u32 = 50;

/// The mean quality that passes probation: six tenths.
pub const PROBATION_THRESHOLD: u64 = 0x3FE3_3333_3333_3333;

/// The trust that a promotion cannot exceed: eight tenths.
pub const PROMOTION_CEILING: u64 = 0x3FE9_9999_9999_999A;

// Quality weights.

/// The weight of helpfulness in a quality score: four tenths.
pub const OMEGA_HELP: u64 = 0x3FD9_9999_9999_999A;

/// The weight of accuracy in a quality score: three tenths.
pub const OMEGA_ACC: u64 = 0x3FD3_3333_3333_3333;

/// The weight of relevance in a quality score: two tenths.
pub const OMEGA_REL: u64 = 0x3FC9_9999_9999_999A;

/// The weight of timeliness in a quality score: one tenth.
pub const OMEGA_TIME: u64 = 0x3FB9_9999_9999_999A;

/// The factor when the user would come back: twelve tenths.
pub const REUSE_BOOST: u64 = 0x3FF3_3333_3333_3333;

/// The factor when the user would not come back: eight tenths.
pub const REUSE_PENALTY: u64 = 0x3FE9_9999_9999_999A;

// Defense signalling.

/// The confidence a signal needs to be propagated: six tenths.
pub const PROPAGATE_THRESHOLD: u64 = 0x3FE3_3333_3333_3333;

/// The factor on confidence at each hop: eight tenths.
pub const DECAY_PER_HOP: u64 = 0x3FE9_9999_9999_999A;

/// The confidence below which a forwarded signal is dropped: one tenth.
pub const MIN_SIGNAL: u64 = 0x3FB9_9999_9999_999A;

/// The largest number of hops a signal may have made.
pub const MAX_HOPS: u8 = 5;

/// The share of a signal's confidence that is added to priming: one tenth.
pub const PRIMING_SENSITIVITY: u64 = 0x3FB9_9999_9999_999A;

/// The factor on priming at each tick: ninety-nine hundredths.
pub const PRIMING_DECAY: u64 = 0x3FEF_AE14_7AE1_47AE;

/// The priming above which a node is primed: three tenths.
pub const PRIMED_ABOVE: u64 = 0x3FD3_3333_3333_3333;

/// The priming below which a node is back to normal: one tenth.
pub const CALM_BELOW: u64 = 0x3FB9_9999_9999_999A;

/// The belief above which a node defends itself: seven tenths.
pub const ACTION_THRESHOLD: u64 = 0x3FE6_6666_6666_6666;

/// The quality above which an exchange is affirmed: eight tenths.
pub const AFFIRM_QUALITY: u64 = 0x3FE9_9999_9999_999A;

/// The tone above which an exchange is affirmed: one half.
pub const AFFIRM_TONE: u64 = 0x3FE0_0000_0000_0000;

/// The weight that stands for a sender to whom there is no connection:
/// three tenths.
pub const UNKNOWN_SENDER_WEIGHT: u64 = 0x3FD3_3333_3333_3333;

// Confidence.

/// The memory of the self-confidence average: ninety-five hundredths.
pub const CONFIDENCE_MEMORY: u64 = 0x3FEE_6666_6666_6666;

// Detection.

/// The internal density above which a cluster may collude: eighty-five
/// hundredths.
pub const COLLUSION_THRESHOLD: u64 = 0x3FEB_3333_3333_3333;

/// What is added to the diversity of a node to give its diversity cap:
/// three tenths.
pub const DIVERSITY_CAP_OFFSET: u64 = 0x3FD3_3333_3333_3333;

/// The diversity below which trust is capped: three tenths.
pub const DIVERSITY_THRESHOLD: u64 = 0x3FD3_3333_3333_3333;

/// The drop in quality that marks a strategic adversary: three tenths.
pub const ADVERSARY_DROP: u64 = 0x3FD3_3333_3333_3333;

/// The confidence above which a detection counts as a threat: one half.
pub const DETECTION_CONFIDENCE: u64 = 0x3FE0_0000_0000_0000;

/// The number of remembered exchanges that the search for a strategic
/// adversary needs.
pub const STRATEGIC_HISTORY: usize = 100;

/// The mean quality above which behaviour is suspiciously perfect:
/// ninety-five hundredths.
pub const NEAR_PERFECT: u64 = 0x3FEE_6666_6666_6666;

/// The variance of early quality below which behaviour is suspiciously
/// even: one hundredth.
pub const STEADY_VARIANCE: u64 = 0x3F84_7AE1_47AE_147B;

/// The confidence in a finding of suspiciously perfect early behaviour, and
/// in a dense cluster: seven tenths.
pub const STRONG_SUSPICION: u64 = 0x3FE6_6666_6666_6666;

/// The confidence in a cluster that is not dense: three tenths.
pub const WEAK_SUSPICION: u64 = 0x3FD3_3333_3333_3333;

/// The trust above which a drop in quality marks a strategic adversary:
/// seven tenths.
pub const BUILT_TRUST: u64 = 0x3FE6_6666_6666_6666;

/// The number of remembered exchanges above which quality fraud is looked
/// for.
pub const FRAUD_HISTORY: usize = 30;

/// The number of recent exchanges whose quality is looked at for fraud.
pub const FRAUD_WINDOW: usize = 50;

/// The variance of quality below which ratings are suspiciously uniform: one
/// thousandth.
pub const UNIFORM_VARIANCE: u64 = 0x3F50_624D_D2F1_A9FC;

/// The confidence in a finding of quality fraud: six tenths.
pub const FRAUD_CONFIDENCE: u64 = 0x3FE3_3333_3333_3333;

/// The number of nodes that a cluster needs to be looked at for collusion.
pub const CLUSTER_SIZE: usize = 3;

/// The mean mutual rating above which a cluster may collude: nine tenths.
pub const MUTUAL_RATING_THRESHOLD: u64 = 0x3FEC_CCCC_CCCC_CCCD;

/// The number of recent interactions over which diversity is counted; one
/// partner among them is one hundredth of diversity.
pub const DIVERSITY_WINDOW: usize = 100;

/// The number of distinct recent partners below which diversity is low:
/// the diversity threshold in hundredths.
pub const DIVERSITY_PARTNERS: usize = 30;

/// The trust cap of a node with low diversity: seven tenths.
pub const LOW_DIVERSITY_CAP: u64 = 0x3FE6_6666_6666_6666;

// Capacity.

/// The load at which no more work is accepted: ninety-five hundredths.
pub const LOAD_LIMIT: u64 = 0x3FEE_6666_6666_6666;

/// The load below which a capability is available again: nine tenths.
pub const LOAD_AVAILABLE: u64 = 0x3FEC_CCCC_CCCC_CCCD;

// Trust computation.

/// The weight of quality in trust: four tenths.
pub const TRUST_WEIGHT_QUALITY: u64 = 0x3FD9_9999_9999_999A;

/// The weight of reciprocity in trust: two tenths.
pub const TRUST_WEIGHT_RECIPROCITY: u64 = 0x3FC9_9999_9999_999A;

/// The weight of social proof in trust: two tenths.
pub const TRUST_WEIGHT_SOCIAL: u64 = 0x3FC9_9999_9999_999A;

/// The weight of diversity in trust: two tenths.
pub const TRUST_WEIGHT_DIVERSITY: u64 = 0x3FC9_9999_9999_999A;

/// The trust above which a node counts as highly trusted: seven tenths.
pub const HIGH_TRUST: u64 = 0x3FE6_6666_6666_6666;

/// The trust below which a node counts as little trusted: three tenths.
pub const LOW_TRUST: u64 = 0x3FD3_3333_3333_3333;

/// The number of recent exchanges by which the stability of the trust in a
/// node is judged.
pub const STABILITY_WINDOW: usize = 50;

/// The trust at which the level is low, and no longer very low: two tenths.
pub const TRUST_LEVEL_LOW: u64 = 0x3FC9_9999_9999_999A;

/// The trust at which the level is medium: four tenths.
pub const TRUST_LEVEL_MEDIUM: u64 = 0x3FD9_9999_9999_999A;

/// The trust at which the level is high: six tenths.
pub const TRUST_LEVEL_HIGH: u64 = 0x3FE3_3333_3333_3333;

/// The trust at which the level is very high: eight tenths.
pub const TRUST_LEVEL_VERY_HIGH: u64 = 0x3FE9_9999_9999_999A;

// Convergence.

/// The convergence above which positions have converged: eighty-five
/// hundredths.
pub const CONVERGED_ABOVE: u64 = 0x3FEB_3333_3333_3333;

/// The convergence above which positions are converging: six tenths.
pub const CONVERGING_ABOVE: u64 = 0x3FE3_3333_3333_3333;

/// The convergence above which positions are explored: four tenths.
pub const EXPLORING_ABOVE: u64 = 0x3FD9_9999_9999_999A;

/// The convergence above which positions are stuck: two tenths.
pub const STUCK_ABOVE: u64 = 0x3FC9_9999_9999_999A;

/// The change of convergence beyond which there is a trend: five
/// hundredths.
pub const TREND_MARGIN: u64 = 0x3FA9_9999_9999_999A;

/// The number of scores over which the trend of a decision is taken.
pub const TREND_WINDOW: usize = 5;

/// The number of rounds before positions may be left to differ.
pub const MIN_ROUNDS: u32 = 5;

/// The criticality of a task at which positions may not be left to differ:
/// eight tenths.
pub const CRITICAL_TASK: u64 = 0x3FE9_9999_9999_999A;

// Tone computation.

/// The weight of engagement in tone: four tenths.
pub const TONE_WEIGHT_ENGAGEMENT: u64 = 0x3FD9_9999_9999_999A;

/// The weight of friendliness in tone: three tenths.
pub const TONE_WEIGHT_FRIENDLINESS: u64 = 0x3FD3_3333_3333_3333;

/// The weight of collaboration in tone: three tenths.
pub const TONE_WEIGHT_COLLABORATION: u64 = 0x3FD3_3333_3333_3333;

// Timing.

/// The age in milliseconds at which a connection is idle.
pub const IDLE_THRESHOLD: u64 = 100_000;

/// The number of ticks between two diversity checks.
pub const DIVERSITY_INTERVAL: u64 = 100;

/// The number of ticks between two status checks.
pub const STATUS_INTERVAL: u64 = 50;

/// The number of ticks between two scans for adversaries.
pub const ADVERSARY_INTERVAL: u64 = 100;

} // verus!
