//! The detection of adversaries.
//!
//! Each detector decides by what a node has done: by figures on the quality
//! of its remembered exchanges, which the caller works out in real
//! arithmetic, and by counts, which are worked out here.

use vstd::prelude::*;
use vstd::string::StringExecFns;
use crate::constants::{
    ADVERSARY_DROP, BUILT_TRUST, DETECTION_CONFIDENCE, DIVERSITY_PARTNERS, FRAUD_CONFIDENCE,
    FRAUD_HISTORY, NEAR_PERFECT, STEADY_VARIANCE, STRATEGIC_HISTORY, STRONG_SUSPICION,
    UNIFORM_VARIANCE,
};
use crate::interaction::InteractionHistory;
use crate::node::{Node, ThreatType};
use crate::scalar::rank_of;
use crate::types::{NodeId, Real, Score};

pub mod cliques;
pub mod collusion;
pub mod components;

verus! {

/// What a detector found about a node.
#[derive(Debug)]
pub struct DetectionResult {
    /// The node that was looked at.
    pub node_id: NodeId,
    /// What the node is suspected of, if of anything.
    pub threat_type: Option<ThreatType>,
    /// How sure the detector is.
    pub confidence: Score,
    /// Why, in words.
    pub reason: String,
}

impl DetectionResult {
    /// Whether a threat was found: the result names one, and with a
    /// confidence above one half.
    pub open spec fn found(&self) -> bool {
        self.threat_type.is_some() && self.confidence.rank() > rank_of(DETECTION_CONFIDENCE)
    }

    /// Whether this is the finding that nothing is wrong with the node.
    pub open spec fn is_clean(&self, node_id: NodeId) -> bool {
        &&& self.node_id == node_id
        &&& self.threat_type.is_none()
        &&& self.confidence.rank() == 0
        &&& self.reason@ == "No anomalies detected"@
    }

    /// Whether this is the finding of the given threat.
    pub open spec fn is_threat_of(
        &self,
        node_id: NodeId,
        threat_type: ThreatType,
        confidence: int,
        reason: Seq<char>,
    ) -> bool {
        &&& self.node_id == node_id
        &&& self.threat_type == Some(threat_type)
        &&& self.confidence.rank() == confidence
        &&& self.reason@ == reason
    }

    /// The finding that nothing is wrong with the node.
    pub fn clean(node_id: NodeId) -> (r: Self)
        ensures
            r.is_clean(node_id),
            !r.found(),
    {
        Self {
            node_id,
            threat_type: None,
            confidence: Score::zero(),
            reason: String::from_str("No anomalies detected"),
        }
    }

    /// The finding of a threat.
    pub fn threat(node_id: NodeId, threat_type: ThreatType, confidence: Score, reason: String) -> (r:
        Self)
        ensures
            r.node_id == node_id,
            r.threat_type == Some(threat_type),
            r.confidence == confidence,
            r.reason == reason,
    {
        Self { node_id, threat_type: Some(threat_type), confidence, reason }
    }

    /// Whether a threat was found.
    pub fn is_threat(&self) -> (r: bool)
        ensures
            r == self.found(),
    {
        self.threat_type.is_some() && self.confidence.above(DETECTION_CONFIDENCE)
    }
}

/// Figures on the quality of a node's remembered exchanges, taken over the
/// earlier and the more recent half of its history.
#[derive(Debug)]
pub struct QualityFigures {
    /// The mean quality of the earlier half.
    pub early_mean: Score,
    /// The variance of the quality of the earlier half.
    pub early_variance: Real,
    /// How far the mean quality of the more recent half lies below that of
    /// the earlier half.
    pub quality_drop: Real,
    /// The confidence that this drop gives: twice the drop, and at most one.
    pub drop_confidence: Score,
    /// The drop, put into words.
    pub drop_reason: String,
}

impl QualityFigures {
    /// The figures of a history that is too short to have any: all zero,
    /// and no words.
    pub fn unknown() -> (f: Self)
        ensures
            f.early_mean.rank() == 0,
            f.early_variance.0 == 0,
            f.quality_drop.0 == 0,
            f.drop_confidence.rank() == 0,
            f.drop_reason@.len() == 0,
    {
        Self {
            early_mean: Score::zero(),
            early_variance: Real::zero(),
            quality_drop: Real::zero(),
            drop_confidence: Score::zero(),
            drop_reason: String::new(),
        }
    }
}

/// Whether `r` is what the search for a strategic adversary finds.
///
/// With fewer than a hundred remembered exchanges nothing is found. A node
/// whose early quality was suspiciously perfect, with a mean above the mark
/// for it and a variance below the mark for it, is a threat. So is a node
/// whose trust is built and whose quality has dropped by more than the
/// adversary drop, with the confidence that the drop gives. No other node
/// is.
pub open spec fn strategic_finding(
    node: Node,
    history: InteractionHistory,
    figures: QualityFigures,
    r: DetectionResult,
) -> bool {
    if history.entries().len() < STRATEGIC_HISTORY {
        r.is_clean(node.id)
    } else if figures.early_mean.rank() > rank_of(NEAR_PERFECT) && figures.early_variance.rank()
        < rank_of(STEADY_VARIANCE) {
        r.is_threat_of(
            node.id,
            ThreatType::Strategic,
            rank_of(STRONG_SUSPICION),
            "Suspiciously perfect early behavior"@,
        )
    } else if node.trust.rank() > rank_of(BUILT_TRUST) && figures.quality_drop.rank() > rank_of(
        ADVERSARY_DROP,
    ) {
        r.is_threat_of(
            node.id,
            ThreatType::Strategic,
            figures.drop_confidence.rank(),
            figures.drop_reason@,
        )
    } else {
        r.is_clean(node.id)
    }
}

/// Whether `r` is what the search for low diversity finds: a node with
/// fewer different recent partners than the diversity threshold asks for is
/// a threat, with the given confidence and for the given reason, and no
/// other node is.
pub open spec fn diversity_finding(
    node: Node,
    confidence: Score,
    reason: Seq<char>,
    r: DetectionResult,
) -> bool {
    if node.diversity() < DIVERSITY_PARTNERS {
        r.is_threat_of(node.id, ThreatType::Sybil, confidence.rank(), reason)
    } else {
        r.is_clean(node.id)
    }
}

/// Whether `r` is what the search for quality fraud finds: a node with more
/// than thirty remembered exchanges whose recent quality has a variance below
/// the mark for uniform ratings and a mean above the mark for perfect ones is
/// a threat, and no other node is.
pub open spec fn fraud_finding(
    node: Node,
    recent_variance: Real,
    recent_mean: Score,
    r: DetectionResult,
) -> bool {
    if recent_variance.rank() < rank_of(UNIFORM_VARIANCE) && node.history.entries().len()
        > FRAUD_HISTORY && recent_mean.rank() > rank_of(NEAR_PERFECT) {
        r.is_threat_of(
            node.id,
            ThreatType::QualityFraud,
            rank_of(FRAUD_CONFIDENCE),
            "Suspiciously uniform high quality scores"@,
        )
    } else {
        r.is_clean(node.id)
    }
}

/// Looks for a strategic adversary: a node that behaves well until it is
/// trusted, and then defects (see `strategic_finding`).
pub fn detect_strategic_adversary(
    node: &Node,
    history: &InteractionHistory,
    figures: QualityFigures,
) -> (r: DetectionResult)
    ensures
        strategic_finding(*node, *history, figures, r),
{
    if history.len() < STRATEGIC_HISTORY {
        return DetectionResult::clean(node.id);
    }
    if figures.early_mean.above(NEAR_PERFECT) && figures.early_variance.lt(
        &Real::from_bits(STEADY_VARIANCE),
    ) {
        return DetectionResult::threat(
            node.id,
            ThreatType::Strategic,
            Score::new(Real::from_bits(STRONG_SUSPICION)),
            String::from_str("Suspiciously perfect early behavior"),
        );
    }
    if node.trust.above(BUILT_TRUST) && figures.quality_drop.gt(&Real::from_bits(ADVERSARY_DROP)) {
        return DetectionResult::threat(
            node.id,
            ThreatType::Strategic,
            figures.drop_confidence,
            figures.drop_reason,
        );
    }
    DetectionResult::clean(node.id)
}

/// Looks for low diversity, which marks a node that may stand behind
/// several identities or keep to itself.
///
/// A node with fewer different recent partners than the diversity threshold
/// asks for is a threat, with the given confidence and for the given reason.
/// No other node is.
pub fn detect_low_diversity(node: &Node, confidence: Score, reason: String) -> (r: DetectionResult)
    ensures
        diversity_finding(*node, confidence, reason@, r),
{
    if node.diversity_hundredths() < DIVERSITY_PARTNERS {
        DetectionResult::threat(node.id, ThreatType::Sybil, confidence, reason)
    } else {
        DetectionResult::clean(node.id)
    }
}

/// Looks for quality fraud: ratings that are too good and too even to be
/// true.
///
/// A node with more than thirty remembered exchanges whose recent quality
/// has a variance below the mark for uniform ratings and a mean above the
/// mark for perfect ones is a threat. No other node is.
pub fn detect_quality_fraud(node: &Node, recent_variance: Real, recent_mean: Score) -> (r:
    DetectionResult)
    ensures
        fraud_finding(*node, recent_variance, recent_mean, r),
{
    if recent_variance.lt(&Real::from_bits(UNIFORM_VARIANCE)) && node.history.len() > FRAUD_HISTORY {
        if recent_mean.above(NEAR_PERFECT) {
            return DetectionResult::threat(
                node.id,
                ThreatType::QualityFraud,
                Score::new(Real::from_bits(FRAUD_CONFIDENCE)),
                String::from_str("Suspiciously uniform high quality scores"),
            );
        }
    }
    DetectionResult::clean(node.id)
}

/// The test whether a finding found a threat.
pub open spec fn finds_threat() -> spec_fn(DetectionResult) -> bool {
    |r: DetectionResult| r.found()
}

/// The findings among `results` that found a threat, in their order.
pub fn keep_threats(results: Vec<DetectionResult>) -> (threats: Vec<DetectionResult>)
    ensures
        threats@ == results@.filter(finds_threat()),
{
    let mut results = results;
    let ghost all = results@;
    let mut reversed: Vec<DetectionResult> = Vec::new();
    // The findings are taken from the back, and put back in order after.
    while results.len() > 0
        invariant
            results@.len() <= all.len(),
            results@ == all.take(results@.len() as int),
            reversed@.reverse() == all.skip(results@.len() as int).filter(finds_threat()),
        decreases results.len(),
    {
        let ghost k = results@.len() as int;
        let ghost rest = all.skip(k);
        let r = results.pop().unwrap();
        proof {
            assert(r == all[k - 1]);
            let longer = all.skip(k - 1);
            assert(longer =~= seq![r] + rest);
            rest.lemma_filter_prepend(r, finds_threat());
            assert(seq![r] + rest =~= seq![r].add(rest));
        }
        if r.is_threat() {
            proof {
                assert(reversed@.push(r).reverse() =~= seq![r] + reversed@.reverse());
            }
            reversed.push(r);
        }
        proof {
            assert(results@ =~= all.take(k - 1));
        }
    }
    assert(all.skip(0) =~= all);
    let mut threats: Vec<DetectionResult> = Vec::new();
    let ghost back = reversed@;
    while reversed.len() > 0
        invariant
            reversed@.len() <= back.len(),
            reversed@ == back.take(reversed@.len() as int),
            threats@ == back.skip(reversed@.len() as int).reverse(),
        decreases reversed.len(),
    {
        let ghost k = reversed@.len() as int;
        let r = reversed.pop().unwrap();
        threats.push(r);
        proof {
            assert(reversed@ =~= back.take(k - 1));
            assert(back.skip(k - 1).reverse() =~= back.skip(k).reverse().push(back[k - 1]));
        }
    }
    assert(back.skip(0) =~= back);
    threats
}

/// Whether `all` are the findings of the three detectors about a node, in
/// the order strategic adversary, low diversity, quality fraud.
pub open spec fn all_findings(
    node: Node,
    history: InteractionHistory,
    figures: QualityFigures,
    diversity_confidence: Score,
    diversity_reason: Seq<char>,
    recent_variance: Real,
    recent_mean: Score,
    all: Seq<DetectionResult>,
) -> bool {
    &&& all.len() == 3
    &&& strategic_finding(node, history, figures, all[0])
    &&& diversity_finding(node, diversity_confidence, diversity_reason, all[1])
    &&& fraud_finding(node, recent_variance, recent_mean, all[2])
}

/// Whether the finding `r` about a node has the grounds that every finding
/// of its kind has, whatever the figures: a strategic adversary is found
/// only with a hundred remembered exchanges or more, low diversity only with
/// fewer different recent partners than the diversity threshold asks for,
/// and quality fraud only with more than thirty remembered exchanges of the
/// node, and with the confidence that goes with it. The detectors find no
/// threat of another kind.
pub open spec fn grounded(node: Node, history: InteractionHistory, r: DetectionResult) -> bool {
    &&& r.node_id == node.id
    &&& match r.threat_type {
        Some(ThreatType::Strategic) => history.entries().len() >= STRATEGIC_HISTORY,
        Some(ThreatType::Sybil) => node.diversity() < DIVERSITY_PARTNERS,
        Some(ThreatType::QualityFraud) => node.history.entries().len() > FRAUD_HISTORY
            && r.confidence.rank() == rank_of(FRAUD_CONFIDENCE),
        Some(_) => false,
        None => true,
    }
}

/// Runs the three detectors on a node, and gives what they found: the
/// findings that found a threat, in the order strategic adversary, low
/// diversity, quality fraud.
pub fn detect_all_threats(
    node: &Node,
    history: &InteractionHistory,
    figures: QualityFigures,
    diversity_confidence: Score,
    diversity_reason: String,
    recent_variance: Real,
    recent_mean: Score,
) -> (threats: Vec<DetectionResult>)
    ensures
        threats.len() <= 3,
        forall|i: int| 0 <= i < threats.len() ==> (#[trigger] threats[i]).found(),
        forall|i: int| 0 <= i < threats.len() ==> (#[trigger] threats[i]).node_id == node.id,
        forall|i: int| 0 <= i < threats.len() ==> grounded(*node, *history, #[trigger] threats[i]),
        exists|all: Seq<DetectionResult>| #[trigger]
            all_findings(
                *node,
                *history,
                figures,
                diversity_confidence,
                diversity_reason@,
                recent_variance,
                recent_mean,
                all,
            ) && threats@ == all.filter(finds_threat()),
{
    let mut results: Vec<DetectionResult> = Vec::new();
    results.push(detect_strategic_adversary(node, history, figures));
    results.push(detect_low_diversity(node, diversity_confidence, diversity_reason));
    results.push(detect_quality_fraud(node, recent_variance, recent_mean));
    let ghost all = results@;
    assert(all_findings(
        *node,
        *history,
        figures,
        diversity_confidence,
        diversity_reason@,
        recent_variance,
        recent_mean,
        all,
    ));
    let threats = keep_threats(results);
    proof {
        let found = finds_threat();
        all.lemma_filter_len(found);
        assert forall|i: int| 0 <= i < threats.len() implies (#[trigger] threats[i]).found()
            && threats[i].node_id == node.id && grounded(*node, *history, threats[i]) by {
            all.lemma_filter_pred(found, i);
            assert(all.filter(found).contains(all.filter(found)[i]));
            all.lemma_filter_contains_rev(found, all.filter(found)[i]);
            let j = all.index_of(all.filter(found)[i]);
            assert(all[j] == all.filter(found)[i]);
            assert(all[j].node_id == node.id);
            assert(j == 0 || j == 1 || j == 2);
        }
    }
    threats
}

} // verus!
