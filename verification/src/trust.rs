//! The trust in a node.
//!
//! Trust is a weighted combination of quality, reciprocity, social proof and
//! diversity, which the caller works out in real arithmetic. Here it is
//! capped: a node that deals with few partners cannot be trusted much, and no
//! node can be trusted beyond its own cap.

use vstd::prelude::*;
use crate::constants::{
    DIVERSITY_CAP_OFFSET, HIGH_TRUST, LOW_TRUST, STABILITY_WINDOW, TRUST_LEVEL_HIGH, TRUST_LEVEL_LOW,
    TRUST_LEVEL_MEDIUM, TRUST_LEVEL_VERY_HIGH,
};
use crate::interaction::quality_variance_of;
use crate::node::Node;
use crate::scalar::{rank_of, ONE_BITS};
use crate::table::Table;
use crate::types::{NodeId, Real, Score};

verus! {

/// The smaller of two ranks.
pub open spec fn lower(a: int, b: int) -> int {
    if a <= b {
        a
    } else {
        b
    }
}

/// The encoding of the diversity cap of a node with the given number of
/// different recent partners: of its diversity, which is the hundredth part
/// of that number, and three tenths, as binary64 arithmetic gives their sum,
/// and of one where that is less. From seventy partners on the cap is one.
pub open spec fn diversity_cap_bits(partners: nat) -> u64 {
    if partners == 0 {
        0x3FD3_3333_3333_3333
    } else if partners == 1 {
        0x3FD3_D70A_3D70_A3D7
    } else if partners == 2 {
        0x3FD4_7AE1_47AE_147B
    } else if partners == 3 {
        0x3FD5_1EB8_51EB_851E
    } else if partners == 4 {
        0x3FD5_C28F_5C28_F5C2
    } else if partners == 5 {
        0x3FD6_6666_6666_6666
    } else if partners == 6 {
        0x3FD7_0A3D_70A3_D70A
    } else if partners == 7 {
        0x3FD7_AE14_7AE1_47AE
    } else if partners == 8 {
        0x3FD8_51EB_851E_B852
    } else if partners == 9 {
        0x3FD8_F5C2_8F5C_28F6
    } else if partners == 10 {
        0x3FD9_9999_9999_999A
    } else if partners == 11 {
        0x3FDA_3D70_A3D7_0A3D
    } else if partners == 12 {
        0x3FDA_E147_AE14_7AE1
    } else if partners == 13 {
        0x3FDB_851E_B851_EB85
    } else if partners == 14 {
        0x3FDC_28F5_C28F_5C29
    } else if partners == 15 {
        0x3FDC_CCCC_CCCC_CCCC
    } else if partners == 16 {
        0x3FDD_70A3_D70A_3D70
    } else if partners == 17 {
        0x3FDE_147A_E147_AE14
    } else if partners == 18 {
        0x3FDE_B851_EB85_1EB8
    } else if partners == 19 {
        0x3FDF_5C28_F5C2_8F5C
    } else if partners == 20 {
        0x3FE0_0000_0000_0000
    } else if partners == 21 {
        0x3FE0_51EB_851E_B852
    } else if partners == 22 {
        0x3FE0_A3D7_0A3D_70A4
    } else if partners == 23 {
        0x3FE0_F5C2_8F5C_28F6
    } else if partners == 24 {
        0x3FE1_47AE_147A_E148
    } else if partners == 25 {
        0x3FE1_9999_9999_999A
    } else if partners == 26 {
        0x3FE1_EB85_1EB8_51EC
    } else if partners == 27 {
        0x3FE2_3D70_A3D7_0A3E
    } else if partners == 28 {
        0x3FE2_8F5C_28F5_C290
    } else if partners == 29 {
        0x3FE2_E147_AE14_7AE1
    } else if partners == 30 {
        0x3FE3_3333_3333_3333
    } else if partners == 31 {
        0x3FE3_851E_B851_EB85
    } else if partners == 32 {
        0x3FE3_D70A_3D70_A3D7
    } else if partners == 33 {
        0x3FE4_28F5_C28F_5C29
    } else if partners == 34 {
        0x3FE4_7AE1_47AE_147B
    } else if partners == 35 {
        0x3FE4_CCCC_CCCC_CCCC
    } else if partners == 36 {
        0x3FE5_1EB8_51EB_851E
    } else if partners == 37 {
        0x3FE5_70A3_D70A_3D70
    } else if partners == 38 {
        0x3FE5_C28F_5C28_F5C2
    } else if partners == 39 {
        0x3FE6_147A_E147_AE14
    } else if partners == 40 {
        0x3FE6_6666_6666_6666
    } else if partners == 41 {
        0x3FE6_B851_EB85_1EB8
    } else if partners == 42 {
        0x3FE7_0A3D_70A3_D70A
    } else if partners == 43 {
        0x3FE7_5C28_F5C2_8F5C
    } else if partners == 44 {
        0x3FE7_AE14_7AE1_47AE
    } else if partners == 45 {
        0x3FE8_0000_0000_0000
    } else if partners == 46 {
        0x3FE8_51EB_851E_B852
    } else if partners == 47 {
        0x3FE8_A3D7_0A3D_70A4
    } else if partners == 48 {
        0x3FE8_F5C2_8F5C_28F6
    } else if partners == 49 {
        0x3FE9_47AE_147A_E148
    } else if partners == 50 {
        0x3FE9_9999_9999_999A
    } else if partners == 51 {
        0x3FE9_EB85_1EB8_51EC
    } else if partners == 52 {
        0x3FEA_3D70_A3D7_0A3E
    } else if partners == 53 {
        0x3FEA_8F5C_28F5_C290
    } else if partners == 54 {
        0x3FEA_E147_AE14_7AE2
    } else if partners == 55 {
        0x3FEB_3333_3333_3334
    } else if partners == 56 {
        0x3FEB_851E_B851_EB86
    } else if partners == 57 {
        0x3FEB_D70A_3D70_A3D6
    } else if partners == 58 {
        0x3FEC_28F5_C28F_5C28
    } else if partners == 59 {
        0x3FEC_7AE1_47AE_147A
    } else if partners == 60 {
        0x3FEC_CCCC_CCCC_CCCC
    } else if partners == 61 {
        0x3FED_1EB8_51EB_851E
    } else if partners == 62 {
        0x3FED_70A3_D70A_3D70
    } else if partners == 63 {
        0x3FED_C28F_5C28_F5C2
    } else if partners == 64 {
        0x3FEE_147A_E147_AE14
    } else if partners == 65 {
        0x3FEE_6666_6666_6666
    } else if partners == 66 {
        0x3FEE_B851_EB85_1EB8
    } else if partners == 67 {
        0x3FEF_0A3D_70A3_D70A
    } else if partners == 68 {
        0x3FEF_5C28_F5C2_8F5C
    } else if partners == 69 {
        0x3FEF_AE14_7AE1_47AE
    } else {
        ONE_BITS
    }
}

/// The diversity cap of a node with the given number of different recent
/// partners (see `diversity_cap_bits`): three tenths for a node without
/// partners, and more for each partner more, up to one.
pub fn diversity_cap(partners: usize) -> (cap: Score)
    ensures
        cap.rank() == diversity_cap_bits(partners as nat),
        rank_of(DIVERSITY_CAP_OFFSET) <= cap.rank() <= ONE_BITS,
        partners == 0 ==> cap.rank() == rank_of(DIVERSITY_CAP_OFFSET),
{
    let bits: u64 = if partners == 0 {
            0x3FD3_3333_3333_3333
        } else if partners == 1 {
            0x3FD3_D70A_3D70_A3D7
        } else if partners == 2 {
            0x3FD4_7AE1_47AE_147B
        } else if partners == 3 {
            0x3FD5_1EB8_51EB_851E
        } else if partners == 4 {
            0x3FD5_C28F_5C28_F5C2
        } else if partners == 5 {
            0x3FD6_6666_6666_6666
        } else if partners == 6 {
            0x3FD7_0A3D_70A3_D70A
        } else if partners == 7 {
            0x3FD7_AE14_7AE1_47AE
        } else if partners == 8 {
            0x3FD8_51EB_851E_B852
        } else if partners == 9 {
            0x3FD8_F5C2_8F5C_28F6
        } else if partners == 10 {
            0x3FD9_9999_9999_999A
        } else if partners == 11 {
            0x3FDA_3D70_A3D7_0A3D
        } else if partners == 12 {
            0x3FDA_E147_AE14_7AE1
        } else if partners == 13 {
            0x3FDB_851E_B851_EB85
        } else if partners == 14 {
            0x3FDC_28F5_C28F_5C29
        } else if partners == 15 {
            0x3FDC_CCCC_CCCC_CCCC
        } else if partners == 16 {
            0x3FDD_70A3_D70A_3D70
        } else if partners == 17 {
            0x3FDE_147A_E147_AE14
        } else if partners == 18 {
            0x3FDE_B851_EB85_1EB8
        } else if partners == 19 {
            0x3FDF_5C28_F5C2_8F5C
        } else if partners == 20 {
            0x3FE0_0000_0000_0000
        } else if partners == 21 {
            0x3FE0_51EB_851E_B852
        } else if partners == 22 {
            0x3FE0_A3D7_0A3D_70A4
        } else if partners == 23 {
            0x3FE0_F5C2_8F5C_28F6
        } else if partners == 24 {
            0x3FE1_47AE_147A_E148
        } else if partners == 25 {
            0x3FE1_9999_9999_999A
        } else if partners == 26 {
            0x3FE1_EB85_1EB8_51EC
        } else if partners == 27 {
            0x3FE2_3D70_A3D7_0A3E
        } else if partners == 28 {
            0x3FE2_8F5C_28F5_C290
        } else if partners == 29 {
            0x3FE2_E147_AE14_7AE1
        } else if partners == 30 {
            0x3FE3_3333_3333_3333
        } else if partners == 31 {
            0x3FE3_851E_B851_EB85
        } else if partners == 32 {
            0x3FE3_D70A_3D70_A3D7
        } else if partners == 33 {
            0x3FE4_28F5_C28F_5C29
        } else if partners == 34 {
            0x3FE4_7AE1_47AE_147B
        } else if partners == 35 {
            0x3FE4_CCCC_CCCC_CCCC
        } else if partners == 36 {
            0x3FE5_1EB8_51EB_851E
        } else if partners == 37 {
            0x3FE5_70A3_D70A_3D70
        } else if partners == 38 {
            0x3FE5_C28F_5C28_F5C2
        } else if partners == 39 {
            0x3FE6_147A_E147_AE14
        } else if partners == 40 {
            0x3FE6_6666_6666_6666
        } else if partners == 41 {
            0x3FE6_B851_EB85_1EB8
        } else if partners == 42 {
            0x3FE7_0A3D_70A3_D70A
        } else if partners == 43 {
            0x3FE7_5C28_F5C2_8F5C
        } else if partners == 44 {
            0x3FE7_AE14_7AE1_47AE
        } else if partners == 45 {
            0x3FE8_0000_0000_0000
        } else if partners == 46 {
            0x3FE8_51EB_851E_B852
        } else if partners == 47 {
            0x3FE8_A3D7_0A3D_70A4
        } else if partners == 48 {
            0x3FE8_F5C2_8F5C_28F6
        } else if partners == 49 {
            0x3FE9_47AE_147A_E148
        } else if partners == 50 {
            0x3FE9_9999_9999_999A
        } else if partners == 51 {
            0x3FE9_EB85_1EB8_51EC
        } else if partners == 52 {
            0x3FEA_3D70_A3D7_0A3E
        } else if partners == 53 {
            0x3FEA_8F5C_28F5_C290
        } else if partners == 54 {
            0x3FEA_E147_AE14_7AE2
        } else if partners == 55 {
            0x3FEB_3333_3333_3334
        } else if partners == 56 {
            0x3FEB_851E_B851_EB86
        } else if partners == 57 {
            0x3FEB_D70A_3D70_A3D6
        } else if partners == 58 {
            0x3FEC_28F5_C28F_5C28
        } else if partners == 59 {
            0x3FEC_7AE1_47AE_147A
        } else if partners == 60 {
            0x3FEC_CCCC_CCCC_CCCC
        } else if partners == 61 {
            0x3FED_1EB8_51EB_851E
        } else if partners == 62 {
            0x3FED_70A3_D70A_3D70
        } else if partners == 63 {
            0x3FED_C28F_5C28_F5C2
        } else if partners == 64 {
            0x3FEE_147A_E147_AE14
        } else if partners == 65 {
            0x3FEE_6666_6666_6666
        } else if partners == 66 {
            0x3FEE_B851_EB85_1EB8
        } else if partners == 67 {
            0x3FEF_0A3D_70A3_D70A
        } else if partners == 68 {
            0x3FEF_5C28_F5C2_8F5C
        } else if partners == 69 {
            0x3FEF_AE14_7AE1_47AE
        } else {
            ONE_BITS
        };
    Score::new(Real::from_bits(bits))
}

/// A node with more different recent partners has no smaller diversity cap.
pub proof fn lemma_diversity_cap_rises(fewer: nat, more: nat)
    requires
        fewer <= more,
    ensures
        diversity_cap_bits(fewer) <= diversity_cap_bits(more),
{
}

/// The trust in a node: the combination `base` of its figures, capped by
/// the diversity cap of the node and by its trust cap. The diversity cap is
/// the diversity of the node and three tenths (see `diversity_cap_bits`).
///
/// The trust never exceeds the diversity cap, and never the trust cap of the
/// node. A node without recent partners is trusted no more than three
/// tenths.
pub fn compute_trust(node: &Node, base: Score) -> (trust: Score)
    ensures
        trust.rank() == lower(
            lower(base.rank(), diversity_cap_bits(node.diversity()) as int),
            node.trust_cap.rank(),
        ),
        trust.rank() <= diversity_cap_bits(node.diversity()),
        trust.rank() <= node.trust_cap.rank(),
        trust.rank() <= base.rank(),
        node.diversity() == 0 ==> trust.rank() <= rank_of(DIVERSITY_CAP_OFFSET),
{
    let cap = diversity_cap(node.diversity_hundredths());
    apply_diversity_cap(base, cap).min(node.trust_cap)
}

/// Trust under the diversity cap: the smaller of the two.
pub fn apply_diversity_cap(trust: Score, diversity_cap: Score) -> (capped: Score)
    ensures
        capped.rank() == lower(trust.rank(), diversity_cap.rank()),
{
    trust.min(diversity_cap)
}

/// Whether `trust` is the trust in `node` when `base` gives the combination
/// of its figures: the combination, capped by the diversity cap of the node
/// and by its trust cap.
pub open spec fn trusted_as<B: Fn(&Node) -> Score>(node: Node, base: B, trust: Score) -> bool {
    exists|b: Score| #[trigger]
        call_ensures(base, (&node,), b) && trust.rank() == lower(
            lower(b.rank(), diversity_cap_bits(node.diversity()) as int),
            node.trust_cap.rank(),
        )
}

/// The trust in every node of a network, under the identifier of the node
/// and in the order of the nodes (see `trusted_as`).
pub fn compute_network_trust<B: Fn(&Node) -> Score>(nodes: &Table<NodeId, Node>, base: &B) -> (trusts: Table<NodeId, Score>)
    requires
        nodes.wf(),
        forall|node: &Node| call_requires(*base, (node,)),
    ensures
        trusts.wf(),
        trusts.keys() == nodes.keys(),
        trusts.values().len() == nodes.values().len(),
        forall|i: int|
            0 <= i < nodes.values().len() ==> trusted_as(
                nodes.values()[i],
                *base,
                #[trigger] trusts.values()[i],
            ),
{
    let mut trusts: Table<NodeId, Score> = Table::new();
    let n = nodes.len();
    let mut i: usize = 0;
    while i < n
        invariant
            i <= n,
            n == nodes.keys().len(),
            nodes.wf(),
            trusts.wf(),
            trusts.keys() == nodes.keys().take(i as int),
            trusts.values().len() == i,
            forall|node: &Node| call_requires(*base, (node,)),
                forall|j: int|
                0 <= j < i ==> trusted_as(
                    nodes.values()[j],
                    *base,
                    #[trigger] trusts.values()[j],
                ),
        decreases n - i,
    {
        let id = nodes.key_at(i);
        let node = nodes.value_at(i);
        let b = base(node);
        let trust = compute_trust(node, b);
        let ghost held = trusts;
        proof {
            assert(call_ensures(*base, (node,), b));
            assert(trusted_as(*node, *base, trust));
            if held.has(id) {
                let at = held.keys().index_of(id);
                assert(held.keys()[at] == id);
                assert(nodes.keys()[at] == id);
            }
        }
        trusts.insert(id, trust);
        proof {
            assert(trusts.keys() =~= nodes.keys().take(i as int + 1));
            assert forall|j: int| 0 <= j < i + 1 implies trusted_as(
                nodes.values()[j],
                *base,
                #[trigger] trusts.values()[j],
            ) by {
                if j < i {
                    assert(trusts.values()[j] == held.values()[j]);
                }
            }
        }
        i += 1;
    }
    assert(nodes.keys().take(n as int) =~= nodes.keys());
    trusts
}

/// Whether the trust in a node is stable: the variance of the quality of
/// its fifty most recent exchanges, as `variance` gives it, lies below the
/// threshold.
pub fn is_trust_stable<V: Fn(&Vec<Score>) -> Real>(
    node: &Node,
    variance_threshold: Real,
    variance: &V,
) -> (r: bool)
    requires
        forall|given: &Vec<Score>| call_requires(*variance, (given,)),
    ensures
        exists|v: Real| #[trigger]
            quality_variance_of(node.history.latest(STABILITY_WINDOW as nat), *variance, v) && r
                == (v.rank() < variance_threshold.rank()),
{
    let v = node.history.quality_variance(STABILITY_WINDOW, variance);
    assert(quality_variance_of(node.history.latest(STABILITY_WINDOW as nat), *variance, v));
    v.lt(&variance_threshold)
}

/// The level of a trust, for reports.
#[derive(Clone, Copy, Debug, PartialEq, Eq, Structural)]
pub enum TrustLevel {
    /// Below two tenths.
    VeryLow,
    /// From two tenths, below four.
    Low,
    /// From four tenths, below six.
    Medium,
    /// From six tenths, below eight.
    High,
    /// From eight tenths.
    VeryHigh,
}

impl TrustLevel {
    /// The level of a trust.
    pub fn from_score(score: Score) -> (level: Self)
        ensures
            level == if score.rank() < rank_of(TRUST_LEVEL_LOW) {
                TrustLevel::VeryLow
            } else if score.rank() < rank_of(TRUST_LEVEL_MEDIUM) {
                TrustLevel::Low
            } else if score.rank() < rank_of(TRUST_LEVEL_HIGH) {
                TrustLevel::Medium
            } else if score.rank() < rank_of(TRUST_LEVEL_VERY_HIGH) {
                TrustLevel::High
            } else {
                TrustLevel::VeryHigh
            },
    {
        if score.below(TRUST_LEVEL_LOW) {
            TrustLevel::VeryLow
        } else if score.below(TRUST_LEVEL_MEDIUM) {
            TrustLevel::Low
        } else if score.below(TRUST_LEVEL_HIGH) {
            TrustLevel::Medium
        } else if score.below(TRUST_LEVEL_VERY_HIGH) {
            TrustLevel::High
        } else {
            TrustLevel::VeryHigh
        }
    }
}

/// Figures on the trust in the nodes of a network.
#[derive(Clone, Copy, Debug)]
pub struct TrustMetrics {
    /// The mean trust.
    pub mean_trust: Real,
    /// The variance of the trust.
    pub trust_variance: Real,
    /// The least trust.
    pub min_trust: Real,
    /// The greatest trust.
    pub max_trust: Real,
    /// The number of nodes.
    pub node_count: usize,
    /// The number of nodes whose trust is above the mark for high trust.
    pub high_trust_count: usize,
    /// The number of nodes whose trust is below the mark for low trust.
    pub low_trust_count: usize,
}

/// The number of the first `upto` scores that lie above (`above`) or below
/// (not `above`) the real with the given encoding.
pub open spec fn count_beyond(scores: Seq<Score>, bound: u64, above: bool, upto: int) -> nat
    decreases upto,
{
    if upto <= 0 {
        0
    } else {
        let beyond = if above {
            scores[upto - 1].rank() > rank_of(bound)
        } else {
            scores[upto - 1].rank() < rank_of(bound)
        };
        count_beyond(scores, bound, above, upto - 1) + if beyond {
            1nat
        } else {
            0nat
        }
    }
}

/// Whether `least` and `greatest` are the least and the greatest of the
/// scores.
pub open spec fn spans(scores: Seq<Score>, least: Real, greatest: Real) -> bool {
    &&& exists|i: int| 0 <= i < scores.len() && (#[trigger] scores[i]).rank() == least.rank()
    &&& exists|i: int| 0 <= i < scores.len() && (#[trigger] scores[i]).rank() == greatest.rank()
    &&& forall|i: int|
        0 <= i < scores.len() ==> least.rank() <= (#[trigger] scores[i]).rank() <= greatest.rank()
}

/// Whether `m` holds the figures for the given scores, with the given mean
/// and variance. Without scores every figure is zero.
pub open spec fn figures_of(scores: Seq<Score>, mean: Real, variance: Real, m: TrustMetrics) -> bool {
    &&& m.node_count == scores.len()
    &&& scores.len() == 0 ==> m.mean_trust.0 == 0 && m.trust_variance.0 == 0 && m.min_trust.0 == 0
        && m.max_trust.0 == 0 && m.high_trust_count == 0 && m.low_trust_count == 0
    &&& scores.len() > 0 ==> {
        &&& m.mean_trust == mean
        &&& m.trust_variance == variance
        &&& spans(scores, m.min_trust, m.max_trust)
        &&& m.high_trust_count == count_beyond(scores, HIGH_TRUST, true, scores.len() as int)
        &&& m.low_trust_count == count_beyond(scores, LOW_TRUST, false, scores.len() as int)
    }
}

/// Whether `m` holds the figures for the trust in the nodes of a network,
/// when `spread` gives the mean and the variance of scores (see
/// `trusted_as`).
pub open spec fn network_figures<B: Fn(&Node) -> Score, S: Fn(&Vec<Score>) -> (Real, Real)>(
    nodes: Seq<Node>,
    base: B,
    spread: S,
    m: TrustMetrics,
) -> bool {
    exists|scores: Vec<Score>, figures: (Real, Real)| #[trigger]
        call_ensures(spread, (&scores,), figures) && scores@.len() == nodes.len() && (forall|
            i: int,
        |
            0 <= i < nodes.len() ==> trusted_as(nodes[i], base, #[trigger] scores@[i]))
            && figures_of(scores@, figures.0, figures.1, m)
}

impl TrustMetrics {
    /// The figures for no node at all: every one of them is zero.
    pub fn empty() -> (m: Self)
        ensures
            m.node_count == 0,
            m.high_trust_count == 0,
            m.low_trust_count == 0,
            m.mean_trust.0 == 0,
            m.trust_variance.0 == 0,
            m.min_trust.0 == 0,
            m.max_trust.0 == 0,
    {
        Self {
            mean_trust: Real::zero(),
            trust_variance: Real::zero(),
            min_trust: Real::zero(),
            max_trust: Real::zero(),
            node_count: 0,
            high_trust_count: 0,
            low_trust_count: 0,
        }
    }

    /// The figures for the given scores, of which the caller gives the mean
    /// and the variance. Without scores every figure is zero.
    pub fn from_scores(scores: &Vec<Score>, mean: Real, variance: Real) -> (m: Self)
        ensures
            figures_of(scores@, mean, variance, m),
    {
        if scores.len() == 0 {
            return Self::empty();
        }
        let mut least = scores[0];
        let mut greatest = scores[0];
        let mut high: usize = 0;
        let mut low: usize = 0;
        let mut i: usize = 0;
        while i < scores.len()
            invariant
                i <= scores.len(),
                scores@.len() > 0,
                exists|j: int| 0 <= j < scores.len() && (#[trigger] scores@[j]) == least,
                exists|j: int| 0 <= j < scores.len() && (#[trigger] scores@[j]) == greatest,
                forall|j: int|
                    0 <= j < i ==> least.rank() <= (#[trigger] scores@[j]).rank() <= greatest.rank(),
                high == count_beyond(scores@, HIGH_TRUST, true, i as int),
                low == count_beyond(scores@, LOW_TRUST, false, i as int),
                high <= i,
                low <= i,
            decreases scores.len() - i,
        {
            let s = scores[i];
            if s.lt(&least) {
                least = s;
            }
            if s.gt(&greatest) {
                greatest = s;
            }
            if s.above(HIGH_TRUST) {
                high += 1;
            }
            if s.below(LOW_TRUST) {
                low += 1;
            }
            i += 1;
        }
        let m = Self {
            mean_trust: mean,
            trust_variance: variance,
            min_trust: least.value(),
            max_trust: greatest.value(),
            node_count: scores.len(),
            high_trust_count: high,
            low_trust_count: low,
        };
        proof {
            let a = choose|j: int| 0 <= j < scores.len() && (#[trigger] scores@[j]) == least;
            assert(scores@[a].rank() == m.min_trust.rank());
            let b = choose|j: int| 0 <= j < scores.len() && (#[trigger] scores@[j]) == greatest;
            assert(scores@[b].rank() == m.max_trust.rank());
        }
        m
    }

    /// The figures for the trust in the nodes of a network (see
    /// `network_figures`).
    pub fn from_network<B: Fn(&Node) -> Score, S: Fn(&Vec<Score>) -> (Real, Real)>(
        nodes: &Table<NodeId, Node>,
        base: &B,
        spread: &S,
    ) -> (m: Self)
        requires
            nodes.wf(),
            forall|node: &Node| call_requires(*base, (node,)),
            forall|scores: &Vec<Score>| call_requires(*spread, (scores,)),
        ensures
            network_figures(nodes.values(), *base, *spread, m),
    {
        let trusts = compute_network_trust(nodes, base);
        let mut scores: Vec<Score> = Vec::new();
        let n = trusts.len();
        let mut i: usize = 0;
        while i < n
            invariant
                i <= n,
                n == trusts.keys().len(),
                trusts.wf(),
                scores@ == trusts.values().take(i as int),
            decreases n - i,
        {
            scores.push(*trusts.value_at(i));
            assert(scores@ =~= trusts.values().take(i as int + 1));
            i += 1;
        }
        assert(trusts.values().take(n as int) =~= trusts.values());
        let figures = spread(&scores);
        let m = Self::from_scores(&scores, figures.0, figures.1);
        assert(call_ensures(*spread, (&scores,), figures));
        m
    }
}

} // verus!
