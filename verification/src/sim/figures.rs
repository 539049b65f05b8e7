//! The figures that the simulation asks of its arithmetic.
//!
//! What is asked for is gathered here: which qualities, weights and counts
//! go into a figure, and what the figure is where there is nothing to work
//! out. The arithmetic gets plain rows of values, and each relation of this
//! module says which row it got and what it gave for it.

use vstd::prelude::*;
use crate::capability::CapabilityState;
use crate::connection::{
    averaged, exchanges_over, qualities_of, reciprocities_of, weights_of, Connection,
    ConnectionStats,
};
use crate::interaction::{mean_quality_of, quality_variance_of, Interaction, InteractionHistory};
use crate::node::Node;
use crate::scalar::HALF_BITS;
use crate::sim::arithmetic::Arithmetic;
use crate::types::{Real, Score};

verus! {

/// Whether `q` is the mean quality of the exchanges by the kernel: one half
/// where there is none, and else the mean that the kernel gives for their
/// qualities.
pub open spec fn mean_quality_by<A: Arithmetic>(kernel: &A, entries: Seq<Interaction>, q: Score) -> bool {
    if entries.len() == 0 {
        q.rank() == HALF_BITS
    } else {
        exists|given: Vec<Score>| #[trigger]
            call_ensures(A::mean, (kernel, &given), q) && given@
                == crate::interaction::qualities_of(entries)
    }
}

/// Whether `v` is the variance of the quality of the exchanges by the
/// kernel: zero for fewer than two exchanges, and else the variance that the
/// kernel gives for their qualities.
pub open spec fn quality_variance_by<A: Arithmetic>(
    kernel: &A,
    entries: Seq<Interaction>,
    v: Real,
) -> bool {
    if entries.len() < 2 {
        v.0 == 0
    } else {
        exists|given: Vec<Score>| #[trigger]
            call_ensures(A::variance, (kernel, &given), v) && given@
                == crate::interaction::qualities_of(entries)
    }
}

/// Whether `q` is the quality of the work of a node over all its
/// capabilities by the kernel: one half where the node has no capability or
/// has used none, and else what the kernel gives for the qualities of the
/// capabilities and the number of times that each was used.
pub open spec fn aggregated_by<A: Arithmetic>(
    kernel: &A,
    capabilities: Seq<CapabilityState>,
    q: Score,
) -> bool {
    if Node::unused(capabilities, capabilities.len() as int) {
        q.rank() == HALF_BITS
    } else {
        exists|qualities: Vec<Score>, volumes: Vec<u32>| #[trigger]
            call_ensures(A::weighted_quality, (kernel, &qualities, &volumes), q) && qualities@
                == Node::qualities_held(capabilities) && volumes@ == Node::volumes_held(
                capabilities,
            )
    }
}

/// Whether `stats` are the figures of the connections by the kernel: their
/// number, the number of exchanges that went over them, and the means that
/// the kernel gives for their weights, reciprocities and quality averages;
/// without connections every figure is zero.
pub open spec fn averaged_by<A: Arithmetic>(
    kernel: &A,
    connections: Seq<Connection>,
    stats: ConnectionStats,
) -> bool {
    &&& stats.count == connections.len()
    &&& stats.total_interactions == exchanges_over(connections, connections.len() as int)
    &&& if connections.len() == 0 {
        stats.mean_weight.0 == 0 && stats.mean_reciprocity.0 == 0 && stats.mean_quality.0 == 0
    } else {
        &&& exists|given: Vec<Real>| #[trigger]
            call_ensures(A::mean_real, (kernel, &given), stats.mean_weight) && weights_of(
                connections,
                given@,
            )
        &&& exists|given: Vec<Real>| #[trigger]
            call_ensures(A::mean_real, (kernel, &given), stats.mean_reciprocity) && given@
                == reciprocities_of(connections)
        &&& exists|given: Vec<Real>| #[trigger]
            call_ensures(A::mean_real, (kernel, &given), stats.mean_quality) && qualities_of(
                connections,
                given@,
            )
    }
}

/// Whether the kernel gave `base` as the combination of the figures of a
/// node: of the quality `quality` of its work and the figures `stats` of its
/// connections, which are those of the node, and of the number of its
/// different recent partners.
pub open spec fn combined<A: Arithmetic>(
    kernel: &A,
    node: Node,
    quality: Score,
    stats: ConnectionStats,
    base: Score,
) -> bool {
    &&& aggregated_by(kernel, node.capabilities.values(), quality)
    &&& averaged_by(kernel, node.connections.values(), stats)
    &&& call_ensures(
        A::trust_base,
        (kernel, quality, stats.mean_reciprocity, stats.mean_quality, node.diversity() as usize),
        base,
    )
}

/// Whether `base` is the combination of the figures of a node by the kernel:
/// of the quality of its work, the mean reciprocity of its connections, the
/// mean quality that it holds of its partners, and the number of its
/// different recent partners.
pub open spec fn based<A: Arithmetic>(kernel: &A, node: Node, base: Score) -> bool {
    exists|quality: Score, stats: ConnectionStats| #[trigger]
        combined(kernel, node, quality, stats, base)
}

/// The mean quality of the `count` most recent exchanges of a history, by
/// the kernel.
pub fn mean_quality<A: Arithmetic>(kernel: &A, history: &InteractionHistory, count: usize) -> (q:
    Score)
    ensures
        mean_quality_by(kernel, history.latest(count as nat), q),
{
    let mean = |given: &Vec<Score>| -> (r: Score)
        ensures
            call_ensures(A::mean, (kernel, given), r),
        { kernel.mean(given) };
    let q = history.mean_quality(count, &mean);
    proof {
        let entries = history.latest(count as nat);
        assert(mean_quality_of(entries, mean, q));
        if entries.len() > 0 {
            let given = choose|given: Vec<Score>| #[trigger]
                call_ensures(mean, (&given,), q) && given@ == crate::interaction::qualities_of(
                    entries,
                );
            assert(call_ensures(A::mean, (kernel, &given), q));
        }
    }
    q
}

/// The variance of the quality of the `count` most recent exchanges of a
/// history, by the kernel.
pub fn quality_variance<A: Arithmetic>(kernel: &A, history: &InteractionHistory, count: usize) -> (v:
    Real)
    ensures
        quality_variance_by(kernel, history.latest(count as nat), v),
{
    let variance = |given: &Vec<Score>| -> (r: Real)
        ensures
            call_ensures(A::variance, (kernel, given), r),
        { kernel.variance(given) };
    let v = history.quality_variance(count, &variance);
    proof {
        let entries = history.latest(count as nat);
        assert(quality_variance_of(entries, variance, v));
        if entries.len() >= 2 {
            let given = choose|given: Vec<Score>| #[trigger]
                call_ensures(variance, (&given,), v) && given@
                    == crate::interaction::qualities_of(entries);
            assert(call_ensures(A::variance, (kernel, &given), v));
        }
    }
    v
}

/// The combination of the figures of a node that its trust is capped from,
/// by the kernel.
pub fn trust_base<A: Arithmetic>(kernel: &A, node: &Node) -> (base: Score)
    requires
        node.wf(),
    ensures
        based(kernel, *node, base),
{
    let weighted = |qualities: &Vec<Score>, volumes: &Vec<u32>| -> (r: Score)
        ensures
            call_ensures(A::weighted_quality, (kernel, qualities, volumes), r),
        { kernel.weighted_quality(qualities, volumes) };
    let quality = node.aggregate_capability_quality(&weighted);
    let mean = |given: &Vec<Real>| -> (r: Real)
        ensures
            call_ensures(A::mean_real, (kernel, given), r),
        { kernel.mean_real(given) };
    let stats = node.connection_stats(&mean);
    let base = kernel.trust_base(
        quality,
        stats.mean_reciprocity,
        stats.mean_quality,
        node.diversity_hundredths(),
    );
    proof {
        let capabilities = node.capabilities.values();
        assert(Node::aggregated(capabilities, weighted, quality));
        if !Node::unused(capabilities, capabilities.len() as int) {
            let (qualities, volumes) = choose|qualities: Vec<Score>, volumes: Vec<u32>| #[trigger]
                call_ensures(weighted, (&qualities, &volumes), quality) && qualities@
                    == Node::qualities_held(capabilities) && volumes@ == Node::volumes_held(
                    capabilities,
                );
            assert(call_ensures(A::weighted_quality, (kernel, &qualities, &volumes), quality));
        }
        assert(aggregated_by(kernel, capabilities, quality));
        let connections = node.connections.values();
        if connections.len() > 0 {
            assert(averaged(connections, mean, stats));
            let w = choose|given: Vec<Real>| #[trigger]
                call_ensures(mean, (&given,), stats.mean_weight) && weights_of(connections, given@);
            assert(call_ensures(A::mean_real, (kernel, &w), stats.mean_weight));
            let r = choose|given: Vec<Real>| #[trigger]
                call_ensures(mean, (&given,), stats.mean_reciprocity) && given@
                    == reciprocities_of(connections);
            assert(call_ensures(A::mean_real, (kernel, &r), stats.mean_reciprocity));
            let q = choose|given: Vec<Real>| #[trigger]
                call_ensures(mean, (&given,), stats.mean_quality) && qualities_of(
                    connections,
                    given@,
                );
            assert(call_ensures(A::mean_real, (kernel, &q), stats.mean_quality));
        }
        assert(averaged_by(kernel, connections, stats));
        assert(combined(kernel, *node, quality, stats, base));
    }
    base
}

} // verus!
