//! What the simulation records of a run.

use vstd::prelude::*;
use crate::table::{Key, Table};
use crate::trust::{spans, count_beyond, TrustMetrics};
use crate::constants::{HIGH_TRUST, LOW_TRUST};
use crate::types::{comes_before, NodeId, Real, Score};

verus! {

/// The trust in the nodes of the network at one tick.
#[derive(Clone, Copy, Debug)]
pub struct TrustSnapshot {
    /// The tick.
    pub tick: u64,
    /// The mean trust.
    pub mean: Real,
    /// The standard deviation of the trust.
    pub std_dev: Real,
    /// The least trust.
    pub min: Real,
    /// The greatest trust.
    pub max: Real,
    /// The number of nodes whose trust is above the mark for high trust.
    pub high_trust_count: usize,
    /// The number of nodes whose trust is below the mark for low trust.
    pub low_trust_count: usize,
}

/// The detection of an adversary.
#[derive(Debug)]
pub struct DetectionEvent {
    /// The tick.
    pub tick: u64,
    /// The node that was detected.
    pub node_id: NodeId,
    /// What it is suspected of.
    pub threat_type: String,
    /// How sure the detector is.
    pub confidence: Score,
}

/// Two nodes, the one that comes first in the order of identifiers first.
#[derive(Clone, Copy, Debug)]
pub struct NodePair(pub NodeId, pub NodeId);

impl Key for NodePair {
    fn same(&self, other: &Self) -> (r: bool) {
        self.0.same_as(&other.0) && self.1.same_as(&other.1)
    }
}

/// The pair of two nodes.
pub open spec fn pair_of(a: NodeId, b: NodeId) -> NodePair {
    if comes_before(a@, b@) {
        NodePair(a, b)
    } else {
        NodePair(b, a)
    }
}

/// A count with one more counted. A count that has reached the largest
/// number that it can hold stays there.
pub open spec fn counted(count: u64) -> u64 {
    if count < u64::MAX {
        (count + 1) as u64
    } else {
        count
    }
}

/// The sum of the first `upto` counts. A sum that has reached the largest
/// number that it can hold stays there.
pub open spec fn total_of(counts: Seq<u64>, upto: int) -> u64
    decreases upto,
{
    if upto <= 0 {
        0
    } else {
        let before = total_of(counts, upto - 1);
        if before + counts[upto - 1] > u64::MAX {
            u64::MAX
        } else {
            (before + counts[upto - 1]) as u64
        }
    }
}

/// What the simulation has recorded.
#[derive(Debug)]
pub struct MetricsCollector {
    /// The trust in the network, tick by tick.
    pub trust_history: Vec<TrustSnapshot>,
    /// The number of exchanges of each pair of nodes.
    pub interaction_counts: Table<NodePair, u64>,
    /// The qualities of the exchanges that each node began.
    pub quality_history: Table<NodeId, Vec<Score>>,
    /// The detections.
    pub detection_events: Vec<DetectionEvent>,
}

/// A summary of a run.
#[derive(Clone, Copy, Debug)]
pub struct MetricsSummary {
    /// The number of ticks of which the trust was recorded.
    pub total_ticks: u64,
    /// The number of exchanges.
    pub total_interactions: u64,
    /// The mean trust at the last tick.
    pub final_mean_trust: Real,
    /// How far the trust came together in the second half of the run.
    pub trust_convergence: Real,
    /// The number of detections.
    pub detection_count: usize,
}

impl MetricsCollector {
    /// The tables are well formed.
    pub open spec fn wf(&self) -> bool {
        self.interaction_counts.wf() && self.quality_history.wf()
    }

    /// A collector that has recorded nothing.
    pub fn new() -> (m: Self)
        ensures
            m.wf(),
            m.trust_history@.len() == 0,
            m.interaction_counts.keys().len() == 0,
            m.quality_history.keys().len() == 0,
            m.detection_events@.len() == 0,
    {
        Self {
            trust_history: Vec::new(),
            interaction_counts: Table::new(),
            quality_history: Table::new(),
            detection_events: Vec::new(),
        }
    }

    /// Whether `later` is the collector `earlier` after the trust in the nodes
    /// at a tick was recorded (see `record_trust_distribution`).
    pub open spec fn distribution_recorded(
        earlier: MetricsCollector,
        later: MetricsCollector,
        tick: u64,
        trusts: Seq<Score>,
        mean: Real,
        std_dev: Real,
    ) -> bool {
        &&& trusts.len() == 0 ==> later == earlier
        &&& trusts.len() > 0 ==> {
            &&& later.trust_history@.len() == earlier.trust_history@.len() + 1
            &&& later.trust_history@.drop_last() == earlier.trust_history@
            &&& {
                let snapshot = later.trust_history@.last();
                &&& snapshot.tick == tick
                &&& snapshot.mean == mean
                &&& snapshot.std_dev == std_dev
                &&& spans(trusts, snapshot.min, snapshot.max)
                &&& snapshot.high_trust_count == count_beyond(
                    trusts,
                    HIGH_TRUST,
                    true,
                    trusts.len() as int,
                )
                &&& snapshot.low_trust_count == count_beyond(
                    trusts,
                    LOW_TRUST,
                    false,
                    trusts.len() as int,
                )
            }
            &&& later == (MetricsCollector {
                trust_history: later.trust_history,
                ..earlier
            })
        }
    }

    /// Records the trust in the nodes at a tick, of which the caller gives
    /// the mean and the standard deviation. Without nodes nothing is
    /// recorded.
    pub fn record_trust_distribution(&mut self, tick: u64, trusts: &Vec<Score>, mean: Real, std_dev: Real)
        ensures
            trusts@.len() == 0 ==> *final(self) == *old(self),
            trusts@.len() > 0 ==> {
                &&& final(self).trust_history@.len() == old(self).trust_history@.len() + 1
                &&& final(self).trust_history@.drop_last() == old(self).trust_history@
                &&& {
                    let snapshot = final(self).trust_history@.last();
                    &&& snapshot.tick == tick
                    &&& snapshot.mean == mean
                    &&& snapshot.std_dev == std_dev
                    &&& spans(trusts@, snapshot.min, snapshot.max)
                    &&& snapshot.high_trust_count == count_beyond(
                        trusts@,
                        HIGH_TRUST,
                        true,
                        trusts@.len() as int,
                    )
                    &&& snapshot.low_trust_count == count_beyond(
                        trusts@,
                        LOW_TRUST,
                        false,
                        trusts@.len() as int,
                    )
                }
                &&& *final(self) == (MetricsCollector {
                    trust_history: final(self).trust_history,
                    ..*old(self)
                })
            },
            Self::distribution_recorded(*old(self), *final(self), tick, trusts@, mean, std_dev),
    {
        if trusts.len() == 0 {
            return ;
        }
        let figures = TrustMetrics::from_scores(trusts, mean, std_dev);
        self.trust_history.push(
            TrustSnapshot {
                tick,
                mean,
                std_dev,
                min: figures.min_trust,
                max: figures.max_trust,
                high_trust_count: figures.high_trust_count,
                low_trust_count: figures.low_trust_count,
            },
        );
        assert(self.trust_history@.drop_last() =~= old(self).trust_history@);
    }

    /// Whether `later` is the collector `earlier` after an exchange that `from`
    /// began with `to` was recorded (see `record_interaction`).
    pub open spec fn exchange_recorded(
        earlier: MetricsCollector,
        later: MetricsCollector,
        from: NodeId,
        to: NodeId,
        quality: Score,
    ) -> bool {
        &&& later.wf()
        &&& later.interaction_counts.has(pair_of(from, to))
        &&& later.interaction_counts.at(pair_of(from, to)) == if earlier.interaction_counts.has(pair_of(from, to)) {
            counted(earlier.interaction_counts.at(pair_of(from, to)))
        } else {
            1
        }
        &&& forall|other: NodePair|
            other != pair_of(from, to) ==> later.interaction_counts.has(other) == earlier.interaction_counts.has(other)
        &&& forall|other: NodePair|
            other != pair_of(from, to) && earlier.interaction_counts.has(other) ==> later.interaction_counts.at(other) == earlier.interaction_counts.at(other)
        &&& later.quality_history.has(from)
        &&& later.quality_history.at(from)@ == if earlier.quality_history.has(from) {
            earlier.quality_history.at(from)@.push(quality)
        } else {
            seq![quality]
        }
        &&& forall|other: NodeId|
            other != from ==> later.quality_history.has(other) == earlier.quality_history.has(other)
        &&& forall|other: NodeId|
            other != from && earlier.quality_history.has(other) ==> later.quality_history.at(other) == earlier.quality_history.at(other)
        &&& later.trust_history == earlier.trust_history
        &&& later.detection_events == earlier.detection_events
    }

    /// Records an exchange that `from` began with `to`: one exchange more
    /// for the pair, and the quality for the node that began it.
    pub fn record_interaction(&mut self, from: NodeId, to: NodeId, quality: Score)
        requires
            old(self).wf(),
        ensures
            final(self).wf(),
            final(self).interaction_counts.has(pair_of(from, to)),
            final(self).interaction_counts.at(pair_of(from, to)) == if old(self).interaction_counts.has(pair_of(from, to)) {
                counted(old(self).interaction_counts.at(pair_of(from, to)))
            } else {
                1
            },
            forall|other: NodePair|
                other != pair_of(from, to) ==> final(self).interaction_counts.has(other) == old(self).interaction_counts.has(other),
            forall|other: NodePair|
                other != pair_of(from, to) && old(self).interaction_counts.has(other) ==> final(self).interaction_counts.at(other) == old(self).interaction_counts.at(other),
            final(self).quality_history.has(from),
            final(self).quality_history.at(from)@ == if old(self).quality_history.has(from) {
                old(self).quality_history.at(from)@.push(quality)
            } else {
                seq![quality]
            },
            forall|other: NodeId|
                other != from ==> final(self).quality_history.has(other) == old(self).quality_history.has(other),
            forall|other: NodeId|
                other != from && old(self).quality_history.has(other) ==> final(self).quality_history.at(other) == old(self).quality_history.at(other),
            final(self).trust_history == old(self).trust_history,
            final(self).detection_events == old(self).detection_events,
            Self::exchange_recorded(*old(self), *final(self), from, to, quality),
    {
        let key = if from.precedes(&to) {
            NodePair(from, to)
        } else {
            NodePair(to, from)
        };
        let count = match self.interaction_counts.get(&key) {
            Some(c) => if *c < u64::MAX {
                *c + 1
            } else {
                *c
            },
            None => 1,
        };
        self.interaction_counts.insert(key, count);
        let at = match self.quality_history.position(&from) {
            Some(i) => i,
            None => {
                let i = self.quality_history.len();
                self.quality_history.insert(from, Vec::new());
                proof {
                    self.quality_history.lemma_place(i as int);
                }
                i
            },
        };
        proof {
            self.quality_history.lemma_place(at as int);
        }
        let qualities = self.quality_history.value_at_mut(at);
        qualities.push(quality);
    }

    /// Records a detection.
    pub fn record_detection(&mut self, tick: u64, node_id: NodeId, threat_type: &str, confidence: Score)
        ensures
            final(self).detection_events@.len() == old(self).detection_events@.len() + 1,
            final(self).detection_events@.drop_last() == old(self).detection_events@,
            final(self).detection_events@.last().tick == tick,
            final(self).detection_events@.last().node_id == node_id,
            final(self).detection_events@.last().threat_type@ == threat_type@,
            final(self).detection_events@.last().confidence == confidence,
            *final(self) == (MetricsCollector {
                detection_events: final(self).detection_events,
                ..*old(self)
            }),
    {
        self.detection_events.push(
            DetectionEvent { tick, node_id, threat_type: threat_type.to_owned(), confidence },
        );
        assert(self.detection_events@.drop_last() =~= old(self).detection_events@);
    }

    /// Whether `s` is the summary of what was recorded, with the given figure
    /// of how far the trust came together (see `summary`).
    pub open spec fn summed(&self, trust_convergence: Real, s: MetricsSummary) -> bool {
        &&& s.total_ticks == self.trust_history@.len()
        &&& s.total_interactions == total_of(
            self.interaction_counts.values(),
            self.interaction_counts.values().len() as int,
        )
        &&& s.final_mean_trust == if self.trust_history@.len() > 0 {
            self.trust_history@.last().mean
        } else {
            Real(0)
        }
        &&& s.trust_convergence == trust_convergence
        &&& s.detection_count == self.detection_events@.len()
    }

    /// The summary of what was recorded. The caller gives how far the trust
    /// came together.
    pub fn summary(&self, trust_convergence: Real) -> (s: MetricsSummary)
        requires
            self.wf(),
        ensures
            s.total_ticks == self.trust_history@.len(),
            s.total_interactions == total_of(
                self.interaction_counts.values(),
                self.interaction_counts.values().len() as int,
            ),
            s.final_mean_trust == if self.trust_history@.len() > 0 {
                self.trust_history@.last().mean
            } else {
                Real(0)
            },
            s.trust_convergence == trust_convergence,
            s.detection_count == self.detection_events@.len(),
            self.summed(trust_convergence, s),
    {
        let mut total: u64 = 0;
        let n = self.interaction_counts.len();
        let mut i: usize = 0;
        while i < n
            invariant
                i <= n,
                n == self.interaction_counts.keys().len(),
                self.interaction_counts.wf(),
                total == total_of(self.interaction_counts.values(), i as int),
            decreases n - i,
        {
            let c = *self.interaction_counts.value_at(i);
            total = if c > u64::MAX - total {
                u64::MAX
            } else {
                total + c
            };
            i += 1;
        }
        let final_mean_trust = if self.trust_history.len() > 0 {
            self.trust_history[self.trust_history.len() - 1].mean
        } else {
            Real::zero()
        };
        MetricsSummary {
            total_ticks: self.trust_history.len() as u64,
            total_interactions: total,
            final_mean_trust,
            trust_convergence,
            detection_count: self.detection_events.len(),
        }
    }
}

impl Default for MetricsCollector {
    /// A collector that has recorded nothing.
    fn default() -> (m: Self)
        ensures
            m.wf(),
            m.trust_history@.len() == 0,
            m.detection_events@.len() == 0,
    {
        Self::new()
    }
}

} // verus!
