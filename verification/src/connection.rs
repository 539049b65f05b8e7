//! The relationship of one node to one partner.
//!
//! A connection holds the weight of the relationship and the running
//! measures from which the weight evolves. The values that an exchange
//! leaves behind are worked out in real arithmetic by the caller; the
//! connection records them, and its types keep each of them in its interval:
//! a weight never leaves the range from the smallest weight to one.

use vstd::prelude::*;
use crate::scalar::{bump, bumped, HALF_BITS, ONE_BITS, W_INIT_BITS, W_MIN_BITS};
use crate::table::Table;
use crate::types::{CapabilityId, NodeId, Real, Score, SignedScore, Timestamp, Weight};

verus! {

/// The measures of a connection after an exchange.
#[derive(Clone, Copy, Debug)]
pub struct Dynamics {
    /// The reciprocity.
    pub r: Real,
    /// The quality average.
    pub q: Score,
    /// The tone average.
    pub tau: SignedScore,
    /// The weight.
    pub w: Weight,
}

impl Dynamics {
    /// The measures of a connection over which nothing has gone yet.
    pub fn fresh() -> (d: Self)
        ensures
            d.r.0 == 0,
            d.q.rank() == HALF_BITS,
            d.tau.rank() == 0,
            d.w.rank() == W_INIT_BITS,
    {
        Self { r: Real::zero(), q: Score::half(), tau: SignedScore::zero(), w: Weight::init() }
    }
}

/// A connection of a node to a partner.
#[derive(Debug)]
pub struct Connection {
    /// The partner.
    pub partner_id: NodeId,
    /// The weight of the connection.
    pub w: Weight,
    /// The reciprocity: positive when this node receives more than it gives.
    pub r: Real,
    /// The quality of the partner's work, as a moving average.
    pub q: Score,
    /// The same average for each capability that was used.
    pub capability_qualities: Table<CapabilityId, Score>,
    /// The tone of the exchanges, as a moving average.
    pub tau: SignedScore,
    /// The alertness towards the partner.
    pub pi: Score,
    /// When the connection was last used.
    pub last_active: Timestamp,
    /// How many exchanges went over the connection.
    pub count: u32,
}

/// What a connection holds, as plain values.
pub struct ConnectionView {
    pub partner_id: NodeId,
    pub w: Weight,
    pub r: Real,
    pub q: Score,
    pub capability_qualities: Map<CapabilityId, Score>,
    pub tau: SignedScore,
    pub pi: Score,
    pub last_active: Timestamp,
    pub count: u32,
}

impl ConnectionView {
    /// Whether this is a connection to `partner_id` over which nothing has
    /// gone yet: of neutral reciprocity and tone, quality one half, no
    /// alertness, and last active at `now`.
    pub open spec fn is_fresh(self, partner_id: NodeId, now: Timestamp) -> bool {
        &&& self.partner_id == partner_id
        &&& self.r.0 == 0
        &&& self.q.rank() == HALF_BITS
        &&& self.capability_qualities == Map::<CapabilityId, Score>::empty()
        &&& self.tau.rank() == 0
        &&& self.pi.rank() == 0
        &&& self.last_active == now
        &&& self.count == 0
    }

    /// The connection after one more exchange at the time `now`, which left
    /// it with the given measures.
    pub open spec fn after_exchange(self, after: Dynamics, now: Timestamp) -> ConnectionView {
        ConnectionView {
            r: after.r,
            q: after.q,
            tau: after.tau,
            w: after.w,
            last_active: now,
            count: bumped(self.count),
            ..self
        }
    }

    /// The connection with `quality` kept as the average of a capability.
    pub open spec fn with_capability_quality(
        self,
        capability: CapabilityId,
        quality: Score,
    ) -> ConnectionView {
        ConnectionView {
            capability_qualities: self.capability_qualities.insert(capability, quality),
            ..self
        }
    }
}

impl View for Connection {
    type V = ConnectionView;

    open spec fn view(&self) -> ConnectionView {
        ConnectionView {
            partner_id: self.partner_id,
            w: self.w,
            r: self.r,
            q: self.q,
            capability_qualities: self.capability_qualities.view_map(),
            tau: self.tau,
            pi: self.pi,
            last_active: self.last_active,
            count: self.count,
        }
    }
}

impl Connection {
    /// No capability has two quality averages.
    pub open spec fn wf(&self) -> bool {
        self.capability_qualities.wf()
    }

    /// The quality average of a capability: the one that is kept for it, and
    /// the overall one where none is kept.
    pub open spec fn quality_for(&self, capability: CapabilityId) -> Score {
        if self.capability_qualities.has(capability) {
            self.capability_qualities.at(capability)
        } else {
            self.q
        }
    }

    /// A fresh connection to `partner_id`, last active at `now`: of initial
    /// weight, neutral reciprocity and tone, quality one half, no alertness
    /// and no exchange.
    pub fn new(partner_id: NodeId, now: Timestamp) -> (c: Self)
        ensures
            c.wf(),
            c@.is_fresh(partner_id, now),
            c.w.rank() == W_INIT_BITS,
    {
        Self::with_weight(partner_id, Weight::init(), now)
    }

    /// A fresh connection to `partner_id` of the given weight.
    pub fn with_weight(partner_id: NodeId, weight: Weight, now: Timestamp) -> (c: Self)
        ensures
            c.wf(),
            c@.is_fresh(partner_id, now),
            c.w == weight,
    {
        Self {
            partner_id,
            w: weight,
            r: Real::zero(),
            q: Score::half(),
            capability_qualities: Table::new(),
            tau: SignedScore::zero(),
            pi: Score::zero(),
            last_active: now,
            count: 0,
        }
    }

    /// The quality average of a capability, which is the overall average
    /// where none is kept for the capability.
    pub fn capability_quality(&self, capability: CapabilityId) -> (q: Score)
        requires
            self.wf(),
        ensures
            q == self.quality_for(capability),
    {
        match self.capability_qualities.get(&capability) {
            Some(q) => *q,
            None => self.q,
        }
    }

    /// The quality average that the next observation of a capability builds
    /// on: the one that is kept for it, and one half where none is kept.
    pub fn capability_quality_basis(&self, capability: CapabilityId) -> (q: Score)
        requires
            self.wf(),
        ensures
            self.capability_qualities.has(capability) ==> q == self.capability_qualities.at(
                capability,
            ),
            !self.capability_qualities.has(capability) ==> q.rank() == HALF_BITS,
    {
        match self.capability_qualities.get(&capability) {
            Some(q) => *q,
            None => Score::half(),
        }
    }

    /// Keeps `quality` as the quality average of a capability.
    pub fn update_capability_quality(&mut self, capability: CapabilityId, quality: Score)
        requires
            old(self).wf(),
        ensures
            final(self).wf(),
            final(self)@ == old(self)@.with_capability_quality(capability, quality),
            final(self).quality_for(capability) == quality,
    {
        self.capability_qualities.insert(capability, quality);
    }

    /// Records one exchange at the time `now`, which leaves the connection
    /// with the given measures.
    pub fn process_interaction(&mut self, after: Dynamics, now: Timestamp)
        ensures
            final(self)@ == old(self)@.after_exchange(after, now),
            final(self).count == bumped(old(self).count),
            final(self).capability_qualities == old(self).capability_qualities,
            old(self).wf() ==> final(self).wf(),
    {
        self.r = after.r;
        self.q = after.q;
        self.tau = after.tau;
        self.w = after.w;
        self.last_active = now;
        self.count = bump(self.count);
    }

    /// The weight of the connection. Whatever has gone over the connection,
    /// it lies between the smallest weight and one.
    pub fn weight(&self) -> (w: Real)
        ensures
            w.rank() == self.w.rank(),
            W_MIN_BITS <= w.rank() <= ONE_BITS,
    {
        self.w.value()
    }

    /// The measures of the connection at present.
    pub fn measures(&self) -> (d: Dynamics)
        ensures
            d.r == self.r,
            d.q == self.q,
            d.tau == self.tau,
            d.w == self.w,
    {
        Dynamics { r: self.r, q: self.q, tau: self.tau, w: self.w }
    }

    /// Whether, at the time `now`, the connection was last used more than
    /// `threshold_ms` milliseconds ago.
    pub fn is_idle(&self, threshold_ms: u64, now: Timestamp) -> (r: bool)
        ensures
            r == (self.last_active.age_at(now) > threshold_ms),
    {
        self.last_active.is_older_at(now, threshold_ms)
    }
}

/// Figures on the connections of a node.
#[derive(Clone, Copy, Debug)]
pub struct ConnectionStats {
    /// The number of connections.
    pub count: usize,
    /// The mean weight.
    pub mean_weight: Real,
    /// The mean reciprocity.
    pub mean_reciprocity: Real,
    /// The mean quality.
    pub mean_quality: Real,
    /// The number of exchanges that went over the connections.
    pub total_interactions: u32,
}

/// Whether `given` are the weights of the connections, in their order.
pub open spec fn weights_of(connections: Seq<Connection>, given: Seq<Real>) -> bool {
    &&& given.len() == connections.len()
    &&& forall|i: int| 0 <= i < given.len() ==> (#[trigger] given[i]).0 == connections[i].w.rank()
}

/// Whether `given` are the quality averages of the connections, in their
/// order.
pub open spec fn qualities_of(connections: Seq<Connection>, given: Seq<Real>) -> bool {
    &&& given.len() == connections.len()
    &&& forall|i: int| 0 <= i < given.len() ==> (#[trigger] given[i]).0 == connections[i].q.rank()
}

/// The reciprocities of the connections, in their order.
pub open spec fn reciprocities_of(connections: Seq<Connection>) -> Seq<Real> {
    connections.map_values(|c: Connection| c.r)
}

/// The number of exchanges that went over the first `upto` connections. A
/// number that has reached the largest that can be held stays there.
pub open spec fn exchanges_over(connections: Seq<Connection>, upto: int) -> u32
    decreases upto,
{
    if upto <= 0 {
        0
    } else {
        let before = exchanges_over(connections, upto - 1);
        let held = connections[upto - 1].count;
        if before + held > u32::MAX {
            u32::MAX
        } else {
            (before + held) as u32
        }
    }
}

/// Whether the means of `stats` are what `mean` gives for the weights, the
/// reciprocities and the quality averages of the connections.
pub open spec fn averaged<M: Fn(&Vec<Real>) -> Real>(
    connections: Seq<Connection>,
    mean: M,
    stats: ConnectionStats,
) -> bool {
    &&& exists|given: Vec<Real>| #[trigger]
        call_ensures(mean, (&given,), stats.mean_weight) && weights_of(connections, given@)
    &&& exists|given: Vec<Real>| #[trigger]
        call_ensures(mean, (&given,), stats.mean_reciprocity) && given@ == reciprocities_of(
            connections,
        )
    &&& exists|given: Vec<Real>| #[trigger]
        call_ensures(mean, (&given,), stats.mean_quality) && qualities_of(connections, given@)
}

impl ConnectionStats {
    /// The figures of no connections: all zero.
    pub fn empty() -> (stats: Self)
        ensures
            stats.count == 0,
            stats.mean_weight.0 == 0,
            stats.mean_reciprocity.0 == 0,
            stats.mean_quality.0 == 0,
            stats.total_interactions == 0,
    {
        Self {
            count: 0,
            mean_weight: Real::zero(),
            mean_reciprocity: Real::zero(),
            mean_quality: Real::zero(),
            total_interactions: 0,
        }
    }

    /// The figures of the connections of a table. Each mean is what `mean`
    /// gives, for the weights, the reciprocities and the quality averages in
    /// turn; without connections every figure is zero.
    pub fn from_connections<M: Fn(&Vec<Real>) -> Real>(
        connections: &Table<NodeId, Connection>,
        mean: &M,
    ) -> (stats: Self)
        requires
            connections.wf(),
            forall|given: &Vec<Real>| call_requires(*mean, (given,)),
        ensures
            stats.count == connections.keys().len(),
            stats.total_interactions == exchanges_over(
                connections.values(),
                connections.values().len() as int,
            ),
            stats.count == 0 ==> stats.mean_weight.0 == 0 && stats.mean_reciprocity.0 == 0
                && stats.mean_quality.0 == 0,
            stats.count > 0 ==> averaged(connections.values(), *mean, stats),
    {
        let n = connections.len();
        if n == 0 {
            return Self::empty();
        }
        let mut weights: Vec<Real> = Vec::new();
        let mut reciprocities: Vec<Real> = Vec::new();
        let mut qualities: Vec<Real> = Vec::new();
        let mut total: u32 = 0;
        let mut i: usize = 0;
        while i < n
            invariant
                i <= n,
                n == connections.keys().len(),
                connections.wf(),
                weights_of(connections.values().take(i as int), weights@),
                reciprocities@ == reciprocities_of(connections.values().take(i as int)),
                qualities_of(connections.values().take(i as int), qualities@),
                total == exchanges_over(connections.values(), i as int),
            decreases n - i,
        {
            let c = connections.value_at(i);
            weights.push(c.w.value());
            reciprocities.push(c.r);
            qualities.push(c.q.value());
            total = if c.count > u32::MAX - total {
                u32::MAX
            } else {
                total + c.count
            };
            proof {
                assert(reciprocities@ =~= reciprocities_of(
                    connections.values().take(i as int + 1),
                ));
            }
            i += 1;
        }
        assert(connections.values().take(n as int) =~= connections.values());
        let mean_weight = mean(&weights);
        let mean_reciprocity = mean(&reciprocities);
        let mean_quality = mean(&qualities);
        let stats = Self {
            count: n,
            mean_weight,
            mean_reciprocity,
            mean_quality,
            total_interactions: total,
        };
        proof {
            assert(call_ensures(*mean, (&weights,), stats.mean_weight) && weights_of(
                connections.values(),
                weights@,
            ));
            assert(call_ensures(*mean, (&reciprocities,), stats.mean_reciprocity) && reciprocities@
                == reciprocities_of(connections.values()));
            assert(call_ensures(*mean, (&qualities,), stats.mean_quality) && qualities_of(
                connections.values(),
                qualities@,
            ));
        }
        stats
    }
}

impl Default for ConnectionStats {
    /// The figures of no connections.
    fn default() -> (stats: Self)
        ensures
            stats.count == 0,
            stats.total_interactions == 0,
    {
        Self::empty()
    }
}

} // verus!
