//! What is observed of one exchange between two nodes, and the bounded
//! history of such observations that a node keeps.

use vstd::prelude::*;
use vstd::slice::slice_subrange;
use crate::scalar::{HALF_BITS, ONE_BITS};
use crate::types::{CapabilityId, NodeId, Real, Score, SignedScore, Timestamp};

verus! {

/// One exchange between two nodes.
#[derive(Clone, Copy, Debug)]
pub struct Interaction {
    /// The node that began the exchange.
    pub initiator: NodeId,
    /// The node that answered.
    pub responder: NodeId,
    /// The amount of work.
    pub volume: Real,
    /// The capability that was used, if one was.
    pub capability: Option<CapabilityId>,
    /// The quality that was measured.
    pub quality: Score,
    /// The tone that was measured.
    pub tone: SignedScore,
    /// The value that the initiator received.
    pub exchange_in: Real,
    /// The value that the initiator gave.
    pub exchange_out: Real,
    /// When the exchange took place.
    pub timestamp: Timestamp,
}

impl Interaction {
    /// An exchange at the time `now` of volume one, of quality one half, of
    /// neutral tone, in which one was given and one received, and which used
    /// no capability.
    pub fn new(initiator: NodeId, responder: NodeId, now: Timestamp) -> (i: Self)
        ensures
            i.initiator == initiator,
            i.responder == responder,
            i.volume.0 == ONE_BITS,
            i.capability.is_none(),
            i.quality.rank() == HALF_BITS,
            i.tone.rank() == 0,
            i.exchange_in.0 == ONE_BITS,
            i.exchange_out.0 == ONE_BITS,
            i.timestamp == now,
    {
        Self {
            initiator,
            responder,
            volume: Real::one(),
            capability: None,
            quality: Score::half(),
            tone: SignedScore::zero(),
            exchange_in: Real::one(),
            exchange_out: Real::one(),
            timestamp: now,
        }
    }

    /// The same exchange with the given volume.
    pub fn with_volume(self, volume: Real) -> (i: Self)
        ensures
            i == (Interaction { volume, ..self }),
    {
        Self { volume, ..self }
    }

    /// The same exchange with the given capability.
    pub fn with_capability(self, cap: CapabilityId) -> (i: Self)
        ensures
            i == (Interaction { capability: Some(cap), ..self }),
    {
        Self { capability: Some(cap), ..self }
    }

    /// The same exchange with the given quality and tone.
    pub fn with_outcome(self, quality: Score, tone: SignedScore) -> (i: Self)
        ensures
            i == (Interaction { quality, tone, ..self }),
    {
        Self { quality, tone, ..self }
    }

    /// The same exchange with the given values received and given.
    pub fn with_exchange(self, received: Real, given: Real) -> (i: Self)
        ensures
            i == (Interaction { exchange_in: received, exchange_out: given, ..self }),
    {
        Self { exchange_in: received, exchange_out: given, ..self }
    }

    /// An exchange at the time `now` whose quality was worked out from a
    /// user's feedback: of the given volume, of neutral tone, and in which
    /// one was given and one received.
    pub fn from_feedback(
        initiator: NodeId,
        responder: NodeId,
        capability: Option<CapabilityId>,
        quality: Score,
        volume: Real,
        now: Timestamp,
    ) -> (i: Self)
        ensures
            i.initiator == initiator,
            i.responder == responder,
            i.volume == volume,
            i.capability == capability,
            i.quality == quality,
            i.tone.rank() == 0,
            i.exchange_in.0 == ONE_BITS,
            i.exchange_out.0 == ONE_BITS,
            i.timestamp == now,
    {
        Self {
            initiator,
            responder,
            volume,
            capability,
            quality,
            tone: SignedScore::zero(),
            exchange_in: Real::one(),
            exchange_out: Real::one(),
            timestamp: now,
        }
    }
}

/// A rating clamped into the range from one to five.
pub open spec fn clamp_rating(rating: u8) -> u8 {
    if rating < 1 {
        1
    } else if rating > 5 {
        5
    } else {
        rating
    }
}

/// A rating brought onto the scale from one to five.
fn clamped(rating: u8) -> (r: u8)
    ensures
        r == clamp_rating(rating),
{
    if rating < 1 {
        1
    } else if rating > 5 {
        5
    } else {
        rating
    }
}

/// What a user says of an exchange: four ratings from one to five, and
/// whether the user would come back.
#[derive(Clone, Copy, Debug, PartialEq, Eq, Structural)]
pub struct Feedback {
    /// How helpful the answer was.
    pub helpfulness: u8,
    /// How accurate it was.
    pub accuracy: u8,
    /// How relevant it was.
    pub relevance: u8,
    /// How timely it was.
    pub timeliness: u8,
    /// Whether the user would use the service again.
    pub would_reuse: bool,
}

impl Feedback {
    /// Feedback with each rating clamped into the range from one to five.
    pub fn new(helpfulness: u8, accuracy: u8, relevance: u8, timeliness: u8, would_reuse: bool) -> (f:
        Self)
        ensures
            f.helpfulness == clamp_rating(helpfulness),
            f.accuracy == clamp_rating(accuracy),
            f.relevance == clamp_rating(relevance),
            f.timeliness == clamp_rating(timeliness),
            f.would_reuse == would_reuse,
    {
        Self {
            helpfulness: clamped(helpfulness),
            accuracy: clamped(accuracy),
            relevance: clamped(relevance),
            timeliness: clamped(timeliness),
            would_reuse,
        }
    }

    /// The weighted sum of the ratings, in tenths: helpfulness counts four
    /// times, accuracy three times, relevance twice and timeliness once.
    pub open spec fn weighted_ratings(&self) -> int {
        4 * self.helpfulness + 3 * self.accuracy + 2 * self.relevance + self.timeliness
    }

    /// The factor for coming back or not, in tenths: twelve for a user who
    /// would come back, and eight for one who would not.
    pub open spec fn reuse_factor(&self) -> int {
        if self.would_reuse {
            12
        } else {
            8
        }
    }

    /// The quality that the feedback stands for, as a fraction: the
    /// weighted ratings times the factor for coming back, mapped from their
    /// range onto the range from zero to one. The result is the numerator
    /// and the denominator of the quality; for ratings from one to five the
    /// quality lies between zero and one.
    pub fn quality_parts(&self) -> (parts: (u32, u32))
        ensures
            parts.1 == 520,
            parts.0 == if self.weighted_ratings() * self.reuse_factor() >= 80 {
                self.weighted_ratings() * self.reuse_factor() - 80
            } else {
                0
            },
            1 <= self.helpfulness <= 5 && 1 <= self.accuracy <= 5 && 1 <= self.relevance <= 5 && 1
                <= self.timeliness <= 5 ==> parts.0 <= parts.1 && parts.0
                == self.weighted_ratings() * self.reuse_factor() - 80,
    {
        let sum: u32 = 4 * (self.helpfulness as u32) + 3 * (self.accuracy as u32) + 2 * (
        self.relevance as u32) + (self.timeliness as u32);
        let factor: u32 = if self.would_reuse {
            12
        } else {
            8
        };
        let scaled: u32 = sum * factor;
        let numerator = if scaled >= 80 {
            scaled - 80
        } else {
            0
        };
        (numerator, 520)
    }

    /// The best feedback: five for each rating, and the user would come
    /// back.
    pub fn perfect() -> (f: Self)
        ensures
            f == (Feedback {
                helpfulness: 5,
                accuracy: 5,
                relevance: 5,
                timeliness: 5,
                would_reuse: true,
            }),
    {
        Self::new(5, 5, 5, 5, true)
    }

    /// The worst feedback: one for each rating, and the user would not come
    /// back.
    pub fn poor() -> (f: Self)
        ensures
            f == (Feedback {
                helpfulness: 1,
                accuracy: 1,
                relevance: 1,
                timeliness: 1,
                would_reuse: false,
            }),
    {
        Self::new(1, 1, 1, 1, false)
    }

    /// Middling feedback: three for each rating, and the user would not come
    /// back.
    pub fn neutral() -> (f: Self)
        ensures
            f == (Feedback {
                helpfulness: 3,
                accuracy: 3,
                relevance: 3,
                timeliness: 3,
                would_reuse: false,
            }),
    {
        Self::new(3, 3, 3, 3, false)
    }
}

/// The exchanges that a node remembers: the most recent first, and never
/// more than a fixed number of them.
#[derive(Debug)]
pub struct InteractionHistory {
    interactions: Vec<Interaction>,
    max_size: usize,
}

/// The responders of the exchanges in `entries`.
pub open spec fn responders(entries: Seq<Interaction>) -> Seq<NodeId> {
    entries.map_values(|i: Interaction| i.responder)
}

/// The qualities of the exchanges in `entries`.
pub open spec fn qualities_of(entries: Seq<Interaction>) -> Seq<Score> {
    entries.map_values(|i: Interaction| i.quality)
}

/// Whether `q` is the mean quality of the exchanges: one half where there is
/// none, and else what `mean` gives for their qualities.
pub open spec fn mean_quality_of<M: Fn(&Vec<Score>) -> Score>(
    entries: Seq<Interaction>,
    mean: M,
    q: Score,
) -> bool {
    if entries.len() == 0 {
        q.rank() == HALF_BITS
    } else {
        exists|given: Vec<Score>| #[trigger]
            call_ensures(mean, (&given,), q) && given@ == qualities_of(entries)
    }
}

/// Whether `v` is the variance of the quality of the exchanges: zero for
/// fewer than two exchanges, and else what `variance` gives for their
/// qualities.
pub open spec fn quality_variance_of<V: Fn(&Vec<Score>) -> Real>(
    entries: Seq<Interaction>,
    variance: V,
    v: Real,
) -> bool {
    if entries.len() < 2 {
        v.0 == 0
    } else {
        exists|given: Vec<Score>| #[trigger]
            call_ensures(variance, (&given,), v) && given@ == qualities_of(entries)
    }
}

/// The qualities of exchanges, in their order.
pub fn qualities(entries: &[Interaction]) -> (given: Vec<Score>)
    ensures
        given@ == qualities_of(entries@),
{
    let mut given: Vec<Score> = Vec::new();
    let mut i: usize = 0;
    while i < entries.len()
        invariant
            i <= entries.len(),
            given@ == qualities_of(entries@.take(i as int)),
        decreases entries.len() - i,
    {
        given.push(entries[i].quality);
        assert(given@ =~= qualities_of(entries@.take(i as int + 1)));
        i += 1;
    }
    assert(entries@.take(i as int) =~= entries@);
    given
}

impl InteractionHistory {
    /// The remembered exchanges, the most recent first.
    pub closed spec fn entries(&self) -> Seq<Interaction> {
        self.interactions@
    }

    /// The largest number of exchanges that the history keeps.
    pub closed spec fn capacity(&self) -> nat {
        self.max_size as nat
    }

    /// The history never holds more than its capacity.
    pub open spec fn wf(&self) -> bool {
        self.entries().len() <= self.capacity()
    }

    /// The `count` most recent exchanges, or all of them where there are
    /// fewer.
    pub open spec fn latest(&self, count: nat) -> Seq<Interaction> {
        if count < self.entries().len() {
            self.entries().take(count as int)
        } else {
            self.entries()
        }
    }

    /// What the history holds once `interaction` was added to `entries`
    /// under the given capacity: the new exchange in front, and the oldest
    /// one dropped if that made one too many.
    pub open spec fn added(entries: Seq<Interaction>, capacity: nat, interaction: Interaction) -> Seq<
        Interaction,
    > {
        let longer = seq![interaction] + entries;
        if longer.len() > capacity {
            longer.drop_last()
        } else {
            longer
        }
    }

    /// An empty history that keeps a hundred exchanges.
    pub fn new() -> (h: Self)
        ensures
            h.wf(),
            h.entries() == Seq::<Interaction>::empty(),
            h.capacity() == 100,
    {
        Self::with_max_size(100)
    }

    /// An empty history that keeps `max_size` exchanges.
    pub fn with_max_size(max_size: usize) -> (h: Self)
        ensures
            h.wf(),
            h.entries() == Seq::<Interaction>::empty(),
            h.capacity() == max_size,
    {
        Self { interactions: Vec::new(), max_size }
    }

    /// Adds an exchange in front of the others, and drops the oldest one if
    /// the history then holds more than its capacity.
    pub fn add(&mut self, interaction: Interaction)
        ensures
            final(self).capacity() == old(self).capacity(),
            final(self).entries() == Self::added(
                old(self).entries(),
                old(self).capacity(),
                interaction,
            ),
            old(self).wf() ==> final(self).wf(),
    {
        self.interactions.insert(0, interaction);
        assert(self.interactions@ =~= seq![interaction] + old(self).interactions@);
        if self.interactions.len() > self.max_size {
            self.interactions.pop();
        }
    }

    /// The `count` most recent exchanges, the most recent first.
    pub fn recent(&self, count: usize) -> (r: &[Interaction])
        ensures
            r@ == self.latest(count as nat),
    {
        let len = self.interactions.len();
        let end = if count < len {
            count
        } else {
            len
        };
        let r = slice_subrange(self.interactions.as_slice(), 0, end);
        assert(r@ =~= self.latest(count as nat));
        r
    }

    /// All remembered exchanges, the most recent first.
    pub fn all(&self) -> (r: &[Interaction])
        ensures
            r@ == self.entries(),
    {
        self.interactions.as_slice()
    }

    /// The remembered exchanges in two halves: the more recent half, and
    /// the earlier one. With an odd number of exchanges the earlier half is
    /// the longer.
    pub fn halves(&self) -> (r: (&[Interaction], &[Interaction]))
        ensures
            r.0@ == self.entries().take(self.entries().len() as int / 2),
            r.1@ == self.entries().skip(self.entries().len() as int / 2),
    {
        let len = self.interactions.len();
        let mid = len / 2;
        let all = self.interactions.as_slice();
        let recent = slice_subrange(all, 0, mid);
        let early = slice_subrange(all, mid, len);
        assert(recent@ =~= self.entries().take(mid as int));
        assert(early@ =~= self.entries().skip(mid as int));
        (recent, early)
    }

    /// The number of remembered exchanges.
    pub fn len(&self) -> (n: usize)
        ensures
            n == self.entries().len(),
    {
        self.interactions.len()
    }

    /// Whether no exchange is remembered.
    pub fn is_empty(&self) -> (r: bool)
        ensures
            r == (self.entries().len() == 0),
    {
        self.interactions.len() == 0
    }

    /// The largest number of exchanges that the history keeps.
    pub fn max_size(&self) -> (n: usize)
        ensures
            n == self.capacity(),
    {
        self.max_size
    }

    /// The mean quality of the `count` most recent exchanges: one half where
    /// nothing is remembered, and else what `mean` gives for their
    /// qualities.
    pub fn mean_quality<M: Fn(&Vec<Score>) -> Score>(&self, count: usize, mean: &M) -> (q: Score)
        requires
            forall|given: &Vec<Score>| call_requires(*mean, (given,)),
        ensures
            mean_quality_of(self.latest(count as nat), *mean, q),
    {
        let recent = self.recent(count);
        if recent.len() == 0 {
            return Score::half();
        }
        let given = qualities(recent);
        let q = mean(&given);
        assert(call_ensures(*mean, (&given,), q));
        q
    }

    /// The variance of the quality of the `count` most recent exchanges:
    /// zero for fewer than two exchanges, and else what `variance` gives for
    /// their qualities.
    pub fn quality_variance<V: Fn(&Vec<Score>) -> Real>(&self, count: usize, variance: &V) -> (v:
        Real)
        requires
            forall|given: &Vec<Score>| call_requires(*variance, (given,)),
        ensures
            quality_variance_of(self.latest(count as nat), *variance, v),
    {
        let recent = self.recent(count);
        if recent.len() < 2 {
            return Real::zero();
        }
        let given = qualities(recent);
        let v = variance(&given);
        assert(call_ensures(*variance, (&given,), v));
        v
    }

    /// The number of different responders among the `count` most recent
    /// exchanges.
    pub fn unique_partners(&self, count: usize) -> (n: usize)
        ensures
            n == responders(self.latest(count as nat)).to_set().len(),
            n <= count,
            n <= self.entries().len(),
    {
        let recent = self.recent(count);
        let ghost all = responders(recent@);
        let mut seen: Vec<NodeId> = Vec::new();
        let mut i: usize = 0;
        while i < recent.len()
            invariant
                i <= recent.len(),
                all == responders(recent@),
                all.len() == recent@.len(),
                seen@.no_duplicates(),
                seen@.to_set() == all.take(i as int).to_set(),
                seen@.len() <= i,
            decreases recent.len() - i,
        {
            let partner = recent[i].responder;
            let mut found = false;
            let mut j: usize = 0;
            while j < seen.len()
                invariant
                    j <= seen.len(),
                    found == exists|k: int| 0 <= k < j && seen@[k] == partner,
                decreases seen.len() - j,
            {
                if seen[j].same_as(&partner) {
                    found = true;
                }
                j += 1;
            }
            proof {
                let before = all.take(i as int);
                let after = all.take(i as int + 1);
                assert(all[i as int] == partner);
                assert(after =~= before.push(partner));
                before.lemma_push_to_set_commute(partner);
                assert(after.to_set() == before.to_set().insert(partner));
                if found {
                    let k = choose|k: int| 0 <= k < seen@.len() && seen@[k] == partner;
                    assert(seen@.contains(partner));
                    assert(seen@.to_set().contains(partner));
                    assert(before.to_set().insert(partner) =~= before.to_set());
                } else {
                    assert(!seen@.contains(partner));
                    seen@.lemma_push_to_set_commute(partner);
                    assert(seen@.push(partner).no_duplicates());
                }
            }
            if !found {
                seen.push(partner);
            }
            i += 1;
        }
        proof {
            assert(all.take(i as int) =~= all);
            seen@.unique_seq_to_set();
        }
        seen.len()
    }
}

impl Default for InteractionHistory {
    /// An empty history that keeps no exchange at all.
    fn default() -> (h: Self)
        ensures
            h.wf(),
            h.entries() == Seq::<Interaction>::empty(),
            h.capacity() == 0,
    {
        Self::with_max_size(0)
    }
}

} // verus!
