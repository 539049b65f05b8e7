//! Defense signals: how the suspicion of a threat spreads from node to node,
//! and what a node does on hearing of one.

use vstd::prelude::*;
use crate::constants::{
    ACTION_THRESHOLD, AFFIRM_QUALITY, AFFIRM_TONE, MAX_HOPS, MIN_SIGNAL, PROPAGATE_THRESHOLD,
    UNKNOWN_SENDER_WEIGHT,
};
use crate::connection::Connection;
use crate::node::{DefenseState, Node, ThreatType};
use crate::scalar::{rank_of, W_MIN_BITS};
use crate::table::Table;
use crate::types::{NodeId, Real, Score, Signature, Timestamp, Weight};

verus! {

/// The kind of a defense signal.
#[derive(Clone, Copy, Debug, PartialEq, Eq, Structural, Hash)]
pub enum SignalType {
    /// A call to be watchful.
    GeneralAlert,
    /// The naming of one threat.
    SpecificThreat,
    /// A message to the whole network.
    Broadcast,
}

/// A defense signal.
#[derive(Clone, Copy, Debug)]
pub struct DefenseSignal {
    /// The kind of the signal.
    pub signal_type: SignalType,
    /// The node that sent this copy of the signal.
    pub sender: NodeId,
    /// The node that first detected the threat.
    pub origin: NodeId,
    /// The node that is suspected.
    pub threat: NodeId,
    /// What it is suspected of.
    pub threat_type: ThreatType,
    /// How sure the sender is.
    pub confidence: Score,
    /// The digest of the evidence.
    pub evidence: crate::types::Hash,
    /// The number of hops that the signal has made from its origin.
    pub hops: u8,
    /// When this copy of the signal was made.
    pub timestamp: Timestamp,
    /// The signature of the sender.
    pub signature: Signature,
}

impl DefenseSignal {
    /// The signal has made no more than the largest number of hops.
    pub open spec fn wf(&self) -> bool {
        self.hops <= MAX_HOPS
    }

    /// Whether the signal may be passed on at all: its confidence is above
    /// the propagation threshold and it has hops left.
    pub open spec fn may_travel(&self) -> bool {
        self.confidence.rank() > rank_of(PROPAGATE_THRESHOLD) && self.hops < MAX_HOPS
    }

    /// Whether a copy of the signal can go on with the confidence
    /// `attenuated`: that is no less than the smallest signal, and less than
    /// the confidence of this signal.
    pub open spec fn carries(&self, attenuated: Score) -> bool {
        rank_of(MIN_SIGNAL) <= attenuated.rank() < self.confidence.rank()
    }

    /// The copy of this signal that `new_sender` passes on at the time `now`
    /// with the confidence `attenuated`.
    pub open spec fn passed_on(
        &self,
        copy: DefenseSignal,
        new_sender: NodeId,
        attenuated: Score,
        now: Timestamp,
    ) -> bool {
        &&& copy.signal_type == self.signal_type
        &&& copy.sender == new_sender
        &&& copy.origin == self.origin
        &&& copy.threat == self.threat
        &&& copy.threat_type == self.threat_type
        &&& copy.confidence == attenuated
        &&& copy.evidence == self.evidence
        &&& copy.hops == self.hops + 1
        &&& copy.timestamp == now
        &&& copy.signature@ == Seq::new(64, |i: int| 0u8)
    }

    /// The signal by which `origin` names `threat` at the time `now`: it has
    /// made no hop, and its sender is its origin.
    pub fn new(
        origin: NodeId,
        threat: NodeId,
        threat_type: ThreatType,
        confidence: Score,
        evidence: crate::types::Hash,
        now: Timestamp,
    ) -> (s: Self)
        ensures
            s.wf(),
            s.signal_type == SignalType::SpecificThreat,
            s.sender == origin,
            s.origin == origin,
            s.threat == threat,
            s.threat_type == threat_type,
            s.confidence == confidence,
            s.evidence == evidence,
            s.hops == 0,
            s.timestamp == now,
            s.signature@ == Seq::new(64, |i: int| 0u8),
    {
        Self {
            signal_type: SignalType::SpecificThreat,
            sender: origin,
            origin,
            threat,
            threat_type,
            confidence,
            evidence,
            hops: 0,
            timestamp: now,
            signature: Signature::placeholder(),
        }
    }

    /// The copy of the signal that `new_sender` passes on at the time `now`,
    /// if it passes one on.
    ///
    /// The confidence of the copy is `attenuated`: what the hop and the
    /// connection have left of the confidence of this signal. Nothing is
    /// passed on unless the confidence of this signal is above the
    /// propagation threshold, nor when the signal has made the largest number
    /// of hops, when the attenuated confidence is below the smallest signal,
    /// or when it is not less than the confidence of this signal. The copy
    /// has made one hop more, and is less sure than this signal.
    pub fn forward(&self, new_sender: NodeId, attenuated: Score, now: Timestamp) -> (r: Option<Self>)
        ensures
            r.is_some() == (self.may_travel() && self.carries(attenuated)),
            r matches Some(copy) ==> self.passed_on(copy, new_sender, attenuated, now) && copy.wf()
                && copy.confidence.rank() < self.confidence.rank(),
    {
        if !self.confidence.above(PROPAGATE_THRESHOLD) {
            return None;
        }
        if self.hops >= MAX_HOPS {
            return None;
        }
        if attenuated.below(MIN_SIGNAL) || !attenuated.lt(&self.confidence) {
            return None;
        }
        Some(
            Self {
                signal_type: self.signal_type,
                sender: new_sender,
                origin: self.origin,
                threat: self.threat,
                threat_type: self.threat_type,
                confidence: attenuated,
                evidence: self.evidence,
                hops: self.hops + 1,
                timestamp: now,
                signature: Signature::placeholder(),
            },
        )
    }

    /// Whether, at the time `now`, the signal is no older than `max_age_ms`
    /// milliseconds.
    pub fn is_valid(&self, max_age_ms: u64, now: Timestamp) -> (r: bool)
        ensures
            r == (self.timestamp.age_at(now) <= max_age_ms),
    {
        !self.timestamp.is_older_at(now, max_age_ms)
    }
}

/// What an affirmation affirms.
#[derive(Clone, Copy, Debug, PartialEq, Eq, Structural, Hash)]
pub enum AffirmationType {
    /// The quality of work.
    Quality,
    /// Reliability.
    Reliability,
    /// Collaboration.
    Collaboration,
    /// Growth.
    Growth,
}

/// An affirmation: the good counterpart of a defense signal.
#[derive(Clone, Copy, Debug)]
pub struct Affirmation {
    /// The node that affirms.
    pub from: NodeId,
    /// The node that is affirmed.
    pub to: NodeId,
    /// What is affirmed.
    pub affirmation_type: AffirmationType,
    /// How strongly.
    pub strength: Score,
    /// When.
    pub timestamp: Timestamp,
    /// The signature of the affirming node.
    pub signature: Signature,
}

impl Affirmation {
    /// An affirmation at the time `now`.
    pub fn new(
        from: NodeId,
        to: NodeId,
        affirmation_type: AffirmationType,
        strength: Score,
        now: Timestamp,
    ) -> (a: Self)
        ensures
            a.from == from,
            a.to == to,
            a.affirmation_type == affirmation_type,
            a.strength == strength,
            a.timestamp == now,
            a.signature@ == Seq::new(64, |i: int| 0u8),
    {
        Self {
            from,
            to,
            affirmation_type,
            strength,
            timestamp: now,
            signature: Signature::placeholder(),
        }
    }
}

/// What came of a defense signal at a node.
#[derive(Clone, Copy, Debug)]
pub enum SignalResult {
    /// The node ignored the signal.
    Ignored,
    /// The node took the signal in.
    Processed {
        /// The belief of the node about the threat, after the signal.
        new_threat_level: Score,
        /// By how much the alertness of the node was raised.
        priming_boost: Real,
    },
}

/// What a signal does to the figures of the node that takes it in.
#[derive(Clone, Copy, Debug)]
pub struct SignalEffect {
    /// Where the signal puts the belief about the threat.
    pub belief: Score,
    /// Where the signal puts the alertness of the node.
    pub priming: Score,
    /// By how much that raises the alertness.
    pub boost: Real,
}

/// Whether a signal is not passed on to `partner`: the partner is its
/// sender, its origin, or the threat that it names.
pub open spec fn is_bypassed(signal: DefenseSignal, partner: NodeId) -> bool {
    partner == signal.sender || partner == signal.origin || partner == signal.threat
}

/// Whether `out` are the copies of a signal that a node passes on over the
/// first `upto` of its connections, in the order of the connections.
///
/// No copy goes to the sender, the origin or the threat. Over each other
/// connection goes the copy whose confidence is what `attenuate` gives for
/// the confidence of the signal and the weight of the connection, unless
/// that is below the smallest signal or not less than the confidence of the
/// signal.
pub open spec fn propagated<F: Fn(Score, Weight) -> Score>(
    connections: Table<NodeId, Connection>,
    signal: DefenseSignal,
    node_id: NodeId,
    attenuate: F,
    now: Timestamp,
    upto: int,
    out: Seq<DefenseSignal>,
) -> bool
    decreases upto,
{
    if upto <= 0 {
        out.len() == 0
    } else if is_bypassed(signal, connections.keys()[upto - 1]) {
        propagated(connections, signal, node_id, attenuate, now, upto - 1, out)
    } else {
        exists|attenuated: Score| #[trigger]
            call_ensures(attenuate, (signal.confidence, connections.values()[upto - 1].w), attenuated)
                && if signal.carries(attenuated) {
                &&& out.len() > 0
                &&& signal.passed_on(out.last(), node_id, attenuated, now)
                &&& propagated(
                    connections,
                    signal,
                    node_id,
                    attenuate,
                    now,
                    upto - 1,
                    out.drop_last(),
                )
            } else {
                propagated(connections, signal, node_id, attenuate, now, upto - 1, out)
            }
    }
}

/// Every copy of a signal that is passed on has made one hop more than the
/// signal, and no more than the largest number of hops; it names the same
/// origin and the same threat, its sender is the node that passed it on, and
/// it is less sure than the signal.
pub proof fn lemma_propagated_hops<F: Fn(Score, Weight) -> Score>(
    connections: Table<NodeId, Connection>,
    signal: DefenseSignal,
    node_id: NodeId,
    attenuate: F,
    now: Timestamp,
    upto: int,
    out: Seq<DefenseSignal>,
)
    requires
        signal.hops < MAX_HOPS,
        propagated(connections, signal, node_id, attenuate, now, upto, out),
    ensures
        forall|i: int|
            0 <= i < out.len() ==> {
                &&& (#[trigger] out[i]).hops == signal.hops + 1
                &&& out[i].wf()
                &&& out[i].origin == signal.origin
                &&& out[i].threat == signal.threat
                &&& out[i].sender == node_id
                &&& out[i].confidence.rank() >= rank_of(MIN_SIGNAL)
                &&& out[i].confidence.rank() < signal.confidence.rank()
            },
    decreases upto,
{
    if upto <= 0 {
    } else if is_bypassed(signal, connections.keys()[upto - 1]) {
        lemma_propagated_hops(connections, signal, node_id, attenuate, now, upto - 1, out);
    } else {
        let attenuated = choose|attenuated: Score| #[trigger]
            call_ensures(attenuate, (signal.confidence, connections.values()[upto - 1].w), attenuated)
                && if signal.carries(attenuated) {
                &&& out.len() > 0
                &&& signal.passed_on(out.last(), node_id, attenuated, now)
                &&& propagated(
                    connections,
                    signal,
                    node_id,
                    attenuate,
                    now,
                    upto - 1,
                    out.drop_last(),
                )
            } else {
                propagated(connections, signal, node_id, attenuate, now, upto - 1, out)
            };
        if signal.carries(attenuated) {
            lemma_propagated_hops(
                connections,
                signal,
                node_id,
                attenuate,
                now,
                upto - 1,
                out.drop_last(),
            );
            assert forall|i: int| 0 <= i < out.len() implies {
                &&& (#[trigger] out[i]).hops == signal.hops + 1
                &&& out[i].wf()
                &&& out[i].origin == signal.origin
                &&& out[i].threat == signal.threat
                &&& out[i].sender == node_id
                &&& out[i].confidence.rank() >= rank_of(MIN_SIGNAL)
                &&& out[i].confidence.rank() < signal.confidence.rank()
            } by {
                if i < out.len() - 1 {
                    assert(out[i] == out.drop_last()[i]);
                }
            }
        } else {
            lemma_propagated_hops(connections, signal, node_id, attenuate, now, upto - 1, out);
        }
    }
}

/// Takes in defense signals for a node, and keeps what the node is to send.
#[derive(Debug)]
pub struct DefenseHandler {
    pending_signals: Vec<DefenseSignal>,
    pending_affirmations: Vec<Affirmation>,
}

impl DefenseHandler {
    /// The signals that wait to be sent.
    pub closed spec fn signals(&self) -> Seq<DefenseSignal> {
        self.pending_signals@
    }

    /// The affirmations that wait to be sent.
    pub closed spec fn affirmations(&self) -> Seq<Affirmation> {
        self.pending_affirmations@
    }

    /// A handler with nothing to send.
    pub fn new() -> (h: Self)
        ensures
            h.signals().len() == 0,
            h.affirmations().len() == 0,
    {
        Self { pending_signals: Vec::new(), pending_affirmations: Vec::new() }
    }

    /// What a node holds after it took in a signal at the time `now`.
    ///
    /// The belief about the threat stands where the signal puts it, with the
    /// evidence of the signal added; a belief never falls. The alertness
    /// stands where the signal puts it, which primes the node if it is above
    /// the primed mark. With a belief above the action threshold the node
    /// defends itself, and its connection to the threat, if it has one, is
    /// put down to the smallest weight.
    pub open spec fn taken_in(
        before: Node,
        after: Node,
        signal: DefenseSignal,
        effect: SignalEffect,
        now: Timestamp,
    ) -> bool {
        let acts = after.threat_rank(signal.threat) > rank_of(ACTION_THRESHOLD);
        &&& after.threat_beliefs.has(signal.threat)
        &&& after.threat_rank(signal.threat) == if effect.belief.rank() >= before.threat_rank(
            signal.threat,
        ) {
            effect.belief.rank()
        } else {
            before.threat_rank(signal.threat)
        }
        &&& after.threat_beliefs.at(signal.threat).threat_type == if before.threat_beliefs.has(
            signal.threat,
        ) {
            before.threat_beliefs.at(signal.threat).threat_type
        } else {
            signal.threat_type
        }
        &&& after.threat_beliefs.at(signal.threat).updated == now
        &&& after.threat_beliefs.at(signal.threat).evidence@ == if before.threat_beliefs.has(
            signal.threat,
        ) {
            before.threat_beliefs.at(signal.threat).evidence@.push(signal.evidence)
        } else {
            seq![signal.evidence]
        }
        &&& forall|other: NodeId|
            other != signal.threat ==> after.threat_beliefs.has(other) == before.threat_beliefs.has(
                other,
            )
        &&& forall|other: NodeId|
            other != signal.threat && before.threat_beliefs.has(other) ==> after.threat_beliefs.at(
                other,
            ) == before.threat_beliefs.at(other)
        &&& after.priming == effect.priming
        &&& after.defense_state == if acts {
            DefenseState::Defending
        } else if effect.priming.rank() > rank_of(crate::constants::PRIMED_ABOVE) {
            DefenseState::Primed
        } else {
            before.defense_state
        }
        &&& after.connections.keys() == before.connections.keys()
        &&& forall|other: NodeId|
            before.connections.has(other) && !(acts && other == signal.threat)
                ==> after.connections.at(other) == before.connections.at(other)
        &&& acts && before.connections.has(signal.threat) ==> after.connections.at(signal.threat)
            == (Connection { w: after.connections.at(signal.threat).w, ..before.connections.at(
            signal.threat,
        ) }) && after.connections.at(signal.threat).w.rank() == W_MIN_BITS
        &&& after == (Node {
            threat_beliefs: after.threat_beliefs,
            priming: after.priming,
            defense_state: after.defense_state,
            connections: after.connections,
            ..before
        })
    }

    /// Takes in a defense signal for a node at the time `now`.
    ///
    /// A signal that names the node itself as the threat, or that the node
    /// itself sent, is ignored: nothing changes. Any other signal is taken
    /// in, with the `effect` that it has on the figures of the node (see
    /// `taken_in`). A signal whose confidence is above the propagation
    /// threshold and that has hops left is then passed on over the
    /// connections of the node (see `propagated`): the copies wait to be
    /// sent, behind those that waited already.
    pub fn handle_signal<F: Fn(Score, Weight) -> Score>(
        &mut self,
        node: &mut Node,
        signal: &DefenseSignal,
        effect: SignalEffect,
        attenuate: F,
        now: Timestamp,
    ) -> (result: SignalResult)
        requires
            old(node).wf(),
            forall|c: Score, w: Weight| call_requires(attenuate, (c, w)),
        ensures
            final(node).wf(),
            final(self).affirmations() == old(self).affirmations(),
            signal.threat == old(node).id || signal.sender == old(node).id ==> {
                &&& result is Ignored
                &&& *final(node) == *old(node)
                &&& final(self).signals() == old(self).signals()
            },
            signal.threat != old(node).id && signal.sender != old(node).id ==> {
                &&& result matches SignalResult::Processed { new_threat_level, priming_boost }
                &&& new_threat_level.rank() == final(node).threat_rank(signal.threat)
                &&& priming_boost == effect.boost
                &&& Self::taken_in(*old(node), *final(node), *signal, effect, now)
                &&& if signal.confidence.rank() > rank_of(PROPAGATE_THRESHOLD) && signal.hops
                    < MAX_HOPS {
                    exists|out: Seq<DefenseSignal>|
                        final(self).signals() == old(self).signals() + out && #[trigger] propagated(
                            final(node).connections,
                            *signal,
                            old(node).id,
                            attenuate,
                            now,
                            final(node).connections.keys().len() as int,
                            out,
                        )
                } else {
                    final(self).signals() == old(self).signals()
                }
            },
    {
        if signal.threat.same_as(&node.id) {
            return SignalResult::Ignored;
        }
        if signal.sender.same_as(&node.id) {
            return SignalResult::Ignored;
        }
        node.update_threat_belief(
            signal.threat,
            signal.threat_type,
            effect.belief,
            Some(signal.evidence),
            now,
        );
        node.increase_priming(effect.priming);
        let threat_level = node.get_threat_level(&signal.threat);
        if threat_level.above(ACTION_THRESHOLD) {
            self.take_defensive_action(node, signal.threat);
        }
        if signal.confidence.above(PROPAGATE_THRESHOLD) && signal.hops < MAX_HOPS {
            self.queue_propagation(node, signal, attenuate, now);
        }
        SignalResult::Processed { new_threat_level: threat_level, priming_boost: effect.boost }
    }

    /// Puts the node on its defense against `threat`: the connection to the
    /// threat, if there is one, goes down to the smallest weight.
    fn take_defensive_action(&mut self, node: &mut Node, threat: NodeId)
        requires
            old(node).wf(),
        ensures
            final(node).wf(),
            *final(self) == *old(self),
            final(node).defense_state == DefenseState::Defending,
            final(node).connections.keys() == old(node).connections.keys(),
            forall|other: NodeId|
                other != threat && old(node).connections.has(other) ==> final(node).connections.at(
                    other,
                ) == old(node).connections.at(other),
            old(node).connections.has(threat) ==> final(node).connections.at(threat) == (Connection {
                w: final(node).connections.at(threat).w,
                ..old(node).connections.at(threat)
            }) && final(node).connections.at(threat).w.rank() == W_MIN_BITS,
            *final(node) == (Node {
                defense_state: final(node).defense_state,
                connections: final(node).connections,
                ..*old(node)
            }),
    {
        node.defense_state = DefenseState::Defending;
        match node.connections.position(&threat) {
            Some(i) => {
                let ghost held = node.connections;
                proof {
                    held.lemma_place(i as int);
                }
                let conn = node.connections.value_at_mut(i);
                conn.w = Weight::min();
                proof {
                    assert forall|j: int| 0 <= j < node.connections.values().len() implies (
                    #[trigger] node.connections.values()[j]).wf() by {
                        if j != i {
                            assert(node.connections.values()[j] == held.values()[j]);
                        }
                    }
                }
            },
            None => {},
        }
    }

    /// Lets the copies of a signal that the node passes on wait to be sent.
    fn queue_propagation<F: Fn(Score, Weight) -> Score>(
        &mut self,
        node: &Node,
        signal: &DefenseSignal,
        attenuate: F,
        now: Timestamp,
    )
        requires
            node.wf(),
            signal.may_travel(),
            forall|c: Score, w: Weight| call_requires(attenuate, (c, w)),
        ensures
            final(self).affirmations() == old(self).affirmations(),
            exists|out: Seq<DefenseSignal>|
                final(self).signals() == old(self).signals() + out && #[trigger] propagated(
                    node.connections,
                    *signal,
                    node.id,
                    attenuate,
                    now,
                    node.connections.keys().len() as int,
                    out,
                ),
    {
        let n = node.connections.len();
        let ghost mut out: Seq<DefenseSignal> = Seq::empty();
        let mut i: usize = 0;
        assert(self.signals() =~= old(self).signals() + out);
        while i < n
            invariant
                i <= n,
                n == node.connections.keys().len(),
                node.wf(),
                signal.may_travel(),
                forall|c: Score, w: Weight| call_requires(attenuate, (c, w)),
                self.affirmations() == old(self).affirmations(),
                self.signals() == old(self).signals() + out,
                propagated(node.connections, *signal, node.id, attenuate, now, i as int, out),
            decreases n - i,
        {
            let partner = node.connections.key_at(i);
            if !(partner.same_as(&signal.sender) || partner.same_as(&signal.origin)
                || partner.same_as(&signal.threat)) {
                let conn = node.connections.value_at(i);
                let attenuated = attenuate(signal.confidence, conn.w);
                proof {
                    node.connections.lemma_place(i as int);
                    assert(call_ensures(
                        attenuate,
                        (signal.confidence, node.connections.values()[i as int].w),
                        attenuated,
                    ));
                }
                match signal.forward(node.id, attenuated, now) {
                    Some(copy) => {
                        self.pending_signals.push(copy);
                        proof {
                            let longer = out.push(copy);
                            assert(longer.drop_last() =~= out);
                            assert(longer.last() == copy);
                            assert(self.signals() =~= old(self).signals() + longer);
                            assert(propagated(
                                node.connections,
                                *signal,
                                node.id,
                                attenuate,
                                now,
                                i as int + 1,
                                longer,
                            ));
                            out = longer;
                        }
                    },
                    None => {
                        assert(!signal.carries(attenuated));
                        assert(propagated(
                            node.connections,
                            *signal,
                            node.id,
                            attenuate,
                            now,
                            i as int + 1,
                            out,
                        ));
                    },
                }
            } else {
                assert(is_bypassed(*signal, node.connections.keys()[i as int]));
                assert(propagated(
                    node.connections,
                    *signal,
                    node.id,
                    attenuate,
                    now,
                    i as int + 1,
                    out,
                ));
            }
            i += 1;
        }
    }

    /// Lets an affirmation wait to be sent.
    pub fn send_affirmation(&mut self, affirmation: Affirmation)
        ensures
            final(self).affirmations() == old(self).affirmations().push(affirmation),
            final(self).signals() == old(self).signals(),
    {
        self.pending_affirmations.push(affirmation);
    }

    /// Affirms the partner of an exchange whose quality and tone were good
    /// enough: with a quality above the mark for it and a tone above the mark
    /// for it, an affirmation of quality of the given strength waits to be
    /// sent. Otherwise nothing changes.
    pub fn maybe_affirm(
        &mut self,
        node: &Node,
        partner: NodeId,
        quality: Score,
        tone: Score,
        strength: Score,
        now: Timestamp,
    )
        ensures
            final(self).signals() == old(self).signals(),
            if quality.rank() > rank_of(AFFIRM_QUALITY) && tone.rank() > rank_of(AFFIRM_TONE) {
                &&& final(self).affirmations().len() == old(self).affirmations().len() + 1
                &&& final(self).affirmations().drop_last() == old(self).affirmations()
                &&& {
                    let a = final(self).affirmations().last();
                    &&& a.from == node.id
                    &&& a.to == partner
                    &&& a.affirmation_type == AffirmationType::Quality
                    &&& a.strength == strength
                    &&& a.timestamp == now
                }
            } else {
                final(self).affirmations() == old(self).affirmations()
            },
    {
        if quality.above(AFFIRM_QUALITY) && tone.above(AFFIRM_TONE) {
            let affirmation = Affirmation::new(
                node.id,
                partner,
                AffirmationType::Quality,
                strength,
                now,
            );
            self.send_affirmation(affirmation);
            assert(self.affirmations().drop_last() =~= old(self).affirmations());
        }
    }

    /// Gives the signals that wait to be sent, and keeps none of them.
    pub fn take_pending_signals(&mut self) -> (taken: Vec<DefenseSignal>)
        ensures
            taken@ == old(self).signals(),
            final(self).signals().len() == 0,
            final(self).affirmations() == old(self).affirmations(),
    {
        let mut taken: Vec<DefenseSignal> = Vec::new();
        core::mem::swap(&mut self.pending_signals, &mut taken);
        taken
    }

    /// Gives the affirmations that wait to be sent, and keeps none of them.
    pub fn take_pending_affirmations(&mut self) -> (taken: Vec<Affirmation>)
        ensures
            taken@ == old(self).affirmations(),
            final(self).affirmations().len() == 0,
            final(self).signals() == old(self).signals(),
    {
        let mut taken: Vec<Affirmation> = Vec::new();
        core::mem::swap(&mut self.pending_affirmations, &mut taken);
        taken
    }
}

impl Default for DefenseHandler {
    /// A handler with nothing to send.
    fn default() -> (h: Self)
        ensures
            h.signals().len() == 0,
            h.affirmations().len() == 0,
    {
        Self::new()
    }
}

/// The weight that a node gives the sender of a signal: the weight of its
/// connection to the sender, and three tenths where it has none.
pub fn sender_weight(node: &Node, sender: NodeId) -> (w: Real)
    requires
        node.wf(),
    ensures
        w.0 == if node.connections.has(sender) {
            node.connections.at(sender).w.rank()
        } else {
            UNKNOWN_SENDER_WEIGHT as int
        },
{
    match node.get_connection(&sender) {
        Some(connection) => connection.w.value(),
        None => Real::from_bits(UNKNOWN_SENDER_WEIGHT),
    }
}

/// The signal by which a node names a threat that it detected, with the
/// digest of the evidence.
pub fn emit_defense_signal(
    from: &Node,
    threat: NodeId,
    threat_type: ThreatType,
    confidence: Score,
    evidence_data: &[u8],
    now: Timestamp,
) -> (s: DefenseSignal)
    ensures
        s.wf(),
        s.signal_type == SignalType::SpecificThreat,
        s.sender == from.id,
        s.origin == from.id,
        s.threat == threat,
        s.threat_type == threat_type,
        s.confidence == confidence,
        s.evidence@ == crate::types::blake3_digest(evidence_data@),
        s.hops == 0,
        s.timestamp == now,
{
    let evidence = crate::types::Hash::compute(evidence_data);
    DefenseSignal::new(from.id, threat, threat_type, confidence, evidence, now)
}

} // verus!
