//! The events of the simulation, and the schedule of events to come.

use vstd::prelude::*;
use crate::defense::DefenseSignal;
use crate::node::Node;
use crate::scalar::ONE_BITS;
use crate::types::{CapabilityId, NodeId, Real, Score, SignedScore};

verus! {

/// The behaviour that a node is to get when it joins.
#[derive(Debug)]
pub enum AgentType {
    /// Follows the protocol.
    Honest {
        /// The probability of beginning an exchange in a tick.
        interaction_rate: Real,
        /// The quality of its work.
        base_quality: Real,
    },
    /// Builds trust, and defects at a given tick.
    Strategic {
        /// The tick at which it defects.
        defection_tick: u64,
    },
    /// Takes, and gives work of low quality.
    FreeRider {
        /// The probability of beginning an exchange in a tick.
        interaction_rate: Real,
    },
    /// One of several identities that work together.
    Sybil {
        /// The identities.
        cluster_members: Vec<NodeId>,
    },
    /// Seldom does anything.
    Passive,
}

/// An event of the simulation.
#[derive(Debug)]
pub enum Event {
    /// Two nodes exchanged something.
    Interaction {
        from: NodeId,
        to: NodeId,
        volume: Real,
        quality: Score,
        tone: SignedScore,
        capability: Option<CapabilityId>,
    },
    /// A defense signal was sent.
    DefenseSignal { signal: DefenseSignal },
    /// A node joins the network, with a behaviour or without one.
    NodeJoin { node: Node, agent_type: Option<AgentType> },
    /// A node leaves the network.
    NodeLeave { node_id: NodeId },
}

impl Event {
    /// An exchange of volume one and of neutral tone that used no
    /// capability.
    pub fn interaction(from: NodeId, to: NodeId, quality: Score) -> (e: Self)
        ensures
            e matches Event::Interaction { from: f, to: t, volume, quality: q, tone, capability }
                && f == from && t == to && volume.0 == ONE_BITS && q == quality && tone.rank() == 0
                && capability.is_none(),
    {
        Event::Interaction {
            from,
            to,
            volume: Real::one(),
            quality,
            tone: SignedScore::zero(),
            capability: None,
        }
    }

    /// The joining of a node without a behaviour.
    pub fn node_join(node: Node) -> (e: Self)
        ensures
            e matches Event::NodeJoin { node: n, agent_type } && n == node && agent_type.is_none(),
    {
        Event::NodeJoin { node, agent_type: None }
    }

    /// The joining of a node with a behaviour.
    pub fn node_join_with_agent(node: Node, agent_type: AgentType) -> (e: Self)
        ensures
            e matches Event::NodeJoin { node: n, agent_type: a } && n == node && a == Some(
                agent_type,
            ),
    {
        Event::NodeJoin { node, agent_type: Some(agent_type) }
    }

    /// The leaving of a node.
    pub fn node_leave(node_id: NodeId) -> (e: Self)
        ensures
            e matches Event::NodeLeave { node_id: n } && n == node_id,
    {
        Event::NodeLeave { node_id }
    }

    /// Every node that the event carries is well formed.
    pub open spec fn wf(&self) -> bool {
        *self matches Event::NodeJoin { node, .. } ==> node.wf()
    }
}

/// An event with the tick at which it is to happen.
#[derive(Debug)]
pub struct ScheduledEvent {
    /// The tick.
    pub at_tick: u64,
    /// The event.
    pub event: Event,
}

impl ScheduledEvent {
    /// An event that is to happen at the given tick.
    pub fn new(at_tick: u64, event: Event) -> (s: Self)
        ensures
            s.at_tick == at_tick,
            s.event == event,
    {
        Self { at_tick, event }
    }
}

/// The schedule of the events to come: by tick, and events of one tick in
/// the order in which they were scheduled.
#[derive(Debug)]
pub struct EventScheduler {
    events: Vec<ScheduledEvent>,
}

/// Whether the ticks never fall from one event to the next.
pub open spec fn in_order(events: Seq<ScheduledEvent>) -> bool {
    forall|i: int, j: int|
        0 <= i < j < events.len() ==> (#[trigger] events[i]).at_tick <= (#[trigger] events[j]).at_tick
}

/// The place at which an event for the given tick goes into a schedule:
/// behind every event whose tick is not later.
pub open spec fn slot_for(events: Seq<ScheduledEvent>, at_tick: u64) -> int
    decreases events.len(),
{
    if events.len() == 0 {
        0
    } else if events.last().at_tick <= at_tick {
        events.len() as int
    } else {
        slot_for(events.drop_last(), at_tick)
    }
}

/// The number of events at the front of a schedule that are due at the given
/// tick.
pub open spec fn due_count(events: Seq<ScheduledEvent>, tick: u64) -> int
    decreases events.len(),
{
    if events.len() == 0 || events[0].at_tick > tick {
        0
    } else {
        1 + due_count(events.drop_first(), tick)
    }
}

/// The slot for a tick lies in the schedule or at its end; every event from
/// the slot on is later than the tick, and in a schedule that is in order no
/// event before the slot is.
pub proof fn lemma_slot_for(events: Seq<ScheduledEvent>, at_tick: u64)
    ensures
        0 <= slot_for(events, at_tick) <= events.len(),
        forall|i: int|
            slot_for(events, at_tick) <= i < events.len() ==> (#[trigger] events[i]).at_tick
                > at_tick,
        in_order(events) ==> forall|i: int|
            0 <= i < slot_for(events, at_tick) ==> (#[trigger] events[i]).at_tick <= at_tick,
    decreases events.len(),
{
    if events.len() > 0 {
        if events.last().at_tick <= at_tick {
            if in_order(events) {
                assert forall|i: int| 0 <= i < events.len() implies (
                #[trigger] events[i]).at_tick <= at_tick by {
                    if i < events.len() - 1 {
                        assert(events[i].at_tick <= events[events.len() - 1].at_tick);
                    }
                }
            }
        } else {
            lemma_slot_for(events.drop_last(), at_tick);
            assert forall|i: int| slot_for(events, at_tick) <= i < events.len() implies (
            #[trigger] events[i]).at_tick > at_tick by {
                if i < events.len() - 1 {
                    assert(events.drop_last()[i] == events[i]);
                }
            }
            if in_order(events) {
                assert(in_order(events.drop_last())) by {
                    assert forall|i: int, j: int| 0 <= i < j < events.drop_last().len() implies (
                    #[trigger] events.drop_last()[i]).at_tick <= (
                    #[trigger] events.drop_last()[j]).at_tick by {
                        assert(events.drop_last()[i] == events[i]);
                        assert(events.drop_last()[j] == events[j]);
                    }
                }
                assert forall|i: int| 0 <= i < slot_for(events, at_tick) implies (
                #[trigger] events[i]).at_tick <= at_tick by {
                    assert(events.drop_last()[i] == events[i]);
                }
            }
        }
    }
}

/// The number of due events lies within the schedule; the events before it
/// are due, and the event at it, if there is one, is not. In a schedule
/// that is in order no event behind it is due either.
pub proof fn lemma_due_count(events: Seq<ScheduledEvent>, tick: u64)
    ensures
        0 <= due_count(events, tick) <= events.len(),
        forall|i: int| 0 <= i < due_count(events, tick) ==> (#[trigger] events[i]).at_tick <= tick,
        due_count(events, tick) < events.len() ==> events[due_count(events, tick)].at_tick > tick,
        in_order(events) ==> forall|i: int|
            due_count(events, tick) <= i < events.len() ==> (#[trigger] events[i]).at_tick > tick,
    decreases events.len(),
{
    if events.len() > 0 && events[0].at_tick <= tick {
        let rest = events.drop_first();
        lemma_due_count(rest, tick);
        assert forall|i: int| 0 <= i < due_count(events, tick) implies (
        #[trigger] events[i]).at_tick <= tick by {
            if i > 0 {
                assert(rest[i - 1] == events[i]);
            }
        }
        if due_count(events, tick) < events.len() {
            assert(rest[due_count(rest, tick)] == events[due_count(events, tick)]);
        }
    }
    if in_order(events) {
        let k = due_count(events, tick);
        if k < events.len() {
            assert forall|i: int| k <= i < events.len() implies (#[trigger] events[i]).at_tick
                > tick by {
                if i > k {
                    assert(events[k].at_tick <= events[i].at_tick);
                }
            }
        }
    }
}

impl EventScheduler {
    /// The events to come, in the order in which they will happen.
    pub closed spec fn pending(&self) -> Seq<ScheduledEvent> {
        self.events@
    }

    /// The events to come are in the order of their ticks, and carry
    /// well-formed nodes only.
    pub open spec fn wf(&self) -> bool {
        &&& in_order(self.pending())
        &&& forall|i: int| 0 <= i < self.pending().len() ==> (#[trigger] self.pending()[i]).event.wf()
    }

    /// A schedule without events.
    pub fn new() -> (s: Self)
        ensures
            s.wf(),
            s.pending().len() == 0,
    {
        Self { events: Vec::new() }
    }

    /// Schedules an event for a tick: behind the events that are scheduled
    /// for that tick or an earlier one, and before those that are scheduled
    /// for a later one.
    pub fn schedule(&mut self, at_tick: u64, event: Event)
        requires
            old(self).wf(),
            event.wf(),
        ensures
            final(self).wf(),
            final(self).pending() == old(self).pending().insert(
                slot_for(old(self).pending(), at_tick),
                ScheduledEvent { at_tick, event },
            ),
    {
        let mut at: usize = self.events.len();
        assert(self.events@.take(at as int) =~= self.events@);
        while at > 0 && self.events[at - 1].at_tick > at_tick
            invariant
                at <= self.events.len(),
                self.events@ == old(self).events@,
                slot_for(self.events@, at_tick) == slot_for(self.events@.take(at as int), at_tick),
            decreases at,
        {
            proof {
                let part = self.events@.take(at as int);
                assert(part.last() == self.events@[at as int - 1]);
                assert(part.drop_last() =~= self.events@.take(at as int - 1));
            }
            at -= 1;
        }
        proof {
            let part = self.events@.take(at as int);
            if at > 0 {
                assert(part.last() == self.events@[at as int - 1]);
            }
            assert(slot_for(part, at_tick) == at);
            lemma_slot_for(self.events@, at_tick);
        }
        let ghost held = self.events@;
        self.events.insert(at, ScheduledEvent::new(at_tick, event));
        proof {
            let after = self.events@;
            assert forall|i: int, j: int| 0 <= i < j < after.len() implies (
            #[trigger] after[i]).at_tick <= (#[trigger] after[j]).at_tick by {
                if j < at {
                    assert(after[i] == held[i] && after[j] == held[j]);
                } else if j == at {
                    assert(after[i] == held[i]);
                } else if i < at {
                    assert(after[i] == held[i] && after[j] == held[j - 1]);
                } else if i == at {
                    assert(after[j] == held[j - 1]);
                } else {
                    assert(after[i] == held[i - 1] && after[j] == held[j - 1]);
                }
            }
            assert forall|i: int| 0 <= i < after.len() implies (#[trigger] after[i]).event.wf() by {
                if i < at {
                    assert(after[i] == held[i]);
                } else if i > at {
                    assert(after[i] == held[i - 1]);
                }
            }
        }
    }

    /// Takes the events that are due at the given tick off the schedule, and
    /// gives them in the order in which they were to happen: by tick, and
    /// events of one tick in the order in which they were scheduled. The
    /// events that stay are all for later ticks.
    pub fn due_at(&mut self, tick: u64) -> (due: Vec<Event>)
        requires
            old(self).wf(),
        ensures
            final(self).wf(),
            due@.len() == due_count(old(self).pending(), tick),
            forall|i: int| 0 <= i < due@.len() ==> due@[i] == (#[trigger] old(self).pending()[i]).event,
            final(self).pending() == old(self).pending().skip(due@.len() as int),
            forall|i: int|
                0 <= i < final(self).pending().len() ==> (#[trigger] final(self).pending()[i]).at_tick
                    > tick,
            forall|i: int| 0 <= i < due@.len() ==> (#[trigger] due@[i]).wf(),
    {
        let mut due: Vec<Event> = Vec::new();
        assert(self.events@.skip(0) =~= self.events@);
        while self.events.len() > 0 && self.events[0].at_tick <= tick
            invariant
                due@.len() <= old(self).events@.len(),
                self.events@ == old(self).events@.skip(due@.len() as int),
                forall|i: int| 0 <= i < due@.len() ==> due@[i] == (#[trigger] old(self).events@[i]).event,
                due_count(old(self).events@, tick) == due@.len() + due_count(self.events@, tick),
            decreases self.events.len(),
        {
            let ghost held = self.events@;
            let ghost done = due@;
            let scheduled = self.events.remove(0);
            due.push(scheduled.event);
            proof {
                assert(self.events@ =~= held.drop_first());
                assert(held[0] == old(self).events@[done.len() as int]);
                assert(self.events@ =~= old(self).events@.skip(due@.len() as int));
            }
        }
        proof {
            lemma_due_count(old(self).events@, tick);
            assert forall|i: int, j: int| 0 <= i < j < self.events@.len() implies (
            #[trigger] self.events@[i]).at_tick <= (#[trigger] self.events@[j]).at_tick by {
                assert(self.events@[i] == old(self).events@[i + due@.len()]);
                assert(self.events@[j] == old(self).events@[j + due@.len()]);
            }
            assert forall|i: int| 0 <= i < self.events@.len() implies (
            #[trigger] self.events@[i]).at_tick > tick by {
                assert(self.events@[i] == old(self).events@[i + due@.len()]);
            }
            assert forall|i: int| 0 <= i < self.events@.len() implies (
            #[trigger] self.events@[i]).event.wf() by {
                assert(self.events@[i] == old(self).events@[i + due@.len()]);
            }
            assert forall|i: int| 0 <= i < due@.len() implies (#[trigger] due@[i]).wf() by {
                assert(due@[i] == old(self).events@[i].event);
            }
        }
        due
    }

    /// Whether there are events to come.
    pub fn has_pending(&self) -> (r: bool)
        ensures
            r == (self.pending().len() > 0),
    {
        self.events.len() > 0
    }

    /// The tick of the next event, if there is one.
    pub fn next_tick(&self) -> (r: Option<u64>)
        ensures
            r == if self.pending().len() > 0 {
                Some(self.pending()[0].at_tick)
            } else {
                None
            },
    {
        if self.events.len() > 0 {
            Some(self.events[0].at_tick)
        } else {
            None
        }
    }
}

impl Default for EventScheduler {
    /// A schedule without events.
    fn default() -> (s: Self)
        ensures
            s.wf(),
            s.pending().len() == 0,
    {
        Self::new()
    }
}

} // verus!
