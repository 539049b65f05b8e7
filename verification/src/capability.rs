//! What a node can do, and how well and how busily it does it.

use vstd::prelude::*;
use crate::constants::{LOAD_AVAILABLE, LOAD_LIMIT};
use crate::scalar::{bump, bumped, rank_of, HALF_BITS};
use crate::types::{CapabilityId, Score, Timestamp};

pub mod common;

verus! {

/// The kind of work a capability is.
#[derive(Clone, Copy, Debug, PartialEq, Eq, Structural, Hash)]
pub enum CapabilityCategory {
    /// Reasoning and classification.
    Analysis,
    /// Creation and synthesis of content.
    Generation,
    /// Conversion from one form into another.
    Transformation,
    /// Verification and checking.
    Validation,
}

/// A capability that a node can offer.
#[derive(Debug)]
pub struct Capability {
    /// The identifier.
    pub id: CapabilityId,
    /// The name.
    pub name: String,
    /// The kind of work.
    pub category: CapabilityCategory,
    /// What the capability does, in words.
    pub description: String,
}

impl Capability {
    /// A capability with the given identifier and name, and no description.
    pub fn new(id: CapabilityId, name: &str, category: CapabilityCategory) -> (c: Self)
        ensures
            c.id == id,
            c.name@ == name@,
            c.category == category,
            c.description@ == Seq::<char>::empty(),
    {
        Self { id, name: name.to_owned(), category, description: String::new() }
    }

    /// A capability whose identifier is derived from its name, so that the
    /// same name always gives the same identifier.
    pub fn from_name(name: &str, category: CapabilityCategory) -> (c: Self)
        ensures
            c.id.0 == CapabilityId::of_name(name@),
            c.name@ == name@,
            c.category == category,
            c.description@ == Seq::<char>::empty(),
    {
        let id = CapabilityId::from_name(name);
        Self { id, name: name.to_owned(), category, description: String::new() }
    }

    /// The same capability with the given description.
    pub fn with_description(self, desc: &str) -> (c: Self)
        ensures
            c.id == self.id,
            c.name == self.name,
            c.category == self.category,
            c.description@ == desc@,
    {
        let mut c = self;
        c.description = desc.to_owned();
        c
    }

    /// A copy of the capability.
    pub fn duplicate(&self) -> (c: Self)
        ensures
            c == *self,
    {
        Self {
            id: self.id,
            name: self.name.clone(),
            category: self.category,
            description: self.description.clone(),
        }
    }
}

impl Clone for Capability {
    fn clone(&self) -> (c: Self)
        ensures
            c == *self,
    {
        self.duplicate()
    }
}

/// A capability as one node holds it.
#[derive(Debug)]
pub struct CapabilityState {
    /// The capability.
    pub capability: Capability,
    /// How well this node has done the work, as a moving average.
    pub quality: Score,
    /// How many times the capability was used.
    pub volume: u32,
    /// When it was last used.
    pub last_used: Timestamp,
    /// Whether the capability is offered at present.
    pub available: bool,
    /// How busy the capability is: zero is idle, one is full.
    pub load: Score,
}

impl CapabilityState {
    /// Whether more work can be taken: the capability is offered and its
    /// load is below the limit.
    pub open spec fn accepts_work(&self) -> bool {
        self.available && self.load.rank() < rank_of(LOAD_LIMIT)
    }

    /// The state of a capability that was never used: quality one half, no
    /// load, available.
    pub fn new(capability: Capability, now: Timestamp) -> (s: Self)
        ensures
            s.capability == capability,
            s.quality.rank() == HALF_BITS,
            s.volume == 0,
            s.last_used == now,
            s.available,
            s.load.rank() == 0,
            s.accepts_work(),
    {
        Self {
            capability,
            quality: Score::half(),
            volume: 0,
            last_used: now,
            available: true,
            load: Score::zero(),
        }
    }

    /// Whether more work can be taken.
    pub fn can_accept_work(&self) -> (r: bool)
        ensures
            r == self.accepts_work(),
    {
        self.available && self.load.below(LOAD_LIMIT)
    }

    /// Records one use at the time `now`, after which the quality average
    /// stands at `quality`.
    pub fn record_usage(&mut self, quality: Score, now: Timestamp)
        ensures
            final(self).quality == quality,
            final(self).volume == bumped(old(self).volume),
            final(self).last_used == now,
            final(self).capability == old(self).capability,
            final(self).available == old(self).available,
            final(self).load == old(self).load,
    {
        self.quality = quality;
        self.volume = bump(self.volume);
        self.last_used = now;
    }

    /// Takes the load down to `load`. The capability is available afterwards
    /// exactly when that load is below the availability mark.
    pub fn decay_load(&mut self, load: Score)
        ensures
            final(self).load == load,
            final(self).available == (load.rank() < rank_of(LOAD_AVAILABLE)),
            final(self).capability == old(self).capability,
            final(self).quality == old(self).quality,
            final(self).volume == old(self).volume,
            final(self).last_used == old(self).last_used,
    {
        self.load = load;
        self.available = load.below(LOAD_AVAILABLE);
    }

    /// A copy of the state.
    pub fn duplicate(&self) -> (s: Self)
        ensures
            s == *self,
    {
        Self {
            capability: self.capability.duplicate(),
            quality: self.quality,
            volume: self.volume,
            last_used: self.last_used,
            available: self.available,
            load: self.load,
        }
    }
}

impl Clone for CapabilityState {
    fn clone(&self) -> (s: Self)
        ensures
            s == *self,
    {
        self.duplicate()
    }
}

} // verus!
