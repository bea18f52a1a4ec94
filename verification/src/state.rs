//! The published state: the externally visible mirror of the latest
//! telemetry per unit.
//!
//! A new sample for a unit replaces the previous one unconditionally; there
//! is no history and no rollback. The map is viewed as a `Map` from unit id
//! to its latest sample.

use vstd::prelude::*;
use std::collections::HashMap;

use crate::position::Position;

verus! {

broadcast use vstd::std_specs::hash::group_hash_axioms;

/// The latest telemetry of one unit: all fields are written together from
/// one snapshot, so they share one timestamp.
pub struct Sample {
    pub position: Position,
    pub busy: bool,
    /// Human-readable status text: the success text, or the failure's text.
    pub status: String,
    /// The snapshot instant, in milliseconds.
    pub timestamp: u64,
}

/// The published mirror of the latest sample per unit, keyed by unit id.
pub struct PublishedState {
    entries: HashMap<u8, Sample>,
}

impl PublishedState {
    pub closed spec fn view(&self) -> Map<u8, Sample> {
        self.entries@
    }

    pub fn new() -> (s: PublishedState)
        ensures
            s@ == Map::<u8, Sample>::empty(),
    {
        PublishedState { entries: HashMap::new() }
    }

    /// Publish `sample` as the latest state of unit `id`: the previous
    /// sample, if any, is replaced unconditionally; every other unit's
    /// sample is unchanged.
    pub fn publish(&mut self, id: u8, sample: Sample)
        ensures
            final(self)@ == old(self)@.insert(id, sample),
    {
        self.entries.insert(id, sample);
    }

    /// The latest published sample of unit `id`, if the unit is known.
    pub fn get(&self, id: u8) -> (r: Option<&Sample>)
        ensures
            match r {
                Some(s) => self@.contains_key(id) && *s == self@[id],
                None => !self@.contains_key(id),
            },
    {
        self.entries.get(&id)
    }
}

} // verus!
