//! Explorers: agents with a name, a position and energy that make discoveries.

use vstd::prelude::*;

use crate::discovery::{appended, DiscoveryLog};
use crate::grid::{Coord, Ternary};

verus! {

/// An explorer agent that pushes the frontier.
#[derive(Debug, Clone)]
pub struct Explorer {
    pub name: String,
    pub position: Option<Coord>,
    pub discoveries: usize,
    pub energy: u32,
}

/// The energy of a new explorer.
pub open spec fn initial_energy() -> u32 {
    10
}

impl Explorer {
    pub fn new(name: &str) -> (r: Self)
        ensures
            r.name@ == name@,
            r.position is None,
            r.discoveries == 0,
            r.energy == initial_energy(),
    {
        Self { name: name.to_owned(), position: None, discoveries: 0, energy: 10 }
    }

    /// Move to a coordinate if there's energy.
    pub fn move_to(&mut self, coord: Coord) -> (r: bool)
        ensures
            r == (old(self).energy > 0),
            r ==> final(self).position == Some(coord) && final(self).energy == old(self).energy - 1,
            !r ==> final(self).position == old(self).position && final(self).energy == old(
                self,
            ).energy,
            final(self).name == old(self).name,
            final(self).discoveries == old(self).discoveries,
    {
        if self.energy == 0 {
            return false;
        }
        self.position = Some(coord);
        self.energy -= 1;
        true
    }

    /// Make a discovery at the current position.
    pub fn discover(&mut self, value: Ternary, log: &mut DiscoveryLog, timestamp: u64) -> (r:
        Option<Coord>)
        requires
            old(self).position is Some ==> old(self).discoveries < usize::MAX,
        ensures
            r == old(self).position,
            final(self).name == old(self).name,
            final(self).position == old(self).position,
            final(self).energy == old(self).energy,
            r is None ==> final(self).discoveries == old(self).discoveries && final(log)@ == old(
                log,
            )@,
            r matches Some(c) ==> final(self).discoveries == old(self).discoveries + 1 && appended(
                old(log)@,
                final(log)@,
                c,
                value,
                old(self).name@,
                timestamp,
            ),
    {
        let coord = match self.position {
            Some(c) => c,
            None => return None,
        };
        log.record(coord, value, self.name.as_str(), timestamp);
        self.discoveries += 1;
        Some(coord)
    }

    /// Recharge energy.
    pub fn recharge(&mut self, amount: u32)
        requires
            old(self).energy + amount <= u32::MAX,
        ensures
            final(self).energy == old(self).energy + amount,
            final(self).name == old(self).name,
            final(self).position == old(self).position,
            final(self).discoveries == old(self).discoveries,
    {
        self.energy += amount;
    }

    pub fn is_exhausted(&self) -> (r: bool)
        ensures
            r == (self.energy == 0),
    {
        self.energy == 0
    }
}

} // verus!
