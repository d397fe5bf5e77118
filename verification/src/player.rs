//! The player's actor.

use vstd::prelude::*;

use crate::map::MapLocation;

verus! {

/// Marker for the player's entity.
#[derive(Debug, Clone, Copy)]
pub struct PlayerComponent;

/// The player as spawned: a name and a starting position.
#[derive(Debug, Clone, PartialEq, Eq)]
pub struct Player {
    pub name: String,
    pub location: MapLocation,
}

impl Player {
    /// Builds the player from a name and a starting position.
    pub fn new(name: String, location: MapLocation) -> (r: Self)
        ensures
            r == (Player { name, location }),
    {
        Self { name, location }
    }
}

} // verus!
