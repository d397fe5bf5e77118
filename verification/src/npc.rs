//! Non-player characters: a name, a home, and something to say.

use vstd::prelude::*;

use crate::dialog::Dialog;
use crate::map::MapLocation;

verus! {

/// Marker for entities that are NPCs.
#[derive(Debug, Clone, Copy)]
pub struct NPCComponent;

/// A spawnable NPC.
#[derive(Debug)]
pub struct NPC {
    pub name: String,
    pub location: MapLocation,
    pub dialog: Dialog,
}

impl NPC {
    /// Builds an NPC from its parts.
    pub fn new(name: String, location: MapLocation, dialog: Dialog) -> (r: Self)
        ensures
            r == (NPC { name, location, dialog }),
    {
        Self { name, location, dialog }
    }
}

} // verus!
