//! Game parameters shared across the core.

use vstd::prelude::*;

verus! {

/// Relative size of a torso, for weighting damage distribution.
pub const DEFAULT_BODY_SIZE: u8 = 40;

/// Relative size of a head.
pub const DEFAULT_HEAD_SIZE: u8 = 10;

/// Relative size of an arm.
pub const DEFAULT_ARM_SIZE: u8 = 15;

/// Relative size of a leg.
pub const DEFAULT_LEG_SIZE: u8 = 20;

/// Relative size of a hand.
pub const DEFAULT_HAND_SIZE: u8 = 5;

/// Relative size of a foot.
pub const DEFAULT_FOOT_SIZE: u8 = 5;

/// Ticks a move costs an actor.
pub const MOVEMENT_TICKS: u8 = 10;

/// Ticks a spoken line costs an actor.
pub const AI_SPEAK_TICKS: u8 = 10;

} // verus!
