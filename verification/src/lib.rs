//! Core of a turn-based roguelike: a probabilistic body-damage model over a
//! recursive body-part tree, discrete percentage probabilities with exact-sum
//! checking, and a turn scheduler that paces non-player actors by action
//! clocks.

pub mod character;
pub mod constants;
pub mod dialog;
pub mod enemy;
pub mod events;
pub mod interacting;
pub mod map;
pub mod map_editor;
pub mod menu;
pub mod npc;
pub mod player;
pub mod probability;
pub mod rng;
pub mod scheduler;
pub mod tiles;
