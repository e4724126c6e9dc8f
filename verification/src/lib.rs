//! Core of a turn-based dungeon crawler: procedural map generation,
//! entities with optional combat/AI/item/equipment facets, turn
//! scheduling, combat and progression rules, and an inventory system.
//!
//! Rendering, input polling and file handling are left to a presentation
//! layer; this crate holds the verified game rules.

pub mod ai;
pub mod codec;
pub mod color;
pub mod conf;
pub mod fov;
pub mod game;
pub mod items;
pub mod mapgen;
pub mod objects;
pub mod rng;
pub mod text;
pub mod turn;

use vstd::prelude::*;

verus! {

/// The player is always the first entry of the object list.
pub const PLAYER_ID: usize = 0;

} // verus!
