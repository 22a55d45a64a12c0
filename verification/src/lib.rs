//! Turn-based combat resolution core for a small tactical game.
//!
//! Two opposing rosters of units fight under an explicit phase state
//! machine: the player picks an active unit, an action and a target;
//! the enemy side attacks uniformly at random; damage is resolved with
//! weaknesses and resistances; a side whose roster empties loses.
//!
//! Rendering, asset loading and input plumbing are external
//! collaborators: they hand this crate plain values (unit definitions,
//! click coordinates, button choices) and read plain values back.

pub mod states;
pub mod unit;
pub mod roster;
pub mod combat;
pub mod gui;
