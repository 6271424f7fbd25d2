//! Core engine for a turn-based tactics game on a tile grid.
//!
//! The crate models the durable part of the game: the grid and its
//! occupancy rules, an A*-style pathfinder, the enemy decision process,
//! the pending-action records shared by player input and enemy planning,
//! and the turn state machine that commits those actions to positions
//! and health. Rendering, input devices and level loading are left to
//! the embedding application, which talks to this crate through plain
//! values.

pub mod action;
pub mod constants;
pub mod enemy;
pub mod grid;
pub mod level;
pub mod map_entities;
pub mod pathfind;
pub mod spells;
pub mod turn;
pub mod utils;
pub mod wizard_memory;
