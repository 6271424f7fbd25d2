//! Gameplay constants shared across the crate.

use vstd::prelude::*;

verus! {

/// Health a player combatant starts with.
pub const PLAYER_MAX_HEALTH: u32 = 100;

/// Magika pool a wizard starts with.
pub const PLAYER_MAX_MAGIKA: u32 = 100;

/// Tiles a player may move in one turn.
pub const PLAYER_DEFAULT_MOVE_SPEED: u32 = 4;

/// Damage dealt by a player combatant's attack.
pub const PLAYER_ATTACK_DAMAGE: u32 = 50;

/// Tiles an enemy may move in one turn.
pub const ENEMY_DEFAULT_MOVE_SPEED: u32 = 3;

/// Damage dealt by an enemy combatant's attack.
pub const ENEMY_ATTACK_DAMAGE: u32 = 10;

/// Below this health an enemy that attacks until weak switches to retreat.
pub const ENEMY_RETREAT_HEALTH: u32 = 20;

} // verus!
