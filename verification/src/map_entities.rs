//! Combatants: the entities that take part in turn resolution, and the
//! occupancy sets built from their positions.

use crate::action::EntityPendingAction;
use crate::enemy::Enemy;
use crate::constants;
use crate::grid::TilePos;
use vstd::prelude::*;

verus! {

/// The two player-controlled characters.
#[derive(PartialEq, Eq, Structural, Clone, Copy, Debug)]
pub enum PlayerType {
    Wizard,
    Warrior,
}

/// Faction tag of a combatant.
#[derive(PartialEq, Eq, Structural, Clone, Copy, Debug)]
pub enum MapEntityType {
    Player(PlayerType),
    Enemy,
    Neutral,
}

impl Default for MapEntityType {
    fn default() -> (r: Self)
        ensures
            r == MapEntityType::Neutral,
    {
        Self::Neutral
    }
}

/// Current health of a combatant. Health never goes below zero; a
/// combatant whose health reaches zero counts as defeated.
#[derive(PartialEq, Eq, Structural, Clone, Copy, Debug)]
pub struct EntityHealth {
    pub health: u32,
}

impl Default for EntityHealth {
    fn default() -> (r: Self)
        ensures
            r.health == constants::PLAYER_MAX_HEALTH,
    {
        Self { health: constants::PLAYER_MAX_HEALTH }
    }
}

/// One participant of the round: a player character or an enemy.
/// Position and health are written only by the turn resolution step;
/// planning and input write only the pending action.
#[derive(Clone, Debug)]
pub struct Combatant {
    pub kind: MapEntityType,
    pub pos: TilePos,
    pub health: EntityHealth,
    /// A caster's secondary resource; only the wizard has one.
    pub magika: Option<u32>,
    /// Behavior data for enemy combatants.
    pub enemy: Option<Enemy>,
    pub action: EntityPendingAction,
}

impl Combatant {
    pub open spec fn is_player(self) -> bool {
        self.kind is Player
    }

    pub open spec fn is_enemy(self) -> bool {
        self.kind is Enemy
    }
}

/// The set of blocked tiles for one planning pass: every static
/// blocker plus every combatant's current position. It is rebuilt
/// before each pass, because earlier decisions in the same pass may
/// already have claimed new tiles.
pub fn build_occupancy(static_blockers: &Vec<TilePos>, combatants: &Vec<Combatant>) -> (r: Vec<
    TilePos,
>)
    ensures
        forall|p: TilePos|
            r@.contains(p) <==> (static_blockers@.contains(p) || exists|i: int|
                0 <= i < combatants@.len() && combatants@[i].pos == p),
{
    let mut out: Vec<TilePos> = Vec::new();
    let mut i: usize = 0;
    while i < static_blockers.len()
        invariant
            i <= static_blockers@.len(),
            out@ == static_blockers@.subrange(0, i as int),
        decreases static_blockers@.len() - i,
    {
        out.push(static_blockers[i]);
        i = i + 1;
    }
    proof {
        assert(out@ == static_blockers@);
    }
    let mut j: usize = 0;
    while j < combatants.len()
        invariant
            j <= combatants@.len(),
            forall|p: TilePos|
                out@.contains(p) <==> (static_blockers@.contains(p) || exists|i: int|
                    0 <= i < j && combatants@[i].pos == p),
        decreases combatants@.len() - j,
    {
        let ghost pre = out@;
        out.push(combatants[j].pos);
        proof {
            assert forall|p: TilePos|
                out@.contains(p) <==> (static_blockers@.contains(p) || exists|i: int|
                    0 <= i < j + 1 && combatants@[i].pos == p) by {
                crate::grid::lemma_push_contains(pre, combatants@[j as int].pos, p);
                if p == combatants@[j as int].pos {
                    assert(exists|i: int| 0 <= i < j + 1 && combatants@[i].pos == p) by {
                        assert(combatants@[j as int].pos == p);
                    }
                } else if exists|i: int| 0 <= i < j + 1 && combatants@[i].pos == p {
                    let i = choose|i: int| 0 <= i < j + 1 && combatants@[i].pos == p;
                    assert(0 <= i < j && combatants@[i].pos == p);
                }
            }
        }
        j = j + 1;
    }
    out
}

} // verus!
