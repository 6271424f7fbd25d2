//! Pending actions: the per-combatant record of what will happen when
//! the turn resolves. Player input and enemy planning both write this
//! record; only the turn resolution step reads it back into world
//! state.

use crate::grid::TilePos;
use vstd::prelude::*;

verus! {

/// Payload of a queued attack. The attacker may first have to step
/// next to its target, so the record carries the attacker's origin and
/// intended standing tile besides the target and the target's tile.
#[derive(PartialEq, Eq, Structural, Clone, Copy, Debug)]
pub struct PendingAttack {
    /// Index of the target in the combatant table.
    pub enemy_entity: usize,
    /// Where the target stood when the attack was queued.
    pub enemy_position: TilePos,
    /// Where the attacker will stand when the attack resolves.
    pub new_standing_position: TilePos,
    /// Where the attacker stood when the attack was queued.
    pub starting_position: TilePos,
}

impl PendingAttack {
    pub fn new(
        enemy_entity: usize,
        enemy_position: TilePos,
        new_standing_position: TilePos,
        starting_position: TilePos,
    ) -> (r: Self)
        ensures
            r == (PendingAttack { enemy_entity, enemy_position, new_standing_position,
            starting_position }),
    {
        Self { enemy_entity, enemy_position, new_standing_position, starting_position }
    }
}

/// The possible things a combatant can do in a turn.
#[derive(PartialEq, Debug)]
pub enum EntityAction {
    /// Step from the first position to the second.
    Move(TilePos, TilePos),
    Attack(PendingAttack),
    Wait,
    /// Cast the named spell. Spell effects are handled by a separate
    /// subsystem; the turn resolver treats a cast as a no-op.
    Cast(String),
}

/// A combatant's queued action together with its readiness flag. The
/// turn resolver acts only on ready actions; a non-ready action is
/// treated as a wait.
#[derive(PartialEq, Debug)]
pub struct EntityPendingAction {
    pub action: EntityAction,
    pub is_ready: bool,
}

impl Clone for EntityAction {
    fn clone(&self) -> (r: Self)
        ensures
            r == *self,
    {
        match self {
            EntityAction::Move(a, b) => EntityAction::Move(*a, *b),
            EntityAction::Attack(pa) => EntityAction::Attack(*pa),
            EntityAction::Wait => EntityAction::Wait,
            EntityAction::Cast(name) => EntityAction::Cast(name.clone()),
        }
    }
}

impl Clone for EntityPendingAction {
    fn clone(&self) -> (r: Self)
        ensures
            r == *self,
    {
        EntityPendingAction { action: self.action.clone(), is_ready: self.is_ready }
    }
}

impl EntityPendingAction {
    pub fn is_move(&self) -> (r: bool)
        ensures
            r == (self.action is Move),
    {
        if let EntityAction::Move(_, _) = self.action {
            true
        } else {
            false
        }
    }

    pub fn is_attack(&self) -> (r: bool)
        ensures
            r == (self.action is Attack),
    {
        if let EntityAction::Attack(_) = self.action {
            true
        } else {
            false
        }
    }

    pub fn is_wait(&self) -> (r: bool)
        ensures
            r == (self.action is Wait),
    {
        if let EntityAction::Wait = self.action {
            true
        } else {
            false
        }
    }

    /// A not-yet-ready attack with a placeholder target, used by the
    /// interface layer while the player is still choosing whom to hit.
    pub fn default_attack() -> (r: Self)
        ensures
            !r.is_ready,
            r.action == EntityAction::Attack(
                PendingAttack {
                    enemy_entity: 0,
                    enemy_position: TilePos(0, 0),
                    new_standing_position: TilePos(0, 0),
                    starting_position: TilePos(0, 0),
                },
            ),
    {
        Self {
            is_ready: false,
            action: EntityAction::Attack(
                PendingAttack::new(0, TilePos(0, 0), TilePos(0, 0), TilePos(0, 0)),
            ),
        }
    }

    /// The destination of a queued move, if this is one.
    pub fn move_target(&self) -> (r: Option<TilePos>)
        ensures
            match self.action {
                EntityAction::Move(_, b) => r == Some(b),
                _ => r is None,
            },
    {
        if let EntityAction::Move(_, b) = &self.action {
            Some(*b)
        } else {
            None
        }
    }

    /// The payload of a queued attack, if this is one.
    pub fn attack_payload(&self) -> (r: Option<PendingAttack>)
        ensures
            match self.action {
                EntityAction::Attack(pa) => r == Some(pa),
                _ => r is None,
            },
    {
        if let EntityAction::Attack(pa) = &self.action {
            Some(*pa)
        } else {
            None
        }
    }

    /// The spell this action references, if it is a cast.
    pub fn get_spell(&self) -> (r: Option<&str>)
        ensures
            match r {
                Some(s) => self.action matches EntityAction::Cast(n) && s@ == n@,
                None => !(self.action is Cast),
            },
    {
        if let EntityAction::Cast(spell) = &self.action {
            Some(spell.as_str())
        } else {
            None
        }
    }
}

impl Default for EntityPendingAction {
    /// A fresh combatant waits, and waiting is always ready.
    fn default() -> (r: Self)
        ensures
            r.action == EntityAction::Wait,
            r.is_ready,
    {
        EntityPendingAction { action: EntityAction::Wait, is_ready: true }
    }
}

} // verus!
