use wizard_tactics::action::{EntityAction, EntityPendingAction, PendingAttack};
use wizard_tactics::enemy::{Enemy, EnemyAIType};
use wizard_tactics::grid::TilePos;
use wizard_tactics::level::{RoundResult, RoundSummary};
use wizard_tactics::map_entities::{Combatant, EntityHealth, MapEntityType, PlayerType};
use wizard_tactics::turn::{NotFound, TurnEngine, TurnStatus};

fn enemy_at(pos: TilePos, health: u32) -> Combatant {
    Combatant {
        kind: MapEntityType::Enemy,
        pos,
        health: EntityHealth { health },
        magika: None,
        enemy: Some(Enemy { ai_type: EnemyAIType::AttackClosest, speed: 3 }),
        action: EntityPendingAction::default(),
    }
}

fn warrior_at(pos: TilePos, health: u32) -> Combatant {
    Combatant {
        kind: MapEntityType::Player(PlayerType::Warrior),
        pos,
        health: EntityHealth { health },
        magika: None,
        enemy: None,
        action: EntityPendingAction::default(),
    }
}

fn wizard_at(pos: TilePos, health: u32) -> Combatant {
    Combatant {
        kind: MapEntityType::Player(PlayerType::Wizard),
        pos,
        health: EntityHealth { health },
        magika: Some(100),
        enemy: None,
        action: EntityPendingAction::default(),
    }
}

fn engine_of(combatants: Vec<Combatant>) -> TurnEngine {
    TurnEngine::new(combatants, Vec::new(), (10, 10))
}

#[test]
fn adjacent_attack_damages_and_moves() {
    // The attacker ends up at (2, 2), adjacent to the target at
    // (2, 3): the strike lands and the attacker's move is consumed.
    let mut attacker = warrior_at(TilePos(1, 1), 100);
    attacker.action = EntityPendingAction {
        action: EntityAction::Attack(PendingAttack::new(
            1,
            TilePos(2, 3),
            TilePos(2, 2),
            TilePos(1, 1),
        )),
        is_ready: true,
    };
    let mut engine = engine_of(vec![attacker, enemy_at(TilePos(2, 3), 100)]);
    engine.execute_turn(true);
    assert_eq!(engine.combatants[0].pos, TilePos(2, 2));
    assert_eq!(engine.combatants[1].health.health, 50);
    assert_eq!(engine.combatants[0].action.action, EntityAction::Wait);
    assert!(engine.combatants[0].action.is_ready);
}

#[test]
fn failed_adjacency_check_still_consumes_the_move() {
    // The recorded standing tile is two away from the target: no
    // damage, but the attacker still ends up there.
    let mut attacker = warrior_at(TilePos(1, 1), 100);
    attacker.action = EntityPendingAction {
        action: EntityAction::Attack(PendingAttack::new(
            1,
            TilePos(2, 4),
            TilePos(2, 2),
            TilePos(1, 1),
        )),
        is_ready: true,
    };
    let mut engine = engine_of(vec![attacker, enemy_at(TilePos(2, 4), 100)]);
    engine.execute_turn(true);
    assert_eq!(engine.combatants[0].pos, TilePos(2, 2));
    assert_eq!(engine.combatants[1].health.health, 100);
}

#[test]
fn attack_on_missing_target_deals_no_damage() {
    let mut attacker = warrior_at(TilePos(1, 1), 100);
    attacker.action = EntityPendingAction {
        action: EntityAction::Attack(PendingAttack::new(
            7,
            TilePos(2, 3),
            TilePos(2, 2),
            TilePos(1, 1),
        )),
        is_ready: true,
    };
    let mut engine = engine_of(vec![attacker, enemy_at(TilePos(2, 3), 100)]);
    engine.execute_turn(true);
    assert_eq!(engine.combatants[0].pos, TilePos(2, 2));
    assert_eq!(engine.combatants[1].health.health, 100);
}

#[test]
fn committing_a_wait_changes_nothing() {
    let mut engine = engine_of(vec![warrior_at(TilePos(1, 2), 80), enemy_at(TilePos(5, 5), 60)]);
    engine.execute_turn(true);
    engine.execute_turn(false);
    assert_eq!(engine.combatants[0].pos, TilePos(1, 2));
    assert_eq!(engine.combatants[0].health.health, 80);
    assert_eq!(engine.combatants[1].pos, TilePos(5, 5));
    assert_eq!(engine.combatants[1].health.health, 60);
}

#[test]
fn unready_action_resolves_as_wait() {
    let mut mover = warrior_at(TilePos(1, 2), 80);
    mover.action = EntityPendingAction {
        action: EntityAction::Move(TilePos(1, 2), TilePos(4, 4)),
        is_ready: false,
    };
    let mut engine = engine_of(vec![mover]);
    engine.execute_turn(true);
    assert_eq!(engine.combatants[0].pos, TilePos(1, 2));
    assert!(engine.combatants[0].action.is_ready);
    assert_eq!(engine.combatants[0].action.action, EntityAction::Wait);
}

#[test]
fn move_commits_the_destination() {
    let mut mover = warrior_at(TilePos(1, 2), 80);
    mover.action = EntityPendingAction {
        action: EntityAction::Move(TilePos(1, 2), TilePos(4, 4)),
        is_ready: true,
    };
    let mut engine = engine_of(vec![mover]);
    engine.execute_turn(true);
    assert_eq!(engine.combatants[0].pos, TilePos(4, 4));
}

#[test]
fn health_floors_at_zero() {
    let mut attacker = warrior_at(TilePos(1, 1), 100);
    attacker.action = EntityPendingAction {
        action: EntityAction::Attack(PendingAttack::new(
            1,
            TilePos(2, 3),
            TilePos(2, 2),
            TilePos(1, 1),
        )),
        is_ready: true,
    };
    let mut engine = engine_of(vec![attacker, enemy_at(TilePos(2, 3), 30)]);
    engine.execute_turn(true);
    assert_eq!(engine.combatants[1].health.health, 0);
}

#[test]
fn defeat_takes_precedence_over_victory() {
    // The enemy phase downs the last player while every enemy is
    // already at zero: the round ends in defeat, not victory.
    let mut striker = enemy_at(TilePos(2, 3), 0);
    striker.action = EntityPendingAction {
        action: EntityAction::Attack(PendingAttack::new(
            0,
            TilePos(2, 2),
            TilePos(2, 3),
            TilePos(2, 3),
        )),
        is_ready: true,
    };
    let mut engine = engine_of(vec![warrior_at(TilePos(2, 2), 10), striker]);
    engine.status = TurnStatus::EnemyRunning;
    engine.animation_complete();
    assert_eq!(engine.combatants[0].health.health, 0);
    assert_eq!(engine.summary, Some(RoundSummary(RoundResult::Defeat)));
}

#[test]
fn clearing_the_enemies_wins_the_round() {
    let mut attacker = warrior_at(TilePos(1, 2), 100);
    attacker.action = EntityPendingAction {
        action: EntityAction::Attack(PendingAttack::new(
            1,
            TilePos(2, 2),
            TilePos(1, 2),
            TilePos(1, 2),
        )),
        is_ready: true,
    };
    let mut engine = engine_of(vec![attacker, enemy_at(TilePos(2, 2), 40)]);
    engine.status = TurnStatus::PlayerRunning;
    engine.animation_complete();
    assert_eq!(engine.combatants[1].health.health, 0);
    assert_eq!(engine.summary, Some(RoundSummary(RoundResult::Victory)));
}

#[test]
fn start_turn_waits_for_ready_players() {
    let mut undecided = warrior_at(TilePos(1, 2), 100);
    undecided.action = EntityPendingAction::default_attack();
    let mut engine = engine_of(vec![undecided]);
    engine.start_turn();
    assert_eq!(engine.status, TurnStatus::PlayerChoosing);
    let done = EntityPendingAction {
        action: EntityAction::Move(TilePos(1, 2), TilePos(2, 2)),
        is_ready: true,
    };
    engine.update_player_action(0, done).unwrap();
    engine.start_turn();
    assert_eq!(engine.status, TurnStatus::PlayerRunning);
}

#[test]
fn start_turn_is_dropped_while_animating() {
    let mut engine = engine_of(vec![warrior_at(TilePos(1, 2), 100)]);
    engine.status = TurnStatus::EnemyRunning;
    engine.start_turn();
    assert_eq!(engine.status, TurnStatus::EnemyRunning);
}

#[test]
fn update_player_action_rejects_missing_combatant() {
    let mut engine = engine_of(vec![warrior_at(TilePos(1, 2), 100)]);
    let action = EntityPendingAction::default();
    assert_eq!(engine.update_player_action(3, action), Err(NotFound));
}

#[test]
fn a_full_cycle_returns_to_choosing() {
    // Choosing, player phase, enemy phase, choosing again: one
    // history record with the post-commit healths.
    let mut engine = engine_of(vec![
        warrior_at(TilePos(3, 3), 100),
        wizard_at(TilePos(2, 3), 90),
        enemy_at(TilePos(7, 7), 60),
    ]);
    engine.start_turn();
    assert_eq!(engine.status, TurnStatus::PlayerRunning);
    engine.animation_complete();
    assert_eq!(engine.status, TurnStatus::EnemyRunning);
    engine.animation_complete();
    assert_eq!(engine.status, TurnStatus::PlayerChoosing);
    assert_eq!(engine.history.len(), 1);
    assert_eq!(engine.history[0].warrior_health, 100);
    assert_eq!(engine.history[0].wizard_health, 90);
    assert_eq!(engine.summary, None);
}

#[test]
fn a_finished_round_freezes_the_machine() {
    let mut engine = engine_of(vec![warrior_at(TilePos(1, 2), 100)]);
    engine.summary = Some(RoundSummary(RoundResult::Victory));
    engine.start_turn();
    assert_eq!(engine.status, TurnStatus::PlayerChoosing);
    engine.animation_complete();
    assert_eq!(engine.status, TurnStatus::PlayerChoosing);
    assert_eq!(engine.history.len(), 0);
}
