use wizard_tactics::action::{EntityAction, EntityPendingAction, PendingAttack};
use wizard_tactics::enemy::{
    decide_enemy_action, enemy_ai, resolve_ai_type, run_in_direction, Enemy, EnemyAIType,
};
use wizard_tactics::grid::TilePos;
use wizard_tactics::map_entities::{Combatant, EntityHealth, MapEntityType, PlayerType};

fn enemy_at(pos: TilePos, ai_type: EnemyAIType, speed: u32, health: u32) -> Combatant {
    Combatant {
        kind: MapEntityType::Enemy,
        pos,
        health: EntityHealth { health },
        magika: None,
        enemy: Some(Enemy { ai_type, speed }),
        action: EntityPendingAction::default(),
    }
}

fn warrior_at(pos: TilePos, health: u32) -> Combatant {
    Combatant {
        kind: MapEntityType::Player(PlayerType::Warrior),
        pos,
        health: EntityHealth { health },
        magika: None,
        enemy: None,
        action: EntityPendingAction::default(),
    }
}

#[test]
fn weak_enemies_switch_to_flight() {
    assert_eq!(resolve_ai_type(EnemyAIType::AttackUntilWeak, 19), EnemyAIType::RunAway);
    assert_eq!(resolve_ai_type(EnemyAIType::AttackUntilWeak, 20), EnemyAIType::AttackClosest);
    assert_eq!(resolve_ai_type(EnemyAIType::StayPut, 1), EnemyAIType::StayPut);
    assert_eq!(resolve_ai_type(EnemyAIType::RunAway, 100), EnemyAIType::RunAway);
}

#[test]
fn adjacency_overrides_any_policy() {
    // Even a stay-put enemy attacks a target standing right next to it.
    let blocked: Vec<TilePos> = Vec::new();
    let e = Enemy { ai_type: EnemyAIType::StayPut, speed: 3 };
    let warrior = Some((0usize, TilePos(4, 5)));
    let action = decide_enemy_action(&e, &TilePos(5, 5), 100, warrior, None, &blocked, (10, 10));
    assert_eq!(
        action,
        EntityAction::Attack(PendingAttack::new(0, TilePos(4, 5), TilePos(5, 5), TilePos(5, 5)))
    );
}

#[test]
fn attacker_closes_in_and_queues_attack() {
    // Three tiles of movement cover the three-step path, so the enemy
    // ends adjacent and queues the strike in the same decision.
    let blocked: Vec<TilePos> = Vec::new();
    let e = Enemy { ai_type: EnemyAIType::AttackClosest, speed: 3 };
    let warrior = Some((0usize, TilePos(5, 1)));
    let action = decide_enemy_action(&e, &TilePos(5, 5), 100, warrior, None, &blocked, (10, 10));
    assert_eq!(
        action,
        EntityAction::Attack(PendingAttack::new(0, TilePos(5, 1), TilePos(5, 2), TilePos(5, 5)))
    );
}

#[test]
fn attacker_short_on_speed_only_moves() {
    let blocked: Vec<TilePos> = Vec::new();
    let e = Enemy { ai_type: EnemyAIType::AttackClosest, speed: 2 };
    let warrior = Some((0usize, TilePos(5, 1)));
    let action = decide_enemy_action(&e, &TilePos(5, 5), 100, warrior, None, &blocked, (10, 10));
    assert_eq!(action, EntityAction::Move(TilePos(5, 5), TilePos(5, 3)));
}

#[test]
fn walled_in_target_means_wait() {
    // The target is unreachable, so the enemy falls back to waiting.
    let blocked = vec![TilePos(5, 4), TilePos(5, 6), TilePos(4, 5), TilePos(6, 5)];
    let e = Enemy { ai_type: EnemyAIType::AttackClosest, speed: 3 };
    let warrior = Some((0usize, TilePos(5, 5)));
    let action = decide_enemy_action(&e, &TilePos(0, 0), 100, warrior, None, &blocked, (10, 10));
    assert_eq!(action, EntityAction::Wait);
}

#[test]
fn runner_flees_along_the_longer_axis() {
    // The anchor sits three rows above, so the runner goes straight
    // down its full two tiles of speed.
    let blocked: Vec<TilePos> = Vec::new();
    let e = Enemy { ai_type: EnemyAIType::RunAway, speed: 2 };
    let warrior = Some((0usize, TilePos(3, 6)));
    let action = decide_enemy_action(&e, &TilePos(3, 3), 100, warrior, None, &blocked, (10, 10));
    assert_eq!(action, EntityAction::Move(TilePos(3, 3), TilePos(3, 1)));
}

#[test]
fn runner_stops_at_the_map_edge() {
    let blocked: Vec<TilePos> = Vec::new();
    let action = run_in_direction(&TilePos(3, 1), 5, (10, 10), (0, -1), &blocked);
    assert_eq!(action, EntityAction::Move(TilePos(3, 1), TilePos(3, 0)));
    let action = run_in_direction(&TilePos(3, 0), 5, (10, 10), (0, -1), &blocked);
    assert_eq!(action, EntityAction::Wait);
}

#[test]
fn runner_stops_before_a_blocker() {
    let blocked = vec![TilePos(3, 5)];
    let action = run_in_direction(&TilePos(3, 3), 4, (10, 10), (0, 1), &blocked);
    assert_eq!(action, EntityAction::Move(TilePos(3, 3), TilePos(3, 4)));
}

#[test]
fn planning_pass_attacks_through_the_table() {
    // A full pass: the enemy sees the warrior four tiles south, walks
    // its three tiles and queues the attack, all marked ready.
    let mut combatants = vec![warrior_at(TilePos(5, 1), 100), enemy_at(
        TilePos(5, 5),
        EnemyAIType::AttackClosest,
        3,
        100,
    )];
    let static_blockers: Vec<TilePos> = Vec::new();
    enemy_ai(&mut combatants, &static_blockers, (10, 10));
    assert!(combatants[1].action.is_ready);
    assert_eq!(
        combatants[1].action.action,
        EntityAction::Attack(PendingAttack::new(0, TilePos(5, 1), TilePos(5, 2), TilePos(5, 5)))
    );
    // Planning writes only pending actions.
    assert_eq!(combatants[1].pos, TilePos(5, 5));
    assert_eq!(combatants[0].health.health, 100);
}

#[test]
fn earlier_mover_blocks_later_mover() {
    // Two enemies aim for the same side of the target; the second must
    // not claim the tile the first already took.
    let mut combatants = vec![
        warrior_at(TilePos(5, 1), 100),
        enemy_at(TilePos(5, 5), EnemyAIType::AttackClosest, 3, 100),
        enemy_at(TilePos(5, 6), EnemyAIType::AttackClosest, 4, 100),
    ];
    let static_blockers: Vec<TilePos> = Vec::new();
    enemy_ai(&mut combatants, &static_blockers, (10, 10));
    let first = match &combatants[1].action.action {
        EntityAction::Attack(pa) => pa.new_standing_position,
        other => panic!("unexpected action {:?}", other),
    };
    assert_eq!(first, TilePos(5, 2));
    match &combatants[2].action.action {
        EntityAction::Move(_, to) | EntityAction::Attack(PendingAttack {
            new_standing_position: to, ..
        }) => {
            assert_ne!(*to, first);
        }
        EntityAction::Wait => {}
        other => panic!("unexpected action {:?}", other),
    }
}

#[test]
fn stay_put_enemy_waits_at_range() {
    let mut combatants = vec![warrior_at(TilePos(5, 1), 100), enemy_at(
        TilePos(5, 5),
        EnemyAIType::StayPut,
        3,
        100,
    )];
    let static_blockers: Vec<TilePos> = Vec::new();
    enemy_ai(&mut combatants, &static_blockers, (10, 10));
    assert!(combatants[1].action.is_ready);
    assert_eq!(combatants[1].action.action, EntityAction::Wait);
}

#[test]
fn closest_target_tie_goes_to_the_warrior() {
    // Warrior and wizard both sit two tiles away; the warrior wins.
    let blocked: Vec<TilePos> = Vec::new();
    let e = Enemy { ai_type: EnemyAIType::StayPut, speed: 3 };
    let warrior = Some((0usize, TilePos(5, 3)));
    let wizard = Some((1usize, TilePos(5, 7)));
    // Adjacent to neither, but the tie-break shows in an adjacency
    // test: move the enemy next to both at once.
    let action = decide_enemy_action(&e, &TilePos(5, 4), 100, warrior, None, &blocked, (10, 10));
    assert_eq!(
        action,
        EntityAction::Attack(PendingAttack::new(0, TilePos(5, 3), TilePos(5, 4), TilePos(5, 4)))
    );
    let action =
        decide_enemy_action(&e, &TilePos(5, 5), 100, warrior, wizard, &blocked, (10, 10));
    // Equidistant: the warrior is the target.
    assert_eq!(action, EntityAction::Wait); // StayPut and not adjacent: waits
    let e = Enemy { ai_type: EnemyAIType::AttackClosest, speed: 1 };
    let action =
        decide_enemy_action(&e, &TilePos(5, 5), 100, warrior, wizard, &blocked, (10, 10));
    // One step toward the warrior lands adjacent, so the strike is
    // queued at once - against the warrior, not the wizard.
    assert_eq!(
        action,
        EntityAction::Attack(PendingAttack::new(0, TilePos(5, 3), TilePos(5, 4), TilePos(5, 5)))
    );
}

#[test]
fn wounded_attacker_runs_instead() {
    // Below the retreat threshold the attack-until-weak enemy flees
    // its anchor instead of closing in.
    let blocked: Vec<TilePos> = Vec::new();
    let e = Enemy { ai_type: EnemyAIType::AttackUntilWeak, speed: 2 };
    let warrior = Some((0usize, TilePos(3, 6)));
    let action = decide_enemy_action(&e, &TilePos(3, 3), 10, warrior, None, &blocked, (10, 10));
    assert_eq!(action, EntityAction::Move(TilePos(3, 3), TilePos(3, 1)));
    // At or above the threshold it attacks as usual.
    let action = decide_enemy_action(&e, &TilePos(3, 3), 20, warrior, None, &blocked, (10, 10));
    assert_eq!(
        action,
        EntityAction::Attack(PendingAttack::new(0, TilePos(3, 6), TilePos(3, 5), TilePos(3, 3)))
    );
}

#[test]
fn cornered_runner_waits() {
    // Every tile of the flight line is blocked: the runner stays put.
    let blocked = vec![TilePos(3, 2)];
    let e = Enemy { ai_type: EnemyAIType::RunAway, speed: 3 };
    let warrior = Some((0usize, TilePos(3, 6)));
    let action = decide_enemy_action(&e, &TilePos(3, 3), 100, warrior, None, &blocked, (10, 10));
    assert_eq!(action, EntityAction::Wait);
}
