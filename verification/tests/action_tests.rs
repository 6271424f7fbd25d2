use wizard_tactics::action::{EntityAction, EntityPendingAction, PendingAttack};
use wizard_tactics::grid::TilePos;
use wizard_tactics::spells::{AvailableSpell, WizardFieldType, WizardScalarType};

#[test]
fn action_kind_queries() {
    let mv = EntityPendingAction {
        action: EntityAction::Move(TilePos(1, 2), TilePos(1, 3)),
        is_ready: true,
    };
    assert!(mv.is_move());
    assert!(!mv.is_attack());
    assert!(!mv.is_wait());

    let atk = EntityPendingAction {
        action: EntityAction::Attack(PendingAttack::new(
            0,
            TilePos(2, 2),
            TilePos(2, 3),
            TilePos(2, 4),
        )),
        is_ready: true,
    };
    assert!(atk.is_attack());
    assert!(!atk.is_move());

    let wait = EntityPendingAction::default();
    assert!(wait.is_wait());
    assert!(wait.is_ready);
}

#[test]
fn default_attack_is_not_ready() {
    let a = EntityPendingAction::default_attack();
    assert!(!a.is_ready);
    assert!(a.is_attack());
}

#[test]
fn get_spell_names_only_casts() {
    let cast = EntityPendingAction {
        action: EntityAction::Cast(String::from("Test1")),
        is_ready: true,
    };
    assert_eq!(cast.get_spell(), Some("Test1"));
    assert_eq!(EntityPendingAction::default().get_spell(), None);
}

#[test]
fn payload_accessors_match_variants() {
    let mv = EntityPendingAction {
        action: EntityAction::Move(TilePos(1, 2), TilePos(4, 2)),
        is_ready: true,
    };
    assert_eq!(mv.move_target(), Some(TilePos(4, 2)));
    assert_eq!(mv.attack_payload(), None);
    let pa = PendingAttack::new(3, TilePos(2, 2), TilePos(2, 3), TilePos(2, 4));
    let atk = EntityPendingAction { action: EntityAction::Attack(pa), is_ready: true };
    assert_eq!(atk.attack_payload(), Some(pa));
    assert_eq!(atk.move_target(), None);
}

#[test]
fn cloned_actions_compare_equal() {
    let source = EntityPendingAction {
        action: EntityAction::Cast(String::from("Test2")),
        is_ready: false,
    };
    let copy = source.clone();
    assert_eq!(copy, source);
}

#[test]
fn spell_types_carry_their_payloads() {
    let scalar = WizardScalarType::Integer(7);
    let field = WizardFieldType::List(3, scalar);
    assert_eq!(field, WizardFieldType::List(3, WizardScalarType::Integer(7)));
    assert_ne!(field, WizardFieldType::Scalar(scalar));
    let spell = AvailableSpell {
        name: String::from("Test1"),
        desc: String::from("The first test spell"),
    };
    assert_eq!(spell.name, "Test1");
}
