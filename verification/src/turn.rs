//! The turn state machine: phases, the commit step that applies
//! pending actions to positions and health, the per-cycle history
//! records, and the round-end check.
//!
//! The cycle is strictly sequential: the players choose, the player
//! phase animates and commits, the enemies plan and their phase
//! animates and commits, and the cycle returns to choosing. The
//! embedding application drives the machine with two events: the
//! external end-turn trigger and the completion of an animation phase.

use crate::action::{EntityAction, EntityPendingAction};
use crate::constants;
use crate::enemy;
use crate::grid::{tile_dist, tile_distance, TilePos};
use crate::level::{RoundResult, RoundSummary};
use crate::map_entities::{Combatant, MapEntityType, PlayerType};
use vstd::prelude::*;

verus! {

/// The phase the turn cycle is in. Exactly one is active at a time.
#[derive(PartialEq, Eq, Structural, Clone, Copy, Debug)]
pub enum TurnStatus {
    PlayerRunning,
    EnemyRunning,
    PlayerChoosing,
}

/// Snapshot of both players' health, appended to the history each
/// time the cycle returns to the choosing phase. Read-only afterwards.
#[derive(PartialEq, Eq, Structural, Clone, Copy, Debug)]
pub struct CompletedTurn {
    pub wizard_health: u32,
    pub warrior_health: u32,
}

/// A lookup named a combatant that does not exist, usually because it
/// was removed between queuing and resolution.
#[derive(PartialEq, Eq, Structural, Clone, Copy, Debug)]
pub struct NotFound;

/// The pending action every combatant holds after its phase resolves:
/// wait, ready for new input.
pub open spec fn reset_action() -> EntityPendingAction {
    EntityPendingAction { action: EntityAction::Wait, is_ready: true }
}

/// Fixed damage dealt by an attacker of the given faction.
pub open spec fn damage_of(kind: MapEntityType) -> u32 {
    match kind {
        MapEntityType::Enemy => constants::ENEMY_ATTACK_DAMAGE,
        MapEntityType::Player(_) => constants::PLAYER_ATTACK_DAMAGE,
        MapEntityType::Neutral => 0,
    }
}

/// Health after taking damage, floored at zero.
pub open spec fn floor_damage(h: u32, d: u32) -> u32 {
    if h >= d {
        (h - d) as u32
    } else {
        0
    }
}

/// The same combatant with a different pending action.
pub open spec fn with_action(c: Combatant, a: EntityPendingAction) -> Combatant {
    Combatant {
        kind: c.kind,
        pos: c.pos,
        health: c.health,
        magika: c.magika,
        enemy: c.enemy,
        action: a,
    }
}

/// The same combatant with a different health.
pub open spec fn with_health(c: Combatant, h: u32) -> Combatant {
    Combatant {
        kind: c.kind,
        pos: c.pos,
        health: crate::map_entities::EntityHealth { health: h },
        magika: c.magika,
        enemy: c.enemy,
        action: c.action,
    }
}

/// Resolution of a single combatant's pending action. A non-ready
/// action is treated as a wait. A move commits the destination. An
/// attack re-validates adjacency at resolution time: it deals its
/// fixed damage only when the attacker's final tile is adjacent to the
/// recorded target tile and the target still exists, but it consumes
/// the attacker's movement either way. A wait or a cast changes
/// nothing. In every case the action resets to a ready wait.
pub open spec fn commit_one(s: Seq<Combatant>, i: int) -> Seq<Combatant> {
    let c = s[i];
    if !c.action.is_ready {
        s.update(i, with_action(c, reset_action()))
    } else {
        match c.action.action {
            EntityAction::Move(_, end) => s.update(
                i,
                Combatant {
                    kind: c.kind,
                    pos: end,
                    health: c.health,
                    magika: c.magika,
                    enemy: c.enemy,
                    action: reset_action(),
                },
            ),
            EntityAction::Attack(pa) => {
                let s1 = if tile_dist(pa.new_standing_position, pa.enemy_position) == 1
                    && pa.enemy_entity < s.len() {
                    let t = s[pa.enemy_entity as int];
                    s.update(
                        pa.enemy_entity as int,
                        with_health(t, floor_damage(t.health.health, damage_of(c.kind))),
                    )
                } else {
                    s
                };
                let a = s1[i];
                s1.update(
                    i,
                    Combatant {
                        kind: a.kind,
                        pos: pa.new_standing_position,
                        health: a.health,
                        magika: a.magika,
                        enemy: a.enemy,
                        action: reset_action(),
                    },
                )
            },
            _ => s.update(i, with_action(c, reset_action())),
        }
    }
}

/// Whether a combatant belongs to the phase being resolved: players
/// resolve at the end of the player phase, everyone else at the end of
/// the enemy phase.
pub open spec fn phase_matches(kind: MapEntityType, player_phase: bool) -> bool {
    if player_phase {
        kind is Player
    } else {
        !(kind is Player)
    }
}

/// Sequential resolution of the first n combatants, in table order:
/// each commit sees the effects of the commits before it in the same
/// batch, so a later attack reads an earlier one's health change.
pub open spec fn commit_upto(s: Seq<Combatant>, player_phase: bool, n: int) -> Seq<Combatant>
    decreases n,
{
    if n <= 0 {
        s
    } else {
        let prev = commit_upto(s, player_phase, n - 1);
        if phase_matches(prev[n - 1].kind, player_phase) {
            commit_one(prev, n - 1)
        } else {
            prev
        }
    }
}

/// Resolving one combatant keeps the table's length and every
/// combatant's faction, resource pool and behavior data.
pub proof fn lemma_commit_one_frame(s: Seq<Combatant>, i: int)
    requires
        0 <= i < s.len(),
    ensures
        commit_one(s, i).len() == s.len(),
        forall|j: int|
            0 <= j < s.len() ==> {
                let c = #[trigger] commit_one(s, i)[j];
                c.kind == s[j].kind && c.magika == s[j].magika && c.enemy == s[j].enemy
            },
        forall|j: int| 0 <= j < s.len() && j != i ==> commit_one(s, i)[j].pos == s[j].pos,
        forall|j: int| 0 <= j < s.len() && j != i ==> commit_one(s, i)[j].action == s[j].action,
{
}

/// Sequential resolution keeps the table's length and every
/// combatant's faction, resource pool and behavior data.
pub proof fn lemma_commit_upto_frame(s: Seq<Combatant>, player_phase: bool, n: int)
    requires
        0 <= n <= s.len(),
    ensures
        commit_upto(s, player_phase, n).len() == s.len(),
        forall|j: int|
            0 <= j < s.len() ==> {
                let c = #[trigger] commit_upto(s, player_phase, n)[j];
                c.kind == s[j].kind && c.magika == s[j].magika && c.enemy == s[j].enemy
            },
    decreases n,
{
    if n > 0 {
        lemma_commit_upto_frame(s, player_phase, n - 1);
        if phase_matches(commit_upto(s, player_phase, n - 1)[n - 1].kind, player_phase) {
            lemma_commit_one_frame(commit_upto(s, player_phase, n - 1), n - 1);
        }
    }
}

/// Committing a wait never changes any position or any health: a
/// combatant that waits (or whose action is not ready, or casts, which
/// resolves as a no-op) only has its pending action reset.
pub proof fn lemma_wait_commit_unchanged(s: Seq<Combatant>, i: int)
    requires
        0 <= i < s.len(),
        !s[i].action.is_ready || s[i].action.action is Wait || s[i].action.action is Cast,
    ensures
        commit_one(s, i).len() == s.len(),
        forall|j: int| 0 <= j < s.len() ==> (#[trigger] commit_one(s, i)[j]).pos == s[j].pos,
        forall|j: int| 0 <= j < s.len() ==> (#[trigger] commit_one(s, i)[j]).health == s[j].health,
        forall|j: int| 0 <= j < s.len() && j != i ==> commit_one(s, i)[j] == s[j],
        commit_one(s, i)[i] == with_action(s[i], reset_action()),
{
}

/// Some player combatant is down.
pub open spec fn any_player_down(s: Seq<Combatant>) -> bool {
    exists|i: int|
        0 <= i < s.len() && (#[trigger] s[i]).kind is Player && s[i].health.health == 0
}

/// There is at least one enemy combatant.
pub open spec fn has_enemies(s: Seq<Combatant>) -> bool {
    exists|i: int| 0 <= i < s.len() && (#[trigger] s[i]).kind is Enemy
}

/// Every enemy combatant is down.
pub open spec fn all_enemies_down(s: Seq<Combatant>) -> bool {
    forall|i: int|
        0 <= i < s.len() && (#[trigger] s[i]).kind is Enemy ==> s[i].health.health == 0
}

/// The outcome the round-end check produces for a combatant table:
/// defeat the moment any player is down, taking precedence over
/// victory even when every enemy fell in the same resolution batch;
/// victory when at least one enemy existed and all are down; otherwise
/// the round goes on.
pub open spec fn round_outcome(s: Seq<Combatant>) -> Option<RoundSummary> {
    if any_player_down(s) {
        Some(RoundSummary(RoundResult::Defeat))
    } else if has_enemies(s) && all_enemies_down(s) {
        Some(RoundSummary(RoundResult::Victory))
    } else {
        None
    }
}

/// Defeat takes precedence: whenever any player combatant is down,
/// the round ends in defeat, even if every enemy went down in the same
/// resolution batch.
pub proof fn lemma_defeat_takes_precedence(s: Seq<Combatant>)
    requires
        any_player_down(s),
    ensures
        round_outcome(s) == Some(RoundSummary(RoundResult::Defeat)),
{
}

/// The health snapshot taken for the history: the last-listed warrior
/// player and the last-listed non-warrior player, zero for a slot with
/// no such player.
pub open spec fn warrior_health_of(s: Seq<Combatant>) -> u32
    decreases s.len(),
{
    if s.len() == 0 {
        0
    } else if s.last().kind == MapEntityType::Player(PlayerType::Warrior) {
        s.last().health.health
    } else {
        warrior_health_of(s.drop_last())
    }
}

/// See `warrior_health_of`; this is the other slot.
pub open spec fn wizard_health_of(s: Seq<Combatant>) -> u32
    decreases s.len(),
{
    if s.len() == 0 {
        0
    } else if s.last().kind is Player && s.last().kind != MapEntityType::Player(
        PlayerType::Warrior,
    ) {
        s.last().health.health
    } else {
        wizard_health_of(s.drop_last())
    }
}

/// Every player combatant has a ready action.
pub open spec fn all_players_ready(s: Seq<Combatant>) -> bool {
    forall|i: int|
        0 <= i < s.len() && (#[trigger] s[i]).kind is Player ==> s[i].action.is_ready
}

/// The turn state machine for one round: the current phase, the
/// combatant table, the static blockers and map dimensions the enemy
/// planner works with, the per-cycle history, and the terminal round
/// summary once one exists.
///
/// Combatant health and position are mutated only by the resolution
/// step here; planning and input write only pending actions. A single
/// phase field makes two concurrent animation phases unrepresentable,
/// so the mutual exclusion between the player and enemy phases holds
/// by construction.
pub struct TurnEngine {
    pub status: TurnStatus,
    pub combatants: Vec<Combatant>,
    pub static_blockers: Vec<TilePos>,
    pub map_dim: (u32, u32),
    pub history: Vec<CompletedTurn>,
    pub summary: Option<RoundSummary>,
}

impl TurnEngine {
    /// Every enemy carries behavior data and can move at least one
    /// tile per turn.
    pub open spec fn wf(self) -> bool {
        enemy::enemies_wf(self.combatants@)
    }

    /// A fresh engine in the choosing phase, with no history and no
    /// outcome yet.
    pub fn new(
        combatants: Vec<Combatant>,
        static_blockers: Vec<TilePos>,
        map_dim: (u32, u32),
    ) -> (r: TurnEngine)
        requires
            enemy::enemies_wf(combatants@),
        ensures
            r.wf(),
            r.status == TurnStatus::PlayerChoosing,
            r.combatants@ == combatants@,
            r.static_blockers@ == static_blockers@,
            r.map_dim == map_dim,
            r.history@.len() == 0,
            r.summary is None,
    {
        TurnEngine {
            status: TurnStatus::PlayerChoosing,
            combatants,
            static_blockers,
            map_dim,
            history: Vec::new(),
            summary: None,
        }
    }

    /// Resolves the pending actions of one phase's combatants, in
    /// table order, as `commit_upto` describes.
    pub fn execute_turn(&mut self, player_phase: bool)
        ensures
            final(self).combatants@ == commit_upto(
                old(self).combatants@,
                player_phase,
                old(self).combatants@.len() as int,
            ),
            final(self).status == old(self).status,
            final(self).static_blockers@ == old(self).static_blockers@,
            final(self).map_dim == old(self).map_dim,
            final(self).history@ == old(self).history@,
            final(self).summary == old(self).summary,
    {
        let n = self.combatants.len();
        let mut i: usize = 0;
        while i < n
            invariant
                n == old(self).combatants@.len(),
                i <= n,
                self.combatants@ == commit_upto(old(self).combatants@, player_phase, i as int),
                self.combatants@.len() == n,
                self.status == old(self).status,
                self.static_blockers@ == old(self).static_blockers@,
                self.map_dim == old(self).map_dim,
                self.history@ == old(self).history@,
                self.summary == old(self).summary,
            decreases n - i,
        {
            let ghost cur = self.combatants@;
            proof {
                lemma_commit_upto_frame(old(self).combatants@, player_phase, i as int);
            }
            let kind = self.combatants[i].kind;
            let in_phase = if player_phase {
                matches!(kind, MapEntityType::Player(_))
            } else {
                !matches!(kind, MapEntityType::Player(_))
            };
            if in_phase {
                let ready = self.combatants[i].action.is_ready;
                let mv = self.combatants[i].action.move_target();
                let atk = self.combatants[i].action.attack_payload();
                if ready {
                    if let Some(end) = mv {
                        let c = Combatant {
                            kind: self.combatants[i].kind,
                            pos: end,
                            health: self.combatants[i].health,
                            magika: self.combatants[i].magika,
                            enemy: self.combatants[i].enemy,
                            action: EntityPendingAction {
                                action: EntityAction::Wait,
                                is_ready: true,
                            },
                        };
                        self.combatants.set(i, c);
                    } else if let Some(pa) = atk {
                        if tile_distance(&pa.new_standing_position, &pa.enemy_position) == 1
                            && pa.enemy_entity < self.combatants.len() {
                            let t_idx = pa.enemy_entity;
                            let dmg = match kind {
                                MapEntityType::Enemy => constants::ENEMY_ATTACK_DAMAGE,
                                MapEntityType::Player(_) => constants::PLAYER_ATTACK_DAMAGE,
                                MapEntityType::Neutral => 0,
                            };
                            let th = self.combatants[t_idx].health.health;
                            let nh = if th >= dmg {
                                th - dmg
                            } else {
                                0
                            };
                            let t = Combatant {
                                kind: self.combatants[t_idx].kind,
                                pos: self.combatants[t_idx].pos,
                                health: crate::map_entities::EntityHealth { health: nh },
                                magika: self.combatants[t_idx].magika,
                                enemy: self.combatants[t_idx].enemy,
                                action: EntityPendingAction {
                                    action: self.combatants[t_idx].action.action.clone(),
                                    is_ready: self.combatants[t_idx].action.is_ready,
                                },
                            };
                            self.combatants.set(t_idx, t);
                        }
                        let a = Combatant {
                            kind: self.combatants[i].kind,
                            pos: pa.new_standing_position,
                            health: self.combatants[i].health,
                            magika: self.combatants[i].magika,
                            enemy: self.combatants[i].enemy,
                            action: EntityPendingAction {
                                action: EntityAction::Wait,
                                is_ready: true,
                            },
                        };
                        self.combatants.set(i, a);
                    } else {
                        let c = Combatant {
                            kind: self.combatants[i].kind,
                            pos: self.combatants[i].pos,
                            health: self.combatants[i].health,
                            magika: self.combatants[i].magika,
                            enemy: self.combatants[i].enemy,
                            action: EntityPendingAction {
                                action: EntityAction::Wait,
                                is_ready: true,
                            },
                        };
                        self.combatants.set(i, c);
                    }
                } else {
                    let c = Combatant {
                        kind: self.combatants[i].kind,
                        pos: self.combatants[i].pos,
                        health: self.combatants[i].health,
                        magika: self.combatants[i].magika,
                        enemy: self.combatants[i].enemy,
                        action: EntityPendingAction { action: EntityAction::Wait, is_ready: true },
                    };
                    self.combatants.set(i, c);
                }
                proof {
                    assert(self.combatants@ =~= commit_one(cur, i as int));
                }
            }
            proof {
                assert(self.combatants@ == commit_upto(
                    old(self).combatants@,
                    player_phase,
                    i + 1,
                ));
            }
            i = i + 1;
        }
    }
}

/// Whether two engine states are identical, field by field.
pub open spec fn same_engine(a: TurnEngine, b: TurnEngine) -> bool {
    &&& a.status == b.status
    &&& a.combatants@ == b.combatants@
    &&& a.static_blockers@ == b.static_blockers@
    &&& a.map_dim == b.map_dim
    &&& a.history@ == b.history@
    &&& a.summary == b.summary
}

/// The round outcome reads only factions and health, so two tables
/// that agree on those agree on the outcome.
pub proof fn lemma_round_outcome_congruent(s1: Seq<Combatant>, s2: Seq<Combatant>)
    requires
        s1.len() == s2.len(),
        forall|i: int|
            0 <= i < s1.len() ==> (#[trigger] s1[i]).kind == s2[i].kind && s1[i].health
                == s2[i].health,
    ensures
        round_outcome(s1) == round_outcome(s2),
{
    assert(any_player_down(s1) == any_player_down(s2)) by {
        if any_player_down(s1) {
            let i = choose|i: int|
                0 <= i < s1.len() && (#[trigger] s1[i]).kind is Player && s1[i].health.health
                    == 0;
            assert((#[trigger] s2[i]).kind is Player && s2[i].health.health == 0);
        }
        if any_player_down(s2) {
            let i = choose|i: int|
                0 <= i < s2.len() && (#[trigger] s2[i]).kind is Player && s2[i].health.health
                    == 0;
            assert((#[trigger] s1[i]).kind is Player && s1[i].health.health == 0);
        }
    }
    assert(has_enemies(s1) == has_enemies(s2)) by {
        if has_enemies(s1) {
            let i = choose|i: int| 0 <= i < s1.len() && (#[trigger] s1[i]).kind is Enemy;
            assert((#[trigger] s2[i]).kind is Enemy);
        }
        if has_enemies(s2) {
            let i = choose|i: int| 0 <= i < s2.len() && (#[trigger] s2[i]).kind is Enemy;
            assert((#[trigger] s1[i]).kind is Enemy);
        }
    }
    assert(all_enemies_down(s1) == all_enemies_down(s2)) by {
        assert forall|i: int|
            0 <= i < s1.len() && (#[trigger] s1[i]).kind is Enemy && all_enemies_down(s2) implies
            s1[i].health.health == 0 by {
            assert((#[trigger] s2[i]).kind is Enemy);
        }
        assert forall|i: int|
            0 <= i < s2.len() && (#[trigger] s2[i]).kind is Enemy && all_enemies_down(s1) implies
            s2[i].health.health == 0 by {
            assert((#[trigger] s1[i]).kind is Enemy);
        }
    }
}

/// Scans the table once for the three facts the round-end check needs.
fn scan_round(combatants: &Vec<Combatant>) -> (r: (bool, bool, bool))
    ensures
        r.0 == any_player_down(combatants@),
        r.1 == has_enemies(combatants@),
        r.2 == all_enemies_down(combatants@),
{
    let mut player_down = false;
    let mut has_enemy = false;
    let mut enemies_down = true;
    let mut i: usize = 0;
    while i < combatants.len()
        invariant
            i <= combatants@.len(),
            player_down <==> exists|j: int|
                0 <= j < i && (#[trigger] combatants@[j]).kind is Player
                    && combatants@[j].health.health == 0,
            has_enemy <==> exists|j: int| 0 <= j < i && (#[trigger] combatants@[j]).kind is Enemy,
            enemies_down <==> forall|j: int|
                0 <= j < i && (#[trigger] combatants@[j]).kind is Enemy
                    ==> combatants@[j].health.health == 0,
        decreases combatants@.len() - i,
    {
        let kind = combatants[i].kind;
        let health = combatants[i].health.health;
        if matches!(kind, MapEntityType::Player(_)) && health == 0 {
            player_down = true;
            proof {
                assert((#[trigger] combatants@[i as int]).kind is Player
                    && combatants@[i as int].health.health == 0);
            }
        }
        if matches!(kind, MapEntityType::Enemy) {
            has_enemy = true;
            proof {
                assert((#[trigger] combatants@[i as int]).kind is Enemy);
            }
            if health != 0 {
                enemies_down = false;
            }
        }
        i = i + 1;
    }
    (player_down, has_enemy, enemies_down)
}

/// Takes the health snapshot for a finished cycle.
fn snapshot_health(combatants: &Vec<Combatant>) -> (r: CompletedTurn)
    ensures
        r.warrior_health == warrior_health_of(combatants@),
        r.wizard_health == wizard_health_of(combatants@),
{
    let mut warrior: u32 = 0;
    let mut wizard: u32 = 0;
    let mut i: usize = 0;
    while i < combatants.len()
        invariant
            i <= combatants@.len(),
            warrior == warrior_health_of(combatants@.take(i as int)),
            wizard == wizard_health_of(combatants@.take(i as int)),
        decreases combatants@.len() - i,
    {
        proof {
            assert(combatants@.take(i + 1).drop_last() =~= combatants@.take(i as int));
            assert(combatants@.take(i + 1).last() == combatants@[i as int]);
        }
        if matches!(combatants[i].kind, MapEntityType::Player(_)) {
            if matches!(combatants[i].kind, MapEntityType::Player(PlayerType::Warrior)) {
                warrior = combatants[i].health.health;
            } else {
                wizard = combatants[i].health.health;
            }
        }
        i = i + 1;
    }
    proof {
        assert(combatants@.take(combatants@.len() as int) =~= combatants@);
    }
    CompletedTurn { wizard_health: wizard, warrior_health: warrior }
}

impl TurnEngine {
    /// The round-end check, run after every commit: it freezes the
    /// first outcome reached and never overwrites it. Defeat takes
    /// precedence, so a batch that downs the last player and the last
    /// enemy together ends in defeat.
    pub fn end_round(&mut self)
        ensures
            final(self).combatants@ == old(self).combatants@,
            final(self).status == old(self).status,
            final(self).static_blockers@ == old(self).static_blockers@,
            final(self).map_dim == old(self).map_dim,
            final(self).history@ == old(self).history@,
            old(self).summary is Some ==> final(self).summary == old(self).summary,
            old(self).summary is None ==> final(self).summary == round_outcome(
                old(self).combatants@,
            ),
    {
        if self.summary.is_some() {
            return ;
        }
        let scanned = scan_round(&self.combatants);
        if scanned.0 {
            self.summary = Some(RoundSummary(RoundResult::Defeat));
        } else if scanned.1 && scanned.2 {
            self.summary = Some(RoundSummary(RoundResult::Victory));
        }
    }

    /// Returns the cycle to the choosing phase and appends the health
    /// snapshot of the finished cycle to the history.
    pub fn start_player_choice_phase(&mut self)
        ensures
            final(self).status == TurnStatus::PlayerChoosing,
            final(self).combatants@ == old(self).combatants@,
            final(self).static_blockers@ == old(self).static_blockers@,
            final(self).map_dim == old(self).map_dim,
            final(self).summary == old(self).summary,
            final(self).history@ == old(self).history@.push(
                CompletedTurn {
                    wizard_health: wizard_health_of(old(self).combatants@),
                    warrior_health: warrior_health_of(old(self).combatants@),
                },
            ),
    {
        self.status = TurnStatus::PlayerChoosing;
        let ct = snapshot_health(&self.combatants);
        self.history.push(ct);
    }

    /// Replaces one combatant's pending action whole; a partial update
    /// is not supported at this layer. Names an absent combatant with
    /// `NotFound` instead of failing.
    pub fn update_player_action(&mut self, index: usize, action: EntityPendingAction) -> (r:
        Result<(), NotFound>)
        ensures
            index < old(self).combatants@.len() ==> r is Ok && final(self).combatants@ == old(
                self,
            ).combatants@.update(
                index as int,
                with_action(old(self).combatants@[index as int], action),
            ),
            index >= old(self).combatants@.len() ==> r == Err::<(), NotFound>(NotFound)
                && final(self).combatants@ == old(self).combatants@,
            final(self).status == old(self).status,
            final(self).static_blockers@ == old(self).static_blockers@,
            final(self).map_dim == old(self).map_dim,
            final(self).history@ == old(self).history@,
            final(self).summary == old(self).summary,
            old(self).wf() ==> final(self).wf(),
    {
        if index < self.combatants.len() {
            let c = Combatant {
                kind: self.combatants[index].kind,
                pos: self.combatants[index].pos,
                health: self.combatants[index].health,
                magika: self.combatants[index].magika,
                enemy: self.combatants[index].enemy,
                action,
            };
            self.combatants.set(index, c);
            Ok(())
        } else {
            Err(NotFound)
        }
    }

    /// The external end-turn trigger. It is honored only while the
    /// players are choosing, every player has a ready action, and the
    /// round has no outcome yet; any other start request is silently
    /// dropped as a no-op.
    pub fn start_turn(&mut self)
        ensures
            (old(self).status == TurnStatus::PlayerChoosing && old(self).summary is None
                && all_players_ready(old(self).combatants@)) ==> same_engine(
                *final(self),
                TurnEngine { status: TurnStatus::PlayerRunning, ..*old(self) },
            ),
            !(old(self).status == TurnStatus::PlayerChoosing && old(self).summary is None
                && all_players_ready(old(self).combatants@)) ==> same_engine(
                *final(self),
                *old(self),
            ),
    {
        if !matches!(self.status, TurnStatus::PlayerChoosing) {
            return ;
        }
        if self.summary.is_some() {
            return ;
        }
        let mut i: usize = 0;
        while i < self.combatants.len()
            invariant
                i <= self.combatants@.len(),
                same_engine(*self, *old(self)),
                forall|j: int|
                    0 <= j < i && (#[trigger] self.combatants@[j]).kind is Player
                        ==> self.combatants@[j].action.is_ready,
            decreases self.combatants@.len() - i,
        {
            if matches!(self.combatants[i].kind, MapEntityType::Player(_))
                && !self.combatants[i].action.is_ready {
                return ;
            }
            i = i + 1;
        }
        self.status = TurnStatus::PlayerRunning;
    }

    /// The animation-completed event: the authoritative transition out
    /// of a running phase. At the end of the player phase the players'
    /// actions are committed first, then every enemy plans against the
    /// updated positions. At the end of the enemy phase the enemies'
    /// actions are committed, the health snapshot is appended, and the
    /// cycle returns to choosing. The round-end check runs after each
    /// commit; an existing round outcome freezes the machine entirely.
    pub fn animation_complete(&mut self)
        requires
            old(self).wf(),
        ensures
            final(self).wf(),
            final(self).static_blockers@ == old(self).static_blockers@,
            final(self).map_dim == old(self).map_dim,
            old(self).summary is Some ==> same_engine(*final(self), *old(self)),
            old(self).summary is None && old(self).status == TurnStatus::PlayerChoosing
                ==> same_engine(*final(self), *old(self)),
            old(self).summary is None && old(self).status == TurnStatus::PlayerRunning ==> {
                let committed = commit_upto(
                    old(self).combatants@,
                    true,
                    old(self).combatants@.len() as int,
                );
                &&& final(self).status == TurnStatus::EnemyRunning
                &&& final(self).combatants@.len() == committed.len()
                &&& forall|i: int|
                    0 <= i < committed.len() ==> {
                        let c = #[trigger] final(self).combatants@[i];
                        c.kind == committed[i].kind && c.pos == committed[i].pos && c.health
                            == committed[i].health && c.magika == committed[i].magika && c.enemy
                            == committed[i].enemy
                    }
                &&& forall|i: int|
                    0 <= i < committed.len() && !((#[trigger] committed[i]).kind is Enemy)
                        ==> final(self).combatants@[i].action == committed[i].action
                &&& enemy::planning_ok(
                    committed,
                    final(self).combatants@,
                    old(self).static_blockers@,
                    old(self).map_dim,
                )
                &&& forall|i: int|
                    0 <= i < committed.len() && (#[trigger] committed[i]).kind is Enemy
                        ==> final(self).combatants@[i].action.is_ready
                &&& forall|i: int|
                    0 <= i < committed.len() && (#[trigger] committed[i]).kind is Enemy
                        ==> enemy::planned_action_ok(
                        final(self).combatants@[i].action.action,
                        committed[i].pos,
                        enemy::closest_target(
                            committed[i].pos,
                            enemy::warrior_of(committed),
                            enemy::wizard_of(committed),
                        ),
                    )
                &&& forall|i: int|
                    0 <= i < committed.len() && (#[trigger] committed[i]).kind is Enemy
                        ==> (enemy::closest_target(
                        committed[i].pos,
                        enemy::warrior_of(committed),
                        enemy::wizard_of(committed),
                    ) matches Some(t) ==> tile_dist(t.1, committed[i].pos) == 1
                        ==> final(self).combatants@[i].action.action == EntityAction::Attack(
                        crate::action::PendingAttack {
                            enemy_entity: t.0,
                            enemy_position: t.1,
                            new_standing_position: committed[i].pos,
                            starting_position: committed[i].pos,
                        },
                    ))
                &&& final(self).history@ == old(self).history@
                &&& final(self).summary == round_outcome(committed)
            },
            old(self).summary is None && old(self).status == TurnStatus::EnemyRunning ==> {
                let committed = commit_upto(
                    old(self).combatants@,
                    false,
                    old(self).combatants@.len() as int,
                );
                &&& final(self).status == TurnStatus::PlayerChoosing
                &&& final(self).combatants@ == committed
                &&& final(self).history@ == old(self).history@.push(
                    CompletedTurn {
                        wizard_health: wizard_health_of(committed),
                        warrior_health: warrior_health_of(committed),
                    },
                )
                &&& final(self).summary == round_outcome(committed)
            },
    {
        if self.summary.is_some() {
            return ;
        }
        match self.status {
            TurnStatus::PlayerChoosing => {},
            TurnStatus::PlayerRunning => {
                self.execute_turn(true);
                let ghost committed = self.combatants@;
                proof {
                    lemma_commit_upto_frame(
                        old(self).combatants@,
                        true,
                        old(self).combatants@.len() as int,
                    );
                    assert(enemy::enemies_wf(self.combatants@));
                }
                enemy::enemy_ai(&mut self.combatants, &self.static_blockers, self.map_dim);
                self.status = TurnStatus::EnemyRunning;
                proof {
                    lemma_round_outcome_congruent(self.combatants@, committed);
                }
                self.end_round();
            },
            TurnStatus::EnemyRunning => {
                self.execute_turn(false);
                proof {
                    lemma_commit_upto_frame(
                        old(self).combatants@,
                        false,
                        old(self).combatants@.len() as int,
                    );
                }
                self.end_round();
                self.start_player_choice_phase();
            },
        }
    }
}

} // verus!
