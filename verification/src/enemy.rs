//! Enemy behavior: the closed set of AI policies and the per-enemy
//! decision process that turns grid state into a pending action.

use crate::action::{EntityAction, EntityPendingAction, PendingAttack};
use crate::constants;
use crate::grid::{on_map_spec, tile_dist, tile_distance, TilePos};
use crate::map_entities::{build_occupancy, Combatant, MapEntityType};
use crate::pathfind::get_move;
use vstd::prelude::*;

verus! {

/// The closed set of enemy policies. The tag is fixed at spawn time
/// and never learned or mutated during play.
#[derive(PartialEq, Eq, Structural, Clone, Copy, Debug)]
pub enum EnemyAIType {
    StayPut,
    /// Attacks the closest player until weak, then runs away.
    AttackUntilWeak,
    AttackWeakest,
    AttackClosest,
    RunAway,
}

/// Behavior data carried by every enemy combatant.
#[derive(PartialEq, Eq, Structural, Clone, Copy, Debug)]
pub struct Enemy {
    pub ai_type: EnemyAIType,
    pub speed: u32,
}

impl Default for Enemy {
    fn default() -> (r: Self)
        ensures
            r.ai_type == EnemyAIType::AttackClosest,
            r.speed == constants::ENEMY_DEFAULT_MOVE_SPEED,
    {
        Self { ai_type: EnemyAIType::AttackClosest, speed: constants::ENEMY_DEFAULT_MOVE_SPEED }
    }
}

/// The policy an enemy actually follows this turn: attacking until
/// weak collapses to running away below the retreat threshold and to
/// attacking the closest player otherwise.
pub open spec fn effective_ai_spec(ai_type: EnemyAIType, health: u32) -> EnemyAIType {
    if ai_type == EnemyAIType::AttackUntilWeak {
        if health < constants::ENEMY_RETREAT_HEALTH {
            EnemyAIType::RunAway
        } else {
            EnemyAIType::AttackClosest
        }
    } else {
        ai_type
    }
}

/// Resolves the configured policy against current health.
pub fn resolve_ai_type(ai_type: EnemyAIType, health: u32) -> (r: EnemyAIType)
    ensures
        r == effective_ai_spec(ai_type, health),
{
    if matches!(ai_type, EnemyAIType::AttackUntilWeak) {
        if health < constants::ENEMY_RETREAT_HEALTH {
            EnemyAIType::RunAway
        } else {
            EnemyAIType::AttackClosest
        }
    } else {
        ai_type
    }
}

/// The tile reached after j unit steps in an axis direction, as a pair
/// of mathematical integers.
pub open spec fn offset_pos(p: TilePos, dir: (i32, i32), j: int) -> (int, int) {
    (p.0 + j * dir.0, p.1 + j * dir.1)
}

/// Whether a tile lies on the map (full bounds, not just the interior)
/// and is not in the blocked list.
pub open spec fn step_free(q: (int, int), blocked: Seq<TilePos>, dim: (u32, u32)) -> bool {
    &&& 0 <= q.0 < dim.0
    &&& 0 <= q.1 < dim.1
    &&& !blocked.contains(TilePos(q.0 as u32, q.1 as u32))
}

/// What a straight flight produces: either no step was possible and
/// the runner waits, or it moves along the direction as far as its
/// speed and the first blocked or off-map tile allow.
pub open spec fn runs_away(
    r: EntityAction,
    pos: TilePos,
    dir: (i32, i32),
    speed: u32,
    blocked: Seq<TilePos>,
    dim: (u32, u32),
) -> bool {
    match r {
        EntityAction::Wait => speed == 0 || !step_free(offset_pos(pos, dir, 1), blocked, dim),
        EntityAction::Move(a, b) => {
            &&& a == pos
            &&& exists|k: int|
                {
                    &&& 1 <= k <= speed
                    &&& crate::pathfind::pos_pair(b) == #[trigger] offset_pos(pos, dir, k)
                    &&& (forall|j: int|
                        1 <= j <= k ==> step_free(#[trigger] offset_pos(pos, dir, j), blocked, dim))
                    &&& (k == speed || !step_free(offset_pos(pos, dir, k + 1), blocked, dim))
                }
        },
        _ => false,
    }
}

/// Walks tile by tile in one axis direction, up to `speed` tiles,
/// stopping before the first blocked or off-map tile. Queues a move to
/// the last free tile, or a wait when not even one step is possible.
pub fn run_in_direction(
    pos: &TilePos,
    speed: u32,
    map_dim: (u32, u32),
    direction: (i32, i32),
    blocked: &Vec<TilePos>,
) -> (r: EntityAction)
    requires
        direction == (0i32, 1i32) || direction == (0i32, -1i32) || direction == (1i32, 0i32)
            || direction == (-1i32, 0i32),
    ensures
        runs_away(r, *pos, direction, speed, blocked@, map_dim),
{
    let mut cx: i64 = pos.0 as i64;
    let mut cy: i64 = pos.1 as i64;
    let mut steps: u32 = 0;
    let mut i: u32 = 0;
    let mut done: bool = false;
    while i < speed && !done
        invariant
            direction == (0i32, 1i32) || direction == (0i32, -1i32) || direction == (1i32, 0i32)
                || direction == (-1i32, 0i32),
            steps <= i <= speed,
            !done ==> steps == i,
            (cx as int, cy as int) == offset_pos(*pos, direction, steps as int),
            steps >= 1 ==> 0 <= cx < map_dim.0 && 0 <= cy < map_dim.1,
            steps == 0 ==> cx == pos.0 && cy == pos.1,
            forall|j: int|
                1 <= j <= steps ==> step_free(
                    #[trigger] offset_pos(*pos, direction, j),
                    blocked@,
                    map_dim,
                ),
            done ==> !step_free(offset_pos(*pos, direction, steps + 1), blocked@, map_dim),
        decreases speed - i,
    {
        proof {
            assert((steps + 1) * direction.0 == steps * direction.0 + direction.0)
                by (nonlinear_arith);
            assert((steps + 1) * direction.1 == steps * direction.1 + direction.1)
                by (nonlinear_arith);
        }
        let tx: i64 = cx + direction.0 as i64;
        let ty: i64 = cy + direction.1 as i64;
        if tx < 0 || tx > map_dim.0 as i64 - 1 {
            done = true;
        } else if ty < 0 || ty > map_dim.1 as i64 - 1 {
            done = true;
        } else {
            let test = TilePos(tx as u32, ty as u32);
            if crate::pathfind::contains_pos(blocked, &test) {
                done = true;
            } else {
                cx = tx;
                cy = ty;
                steps = steps + 1;
            }
        }
        i = i + 1;
    }
    if steps == 0 {
        EntityAction::Wait
    } else {
        let dest = TilePos(cx as u32, cy as u32);
        proof {
            assert(crate::pathfind::pos_pair(dest) == offset_pos(*pos, direction, steps as int));
        }
        EntityAction::Move(*pos, dest)
    }
}

/// The player an enemy goes for: the nearer of the two by Manhattan
/// distance, the warrior on a tie, and the only player present when
/// one is missing. A target is an index into the combatant table with
/// the position it held when planning began.
pub open spec fn closest_target(
    enemy_pos: TilePos,
    warrior: Option<(usize, TilePos)>,
    wizard: Option<(usize, TilePos)>,
) -> Option<(usize, TilePos)> {
    match (warrior, wizard) {
        (None, None) => None,
        (Some(w), None) => Some(w),
        (None, Some(z)) => Some(z),
        (Some(w), Some(z)) => if tile_dist(enemy_pos, w.1) > tile_dist(enemy_pos, z.1) {
            Some(z)
        } else {
            Some(w)
        },
    }
}

/// Picks the closest player as `closest_target` describes.
pub fn pick_closest_target(
    enemy_pos: &TilePos,
    warrior: Option<(usize, TilePos)>,
    wizard: Option<(usize, TilePos)>,
) -> (r: Option<(usize, TilePos)>)
    ensures
        r == closest_target(*enemy_pos, warrior, wizard),
{
    match (warrior, wizard) {
        (None, None) => None,
        (Some(w), None) => Some(w),
        (None, Some(z)) => Some(z),
        (Some(w), Some(z)) => {
            if tile_distance(enemy_pos, &w.1) > tile_distance(enemy_pos, &z.1) {
                Some(z)
            } else {
                Some(w)
            }
        },
    }
}

/// The single-axis direction that takes a runner away from its anchor:
/// the axis with the larger position delta, the x axis on a tie, and
/// no direction at all when the runner stands on the anchor.
pub open spec fn run_dir(enemy_pos: TilePos, anchor: TilePos) -> (i32, i32) {
    let dx = crate::grid::abs_diff(anchor.0 as int, enemy_pos.0 as int);
    let dy = crate::grid::abs_diff(anchor.1 as int, enemy_pos.1 as int);
    if dx == 0 && dy == 0 {
        (0i32, 0i32)
    } else if dx >= dy {
        if anchor.0 > enemy_pos.0 {
            (-1i32, 0i32)
        } else {
            (1i32, 0i32)
        }
    } else {
        if anchor.1 > enemy_pos.1 {
            (0i32, -1i32)
        } else {
            (0i32, 1i32)
        }
    }
}

/// Computes the flight direction as `run_dir` describes.
fn pick_run_dir(enemy_pos: &TilePos, anchor: &TilePos) -> (r: (i32, i32))
    ensures
        r == run_dir(*enemy_pos, *anchor),
{
    let dx: u32 = if anchor.0 >= enemy_pos.0 {
        anchor.0 - enemy_pos.0
    } else {
        enemy_pos.0 - anchor.0
    };
    let dy: u32 = if anchor.1 >= enemy_pos.1 {
        anchor.1 - enemy_pos.1
    } else {
        enemy_pos.1 - anchor.1
    };
    if dx == 0 && dy == 0 {
        (0i32, 0i32)
    } else if dx >= dy {
        if anchor.0 > enemy_pos.0 {
            (-1i32, 0i32)
        } else {
            (1i32, 0i32)
        }
    } else {
        if anchor.1 > enemy_pos.1 {
            (0i32, -1i32)
        } else {
            (0i32, 1i32)
        }
    }
}

/// What one enemy's decision must look like. An enemy standing next to
/// its target always queues an attack, whatever its policy. Otherwise
/// an attacker moves along a found path, attacking at once when its
/// budget ends adjacent to the target; a runner flees its anchor; and
/// every other policy, or the lack of any target, waits.
pub open spec fn decision_ok(
    r: EntityAction,
    enemy: Enemy,
    enemy_pos: TilePos,
    enemy_health: u32,
    warrior: Option<(usize, TilePos)>,
    wizard: Option<(usize, TilePos)>,
    blocked: Seq<TilePos>,
    map_dim: (u32, u32),
) -> bool {
    match closest_target(enemy_pos, warrior, wizard) {
        None => r == EntityAction::Wait,
        Some(t) => {
            if tile_dist(t.1, enemy_pos) == 1 {
                r == EntityAction::Attack(
                    PendingAttack {
                        enemy_entity: t.0,
                        enemy_position: t.1,
                        new_standing_position: enemy_pos,
                        starting_position: enemy_pos,
                    },
                )
            } else {
                match effective_ai_spec(enemy.ai_type, enemy_health) {
                    EnemyAIType::AttackClosest => match r {
                        EntityAction::Wait => t.1 == enemy_pos || (crate::pathfind::a_star_model(
                            enemy_pos,
                            t.1,
                            blocked,
                            map_dim,
                        ) is None && crate::pathfind::no_reachable_adjacent(
                            enemy_pos,
                            t.1,
                            blocked,
                            map_dim,
                        )),
                        EntityAction::Move(a, b) => {
                            &&& a == enemy_pos
                            &&& b != enemy_pos
                            &&& on_map_spec(b, map_dim)
                            &&& !blocked.contains(b)
                            &&& tile_dist(b, t.1) != 1
                            &&& crate::pathfind::reachable_from(enemy_pos, b, blocked, map_dim)
                            &&& tile_dist(enemy_pos, b) <= enemy.speed
                            &&& !crate::pathfind::no_reachable_adjacent(
                                enemy_pos,
                                t.1,
                                blocked,
                                map_dim,
                            )
                            &&& crate::pathfind::budgeted_search_result(
                                b,
                                false,
                                enemy_pos,
                                t.1,
                                enemy.speed,
                                blocked,
                                map_dim,
                            )
                            &&& ({
                                let m = crate::pathfind::a_star_model(
                                    enemy_pos,
                                    t.1,
                                    blocked,
                                    map_dim,
                                );
                                m matches Some(mp) && enemy.speed < mp.len() && b == mp[
                                    enemy.speed as int - 1]
                            })
                        },
                        EntityAction::Attack(pa) => {
                            &&& pa.enemy_entity == t.0
                            &&& pa.enemy_position == t.1
                            &&& pa.starting_position == enemy_pos
                            &&& tile_dist(pa.new_standing_position, t.1) == 1
                            &&& on_map_spec(pa.new_standing_position, map_dim)
                            &&& !blocked.contains(pa.new_standing_position)
                            &&& pa.new_standing_position != enemy_pos
                            &&& crate::pathfind::reachable_from(
                                enemy_pos,
                                pa.new_standing_position,
                                blocked,
                                map_dim,
                            )
                            &&& tile_dist(enemy_pos, pa.new_standing_position) <= enemy.speed
                            &&& crate::pathfind::budgeted_search_result(
                                pa.new_standing_position,
                                true,
                                enemy_pos,
                                t.1,
                                enemy.speed,
                                blocked,
                                map_dim,
                            )
                            &&& ({
                                let m = crate::pathfind::a_star_model(
                                    enemy_pos,
                                    t.1,
                                    blocked,
                                    map_dim,
                                );
                                m matches Some(mp) && enemy.speed >= mp.len()
                                    && pa.new_standing_position == mp[mp.len() - 1]
                            })
                        },
                        _ => false,
                    },
                    EnemyAIType::RunAway => match warrior {
                        None => r == EntityAction::Wait,
                        Some(w) => if run_dir(enemy_pos, w.1) == (0i32, 0i32) {
                            r == EntityAction::Wait
                        } else {
                            runs_away(r, enemy_pos, run_dir(enemy_pos, w.1), enemy.speed, blocked,
                            map_dim)
                        },
                    },
                    _ => r == EntityAction::Wait,
                }
            }
        },
    }
}

/// Decides one enemy's action for this turn. The warrior doubles as
/// the anchor a fleeing enemy runs from; with no players left the
/// enemy stands still.
pub fn decide_enemy_action(
    enemy: &Enemy,
    enemy_pos: &TilePos,
    enemy_health: u32,
    warrior: Option<(usize, TilePos)>,
    wizard: Option<(usize, TilePos)>,
    blocked: &Vec<TilePos>,
    map_dim: (u32, u32),
) -> (r: EntityAction)
    requires
        enemy.speed >= 1,
    ensures
        decision_ok(r, *enemy, *enemy_pos, enemy_health, warrior, wizard, blocked@, map_dim),
{
    let target = match pick_closest_target(enemy_pos, warrior, wizard) {
        None => {
            return EntityAction::Wait;
        },
        Some(t) => t,
    };
    if tile_distance(&target.1, enemy_pos) == 1 {
        return EntityAction::Attack(
            PendingAttack::new(target.0, target.1, *enemy_pos, *enemy_pos),
        );
    }
    let ai_type = resolve_ai_type(enemy.ai_type, enemy_health);
    match ai_type {
        EnemyAIType::AttackClosest => {
            match get_move(enemy_pos, &target.1, enemy.speed, blocked, map_dim) {
                Some((new_pos, reached_target)) => {
                    if reached_target {
                        EntityAction::Attack(
                            PendingAttack::new(target.0, target.1, new_pos, *enemy_pos),
                        )
                    } else {
                        EntityAction::Move(*enemy_pos, new_pos)
                    }
                },
                None => EntityAction::Wait,
            }
        },
        EnemyAIType::RunAway => {
            match warrior {
                None => EntityAction::Wait,
                Some(w) => {
                    let dir = pick_run_dir(enemy_pos, &w.1);
                    if dir.0 == 0 && dir.1 == 0 {
                        EntityAction::Wait
                    } else {
                        run_in_direction(enemy_pos, enemy.speed, map_dim, dir, blocked)
                    }
                },
            }
        },
        _ => EntityAction::Wait,
    }
}

/// The warrior slot: the last player combatant without a magika pool,
/// as an index and the position it held when planning began.
pub open spec fn warrior_of(s: Seq<Combatant>) -> Option<(usize, TilePos)>
    decreases s.len(),
{
    if s.len() == 0 {
        None
    } else if s.last().kind is Player && s.last().magika is None {
        Some(((s.len() - 1) as usize, s.last().pos))
    } else {
        warrior_of(s.drop_last())
    }
}

/// The wizard slot: the last player combatant with a magika pool.
pub open spec fn wizard_of(s: Seq<Combatant>) -> Option<(usize, TilePos)>
    decreases s.len(),
{
    if s.len() == 0 {
        None
    } else if s.last().kind is Player && s.last().magika is Some {
        Some(((s.len() - 1) as usize, s.last().pos))
    } else {
        wizard_of(s.drop_last())
    }
}

/// Finds the warrior and wizard among the combatants.
fn find_players(combatants: &Vec<Combatant>) -> (r: (
    Option<(usize, TilePos)>,
    Option<(usize, TilePos)>,
))
    ensures
        r.0 == warrior_of(combatants@),
        r.1 == wizard_of(combatants@),
{
    let mut warrior: Option<(usize, TilePos)> = None;
    let mut wizard: Option<(usize, TilePos)> = None;
    let mut i: usize = 0;
    while i < combatants.len()
        invariant
            i <= combatants@.len(),
            warrior == warrior_of(combatants@.take(i as int)),
            wizard == wizard_of(combatants@.take(i as int)),
        decreases combatants@.len() - i,
    {
        proof {
            assert(combatants@.take(i + 1).drop_last() =~= combatants@.take(i as int));
            assert(combatants@.take(i + 1).last() == combatants@[i as int]);
        }
        let is_player = matches!(combatants[i].kind, MapEntityType::Player(_));
        if is_player {
            if combatants[i].magika.is_some() {
                wizard = Some((i, combatants[i].pos));
            } else {
                warrior = Some((i, combatants[i].pos));
            }
        }
        i = i + 1;
    }
    proof {
        assert(combatants@.take(combatants@.len() as int) =~= combatants@);
    }
    (warrior, wizard)
}

/// A copy of the list without any occurrence of one tile.
fn without_pos(v: &Vec<TilePos>, p: &TilePos) -> (r: Vec<TilePos>)
    ensures
        forall|q: TilePos| r@.contains(q) <==> (v@.contains(q) && q != *p),
{
    let mut out: Vec<TilePos> = Vec::new();
    let mut i: usize = 0;
    while i < v.len()
        invariant
            i <= v@.len(),
            forall|q: TilePos|
                out@.contains(q) <==> (v@.take(i as int).contains(q) && q != *p),
        decreases v@.len() - i,
    {
        let ghost pre = out@;
        if !(v[i] == *p) {
            out.push(v[i]);
        }
        proof {
            assert forall|q: TilePos|
                out@.contains(q) <==> (v@.take(i + 1).contains(q) && q != *p) by {
                if v@[i as int] != *p {
                    crate::grid::lemma_push_contains(pre, v@[i as int], q);
                }
                if v@.take(i + 1).contains(q) {
                    let k = choose|k: int| 0 <= k < i + 1 && #[trigger] v@.take(i + 1)[k] == q;
                    if k < i {
                        assert(v@.take(i as int)[k] == q);
                    }
                }
                if v@.take(i as int).contains(q) {
                    let k = choose|k: int| 0 <= k < i && #[trigger] v@.take(i as int)[k] == q;
                    assert(v@.take(i + 1)[k] == q);
                }
                if q == v@[i as int] && q != *p {
                    assert(v@.take(i + 1)[i as int] == q);
                }
            }
        }
        i = i + 1;
    }
    proof {
        assert(v@.take(v@.len() as int) =~= v@);
    }
    out
}

/// The occupancy-independent shape of a planned enemy action: it is
/// never a cast; a move starts at the enemy's own tile; an attack
/// names the closest player under its recorded tile and the enemy's
/// own origin; and an enemy with no target at all waits.
pub open spec fn planned_action_ok(
    a: EntityAction,
    enemy_pos: TilePos,
    target: Option<(usize, TilePos)>,
) -> bool {
    &&& !(a is Cast)
    &&& (a matches EntityAction::Move(from, to) ==> from == enemy_pos)
    &&& (a matches EntityAction::Attack(pa) ==> (target matches Some(t) && pa.enemy_entity == t.0
        && pa.enemy_position == t.1 && pa.starting_position == enemy_pos))
    &&& (target is None ==> a is Wait)
}

/// The first occupancy of a planning pass: the static blockers plus
/// every combatant's tile, exactly what `build_occupancy` returns.
pub open spec fn occupancy_matches_start(
    occ: Seq<TilePos>,
    static_blockers: Seq<TilePos>,
    combatants: Seq<Combatant>,
) -> bool {
    forall|p: TilePos|
        occ.contains(p) <==> (static_blockers.contains(p) || exists|k: int|
            0 <= k < combatants.len() && combatants[k].pos == p)
}

/// How one decision updates the occupancy for the enemies planned
/// after it: a mover or attacker frees the tile it leaves and claims
/// the tile it will stand on; a waiter changes nothing.
pub open spec fn occupancy_matches_step(
    next: Seq<TilePos>,
    prev: Seq<TilePos>,
    pos: TilePos,
    a: EntityAction,
) -> bool {
    match a {
        EntityAction::Move(_, b) => forall|p: TilePos|
            next.contains(p) <==> ((prev.contains(p) && p != pos) || p == b),
        EntityAction::Attack(pa) => forall|p: TilePos|
            next.contains(p) <==> ((prev.contains(p) && p != pos) || p
                == pa.new_standing_position),
        _ => forall|p: TilePos| next.contains(p) <==> prev.contains(p),
    }
}

/// One slot of the planning pass: an enemy's final action satisfies
/// the decision relation against the occupancy in force at its turn,
/// and the next occupancy follows from its claim; anyone else leaves
/// the occupancy untouched.
pub open spec fn planning_step_ok(
    occs: Seq<Seq<TilePos>>,
    j: int,
    before: Seq<Combatant>,
    after: Seq<Combatant>,
    warrior: Option<(usize, TilePos)>,
    wizard: Option<(usize, TilePos)>,
    map_dim: (u32, u32),
) -> bool {
    if before[j].kind is Enemy {
        &&& (before[j].enemy matches Some(e) && decision_ok(
            after[j].action.action,
            e,
            before[j].pos,
            before[j].health.health,
            warrior,
            wizard,
            occs[j],
            map_dim,
        ))
        &&& occupancy_matches_step(occs[j + 1], occs[j], before[j].pos, after[j].action.action)
    } else {
        occs[j + 1] == occs[j]
    }
}

/// The whole planning pass: some chain of occupancy lists starts from
/// the built occupancy and steps through every combatant in table
/// order, with each enemy's final action decided against its own
/// list. This is the sequential-blocking law: what an earlier enemy
/// claims is blocked for every later one.
pub open spec fn planning_ok(
    before: Seq<Combatant>,
    after: Seq<Combatant>,
    static_blockers: Seq<TilePos>,
    map_dim: (u32, u32),
) -> bool {
    exists|occs: Seq<Seq<TilePos>>|
        {
            &&& #[trigger] occs.len() == before.len() + 1
            &&& occupancy_matches_start(occs[0], static_blockers, before)
            &&& forall|j: int|
                0 <= j < before.len() ==> planning_step_ok(
                    occs,
                    j,
                    before,
                    after,
                    warrior_of(before),
                    wizard_of(before),
                    map_dim,
                )
        }
}

/// Every enemy combatant carries behavior data, with a movement speed
/// of at least one tile per turn.
pub open spec fn enemies_wf(s: Seq<Combatant>) -> bool {
    forall|i: int|
        0 <= i < s.len() && (#[trigger] s[i]).kind is Enemy ==> (s[i].enemy matches Some(e)
            && e.speed >= 1)
}

/// Plans every enemy's pending action for this turn, in combatant
/// order. Planning starts from an occupancy set holding the static
/// blockers and every combatant's tile; each decided enemy that moves
/// frees the tile it leaves and claims its destination, so later
/// enemies neither path through it nor pile onto the same tile.
/// Positions and health are not touched: only pending actions change,
/// and every enemy's action comes out ready.
#[verifier::rlimit(100)]
pub fn enemy_ai(combatants: &mut Vec<Combatant>, static_blockers: &Vec<TilePos>, map_dim: (
    u32,
    u32,
))
    requires
        enemies_wf(old(combatants)@),
    ensures
        planning_ok(old(combatants)@, final(combatants)@, static_blockers@, map_dim),
        final(combatants)@.len() == old(combatants)@.len(),
        forall|i: int|
            0 <= i < old(combatants)@.len() ==> {
                let c = #[trigger] final(combatants)@[i];
                let o = old(combatants)@[i];
                c.kind == o.kind && c.pos == o.pos && c.health == o.health && c.magika == o.magika
                    && c.enemy == o.enemy
            },
        forall|i: int|
            0 <= i < old(combatants)@.len() && !((#[trigger] old(combatants)@[i]).kind is Enemy)
                ==> final(combatants)@[i].action == old(combatants)@[i].action,
        forall|i: int|
            0 <= i < old(combatants)@.len() && (#[trigger] old(combatants)@[i]).kind is Enemy
                ==> final(combatants)@[i].action.is_ready,
        forall|i: int|
            0 <= i < old(combatants)@.len() && (#[trigger] old(combatants)@[i]).kind is Enemy
                ==> (closest_target(
                old(combatants)@[i].pos,
                warrior_of(old(combatants)@),
                wizard_of(old(combatants)@),
            ) matches Some(t) ==> tile_dist(t.1, old(combatants)@[i].pos) == 1
                ==> final(combatants)@[i].action.action == EntityAction::Attack(
                PendingAttack {
                    enemy_entity: t.0,
                    enemy_position: t.1,
                    new_standing_position: old(combatants)@[i].pos,
                    starting_position: old(combatants)@[i].pos,
                },
            )),
        forall|i: int|
            0 <= i < old(combatants)@.len() && (#[trigger] old(combatants)@[i]).kind is Enemy
                ==> planned_action_ok(
                final(combatants)@[i].action.action,
                old(combatants)@[i].pos,
                closest_target(
                    old(combatants)@[i].pos,
                    warrior_of(old(combatants)@),
                    wizard_of(old(combatants)@),
                ),
            ),
{
    let players = find_players(combatants);
    let warrior = players.0;
    let wizard = players.1;
    let mut occupancy = build_occupancy(static_blockers, combatants);
    let ghost mut occs: Seq<Seq<TilePos>> = seq![occupancy@];
    let mut i: usize = 0;
    while i < combatants.len()
        invariant
            combatants@.len() == old(combatants)@.len(),
            i <= combatants@.len(),
            occs.len() == i + 1,
            occs[i as int] == occupancy@,
            occupancy_matches_start(occs[0], static_blockers@, old(combatants)@),
            forall|j: int|
                0 <= j < i ==> planning_step_ok(
                    occs,
                    j,
                    old(combatants)@,
                    combatants@,
                    warrior,
                    wizard,
                    map_dim,
                ),
            enemies_wf(old(combatants)@),
            warrior == warrior_of(old(combatants)@),
            wizard == wizard_of(old(combatants)@),
            forall|j: int|
                0 <= j < old(combatants)@.len() ==> {
                    let c = #[trigger] combatants@[j];
                    let o = old(combatants)@[j];
                    c.kind == o.kind && c.pos == o.pos && c.health == o.health && c.magika
                        == o.magika && c.enemy == o.enemy
                },
            forall|j: int|
                i <= j < old(combatants)@.len() ==> (#[trigger] combatants@[j]).action == old(
                    combatants,
                )@[j].action,
            forall|j: int|
                0 <= j < i && !((#[trigger] old(combatants)@[j]).kind is Enemy)
                    ==> combatants@[j].action == old(combatants)@[j].action,
            forall|j: int|
                0 <= j < i && (#[trigger] old(combatants)@[j]).kind is Enemy
                    ==> combatants@[j].action.is_ready,
            forall|j: int|
                0 <= j < i && (#[trigger] old(combatants)@[j]).kind is Enemy ==> (closest_target(
                    old(combatants)@[j].pos,
                    warrior_of(old(combatants)@),
                    wizard_of(old(combatants)@),
                ) matches Some(t) ==> tile_dist(t.1, old(combatants)@[j].pos) == 1
                    ==> combatants@[j].action.action == EntityAction::Attack(
                    PendingAttack {
                        enemy_entity: t.0,
                        enemy_position: t.1,
                        new_standing_position: old(combatants)@[j].pos,
                        starting_position: old(combatants)@[j].pos,
                    },
                )),
            forall|j: int|
                0 <= j < i && (#[trigger] old(combatants)@[j]).kind is Enemy
                    ==> planned_action_ok(
                    combatants@[j].action.action,
                    old(combatants)@[j].pos,
                    closest_target(
                        old(combatants)@[j].pos,
                        warrior_of(old(combatants)@),
                        wizard_of(old(combatants)@),
                    ),
                ),
        decreases combatants@.len() - i,
    {
        let ghost pre_occs = occs;
        let ghost pre_table = combatants@;
        let is_enemy = matches!(combatants[i].kind, MapEntityType::Enemy);
        if is_enemy {
            proof {
                assert(old(combatants)@[i as int].kind is Enemy);
                assert(old(combatants)@[i as int].enemy matches Some(oe) && oe.speed >= 1);
                assert(combatants@[i as int].enemy == old(combatants)@[i as int].enemy);
            }
            let e: Enemy = match combatants[i].enemy {
                Some(e) => e,
                None => vstd::pervasive::unreached(),
            };
            let epos = combatants[i].pos;
            let ehealth = combatants[i].health.health;
            let decision = decide_enemy_action(
                &e,
                &epos,
                ehealth,
                warrior,
                wizard,
                &occupancy,
                map_dim,
            );
            let claim: Option<TilePos> = match &decision {
                EntityAction::Move(_, b) => Some(*b),
                EntityAction::Attack(pa) => Some(pa.new_standing_position),
                _ => None,
            };
            if let Some(dest) = claim {
                let ghost occ_pre = occupancy@;
                occupancy = without_pos(&occupancy, &epos);
                let ghost occ_removed = occupancy@;
                occupancy.push(dest);
                proof {
                    assert forall|p: TilePos|
                        occupancy@.contains(p) <==> ((occ_pre.contains(p) && p != epos) || p
                            == dest) by {
                        crate::grid::lemma_push_contains(occ_removed, dest, p);
                    }
                }
            }
            let updated = Combatant {
                kind: combatants[i].kind,
                pos: combatants[i].pos,
                health: combatants[i].health,
                magika: combatants[i].magika,
                enemy: combatants[i].enemy,
                action: EntityPendingAction { action: decision, is_ready: true },
            };
            combatants.set(i, updated);
            proof {
                occs = occs.push(occupancy@);
                assert(occupancy_matches_step(
                    occs[i + 1],
                    occs[i as int],
                    old(combatants)@[i as int].pos,
                    combatants@[i as int].action.action,
                ));
                assert(planning_step_ok(
                    occs,
                    i as int,
                    old(combatants)@,
                    combatants@,
                    warrior,
                    wizard,
                    map_dim,
                ));
            }
        } else {
            proof {
                occs = occs.push(occupancy@);
                assert(occs[i + 1] == occs[i as int]);
                assert(planning_step_ok(
                    occs,
                    i as int,
                    old(combatants)@,
                    combatants@,
                    warrior,
                    wizard,
                    map_dim,
                ));
            }
        }
        proof {
            assert forall|j: int|
                0 <= j < i + 1 implies planning_step_ok(
                occs,
                j,
                old(combatants)@,
                combatants@,
                warrior,
                wizard,
                map_dim,
            ) by {
                if j < i {
                    assert(occs[j] == pre_occs[j] && occs[j + 1] == pre_occs[j + 1]);
                    assert(combatants@[j] == pre_table[j]);
                    assert(planning_step_ok(
                        pre_occs,
                        j,
                        old(combatants)@,
                        pre_table,
                        warrior,
                        wizard,
                        map_dim,
                    ));
                }
            }
        }
        i = i + 1;
    }
    proof {
        assert(planning_ok(old(combatants)@, combatants@, static_blockers@, map_dim)) by {
            assert(occs.len() == old(combatants)@.len() + 1);
            assert(occupancy_matches_start(occs[0], static_blockers@, old(combatants)@));
            assert(forall|j: int|
                0 <= j < old(combatants)@.len() ==> planning_step_ok(
                    occs,
                    j,
                    old(combatants)@,
                    combatants@,
                    warrior_of(old(combatants)@),
                    wizard_of(old(combatants)@),
                    map_dim,
                ));
        }
    }
}

} // verus!
