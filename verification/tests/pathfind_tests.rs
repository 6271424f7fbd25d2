use wizard_tactics::grid::TilePos;
use wizard_tactics::pathfind::{get_move, movement_budget, simple_a_star};

#[test]
fn straight_path_to_goal_adjacent_tile() {
    let blocked: Vec<TilePos> = Vec::new();
    let path = simple_a_star(TilePos(5, 5), TilePos(5, 1), &blocked, (10, 10)).unwrap();
    assert_eq!(path, vec![TilePos(5, 4), TilePos(5, 3), TilePos(5, 2)]);
}

#[test]
fn path_goes_around_a_wall() {
    // A wall directly south of the start forces a detour.
    let blocked = vec![TilePos(5, 4)];
    let path = simple_a_star(TilePos(5, 5), TilePos(5, 1), &blocked, (10, 10)).unwrap();
    // Every step is one tile, never through the wall, and the path
    // ends next to the goal.
    let mut prev = TilePos(5, 5);
    for p in &path {
        let dx = (p.0 as i64 - prev.0 as i64).abs();
        let dy = (p.1 as i64 - prev.1 as i64).abs();
        assert_eq!(dx + dy, 1);
        assert_ne!(*p, TilePos(5, 4));
        prev = *p;
    }
    let last = *path.last().unwrap();
    let dist = (last.0 as i64 - 5).abs() + (last.1 as i64 - 1).abs();
    assert_eq!(dist, 1);
}

#[test]
fn enclosed_goal_yields_no_path() {
    // The goal is fully walled in: the search exhausts and reports
    // no path instead of looping.
    let goal = TilePos(5, 5);
    let blocked = vec![TilePos(5, 4), TilePos(5, 6), TilePos(4, 5), TilePos(6, 5)];
    assert!(simple_a_star(TilePos(2, 5), goal, &blocked, (10, 10)).is_none());
}

#[test]
fn budget_covers_whole_path() {
    let path = vec![TilePos(5, 4), TilePos(5, 3), TilePos(5, 2)];
    // Speed at or above the path length reaches the last tile.
    assert_eq!(movement_budget(&path, 3), TilePos(5, 2));
    assert_eq!(movement_budget(&path, 7), TilePos(5, 2));
}

#[test]
fn budget_cuts_path_short() {
    let path = vec![TilePos(5, 4), TilePos(5, 3), TilePos(5, 2)];
    assert_eq!(movement_budget(&path, 1), TilePos(5, 4));
    assert_eq!(movement_budget(&path, 2), TilePos(5, 3));
}

#[test]
fn get_move_on_goal_is_none() {
    let blocked: Vec<TilePos> = Vec::new();
    assert!(get_move(&TilePos(3, 3), &TilePos(3, 3), 3, &blocked, (10, 10)).is_none());
}

#[test]
fn get_move_already_adjacent_stays_put() {
    let blocked: Vec<TilePos> = Vec::new();
    let r = get_move(&TilePos(3, 3), &TilePos(3, 4), 3, &blocked, (10, 10));
    assert_eq!(r, Some((TilePos(3, 3), true)));
}

#[test]
fn get_move_reaches_with_budget_to_spare() {
    let blocked: Vec<TilePos> = Vec::new();
    let r = get_move(&TilePos(5, 5), &TilePos(5, 1), 3, &blocked, (10, 10));
    assert_eq!(r, Some((TilePos(5, 2), true)));
}

#[test]
fn get_move_partial_progress_is_not_reached() {
    let blocked: Vec<TilePos> = Vec::new();
    let r = get_move(&TilePos(5, 5), &TilePos(5, 1), 2, &blocked, (10, 10));
    assert_eq!(r, Some((TilePos(5, 3), false)));
}

#[test]
fn get_move_with_no_path_is_none() {
    let blocked = vec![TilePos(5, 4), TilePos(5, 6), TilePos(4, 5), TilePos(6, 5)];
    assert!(get_move(&TilePos(2, 5), &TilePos(5, 5), 4, &blocked, (10, 10)).is_none());
}
