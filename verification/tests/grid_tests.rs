use wizard_tactics::grid::{
    closest_adjacent_tile, euclidean_distance_sq, tile_distance, TileGrid, TileKind, TilePos,
};

#[test]
fn tile_distance_is_manhattan() {
    assert_eq!(tile_distance(&TilePos(5, 5), &TilePos(5, 1)), 4);
    assert_eq!(tile_distance(&TilePos(2, 3), &TilePos(7, 1)), 7);
    assert_eq!(tile_distance(&TilePos(0, 0), &TilePos(0, 0)), 0);
}

#[test]
fn tile_distance_is_symmetric() {
    let a = TilePos(3, 9);
    let b = TilePos(14, 2);
    assert_eq!(tile_distance(&a, &b), tile_distance(&b, &a));
    assert_eq!(tile_distance(&a, &a), 0);
}

#[test]
fn euclidean_distance_squares() {
    assert_eq!(euclidean_distance_sq(&TilePos(0, 0), &TilePos(3, 4)), 25);
    assert_eq!(euclidean_distance_sq(&TilePos(2, 2), &TilePos(2, 2)), 0);
    assert_eq!(euclidean_distance_sq(&TilePos(1, 1), &TilePos(2, 3)), 5);
}

#[test]
fn on_map_excludes_low_boundaries() {
    let dim = (10, 10);
    // The first column and the two lowest rows are not walkable.
    assert!(!TilePos(0, 5).is_on_map(dim));
    assert!(!TilePos(5, 0).is_on_map(dim));
    assert!(!TilePos(5, 1).is_on_map(dim));
    // The interior is.
    assert!(TilePos(1, 2).is_on_map(dim));
    assert!(TilePos(5, 5).is_on_map(dim));
    // The high edge at dim - 1 still counts as interior.
    assert!(TilePos(9, 9).is_on_map(dim));
    assert!(!TilePos(10, 5).is_on_map(dim));
    assert!(!TilePos(5, 10).is_on_map(dim));
}

#[test]
fn closest_adjacent_prefers_origin_side() {
    // Attacker below the target: stand on the tile between them.
    let standing = closest_adjacent_tile(&TilePos(2, 3), &TilePos(2, 2));
    assert_eq!(standing, TilePos(2, 2));
    // Attacker far to the east: stand east of the target.
    let standing = closest_adjacent_tile(&TilePos(2, 3), &TilePos(7, 3));
    assert_eq!(standing, TilePos(3, 3));
}

#[test]
fn tile_grid_rejects_bad_dimensions() {
    let tiles = vec![TileKind::Floor; 9];
    assert!(TileGrid::new(3, 3, tiles).is_some());
    let tiles = vec![TileKind::Floor; 8];
    assert!(TileGrid::new(3, 3, tiles).is_none());
}

#[test]
fn tile_grid_reads_row_major() {
    let mut tiles = vec![TileKind::Floor; 12];
    tiles[1 * 4 + 2] = TileKind::Wall;
    let grid = TileGrid::new(4, 3, tiles).unwrap();
    assert_eq!(grid.kind_at(2, 1), TileKind::Wall);
    assert_eq!(grid.kind_at(1, 2), TileKind::Floor);
    assert_eq!(grid.dims(), (4, 3));
}

#[test]
fn non_floor_positions_lists_blockers() {
    let mut tiles = vec![TileKind::Floor; 9];
    tiles[0] = TileKind::Wall;
    tiles[4] = TileKind::Open;
    let grid = TileGrid::new(3, 3, tiles).unwrap();
    let blockers = grid.non_floor_positions();
    assert_eq!(blockers.len(), 2);
    assert!(blockers.contains(&TilePos(0, 0)));
    assert!(blockers.contains(&TilePos(1, 1)));
}

#[test]
fn move_range_is_a_manhattan_ball_of_floor() {
    let mut tiles = vec![TileKind::Floor; 100];
    tiles[5 * 10 + 4] = TileKind::Wall; // (4, 5) is a wall
    let grid = TileGrid::new(10, 10, tiles).unwrap();
    // Another combatant stands at (5, 6).
    let excluded = vec![TilePos(5, 6), TilePos(5, 5)];
    let range = wizard_tactics::grid::move_range_tiles(&TilePos(5, 5), 4, &grid, &excluded);
    // Strictly inside the speed: distance up to 3.
    assert!(range.contains(&TilePos(5, 2)));
    assert!(!range.contains(&TilePos(5, 1)));
    // The wall, the occupied tile and the origin itself are out.
    assert!(!range.contains(&TilePos(4, 5)));
    assert!(!range.contains(&TilePos(5, 6)));
    assert!(!range.contains(&TilePos(5, 5)));
    // An ordinary floor tile within range is in.
    assert!(range.contains(&TilePos(6, 6)));
}
