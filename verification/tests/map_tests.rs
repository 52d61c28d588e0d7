use gridpath::GameState;
use gridpath::GridMap;
use gridpath::PlacementMode;
use gridpath::Position;
use gridpath::placement_system;
use gridpath::setup_game;

fn successor_positions(map: &GridMap, node: Position) -> Vec<Position> {
    map.get_successors(&node, map.allow_diagonals)
        .into_iter()
        .map(|s| s.position)
        .collect()
}

#[test]
fn new_map_is_open_with_unit_costs() {
    let map = GridMap::new(4, 3, true);
    assert_eq!(map.costs.len(), 12);
    assert_eq!(map.blocked.len(), 12);
    assert!(map.costs.iter().all(|c| *c == Some(1)));
    assert!(map.blocked.iter().all(|b| !*b));
}

#[test]
fn bounds_predicates() {
    let map = GridMap::new(4, 3, true);
    assert!(map.inside(0, 0));
    assert!(map.inside(3, 2));
    assert!(!map.inside(4, 0));
    assert!(!map.inside(0, 3));
    assert!(!map.inside(-1, 0));
    assert!(map.outside(-1, -1));
    assert_eq!(map.xy_idx(3, 2), 11);
}

#[test]
fn out_of_bounds_counts_as_blocked() {
    let map = GridMap::new(4, 3, true);
    assert!(map.is_blocked(-1, 0));
    assert!(map.is_blocked(0, 3));
    assert!(!map.is_blocked(1, 1));
    assert!(map.is_path(1, 1));
    assert!(!map.is_path(-1, 0));
}

#[test]
fn walkable_position_rejects_out_of_bounds_and_blocked() {
    let mut map = GridMap::new(4, 3, true);
    let idx = map.xy_idx(2, 1);
    map.blocked[idx] = true;
    // every out-of-bounds coordinate yields none
    assert_eq!(map.walkable_position(-1, 0), None);
    assert_eq!(map.walkable_position(0, -1), None);
    assert_eq!(map.walkable_position(4, 0), None);
    assert_eq!(map.walkable_position(0, 3), None);
    // a blocked in-bounds coordinate yields none
    assert_eq!(map.walkable_position(2, 1), None);
    // otherwise the position comes back
    assert_eq!(map.walkable_position(1, 1), Some(Position(1, 1)));
}

#[test]
fn successors_of_interior_cell_with_diagonals() {
    let map = GridMap::new(5, 5, true);
    let succs = map.get_successors(&Position(2, 2), true);
    assert_eq!(succs.len(), 8);
    let expected = vec![
        Position(2, 1),
        Position(3, 2),
        Position(2, 3),
        Position(1, 2),
        Position(1, 1),
        Position(3, 1),
        Position(3, 3),
        Position(1, 3),
    ];
    let got: Vec<Position> = succs.iter().map(|s| s.position).collect();
    assert_eq!(got, expected);
    assert!(succs.iter().all(|s| s.cost == 1));
}

#[test]
fn successors_without_diagonals_and_at_corner() {
    let map = GridMap::new(5, 5, false);
    let succs = map.get_successors(&Position(0, 0), false);
    let got: Vec<Position> = succs.iter().map(|s| s.position).collect();
    assert_eq!(got, vec![Position(1, 0), Position(0, 1)]);
}

#[test]
fn successors_report_stored_costs() {
    let mut map = GridMap::new(5, 5, true);
    let idx = map.xy_idx(3, 2);
    map.costs[idx] = Some(7);
    let succs = map.get_successors(&Position(2, 2), true);
    let east = succs.iter().find(|s| s.position == Position(3, 2)).unwrap();
    assert_eq!(east.cost, 7);
    let north = succs.iter().find(|s| s.position == Position(2, 1)).unwrap();
    assert_eq!(north.cost, 1);
}

#[test]
fn obstacle_round_trip_restores_successors() {
    let mut map = GridMap::new(5, 5, true);
    let mut state: GameState = setup_game();
    state.placement_mode = PlacementMode::Obstacle;
    let before = successor_positions(&map, Position(1, 1));
    assert!(placement_system(&mut state, &mut map, 2, 1));
    let during = successor_positions(&map, Position(1, 1));
    assert!(!during.contains(&Position(2, 1)));
    assert_ne!(before, during);
    state.placement_mode = PlacementMode::Path;
    assert!(placement_system(&mut state, &mut map, 2, 1));
    let after = successor_positions(&map, Position(1, 1));
    assert_eq!(before, after);
}

#[test]
fn distance_is_manhattan() {
    assert_eq!(Position(0, 0).distance(&Position(3, 4)), 7);
    assert_eq!(Position(2, 2).distance(&Position(2, 2)), 0);
    assert_eq!(Position(-1, -2).distance(&Position(1, 2)), 6);
    assert_eq!(Position(5, 1).x(), 5);
    assert_eq!(Position(5, 1).y(), 1);
}
