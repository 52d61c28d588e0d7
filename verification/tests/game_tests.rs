use gridpath::GameState;
use gridpath::GridMap;
use gridpath::PathfindingAlgorithm;
use gridpath::PlacementMode;
use gridpath::Position;
use gridpath::change_pathfinding_algorithm_system;
use gridpath::clear_system;
use gridpath::cost_system;
use gridpath::placement_system;
use gridpath::reset_system;
use gridpath::setup_game;
use gridpath::step_system;

#[test]
fn setup_defaults() {
    let state = setup_game();
    assert!(matches!(state.pathfinding_algorithm, PathfindingAlgorithm::BFS));
    assert!(matches!(state.placement_mode, PlacementMode::Obstacle));
    assert_eq!(state.start, Position(8, 16));
    assert_eq!(state.goal, Position(23, 16));
    assert!(state.path.is_empty());
    assert!(state.searched.is_empty());
    assert_eq!(state.step, 0);
}

#[test]
fn placement_ignores_out_of_bounds_clicks() {
    let mut map = GridMap::new(5, 5, true);
    let mut state = setup_game();
    state.placement_mode = PlacementMode::Obstacle;
    state.path = vec![Position(0, 0)];
    assert!(!placement_system(&mut state, &mut map, 5, 0));
    assert!(!placement_system(&mut state, &mut map, -1, 2));
    assert!(map.blocked.iter().all(|b| !*b));
    assert_eq!(state.path, vec![Position(0, 0)]);
}

#[test]
fn placement_ignores_start_and_goal_cells() {
    let mut map = GridMap::new(5, 5, true);
    let mut state = setup_game();
    state.start = Position(1, 1);
    state.goal = Position(3, 3);
    state.placement_mode = PlacementMode::Obstacle;
    assert!(!placement_system(&mut state, &mut map, 1, 1));
    assert!(!placement_system(&mut state, &mut map, 3, 3));
    assert!(map.blocked.iter().all(|b| !*b));
}

#[test]
fn placement_paints_and_clears_obstacles() {
    let mut map = GridMap::new(5, 5, true);
    let mut state = setup_game();
    state.path = vec![Position(0, 0)];
    state.placement_mode = PlacementMode::Obstacle;
    assert!(placement_system(&mut state, &mut map, 2, 2));
    assert!(map.blocked[map.xy_idx(2, 2)]);
    assert!(state.path.is_empty());
    state.placement_mode = PlacementMode::Path;
    assert!(placement_system(&mut state, &mut map, 2, 2));
    assert!(!map.blocked[map.xy_idx(2, 2)]);
}

#[test]
fn placement_moves_start_and_goal() {
    let mut map = GridMap::new(5, 5, true);
    let mut state = setup_game();
    state.start = Position(0, 0);
    state.goal = Position(4, 4);
    state.placement_mode = PlacementMode::Start;
    assert!(placement_system(&mut state, &mut map, 1, 2));
    assert_eq!(state.start, Position(1, 2));
    state.placement_mode = PlacementMode::Goal;
    assert!(placement_system(&mut state, &mut map, 3, 1));
    assert_eq!(state.goal, Position(3, 1));
    assert!(map.blocked.iter().all(|b| !*b));
}

#[test]
fn cost_editing_raises_and_clamps_at_one() {
    let mut map = GridMap::new(5, 5, true);
    let mut state = setup_game();
    state.start = Position(0, 0);
    state.goal = Position(4, 4);
    state.placement_mode = PlacementMode::IncreaseCost;
    assert!(cost_system(&mut state, &mut map, 2, 1));
    assert!(cost_system(&mut state, &mut map, 2, 1));
    assert_eq!(map.costs[map.xy_idx(2, 1)], Some(3));
    state.placement_mode = PlacementMode::DecreaseCost;
    assert!(cost_system(&mut state, &mut map, 2, 1));
    assert!(cost_system(&mut state, &mut map, 2, 1));
    assert!(cost_system(&mut state, &mut map, 2, 1));
    // never decremented below 1
    assert_eq!(map.costs[map.xy_idx(2, 1)], Some(1));
}

#[test]
fn cost_increase_saturates_at_the_integer_ceiling() {
    let mut map = GridMap::new(5, 5, true);
    let mut state = setup_game();
    state.start = Position(0, 0);
    state.goal = Position(4, 4);
    state.placement_mode = PlacementMode::IncreaseCost;
    let idx = map.xy_idx(1, 1);
    map.costs[idx] = Some(i32::MAX);
    assert!(cost_system(&mut state, &mut map, 1, 1));
    assert_eq!(map.costs[idx], Some(i32::MAX));
}

#[test]
fn cost_editing_ignores_invalid_targets() {
    let mut map = GridMap::new(5, 5, true);
    let mut state = setup_game();
    state.start = Position(0, 0);
    state.goal = Position(4, 4);
    state.placement_mode = PlacementMode::IncreaseCost;
    assert!(!cost_system(&mut state, &mut map, 9, 9));
    assert!(!cost_system(&mut state, &mut map, 0, 0));
    assert!(!cost_system(&mut state, &mut map, 4, 4));
    assert!(map.costs.iter().all(|c| *c == Some(1)));
}

#[test]
fn step_wraps_from_last_index_to_two() {
    let mut state = setup_game();
    state.path = vec![
        Position(0, 0),
        Position(1, 1),
        Position(2, 2),
        Position(3, 3),
        Position(4, 4),
    ];
    state.step = 4;
    // stepping from index 4 of a length-5 path lands on index 2, not 0 or 4
    assert!(step_system(&mut state));
    assert_eq!(state.step, 2);
    assert!(step_system(&mut state));
    assert_eq!(state.step, 3);
    assert!(step_system(&mut state));
    assert_eq!(state.step, 4);
    assert!(step_system(&mut state));
    assert_eq!(state.step, 2);
}

#[test]
fn step_does_nothing_without_a_path() {
    let mut state = setup_game();
    state.step = 0;
    assert!(!step_system(&mut state));
    assert_eq!(state.step, 0);
    assert!(state.path.is_empty());
}

#[test]
fn reset_clears_results_only() {
    let mut state = setup_game();
    state.path = vec![Position(0, 0), Position(1, 0)];
    state.searched = vec![Position(1, 0)];
    state.step = 2;
    assert!(reset_system(&mut state));
    assert!(state.path.is_empty());
    assert!(state.searched.is_empty());
    assert_eq!(state.step, 2);
    assert_eq!(state.start, Position(8, 16));
    assert_eq!(state.goal, Position(23, 16));
}

#[test]
fn clear_resets_grid_and_endpoints() {
    let mut map = GridMap::new(16, 16, true);
    let mut state = setup_game();
    state.start = Position(0, 0);
    state.goal = Position(5, 5);
    state.placement_mode = PlacementMode::Obstacle;
    assert!(placement_system(&mut state, &mut map, 2, 2));
    assert!(placement_system(&mut state, &mut map, 7, 9));
    state.placement_mode = PlacementMode::IncreaseCost;
    assert!(cost_system(&mut state, &mut map, 3, 3));
    assert!(cost_system(&mut state, &mut map, 3, 3));
    state.path = vec![Position(0, 0)];
    state.searched = vec![Position(0, 0)];
    assert!(clear_system(&mut state, &mut map));
    // cost is exactly 1 and blocked is false at every cell
    assert!(map.costs.iter().all(|c| *c == Some(1)));
    assert!(map.blocked.iter().all(|b| !*b));
    assert_eq!(state.start, Position(8, 16));
    assert_eq!(state.goal, Position(24, 16));
    assert!(state.path.is_empty());
    assert!(state.searched.is_empty());
}

#[test]
fn algorithm_selection_resets_results() {
    let mut state = setup_game();
    state.path = vec![Position(0, 0)];
    state.searched = vec![Position(0, 0)];
    assert!(change_pathfinding_algorithm_system(
        &mut state,
        PathfindingAlgorithm::Dijkstra
    ));
    assert!(matches!(
        state.pathfinding_algorithm,
        PathfindingAlgorithm::Dijkstra
    ));
    assert!(state.path.is_empty());
    assert!(state.searched.is_empty());
}
