use gridpath::GameState;
use gridpath::GridMap;
use gridpath::Jps;
use gridpath::PathfindingAlgorithm;
use gridpath::Position;
use gridpath::setup_game;
use gridpath::solve_system;

fn state_for(start: Position, goal: Position, algorithm: PathfindingAlgorithm) -> GameState {
    let mut state = setup_game();
    state.start = start;
    state.goal = goal;
    state.pathfinding_algorithm = algorithm;
    state
}

fn path_cost(map: &GridMap, path: &[Position]) -> i32 {
    path[1..]
        .iter()
        .map(|p| map.costs[map.xy_idx(p.0, p.1)].unwrap_or(1))
        .sum()
}

fn block(map: &mut GridMap, x: i32, y: i32) {
    let idx = map.xy_idx(x, y);
    map.blocked[idx] = true;
}

/// 5x5 grid with a wall on column 2, open only at (2, 4).
fn walled_map() -> GridMap {
    let mut map = GridMap::new(5, 5, true);
    for y in 0..4 {
        block(&mut map, 2, y);
    }
    map
}

#[test]
fn empty_grid_diagonal_scenario() {
    // 5x5 empty grid, start (0,0), goal (4,4), diagonals allowed.
    let map = GridMap::new(5, 5, true);
    let start = Position(0, 0);
    let goal = Position(4, 4);

    let mut bfs_state = state_for(start, goal, PathfindingAlgorithm::BFS);
    assert!(solve_system(&mut bfs_state, &map));
    assert_eq!(bfs_state.path.len(), 5);
    assert_eq!(bfs_state.step, 5);

    let mut astar_state = state_for(start, goal, PathfindingAlgorithm::AStar);
    assert!(solve_system(&mut astar_state, &map));
    assert_eq!(path_cost(&map, &astar_state.path), 4);

    let mut dijkstra_state = state_for(start, goal, PathfindingAlgorithm::Dijkstra);
    assert!(solve_system(&mut dijkstra_state, &map));
    assert_eq!(path_cost(&map, &dijkstra_state.path), 4);

    let (jps_path, _searched) = Jps::find_path(&map, start, goal);
    let jps_path = jps_path.expect("jump point search should find a path");
    assert_eq!(
        jps_path,
        vec![
            Position(0, 0),
            Position(1, 1),
            Position(2, 2),
            Position(3, 3),
            Position(4, 4),
        ]
    );
}

#[test]
fn blocked_goal_fails_everywhere() {
    // goal painted as obstacle before solving: every algorithm reports an
    // empty path
    let mut map = GridMap::new(5, 5, true);
    block(&mut map, 4, 4);
    let start = Position(0, 0);
    let goal = Position(4, 4);
    for algorithm in [
        PathfindingAlgorithm::AStar,
        PathfindingAlgorithm::BFS,
        PathfindingAlgorithm::Dijkstra,
    ] {
        let mut state = state_for(start, goal, algorithm);
        assert!(solve_system(&mut state, &map));
        assert!(state.path.is_empty());
        assert_eq!(state.step, 0);
        assert!(state
            .searched
            .iter()
            .all(|p| map.is_path(p.0, p.1)));
    }
    let (jps_path, jps_searched) = Jps::find_path(&map, start, goal);
    assert!(jps_path.is_none());
    // the early-exit rule leaves the searched set empty
    assert!(jps_searched.is_empty());
}

#[test]
fn reachability_agreement_with_a_wall_gap() {
    let map = walled_map();
    let start = Position(0, 0);
    let goal = Position(4, 4);
    for algorithm in [
        PathfindingAlgorithm::AStar,
        PathfindingAlgorithm::BFS,
        PathfindingAlgorithm::Dijkstra,
    ] {
        let mut state = state_for(start, goal, algorithm);
        assert!(solve_system(&mut state, &map));
        assert!(!state.path.is_empty());
        assert_eq!(state.path[0], start);
        assert_eq!(*state.path.last().unwrap(), goal);
    }
    let (jps_path, _) = Jps::find_path(&map, start, goal);
    assert!(jps_path.is_some());
}

#[test]
fn reachability_agreement_with_a_full_wall() {
    let mut map = walled_map();
    block(&mut map, 2, 4);
    let start = Position(0, 0);
    let goal = Position(4, 4);
    for algorithm in [
        PathfindingAlgorithm::AStar,
        PathfindingAlgorithm::BFS,
        PathfindingAlgorithm::Dijkstra,
    ] {
        let mut state = state_for(start, goal, algorithm);
        assert!(solve_system(&mut state, &map));
        assert!(state.path.is_empty());
        assert_eq!(state.step, 0);
    }
    let (jps_path, _) = Jps::find_path(&map, start, goal);
    assert!(jps_path.is_none());
}

#[test]
fn jps_matches_dijkstra_cost_on_uniform_grids() {
    // uniform costs, 8-connected: the jump point search is a pruning
    // optimization and must match the cost-optimal result
    let maps = vec![GridMap::new(5, 5, true), walled_map()];
    for map in maps {
        let start = Position(0, 0);
        let goal = Position(4, 4);
        let mut state = state_for(start, goal, PathfindingAlgorithm::Dijkstra);
        assert!(solve_system(&mut state, &map));
        let dijkstra_cost = path_cost(&map, &state.path);
        let (jps_path, _) = Jps::find_path(&map, start, goal);
        let jps_path = jps_path.expect("jump point search should find a path");
        assert_eq!(jps_path.len() as i32 - 1, dijkstra_cost);
        assert_eq!(jps_path[0], start);
        assert_eq!(*jps_path.last().unwrap(), goal);
        for pair in jps_path.windows(2) {
            assert!((pair[0].0 - pair[1].0).abs() <= 1);
            assert!((pair[0].1 - pair[1].1).abs() <= 1);
            assert_ne!(pair[0], pair[1]);
            assert!(map.is_path(pair[1].0, pair[1].1));
        }
    }
}

#[test]
fn dijkstra_prefers_cheap_detour_over_expensive_cell() {
    // a straight line through an expensive cell loses to a detour
    let mut map = GridMap::new(5, 1, true);
    let idx = map.xy_idx(2, 0);
    map.costs[idx] = Some(50);
    let mut state = state_for(Position(0, 0), Position(4, 0), PathfindingAlgorithm::Dijkstra);
    assert!(solve_system(&mut state, &map));
    // the only route crosses the expensive cell: cost 1 + 50 + 1 + 1
    assert_eq!(path_cost(&map, &state.path), 53);
    assert_eq!(state.path.len(), 5);
}

#[test]
fn solve_with_equal_start_and_goal() {
    let map = GridMap::new(5, 5, true);
    let mut state = state_for(Position(2, 2), Position(2, 2), PathfindingAlgorithm::BFS);
    assert!(solve_system(&mut state, &map));
    assert_eq!(state.path, vec![Position(2, 2)]);
    assert_eq!(state.step, 1);
    let (jps_path, jps_searched) = Jps::find_path(&map, Position(2, 2), Position(2, 2));
    assert_eq!(jps_path, Some(vec![Position(2, 2)]));
    assert!(jps_searched.is_empty());
}

#[test]
fn jps_rejects_malformed_endpoints() {
    let mut map = GridMap::new(5, 5, true);
    block(&mut map, 1, 1);
    let (p1, s1) = Jps::find_path(&map, Position(-1, 0), Position(4, 4));
    assert!(p1.is_none());
    assert!(s1.is_empty());
    let (p2, s2) = Jps::find_path(&map, Position(0, 0), Position(9, 9));
    assert!(p2.is_none());
    assert!(s2.is_empty());
    let (p3, s3) = Jps::find_path(&map, Position(1, 1), Position(4, 4));
    assert!(p3.is_none());
    assert!(s3.is_empty());
}

#[test]
fn jps_navigates_around_obstacles() {
    // a pocket that forces the search to turn several times
    let mut map = GridMap::new(7, 7, true);
    for y in 1..6 {
        block(&mut map, 3, y);
    }
    let start = Position(1, 3);
    let goal = Position(5, 3);
    let (jps_path, searched) = Jps::find_path(&map, start, goal);
    let jps_path = jps_path.expect("path should exist around the wall");
    assert_eq!(jps_path[0], start);
    assert_eq!(*jps_path.last().unwrap(), goal);
    for pair in jps_path.windows(2) {
        assert!((pair[0].0 - pair[1].0).abs() <= 1);
        assert!((pair[0].1 - pair[1].1).abs() <= 1);
        assert!(map.is_path(pair[1].0, pair[1].1));
    }
    assert!(!searched.is_empty());
    assert!(searched.iter().all(|p| map.is_path(p.0, p.1)));
    // compare against the cost-optimal result on this uniform map
    let mut state = state_for(start, goal, PathfindingAlgorithm::Dijkstra);
    assert!(solve_system(&mut state, &map));
    assert_eq!(jps_path.len(), state.path.len());
}

#[test]
fn searched_records_offered_successors() {
    let map = GridMap::new(5, 5, true);
    let mut state = state_for(Position(0, 0), Position(4, 4), PathfindingAlgorithm::BFS);
    assert!(solve_system(&mut state, &map));
    assert!(!state.searched.is_empty());
    assert!(state.searched.iter().all(|p| map.is_path(p.0, p.1)));
    // successors of the start cell are always offered first
    assert!(state.searched.contains(&Position(1, 0)));
    assert!(state.searched.contains(&Position(0, 1)));
    assert!(state.searched.contains(&Position(1, 1)));
}
