use vstd::prelude::*;

use crate::map::GridMap;
use crate::map::Position;
use crate::map::exists_path;
use crate::map::spec_path_cost;
use crate::map::valid_path_from;
use crate::search::astar_search;
use crate::search::offers_start_successors;
use crate::search::bfs_search;
use crate::search::dijkstra_search;

verus! {

/// The search strategy the solve command dispatches to.
#[derive(Clone, Copy, Debug)]
pub enum PathfindingAlgorithm {
    AStar,
    BFS,
    Dijkstra,
}

/// What a user click currently edits.
#[derive(Clone, Copy, Debug)]
pub enum PlacementMode {
    Path,
    Obstacle,
    Start,
    Goal,
    IncreaseCost,
    DecreaseCost,
}

/// Orchestrator state: the selected algorithm and placement mode, the search
/// endpoints, the last solved path, the cells visited by the last solve, and
/// the playback cursor.
#[derive(Debug)]
pub struct GameState {
    pub pathfinding_algorithm: PathfindingAlgorithm,
    pub placement_mode: PlacementMode,
    pub start: Position,
    pub goal: Position,
    pub path: Vec<Position>,
    pub searched: Vec<Position>,
    pub step: usize,
}

pub struct SolveEvent {}

pub struct StepEvent {}

pub struct ResetEvent {}

pub struct ClearEvent {}

pub struct CycleAlgorithmLeftEvent {}

pub struct CycleAlgorithmRightEvent {}

pub struct PathfindingAlgorithmSelectionChangedEvent {
    pub pathfinding_algorithm: PathfindingAlgorithm,
}

pub struct PathfindingAlgorithmChangedEvent {}

/// The two maps hold the same grid contents.
pub open spec fn map_unchanged(m1: GridMap, m2: GridMap) -> bool {
    &&& m2.width == m1.width
    &&& m2.height == m1.height
    &&& m2.allow_diagonals == m1.allow_diagonals
    &&& m2.costs@ == m1.costs@
    &&& m2.blocked@ == m1.blocked@
}

/// Selected algorithm and placement mode agree.
pub open spec fn same_selection(a: GameState, b: GameState) -> bool {
    &&& b.pathfinding_algorithm == a.pathfinding_algorithm
    &&& b.placement_mode == a.placement_mode
}

/// Start and goal agree.
pub open spec fn same_endpoints(a: GameState, b: GameState) -> bool {
    &&& b.start == a.start
    &&& b.goal == a.goal
}

/// Path, searched set and playback cursor agree.
pub open spec fn same_results(a: GameState, b: GameState) -> bool {
    &&& b.path@ == a.path@
    &&& b.searched@ == a.searched@
    &&& b.step == a.step
}

/// The state the sandbox starts from: breadth-first search selected,
/// obstacle painting active, default endpoints, nothing solved yet.
pub fn setup_game() -> (r: GameState)
    ensures
        r.pathfinding_algorithm is BFS,
        r.placement_mode is Obstacle,
        r.start == Position(8, 16),
        r.goal == Position(23, 16),
        r.path@.len() == 0,
        r.searched@.len() == 0,
        r.step == 0,
{
    GameState {
        pathfinding_algorithm: PathfindingAlgorithm::BFS,
        placement_mode: PlacementMode::Obstacle,
        start: Position(8, 16),
        goal: Position(23, 16),
        path: Vec::new(),
        searched: Vec::new(),
        step: 0,
    }
}

/// A click at `(x, y)` while painting is active. Out-of-bounds clicks and
/// clicks on the start or goal cell are ignored; otherwise the active
/// placement mode is applied, the stale path is discarded and the caller is
/// told to redraw.
pub fn placement_system(game_state: &mut GameState, map: &mut GridMap, x: i32, y: i32) -> (updated:
    bool)
    requires
        old(map).wf(),
    ensures
        final(map).wf(),
        final(map).width == old(map).width,
        final(map).height == old(map).height,
        final(map).allow_diagonals == old(map).allow_diagonals,
        final(map).costs@ == old(map).costs@,
        same_selection(*old(game_state), *final(game_state)),
        final(game_state).searched@ == old(game_state).searched@,
        final(game_state).step == old(game_state).step,
        updated == (old(map).spec_inside(x as int, y as int) && Position(x, y) != old(
            game_state,
        ).start && Position(x, y) != old(game_state).goal),
        !updated ==> map_unchanged(*old(map), *final(map)) && same_endpoints(
            *old(game_state),
            *final(game_state),
        ) && final(game_state).path@ == old(game_state).path@,
        updated ==> final(game_state).path@.len() == 0,
        updated && old(game_state).placement_mode is Path ==> final(map).blocked@ == old(
            map,
        ).blocked@.update(old(map).spec_idx(x as int, y as int), false) && same_endpoints(
            *old(game_state),
            *final(game_state),
        ),
        updated && old(game_state).placement_mode is Obstacle ==> final(map).blocked@ == old(
            map,
        ).blocked@.update(old(map).spec_idx(x as int, y as int), true) && same_endpoints(
            *old(game_state),
            *final(game_state),
        ),
        updated && old(game_state).placement_mode is Start ==> map_unchanged(
            *old(map),
            *final(map),
        ) && final(game_state).start == Position(x, y) && final(game_state).goal == old(
            game_state,
        ).goal,
        updated && old(game_state).placement_mode is Goal ==> map_unchanged(
            *old(map),
            *final(map),
        ) && final(game_state).goal == Position(x, y) && final(game_state).start == old(
            game_state,
        ).start,
        updated && (old(game_state).placement_mode is IncreaseCost || old(
            game_state,
        ).placement_mode is DecreaseCost) ==> map_unchanged(*old(map), *final(map))
            && same_endpoints(*old(game_state), *final(game_state)),
{
    if map.outside(x, y) {
        return false;
    }
    let clicked = Position(x, y);
    if clicked == game_state.start || clicked == game_state.goal {
        return false;
    }
    proof {
        map.lemma_idx_in_range(x as int, y as int);
    }
    let index = map.xy_idx(x, y);
    match game_state.placement_mode {
        PlacementMode::Path => {
            map.blocked[index] = false;
        },
        PlacementMode::Obstacle => {
            map.blocked[index] = true;
        },
        PlacementMode::Start => {
            game_state.start = Position(x, y);
        },
        PlacementMode::Goal => {
            game_state.goal = Position(x, y);
        },
        _ => {},
    }
    game_state.path = Vec::new();
    true
}

/// A single click while a cost mode is active. Out-of-bounds clicks and
/// clicks on the start or goal cell are ignored; otherwise the cell's cost
/// is raised by one (saturating) or lowered by one but never below 1, the
/// stale path is discarded and the caller is told to redraw.
pub fn cost_system(game_state: &mut GameState, map: &mut GridMap, x: i32, y: i32) -> (updated:
    bool)
    requires
        old(map).wf(),
    ensures
        final(map).wf(),
        final(map).width == old(map).width,
        final(map).height == old(map).height,
        final(map).allow_diagonals == old(map).allow_diagonals,
        final(map).blocked@ == old(map).blocked@,
        same_selection(*old(game_state), *final(game_state)),
        same_endpoints(*old(game_state), *final(game_state)),
        final(game_state).searched@ == old(game_state).searched@,
        final(game_state).step == old(game_state).step,
        updated == (old(map).spec_inside(x as int, y as int) && Position(x, y) != old(
            game_state,
        ).start && Position(x, y) != old(game_state).goal),
        !updated ==> final(map).costs@ == old(map).costs@ && final(game_state).path@ == old(
            game_state,
        ).path@,
        updated ==> final(game_state).path@.len() == 0,
        updated && old(game_state).placement_mode is IncreaseCost ==> final(map).costs@ == (
        match old(map).costs@[old(map).spec_idx(x as int, y as int)] {
            Some(c) => old(map).costs@.update(
                old(map).spec_idx(x as int, y as int),
                Some((if c < i32::MAX { c + 1 } else { c as int }) as i32),
            ),
            None => old(map).costs@,
        }),
        updated && old(game_state).placement_mode is DecreaseCost ==> final(map).costs@ == (
        match old(map).costs@[old(map).spec_idx(x as int, y as int)] {
            Some(c) => if c > 1 {
                old(map).costs@.update(old(map).spec_idx(x as int, y as int), Some((c - 1) as i32))
            } else {
                old(map).costs@
            },
            None => old(map).costs@,
        }),
        updated && !(old(game_state).placement_mode is IncreaseCost) && !(old(
            game_state,
        ).placement_mode is DecreaseCost) ==> final(map).costs@ == old(map).costs@,
{
    if map.outside(x, y) {
        return false;
    }
    let clicked = Position(x, y);
    if clicked == game_state.start || clicked == game_state.goal {
        return false;
    }
    proof {
        map.lemma_idx_in_range(x as int, y as int);
    }
    let index = map.xy_idx(x, y);
    match game_state.placement_mode {
        PlacementMode::IncreaseCost => {
            if let Some(current_cost) = map.costs[index] {
                if current_cost < i32::MAX {
                    map.costs[index] = Some(current_cost + 1);
                } else {
                    map.costs[index] = Some(current_cost);
                }
            }
        },
        PlacementMode::DecreaseCost => {
            if let Some(current_cost) = map.costs[index] {
                if current_cost > 1 {
                    map.costs[index] = Some(current_cost - 1);
                }
            }
        },
        _ => {},
    }
    game_state.path = Vec::new();
    true
}

/// Advances the playback cursor over a solved path. Before the last index
/// the cursor moves one cell forward; from the last index it wraps to
/// index 2 — the wrap target is a deliberate quirk kept as is. With no
/// solved path nothing happens.
pub fn step_system(game_state: &mut GameState) -> (updated: bool)
    ensures
        updated == (old(game_state).path@.len() > 0),
        !updated ==> same_selection(*old(game_state), *final(game_state)) && same_endpoints(
            *old(game_state),
            *final(game_state),
        ) && same_results(*old(game_state), *final(game_state)),
        updated ==> final(game_state).step == (if old(game_state).step < old(
            game_state,
        ).path@.len() - 1 {
            old(game_state).step + 1
        } else {
            2
        }),
        updated ==> same_selection(*old(game_state), *final(game_state)) && same_endpoints(
            *old(game_state),
            *final(game_state),
        ) && final(game_state).path@ == old(game_state).path@ && final(game_state).searched@
            == old(game_state).searched@,
{
    if game_state.path.len() > 0 {
        if game_state.step < game_state.path.len() - 1 {
            game_state.step = game_state.step + 1;
        } else {
            game_state.step = 2;
        }
        true
    } else {
        false
    }
}

/// Discards the solved path and the visited set without touching the grid,
/// the endpoints or the playback cursor.
pub fn reset_system(game_state: &mut GameState) -> (updated: bool)
    ensures
        updated,
        same_selection(*old(game_state), *final(game_state)),
        same_endpoints(*old(game_state), *final(game_state)),
        final(game_state).path@.len() == 0,
        final(game_state).searched@.len() == 0,
        final(game_state).step == old(game_state).step,
{
    game_state.path = Vec::new();
    game_state.searched = Vec::new();
    true
}

/// Resets the endpoints to their defaults, every cost to 1 and every cell
/// to unblocked, and discards the solved path and the visited set.
pub fn clear_system(game_state: &mut GameState, map: &mut GridMap) -> (updated: bool)
    requires
        old(map).wf(),
    ensures
        updated,
        final(map).wf(),
        final(map).width == old(map).width,
        final(map).height == old(map).height,
        final(map).allow_diagonals == old(map).allow_diagonals,
        final(map).costs@.len() == old(map).costs@.len(),
        final(map).blocked@.len() == old(map).blocked@.len(),
        forall|i: int| 0 <= i < final(map).costs@.len() ==> final(map).costs@[i] == Some(1i32),
        forall|i: int| 0 <= i < final(map).blocked@.len() ==> final(map).blocked@[i] == false,
        same_selection(*old(game_state), *final(game_state)),
        final(game_state).start == Position(8, 16),
        final(game_state).goal == Position(24, 16),
        final(game_state).path@.len() == 0,
        final(game_state).searched@.len() == 0,
        final(game_state).step == old(game_state).step,
{
    game_state.path = Vec::new();
    game_state.start = Position(8, 16);
    game_state.goal = Position(24, 16);
    game_state.searched = Vec::new();
    let n: usize = (map.width as usize) * (map.height as usize);
    let mut costs: Vec<Option<i32>> = Vec::new();
    let mut blocked: Vec<bool> = Vec::new();
    let mut i: usize = 0;
    while i < n
        invariant
            i <= n,
            costs@.len() == i,
            blocked@.len() == i,
            forall|j: int| 0 <= j < i ==> costs@[j] == Some(1i32),
            forall|j: int| 0 <= j < i ==> blocked@[j] == false,
        decreases n - i,
    {
        costs.push(Some(1));
        blocked.push(false);
        i = i + 1;
    }
    map.costs = costs;
    map.blocked = blocked;
    true
}

/// Selects a search algorithm and performs the implied reset of the solved
/// path and the visited set.
pub fn change_pathfinding_algorithm_system(
    game_state: &mut GameState,
    algorithm: PathfindingAlgorithm,
) -> (updated: bool)
    ensures
        updated,
        final(game_state).pathfinding_algorithm == algorithm,
        final(game_state).placement_mode == old(game_state).placement_mode,
        same_endpoints(*old(game_state), *final(game_state)),
        final(game_state).path@.len() == 0,
        final(game_state).searched@.len() == 0,
        final(game_state).step == old(game_state).step,
{
    game_state.pathfinding_algorithm = algorithm;
    game_state.path = Vec::new();
    game_state.searched = Vec::new();
    true
}

/// Runs the selected algorithm from the current start to the current goal.
/// The solved path is stored (empty exactly when the goal is unreachable),
/// the cursor is placed at the path length (0 on failure), and the visited
/// set is overwritten with every position the search offered as a
/// successor. Whatever the selected algorithm, a path is stored if and only
/// if one exists; with Dijkstra the stored path has minimal cost, with
/// breadth-first search it has the fewest cells.
pub fn solve_system(game_state: &mut GameState, map: &GridMap) -> (updated: bool)
    requires
        map.wf(),
    ensures
        updated,
        same_selection(*old(game_state), *final(game_state)),
        same_endpoints(*old(game_state), *final(game_state)),
        (final(game_state).path@.len() > 0) == exists_path(
            *map,
            old(game_state).start,
            old(game_state).goal,
            map.allow_diagonals,
        ),
        final(game_state).path@.len() > 0 ==> valid_path_from(
            *map,
            final(game_state).path@,
            old(game_state).start,
            old(game_state).goal,
            map.allow_diagonals,
        ) && final(game_state).step == final(game_state).path@.len(),
        final(game_state).path@.len() == 0 ==> final(game_state).step == 0,
        forall|i: int|
            0 <= i < final(game_state).searched@.len() ==> map.spec_is_path(
                #[trigger] final(game_state).searched@[i].0 as int,
                final(game_state).searched@[i].1 as int,
            ),
        old(game_state).start != old(game_state).goal ==> offers_start_successors(
            *map,
            old(game_state).start,
            Seq::<Position>::empty(),
            final(game_state).searched@,
        ),
        old(game_state).pathfinding_algorithm is Dijkstra && final(game_state).path@.len() > 0
            ==> forall|q: Seq<Position>|
            valid_path_from(*map, q, old(game_state).start, old(game_state).goal, map.allow_diagonals)
                ==> spec_path_cost(*map, q) >= spec_path_cost(*map, final(game_state).path@),
        old(game_state).pathfinding_algorithm is BFS && final(game_state).path@.len() > 0
            ==> forall|q: Seq<Position>|
            valid_path_from(*map, q, old(game_state).start, old(game_state).goal, map.allow_diagonals)
                ==> q.len() >= final(game_state).path@.len(),
        old(game_state).pathfinding_algorithm is AStar && !map.allow_diagonals
            && final(game_state).path@.len() > 0 ==> forall|q: Seq<Position>|
            valid_path_from(*map, q, old(game_state).start, old(game_state).goal, false)
                ==> spec_path_cost(*map, q) >= spec_path_cost(*map, final(game_state).path@),
{
    let start = game_state.start;
    let goal = game_state.goal;
    let mut searched: Vec<Position> = Vec::new();
    match game_state.pathfinding_algorithm {
        PathfindingAlgorithm::AStar => {
            let result = astar_search(map, start, goal, &mut searched);
            if let Some((path, _cost)) = result {
                game_state.path = path;
                game_state.step = game_state.path.len();
            } else {
                game_state.path = Vec::new();
                game_state.step = 0;
            }
        },
        PathfindingAlgorithm::BFS => {
            let result = bfs_search(map, start, goal, &mut searched);
            if let Some(path) = result {
                game_state.path = path;
                game_state.step = game_state.path.len();
            } else {
                game_state.path = Vec::new();
                game_state.step = 0;
            }
        },
        PathfindingAlgorithm::Dijkstra => {
            let result = dijkstra_search(map, start, goal, &mut searched);
            if let Some((path, _cost)) = result {
                game_state.path = path;
                game_state.step = game_state.path.len();
            } else {
                game_state.path = Vec::new();
                game_state.step = 0;
            }
        },
    }
    game_state.searched = searched;
    true
}

} // verus!
