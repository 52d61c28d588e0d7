use vstd::prelude::*;

use crate::map::GridMap;
use crate::map::Position;
use crate::map::abs_diff;
use crate::map::exists_path;
use crate::map::spec_path_cost;
use crate::map::valid_path_from;
use pathfinding::prelude::astar;
use pathfinding::prelude::bfs;
use pathfinding::prelude::dijkstra;

verus! {

/// The positions of a successor list, in order.
pub open spec fn positions_of(s: Seq<crate::map::Successor>) -> Seq<Position> {
    s.map_values(|x: crate::map::Successor| x.position)
}

/// Lists a node's successors as `(position, cost)` pairs for the search
/// primitives, recording every offered position into `searched`.
fn successors_logged(map: &GridMap, p: &Position, searched: &mut Vec<Position>) -> (r: Vec<
    (Position, i64),
>)
    requires
        map.wf(),
    ensures
        final(searched)@ == old(searched)@ + positions_of(
            map.spec_successors(*p, map.allow_diagonals),
        ),
        r@.len() == map.spec_successors(*p, map.allow_diagonals).len(),
        forall|i: int|
            0 <= i < r@.len() ==> #[trigger] r@[i] == (
                map.spec_successors(*p, map.allow_diagonals)[i].position,
                map.spec_successors(*p, map.allow_diagonals)[i].cost as i64,
            ),
{
    let succs = map.get_successors(p, map.allow_diagonals);
    let mut out: Vec<(Position, i64)> = Vec::new();
    let mut i: usize = 0;
    while i < succs.len()
        invariant
            map.wf(),
            succs@ == map.spec_successors(*p, map.allow_diagonals),
            i <= succs@.len(),
            out@.len() == i,
            forall|j: int|
                0 <= j < i ==> #[trigger] out@[j] == (succs@[j].position, succs@[j].cost as i64),
            searched@.len() == old(searched)@.len() + i,
            forall|j: int| 0 <= j < old(searched)@.len() ==> searched@[j] == old(searched)@[j],
            forall|j: int|
                0 <= j < i ==> searched@[old(searched)@.len() + j] == succs@[j].position,
        decreases succs@.len() - i,
    {
        let s = succs[i];
        searched.push(s.position);
        out.push((s.position, s.cost as i64));
        i = i + 1;
    }
    assert(searched@ =~= old(searched)@ + positions_of(
        map.spec_successors(*p, map.allow_diagonals),
    ));
    out
}

/// Lists a node's successor positions only (no costs), recording every
/// offered position into `searched`.
fn successor_positions_logged(map: &GridMap, p: &Position, searched: &mut Vec<Position>) -> (r:
    Vec<Position>)
    requires
        map.wf(),
    ensures
        final(searched)@ == old(searched)@ + positions_of(
            map.spec_successors(*p, map.allow_diagonals),
        ),
        r@ == positions_of(map.spec_successors(*p, map.allow_diagonals)),
{
    let succs = map.get_successors(p, map.allow_diagonals);
    let mut out: Vec<Position> = Vec::new();
    let mut i: usize = 0;
    while i < succs.len()
        invariant
            map.wf(),
            succs@ == map.spec_successors(*p, map.allow_diagonals),
            i <= succs@.len(),
            out@.len() == i,
            forall|j: int| 0 <= j < i ==> #[trigger] out@[j] == succs@[j].position,
            searched@.len() == old(searched)@.len() + i,
            forall|j: int| 0 <= j < old(searched)@.len() ==> searched@[j] == old(searched)@[j],
            forall|j: int|
                0 <= j < i ==> searched@[old(searched)@.len() + j] == succs@[j].position,
        decreases succs@.len() - i,
    {
        let s = succs[i];
        searched.push(s.position);
        out.push(s.position);
        i = i + 1;
    }
    assert(searched@ =~= old(searched)@ + positions_of(
        map.spec_successors(*p, map.allow_diagonals),
    ));
    assert(out@ =~= positions_of(map.spec_successors(*p, map.allow_diagonals)));
    out
}

/// Manhattan distance as a wide cost, the heuristic handed to the best-first
/// search.
fn manhattan_cost(a: &Position, b: &Position) -> (r: i64)
    ensures
        r as int == abs_diff(a.0 as int, b.0 as int) + abs_diff(a.1 as int, b.1 as int),
{
    let dx: i64 = if a.0 >= b.0 {
        a.0 as i64 - b.0 as i64
    } else {
        b.0 as i64 - a.0 as i64
    };
    let dy: i64 = if a.1 >= b.1 {
        a.1 as i64 - b.1 as i64
    } else {
        b.1 as i64 - a.1 as i64
    };
    dx + dy
}

/// Goal test handed to the search primitives.
fn same_position(a: &Position, b: &Position) -> (r: bool)
    ensures
        r == (*a == *b),
{
    a.0 == b.0 && a.1 == b.1
}

/// Every position the search offered is either walkable or was already in
/// the log before the call.
pub open spec fn searched_extension_walkable(
    m: GridMap,
    before: Seq<Position>,
    after: Seq<Position>,
) -> bool {
    forall|i: int|
        0 <= i < after.len() ==> before.contains(#[trigger] after[i]) || m.spec_is_path(
            after[i].0 as int,
            after[i].1 as int,
        )
}

/// The log gained at least the successor list of the start cell, appended
/// first and in order: the searches always expand the start node first
/// (unless it already satisfies the goal test).
pub open spec fn offers_start_successors(
    m: GridMap,
    start: Position,
    before: Seq<Position>,
    after: Seq<Position>,
) -> bool {
    let offered = positions_of(m.spec_successors(start, m.allow_diagonals));
    &&& after.len() >= before.len() + offered.len()
    &&& after.subrange(before.len() as int, before.len() + offered.len() as int) == offered
}

/// Relies on pathfinding::directed::astar::astar: it returns a path from
/// `start` to the goal together with that path's total cost, or `None`
/// exactly when the goal is unreachable in the successor graph. Without
/// diagonal movement the Manhattan heuristic never overestimates (every
/// move costs at least 1 and lowers the distance by at most 1), so the
/// returned path then has minimal cost; with diagonals it may
/// overestimate, and no optimality is claimed.
#[verifier::external_body]
pub(crate) fn astar_search(
    map: &GridMap,
    start: Position,
    goal: Position,
    searched: &mut Vec<Position>,
) -> (r: Option<(Vec<Position>, i64)>)
    requires
        map.wf(),
    ensures
        r matches Some(pc) ==> valid_path_from(*map, pc.0@, start, goal, map.allow_diagonals)
            && pc.1 as int == spec_path_cost(*map, pc.0@),
        r matches Some(pc) ==> !map.allow_diagonals ==> (forall|q: Seq<Position>|
            valid_path_from(*map, q, start, goal, false) ==> spec_path_cost(*map, q) >= pc.1 as int),
        r is None ==> !exists_path(*map, start, goal, map.allow_diagonals),
        searched_extension_walkable(*map, old(searched)@, final(searched)@),
        start != goal ==> offers_start_successors(*map, start, old(searched)@, final(searched)@),
{
    astar(
        &start,
        |p: &Position| successors_logged(map, p, searched),
        |p: &Position| manhattan_cost(p, &goal),
        |p: &Position| same_position(p, &goal),
    )
}

/// Relies on pathfinding::directed::bfs::bfs: it returns a path from `start`
/// to the goal with the fewest cells of any such path, or `None` exactly
/// when the goal is unreachable in the successor graph.
#[verifier::external_body]
pub(crate) fn bfs_search(
    map: &GridMap,
    start: Position,
    goal: Position,
    searched: &mut Vec<Position>,
) -> (r: Option<Vec<Position>>)
    requires
        map.wf(),
    ensures
        r matches Some(p) ==> valid_path_from(*map, p@, start, goal, map.allow_diagonals) && (
        forall|q: Seq<Position>|
            valid_path_from(*map, q, start, goal, map.allow_diagonals) ==> q.len() >= p@.len()),
        r is None ==> !exists_path(*map, start, goal, map.allow_diagonals),
        searched_extension_walkable(*map, old(searched)@, final(searched)@),
        start != goal ==> offers_start_successors(*map, start, old(searched)@, final(searched)@),
{
    bfs(
        &start,
        |p: &Position| successor_positions_logged(map, p, searched),
        |p: &Position| same_position(p, &goal),
    )
}

/// Relies on pathfinding::directed::dijkstra::dijkstra: it returns a path
/// from `start` to the goal of minimal total cost together with that cost
/// (cell costs are at least 1, so all edge costs are non-negative as the
/// algorithm requires), or `None` exactly when the goal is unreachable in
/// the successor graph.
#[verifier::external_body]
pub(crate) fn dijkstra_search(
    map: &GridMap,
    start: Position,
    goal: Position,
    searched: &mut Vec<Position>,
) -> (r: Option<(Vec<Position>, i64)>)
    requires
        map.wf(),
    ensures
        r matches Some(pc) ==> valid_path_from(*map, pc.0@, start, goal, map.allow_diagonals)
            && pc.1 as int == spec_path_cost(*map, pc.0@) && (forall|q: Seq<Position>|
            valid_path_from(*map, q, start, goal, map.allow_diagonals) ==> spec_path_cost(*map, q)
                >= pc.1 as int),
        r is None ==> !exists_path(*map, start, goal, map.allow_diagonals),
        searched_extension_walkable(*map, old(searched)@, final(searched)@),
        start != goal ==> offers_start_successors(*map, start, old(searched)@, final(searched)@),
{
    dijkstra(
        &start,
        |p: &Position| successors_logged(map, p, searched),
        |p: &Position| same_position(p, &goal),
    )
}

} // verus!
