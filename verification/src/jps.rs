use vstd::prelude::*;

use crate::map::GridMap;
use crate::map::Position;
use crate::map::spec_adjacent;
use crate::score::Heuristic;
use crate::score::Score;

verus! {

/// The jump point search engine: an optimal single-pair search for
/// 8-connected grids that only enqueues cells where the path must turn.
pub struct Jps;

/// A node of the search tree: its cell, the arena index of its parent, and
/// three scores: `g` (distance from the root), `h` (estimate to the goal)
/// and `f = g + h`.
#[derive(Clone, Copy, Debug)]
struct PathNode {
    node: Position,
    parent: Option<usize>,
    f: Score,
    g: Score,
    h: Score,
}

impl PathNode {
    fn new(node: Position) -> (r: PathNode)
        ensures
            r.node == node,
            r.parent is None,
            r.f == Score::spec_zero(),
            r.g == Score::spec_zero(),
            r.h == Score::spec_zero(),
    {
        PathNode { node, parent: None, f: Score::zero(), g: Score::zero(), h: Score::zero() }
    }

    fn get_x(&self) -> (r: i32)
        ensures
            r == self.node.0,
    {
        self.node.0
    }

    fn get_y(&self) -> (r: i32)
        ensures
            r == self.node.1,
    {
        self.node.1
    }

    fn set_parent(&mut self, parent: usize)
        ensures
            final(self).node == old(self).node,
            final(self).parent == Some(parent),
            final(self).f == old(self).f,
            final(self).g == old(self).g,
            final(self).h == old(self).h,
    {
        self.parent = Some(parent);
    }
}

/// A one-cell king move.
pub open spec fn unit_dir(dx: int, dy: int) -> bool {
    -1 <= dx && dx <= 1 && -1 <= dy && dy <= 1 && !(dx == 0 && dy == 0)
}

/// Walking from `(x, y)` exactly `k` further steps in direction `(dx, dy)`
/// stays on walkable cells the whole way and ends at `p`.
pub open spec fn ray_reaches(
    m: GridMap,
    x: int,
    y: int,
    dx: int,
    dy: int,
    k: int,
    p: Position,
) -> bool
    decreases k,
{
    if k <= 0 {
        p.0 == x && p.1 == y && m.spec_is_path(x, y)
    } else {
        m.spec_is_path(x, y) && ray_reaches(m, x + dx, y + dy, dx, dy, k - 1, p)
    }
}

/// A jump from `c` in direction `(dx, dy)` can end at `p`: some walkable ray
/// leads there.
pub open spec fn jump_found(m: GridMap, c: Position, dx: int, dy: int, p: Position) -> bool {
    exists|k: int| 0 <= k && ray_reaches(m, c.0 as int, c.1 as int, dx, dy, k, p)
}

/// Witness form of `seg_ok`: `b` lies `k >= 1` king steps from `a` in
/// direction `(dx, dy)` and every cell after `a` on the way is walkable.
pub open spec fn seg_ok_wit(
    m: GridMap,
    a: Position,
    b: Position,
    dx: int,
    dy: int,
    k: int,
) -> bool {
    unit_dir(dx, dy) && 1 <= k && ray_reaches(m, a.0 + dx, a.1 + dy, dx, dy, k - 1, b)
}

/// `b` is reachable from `a` along one straight or diagonal walkable
/// segment of at least one step.
pub open spec fn seg_ok(m: GridMap, a: Position, b: Position) -> bool {
    exists|dx: int, dy: int, k: int| seg_ok_wit(m, a, b, dx, dy, k)
}

/// The end of a walkable ray is itself walkable, and its coordinates are
/// the start displaced `k` steps.
pub proof fn lemma_ray_end(m: GridMap, x: int, y: int, dx: int, dy: int, k: int, p: Position)
    requires
        0 <= k,
        ray_reaches(m, x, y, dx, dy, k, p),
    ensures
        m.spec_is_path(p.0 as int, p.1 as int),
        p.0 as int == x + k * dx,
        p.1 as int == y + k * dy,
    decreases k,
{
    if k <= 0 {
        assert(k * dx == 0) by (nonlinear_arith)
            requires
                k == 0,
        ;
        assert(k * dy == 0) by (nonlinear_arith)
            requires
                k == 0,
        ;
    } else {
        lemma_ray_end(m, x + dx, y + dy, dx, dy, k - 1, p);
        assert(p.0 as int == x + k * dx) by (nonlinear_arith)
            requires
                p.0 as int == (x + dx) + (k - 1) * dx,
        ;
        assert(p.1 as int == y + k * dy) by (nonlinear_arith)
            requires
                p.1 as int == (y + dy) + (k - 1) * dy,
        ;
    }
}

/// The probe log only grows, and everything appended is walkable.
pub open spec fn tested_ok(m: GridMap, before: Seq<Position>, after: Seq<Position>) -> bool {
    &&& after.len() >= before.len()
    &&& forall|i: int| 0 <= i < before.len() ==> after[i] == before[i]
    &&& forall|i: int|
        before.len() <= i < after.len() ==> m.spec_is_path(
            (#[trigger] after[i]).0 as int,
            after[i].1 as int,
        )
}

/// A recorded probe cell stays recorded as the log grows.
proof fn lemma_tested_keeps(m: GridMap, before: Seq<Position>, after: Seq<Position>, p: Position)
    requires
        tested_ok(m, before, after),
        before.contains(p),
    ensures
        after.contains(p),
{
    let i = choose|i: int| 0 <= i < before.len() && before[i] == p;
    assert(after[i] == p);
}

/// Linear membership scan.
fn vec_contains_pos(v: &Vec<Position>, p: &Position) -> (r: bool)
    ensures
        r == v@.contains(*p),
{
    let mut i: usize = 0;
    while i < v.len()
        invariant
            i <= v@.len(),
            forall|j: int| 0 <= j < i ==> v@[j] != *p,
        decreases v@.len() - i,
    {
        if v[i].0 == p.0 && v[i].1 == p.1 {
            assert(v@[i as int] == *p);
            return true;
        }
        i = i + 1;
    }
    assert(!v@.contains(*p));
    false
}

/// Remaining steps along one axis before the ray leaves the grid.
pub open spec fn axis_rem(c: int, d: int, len: int) -> int {
    if d > 0 {
        len - 1 - c
    } else {
        c
    }
}

pub open spec fn min_int(a: int, b: int) -> int {
    if a <= b {
        a
    } else {
        b
    }
}

/// First component of the termination measure of `jump`: diagonal probes
/// strictly shrink it, and straight probes drop to 0.
pub open spec fn jump_dec1(m: GridMap, c: Position, dx: int, dy: int) -> int {
    if dx != 0 && dy != 0 {
        1 + min_int(axis_rem(c.0 as int, dx, m.width as int), axis_rem(c.1 as int, dy, m.height as int))
    } else {
        0
    }
}

/// Second component: for straight probes, the distance to the grid edge.
pub open spec fn jump_dec2(m: GridMap, c: Position, dx: int, dy: int) -> int {
    if dx != 0 && dy != 0 {
        0
    } else if dx != 0 {
        axis_rem(c.0 as int, dx, m.width as int)
    } else {
        axis_rem(c.1 as int, dy, m.height as int)
    }
}

/// Sign of a coordinate difference.
pub open spec fn sign_int(a: int) -> int {
    if a > 0 {
        1
    } else if a < 0 {
        -1
    } else {
        0
    }
}

/// A singleton holding the cell when it is walkable, empty otherwise.
pub open spec fn pos_if_walkable(m: GridMap, x: int, y: int) -> Seq<Position> {
    if m.spec_is_path(x, y) {
        seq![Position(x as i32, y as i32)]
    } else {
        Seq::empty()
    }
}

/// The root's candidate set: all up-to-8 walkable neighbors, in the fixed
/// order north, east, south, west, north-west, north-east, south-east,
/// south-west.
#[verifier::opaque]
pub open spec fn spec_all_neighbors(m: GridMap, p: Position) -> Seq<Position> {
    let x = p.0 as int;
    let y = p.1 as int;
    pos_if_walkable(m, x, y - 1) + pos_if_walkable(m, x + 1, y) + pos_if_walkable(m, x, y + 1)
        + pos_if_walkable(m, x - 1, y) + pos_if_walkable(m, x - 1, y - 1) + pos_if_walkable(
        m,
        x + 1,
        y - 1,
    ) + pos_if_walkable(m, x + 1, y + 1) + pos_if_walkable(m, x - 1, y + 1)
}

/// Candidates while travelling diagonally: the two orthogonal naturals, the
/// diagonal natural when an orthogonal is open, and the forced neighbors.
#[verifier::opaque]
pub open spec fn spec_diag_neighbors(m: GridMap, x: int, y: int, dx: int, dy: int) -> Seq<
    Position,
> {
    pos_if_walkable(m, x, y + dy) + pos_if_walkable(m, x + dx, y) + (if m.spec_is_path(x, y + dy)
        || m.spec_is_path(x + dx, y) {
        pos_if_walkable(m, x + dx, y + dy)
    } else {
        Seq::empty()
    }) + (if m.spec_blocked(x - dx, y) && m.spec_is_path(x, y + dy) {
        pos_if_walkable(m, x - dx, y + dy)
    } else {
        Seq::empty()
    }) + (if m.spec_blocked(x, y - dy) && m.spec_is_path(x + dx, y) {
        pos_if_walkable(m, x + dx, y - dy)
    } else {
        Seq::empty()
    })
}

/// Candidates while travelling vertically: the natural ahead and the forced
/// neighbors past a blocked side cell.
#[verifier::opaque]
pub open spec fn spec_vert_neighbors(m: GridMap, x: int, y: int, dy: int) -> Seq<Position> {
    if m.spec_is_path(x, y + dy) {
        pos_if_walkable(m, x, y + dy) + (if m.spec_blocked(x + 1, y) {
            pos_if_walkable(m, x + 1, y + dy)
        } else {
            Seq::empty()
        }) + (if m.spec_blocked(x - 1, y) {
            pos_if_walkable(m, x - 1, y + dy)
        } else {
            Seq::empty()
        })
    } else {
        Seq::empty()
    }
}

/// Candidates while travelling horizontally: the natural ahead and the
/// forced neighbors past a blocked side cell.
#[verifier::opaque]
pub open spec fn spec_horiz_neighbors(m: GridMap, x: int, y: int, dx: int) -> Seq<Position> {
    if m.spec_is_path(x + dx, y) {
        pos_if_walkable(m, x + dx, y) + (if m.spec_blocked(x, y + 1) {
            pos_if_walkable(m, x + dx, y + 1)
        } else {
            Seq::empty()
        }) + (if m.spec_blocked(x, y - 1) {
            pos_if_walkable(m, x + dx, y - 1)
        } else {
            Seq::empty()
        })
    } else {
        Seq::empty()
    }
}

/// The pruned candidate set of a node entered from `parent`: the natural
/// neighbors in the travel direction plus any forced neighbors revealed by
/// an adjacent blocked cell.
pub open spec fn spec_pruned_neighbors(m: GridMap, node: Position, parent: Position) -> Seq<
    Position,
> {
    let x = node.0 as int;
    let y = node.1 as int;
    let dx = sign_int(x - parent.0 as int);
    let dy = sign_int(y - parent.1 as int);
    if dx != 0 && dy != 0 {
        spec_diag_neighbors(m, x, y, dx, dy)
    } else if dx == 0 {
        spec_vert_neighbors(m, x, y, dy)
    } else {
        spec_horiz_neighbors(m, x, y, dx)
    }
}

/// The candidate set of the arena node at `i`: pruned when it has a parent,
/// everything walkable at the root.
spec fn spec_neighbors_of(m: GridMap, arena: Seq<PathNode>, i: int) -> Seq<Position> {
    match arena[i].parent {
        None => spec_all_neighbors(m, arena[i].node),
        Some(p) => spec_pruned_neighbors(m, arena[i].node, arena[p as int].node),
    }
}

/// The jump rule of the engine as a function of its inputs, mirroring the
/// probe exactly: a blocked or out-of-bounds cell fails, the goal is
/// returned, a forced-neighbor condition or (diagonally) a successful
/// orthogonal sub-probe stops at the current cell, and otherwise the walk
/// continues one cell in the same direction if it can.
#[verifier::opaque]
pub open spec fn spec_jump(m: GridMap, current: Position, neighbor: Position, goal: Position) -> Option<
    Position,
>
    decreases
            jump_dec1(m, current, current.0 - neighbor.0, current.1 - neighbor.1),
            jump_dec2(m, current, current.0 - neighbor.0, current.1 - neighbor.1),
        when unit_dir(current.0 - neighbor.0, current.1 - neighbor.1)
{
    let x = current.0 as int;
    let y = current.1 as int;
    let dx = x - neighbor.0 as int;
    let dy = y - neighbor.1 as int;
    if m.spec_blocked(x, y) {
        None
    } else if current == goal {
        Some(current)
    } else if dx != 0 && dy != 0 {
        if (m.spec_is_path(x - dx, y + dy) && m.spec_blocked(x - dx, y)) || (m.spec_is_path(
            x + dx,
            y - dy,
        ) && m.spec_blocked(x, y - dy)) {
            Some(current)
        } else if m.spec_is_path(x + dx, y) && spec_jump(
            m,
            Position((x + dx) as i32, y as i32),
            current,
            goal,
        ) is Some {
            Some(current)
        } else if m.spec_is_path(x, y + dy) && spec_jump(
            m,
            Position(x as i32, (y + dy) as i32),
            current,
            goal,
        ) is Some {
            Some(current)
        } else if (m.spec_is_path(x + dx, y) || m.spec_is_path(x, y + dy)) && m.spec_is_path(
            x + dx,
            y + dy,
        ) {
            spec_jump(m, Position((x + dx) as i32, (y + dy) as i32), current, goal)
        } else {
            None
        }
    } else {
        let forced = if dx != 0 {
            (m.spec_is_path(x + dx, y + 1) && m.spec_blocked(x, y + 1)) || (m.spec_is_path(
                x + dx,
                y - 1,
            ) && m.spec_blocked(x, y - 1))
        } else {
            (m.spec_is_path(x + 1, y + dy) && m.spec_blocked(x + 1, y)) || (m.spec_is_path(
                x - 1,
                y + dy,
            ) && m.spec_blocked(x - 1, y))
        };
        if forced {
            Some(current)
        } else if (m.spec_is_path(x + dx, y) || m.spec_is_path(x, y + dy)) && m.spec_is_path(
            x + dx,
            y + dy,
        ) {
            spec_jump(m, Position((x + dx) as i32, (y + dy) as i32), current, goal)
        } else {
            None
        }
    }
}

/// Distinct walkable cells have distinct cell indices.
proof fn lemma_cell_of_injective(m: GridMap, a: Position, b: Position)
    requires
        m.wf(),
        m.spec_is_path(a.0 as int, a.1 as int),
        m.spec_is_path(b.0 as int, b.1 as int),
        cell_of(m, a) == cell_of(m, b),
    ensures
        a == b,
{
    assert(a.0 as int == b.0 as int && a.1 as int == b.1 as int) by (nonlinear_arith)
        requires
            (a.1 as int) * (m.width as int) + a.0 as int == (b.1 as int) * (m.width as int)
                + b.0 as int,
            0 <= a.0 as int && (a.0 as int) < (m.width as int),
            0 <= b.0 as int && (b.0 as int) < (m.width as int),
    ;
}

/// Every walkable king neighbor of `p` occurs in the root candidate set.
proof fn lemma_all_neighbors_contains(m: GridMap, p: Position, q: Position)
    requires
        m.spec_is_path(q.0 as int, q.1 as int),
        spec_adjacent(p, q, true),
    ensures
        exists|j: int|
            0 <= j < spec_all_neighbors(m, p).len() && spec_all_neighbors(m, p)[j] == q,
{
    reveal(spec_all_neighbors);
    let x = p.0 as int;
    let y = p.1 as int;
    let s1 = pos_if_walkable(m, x, y - 1);
    let s2 = pos_if_walkable(m, x + 1, y);
    let s3 = pos_if_walkable(m, x, y + 1);
    let s4 = pos_if_walkable(m, x - 1, y);
    let s5 = pos_if_walkable(m, x - 1, y - 1);
    let s6 = pos_if_walkable(m, x + 1, y - 1);
    let s7 = pos_if_walkable(m, x + 1, y + 1);
    let all = spec_all_neighbors(m, p);
    if q.0 as int == x && q.1 as int == y - 1 {
        assert(s1 == seq![q]);
        assert(all[0] == q);
    } else if q.0 as int == x + 1 && q.1 as int == y {
        assert(s2 == seq![q]);
        assert(all[s1.len() as int] == q);
    } else if q.0 as int == x && q.1 as int == y + 1 {
        assert(s3 == seq![q]);
        assert(all[(s1 + s2).len() as int] == q);
    } else if q.0 as int == x - 1 && q.1 as int == y {
        assert(s4 == seq![q]);
        assert(all[(s1 + s2 + s3).len() as int] == q);
    } else if q.0 as int == x - 1 && q.1 as int == y - 1 {
        assert(s5 == seq![q]);
        assert(all[(s1 + s2 + s3 + s4).len() as int] == q);
    } else if q.0 as int == x + 1 && q.1 as int == y - 1 {
        assert(s6 == seq![q]);
        assert(all[(s1 + s2 + s3 + s4 + s5).len() as int] == q);
    } else if q.0 as int == x + 1 && q.1 as int == y + 1 {
        assert(s7 == seq![q]);
        assert(all[(s1 + s2 + s3 + s4 + s5 + s6).len() as int] == q);
    } else {
        assert(q.0 as int == x - 1 && q.1 as int == y + 1);
        assert(pos_if_walkable(m, x - 1, y + 1) == seq![q]);
        assert(all[(s1 + s2 + s3 + s4 + s5 + s6 + s7).len() as int] == q);
    }
}

/// `a` and `b` are distinct cells whenever a segment joins them.
proof fn lemma_seg_displaces(m: GridMap, a: Position, b: Position)
    requires
        seg_ok(m, a, b),
    ensures
        a.0 != b.0 || a.1 != b.1,
{
    let (dx, dy, k) = choose|dx: int, dy: int, k: int| seg_ok_wit(m, a, b, dx, dy, k);
    assert(seg_ok_wit(m, a, b, dx, dy, k));
    lemma_ray_end(m, a.0 + dx, a.1 + dy, dx, dy, k - 1, b);
    if dx == 0 {
        assert((k - 1) * dx == 0) by (nonlinear_arith)
            requires
                dx == 0,
        ;
        assert((k - 1) * dy == (if dy == 1 { k - 1 } else { 1 - k })) by (nonlinear_arith)
            requires
                dy == 1 || dy == -1,
        ;
    } else {
        assert((k - 1) * dx == (if dx == 1 { k - 1 } else { 1 - k })) by (nonlinear_arith)
            requires
                dx == 1 || dx == -1,
        ;
        assert((k - 1) * dy == (if dy == 1 { k - 1 } else if dy == -1 { 1 - k } else { 0 }))
            by (nonlinear_arith)
            requires
                -1 <= dy <= 1,
        ;
    }
}

/// Octile distance between two cells, as an exact score.
pub open spec fn spec_octile_between(a: Position, b: Position) -> Score {
    Heuristic::spec_octile(
        crate::map::abs_diff(a.0 as int, b.0 as int) as u64,
        crate::map::abs_diff(a.1 as int, b.1 as int) as u64,
    )
}

/// Manhattan distance between two cells, as an exact score.
pub open spec fn spec_manhattan_to(a: Position, b: Position) -> Score {
    Heuristic::spec_manhattan(
        crate::map::abs_diff(a.0 as int, b.0 as int) as u64,
        crate::map::abs_diff(a.1 as int, b.1 as int) as u64,
    )
}

/// The shape of every node this expansion enqueues: parent is the expanded
/// node, g adds the octile distance of the jump segment to the parent's g,
/// h is the Manhattan estimate to the goal, and f = g + h.
spec fn queued_shape(parent_g: Score, parent_pos: Position, parent_idx: usize, goal: Position, n: PathNode) -> bool {
    &&& n.parent == Some(parent_idx)
    &&& n.g == Score::spec_add(parent_g, spec_octile_between(parent_pos, n.node))
    &&& n.h == spec_manhattan_to(n.node, goal)
    &&& n.f == Score::spec_add(n.g, n.h)
}

/// The arena index of a node's cell.
spec fn cell_of(m: GridMap, p: Position) -> int {
    m.spec_idx(p.0 as int, p.1 as int)
}

/// Well-formedness of the node arena: one root without parent at index 0,
/// every node on a walkable cell with capped scores, and every later node
/// joined to an earlier parent by a walkable straight or diagonal segment.
spec fn wf_arena(m: GridMap, arena: Seq<PathNode>) -> bool {
    &&& arena.len() >= 1
    &&& arena[0].parent is None
    &&& forall|i: int|
        0 <= i < arena.len() ==> {
            let n = #[trigger] arena[i];
            &&& m.spec_is_path(n.node.0 as int, n.node.1 as int)
            &&& n.f.ok()
            &&& n.g.ok()
            &&& n.h.ok()
        }
    &&& forall|i: int|
        1 <= i < arena.len() ==> {
            let n = #[trigger] arena[i];
            &&& n.parent matches Some(p)
            &&& n.parent.unwrap() < i
            &&& seg_ok(m, arena[n.parent.unwrap() as int].node, n.node)
        }
}

/// Well-formedness of the search frontier: `open` holds distinct arena
/// indices of unclosed cells, and `node_path` maps each cell to the arena
/// node currently queued for it.
spec fn wf_frontier(
    m: GridMap,
    arena: Seq<PathNode>,
    open: Seq<usize>,
    np: Seq<Option<usize>>,
    closed: Seq<bool>,
) -> bool {
    &&& np.len() == m.cells()
    &&& closed.len() == m.cells()
    &&& forall|k: int|
        0 <= k < open.len() ==> {
            let oi = #[trigger] open[k];
            &&& oi < arena.len()
            &&& 0 <= cell_of(m, arena[oi as int].node) < np.len()
            &&& np[cell_of(m, arena[oi as int].node)] == Some(oi)
            &&& !closed[cell_of(m, arena[oi as int].node)]
        }
    &&& distinct_seq(open)
    &&& forall|c: int|
        0 <= c < np.len() ==> ((#[trigger] np[c]) matches Some(n) ==> n < arena.len() && cell_of(
            m,
            arena[n as int].node,
        ) == c)
    &&& forall|c: int|
        0 <= c < np.len() ==> ((#[trigger] np[c]) matches Some(n) ==> !closed[c]
            ==> open.contains(n))
}

/// Number of cells not yet closed: the termination measure of the search
/// loop.
spec fn count_open_cells(closed: Seq<bool>) -> int
    decreases closed.len(),
{
    if closed.len() == 0 {
        0
    } else {
        count_open_cells(closed.drop_last()) + if closed.last() {
            0int
        } else {
            1int
        }
    }
}

proof fn lemma_count_nonneg(closed: Seq<bool>)
    ensures
        count_open_cells(closed) >= 0,
    decreases closed.len(),
{
    if closed.len() > 0 {
        lemma_count_nonneg(closed.drop_last());
    }
}

/// Closing one open cell lowers the count by exactly one.
proof fn lemma_count_close(closed: Seq<bool>, i: int)
    requires
        0 <= i < closed.len(),
        !closed[i],
    ensures
        count_open_cells(closed.update(i, true)) == count_open_cells(closed) - 1,
    decreases closed.len(),
{
    if i == closed.len() - 1 {
        assert(closed.update(i, true).drop_last() =~= closed.drop_last());
    } else {
        assert(closed.update(i, true).drop_last() =~= closed.drop_last().update(i, true));
        lemma_count_close(closed.drop_last(), i);
    }
}

/// No index occurs twice.
spec fn distinct_seq(s: Seq<usize>) -> bool {
    forall|i: int, j: int| #![trigger s[i], s[j]] 0 <= i < j < s.len() ==> s[i] != s[j]
}

/// Removes the entry holding `target` from the open list (it is there, and
/// entries are distinct); the other entries survive.
fn remove_from_open(open: &mut Vec<usize>, target: usize)
    requires
        exists|k: int| 0 <= k < old(open)@.len() && old(open)@[k] == target,
        distinct_seq(old(open)@),
    ensures
        final(open)@.len() == old(open)@.len() - 1,
        forall|j: int|
            0 <= j < final(open)@.len() ==> old(open)@.contains(#[trigger] final(open)@[j])
                && final(open)@[j] != target,
        distinct_seq(final(open)@),
        forall|v: usize|
            #[trigger] old(open)@.contains(v) && v != target ==> final(open)@.contains(v),
{
    let ghost orig = open@;
    let mut k: usize = 0;
    while k < open.len()
        invariant
            open@ == orig,
            orig == old(open)@,
            distinct_seq(orig),
            k <= open@.len(),
            forall|j: int| 0 <= j < k ==> open@[j] != target,
            exists|kk: int| 0 <= kk < orig.len() && orig[kk] == target,
        decreases open@.len() - k,
    {
        if open[k] == target {
            open.swap_remove(k);
            proof {
                assert(orig[k as int] == target);
                assert(open@.len() == orig.len() - 1);
                assert forall|j: int| 0 <= j < open@.len() implies orig.contains(
                    #[trigger] open@[j],
                ) && open@[j] != target by {
                    if j < k {
                        assert(open@[j] == orig[j]);
                    } else if j == k {
                        assert(open@[j] == orig[orig.len() - 1]);
                        assert(orig[k as int] != orig[orig.len() - 1]);
                    } else {
                        assert(open@[j] == orig[j]);
                        assert(orig[k as int] != orig[j]);
                    }
                }
                assert forall|v: usize| orig.contains(v) && v != target implies open@.contains(
                    v,
                ) by {
                    let j = choose|j: int| 0 <= j < orig.len() && orig[j] == v;
                    if j == orig.len() - 1 {
                        assert(open@[k as int] == v);
                    } else if j < k {
                        assert(open@[j] == v);
                    } else if j > k {
                        assert(open@[j] == v);
                    } else {
                        assert(orig[k as int] == target);
                    }
                }
            }
            return;
        }
        k = k + 1;
    }
    proof {
        let kw = choose|kw: int| 0 <= kw < orig.len() && orig[kw] == target;
        assert(false);
    }
}

/// A king-connected walkable path from `start` to `goal`, both included.
pub open spec fn king_path_ok(
    m: GridMap,
    p: Seq<Position>,
    start: Position,
    goal: Position,
) -> bool {
    &&& p.len() >= 1
    &&& p[0] == start
    &&& p[p.len() - 1] == goal
    &&& forall|i: int|
        0 <= i < p.len() ==> m.spec_is_path((#[trigger] p[i]).0 as int, p[i].1 as int)
    &&& forall|i: int| 0 <= i < p.len() - 1 ==> spec_adjacent(#[trigger] p[i], p[i + 1], true)
}

/// Appends the cell to the candidate list when it is walkable.
fn push_pos(map: &GridMap, v: &mut Vec<Position>, x: i32, y: i32)
    requires
        map.wf(),
    ensures
        final(v)@ == old(v)@ + pos_if_walkable(*map, x as int, y as int),
{
    if let Some(p) = map.walkable_position(x, y) {
        v.push(p);
        assert(v@ =~= old(v)@ + pos_if_walkable(*map, x as int, y as int));
    } else {
        assert(v@ =~= old(v)@ + pos_if_walkable(*map, x as int, y as int));
    }
}

/// Absolute difference of two coordinates, as a wide unsigned value.
fn coord_abs_diff(a: i32, b: i32) -> (r: u64)
    ensures
        r as int == crate::map::abs_diff(a as int, b as int),
{
    if a >= b {
        (a as i64 - b as i64) as u64
    } else {
        (b as i64 - a as i64) as u64
    }
}

impl Jps {
    /// Expands one popped node: probes a jump from every pruned neighbor,
    /// and queues every jump point found that is not closed yet, replacing
    /// an already-queued node for the same cell when the new route is
    /// cheaper.
    /// Queues one jump point found from the expanded node `node_idx`:
    /// skipped when its cell is closed; otherwise, when it is new or the
    /// route through the expanded node improves its recorded g, a node with
    /// parent `node_idx`, g = parent g + octile segment distance,
    /// h = Manhattan to the goal and f = g + h replaces or joins the queue.
    #[verifier::rlimit(100)]
    fn queue_jump_point(
        map: &GridMap,
        arena: &mut Vec<PathNode>,
        node_idx: usize,
        goal: Position,
        closed: &Vec<bool>,
        open: &mut Vec<usize>,
        node_path: &mut Vec<Option<usize>>,
        jp: Position,
    )
        requires
            map.wf(),
            wf_arena(*map, old(arena)@),
            node_idx < old(arena)@.len(),
            wf_frontier(*map, old(arena)@, old(open)@, old(node_path)@, closed@),
            map.spec_is_path(jp.0 as int, jp.1 as int),
            seg_ok(*map, old(arena)@[node_idx as int].node, jp),
        ensures
            wf_arena(*map, final(arena)@),
            final(arena)@.len() >= old(arena)@.len(),
            forall|i: int| 0 <= i < old(arena)@.len() ==> final(arena)@[i] == old(arena)@[i],
            wf_frontier(*map, final(arena)@, final(open)@, final(node_path)@, closed@),
            forall|i: int|
                old(arena)@.len() <= i < final(arena)@.len() ==> queued_shape(
                    old(arena)@[node_idx as int].g,
                    old(arena)@[node_idx as int].node,
                    node_idx,
                    goal,
                    #[trigger] final(arena)@[i],
                ),
            forall|c: int|
                0 <= c < old(node_path)@.len() && old(node_path)@[c] is Some
                    ==> final(node_path)@[c] is Some,
            forall|c: int|
                0 <= c < old(node_path)@.len() && closed@[c]
                    ==> final(node_path)@[c] == old(node_path)@[c],
            !closed@[cell_of(*map, jp)] ==> final(node_path)@[cell_of(*map, jp)] is Some,
            forall|c: int|
                0 <= c < old(node_path)@.len() && c != cell_of(*map, jp)
                    ==> final(node_path)@[c] == old(node_path)@[c],
            old(node_path)@[cell_of(*map, jp)] matches Some(n0) ==> (final(node_path)@[cell_of(
                *map,
                jp,
            )] matches Some(n1) ==> n1 != n0 ==> Score::spec_lt(
                final(arena)@[n1 as int].g,
                old(arena)@[n0 as int].g,
            )),
    {
        proof {
            map.lemma_idx_in_range(jp.0 as int, jp.1 as int);
        }
        let cell = map.xy_idx(jp.0, jp.1);
        if closed[cell] {
            return;
        }
        let node = arena[node_idx];
        let adx = coord_abs_diff(jp.0, node.node.0);
        let ady = coord_abs_diff(jp.1, node.node.1);
        let d = Heuristic::octile(adx, ady);
        let ng = node.g.add_score(d);
        let prev = node_path[cell];
        let improve: bool = match prev {
            Some(pn) => ng.less_than(&arena[pn].g),
            None => true,
        };
        if improve {
            let hx = coord_abs_diff(jp.0, goal.0);
            let hy = coord_abs_diff(jp.1, goal.1);
            let h = Heuristic::manhattan(hx, hy);
            let f = ng.add_score(h);
            let mut jump_node = PathNode::new(jp);
            jump_node.set_parent(node_idx);
            jump_node.g = ng;
            jump_node.h = h;
            jump_node.f = f;
            let ghost arena_before = arena@;
            arena.push(jump_node);
            let new_idx = arena.len() - 1;
            proof {
                assert(arena@ == arena_before.push(jump_node));
                assert(arena@[new_idx as int] == jump_node);
                assert forall|j: int| 1 <= j < arena@.len() implies {
                    let n = #[trigger] arena@[j];
                    &&& n.parent matches Some(p)
                    &&& n.parent.unwrap() < j
                    &&& seg_ok(*map, arena@[n.parent.unwrap() as int].node, n.node)
                } by {
                    if j < arena_before.len() {
                        assert(arena@[j] == arena_before[j]);
                    } else {
                        assert(arena@[j] == jump_node);
                    }
                }
                assert(wf_arena(*map, arena@));
            }
            let ghost open_before = open@;
            let ghost np_before = node_path@;
            if let Some(prev_idx) = prev {
                proof {
                    assert(np_before[cell as int] == Some(prev_idx));
                    assert(open_before.contains(prev_idx));
                }
                remove_from_open(open, prev_idx);
                let ghost open_mid = open@;
                open.push(new_idx);
                node_path[cell] = Some(new_idx);
                proof {
                    assert forall|k: int| 0 <= k < open@.len() implies {
                        let oi = #[trigger] open@[k];
                        &&& oi < arena@.len()
                        &&& 0 <= cell_of(*map, arena@[oi as int].node) < node_path@.len()
                        &&& node_path@[cell_of(*map, arena@[oi as int].node)] == Some(oi)
                        &&& !closed@[cell_of(*map, arena@[oi as int].node)]
                    } by {
                        let oi = open@[k];
                        if k == open@.len() - 1 {
                            assert(oi == new_idx);
                        } else {
                            assert(open_before.contains(oi) && oi != prev_idx);
                            let kb = choose|kb: int|
                                0 <= kb < open_before.len() && open_before[kb] == oi;
                            assert(arena@[oi as int] == arena_before[oi as int]);
                            assert(cell_of(*map, arena@[oi as int].node) != cell as int);
                        }
                    }
                    assert(distinct_seq(open@)) by {
                        assert forall|a: int, b: int|
                            0 <= a < b < open@.len() implies open@[a] != open@[b] by {
                            if b == open@.len() - 1 {
                                assert(open_before.contains(open@[a]));
                                let ka = choose|ka: int|
                                    0 <= ka < open_before.len() && open_before[ka] == open@[a];
                                assert(open@[a] < arena_before.len());
                            }
                        }
                    }
                    assert forall|c: int| 0 <= c < node_path@.len() implies ((
                    #[trigger] node_path@[c]) matches Some(n) ==> n < arena@.len() && cell_of(
                        *map,
                        arena@[n as int].node,
                    ) == c) by {
                        if c != cell as int {
                            assert(node_path@[c] == np_before[c]);
                        }
                    }
                    assert forall|c: int| 0 <= c < node_path@.len() implies ((
                    #[trigger] node_path@[c]) matches Some(n) ==> !closed@[c]
                        ==> open@.contains(n)) by {
                        if node_path@[c] is Some && !closed@[c] {
                            let n = node_path@[c].unwrap();
                            if c == cell as int {
                                assert(open@[open@.len() - 1] == new_idx);
                            } else {
                                assert(np_before[c] == Some(n));
                                assert(cell_of(*map, arena_before[n as int].node) == c);
                                assert(n != prev_idx);
                                assert(open_before.contains(n));
                                assert(open_mid.contains(n));
                                let kn = choose|kn: int|
                                    0 <= kn < open_mid.len() && open_mid[kn] == n;
                                assert(open@[kn] == n);
                            }
                        }
                    }
                    assert(wf_frontier(*map, arena@, open@, node_path@, closed@));
                    assert forall|c: int|
                        0 <= c < node_path@.len() && np_before[c] is Some implies node_path@[c]
                        is Some by {
                        if c != cell as int {
                            assert(node_path@[c] == np_before[c]);
                        }
                    }
                }
            } else {
                open.push(new_idx);
                node_path[cell] = Some(new_idx);
                proof {
                    assert forall|k: int| 0 <= k < open@.len() implies {
                        let oi = #[trigger] open@[k];
                        &&& oi < arena@.len()
                        &&& 0 <= cell_of(*map, arena@[oi as int].node) < node_path@.len()
                        &&& node_path@[cell_of(*map, arena@[oi as int].node)] == Some(oi)
                        &&& !closed@[cell_of(*map, arena@[oi as int].node)]
                    } by {
                        let oi = open@[k];
                        if k == open@.len() - 1 {
                            assert(oi == new_idx);
                        } else {
                            assert(oi == open_before[k]);
                            assert(arena@[oi as int] == arena_before[oi as int]);
                            assert(cell_of(*map, arena@[oi as int].node) != cell as int);
                        }
                    }
                    assert(distinct_seq(open@)) by {
                        assert forall|a: int, b: int|
                            0 <= a < b < open@.len() implies open@[a] != open@[b] by {
                            if b == open@.len() - 1 {
                                assert(open@[a] == open_before[a]);
                                assert(open@[a] < arena_before.len());
                            }
                        }
                    }
                    assert forall|c: int| 0 <= c < node_path@.len() implies ((
                    #[trigger] node_path@[c]) matches Some(n) ==> n < arena@.len() && cell_of(
                        *map,
                        arena@[n as int].node,
                    ) == c) by {
                        if c != cell as int {
                            assert(node_path@[c] == np_before[c]);
                        }
                    }
                    assert forall|c: int| 0 <= c < node_path@.len() implies ((
                    #[trigger] node_path@[c]) matches Some(n) ==> !closed@[c]
                        ==> open@.contains(n)) by {
                        if node_path@[c] is Some && !closed@[c] {
                            let n = node_path@[c].unwrap();
                            if c == cell as int {
                                assert(open@[open@.len() - 1] == new_idx);
                            } else {
                                assert(np_before[c] == Some(n));
                                assert(open_before.contains(n));
                                let kn = choose|kn: int|
                                    0 <= kn < open_before.len() && open_before[kn] == n;
                                assert(open@[kn] == n);
                            }
                        }
                    }
                    assert(wf_frontier(*map, arena@, open@, node_path@, closed@));
                    assert forall|c: int|
                        0 <= c < node_path@.len() && np_before[c] is Some implies node_path@[c]
                        is Some by {
                        if c != cell as int {
                            assert(node_path@[c] == np_before[c]);
                        }
                    }
                }
            }
        }
    }

    /// Expands one popped node: probes a jump from every pruned neighbor,
    /// and queues every jump point found that is not closed yet, replacing
    /// an already-queued node for the same cell when the new route is
    /// cheaper.
    #[verifier::rlimit(100)]
    fn identify_successors(
        map: &GridMap,
        arena: &mut Vec<PathNode>,
        node_idx: usize,
        goal: Position,
        closed: &Vec<bool>,
        open: &mut Vec<usize>,
        node_path: &mut Vec<Option<usize>>,
        tested: &mut Vec<Position>,
    )
        requires
            map.wf(),
            wf_arena(*map, old(arena)@),
            node_idx < old(arena)@.len(),
            wf_frontier(*map, old(arena)@, old(open)@, old(node_path)@, closed@),
        ensures
            wf_arena(*map, final(arena)@),
            final(arena)@.len() >= old(arena)@.len(),
            forall|i: int| 0 <= i < old(arena)@.len() ==> final(arena)@[i] == old(arena)@[i],
            wf_frontier(*map, final(arena)@, final(open)@, final(node_path)@, closed@),
            tested_ok(*map, old(tested)@, final(tested)@),
            forall|i: int|
                old(arena)@.len() <= i < final(arena)@.len() ==> queued_shape(
                    old(arena)@[node_idx as int].g,
                    old(arena)@[node_idx as int].node,
                    node_idx,
                    goal,
                    #[trigger] final(arena)@[i],
                ),
            forall|c: int|
                0 <= c < old(node_path)@.len() && old(node_path)@[c] is Some
                    ==> final(node_path)@[c] is Some,
            forall|c: int|
                0 <= c < old(node_path)@.len() && closed@[c]
                    ==> final(node_path)@[c] == old(node_path)@[c],
            (0 <= cell_of(*map, goal) < old(node_path)@.len() && !closed@[cell_of(*map, goal)] && (
            exists|j: int|
                0 <= j < spec_neighbors_of(*map, old(arena)@, node_idx as int).len()
                    && spec_jump(
                    *map,
                    #[trigger] spec_neighbors_of(*map, old(arena)@, node_idx as int)[j],
                    old(arena)@[node_idx as int].node,
                    goal,
                ) == Some(goal))) ==> final(node_path)@[cell_of(*map, goal)] is Some,
    {
        let node = arena[node_idx];
        let neighbors = Jps::find_neighbors(map, arena, node_idx);
        let mut i: usize = 0;
        while i < neighbors.len()
            invariant
                map.wf(),
                node_idx < old(arena)@.len(),
                arena@.len() >= old(arena)@.len(),
                forall|j: int| 0 <= j < old(arena)@.len() ==> arena@[j] == old(arena)@[j],
                node == arena@[node_idx as int],
                wf_arena(*map, arena@),
                wf_frontier(*map, arena@, open@, node_path@, closed@),
                tested_ok(*map, old(tested)@, tested@),
                i <= neighbors@.len(),
                forall|j: int|
                    0 <= j < neighbors@.len() ==> map.spec_is_path(
                        (#[trigger] neighbors@[j]).0 as int,
                        neighbors@[j].1 as int,
                    ) && spec_adjacent(node.node, neighbors@[j], true),
                neighbors@ == spec_neighbors_of(*map, old(arena)@, node_idx as int),
                forall|j: int|
                    old(arena)@.len() <= j < arena@.len() ==> queued_shape(
                        node.g,
                        node.node,
                        node_idx,
                        goal,
                        #[trigger] arena@[j],
                    ),
                forall|c: int|
                    0 <= c < old(node_path)@.len() && old(node_path)@[c] is Some ==> node_path@[c]
                        is Some,
                forall|c: int|
                    0 <= c < old(node_path)@.len() && closed@[c] ==> node_path@[c] == old(
                        node_path,
                    )@[c],
                node_path@.len() == old(node_path)@.len(),
                0 <= cell_of(*map, goal) < node_path@.len() && !closed@[cell_of(*map, goal)]
                    ==> forall|j: int|
                    0 <= j < i && spec_jump(*map, #[trigger] neighbors@[j], node.node, goal)
                        == Some(goal) ==> node_path@[cell_of(*map, goal)] is Some,
            decreases neighbors@.len() - i,
        {
            let neighbor = neighbors[i];
            let jump_point = Jps::jump(map, neighbor, node.node, goal, tested);
            if let Some(jp) = jump_point {
                let ghost dxi = neighbor.0 as int - node.node.0 as int;
                let ghost dyi = neighbor.1 as int - node.node.1 as int;
                proof {
                    let kj = choose|k: int|
                        0 <= k && ray_reaches(
                            *map,
                            neighbor.0 as int,
                            neighbor.1 as int,
                            dxi,
                            dyi,
                            k,
                            jp,
                        );
                    lemma_ray_end(*map, neighbor.0 as int, neighbor.1 as int, dxi, dyi, kj, jp);
                    assert(node.node.0 as int + dxi == neighbor.0 as int);
                    assert(seg_ok_wit(*map, node.node, jp, dxi, dyi, kj + 1));
                    assert(seg_ok(*map, node.node, jp));
                    map.lemma_idx_in_range(jp.0 as int, jp.1 as int);
                }
                Jps::queue_jump_point(map, arena, node_idx, goal, closed, open, node_path, jp);
            }
            i = i + 1;
        }
    }

    /// All up-to-8 walkable neighbors: the candidate set of the root node.
    #[verifier::rlimit(30)]
    fn get_all_neightbors(map: &GridMap, node: Position) -> (r: Vec<Position>)
        requires
            map.wf(),
            map.spec_is_path(node.0 as int, node.1 as int),
        ensures
            r@ == spec_all_neighbors(*map, node),
            forall|i: int|
                0 <= i < r@.len() ==> map.spec_is_path(
                    (#[trigger] r@[i]).0 as int,
                    r@[i].1 as int,
                ) && spec_adjacent(node, r@[i], true),
    {
        proof {
            reveal(spec_all_neighbors);
        }
        let x = node.0;
        let y = node.1;
        let mut v: Vec<Position> = Vec::new();
        push_pos(map, &mut v, x, y - 1);
        push_pos(map, &mut v, x + 1, y);
        push_pos(map, &mut v, x, y + 1);
        push_pos(map, &mut v, x - 1, y);
        push_pos(map, &mut v, x - 1, y - 1);
        push_pos(map, &mut v, x + 1, y - 1);
        push_pos(map, &mut v, x + 1, y + 1);
        push_pos(map, &mut v, x - 1, y + 1);
        assert(v@ =~= spec_all_neighbors(*map, node));
        v
    }

    /// The pruned candidate set of a node: with a parent, only the natural
    /// neighbors in the travel direction plus any forced neighbors; for the
    /// root, every walkable neighbor.
    #[verifier::rlimit(100)]
    fn find_neighbors(map: &GridMap, arena: &Vec<PathNode>, node_idx: usize) -> (r: Vec<Position>)
        requires
            map.wf(),
            wf_arena(*map, arena@),
            node_idx < arena@.len(),
        ensures
            r@ == spec_neighbors_of(*map, arena@, node_idx as int),
            forall|i: int|
                0 <= i < r@.len() ==> map.spec_is_path(
                    (#[trigger] r@[i]).0 as int,
                    r@[i].1 as int,
                ) && spec_adjacent(arena@[node_idx as int].node, r@[i], true),
    {
        let node = arena[node_idx];
        if let Some(parent_idx) = node.parent {
            let x = node.get_x();
            let y = node.get_y();
            proof {
                if node_idx == 0 {
                    assert(arena@[0].parent is None);
                }
                lemma_seg_displaces(*map, arena@[node.parent.unwrap() as int].node, node.node);
            }
            let px = arena[parent_idx].get_x();
            let py = arena[parent_idx].get_y();
            let dx: i32 = if x > px {
                1
            } else if x < px {
                -1
            } else {
                0
            };
            let dy: i32 = if y > py {
                1
            } else if y < py {
                -1
            } else {
                0
            };
            proof {
                assert(dx as int == sign_int(x as int - px as int));
                assert(dy as int == sign_int(y as int - py as int));
            }
            if dx != 0 && dy != 0 {
                Jps::diag_neighbors(map, x, y, dx, dy)
            } else if dx == 0 {
                Jps::vert_neighbors(map, x, y, dy)
            } else {
                Jps::horiz_neighbors(map, x, y, dx)
            }
        } else {
            Jps::get_all_neightbors(map, node.node)
        }
    }

    fn diag_neighbors(map: &GridMap, x: i32, y: i32, dx: i32, dy: i32) -> (r: Vec<Position>)
        requires
            map.wf(),
            map.spec_is_path(x as int, y as int),
            dx == 1 || dx == -1,
            dy == 1 || dy == -1,
        ensures
            r@ == spec_diag_neighbors(*map, x as int, y as int, dx as int, dy as int),
            forall|i: int|
                0 <= i < r@.len() ==> map.spec_is_path(
                    (#[trigger] r@[i]).0 as int,
                    r@[i].1 as int,
                ) && spec_adjacent(Position(x, y), r@[i], true),
    {
        proof {
            reveal(spec_diag_neighbors);
        }
        let mut v: Vec<Position> = Vec::new();
        push_pos(map, &mut v, x, y + dy);
        push_pos(map, &mut v, x + dx, y);
        if map.is_path(x, y + dy) || map.is_path(x + dx, y) {
            push_pos(map, &mut v, x + dx, y + dy);
        }
        if map.is_blocked(x - dx, y) && map.is_path(x, y + dy) {
            push_pos(map, &mut v, x - dx, y + dy);
        }
        if map.is_blocked(x, y - dy) && map.is_path(x + dx, y) {
            push_pos(map, &mut v, x + dx, y - dy);
        }
        assert(v@ =~= spec_diag_neighbors(*map, x as int, y as int, dx as int, dy as int));
        v
    }

    fn vert_neighbors(map: &GridMap, x: i32, y: i32, dy: i32) -> (r: Vec<Position>)
        requires
            map.wf(),
            map.spec_is_path(x as int, y as int),
            dy == 1 || dy == -1,
        ensures
            r@ == spec_vert_neighbors(*map, x as int, y as int, dy as int),
            forall|i: int|
                0 <= i < r@.len() ==> map.spec_is_path(
                    (#[trigger] r@[i]).0 as int,
                    r@[i].1 as int,
                ) && spec_adjacent(Position(x, y), r@[i], true),
    {
        proof {
            reveal(spec_vert_neighbors);
        }
        let mut v: Vec<Position> = Vec::new();
        if let Some(n) = map.walkable_position(x, y + dy) {
            v.push(n);
            if map.is_blocked(x + 1, y) {
                push_pos(map, &mut v, x + 1, y + dy);
            }
            if map.is_blocked(x - 1, y) {
                push_pos(map, &mut v, x - 1, y + dy);
            }
        }
        assert(v@ =~= spec_vert_neighbors(*map, x as int, y as int, dy as int));
        v
    }

    fn horiz_neighbors(map: &GridMap, x: i32, y: i32, dx: i32) -> (r: Vec<Position>)
        requires
            map.wf(),
            map.spec_is_path(x as int, y as int),
            dx == 1 || dx == -1,
        ensures
            r@ == spec_horiz_neighbors(*map, x as int, y as int, dx as int),
            forall|i: int|
                0 <= i < r@.len() ==> map.spec_is_path(
                    (#[trigger] r@[i]).0 as int,
                    r@[i].1 as int,
                ) && spec_adjacent(Position(x, y), r@[i], true),
    {
        proof {
            reveal(spec_horiz_neighbors);
        }
        let mut v: Vec<Position> = Vec::new();
        if let Some(n) = map.walkable_position(x + dx, y) {
            v.push(n);
            if map.is_blocked(x, y + 1) {
                push_pos(map, &mut v, x + dx, y + 1);
            }
            if map.is_blocked(x, y - 1) {
                push_pos(map, &mut v, x + dx, y - 1);
            }
        }
        assert(v@ =~= spec_horiz_neighbors(*map, x as int, y as int, dx as int));
        v
    }

    /// Searches for a path from `start` to `end` on the 8-connected grid.
    /// Malformed input — a start or goal that is out of bounds or blocked —
    /// is rejected before the search begins, with an empty probe log.
    /// `start == end` yields the single-cell path. Any path returned walks
    /// walkable cells only, one king move at a time, from `start` to `end`;
    /// the second component lists every cell the jump probes inspected, for
    /// visualization.
    pub fn find_path(graph: &GridMap, start: Position, end: Position) -> (r: (
        Option<Vec<Position>>,
        Vec<Position>,
    ))
        requires
            graph.wf(),
        ensures
            !graph.spec_is_path(start.0 as int, start.1 as int) || !graph.spec_is_path(
                end.0 as int,
                end.1 as int,
            ) ==> r.0 is None && r.1@.len() == 0,
            r.0 matches Some(p) ==> king_path_ok(*graph, p@, start, end),
            r.0 is Some ==> crate::map::exists_path(*graph, start, end, true),
            graph.spec_is_path(start.0 as int, start.1 as int) && start == end ==> (
            r.0 matches Some(p) && p@ == seq![start]) && r.1@.len() == 0,
            graph.spec_is_path(start.0 as int, start.1 as int) && graph.spec_is_path(
                end.0 as int,
                end.1 as int,
            ) && (exists|j: int|
                0 <= j < spec_all_neighbors(*graph, start).len() && spec_jump(
                    *graph,
                    #[trigger] spec_all_neighbors(*graph, start)[j],
                    start,
                    end,
                ) == Some(end)) ==> r.0 is Some,
            graph.spec_is_path(start.0 as int, start.1 as int) && graph.spec_is_path(
                end.0 as int,
                end.1 as int,
            ) && spec_adjacent(start, end, true) ==> r.0 is Some,
            forall|i: int|
                0 <= i < r.1@.len() ==> graph.spec_is_path(
                    (#[trigger] r.1@[i]).0 as int,
                    r.1@[i].1 as int,
                ),
    {
        if !graph.is_path(start.0, start.1) || !graph.is_path(end.0, end.1) {
            return (None, Vec::new());
        }
        if start == end {
            let mut p: Vec<Position> = Vec::new();
            p.push(start);
            proof {
                assert(p@ =~= seq![start]);
                assert(crate::map::valid_path_from(*graph, p@, start, end, true));
            }
            return (Some(p), Vec::new());
        }
        let cells: usize = (graph.width as usize) * (graph.height as usize);
        let mut arena: Vec<PathNode> = Vec::new();
        arena.push(PathNode::new(start));
        let mut open: Vec<usize> = Vec::new();
        open.push(0);
        let mut closed: Vec<bool> = Vec::new();
        let mut node_path: Vec<Option<usize>> = Vec::new();
        let mut i: usize = 0;
        while i < cells
            invariant
                i <= cells,
                closed@.len() == i,
                node_path@.len() == i,
                forall|j: int| 0 <= j < i ==> closed@[j] == false,
                forall|j: int| 0 <= j < i ==> node_path@[j] is None,
            decreases cells - i,
        {
            closed.push(false);
            node_path.push(None);
            i = i + 1;
        }
        proof {
            graph.lemma_idx_in_range(start.0 as int, start.1 as int);
        }
        let scell = graph.xy_idx(start.0, start.1);
        node_path[scell] = Some(0);
        let mut tested: Vec<Position> = Vec::new();
        proof {
            assert(wf_arena(*graph, arena@));
            assert(open@[0] == 0usize);
            assert(cell_of(*graph, arena@[0].node) == scell as int);
            assert forall|c: int| 0 <= c < node_path@.len() implies ((#[trigger] node_path@[c])
                matches Some(n) ==> n < arena@.len() && cell_of(*graph, arena@[n as int].node)
                == c) by {
                if c != scell as int {
                    assert(node_path@[c] is None);
                }
            }
            assert(wf_frontier(*graph, arena@, open@, node_path@, closed@));
        }
        proof {
            graph.lemma_idx_in_range(end.0 as int, end.1 as int);
        }
        while open.len() > 0
            invariant
                graph.wf(),
                graph.spec_is_path(start.0 as int, start.1 as int),
                graph.spec_is_path(end.0 as int, end.1 as int),
                start != end,
                wf_arena(*graph, arena@),
                arena@[0].node == start,
                wf_frontier(*graph, arena@, open@, node_path@, closed@),
                forall|i: int|
                    0 <= i < tested@.len() ==> graph.spec_is_path(
                        (#[trigger] tested@[i]).0 as int,
                        tested@[i].1 as int,
                    ),
                0 <= cell_of(*graph, end) < closed@.len(),
                !closed@[cell_of(*graph, end)],
                (exists|j: int|
                    0 <= j < spec_all_neighbors(*graph, start).len() && spec_jump(
                        *graph,
                        #[trigger] spec_all_neighbors(*graph, start)[j],
                        start,
                        end,
                    ) == Some(end)) ==> node_path@[cell_of(*graph, end)] is Some || (arena@.len()
                    == 1 && open@ =~= seq![0usize]),
            decreases count_open_cells(closed@),
        {
            let mut best: usize = 0;
            let mut k: usize = 1;
            while k < open.len()
                invariant
                    graph.wf(),
                    wf_arena(*graph, arena@),
                    forall|j: int| 0 <= j < open@.len() ==> (#[trigger] open@[j]) < arena@.len(),
                    open@.len() > 0,
                    best < open@.len(),
                    k <= open@.len(),
                decreases open@.len() - k,
            {
                let cand = arena[open[k]].f;
                if cand.less_than(&arena[open[best]].f) {
                    best = k;
                }
                k = k + 1;
            }
            let ghost open_before = open@;
            let node_idx = open.swap_remove(best);
            let node_pos = arena[node_idx].node;
            if node_pos == end {
                let path = Jps::back_trace(graph, &arena, node_idx);
                proof {
                    assert(crate::map::valid_path_from(*graph, path@, start, end, true));
                }
                return (Some(path), tested);
            }
            proof {
                graph.lemma_idx_in_range(node_pos.0 as int, node_pos.1 as int);
            }
            let cell = graph.xy_idx(node_pos.0, node_pos.1);
            let ghost closed_before = closed@;
            closed[cell] = true;
            proof {
                lemma_count_nonneg(closed@);
                lemma_count_close(closed_before, cell as int);
                assert(count_open_cells(closed@) == count_open_cells(closed_before) - 1);
                if cell_of(*graph, node_pos) == cell_of(*graph, end) {
                    lemma_cell_of_injective(*graph, node_pos, end);
                }
                assert(!closed@[cell_of(*graph, end)]);
                // The popped entry's cell is now closed; every surviving
                // entry sits on a different cell, so the frontier stays
                // well-formed.
                assert forall|j: int| 0 <= j < open@.len() implies open_before.contains(
                    #[trigger] open@[j],
                ) && open@[j] != node_idx by {
                    if j < best {
                        assert(open@[j] == open_before[j]);
                    } else if j == best {
                        assert(open@[j] == open_before[open_before.len() - 1]);
                    } else {
                        assert(open@[j] == open_before[j]);
                    }
                }
                assert(distinct_seq(open@)) by {
                    assert forall|a: int, b: int| 0 <= a < b < open@.len() implies open@[a]
                        != open@[b] by {
                        let va = if a == best {
                            open_before.len() - 1
                        } else {
                            a
                        };
                        let vb = if b == best {
                            open_before.len() - 1
                        } else {
                            b
                        };
                        assert(open@[a] == open_before[va]);
                        assert(open@[b] == open_before[vb]);
                    }
                }
                assert forall|k2: int| 0 <= k2 < open@.len() implies {
                    let oi = #[trigger] open@[k2];
                    &&& oi < arena@.len()
                    &&& 0 <= cell_of(*graph, arena@[oi as int].node) < node_path@.len()
                    &&& node_path@[cell_of(*graph, arena@[oi as int].node)] == Some(oi)
                    &&& !closed@[cell_of(*graph, arena@[oi as int].node)]
                } by {
                    let oi = open@[k2];
                    let kb = choose|kb: int|
                        0 <= kb < open_before.len() && open_before[kb] == oi;
                    assert(cell_of(*graph, arena@[oi as int].node) != cell as int);
                }
                assert forall|c: int| 0 <= c < node_path@.len() implies ((
                #[trigger] node_path@[c]) matches Some(n) ==> !closed@[c] ==> open@.contains(
                    n,
                )) by {
                    if node_path@[c] is Some && !closed@[c] {
                        let n = node_path@[c].unwrap();
                        assert(c != cell as int);
                        assert(open_before.contains(n));
                        let kn = choose|kn: int|
                            0 <= kn < open_before.len() && open_before[kn] == n;
                        assert(n != node_idx);
                        if kn == best {
                            assert(open_before[best as int] == node_idx);
                        } else if kn == open_before.len() - 1 {
                            if best < open_before.len() - 1 {
                                assert(open@[best as int] == n);
                            } else {
                                assert(open_before[best as int] == node_idx);
                                assert(open_before[kn] == node_idx);
                            }
                        } else {
                            assert(open@[kn] == n);
                        }
                    }
                }
                assert(wf_frontier(*graph, arena@, open@, node_path@, closed@));
            }
            let ghost arena_pre = arena@;
            let ghost np_pre = node_path@;
            let ghost entry_single = arena_pre.len() == 1 && open_before =~= seq![0usize];
            Jps::identify_successors(
                graph,
                &mut arena,
                node_idx,
                end,
                &closed,
                &mut open,
                &mut node_path,
                &mut tested,
            );
            proof {
                if (exists|j: int|
                    0 <= j < spec_all_neighbors(*graph, start).len() && spec_jump(
                        *graph,
                        spec_all_neighbors(*graph, start)[j],
                        start,
                        end,
                    ) == Some(end)) && !(np_pre[cell_of(*graph, end)] is Some) {
                    // the root was just expanded: some candidate's jump probe
                    // reaches the goal, so the goal cell is queued from here on
                    assert(entry_single);
                    assert(node_idx == 0);
                    assert(arena_pre[0].node == start);
                    assert(arena_pre[0].parent is None);
                    assert(spec_neighbors_of(*graph, arena_pre, 0) == spec_all_neighbors(
                        *graph,
                        start,
                    ));
                    let j = choose|j: int|
                        0 <= j < spec_all_neighbors(*graph, start).len() && spec_jump(
                            *graph,
                            spec_all_neighbors(*graph, start)[j],
                            start,
                            end,
                        ) == Some(end);
                    assert(spec_jump(
                        *graph,
                        spec_neighbors_of(*graph, arena_pre, 0)[j],
                        arena_pre[0].node,
                        end,
                    ) == Some(end));
                    assert(node_path@[cell_of(*graph, end)] is Some);
                }
            }
        }
        proof {
            if spec_adjacent(start, end, true) {
                // the adjacent goal is a root candidate whose probe returns
                // it at once
                lemma_all_neighbors_contains(*graph, start, end);
                let j = choose|j: int|
                    0 <= j < spec_all_neighbors(*graph, start).len() && spec_all_neighbors(
                        *graph,
                        start,
                    )[j] == end;
                assert(spec_jump(*graph, end, start, end) == Some(end)) by {
                    reveal(spec_jump);
                }
                assert(spec_jump(*graph, spec_all_neighbors(*graph, start)[j], start, end)
                    == Some(end));
            }
            if exists|j: int|
                0 <= j < spec_all_neighbors(*graph, start).len() && spec_jump(
                    *graph,
                    spec_all_neighbors(*graph, start)[j],
                    start,
                    end,
                ) == Some(end) {
                if node_path@[cell_of(*graph, end)] is Some {
                    let n = node_path@[cell_of(*graph, end)].unwrap();
                    assert(open@.contains(n));
                    assert(false);
                } else {
                    assert(open@.len() == 1);
                    assert(false);
                }
            }
        }
        (None, tested)
    }

    /// Rebuilds the path ending at arena node `idx` by walking parent
    /// references up to the root and expanding every jump segment into its
    /// individual cells, from the root's cell to the node's cell.
    fn back_trace(map: &GridMap, arena: &Vec<PathNode>, idx: usize) -> (r: Vec<Position>)
        requires
            map.wf(),
            wf_arena(*map, arena@),
            idx < arena@.len(),
        ensures
            king_path_ok(*map, r@, arena@[0].node, arena@[idx as int].node),
    {
        let mut chain: Vec<usize> = Vec::new();
        let mut cur: usize = idx;
        chain.push(cur);
        while arena[cur].parent.is_some()
            invariant
                map.wf(),
                wf_arena(*map, arena@),
                idx < arena@.len(),
                cur < arena@.len(),
                chain@.len() >= 1,
                chain@[0] == idx,
                chain@[chain@.len() - 1] == cur,
                forall|j: int| 0 <= j < chain@.len() ==> (#[trigger] chain@[j]) < arena@.len(),
                forall|j: int|
                    0 <= j < chain@.len() - 1 ==> arena@[(#[trigger] chain@[j]) as int].parent
                        == Some(chain@[j + 1]),
            decreases cur,
        {
            proof {
                if cur == 0 {
                    assert(arena@[0].parent is None);
                }
            }
            let p = arena[cur].parent.unwrap();
            cur = p;
            chain.push(cur);
        }
        proof {
            if cur != 0 {
                assert(arena@[cur as int].parent matches Some(q));
            }
        }
        let root_i = chain[chain.len() - 1];
        let mut path: Vec<Position> = Vec::new();
        path.push(arena[root_i].node);
        let mut ci: usize = chain.len() - 1;
        while ci > 0
            invariant
                map.wf(),
                wf_arena(*map, arena@),
                idx < arena@.len(),
                chain@.len() >= 1,
                chain@[0] == idx,
                chain@[chain@.len() - 1] == 0,
                forall|j: int| 0 <= j < chain@.len() ==> (#[trigger] chain@[j]) < arena@.len(),
                forall|j: int|
                    0 <= j < chain@.len() - 1 ==> arena@[(#[trigger] chain@[j]) as int].parent
                        == Some(chain@[j + 1]),
                ci < chain@.len(),
                path@.len() >= 1,
                path@[0] == arena@[0].node,
                path@[path@.len() - 1] == arena@[chain@[ci as int] as int].node,
                forall|i: int|
                    0 <= i < path@.len() ==> map.spec_is_path(
                        (#[trigger] path@[i]).0 as int,
                        path@[i].1 as int,
                    ),
                forall|i: int|
                    0 <= i < path@.len() - 1 ==> spec_adjacent(#[trigger] path@[i], path@[i + 1], true),
            decreases ci,
        {
            let from_i = chain[ci];
            let to_i = chain[ci - 1];
            proof {
                assert(arena@[to_i as int].parent == Some(from_i));
                if to_i == 0 {
                    assert(arena@[0].parent is None);
                }
                assert(seg_ok(*map, arena@[from_i as int].node, arena@[to_i as int].node));
            }
            let a = arena[from_i].node;
            let b = arena[to_i].node;
            let ghost (dxw, dyw, kw) = choose|dx: int, dy: int, k: int|
                seg_ok_wit(*map, a, b, dx, dy, k);
            proof {
                assert(seg_ok_wit(*map, a, b, dxw, dyw, kw));
                lemma_ray_end(*map, a.0 + dxw, a.1 + dyw, dxw, dyw, kw - 1, b);
            }
            let dx: i32 = if b.0 > a.0 {
                1
            } else if b.0 < a.0 {
                -1
            } else {
                0
            };
            let dy: i32 = if b.1 > a.1 {
                1
            } else if b.1 < a.1 {
                -1
            } else {
                0
            };
            proof {
                if dxw == 0 {
                    assert((kw - 1) * dxw == 0) by (nonlinear_arith)
                        requires
                            dxw == 0,
                    ;
                } else if dxw == 1 {
                    assert((kw - 1) * dxw == kw - 1) by (nonlinear_arith)
                        requires
                            dxw == 1,
                    ;
                } else {
                    assert((kw - 1) * dxw == 1 - kw) by (nonlinear_arith)
                        requires
                            dxw == -1,
                    ;
                }
                if dyw == 0 {
                    assert((kw - 1) * dyw == 0) by (nonlinear_arith)
                        requires
                            dyw == 0,
                    ;
                } else if dyw == 1 {
                    assert((kw - 1) * dyw == kw - 1) by (nonlinear_arith)
                        requires
                            dyw == 1,
                    ;
                } else {
                    assert((kw - 1) * dyw == 1 - kw) by (nonlinear_arith)
                        requires
                            dyw == -1,
                    ;
                }
                assert(dx as int == dxw);
                assert(dy as int == dyw);
                assert(ray_reaches(*map, a.0 as int, a.1 as int, dxw, dyw, kw, b));
            }
            let mut cx = a.0;
            let mut cy = a.1;
            let ghost mut rem: int = kw;
            while cx != b.0 || cy != b.1
                invariant
                    map.wf(),
                    unit_dir(dx as int, dy as int),
                    0 <= rem,
                    ray_reaches(*map, cx as int, cy as int, dx as int, dy as int, rem, b),
                    path@.len() >= 1,
                    path@[0] == arena@[0].node,
                    path@[path@.len() - 1] == Position(cx, cy),
                    forall|i: int|
                        0 <= i < path@.len() ==> map.spec_is_path(
                            (#[trigger] path@[i]).0 as int,
                            path@[i].1 as int,
                        ),
                    forall|i: int|
                        0 <= i < path@.len() - 1 ==> spec_adjacent(
                            #[trigger] path@[i],
                            path@[i + 1],
                            true,
                        ),
                decreases rem,
            {
                proof {
                    if rem == 0 {
                        assert(b.0 == cx && b.1 == cy);
                    }
                    assert(rem > 0);
                    assert(map.spec_is_path(cx as int, cy as int));
                    assert(ray_reaches(
                        *map,
                        cx as int + dx as int,
                        cy as int + dy as int,
                        dx as int,
                        dy as int,
                        rem - 1,
                        b,
                    ));
                    assert(map.spec_is_path(cx as int + dx as int, cy as int + dy as int));
                }
                let nx = cx + dx;
                let ny = cy + dy;
                path.push(Position(nx, ny));
                cx = nx;
                cy = ny;
                proof {
                    rem = rem - 1;
                }
            }
            ci = ci - 1;
        }
        path
    }

    /// Walks from `current` away from `neighbor` one cell at a time.
    /// Returns the goal when reached, the current cell when a forced
    /// neighbor shows the path must turn here, and `None` when the walk
    /// runs into a blocked cell or off the grid. Every cell inspected is
    /// recorded into `tested`.
    fn jump(
        map: &GridMap,
        current: Position,
        neighbor: Position,
        goal: Position,
        tested: &mut Vec<Position>,
    ) -> (r: Option<Position>)
        requires
            map.wf(),
            spec_adjacent(neighbor, current, true),
        ensures
            r == spec_jump(*map, current, neighbor, goal),
            r matches Some(p) ==> jump_found(
                *map,
                current,
                current.0 as int - neighbor.0 as int,
                current.1 as int - neighbor.1 as int,
                p,
            ),
            tested_ok(*map, old(tested)@, final(tested)@),
            map.spec_blocked(current.0 as int, current.1 as int) ==> final(tested)@ == old(tested)@,
            !map.spec_blocked(current.0 as int, current.1 as int) && current == goal
                ==> final(tested)@ == old(tested)@,
            !map.spec_blocked(current.0 as int, current.1 as int) && current != goal
                ==> final(tested)@.contains(current),
        decreases
                jump_dec1(
                    *map,
                    current,
                    current.0 as int - neighbor.0 as int,
                    current.1 as int - neighbor.1 as int,
                ),
                jump_dec2(
                    *map,
                    current,
                    current.0 as int - neighbor.0 as int,
                    current.1 as int - neighbor.1 as int,
                ),
    {
        proof {
            reveal(spec_jump);
        }
        let x = current.0;
        let y = current.1;
        if map.is_blocked(x, y) {
            return None;
        }
        if current == goal {
            proof {
                assert(ray_reaches(*map, x as int, y as int, x - neighbor.0, y - neighbor.1, 0, current));
            }
            return Some(current);
        }
        if !vec_contains_pos(tested, &current) {
            tested.push(current);
            proof {
                assert(tested@[tested@.len() - 1] == current);
            }
        }
        let ghost t_push = tested@;
        proof {
            assert(t_push.contains(current));
        }
        let dx = x - neighbor.0;
        let dy = y - neighbor.1;
        if dx != 0 && dy != 0 {
            // Forced neighbor along the diagonal: an orthogonal cell is
            // blocked while the diagonally adjacent cell past it is open.
            if (map.is_path(x - dx, y + dy) && map.is_blocked(x - dx, y)) || (map.is_path(
                x + dx,
                y - dy,
            ) && map.is_blocked(x, y - dy)) {
                proof {
                    assert(ray_reaches(*map, x as int, y as int, dx as int, dy as int, 0, current));
                }
                return Some(current);
            }
            // Probe straight along each orthogonal component; a jump point
            // there makes this cell a turning point.
            if let Some(next) = map.walkable_position(x + dx, y) {
                let probe = Jps::jump(map, next, current, goal, tested);
                if probe.is_some() {
                    proof {
                        assert(ray_reaches(*map, x as int, y as int, dx as int, dy as int, 0, current));
                        lemma_tested_keeps(*map, t_push, tested@, current);
                    }
                    return map.walkable_position(x, y);
                }
            }
            if let Some(next) = map.walkable_position(x, y + dy) {
                let probe = Jps::jump(map, next, current, goal, tested);
                if probe.is_some() {
                    proof {
                        assert(ray_reaches(*map, x as int, y as int, dx as int, dy as int, 0, current));
                        lemma_tested_keeps(*map, t_push, tested@, current);
                    }
                    return map.walkable_position(x, y);
                }
            }
        } else {
            if dx != 0 {
                // Perpendicular forced neighbor while moving horizontally.
                if (map.is_path(x + dx, y + 1) && map.is_blocked(x, y + 1)) || (map.is_path(
                    x + dx,
                    y - 1,
                ) && map.is_blocked(x, y - 1)) {
                    proof {
                        assert(ray_reaches(*map, x as int, y as int, dx as int, dy as int, 0, current));
                    }
                    return map.walkable_position(x, y);
                }
            } else {
                // Perpendicular forced neighbor while moving vertically.
                if (map.is_path(x + 1, y + dy) && map.is_blocked(x + 1, y)) || (map.is_path(
                    x - 1,
                    y + dy,
                ) && map.is_blocked(x - 1, y)) {
                    proof {
                        assert(ray_reaches(*map, x as int, y as int, dx as int, dy as int, 0, current));
                    }
                    return map.walkable_position(x, y);
                }
            }
        }
        // Diagonal movement needs at least one open orthogonal neighbor;
        // straight movement always passes this test and simply continues.
        if map.is_path(x + dx, y) || map.is_path(x, y + dy) {
            if let Some(next) = map.walkable_position(x + dx, y + dy) {
                let r2 = Jps::jump(map, next, current, goal, tested);
                proof {
                    lemma_tested_keeps(*map, t_push, tested@, current);
                    match r2 {
                        Some(p) => {
                            assert(next.0 as int - current.0 as int == dx as int);
                            assert(next.1 as int - current.1 as int == dy as int);
                            let k = choose|k: int|
                                0 <= k && ray_reaches(
                                    *map,
                                    next.0 as int,
                                    next.1 as int,
                                    dx as int,
                                    dy as int,
                                    k,
                                    p,
                                );
                            assert(ray_reaches(*map, x as int, y as int, dx as int, dy as int, k + 1, p));
                        },
                        None => {},
                    }
                }
                return r2;
            }
        }
        proof {
            lemma_tested_keeps(*map, t_push, tested@, current);
        }
        None
    }
}

} // verus!
