use vstd::prelude::*;

verus! {

pub const MAP_WIDTH: i32 = 16;
pub const MAP_HEIGHT: i32 = 16;

/// Notification that the rendered map state is stale and must be redrawn.
pub struct MapUpdatedEvent {}

/// A grid cell, addressed by signed `(x, y)` coordinates.
#[derive(Clone, Copy, Debug, Eq, Hash, Ord, PartialEq, PartialOrd, Structural)]
pub struct Position(pub i32, pub i32);

impl Position {
    /// Manhattan distance, the heuristic used for 4-connected movement.
    pub fn distance(&self, other: &Position) -> (r: i32)
        requires
            abs_diff(self.0 as int, other.0 as int) + abs_diff(self.1 as int, other.1 as int)
                <= i32::MAX as int,
        ensures
            r as int == abs_diff(self.0 as int, other.0 as int)
                + abs_diff(self.1 as int, other.1 as int),
    {
        let dx: i64 = if self.0 >= other.0 {
            self.0 as i64 - other.0 as i64
        } else {
            other.0 as i64 - self.0 as i64
        };
        let dy: i64 = if self.1 >= other.1 {
            self.1 as i64 - other.1 as i64
        } else {
            other.1 as i64 - self.1 as i64
        };
        (dx + dy) as i32
    }

    pub fn x(&self) -> (r: i32)
        ensures
            r == self.0,
    {
        self.0
    }

    pub fn y(&self) -> (r: i32)
        ensures
            r == self.1,
    {
        self.1
    }
}

pub open spec fn abs_diff(a: int, b: int) -> int {
    if a >= b {
        a - b
    } else {
        b - a
    }
}

/// A reachable neighboring cell together with the cost to enter it.
#[derive(Clone, Copy, Debug, Eq, PartialEq, PartialOrd, Structural)]
pub struct Successor {
    pub position: Position,
    pub cost: i32,
}

/// The grid: fixed dimensions, per-cell traversal costs and obstacle flags,
/// and whether 8-connected movement is permitted.
#[derive(Debug)]
pub struct GridMap {
    pub width: i32,
    pub height: i32,
    pub costs: Vec<Option<i32>>,
    pub blocked: Vec<bool>,
    pub allow_diagonals: bool,
}

impl GridMap {
    /// Number of cells of the grid.
    pub open spec fn cells(self) -> int {
        self.width * self.height
    }

    /// Structural invariant: positive dimensions whose product fits an `i32`,
    /// one cost and one obstacle flag per cell, and costs at least 1.
    pub open spec fn wf(self) -> bool {
        &&& 0 < self.width
        &&& 0 < self.height
        &&& self.cells() <= i32::MAX as int
        &&& self.costs@.len() == self.cells()
        &&& self.blocked@.len() == self.cells()
        &&& forall|i: int|
            0 <= i < self.costs@.len() ==> (#[trigger] self.costs@[i] matches Some(c) ==> 1 <= c)
    }

    pub open spec fn spec_inside(self, x: int, y: int) -> bool {
        0 <= x < self.width && 0 <= y < self.height
    }

    /// Cell index of in-bounds coordinates.
    pub open spec fn spec_idx(self, x: int, y: int) -> int {
        y * self.width + x
    }

    /// Out-of-bounds coordinates count as blocked.
    pub open spec fn spec_blocked(self, x: int, y: int) -> bool {
        !self.spec_inside(x, y) || self.blocked@[self.spec_idx(x, y)]
    }

    /// In bounds and not blocked.
    pub open spec fn spec_is_path(self, x: int, y: int) -> bool {
        self.spec_inside(x, y) && !self.blocked@[self.spec_idx(x, y)]
    }

    /// Cost of entering an in-bounds cell; an unset cost is treated as 1.
    pub open spec fn spec_cost_at(self, x: int, y: int) -> i32 {
        match self.costs@[self.spec_idx(x, y)] {
            Some(c) => c,
            None => 1,
        }
    }

    pub proof fn lemma_idx_in_range(self, x: int, y: int)
        requires
            self.wf(),
            self.spec_inside(x, y),
        ensures
            0 <= self.spec_idx(x, y) < self.cells(),
    {
        assert(y * self.width + x < self.height * self.width) by (nonlinear_arith)
            requires
                0 <= x < self.width,
                0 <= y < self.height,
        ;
        assert(self.height * self.width == self.width * self.height) by (nonlinear_arith);
        assert(0 <= y * self.width) by (nonlinear_arith)
            requires
                0 <= y,
                0 < self.width,
        ;
    }

    pub fn new(width: i32, height: i32, allow_diagonals: bool) -> (r: GridMap)
        requires
            0 < width,
            0 < height,
            width * height <= i32::MAX as int,
        ensures
            r.wf(),
            r.width == width,
            r.height == height,
            r.allow_diagonals == allow_diagonals,
            forall|i: int| 0 <= i < r.cells() ==> r.costs@[i] == Some(1i32),
            forall|i: int| 0 <= i < r.cells() ==> r.blocked@[i] == false,
    {
        let n: usize = (width as usize) * (height as usize);
        let mut costs: Vec<Option<i32>> = Vec::new();
        let mut blocked: Vec<bool> = Vec::new();
        let mut i: usize = 0;
        while i < n
            invariant
                i <= n,
                costs@.len() == i,
                blocked@.len() == i,
                forall|j: int| 0 <= j < i ==> costs@[j] == Some(1i32),
                forall|j: int| 0 <= j < i ==> blocked@[j] == false,
            decreases n - i,
        {
            costs.push(Some(1));
            blocked.push(false);
            i = i + 1;
        }
        GridMap { width, height, costs, blocked, allow_diagonals }
    }

    pub fn xy_idx(&self, x: i32, y: i32) -> (r: usize)
        requires
            self.wf(),
            self.spec_inside(x as int, y as int),
        ensures
            r == self.spec_idx(x as int, y as int),
    {
        proof {
            self.lemma_idx_in_range(x as int, y as int);
        }
        (y as usize * self.width as usize) + x as usize
    }

    pub fn inside(&self, x: i32, y: i32) -> (r: bool)
        ensures
            r == self.spec_inside(x as int, y as int),
    {
        0 <= x && x < self.width && 0 <= y && y < self.height
    }

    pub fn outside(&self, x: i32, y: i32) -> (r: bool)
        ensures
            r == !self.spec_inside(x as int, y as int),
    {
        !self.inside(x, y)
    }

    pub fn is_blocked(&self, x: i32, y: i32) -> (r: bool)
        requires
            self.wf(),
        ensures
            r == self.spec_blocked(x as int, y as int),
    {
        if self.outside(x, y) {
            true
        } else {
            proof {
                self.lemma_idx_in_range(x as int, y as int);
            }
            self.blocked[self.xy_idx(x, y)]
        }
    }

    pub fn is_path(&self, x: i32, y: i32) -> (r: bool)
        requires
            self.wf(),
        ensures
            r == self.spec_is_path(x as int, y as int),
    {
        self.inside(x, y) && !self.is_blocked(x, y)
    }

    /// One-cell piece of the successor list: a singleton if the cell is
    /// walkable, empty otherwise.
    pub open spec fn succ_at(self, x: int, y: int) -> Seq<Successor> {
        if self.spec_is_path(x, y) {
            seq![
                Successor { position: Position(x as i32, y as i32), cost: self.spec_cost_at(x, y) },
            ]
        } else {
            Seq::empty()
        }
    }

    /// The successor list of a cell, in the fixed order north, east, south,
    /// west, then (with diagonals) north-west, north-east, south-east,
    /// south-west.
    pub open spec fn spec_successors(self, node: Position, diag: bool) -> Seq<Successor> {
        let x = node.0 as int;
        let y = node.1 as int;
        let straight = self.succ_at(x, y - 1) + self.succ_at(x + 1, y) + self.succ_at(x, y + 1)
            + self.succ_at(x - 1, y);
        if diag {
            straight + self.succ_at(x - 1, y - 1) + self.succ_at(x + 1, y - 1)
                + self.succ_at(x + 1, y + 1) + self.succ_at(x - 1, y + 1)
        } else {
            straight
        }
    }

    /// Wide-coordinate variant of `walkable_position`, paired with the cost of
    /// entering the cell.
    fn successor_at(&self, x: i64, y: i64) -> (r: Option<Successor>)
        requires
            self.wf(),
        ensures
            r == if self.spec_is_path(x as int, y as int) {
                Some(
                    Successor {
                        position: Position(x as i32, y as i32),
                        cost: self.spec_cost_at(x as int, y as int),
                    },
                )
            } else {
                None::<Successor>
            },
    {
        if x < 0 || y < 0 || x >= self.width as i64 || y >= self.height as i64 {
            return None;
        }
        let xi: i32 = x as i32;
        let yi: i32 = y as i32;
        proof {
            self.lemma_idx_in_range(x as int, y as int);
        }
        let idx = self.xy_idx(xi, yi);
        if self.blocked[idx] {
            return None;
        }
        let cost: i32 = match self.costs[idx] {
            Some(c) => c,
            None => 1,
        };
        Some(Successor { position: Position(xi, yi), cost })
    }

    /// Appends the successor piece for one cell.
    fn push_succ(&self, v: &mut Vec<Successor>, x: i64, y: i64)
        requires
            self.wf(),
        ensures
            final(v)@ == old(v)@ + self.succ_at(x as int, y as int),
    {
        if let Some(s) = self.successor_at(x, y) {
            v.push(s);
            assert(v@ =~= old(v)@ + self.succ_at(x as int, y as int));
        } else {
            assert(v@ =~= old(v)@ + self.succ_at(x as int, y as int));
        }
    }

    /// Enumerates the 4- or 8-adjacent walkable cells, each with its stored
    /// cost (1 when unset). Diagonal successors are not pruned for
    /// corner-cutting: straight adjacency is all that is checked.
    pub fn get_successors(&self, node: &Position, allow_diagonals: bool) -> (r: Vec<Successor>)
        requires
            self.wf(),
        ensures
            r@ == self.spec_successors(*node, allow_diagonals),
    {
        let x = node.0 as i64;
        let y = node.1 as i64;
        let mut result: Vec<Successor> = Vec::new();
        self.push_succ(&mut result, x, y - 1);
        self.push_succ(&mut result, x + 1, y);
        self.push_succ(&mut result, x, y + 1);
        self.push_succ(&mut result, x - 1, y);
        if allow_diagonals {
            self.push_succ(&mut result, x - 1, y - 1);
            self.push_succ(&mut result, x + 1, y - 1);
            self.push_succ(&mut result, x + 1, y + 1);
            self.push_succ(&mut result, x - 1, y + 1);
        }
        assert(result@ =~= self.spec_successors(*node, allow_diagonals));
        result
    }

    /// The position, if it is in bounds and unblocked; `None` otherwise.
    pub fn walkable_position(&self, x: i32, y: i32) -> (r: Option<Position>)
        requires
            self.wf(),
        ensures
            r == if self.spec_is_path(x as int, y as int) {
                Some(Position(x, y))
            } else {
                None::<Position>
            },
    {
        if self.outside(x, y) {
            return None;
        }
        if self.is_blocked(x, y) {
            return None;
        }
        Some(Position(x, y))
    }
}

/// `b` is one grid move away from `a`: a king move when `diag` holds, an
/// orthogonal move otherwise.
pub open spec fn spec_adjacent(a: Position, b: Position, diag: bool) -> bool {
    let dx = abs_diff(a.0 as int, b.0 as int);
    let dy = abs_diff(a.1 as int, b.1 as int);
    if diag {
        dx <= 1 && dy <= 1 && dx + dy != 0
    } else {
        dx + dy == 1
    }
}

/// One legal move of the successor graph: the target cell is walkable and
/// adjacent to the source.
pub open spec fn spec_step_ok(m: GridMap, a: Position, b: Position, diag: bool) -> bool {
    m.spec_is_path(b.0 as int, b.1 as int) && spec_adjacent(a, b, diag)
}

/// `p` is a path of the successor graph from `start` to `goal`, both included.
pub open spec fn valid_path_from(
    m: GridMap,
    p: Seq<Position>,
    start: Position,
    goal: Position,
    diag: bool,
) -> bool {
    &&& p.len() >= 1
    &&& p[0] == start
    &&& p[p.len() - 1] == goal
    &&& forall|i: int| 0 <= i < p.len() - 1 ==> spec_step_ok(m, #[trigger] p[i], p[i + 1], diag)
}

/// Cost of a path: the sum of the costs of entering every cell after the
/// first.
pub open spec fn spec_path_cost(m: GridMap, p: Seq<Position>) -> int
    decreases p.len(),
{
    if p.len() <= 1 {
        0
    } else {
        spec_path_cost(m, p.drop_last()) + m.spec_cost_at(
            p[p.len() - 1].0 as int,
            p[p.len() - 1].1 as int,
        )
    }
}

/// Some path of the successor graph leads from `start` to `goal`.
pub open spec fn exists_path(m: GridMap, start: Position, goal: Position, diag: bool) -> bool {
    exists|p: Seq<Position>| valid_path_from(m, p, start, goal, diag)
}

/// Two maps with equal dimensions and equal cell state generate the same
/// successor lists.
pub proof fn lemma_same_cells_same_successors(m1: GridMap, m2: GridMap, node: Position, diag: bool)
    requires
        m2.width == m1.width,
        m2.height == m1.height,
        m2.costs@ == m1.costs@,
        m2.blocked@ == m1.blocked@,
    ensures
        m2.spec_successors(node, diag) == m1.spec_successors(node, diag),
{
    let x = node.0 as int;
    let y = node.1 as int;
    assert forall|a: int, b: int| m2.succ_at(a, b) == m1.succ_at(a, b) by {
        assert(m2.succ_at(a, b) =~= m1.succ_at(a, b));
    }
    assert(m2.spec_successors(node, diag) =~= m1.spec_successors(node, diag));
}

/// Painting an obstacle on an unblocked cell and then removing it restores
/// the successor list of every cell.
pub proof fn lemma_obstacle_round_trip(m1: GridMap, m2: GridMap, x: int, y: int, node: Position, diag: bool)
    requires
        m1.wf(),
        m1.spec_inside(x, y),
        !m1.blocked@[m1.spec_idx(x, y)],
        m2.width == m1.width,
        m2.height == m1.height,
        m2.costs@ == m1.costs@,
        m2.blocked@ == m1.blocked@.update(m1.spec_idx(x, y), true).update(m1.spec_idx(x, y), false),
    ensures
        m2.spec_successors(node, diag) == m1.spec_successors(node, diag),
{
    m1.lemma_idx_in_range(x, y);
    assert(m2.blocked@ =~= m1.blocked@);
    lemma_same_cells_same_successors(m1, m2, node, diag);
}

} // verus!
