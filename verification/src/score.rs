use vstd::prelude::*;

verus! {

/// Cap on each score component. Additions saturate here instead of wrapping;
/// the cap is far beyond any distance a grid whose cell count fits an `i32`
/// can produce, and keeps the exact comparison below free of overflow.
pub const SCORE_CAP: u64 = 0x2000_0000_0000_0000;

/// A distance value `straight + diag * sqrt(2)`, kept exactly as the two
/// integer coefficients. Sums of octile and Manhattan distances have this
/// form, and the order of two such values can be decided with integer
/// arithmetic alone.
#[derive(Clone, Copy, Debug, Eq, PartialEq, Structural)]
pub struct Score {
    pub straight: u64,
    pub diag: u64,
}

impl Score {
    /// Both components are within the saturation cap.
    pub open spec fn ok(self) -> bool {
        self.straight <= SCORE_CAP && self.diag <= SCORE_CAP
    }

    pub open spec fn spec_zero() -> Score {
        Score { straight: 0, diag: 0 }
    }

    pub fn zero() -> (r: Score)
        ensures
            r == Self::spec_zero(),
            r.ok(),
    {
        Score { straight: 0, diag: 0 }
    }

    /// Component addition, saturating at the cap.
    pub open spec fn spec_cap_add(a: u64, b: u64) -> u64 {
        if a + b >= SCORE_CAP {
            SCORE_CAP
        } else {
            (a + b) as u64
        }
    }

    fn cap_add(a: u64, b: u64) -> (r: u64)
        ensures
            r == Self::spec_cap_add(a, b),
            r <= SCORE_CAP,
    {
        if b >= SCORE_CAP {
            SCORE_CAP
        } else if a >= SCORE_CAP - b {
            SCORE_CAP
        } else {
            a + b
        }
    }

    pub open spec fn spec_add(a: Score, b: Score) -> Score {
        Score {
            straight: Self::spec_cap_add(a.straight, b.straight),
            diag: Self::spec_cap_add(a.diag, b.diag),
        }
    }

    pub fn add_score(self, other: Score) -> (r: Score)
        ensures
            r == Self::spec_add(self, other),
            r.ok(),
    {
        Score {
            straight: Self::cap_add(self.straight, other.straight),
            diag: Self::cap_add(self.diag, other.diag),
        }
    }

    /// `a < b` as real numbers, i.e. `a.straight + a.diag * sqrt(2)
    /// < b.straight + b.diag * sqrt(2)`, decided exactly: with
    /// `ds = b.straight - a.straight` and `dd = a.diag - b.diag` the
    /// condition is `dd * sqrt(2) < ds`, settled by comparing signs and the
    /// squares `2 * dd * dd` against `ds * ds` (equal squares cannot occur
    /// with `dd != 0` since `sqrt(2)` is irrational).
    pub open spec fn spec_lt(a: Score, b: Score) -> bool {
        let ds = b.straight - a.straight;
        let dd = a.diag - b.diag;
        if dd <= 0 {
            ds > 0 || ds * ds < 2 * (dd * dd)
        } else {
            ds > 0 && 2 * (dd * dd) < ds * ds
        }
    }

    pub fn less_than(&self, other: &Score) -> (r: bool)
        requires
            self.ok(),
            other.ok(),
        ensures
            r == Self::spec_lt(*self, *other),
    {
        let ds: i128 = other.straight as i128 - self.straight as i128;
        let dd: i128 = self.diag as i128 - other.diag as i128;
        proof {
            assert(0 <= ds * ds <= 0x400_0000_0000_0000_0000_0000_0000_0000int) by (nonlinear_arith)
                requires
                    -0x2000_0000_0000_0000 <= ds <= 0x2000_0000_0000_0000,
            ;
            assert(0 <= dd * dd <= 0x400_0000_0000_0000_0000_0000_0000_0000int) by (nonlinear_arith)
                requires
                    -0x2000_0000_0000_0000 <= dd <= 0x2000_0000_0000_0000,
            ;
        }
        if dd <= 0 {
            ds > 0 || ds * ds < 2 * (dd * dd)
        } else {
            ds > 0 && 2 * (dd * dd) < ds * ds
        }
    }
}

/// Distance estimates between grid cells, kept as exact `Score` values.
pub struct Heuristic;

impl Heuristic {
    /// Octile distance between cells whose coordinate differences are
    /// `dx` and `dy`: the smaller difference is travelled diagonally, the
    /// remainder straight, so the value is
    /// `min(dx, dy) * sqrt(2) + (max(dx, dy) - min(dx, dy))`.
    pub open spec fn spec_octile(dx: u64, dy: u64) -> Score {
        if dx < dy {
            Score { straight: (dy - dx) as u64, diag: dx }
        } else {
            Score { straight: (dx - dy) as u64, diag: dy }
        }
    }

    pub fn octile(dx: u64, dy: u64) -> (r: Score)
        requires
            dx <= SCORE_CAP,
            dy <= SCORE_CAP,
        ensures
            r == Self::spec_octile(dx, dy),
            r.ok(),
    {
        if dx < dy {
            Score { straight: dy - dx, diag: dx }
        } else {
            Score { straight: dx - dy, diag: dy }
        }
    }

    /// Manhattan distance: both coordinate differences travelled straight.
    pub open spec fn spec_manhattan(dx: u64, dy: u64) -> Score {
        Score { straight: Score::spec_cap_add(dx, dy), diag: 0 }
    }

    pub fn manhattan(dx: u64, dy: u64) -> (r: Score)
        ensures
            r == Self::spec_manhattan(dx, dy),
            r.ok(),
    {
        Score { straight: Score::cap_add(dx, dy), diag: 0 }
    }
}

} // verus!
