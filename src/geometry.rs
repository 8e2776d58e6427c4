use vstd::prelude::*;

verus! {

/// Largest magnitude of a coordinate or a size; it keeps every squared
/// distance and score well inside `i128`.
pub const COORD_LIMIT: i64 = 1_000_000_000_000;

/// A point of the world, in world units.
#[derive(Clone, Copy, Debug, PartialEq, Eq, Structural)]
pub struct Point {
    pub x: i64,
    pub y: i64,
}

/// The half-open rectangle `[min_x, max_x) x [min_y, max_y)`.
#[derive(Clone, Copy, Debug, PartialEq, Eq, Structural)]
pub struct Rect {
    pub min_x: i64,
    pub max_x: i64,
    pub min_y: i64,
    pub max_y: i64,
}

/// The half-open range of sizes `[min, max)`.
#[derive(Clone, Copy, Debug, PartialEq, Eq, Structural)]
pub struct SizeRange {
    pub min: i64,
    pub max: i64,
}

/// A sampled placement: a position and a radius.
#[derive(Clone, Copy, Debug, PartialEq, Eq, Structural)]
pub struct Candidate {
    pub pos: Point,
    pub size: i64,
}

pub open spec fn in_limits(v: int) -> bool {
    -COORD_LIMIT <= v <= COORD_LIMIT
}

impl Point {
    pub open spec fn bounded(self) -> bool {
        in_limits(self.x as int) && in_limits(self.y as int)
    }
}

impl Rect {
    /// Positive width and height, inside the coordinate limits.
    pub open spec fn wf(self) -> bool {
        in_limits(self.min_x as int) && in_limits(self.max_x as int) && in_limits(
            self.min_y as int,
        ) && in_limits(self.max_y as int) && self.min_x < self.max_x && self.min_y < self.max_y
    }

    pub open spec fn contains(self, p: Point) -> bool {
        self.min_x <= p.x < self.max_x && self.min_y <= p.y < self.max_y
    }

    /// The squared length of the diagonal.
    pub open spec fn diagonal_sq(self) -> int {
        (self.max_x - self.min_x) * (self.max_x - self.min_x) + (self.max_y - self.min_y) * (
        self.max_y - self.min_y)
    }

    /// The squared length of the diagonal.
    pub fn diagonal_squared(&self) -> (r: i128)
        requires
            self.wf(),
        ensures
            r == self.diagonal_sq(),
            0 <= r <= 8 * COORD_LIMIT * COORD_LIMIT,
    {
        let w = self.max_x as i128 - self.min_x as i128;
        let h = self.max_y as i128 - self.min_y as i128;
        assert(0 <= w * w <= 4 * COORD_LIMIT * COORD_LIMIT) by (nonlinear_arith)
            requires
                0 <= w <= 2 * COORD_LIMIT,
        ;
        assert(0 <= h * h <= 4 * COORD_LIMIT * COORD_LIMIT) by (nonlinear_arith)
            requires
                0 <= h <= 2 * COORD_LIMIT,
        ;
        w * w + h * h
    }
}

impl SizeRange {
    pub open spec fn wf(self) -> bool {
        in_limits(self.min as int) && in_limits(self.max as int) && self.min < self.max
    }

    pub open spec fn contains(self, s: i64) -> bool {
        self.min <= s < self.max
    }
}

impl Candidate {
    pub open spec fn bounded(self) -> bool {
        self.pos.bounded() && in_limits(self.size as int)
    }
}

pub open spec fn dist_sq(a: Point, b: Point) -> int {
    (a.x - b.x) * (a.x - b.x) + (a.y - b.y) * (a.y - b.y)
}

/// Size-adjusted squared distance: the squared distance of the centres less
/// the square of the sum of the radii.
pub open spec fn pair_score(c: Candidate, a: Candidate) -> int {
    dist_sq(c.pos, a.pos) - (c.size + a.size) * (c.size + a.size)
}

/// Every score of two bounded candidates lies in this range.
pub open spec fn score_in_range(v: int) -> bool {
    -4 * COORD_LIMIT * COORD_LIMIT <= v <= 8 * COORD_LIMIT * COORD_LIMIT
}

pub fn pair_score_exec(c: &Candidate, a: &Candidate) -> (r: i128)
    requires
        c.bounded(),
        a.bounded(),
    ensures
        r == pair_score(*c, *a),
        score_in_range(r as int),
{
    let dx = c.pos.x as i128 - a.pos.x as i128;
    let dy = c.pos.y as i128 - a.pos.y as i128;
    let s = c.size as i128 + a.size as i128;
    assert(0 <= dx * dx <= 4 * COORD_LIMIT * COORD_LIMIT) by (nonlinear_arith)
        requires
            -2 * COORD_LIMIT <= dx <= 2 * COORD_LIMIT,
    ;
    assert(0 <= dy * dy <= 4 * COORD_LIMIT * COORD_LIMIT) by (nonlinear_arith)
        requires
            -2 * COORD_LIMIT <= dy <= 2 * COORD_LIMIT,
    ;
    assert(0 <= s * s <= 4 * COORD_LIMIT * COORD_LIMIT) by (nonlinear_arith)
        requires
            -2 * COORD_LIMIT <= s <= 2 * COORD_LIMIT,
    ;
    dx * dx + dy * dy - s * s
}

} // verus!
