//! Integer 2D vectors and exact squared distances.
//!
//! Coordinates are whole world units on a bounded grid. The bound keeps every
//! intermediate product of the path and steering computations inside the
//! machine integer range, which the verifier checks at each operation.

use vstd::prelude::*;

verus! {

/// Largest coordinate magnitude the library accepts (2^20 world units).
pub const MAX_COORD: i64 = 1048576;

/// A 2D point or vector with integer coordinates.
#[derive(Clone, Copy, Debug, PartialEq, Eq, Structural)]
pub struct Vec2 {
    pub x: i64,
    pub y: i64,
}

/// The mathematical value of a vector: a pair of unbounded integers.
pub open spec fn pt(v: Vec2) -> (int, int) {
    (v.x as int, v.y as int)
}

/// Whether a point lies on the bounded coordinate grid.
pub open spec fn pt_in_bounds(p: (int, int)) -> bool {
    &&& -MAX_COORD <= p.0 <= MAX_COORD
    &&& -MAX_COORD <= p.1 <= MAX_COORD
}

/// Squared Euclidean distance between two points.
///
/// Distances themselves are irrational in general; every comparison the
/// library makes goes through the square, which is exact.
pub open spec fn dist_sq_pt(a: (int, int), b: (int, int)) -> int {
    (b.0 - a.0) * (b.0 - a.0) + (b.1 - a.1) * (b.1 - a.1)
}

impl Vec2 {
    pub open spec fn in_bounds(self) -> bool {
        pt_in_bounds(pt(self))
    }

    pub fn new(x: i64, y: i64) -> (v: Vec2)
        ensures
            v.x == x,
            v.y == y,
    {
        Vec2 { x, y }
    }

    /// The zero vector, used as the terminal "hold position" steering force.
    pub fn zero() -> (v: Vec2)
        ensures
            pt(v) == (0int, 0int),
    {
        Vec2 { x: 0, y: 0 }
    }
}

/// A squared distance between in-bounds points is nonnegative and at most
/// 8 * MAX_COORD^2.
pub proof fn lemma_dist_sq_bounds(a: (int, int), b: (int, int))
    requires
        pt_in_bounds(a),
        pt_in_bounds(b),
    ensures
        0 <= dist_sq_pt(a, b) <= 8 * MAX_COORD * MAX_COORD,
{
    let dx = b.0 - a.0;
    let dy = b.1 - a.1;
    assert(0 <= dx * dx <= 4 * MAX_COORD * MAX_COORD) by (nonlinear_arith)
        requires
            -2 * MAX_COORD <= dx <= 2 * MAX_COORD,
    ;
    assert(0 <= dy * dy <= 4 * MAX_COORD * MAX_COORD) by (nonlinear_arith)
        requires
            -2 * MAX_COORD <= dy <= 2 * MAX_COORD,
    ;
}

/// Exact squared distance between two in-bounds points.
pub fn dist_sq(a: Vec2, b: Vec2) -> (s: u64)
    requires
        a.in_bounds(),
        b.in_bounds(),
    ensures
        s == dist_sq_pt(pt(a), pt(b)),
{
    let ax: u64 = if b.x >= a.x {
        (b.x - a.x) as u64
    } else {
        (a.x - b.x) as u64
    };
    let ay: u64 = if b.y >= a.y {
        (b.y - a.y) as u64
    } else {
        (a.y - b.y) as u64
    };
    proof {
        let dx = pt(b).0 - pt(a).0;
        let dy = pt(b).1 - pt(a).1;
        assert(ax * ax == dx * dx && ax * ax <= 4 * MAX_COORD * MAX_COORD) by (nonlinear_arith)
            requires
                ax == if dx >= 0 { dx } else { -dx },
                -2 * MAX_COORD <= dx <= 2 * MAX_COORD,
        ;
        assert(ay * ay == dy * dy && ay * ay <= 4 * MAX_COORD * MAX_COORD) by (nonlinear_arith)
            requires
                ay == if dy >= 0 { dy } else { -dy },
                -2 * MAX_COORD <= dy <= 2 * MAX_COORD,
        ;
    }
    ax * ax + ay * ay
}

} // verus!
