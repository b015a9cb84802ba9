//! Waypoint path construction: densifying a sparse polyline of control
//! points into the ordered node sequence that agents traverse.
//!
//! For each consecutive pair of control points, the distance between them is
//! multiplied by the density (points per unit of distance, a rational
//! `num / den`) and rounded down to give the number of interpolated points
//! for that segment; the segment's end point is then appended
//! unconditionally. The whole construction is specified by `path_nodes`.

use vstd::arithmetic::div_mod::{
    lemma_basic_div, lemma_div_nonincreasing, lemma_div_pos_is_pos,
    lemma_multiply_divide_le,
};
use vstd::prelude::*;

use crate::isqrt::{isqrt, lemma_sqrt_floor_vs_square, sqrt_floor};
use crate::vec2::{dist_sq, dist_sq_pt, lemma_dist_sq_bounds, pt, pt_in_bounds, Vec2, MAX_COORD};

verus! {

/// Largest density numerator the library accepts; keeps the scaled squared
/// distance `dist_sq * num * num` within the machine integer range.
pub const MAX_DENSITY_NUM: u32 = 1024;

/// Path density: `num / den` interpolated points per unit of distance.
///
/// A rational keeps the densification exact on the integer grid; `num == 0`
/// is allowed and produces no interpolated points at all.
#[derive(Clone, Copy, Debug, PartialEq, Eq, Structural)]
pub struct Density {
    pub num: u32,
    pub den: u32,
}

impl Density {
    pub open spec fn wf(self) -> bool {
        1 <= self.den && self.num <= MAX_DENSITY_NUM
    }

    pub fn new(num: u32, den: u32) -> (d: Option<Density>)
        ensures
            match d {
                Some(d) => d.num == num && d.den == den && d.wf(),
                None => !(Density { num, den }).wf(),
            },
    {
        if 1 <= den && num <= MAX_DENSITY_NUM {
            Some(Density { num, den })
        } else {
            None
        }
    }
}

/// Rejected construction input: an empty control-point list.
#[derive(Clone, Copy, Debug, PartialEq, Eq, Structural)]
pub struct InvalidInputError;

/// The mathematical values of a vector of points.
pub open spec fn pts_of(s: Seq<Vec2>) -> Seq<(int, int)> {
    Seq::new(s.len(), |i: int| pt(s[i]))
}

/// Number of interpolated points between control points `a` and `b`:
/// the distance between them times the density, rounded down.
///
/// With `S` the squared distance, `floor(sqrt(S) * num / den)` equals
/// `floor(sqrt(S * num^2)) / den`, which is exact integer arithmetic.
pub open spec fn steps_between(a: (int, int), b: (int, int), d: Density) -> int {
    sqrt_floor((dist_sq_pt(a, b) * d.num * d.num) as nat) as int / (d.den as int)
}

/// Linear interpolation of one coordinate at parameter `k / steps`,
/// rounding the offset from `a` toward zero (the offset is nonnegative,
/// so this is a plain floor).
pub open spec fn lerp_coord(a: int, b: int, k: int, steps: int) -> int {
    if b >= a {
        a + ((b - a) * k) / steps
    } else {
        a - ((a - b) * k) / steps
    }
}

/// Linear interpolation of a point at parameter `k / steps`.
pub open spec fn lerp_pt(a: (int, int), b: (int, int), k: int, steps: int) -> (int, int) {
    (lerp_coord(a.0, b.0, k, steps), lerp_coord(a.1, b.1, k, steps))
}

/// The nodes one segment contributes to the path: interpolated points at
/// parameters `0 / steps, ..., (steps - 1) / steps`, then the end control
/// point, appended unconditionally.
pub open spec fn segment_nodes(a: (int, int), b: (int, int), d: Density) -> Seq<(int, int)> {
    let steps = steps_between(a, b, d);
    Seq::new(steps as nat, |k: int| lerp_pt(a, b, k, steps)).push(b)
}

/// The full node sequence built from a control-point polyline: the first
/// control point, followed by each segment's nodes in order.
pub open spec fn path_nodes(cps: Seq<(int, int)>, d: Density) -> Seq<(int, int)>
    decreases cps.len(),
{
    if cps.len() <= 1 {
        cps
    } else {
        path_nodes(cps.drop_last(), d) + segment_nodes(cps[cps.len() - 2], cps.last(), d)
    }
}

/// A densified waypoint path: an immutable, non-empty ordered sequence of
/// 2D nodes, walked front to back by agents.
pub struct WaypointPath {
    nodes: Vec<Vec2>,
}

impl View for WaypointPath {
    type V = Seq<(int, int)>;

    closed spec fn view(&self) -> Seq<(int, int)> {
        pts_of(self.nodes@)
    }
}

impl WaypointPath {
    /// Invariant established by `build`: at least one node, every node on
    /// the bounded grid.
    pub open spec fn wf(self) -> bool {
        &&& self@.len() >= 1
        &&& forall|i: int| 0 <= i < self@.len() ==> pt_in_bounds(#[trigger] self@[i])
    }

    pub fn len(&self) -> (n: usize)
        ensures
            n == self@.len(),
    {
        self.nodes.len()
    }

    pub fn node(&self, i: usize) -> (v: Vec2)
        requires
            i < self@.len(),
        ensures
            pt(v) == self@[i as int],
    {
        self.nodes[i]
    }

    /// Builds the densified path from a non-empty control-point polyline.
    ///
    /// The result starts with the first control point; each consecutive
    /// pair then contributes its interpolated points followed by the pair's
    /// end point. An empty list is rejected. The node sequence is exactly
    /// `path_nodes` of the control points.
    pub fn build(control_points: &Vec<Vec2>, density: Density) -> (r: Result<
        WaypointPath,
        InvalidInputError,
    >)
        requires
            density.wf(),
            forall|i: int|
                0 <= i < control_points@.len() ==> (#[trigger] control_points@[i]).in_bounds(),
        ensures
            match r {
                Ok(p) => {
                    &&& control_points@.len() >= 1
                    &&& p@ == path_nodes(pts_of(control_points@), density)
                    &&& p.wf()
                },
                Err(_) => control_points@.len() == 0,
            },
    {
        if control_points.len() == 0 {
            return Err(InvalidInputError);
        }
        let ghost cps: Seq<(int, int)> = pts_of(control_points@);
        let mut nodes: Vec<Vec2> = Vec::new();
        nodes.push(control_points[0]);
        proof {
            assert(pts_of(nodes@) =~= path_nodes(cps.take(1), density));
        }
        let mut i: usize = 1;
        while i < control_points.len()
            invariant
                1 <= i <= control_points@.len(),
                density.wf(),
                cps == pts_of(control_points@),
                forall|j: int|
                    0 <= j < control_points@.len() ==> (#[trigger] control_points@[j]).in_bounds(),
                pts_of(nodes@) == path_nodes(cps.take(i as int), density),
                forall|j: int| 0 <= j < nodes@.len() ==> (#[trigger] nodes@[j]).in_bounds(),
            decreases control_points@.len() - i,
        {
            let prev = control_points[i - 1];
            let next = control_points[i];
            let steps = segment_steps(prev, next, density);
            let ghost seg_base = pts_of(nodes@);
            let ghost interp: spec_fn(int) -> (int, int) = |j: int|
                lerp_pt(pt(prev), pt(next), j, steps as int);
            proof {
                assert(pts_of(nodes@) =~= seg_base + Seq::new(0, interp));
            }
            let mut k: u64 = 0;
            while k < steps
                invariant
                    0 <= k <= steps,
                    steps < 0x1_0000_0000,
                    steps == steps_between(pt(prev), pt(next), density),
                    prev.in_bounds(),
                    next.in_bounds(),
                    interp == (|j: int| lerp_pt(pt(prev), pt(next), j, steps as int)),
                    pts_of(nodes@) == seg_base + Seq::new(k as nat, interp),
                    forall|j: int| 0 <= j < nodes@.len() ==> (#[trigger] nodes@[j]).in_bounds(),
                decreases steps - k,
            {
                let v = lerp(prev, next, k, steps);
                let ghost before = nodes@;
                nodes.push(v);
                proof {
                    assert(pts_of(before.push(v)) =~= pts_of(before).push(pt(v)));
                    assert((seg_base + Seq::new(k as nat, interp)).push(interp(k as int)) =~=
                        seg_base + Seq::new((k + 1) as nat, interp));
                }
                k = k + 1;
            }
            let ghost before = nodes@;
            nodes.push(next);
            proof {
                assert(pts_of(before.push(next)) =~= pts_of(before).push(pt(next)));
                assert(segment_nodes(pt(prev), pt(next), density) =~= Seq::new(
                    steps as nat,
                    interp,
                ).push(pt(next)));
                assert((seg_base + Seq::new(steps as nat, interp)).push(pt(next)) =~= seg_base
                    + segment_nodes(pt(prev), pt(next), density));
                assert(cps[i - 1] == pt(prev));
                assert(cps[i as int] == pt(next));
                let taken = cps.take(i + 1);
                assert(taken.drop_last() =~= cps.take(i as int));
                assert(taken[taken.len() - 2] == cps[i - 1] && taken.last() == cps[i as int]);
                assert(path_nodes(taken, density) == path_nodes(cps.take(i as int), density)
                    + segment_nodes(cps[i - 1], cps[i as int], density));
            }
            i = i + 1;
        }
        proof {
            assert(cps.take(control_points@.len() as int) =~= cps);
            assert(path_nodes(cps, density).len() >= 1);
        }
        Ok(WaypointPath { nodes })
    }
}

/// Number of interpolated points for the segment from `prev` to `next`.
fn segment_steps(prev: Vec2, next: Vec2, density: Density) -> (steps: u64)
    requires
        prev.in_bounds(),
        next.in_bounds(),
        density.wf(),
    ensures
        steps == steps_between(pt(prev), pt(next), density),
        steps < 0x1_0000_0000,
{
    let s2: u64 = dist_sq(prev, next);
    proof {
        lemma_dist_sq_bounds(pt(prev), pt(next));
        assert(s2 * (density.num as u64) <= 0x20_0000_0000_0000 && s2 * (density.num as u64) * (
        density.num as u64) <= 0x8000_0000_0000_0000) by (nonlinear_arith)
            requires
                s2 <= 0x800_0000_0000,
                density.num <= 1024,
        ;
    }
    let scaled: u64 = s2 * (density.num as u64) * (density.num as u64);
    let root: u64 = isqrt(scaled);
    proof {
        lemma_div_nonincreasing(root as int, density.den as int);
        lemma_div_pos_is_pos(root as int, density.den as int);
    }
    root / (density.den as u64)
}

/// One interpolated coordinate: `a` plus the rounded-down fraction
/// `k / steps` of the way toward `b`. The result always lies between
/// `a` and `b`.
fn lerp_coord_exec(a: i64, b: i64, k: u64, steps: u64) -> (c: i64)
    requires
        -MAX_COORD <= a <= MAX_COORD,
        -MAX_COORD <= b <= MAX_COORD,
        k < steps,
        steps < 0x1_0000_0000,
    ensures
        c == lerp_coord(a as int, b as int, k as int, steps as int),
        a <= c <= b || b <= c <= a,
{
    if b >= a {
        let delta: u64 = (b - a) as u64;
        proof {
            assert(delta * k <= steps * delta && delta * k <= 0x20_0000_0000_0000)
                by (nonlinear_arith)
                requires
                    0 <= delta <= 0x20_0000,
                    0 <= k < steps < 0x1_0000_0000,
            ;
            lemma_multiply_divide_le(delta * k, steps as int, delta as int);
            lemma_div_pos_is_pos(delta * k, steps as int);
        }
        let off: u64 = (delta * k) / steps;
        a + (off as i64)
    } else {
        let delta: u64 = (a - b) as u64;
        proof {
            assert(delta * k <= steps * delta && delta * k <= 0x20_0000_0000_0000)
                by (nonlinear_arith)
                requires
                    0 <= delta <= 0x20_0000,
                    0 <= k < steps < 0x1_0000_0000,
            ;
            lemma_multiply_divide_le(delta * k, steps as int, delta as int);
            lemma_div_pos_is_pos(delta * k, steps as int);
        }
        let off: u64 = (delta * k) / steps;
        a - (off as i64)
    }
}

/// One interpolated node at parameter `k / steps` along a segment.
fn lerp(prev: Vec2, next: Vec2, k: u64, steps: u64) -> (v: Vec2)
    requires
        prev.in_bounds(),
        next.in_bounds(),
        k < steps,
        steps < 0x1_0000_0000,
    ensures
        pt(v) == lerp_pt(pt(prev), pt(next), k as int, steps as int),
        v.in_bounds(),
{
    Vec2 {
        x: lerp_coord_exec(prev.x, next.x, k, steps),
        y: lerp_coord_exec(prev.y, next.y, k, steps),
    }
}

/// The built path starts at the first control point and ends at the last
/// one, whatever the density.
pub proof fn lemma_path_endpoints(cps: Seq<(int, int)>, d: Density)
    requires
        cps.len() >= 1,
    ensures
        path_nodes(cps, d).len() >= 1,
        path_nodes(cps, d)[0] == cps[0],
        path_nodes(cps, d).last() == cps.last(),
    decreases cps.len(),
{
    if cps.len() == 1 {
    } else {
        lemma_path_endpoints(cps.drop_last(), d);
        assert(cps.drop_last()[0] == cps[0]);
        let seg = segment_nodes(cps[cps.len() - 2], cps.last(), d);
        assert(seg.last() == cps.last());
    }
}

/// Appending one more control point appends exactly that segment's nodes.
pub proof fn lemma_path_step(cps: Seq<(int, int)>, d: Density, i: int)
    requires
        0 <= i < cps.len() - 1,
    ensures
        path_nodes(cps.take(i + 2), d) == path_nodes(cps.take(i + 1), d) + segment_nodes(
            cps[i],
            cps[i + 1],
            d,
        ),
{
    let taken = cps.take(i + 2);
    assert(taken.drop_last() =~= cps.take(i + 1));
    assert(taken[taken.len() - 2] == cps[i] && taken.last() == cps[i + 1]);
}

/// The path of a control-point prefix is a prefix of the whole path.
pub proof fn lemma_path_prefix(cps: Seq<(int, int)>, d: Density, m: int)
    requires
        1 <= m <= cps.len(),
    ensures
        path_nodes(cps.take(m), d).len() <= path_nodes(cps, d).len(),
        path_nodes(cps, d).take(path_nodes(cps.take(m), d).len() as int) == path_nodes(
            cps.take(m),
            d,
        ),
    decreases cps.len() - m,
{
    if m == cps.len() {
        assert(cps.take(m) =~= cps);
        assert(path_nodes(cps, d).take(path_nodes(cps, d).len() as int) =~= path_nodes(cps, d));
    } else {
        lemma_path_step(cps, d, m - 1);
        lemma_path_prefix(cps, d, m + 1);
        let shorter = path_nodes(cps.take(m), d);
        let longer = path_nodes(cps.take(m + 1), d);
        assert(longer.take(shorter.len() as int) =~= shorter);
        assert(path_nodes(cps, d).take(shorter.len() as int) =~= shorter);
    }
}

/// Each segment's interpolated points stand in the built path at
/// consecutive positions: `steps_between` of them (the distance times the
/// density, rounded down), the `k`-th at parameter `k / steps`, followed by
/// the segment's end control point.
pub proof fn lemma_segment_interpolation(cps: Seq<(int, int)>, d: Density, i: int)
    requires
        d.wf(),
        0 <= i < cps.len() - 1,
    ensures
        ({
            let whole = path_nodes(cps, d);
            let off = path_nodes(cps.take(i + 1), d).len() as int;
            let steps = steps_between(cps[i], cps[i + 1], d);
            &&& 0 <= steps
            &&& off + steps + 1 <= whole.len()
            &&& forall|k: int|
                0 <= k < steps ==> #[trigger] whole[off + k] == lerp_pt(cps[i], cps[i + 1], k, steps)
            &&& whole[off + steps] == cps[i + 1]
        }),
{
    let whole = path_nodes(cps, d);
    let off = path_nodes(cps.take(i + 1), d).len() as int;
    let steps = steps_between(cps[i], cps[i + 1], d);
    lemma_div_pos_is_pos(
        sqrt_floor((dist_sq_pt(cps[i], cps[i + 1]) * d.num * d.num) as nat) as int,
        d.den as int,
    );
    lemma_path_step(cps, d, i);
    lemma_path_prefix(cps, d, i + 2);
    let prefix = path_nodes(cps.take(i + 2), d);
    assert(forall|k: int|
        0 <= k < steps ==> #[trigger] prefix[off + k] == lerp_pt(cps[i], cps[i + 1], k, steps));
    assert(forall|k: int| 0 <= k <= steps ==> #[trigger] whole[off + k] == prefix[off + k]);
}

/// A segment shorter than `1 / density` (in particular any segment at
/// density zero) contributes no interpolated points: only its end control
/// point is appended, and no division by zero arises.
///
/// Shorter than `1 / density` means `dist * num < den`, that is,
/// `dist_sq * num^2 < den^2` on the exact squares.
pub proof fn lemma_sparse_segment(a: (int, int), b: (int, int), d: Density)
    requires
        d.wf(),
        d.num == 0 || dist_sq_pt(a, b) * d.num * d.num < d.den * d.den,
    ensures
        steps_between(a, b, d) == 0,
        segment_nodes(a, b, d) == seq![b],
{
    let s2 = dist_sq_pt(a, b);
    assert(s2 >= 0) by (nonlinear_arith)
        requires
            s2 == (b.0 - a.0) * (b.0 - a.0) + (b.1 - a.1) * (b.1 - a.1),
    ;
    let scaled = (s2 * d.num * d.num) as nat;
    if d.num == 0 {
        assert(s2 * d.num * d.num == 0) by (nonlinear_arith)
            requires
                d.num == 0,
        ;
        assert(sqrt_floor(scaled) == 0);
        lemma_basic_div(0, d.den as int);
    } else {
        assert(!((d.den as nat) * (d.den as nat) <= scaled)) by (nonlinear_arith)
            requires
                scaled == s2 * d.num * d.num,
                s2 * d.num * d.num < d.den * d.den,
                s2 >= 0,
        ;
        lemma_sqrt_floor_vs_square(scaled, d.den as nat);
        assert(sqrt_floor(scaled) < d.den);
        lemma_basic_div(sqrt_floor(scaled) as int, d.den as int);
    }
    assert(segment_nodes(a, b, d) =~= seq![b]);
}

} // verus!
