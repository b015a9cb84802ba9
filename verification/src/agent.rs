//! Path-following agents: a mutable cursor into a shared waypoint path and
//! the steering-force query that advances it.
//!
//! Each call to `steering_force` first advances the cursor past every
//! waypoint the agent has already arrived at (strictly closer than
//! `ARRIVAL_THRESHOLD`), then steers toward the resulting target with a
//! force of magnitude `move_strength`, or holds position with the zero
//! vector once the cursor has reached the last node.

use vstd::arithmetic::div_mod::{lemma_div_nonincreasing, lemma_div_pos_is_pos};
use vstd::prelude::*;

use crate::isqrt::{isqrt, lemma_sqrt_floor_vs_square, sqrt_floor};
use crate::path::WaypointPath;
use crate::vec2::{dist_sq, dist_sq_pt, pt, Vec2, MAX_COORD};

verus! {

/// Distance below which an agent counts as having reached its current
/// target waypoint.
pub const ARRIVAL_THRESHOLD: i64 = 5;

/// Largest steering-force magnitude the library accepts; keeps the scaled
/// direction components within the machine integer range.
pub const MAX_MOVE_STRENGTH: i64 = 1048576;

/// Whether a position counts as arrived at a node: strictly closer than
/// `ARRIVAL_THRESHOLD`. Compared through exact squares, so a zero-length
/// direction (position exactly on the node) always counts as arrived.
pub open spec fn arrived_at(pos: (int, int), node: (int, int)) -> bool {
    dist_sq_pt(pos, node) < ARRIVAL_THRESHOLD * ARRIVAL_THRESHOLD
}

/// The index an agent's cursor settles on in one steering query, starting
/// from `i`: the first index at or after `i` that is either the last node
/// or a node the agent has not arrived at.
pub open spec fn target_index(nodes: Seq<(int, int)>, pos: (int, int), i: int) -> int
    decreases nodes.len() - i,
{
    if i >= nodes.len() - 1 {
        nodes.len() - 1
    } else if arrived_at(pos, nodes[i]) {
        target_index(nodes, pos, i + 1)
    } else {
        i
    }
}

/// One component of the steering force: the direction component `delta`
/// scaled by `strength / dist`, rounded toward zero.
pub open spec fn force_component(delta: int, strength: int, dist: int) -> int {
    if delta >= 0 {
        (delta * strength) / dist
    } else {
        -((-delta * strength) / dist)
    }
}

/// The steering force returned for a cursor standing at index `j`: zero at
/// the last node, otherwise the direction toward node `j` normalized by the
/// rounded-down distance and scaled to `strength`.
pub open spec fn steering_spec(
    nodes: Seq<(int, int)>,
    pos: (int, int),
    j: int,
    strength: int,
) -> (int, int) {
    if j >= nodes.len() - 1 {
        (0, 0)
    } else {
        let dx = nodes[j].0 - pos.0;
        let dy = nodes[j].1 - pos.1;
        let dist = sqrt_floor(dist_sq_pt(pos, nodes[j]) as nat) as int;
        (force_component(dx, strength, dist), force_component(dy, strength, dist))
    }
}

/// An agent that walks a waypoint path: a fixed steering strength and a
/// monotonically advancing cursor into the path's node sequence.
#[derive(Clone, Copy, Debug, PartialEq, Eq, Structural)]
pub struct PathFollowingAgent {
    pub move_strength: i64,
    pub current_index: usize,
}

impl PathFollowingAgent {
    /// Validity of an agent against the path it walks: the cursor stays
    /// inside the node sequence and the strength inside the machine range.
    pub open spec fn wf_for(self, nodes: Seq<(int, int)>) -> bool {
        &&& self.current_index < nodes.len()
        &&& 0 <= self.move_strength <= MAX_MOVE_STRENGTH
    }

    pub fn new(move_strength: i64) -> (a: PathFollowingAgent)
        requires
            0 <= move_strength <= MAX_MOVE_STRENGTH,
        ensures
            a.move_strength == move_strength,
            a.current_index == 0,
    {
        PathFollowingAgent { move_strength, current_index: 0 }
    }

    /// One steering query against `path` for an agent at `position`.
    ///
    /// Advances the cursor to `target_index` (never backward), then returns
    /// the force `steering_spec` prescribes for that cursor: zero once the
    /// cursor stands on the last node, otherwise a vector pointing from
    /// `position` toward the target node with magnitude `move_strength`
    /// (up to the rounding in `force_component`).
    pub fn steering_force(&mut self, position: Vec2, path: &WaypointPath) -> (force: Vec2)
        requires
            path.wf(),
            position.in_bounds(),
            old(self).wf_for(path@),
        ensures
            final(self).wf_for(path@),
            final(self).move_strength == old(self).move_strength,
            final(self).current_index == target_index(
                path@,
                pt(position),
                old(self).current_index as int,
            ),
            old(self).current_index <= final(self).current_index,
            pt(force) == steering_spec(
                path@,
                pt(position),
                final(self).current_index as int,
                old(self).move_strength as int,
            ),
    {
        let len = path.len();
        let ghost start = self.current_index as int;
        loop
            invariant
                path.wf(),
                position.in_bounds(),
                len == path@.len(),
                self.move_strength == old(self).move_strength,
                0 <= self.move_strength <= MAX_MOVE_STRENGTH,
                start <= self.current_index < len,
                target_index(path@, pt(position), start) == target_index(
                    path@,
                    pt(position),
                    self.current_index as int,
                ),
            ensures
                self.current_index as int == target_index(path@, pt(position), start),
                self.current_index < len - 1 ==> !arrived_at(
                    pt(position),
                    path@[self.current_index as int],
                ),
            decreases len - self.current_index,
        {
            if self.current_index >= len - 1 {
                break;
            }
            let node = path.node(self.current_index);
            let d2 = dist_sq(position, node);
            if d2 < (ARRIVAL_THRESHOLD * ARRIVAL_THRESHOLD) as u64 {
                self.current_index = self.current_index + 1;
            } else {
                break;
            }
        }
        if self.current_index >= len - 1 {
            Vec2::zero()
        } else {
            let node = path.node(self.current_index);
            let d2 = dist_sq(position, node);
            let dist = isqrt(d2);
            proof {
                lemma_arrival_distance_positive(pt(position), pt(node), d2 as nat);
            }
            let fx = scale_component(node.x - position.x, self.move_strength, dist);
            let fy = scale_component(node.y - position.y, self.move_strength, dist);
            Vec2 { x: fx, y: fy }
        }
    }
}

/// One simulation tick for a whole collection of agents: each agent is
/// steered against the shared path from its externally supplied position,
/// and the force to hand to that agent's physics integrator is returned in
/// agent order.
pub fn update_agents(
    agents: &mut Vec<PathFollowingAgent>,
    positions: &Vec<Vec2>,
    path: &WaypointPath,
) -> (forces: Vec<Vec2>)
    requires
        path.wf(),
        old(agents)@.len() == positions@.len(),
        forall|i: int| 0 <= i < old(agents)@.len() ==> (#[trigger] old(agents)@[i]).wf_for(path@),
        forall|i: int| 0 <= i < positions@.len() ==> (#[trigger] positions@[i]).in_bounds(),
    ensures
        final(agents)@.len() == old(agents)@.len(),
        forces@.len() == old(agents)@.len(),
        forall|i: int|
            0 <= i < old(agents)@.len() ==> {
                let a0 = old(agents)@[i];
                let a1 = #[trigger] final(agents)@[i];
                &&& a1.wf_for(path@)
                &&& a1.move_strength == a0.move_strength
                &&& a1.current_index == target_index(
                    path@,
                    pt(positions@[i]),
                    a0.current_index as int,
                )
                &&& a0.current_index <= a1.current_index
                &&& pt(forces@[i]) == steering_spec(
                    path@,
                    pt(positions@[i]),
                    a1.current_index as int,
                    a0.move_strength as int,
                )
            },
{
    let mut forces: Vec<Vec2> = Vec::new();
    let mut i: usize = 0;
    while i < agents.len()
        invariant
            path.wf(),
            agents@.len() == old(agents)@.len(),
            positions@.len() == old(agents)@.len(),
            0 <= i <= agents@.len(),
            forces@.len() == i,
            forall|j: int|
                0 <= j < old(agents)@.len() ==> (#[trigger] old(agents)@[j]).wf_for(path@),
            forall|j: int| 0 <= j < positions@.len() ==> (#[trigger] positions@[j]).in_bounds(),
            forall|j: int| i <= j < agents@.len() ==> agents@[j] == (#[trigger] old(agents)@[j]),
            forall|j: int|
                0 <= j < i ==> {
                    let a0 = old(agents)@[j];
                    let a1 = #[trigger] agents@[j];
                    &&& a1.wf_for(path@)
                    &&& a1.move_strength == a0.move_strength
                    &&& a1.current_index == target_index(
                        path@,
                        pt(positions@[j]),
                        a0.current_index as int,
                    )
                    &&& a0.current_index <= a1.current_index
                    &&& pt(forces@[j]) == steering_spec(
                        path@,
                        pt(positions@[j]),
                        a1.current_index as int,
                        a0.move_strength as int,
                    )
                },
        decreases agents@.len() - i,
    {
        let mut a = agents[i];
        proof {
            assert(agents@[i as int] == old(agents)@[i as int]);
        }
        let f = a.steering_force(positions[i], path);
        agents.set(i, a);
        forces.push(f);
        i = i + 1;
    }
    forces
}

/// A position that has not arrived at a node stands at least
/// `ARRIVAL_THRESHOLD` away from it, so the rounded-down distance is
/// positive and normalization never divides by zero.
proof fn lemma_arrival_distance_positive(pos: (int, int), node: (int, int), d2: nat)
    requires
        d2 == dist_sq_pt(pos, node),
        !arrived_at(pos, node),
    ensures
        ARRIVAL_THRESHOLD <= sqrt_floor(d2),
{
    lemma_sqrt_floor_vs_square(d2, ARRIVAL_THRESHOLD as nat);
    assert((ARRIVAL_THRESHOLD as nat) * (ARRIVAL_THRESHOLD as nat) <= d2);
}

/// One force component: `delta` scaled by `strength / dist` with the
/// magnitude rounded down.
fn scale_component(delta: i64, strength: i64, dist: u64) -> (c: i64)
    requires
        -2 * MAX_COORD <= delta <= 2 * MAX_COORD,
        0 <= strength <= MAX_MOVE_STRENGTH,
        1 <= dist,
    ensures
        c == force_component(delta as int, strength as int, dist as int),
{
    let mag: u64 = if delta >= 0 {
        delta as u64
    } else {
        (-delta) as u64
    };
    proof {
        assert(mag * (strength as u64) <= 0x4_0000_0000_0000) by (nonlinear_arith)
            requires
                0 <= mag <= 0x20_0000,
                0 <= strength <= 0x10_0000,
        ;
        lemma_div_nonincreasing((mag * (strength as u64)) as int, dist as int);
        lemma_div_pos_is_pos((mag * (strength as u64)) as int, dist as int);
    }
    let scaled: u64 = (mag * (strength as u64)) / dist;
    if delta >= 0 {
        scaled as i64
    } else {
        -(scaled as i64)
    }
}

/// The cursor never moves backward: the settled index is at least the
/// starting one.
pub proof fn lemma_target_index_monotonic(nodes: Seq<(int, int)>, pos: (int, int), i: int)
    requires
        0 <= i < nodes.len(),
    ensures
        i <= target_index(nodes, pos, i) < nodes.len(),
    decreases nodes.len() - i,
{
    if i >= nodes.len() - 1 {
    } else if arrived_at(pos, nodes[i]) {
        lemma_target_index_monotonic(nodes, pos, i + 1);
    }
}

/// Settling the cursor is idempotent: a second steering query from the same
/// position leaves the cursor where the first one put it and returns the
/// same force.
pub proof fn lemma_steering_idempotent(
    nodes: Seq<(int, int)>,
    pos: (int, int),
    i: int,
    strength: int,
)
    requires
        0 <= i < nodes.len(),
    ensures
        ({
            let settled = target_index(nodes, pos, i);
            &&& target_index(nodes, pos, settled) == settled
            &&& steering_spec(nodes, pos, target_index(nodes, pos, settled), strength)
                == steering_spec(nodes, pos, settled, strength)
        }),
    decreases nodes.len() - i,
{
    if i >= nodes.len() - 1 {
    } else if arrived_at(pos, nodes[i]) {
        lemma_steering_idempotent(nodes, pos, i + 1, strength);
    }
}

/// Terminal behavior: once the cursor stands on the last node, a steering
/// query leaves it there and returns the zero vector.
pub proof fn lemma_terminal_stop(nodes: Seq<(int, int)>, pos: (int, int), strength: int)
    requires
        nodes.len() >= 1,
    ensures
        target_index(nodes, pos, nodes.len() - 1) == nodes.len() - 1,
        steering_spec(nodes, pos, nodes.len() - 1, strength) == (0int, 0int),
{
}

} // verus!
