use navmesh::agent::update_agents;
use navmesh::{Density, PathFollowingAgent, Vec2, WaypointPath};

fn p(x: i64, y: i64) -> Vec2 {
    Vec2::new(x, y)
}

fn build(cps: Vec<Vec2>, num: u32, den: u32) -> WaypointPath {
    WaypointPath::build(&cps, Density::new(num, den).unwrap()).unwrap()
}

#[test]
fn walks_straight_path_with_constant_force_then_stops() {
    // Control points (0,0) to (100,0) at 1/10 points per unit give nodes
    // every 10 units. An agent integrating its own force 1:1 moves 5 units
    // per tick, always receives (5,0), and finally holds position with the
    // zero vector at the second-to-last node.
    let path = build(vec![p(0, 0), p(100, 0)], 1, 10);
    assert_eq!(path.len(), 12);
    let mut agent = PathFollowingAgent::new(5);
    let mut pos = p(0, 0);
    let mut last_index = agent.current_index;
    let mut ticks = 0;
    loop {
        let force = agent.steering_force(pos, &path);
        assert!(agent.current_index >= last_index);
        last_index = agent.current_index;
        if agent.current_index == path.len() - 1 {
            assert_eq!(force, p(0, 0));
            break;
        }
        assert_eq!(force, p(5, 0));
        pos = p(pos.x + force.x, pos.y + force.y);
        ticks += 1;
        assert!(ticks < 100);
    }
    // The walk ends just short of the last node's position: the cursor
    // reaches the final index once within the threshold of node 10 at x=90.
    assert_eq!(pos, p(90, 0));
}

#[test]
fn agent_at_final_node_of_two_node_path_stops_immediately() {
    let path = build(vec![p(0, 0), p(3, 0)], 1, 10);
    assert_eq!(path.len(), 2);
    let mut agent = PathFollowingAgent::new(9);
    let force = agent.steering_force(p(3, 0), &path);
    assert_eq!(force, p(0, 0));
    assert_eq!(agent.current_index, 1);
}

#[test]
fn terminal_calls_keep_zero_force_and_index() {
    let path = build(vec![p(0, 0), p(3, 0)], 1, 10);
    let mut agent = PathFollowingAgent::new(9);
    agent.steering_force(p(0, 0), &path);
    assert_eq!(agent.current_index, path.len() - 1);
    for _ in 0..5 {
        let force = agent.steering_force(p(200, 200), &path);
        assert_eq!(force, p(0, 0));
        assert_eq!(agent.current_index, path.len() - 1);
    }
}

#[test]
fn stationary_agent_just_outside_threshold_is_stable() {
    // Target node at (10,0), agent at (4,0): distance 6, one more than the
    // arrival threshold. Repeated calls neither advance the cursor nor
    // change the force.
    let path = build(vec![p(0, 0), p(10, 0), p(20, 0)], 0, 1);
    let mut agent = PathFollowingAgent::new(7);
    let first = agent.steering_force(p(4, 0), &path);
    assert_eq!(agent.current_index, 1);
    assert_eq!(first, p(7, 0));
    for _ in 0..4 {
        let again = agent.steering_force(p(4, 0), &path);
        assert_eq!(again, first);
        assert_eq!(agent.current_index, 1);
    }
}

#[test]
fn index_is_monotone_for_arbitrary_positions() {
    let path = build(vec![p(0, 0), p(100, 0), p(100, 100)], 1, 10);
    let positions = [
        p(0, 0),
        p(50, 0),
        p(10, 0),
        p(100, 40),
        p(0, 0),
        p(100, 100),
        p(-20, -20),
    ];
    let mut agent = PathFollowingAgent::new(12);
    let mut last_index = agent.current_index;
    for pos in positions {
        agent.steering_force(pos, &path);
        assert!(agent.current_index >= last_index);
        last_index = agent.current_index;
    }
}

#[test]
fn force_points_toward_target_with_exact_components() {
    // Direction (30,40) has exact length 50: strength 10 scales to (6,8).
    let path = build(vec![p(30, 40), p(200, 200)], 0, 1);
    let mut agent = PathFollowingAgent::new(10);
    let force = agent.steering_force(p(0, 0), &path);
    assert_eq!(agent.current_index, 0);
    assert_eq!(force, p(6, 8));
}

#[test]
fn force_rounds_magnitude_down_on_inexact_distance() {
    // Direction (7,2) has squared length 53; its rounded-down length is 7,
    // so strength 7 gives components (7*7/7, 2*7/7) = (7,2).
    let path = build(vec![p(7, 2), p(200, 200)], 0, 1);
    let mut agent = PathFollowingAgent::new(7);
    let force = agent.steering_force(p(0, 0), &path);
    assert_eq!(force, p(7, 2));
}

#[test]
fn force_components_can_be_negative() {
    let path = build(vec![p(0, 0), p(200, 200)], 0, 1);
    let mut agent = PathFollowingAgent::new(10);
    let force = agent.steering_force(p(30, -40), &path);
    assert_eq!(agent.current_index, 0);
    assert_eq!(force, p(-6, 8));
}

#[test]
fn zero_distance_counts_as_arrived_not_divided() {
    // An agent standing exactly on its target advances instead of
    // normalizing a zero-length direction.
    let path = build(vec![p(0, 0), p(100, 0)], 1, 10);
    let mut agent = PathFollowingAgent::new(5);
    let force = agent.steering_force(p(0, 0), &path);
    assert_eq!(agent.current_index, 2);
    assert_eq!(force, p(5, 0));
}

#[test]
fn one_call_can_advance_past_several_close_waypoints() {
    // Nodes at 0, 2, 4, 6, 8 are all within the threshold of an agent at
    // (4,0); one call advances past every one of them.
    let path = build(vec![p(0, 0), p(8, 0), p(200, 0)], 1, 2);
    let mut agent = PathFollowingAgent::new(5);
    agent.steering_force(p(4, 0), &path);
    assert!(agent.current_index > 3);
}

#[test]
fn update_tick_steers_every_agent() {
    let path = build(vec![p(0, 0), p(100, 0)], 1, 10);
    let mut agents = vec![PathFollowingAgent::new(5), PathFollowingAgent::new(10)];
    let positions = vec![p(0, 0), p(50, 0)];
    let forces = update_agents(&mut agents, &positions, &path);
    assert_eq!(forces.len(), 2);
    // First agent: standing on nodes 0 and 1, advances to node 2 at (10,0).
    assert_eq!(agents[0].current_index, 2);
    assert_eq!(forces[0], p(5, 0));
    // Second agent: still targeting node 2 at (10,0), 40 units behind it.
    assert_eq!(agents[1].current_index, 0);
    assert_eq!(forces[1], p(-10, 0));
}

#[test]
fn update_tick_on_empty_collection_is_a_no_op() {
    let path = build(vec![p(0, 0), p(100, 0)], 1, 10);
    let mut agents: Vec<PathFollowingAgent> = Vec::new();
    let positions: Vec<Vec2> = Vec::new();
    let forces = update_agents(&mut agents, &positions, &path);
    assert!(forces.is_empty());
}
