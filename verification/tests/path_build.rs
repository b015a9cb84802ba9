use navmesh::{Density, Vec2, WaypointPath};

fn p(x: i64, y: i64) -> Vec2 {
    Vec2::new(x, y)
}

#[test]
fn build_rejects_empty_control_points() {
    let cps: Vec<Vec2> = Vec::new();
    let d = Density::new(1, 10).unwrap();
    assert!(WaypointPath::build(&cps, d).is_err());
}

#[test]
fn build_single_control_point() {
    let cps = vec![p(7, -3)];
    let d = Density::new(1, 10).unwrap();
    let path = WaypointPath::build(&cps, d).unwrap();
    assert_eq!(path.len(), 1);
    assert_eq!(path.node(0), p(7, -3));
}

#[test]
fn straight_segment_densified_every_ten_units() {
    // 100 units at 1/10 points per unit: ten interpolated points
    // (including the duplicate of the start at parameter 0), then the end.
    let cps = vec![p(0, 0), p(100, 0)];
    let d = Density::new(1, 10).unwrap();
    let path = WaypointPath::build(&cps, d).unwrap();
    assert_eq!(path.len(), 12);
    assert_eq!(path.node(0), p(0, 0));
    assert_eq!(path.node(1), p(0, 0));
    for k in 1..11 {
        assert_eq!(path.node(k), p(10 * (k as i64 - 1), 0));
    }
    assert_eq!(path.node(11), p(100, 0));
}

#[test]
fn endpoints_are_preserved() {
    let cps = vec![p(180, 135), p(1160, 135), p(1160, 460), p(640, 800)];
    let d = Density::new(1, 10).unwrap();
    let path = WaypointPath::build(&cps, d).unwrap();
    assert_eq!(path.node(0), p(180, 135));
    assert_eq!(path.node(path.len() - 1), p(640, 800));
}

#[test]
fn zero_density_appends_only_endpoints() {
    let cps = vec![p(0, 0), p(100, 0), p(100, 200)];
    let d = Density::new(0, 1).unwrap();
    let path = WaypointPath::build(&cps, d).unwrap();
    assert_eq!(path.len(), 3);
    assert_eq!(path.node(0), p(0, 0));
    assert_eq!(path.node(1), p(100, 0));
    assert_eq!(path.node(2), p(100, 200));
}

#[test]
fn segment_shorter_than_spacing_gets_no_interpolation() {
    // 7 units at 1/10 points per unit: shorter than the 10-unit spacing,
    // so only the endpoint is appended and nothing divides by zero.
    let cps = vec![p(0, 0), p(7, 0)];
    let d = Density::new(1, 10).unwrap();
    let path = WaypointPath::build(&cps, d).unwrap();
    assert_eq!(path.len(), 2);
    assert_eq!(path.node(0), p(0, 0));
    assert_eq!(path.node(1), p(7, 0));
}

#[test]
fn segment_boundaries_are_duplicated() {
    // Interpolation at parameter 0 re-emits each segment's start, so the
    // junction between two segments appears twice.
    let cps = vec![p(0, 0), p(20, 0), p(40, 0)];
    let d = Density::new(1, 10).unwrap();
    let path = WaypointPath::build(&cps, d).unwrap();
    let expected = [
        p(0, 0),
        p(0, 0),
        p(10, 0),
        p(20, 0),
        p(20, 0),
        p(30, 0),
        p(40, 0),
    ];
    assert_eq!(path.len(), expected.len());
    for (k, want) in expected.iter().enumerate() {
        assert_eq!(path.node(k), *want);
    }
}

#[test]
fn diagonal_segment_interpolates_both_coordinates() {
    // 30-40-50 triangle: exact distance 50, five interpolated points at
    // 1/10 points per unit, offsets rounded down toward the start.
    let cps = vec![p(0, 0), p(30, 40)];
    let d = Density::new(1, 10).unwrap();
    let path = WaypointPath::build(&cps, d).unwrap();
    assert_eq!(path.len(), 7);
    assert_eq!(path.node(0), p(0, 0));
    assert_eq!(path.node(1), p(0, 0));
    assert_eq!(path.node(2), p(6, 8));
    assert_eq!(path.node(3), p(12, 16));
    assert_eq!(path.node(4), p(18, 24));
    assert_eq!(path.node(5), p(24, 32));
    assert_eq!(path.node(6), p(30, 40));
}

#[test]
fn density_rejects_zero_denominator_and_oversized_numerator() {
    assert!(Density::new(1, 0).is_none());
    assert!(Density::new(1025, 1).is_none());
    assert!(Density::new(1024, 1).is_some());
    assert!(Density::new(0, 1).is_some());
}

#[test]
fn negative_coordinates_interpolate_downward() {
    let cps = vec![p(0, 0), p(-100, 0)];
    let d = Density::new(1, 10).unwrap();
    let path = WaypointPath::build(&cps, d).unwrap();
    assert_eq!(path.len(), 12);
    assert_eq!(path.node(2), p(-10, 0));
    assert_eq!(path.node(11), p(-100, 0));
}
