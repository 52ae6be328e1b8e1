//! The EPA working polygon: winding normalization, closest-edge selection
//! and outward insertion.

use impacted::epa::Simplex;
use impacted::gjk;
use impacted::math::SCALE;
use impacted::Vec2;

fn v(x: i128, y: i128) -> Vec2 {
    Vec2::new(x * SCALE, y * SCALE)
}

fn points_of(simplex: &Simplex) -> Vec<Vec2> {
    let mut points = Vec::new();
    let mut i: usize = 0;
    while i < simplex.len() {
        points.push(simplex.point_at(i));
        i += 1;
    }
    points
}

#[test]
fn epa_starts_with_left_winding() {
    let expected = vec![v(0, 0), v(1, 0), v(0, 1)];
    let simplex1 = Simplex::from(gjk::Simplex::Triangle(v(0, 0), v(1, 0), v(0, 1)));
    assert_eq!(points_of(&simplex1), expected);
    let simplex2 = Simplex::from(gjk::Simplex::Triangle(v(0, 0), v(0, 1), v(1, 0)));
    assert_eq!(points_of(&simplex2), expected);
}

#[test]
fn epa_next_returns_feature_index_and_outward_direction() {
    let simplex = Simplex::from_points(&vec![v(0, 9), v(5, -1), v(-5, -1)]);
    let edge = simplex.closest_edge();
    assert_eq!(edge.index, 1);
    assert_eq!(edge.distance, SCALE);
    assert_eq!(edge.normal, v(0, -1));
}

#[test]
fn epa_insert_point() {
    let mut simplex = Simplex::from_points(&vec![v(0, 2), v(1, -1), v(-1, -1)]);
    simplex.insert(1, v(0, -1));
    assert_eq!(
        points_of(&simplex),
        vec![v(0, 2), v(1, -1), v(0, -1), v(-1, -1)]
    );
}

#[test]
fn edge_normal_points_away_from_origin() {
    // Whatever the winding, the selected normal keeps a nonnegative origin
    // distance.
    let clockwise = Simplex::from_points(&vec![v(0, 9), v(5, -1), v(-5, -1)]);
    let counter_clockwise = Simplex::from_points(&vec![v(0, 9), v(-5, -1), v(5, -1)]);
    assert!(clockwise.closest_edge().distance >= 0);
    assert!(counter_clockwise.closest_edge().distance >= 0);
    assert_eq!(counter_clockwise.closest_edge().normal, v(0, -1));
}
