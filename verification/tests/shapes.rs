//! Support-function behavior of the shape primitives.

use impacted::math::SCALE;
use impacted::shapes::{Circle, Rectangle, Segment};
use impacted::Vec2;

fn v(x: i128, y: i128) -> Vec2 {
    Vec2::new(x * SCALE, y * SCALE)
}

#[test]
fn circle() {
    assert_eq!(Circle::new(2 * SCALE).support(v(1, 0)), v(2, 0));
    assert_eq!(Circle::new(3 * SCALE).support(v(0, 1)), v(0, 3));
    assert_eq!(Circle::new(0).support(v(1, 0)), v(0, 0));
}

#[test]
fn circle_with_zero_direction() {
    // The defined fallback: a point at distance `radius` on the x-axis.
    let support = Circle::new(SCALE).support(Vec2::new(0, 0));
    assert_eq!(support, v(1, 0));
    assert_eq!(support.magnitude_squared(), SCALE * SCALE);
}

#[test]
fn circle_radius() {
    assert_eq!(Circle::new(3 * SCALE).radius(), 3 * SCALE);
}

#[test]
fn rectangle() {
    let rectangle = Rectangle::new(6 * SCALE, 4 * SCALE);
    assert_eq!(rectangle.support(Vec2::new(1, 1)), v(3, 2));
    assert_eq!(rectangle.support(Vec2::new(-1, 1)), v(-3, 2));
    assert_eq!(rectangle.support(Vec2::new(1, -1)), v(3, -2));
    assert_eq!(rectangle.support(Vec2::new(-1, -1)), v(-3, -2));
}

#[test]
fn rectangle_with_zero_direction() {
    // A degenerate direction still produces a finite corner.
    let support = Rectangle::new(2 * SCALE, 2 * SCALE).support(Vec2::new(0, 0));
    assert_eq!(support, v(1, 1));
    assert_eq!(support.magnitude_squared(), 2 * SCALE * SCALE);
}

#[test]
fn rectangle_half_extents() {
    assert_eq!(Rectangle::new(6 * SCALE, 4 * SCALE).half_extents(), v(3, 2));
}

#[test]
fn shapes_line() {
    let segment = Segment::new(v(0, 0), v(2, 0));
    assert_eq!(segment.support(v(1, 0)), v(2, 0));
    assert_eq!(segment.support(v(2, 0)), v(2, 0));
    assert_eq!(segment.support(v(-1, 0)), v(0, 0));
    assert_eq!(segment.support(v(-2, 0)), v(0, 0));
}
