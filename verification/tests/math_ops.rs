//! The fixed-point vector algebra underneath the collision engines.

use impacted::bounds::Bounds;
use impacted::math::{div_trunc, isqrt, SCALE};
use impacted::Vec2;

#[test]
fn dot_products() {
    assert_eq!(Vec2::new(0, 0).dot(Vec2::new(0, 0)), 0);
    assert_eq!(Vec2::new(1, 0).dot(Vec2::new(2, 0)), 2);
    assert_eq!(Vec2::new(2, 3).dot(Vec2::new(3, 4)), 18);
    assert_eq!(Vec2::new(2, 3).dot(Vec2::new(-3, 4)), 6);
}

#[test]
fn test_magnitude_squared() {
    assert_eq!(Vec2::new(0, 0).magnitude_squared(), 0);
    assert_eq!(Vec2::new(2, 3).magnitude_squared(), 13);
    assert_eq!(Vec2::new(3, 4).magnitude_squared(), 25);
    assert_eq!(Vec2::new(4, 3).magnitude_squared(), 25);
}

#[test]
fn perp_rotates_x_axis_onto_y_axis() {
    assert_eq!(Vec2::new(1, 0).perp(), Vec2::new(0, 1));
    assert_eq!(Vec2::new(0, 1).perp(), Vec2::new(-1, 0));
    assert_eq!(Vec2::new(3, -2).cross(Vec2::new(1, 4)), 14);
}

#[test]
fn scalar_multiplication_and_division() {
    assert_eq!(Vec2::new(2, -3).mul(4), Vec2::new(8, -12));
    assert_eq!(Vec2::new(9, -9).div(2), Vec2::new(4, -4));
}

#[test]
fn division_rounds_toward_zero() {
    assert_eq!(div_trunc(7, 2), 3);
    assert_eq!(div_trunc(-7, 2), -3);
    assert_eq!(div_trunc(7, -2), -3);
    assert_eq!(div_trunc(-7, -2), 3);
}

#[test]
fn isqrt_values() {
    assert_eq!(isqrt(0), 0);
    assert_eq!(isqrt(1), 1);
    assert_eq!(isqrt(2), 1);
    assert_eq!(isqrt(15), 3);
    assert_eq!(isqrt(16), 4);
    assert_eq!(isqrt(SCALE * SCALE), SCALE);
}

#[test]
fn normalize_three_four_five() {
    // A 3-4-5 triangle normalizes exactly, up to truncation of 0.6 and 0.8.
    let n = Vec2::new(3 * SCALE, 4 * SCALE).normalize().unwrap();
    assert_eq!(n, Vec2::new(39321, 52428));
}

#[test]
fn normalize_zero_returns_none() {
    assert_eq!(Vec2::new(0, 0).normalize(), None);
}

#[test]
fn normalize_is_unit_within_tolerance() {
    let samples = vec![
        Vec2::new(1, 0),
        Vec2::new(1, 1),
        Vec2::new(-5, 12),
        Vec2::new(3 * SCALE, -4 * SCALE),
        Vec2::new(123456789, -987654321),
    ];
    for v in samples {
        let n = v.normalize().unwrap();
        let squared = n.magnitude_squared();
        assert!(
            SCALE * SCALE - 4 * SCALE - 2 <= squared && squared <= SCALE * SCALE,
            "{squared}"
        );
    }
}

#[test]
fn from_rectangle() {
    let shape = impacted::CollisionShape::new_rectangle(SCALE, 2 * SCALE);
    let bounds = Bounds::from(&shape);
    assert_eq!(bounds.min(), Vec2::new(-SCALE / 2, -SCALE));
    assert_eq!(bounds.max(), Vec2::new(SCALE / 2, SCALE));
}

#[test]
fn from_circle() {
    let shape = impacted::CollisionShape::new_circle(SCALE);
    let bounds = Bounds::from(&shape);
    assert_eq!(bounds.min(), Vec2::new(-SCALE, -SCALE));
    assert_eq!(bounds.max(), Vec2::new(SCALE, SCALE));
}

#[test]
fn bounds_accessors() {
    let bounds = Bounds::new(Vec2::new(10, 20), Vec2::new(3, 4));
    assert_eq!(bounds.center(), Vec2::new(10, 20));
    assert_eq!(bounds.extends(), Vec2::new(3, 4));
    assert_eq!(bounds.min(), Vec2::new(7, 16));
    assert_eq!(bounds.max(), Vec2::new(13, 24));
    assert_eq!(bounds.size(), Vec2::new(6, 8));
    let expanded = bounds.expand(Vec2::new(1, 2));
    assert_eq!(expanded.extends(), Vec2::new(4, 6));
    assert_eq!(expanded.center(), Vec2::new(10, 20));
}
