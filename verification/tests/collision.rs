//! End-to-end collision queries: overlap tests, contact generation, and the
//! behavioral properties the library promises.

use impacted::math::SCALE;
use impacted::{CollisionShape, Mat2, Transform, Vec2};

fn q(x: f64) -> i128 {
    (x * SCALE as f64).round() as i128
}

fn circle_shape(radius: f64) -> CollisionShape {
    CollisionShape::new_circle(q(radius))
}

fn rectangle_shape(width: f64, height: f64) -> CollisionShape {
    CollisionShape::new_rectangle(q(width), q(height))
}

fn at(x: f64, y: f64) -> Transform {
    Transform::from_translation(Vec2::new(q(x), q(y)))
}

fn rotated_at(angle: f64, x: f64, y: f64) -> Transform {
    let (sin, cos) = angle.sin_cos();
    let matrix = Mat2 { m11: q(cos), m12: q(-sin), m21: q(sin), m22: q(cos) };
    Transform::new(matrix, Vec2::new(q(x), q(y))).expect("rotations are invertible")
}

fn assert_near(value: i128, expected: f64, tolerance: f64) {
    let delta = (value - q(expected)).abs();
    assert!(
        delta <= q(tolerance),
        "value {value} is not within {tolerance} of {expected}"
    );
}

#[test]
fn touching_circles_collide() {
    let a = circle_shape(1.0);
    let b = circle_shape(1.0).with_transform(at(1.95, 0.0));
    assert!(a.is_collided_with(&b));
    let contact = a.contact_with(&b).expect("overlapping shapes have a contact");
    assert_near(contact.penetration, 0.05, 0.001);
    assert_near(contact.normal.x, -1.0, 0.015);
    assert_near(contact.normal.y, 0.0, 0.015);
}

#[test]
fn separated_circles_do_not_collide() {
    let a = circle_shape(1.0);
    let b = circle_shape(1.0).with_transform(at(2.1, 0.0));
    assert!(!a.is_collided_with(&b));
    assert_eq!(a.contact_with(&b), None);
}

#[test]
fn touching_rectangles_collide() {
    let a = rectangle_shape(1.0, 1.0);
    let b = rectangle_shape(1.0, 1.0).with_transform(at(-0.95, 0.0));
    assert!(a.is_collided_with(&b));
    let contact = a.contact_with(&b).expect("overlapping shapes have a contact");
    assert_near(contact.penetration, 0.05, 0.001);
    assert_near(contact.normal.x, 1.0, 0.001);
    assert_near(contact.normal.y, 0.0, 0.001);
}

#[test]
fn rotated_rectangles_collide() {
    let angle = std::f64::consts::FRAC_PI_4 + 0.1;
    let a = rectangle_shape(2.0, 2.0);
    let b = rectangle_shape(2.0, 2.0).with_transform(rotated_at(angle, 2.3, 0.0));
    assert!(a.is_collided_with(&b));
    let contact = a.contact_with(&b).expect("overlapping shapes have a contact");
    assert_near(contact.normal.x, -1.0, 0.001);
    assert_near(contact.normal.y, 0.0, 0.001);
}

#[test]
fn rotated_rectangle_penetration() {
    let angle = std::f64::consts::FRAC_PI_4;
    let a = rectangle_shape(2.0, 2.0);
    let b = rectangle_shape(2.0, 2.0).with_transform(rotated_at(angle, 2.3, 0.0));
    let contact = a.contact_with(&b).expect("overlapping shapes have a contact");
    assert_near(contact.penetration, 0.1142, 0.001);
}

#[test]
fn circle_collides_with_segment() {
    let a = circle_shape(1.0);
    let b = CollisionShape::new_segment(Vec2::new(0, 0), Vec2::new(SCALE, 0));
    assert!(a.is_collided_with(&b));
}

#[test]
fn concentric_circles_collide() {
    let a = circle_shape(1.0);
    let b = circle_shape(1.0).with_transform(rotated_at(2.0, 0.0, 0.0));
    assert!(a.is_collided_with(&b));
}

#[test]
fn circle_collides_with_rectangle() {
    let a = circle_shape(1.0);
    let b = rectangle_shape(2.0, 2.0).with_transform(at(1.9, 0.0));
    assert!(a.is_collided_with(&b));
    let rotated = rectangle_shape(2.0, 2.0)
        .with_transform(rotated_at(std::f64::consts::FRAC_PI_4, 2.3, 0.0));
    assert!(a.is_collided_with(&rotated));
}

#[test]
fn circle_misses_far_shapes() {
    let a = circle_shape(1.0);
    assert!(!a.is_collided_with(&circle_shape(1.0).with_transform(at(0.0, 2.1))));
    assert!(!a.is_collided_with(&rectangle_shape(2.0, 2.0).with_transform(at(2.1, 0.0))));
    assert!(!a.is_collided_with(&rectangle_shape(2.0, 2.0).with_transform(
        rotated_at(std::f64::consts::FRAC_PI_4, 2.5, 0.0),
    )));
    assert!(!a.is_collided_with(&CollisionShape::new_segment(
        Vec2::new(2 * SCALE, 0),
        Vec2::new(3 * SCALE, 0),
    )));
}

#[test]
fn collision_test_is_symmetric() {
    let shapes = vec![
        circle_shape(1.0),
        circle_shape(1.0).with_transform(at(1.95, 0.0)),
        circle_shape(1.0).with_transform(at(2.1, 0.0)),
        rectangle_shape(2.0, 2.0).with_transform(rotated_at(0.3, 1.5, -0.5)),
        CollisionShape::new_segment(Vec2::new(0, 0), Vec2::new(SCALE, 0)),
    ];
    for a in &shapes {
        for b in &shapes {
            assert_eq!(a.is_collided_with(b), b.is_collided_with(a));
        }
    }
}

#[test]
fn contact_agrees_with_collision_test() {
    let shapes = vec![
        circle_shape(1.0),
        circle_shape(1.0).with_transform(at(1.95, 0.0)),
        circle_shape(1.0).with_transform(at(2.1, 0.0)),
        rectangle_shape(1.0, 1.0).with_transform(at(-0.95, 0.0)),
        rectangle_shape(2.0, 2.0).with_transform(rotated_at(0.3, 1.5, -0.5)),
    ];
    for a in &shapes {
        for b in &shapes {
            assert_eq!(a.contact_with(b).is_none(), !a.is_collided_with(b));
        }
    }
}

#[test]
fn contact_normal_is_unit_length() {
    let pairs = vec![
        (circle_shape(1.0), circle_shape(1.0).with_transform(at(1.95, 0.0))),
        (rectangle_shape(1.0, 1.0), rectangle_shape(1.0, 1.0).with_transform(at(-0.95, 0.0))),
        (
            rectangle_shape(2.0, 2.0),
            rectangle_shape(2.0, 2.0).with_transform(rotated_at(0.9, 2.3, 0.0)),
        ),
    ];
    for (a, b) in &pairs {
        let contact = a.contact_with(b).expect("overlapping shapes have a contact");
        let squared = contact.normal.magnitude_squared();
        assert!(SCALE * SCALE - 4 * SCALE - 2 <= squared && squared <= SCALE * SCALE);
    }
}

#[test]
fn resolving_the_penetration_separates_the_shapes() {
    let pairs = vec![
        (circle_shape(1.0), circle_shape(1.0).with_transform(at(1.95, 0.0))),
        (rectangle_shape(1.0, 1.0), rectangle_shape(1.0, 1.0).with_transform(at(-0.95, 0.0))),
    ];
    for (a, b) in &pairs {
        let contact = a.contact_with(b).expect("overlapping shapes have a contact");
        let offset = contact.normal.mul(contact.penetration).div(SCALE);
        let moved = a.clone().with_transform(Transform::from_translation(offset));
        if let Some(after) = moved.contact_with(b) {
            // A boundary touch may remain, with near-zero penetration.
            assert!(after.penetration <= q(0.001), "{}", after.penetration);
        }
    }
}

#[test]
fn contact_penetration_of_half_overlap() {
    let a = rectangle_shape(1.0, 1.0);
    let b = rectangle_shape(1.0, 1.0).with_transform(at(-0.5, 0.0));
    let contact = a.contact_with(&b).expect("overlapping shapes have a contact");
    assert_near(contact.penetration, 0.5, 0.001);
}

#[test]
fn deep_circle_overlap_penetration() {
    let a = circle_shape(1.0);
    let b = circle_shape(1.0).with_transform(at(0.0, 1.0));
    let contact = a.contact_with(&b).expect("overlapping shapes have a contact");
    assert_near(contact.penetration, 1.0, 0.002);
}
