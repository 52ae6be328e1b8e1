//! Transform construction and the support query through a transform.

use impacted::math::SCALE;
use impacted::{CollisionShape, Error, Mat2, Transform, Vec2};

fn q(x: f64) -> i128 {
    (x * SCALE as f64).round() as i128
}

fn scale_angle_matrix(scale: f64, angle: f64) -> Mat2 {
    let (sin, cos) = angle.sin_cos();
    Mat2 {
        m11: q(scale * cos),
        m12: q(-scale * sin),
        m21: q(scale * sin),
        m22: q(scale * cos),
    }
}

fn scale_angle_translation(scale: f64, angle: f64, tx: f64, ty: f64) -> Transform {
    Transform::new(scale_angle_matrix(scale, angle), Vec2::new(q(tx), q(ty)))
        .expect("the linear part is invertible")
}

#[test]
fn transform_transformed_shape_support() {
    // Size doubled, rotated by 45 degrees, translated.
    let transform = scale_angle_translation(2.0, std::f64::consts::FRAC_PI_4, 1.0, 2.0);
    let support_point = CollisionShape::new_rectangle(2 * SCALE, 2 * SCALE)
        .with_transform(transform)
        .support(Vec2::new(SCALE, 0));
    assert!(q(3.5) < support_point.x && support_point.x < q(4.0));
    assert_eq!(support_point.y, 2 * SCALE);
}

#[test]
fn mod_transformed_shape_support() {
    let transform = scale_angle_translation(2.0, std::f64::consts::FRAC_PI_4, 1.0, 2.0);
    let support_point = CollisionShape::new_rectangle(2 * SCALE, 2 * SCALE)
        .with_transform(transform)
        .support(Vec2::new(SCALE, 0));
    assert!((q(3.5)..q(4.0)).contains(&support_point.x));
    assert_eq!(support_point.y, 2 * SCALE);
}

#[test]
fn singular_matrix_is_rejected() {
    let singular = Mat2 { m11: SCALE, m12: 0, m21: SCALE, m22: 0 };
    assert_eq!(
        Transform::new(singular, Vec2::new(0, 0)),
        Err(Error::NonInvertibleTransform)
    );
}

#[test]
fn near_singular_matrix_is_rejected() {
    // The determinant is -1 quantum squared: inverting it would overflow the
    // fixed-point range.
    let n: i128 = 0x80000000;
    let near_singular = Mat2 { m11: n, m12: n - 1, m21: n - 1, m22: n - 2 };
    assert_eq!(
        Transform::new(near_singular, Vec2::new(0, 0)),
        Err(Error::NonInvertibleTransform)
    );
}

#[test]
fn identity_transform_keeps_the_support() {
    let shape = CollisionShape::new_rectangle(2 * SCALE, 2 * SCALE)
        .with_transform(Transform::default());
    assert_eq!(shape.support(Vec2::new(1, 1)), Vec2::new(SCALE, SCALE));
}

#[test]
fn translation_moves_the_support() {
    let transform = Transform::from_translation(Vec2::new(3 * SCALE, -SCALE));
    assert_eq!(transform.position(), Vec2::new(3 * SCALE, -SCALE));
    let shape = CollisionShape::new_circle(SCALE).with_transform(transform);
    assert_eq!(shape.support(Vec2::new(SCALE, 0)), Vec2::new(4 * SCALE, -SCALE));
}
