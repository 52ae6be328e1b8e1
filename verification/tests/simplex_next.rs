//! The GJK simplex state machine: next-direction choices and enclosure
//! detection.

use impacted::gjk::Simplex;
use impacted::math::SCALE;
use impacted::Vec2;

fn v(x: i128, y: i128) -> Vec2 {
    Vec2::new(x * SCALE, y * SCALE)
}

#[test]
fn gjk_point() {
    let mut simplex = Simplex::new(v(1, 0));
    assert_eq!(simplex.next(), Some(v(-1, 0)));
    assert_eq!(simplex, Simplex::new(v(1, 0)));
}

#[test]
fn gjk_line() {
    let mut simplex = Simplex::Line(v(0, 1), v(1, 1));
    assert_eq!(simplex.next(), Some(v(0, -1)));
    assert_eq!(simplex, Simplex::Line(v(0, 1), v(1, 1)));
}

#[test]
fn gjk_triangle() {
    let mut simplex = Simplex::Triangle(v(0, 1), v(1, 1), v(1, 0));
    assert_eq!(
        simplex.next().map(|d| d.normalize()),
        Some(v(-1, -1).normalize())
    );
}

#[test]
fn simplex_point() {
    let mut simplex = Simplex::new(v(1, 0));
    assert_eq!(simplex.next(), Some(v(-1, 0)));
    assert_eq!(simplex, Simplex::new(v(1, 0)));
}

#[test]
fn simplex_triangle() {
    let mut simplex = Simplex::Triangle(v(0, 1), v(1, 1), v(1, 0));
    assert_eq!(
        simplex.next().map(|d| d.normalize()),
        Some(v(-1, -1).normalize())
    );
}

#[test]
fn point_on_origin_is_enclosed() {
    let mut simplex = Simplex::new(Vec2::new(0, 0));
    assert_eq!(simplex.next(), None);
}

#[test]
fn line_through_origin_is_enclosed() {
    let mut simplex = Simplex::Line(v(-1, 0), v(1, 0));
    assert_eq!(simplex.next(), None);
    assert_eq!(simplex, Simplex::Line(v(-1, 0), v(1, 0)));
    assert_eq!(Simplex::Line(v(1, 0), v(0, 0)).next(), None);
    assert_eq!(Simplex::Line(v(0, 0), v(0, 1)).next(), None);
}

#[test]
fn triangle_around_origin_is_enclosed() {
    let mut simplex = Simplex::Triangle(v(-1, -1), v(1, -1), v(0, 1));
    assert_eq!(simplex.next(), None);
    assert_eq!(simplex, Simplex::Triangle(v(-1, -1), v(1, -1), v(0, 1)));
    assert_eq!(Simplex::Triangle(v(1, 0), v(0, 1), v(0, 0)).next(), None);
}

#[test]
fn simplex_insert_grows_point_to_line_to_triangle() {
    let mut simplex = Simplex::new(v(1, 0));
    simplex.insert(v(0, 1));
    assert_eq!(simplex, Simplex::Line(v(1, 0), v(0, 1)));
    simplex.insert(v(-1, -1));
    assert_eq!(simplex, Simplex::Triangle(v(1, 0), v(0, 1), v(-1, -1)));
}
