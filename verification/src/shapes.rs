//! Shape data that can be used to build a `CollisionShape`: every shape is
//! known to the collision engines only through its support function, the map
//! from a direction to the farthest shape point along it.

use vstd::prelude::*;

use crate::math::{
    div_trunc, lemma_mul_abs_bound, lemma_tdiv_abs_le, spec_normalize, tdiv, v2i, Vec2, INPUT_MAX,
    SCALE,
};

verus! {

/// Largest direction magnitude a local support query accepts: 2^80.
pub const LOCAL_DIR_MAX: i128 = 0x100000000000000000000;

/// Geometric information about a shape.
#[derive(Clone, Copy, Debug, PartialEq, Eq, Structural)]
pub enum ShapeData {
    /// A circle around the local origin.
    Circle(Circle),
    /// An axis-aligned rectangle around the local origin.
    Rectangle(Rectangle),
    /// A segment between two local points.
    Segment(Segment),
}

/// A circle, described by its radius.
#[derive(Clone, Copy, Debug, PartialEq, Eq, Structural)]
pub struct Circle {
    pub radius: i128,
}

/// A rectangle, described by its half extents.
#[derive(Clone, Copy, Debug, PartialEq, Eq, Structural)]
pub struct Rectangle {
    pub half_extents: Vec2,
}

/// A segment, described by its two end points.
#[derive(Clone, Copy, Debug, PartialEq, Eq, Structural)]
pub struct Segment {
    pub p1: Vec2,
    pub p2: Vec2,
}

impl Circle {
    pub open spec fn wf(self) -> bool {
        0 <= self.radius <= INPUT_MAX
    }

    /// The farthest circle point along `d`: the unit vector of `d` scaled by
    /// the radius, or the point at `radius` along the x-axis when `d` is the
    /// zero vector (the defined fallback: support never fails).
    pub open spec fn spec_support(self, d: Vec2) -> Vec2 {
        match spec_normalize(d) {
            Option::None => Vec2 { x: self.radius, y: 0 },
            Option::Some(n) => v2i(
                tdiv(self.radius * n.x, SCALE as int),
                tdiv(self.radius * n.y, SCALE as int),
            ),
        }
    }

    /// Create a circle from its radius.
    pub fn new(radius: i128) -> (r: Circle)
        requires
            0 <= radius <= INPUT_MAX,
        ensures
            r == (Circle { radius }),
            r.wf(),
    {
        Circle { radius }
    }

    /// Returns the radius of the circle.
    pub fn radius(&self) -> (r: i128)
        ensures
            r == self.radius,
    {
        self.radius
    }

    pub fn support(&self, direction: Vec2) -> (r: Vec2)
        requires
            self.wf(),
            direction.bounded(LOCAL_DIR_MAX as int),
        ensures
            r == self.spec_support(direction),
            r.bounded(INPUT_MAX as int),
    {
        match direction.normalize() {
            Option::None => Vec2 { x: self.radius, y: 0 },
            Option::Some(n) => {
                proof {
                    lemma_mul_abs_bound(
                        self.radius as int,
                        n.x as int,
                        INPUT_MAX as int,
                        SCALE as int,
                    );
                    lemma_mul_abs_bound(
                        self.radius as int,
                        n.y as int,
                        INPUT_MAX as int,
                        SCALE as int,
                    );
                    lemma_tdiv_abs_le(self.radius * n.x, SCALE as int, INPUT_MAX as int);
                    lemma_tdiv_abs_le(self.radius * n.y, SCALE as int, INPUT_MAX as int);
                }
                Vec2 {
                    x: div_trunc(self.radius * n.x, SCALE),
                    y: div_trunc(self.radius * n.y, SCALE),
                }
            },
        }
    }
}

impl Rectangle {
    pub open spec fn wf(self) -> bool {
        0 <= self.half_extents.x <= INPUT_MAX && 0 <= self.half_extents.y <= INPUT_MAX
    }

    /// The farthest rectangle point along `d`: the corner whose coordinate
    /// signs follow the direction (nonnegative components pick the positive
    /// side; a zero component counts as nonnegative).
    pub open spec fn spec_support(self, d: Vec2) -> Vec2 {
        Vec2 {
            x: if d.x < 0 {
                (-self.half_extents.x) as i128
            } else {
                self.half_extents.x
            },
            y: if d.y < 0 {
                (-self.half_extents.y) as i128
            } else {
                self.half_extents.y
            },
        }
    }

    /// Creates a rectangle from its width and height; the origin sits in the
    /// center, so the stored half extents are half of each.
    pub fn new(width: i128, height: i128) -> (r: Rectangle)
        requires
            0 <= width <= 2 * INPUT_MAX,
            0 <= height <= 2 * INPUT_MAX,
        ensures
            r == (Rectangle {
                half_extents: Vec2 { x: (width / 2) as i128, y: (height / 2) as i128 },
            }),
            r.wf(),
    {
        Rectangle { half_extents: Vec2 { x: width / 2, y: height / 2 } }
    }

    /// Returns the half width and height of the rectangle.
    pub fn half_extents(&self) -> (r: Vec2)
        ensures
            r == self.half_extents,
    {
        self.half_extents
    }

    pub fn support(&self, direction: Vec2) -> (r: Vec2)
        requires
            self.wf(),
        ensures
            r == self.spec_support(direction),
            r.bounded(INPUT_MAX as int),
    {
        let x = if direction.x < 0 {
            -self.half_extents.x
        } else {
            self.half_extents.x
        };
        let y = if direction.y < 0 {
            -self.half_extents.y
        } else {
            self.half_extents.y
        };
        Vec2 { x, y }
    }
}

impl Segment {
    pub open spec fn wf(self) -> bool {
        self.p1.bounded(INPUT_MAX as int) && self.p2.bounded(INPUT_MAX as int)
    }

    /// The end point farther along `d`; ties go to the second point.
    pub open spec fn spec_support(self, d: Vec2) -> Vec2 {
        if self.p1.spec_dot(d) > self.p2.spec_dot(d) {
            self.p1
        } else {
            self.p2
        }
    }

    /// Returns a new segment between the two points.
    pub fn new(p1: Vec2, p2: Vec2) -> (r: Segment)
        requires
            p1.bounded(INPUT_MAX as int),
            p2.bounded(INPUT_MAX as int),
        ensures
            r == (Segment { p1, p2 }),
            r.wf(),
    {
        Segment { p1, p2 }
    }

    pub fn support(&self, direction: Vec2) -> (r: Vec2)
        requires
            self.wf(),
            direction.bounded(LOCAL_DIR_MAX as int),
        ensures
            r == self.spec_support(direction),
            r.bounded(INPUT_MAX as int),
    {
        proof {
            lemma_mul_abs_bound(
                self.p1.x as int,
                direction.x as int,
                INPUT_MAX as int,
                LOCAL_DIR_MAX as int,
            );
            lemma_mul_abs_bound(
                self.p1.y as int,
                direction.y as int,
                INPUT_MAX as int,
                LOCAL_DIR_MAX as int,
            );
            lemma_mul_abs_bound(
                self.p2.x as int,
                direction.x as int,
                INPUT_MAX as int,
                LOCAL_DIR_MAX as int,
            );
            lemma_mul_abs_bound(
                self.p2.y as int,
                direction.y as int,
                INPUT_MAX as int,
                LOCAL_DIR_MAX as int,
            );
        }
        if self.p1.dot(direction) > self.p2.dot(direction) {
            self.p1
        } else {
            self.p2
        }
    }
}

impl ShapeData {
    pub open spec fn wf(self) -> bool {
        match self {
            ShapeData::Circle(c) => c.wf(),
            ShapeData::Rectangle(r) => r.wf(),
            ShapeData::Segment(s) => s.wf(),
        }
    }

    pub open spec fn spec_support(self, d: Vec2) -> Vec2 {
        match self {
            ShapeData::Circle(c) => c.spec_support(d),
            ShapeData::Rectangle(r) => r.spec_support(d),
            ShapeData::Segment(s) => s.spec_support(d),
        }
    }

    pub fn support(&self, direction: Vec2) -> (r: Vec2)
        requires
            self.wf(),
            direction.bounded(LOCAL_DIR_MAX as int),
        ensures
            r == self.spec_support(direction),
            r.bounded(INPUT_MAX as int),
    {
        match self {
            ShapeData::Circle(circle) => circle.support(direction),
            ShapeData::Rectangle(rect) => rect.support(direction),
            ShapeData::Segment(segment) => segment.support(direction),
        }
    }
}

} // verus!
