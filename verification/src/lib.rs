//! Narrow-phase 2D collision detection for convex shapes, built on the
//! GJK overlap test and the EPA contact generator.
//!
//! All geometry is carried in fixed-point coordinates: a coordinate of
//! `SCALE` quanta stands for one world unit. The central type is
//! [`CollisionShape`]: once a shape is created and positioned with a
//! [`Transform`], `is_collided_with` tests for overlap with another shape
//! and `contact_with` generates contact data for it.

pub mod bounds;
pub mod math;
pub mod epa;
pub mod gjk;
pub mod laws;
pub mod minkowski;
pub mod shapes;
pub mod transform;

pub use math::Vec2;
pub use transform::{Mat2, Transform};

use crate::shapes::{Circle, Rectangle, Segment, ShapeData, LOCAL_DIR_MAX};
use crate::transform::INV_MAX;
use vstd::prelude::*;

verus! {

/// Largest coordinate magnitude of a world-space support point: 2^48.
pub const SUPPORT_MAX: i128 = 0x1000000000000;

/// Largest coordinate magnitude of a Minkowski-difference point: 2^49.
pub const DIFF_MAX: i128 = 0x2000000000000;

/// Largest coordinate magnitude of a search direction: 2^50.
pub const DIR_MAX: i128 = 0x4000000000000;

/// Failures this library reports instead of panicking.
#[derive(Clone, Copy, Debug, PartialEq, Eq, Structural)]
pub enum Error {
    /// Raised at `Transform` construction when the linear part cannot be
    /// inverted within fixed-point range.
    NonInvertibleTransform,
    /// Raised when the contact generator exhausts its iteration cap without
    /// meeting the convergence tolerance.
    EpaNonConvergence,
}

/// Contact data between two overlapping shapes.
///
/// The normal is the direction in which the first shape should be moved to
/// resolve inter-penetration; the penetration says how far, in quanta.
#[derive(Clone, Copy, Debug, PartialEq, Eq, Structural)]
pub struct Contact {
    /// Contact normal, unit length in fixed point: it points toward the
    /// first shape.
    pub normal: Vec2,
    /// How deep the two shapes inter-penetrate, in quanta; never negative.
    pub penetration: i128,
}

/// A collision shape: shape data positioned in the world by a transform.
///
/// This is the entry point for collision detection.
#[derive(Clone, Copy, Debug, PartialEq, Eq, Structural)]
pub struct CollisionShape {
    pub transform: Transform,
    pub data: ShapeData,
}

impl CollisionShape {
    pub open spec fn wf(self) -> bool {
        self.transform.wf() && self.data.wf()
    }

    /// World-space support point along `d`: the direction is carried into
    /// local space through the cached inverse, the untransformed shape is
    /// queried there, and the resulting point is mapped back to the world.
    pub open spec fn spec_support(self, d: Vec2) -> Vec2 {
        let local_dir = self.transform.world_to_local.spec_apply(d);
        let local_sup = self.data.spec_support(local_dir);
        self.transform.local_to_world.spec_apply(local_sup).spec_add(self.transform.translation)
    }

    /// Returns the farthest point of the transformed shape along the given
    /// world-space direction.
    pub fn support(&self, direction: Vec2) -> (r: Vec2)
        requires
            self.wf(),
            direction.bounded(DIR_MAX as int),
        ensures
            r == self.spec_support(direction),
            r.bounded(SUPPORT_MAX as int),
    {
        let local_dir = self.transform.world_to_local.apply(
            direction,
            Ghost(INV_MAX as int),
            Ghost(DIR_MAX as int),
        );
        assert(local_dir.bounded(LOCAL_DIR_MAX as int));
        let local_sup = self.data.support(local_dir);
        let w = self.transform.local_to_world.apply(
            local_sup,
            Ghost(math::INPUT_MAX as int),
            Ghost(math::INPUT_MAX as int),
        );
        w.add(self.transform.translation)
    }

    /// The heuristic initial GJK search axis: the vector between the two
    /// shape positions.
    pub open spec fn spec_initial_axis(a: CollisionShape, b: CollisionShape) -> Vec2 {
        b.transform.translation.spec_sub(a.transform.translation)
    }

    /// Whether the two shapes overlap: the GJK run on their Minkowski
    /// difference encloses the origin.
    pub open spec fn spec_collides(a: CollisionShape, b: CollisionShape) -> bool {
        gjk::spec_gjk(a, b, CollisionShape::spec_initial_axis(a, b)) is Some
    }

    /// The contact the library reports for the pair: `None` when the shapes
    /// do not overlap (and when the contact generator does not converge,
    /// which `spec_epa` makes explicit).
    pub open spec fn spec_contact(a: CollisionShape, b: CollisionShape) -> Option<Contact> {
        match gjk::spec_gjk(a, b, CollisionShape::spec_initial_axis(a, b)) {
            Option::None => Option::None,
            Option::Some(s) => match epa::spec_epa(a, b, s) {
                Result::Ok(c) => Option::Some(c),
                Result::Err(_) => Option::None,
            },
        }
    }

    /// A shape from bare shape data, at the identity transform.
    pub fn from(data: ShapeData) -> (r: CollisionShape)
        requires
            data.wf(),
        ensures
            r == (CollisionShape { transform: Transform::spec_default(), data }),
            r.wf(),
    {
        CollisionShape { transform: Transform::default(), data }
    }

    /// Create a circle from its radius, in quanta.
    ///
    /// The origin is in the center of the circle.
    pub fn new_circle(radius: i128) -> (r: CollisionShape)
        requires
            0 <= radius <= math::INPUT_MAX,
        ensures
            r.data == ShapeData::Circle(Circle { radius }),
            r.transform == Transform::spec_default(),
            r.wf(),
    {
        CollisionShape { transform: Transform::default(), data: ShapeData::Circle(Circle::new(radius)) }
    }

    /// Create a rectangle from its width and height, in quanta.
    ///
    /// The origin is in the center of the rectangle.
    pub fn new_rectangle(width: i128, height: i128) -> (r: CollisionShape)
        requires
            0 <= width <= 2 * math::INPUT_MAX,
            0 <= height <= 2 * math::INPUT_MAX,
        ensures
            r.data == ShapeData::Rectangle(
                Rectangle {
                    half_extents: Vec2 { x: (width / 2) as i128, y: (height / 2) as i128 },
                },
            ),
            r.transform == Transform::spec_default(),
            r.wf(),
    {
        CollisionShape {
            transform: Transform::default(),
            data: ShapeData::Rectangle(Rectangle::new(width, height)),
        }
    }

    /// Create a segment from two points, in quanta.
    pub fn new_segment(p1: Vec2, p2: Vec2) -> (r: CollisionShape)
        requires
            p1.bounded(math::INPUT_MAX as int),
            p2.bounded(math::INPUT_MAX as int),
        ensures
            r.data == ShapeData::Segment(Segment { p1, p2 }),
            r.transform == Transform::spec_default(),
            r.wf(),
    {
        CollisionShape {
            transform: Transform::default(),
            data: ShapeData::Segment(Segment::new(p1, p2)),
        }
    }

    /// Set the transform (translation, rotation and scale), builder style.
    pub fn with_transform(self, transform: Transform) -> (r: CollisionShape)
        requires
            transform.wf(),
        ensures
            r == (CollisionShape { transform, ..self }),
    {
        CollisionShape { transform, data: self.data }
    }

    /// Set the transform (translation, rotation and scale).
    pub fn set_transform(&mut self, transform: Transform)
        requires
            transform.wf(),
        ensures
            *final(self) == (CollisionShape { transform, ..*old(self) }),
    {
        self.transform = transform;
    }

    /// Returns the shape data of the collider.
    pub fn shape_data(&self) -> (r: &ShapeData)
        ensures
            r == self.data,
    {
        &self.data
    }

    /// Returns true if the two convex shape geometries are overlapping.
    pub fn is_collided_with(&self, other: &CollisionShape) -> (r: bool)
        requires
            self.wf(),
            other.wf(),
        ensures
            r == CollisionShape::spec_collides(*self, *other),
    {
        let difference = minkowski::Difference { shape1: self, shape2: other };
        let initial_axis = other.transform.position().sub(self.transform.position());
        gjk::find_simplex_enclosing_origin(&difference, initial_axis).is_some()
    }

    /// Returns contact data with the other shape if they collide; `None` if
    /// they do not (or if the contact generator fails to converge, a
    /// condition `epa::generate_contact` reports as an explicit error).
    ///
    /// The normal of the contact data points toward this shape: if this
    /// shape is moved by `contact.normal * contact.penetration`, the two
    /// shapes no longer inter-penetrate.
    pub fn contact_with(&self, other: &CollisionShape) -> (r: Option<Contact>)
        requires
            self.wf(),
            other.wf(),
        ensures
            r == CollisionShape::spec_contact(*self, *other),
            !CollisionShape::spec_collides(*self, *other) ==> r is None,
            r matches Some(c) ==> CollisionShape::spec_collides(*self, *other) && c.penetration
                >= 0 && c.normal.bounded(math::SCALE as int),
    {
        let difference = minkowski::Difference { shape1: self, shape2: other };
        let initial_axis = other.transform.position().sub(self.transform.position());
        let simplex = match gjk::find_simplex_enclosing_origin(&difference, initial_axis) {
            Option::None => {
                return None;
            },
            Option::Some(s) => s,
        };
        match epa::generate_contact(&difference, simplex) {
            Result::Ok(contact) => Some(contact),
            Result::Err(_) => None,
        }
    }
}

} // verus!
