//! An axis-aligned bounding box, described by its center and half extents.

use vstd::prelude::*;

use crate::math::{div_trunc, tdiv, v2i, Vec2};
use crate::{CollisionShape, SUPPORT_MAX};

verus! {

/// Represents an axis-aligned bounding box.
#[derive(Clone, Copy, Debug, PartialEq, Eq, Structural)]
pub struct Bounds {
    pub half_extents: Vec2,
    pub position: Vec2,
}

impl Bounds {
    pub open spec fn wf(self) -> bool {
        self.half_extents.bounded(SUPPORT_MAX as int) && self.position.bounded(SUPPORT_MAX as int)
    }

    /// Creates a new bounding box from a translation and half extents.
    pub fn new(position: Vec2, half_extents: Vec2) -> (r: Bounds)
        requires
            position.bounded(SUPPORT_MAX as int),
            half_extents.bounded(SUPPORT_MAX as int),
        ensures
            r == (Bounds { half_extents, position }),
            r.wf(),
    {
        Bounds { half_extents, position }
    }

    /// The axis-aligned bounding box of a transformed shape, read off one
    /// support query per axis direction.
    pub fn from(shape: &CollisionShape) -> (r: Bounds)
        requires
            shape.wf(),
        ensures
            r == Bounds::spec_from(*shape),
            r.wf(),
    {
        let min_x = shape.support(Vec2::new(-crate::math::SCALE, 0)).x;
        let min_y = shape.support(Vec2::new(0, -crate::math::SCALE)).y;
        let max_x = shape.support(Vec2::new(crate::math::SCALE, 0)).x;
        let max_y = shape.support(Vec2::new(0, crate::math::SCALE)).y;
        Bounds {
            half_extents: Vec2 {
                x: div_trunc(max_x - min_x, 2),
                y: div_trunc(max_y - min_y, 2),
            },
            position: Vec2 {
                x: div_trunc(min_x + max_x, 2),
                y: div_trunc(min_y + max_y, 2),
            },
        }
    }

    /// The box `from` computes: extreme support coordinates along the four
    /// axis directions, folded into a center and half extents.
    pub open spec fn spec_from(shape: CollisionShape) -> Bounds {
        let min_x = shape.spec_support(v2i(-(crate::math::SCALE as int), 0)).x;
        let min_y = shape.spec_support(v2i(0, -(crate::math::SCALE as int))).y;
        let max_x = shape.spec_support(v2i(crate::math::SCALE as int, 0)).x;
        let max_y = shape.spec_support(v2i(0, crate::math::SCALE as int)).y;
        Bounds {
            half_extents: v2i(tdiv(max_x - min_x, 2), tdiv(max_y - min_y, 2)),
            position: v2i(tdiv(min_x + max_x, 2), tdiv(min_y + max_y, 2)),
        }
    }

    /// The center of the bounding box.
    pub fn center(&self) -> (r: Vec2)
        ensures
            r == self.position,
    {
        self.position
    }

    /// The extents of the bounding box: always half of its size.
    pub fn extends(&self) -> (r: Vec2)
        ensures
            r == self.half_extents,
    {
        self.half_extents
    }

    /// The minimal point of the box: the center minus the extents.
    pub fn min(&self) -> (r: Vec2)
        requires
            self.wf(),
        ensures
            r == self.position.spec_sub(self.half_extents),
    {
        self.position.sub(self.half_extents)
    }

    /// The maximal point of the box: the center plus the extents.
    pub fn max(&self) -> (r: Vec2)
        requires
            self.wf(),
        ensures
            r == self.position.spec_add(self.half_extents),
    {
        self.position.add(self.half_extents)
    }

    /// The total size of the box: always twice the extents.
    pub fn size(&self) -> (r: Vec2)
        requires
            self.wf(),
        ensures
            r == self.half_extents.spec_add(self.half_extents),
    {
        self.half_extents.add(self.half_extents)
    }

    /// Expands the bounds, increasing its size by `amount` along each side.
    pub fn expand(&self, amount: Vec2) -> (r: Bounds)
        requires
            self.wf(),
            amount.bounded(SUPPORT_MAX as int),
        ensures
            r == (Bounds {
                half_extents: self.half_extents.spec_add(amount),
                position: self.position,
            }),
    {
        Bounds { half_extents: self.half_extents.add(amount), position: self.position }
    }
}

} // verus!
