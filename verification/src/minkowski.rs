//! The Minkowski difference of two shapes, exposed through one composed
//! support function: two convex sets intersect exactly when their Minkowski
//! difference contains the origin, which reduces a two-body overlap query to
//! a one-body origin-containment query.

use vstd::prelude::*;

use crate::math::Vec2;
use crate::{CollisionShape, DIFF_MAX, DIR_MAX};

verus! {

/// Ephemeral composite support over two shapes; it lives only for the
/// duration of one collision query.
pub struct Difference<'a> {
    pub shape1: &'a CollisionShape,
    pub shape2: &'a CollisionShape,
}

/// Support of the Minkowski difference:
/// `shape1.support(d) - shape2.support(-d)`.
pub open spec fn spec_diff_support(a: CollisionShape, b: CollisionShape, d: Vec2) -> Vec2 {
    a.spec_support(d).spec_sub(b.spec_support(d.spec_neg()))
}

impl Difference<'_> {
    pub open spec fn wf(self) -> bool {
        self.shape1.wf() && self.shape2.wf()
    }

    pub fn support(&self, direction: Vec2) -> (r: Vec2)
        requires
            self.wf(),
            direction.bounded(DIR_MAX as int),
        ensures
            r == spec_diff_support(*self.shape1, *self.shape2, direction),
            r.bounded(DIFF_MAX as int),
    {
        self.shape1.support(direction).sub(self.shape2.support(direction.neg()))
    }
}

} // verus!
