//! Placement of a shape in the world: an invertible linear map plus a
//! translation, with the inverse of the linear part cached so that every
//! support query can carry a world direction into shape-local space.

use vstd::prelude::*;

use crate::math::{
    abs128, abs_int, div_trunc, lemma_mul_abs_bound, lemma_tdiv_abs, lemma_tdiv_abs_lt, tdiv, v2i,
    Vec2, INPUT_MAX, SCALE,
};
use crate::Error;

verus! {

/// Largest magnitude allowed for an entry of the cached inverse: 2^44.
/// A map whose inverse falls outside this range is treated as
/// non-invertible: it is too close to singular for fixed-point precision.
pub const INV_MAX: i128 = 0x100000000000;

/// A 2x2 matrix in fixed point, row major: it sends `(x, y)` to
/// `(m11 x + m12 y, m21 x + m22 y)`, each component carried back to `SCALE`.
#[derive(Clone, Copy, Debug, PartialEq, Eq, Structural)]
pub struct Mat2 {
    pub m11: i128,
    pub m12: i128,
    pub m21: i128,
    pub m22: i128,
}

impl Mat2 {
    pub open spec fn bounded(self, b: int) -> bool {
        abs_int(self.m11 as int) <= b && abs_int(self.m12 as int) <= b && abs_int(self.m21 as int)
            <= b && abs_int(self.m22 as int) <= b
    }

    /// Determinant, carried at `SCALE * SCALE`.
    pub open spec fn spec_det(self) -> int {
        self.m11 * self.m22 - self.m12 * self.m21
    }

    /// The matrix applied to a vector, rounding each component toward zero.
    pub open spec fn spec_apply(self, v: Vec2) -> Vec2 {
        v2i(
            tdiv(self.m11 * v.x + self.m12 * v.y, SCALE as int),
            tdiv(self.m21 * v.x + self.m22 * v.y, SCALE as int),
        )
    }

    /// The fixed-point inverse: adjugate entries scaled by
    /// `SCALE * SCALE` over the determinant.
    pub open spec fn spec_inverse(self) -> Mat2 {
        Mat2 {
            m11: tdiv(self.m22 * SCALE * SCALE, self.spec_det()) as i128,
            m12: tdiv(-self.m12 * SCALE * SCALE, self.spec_det()) as i128,
            m21: tdiv(-self.m21 * SCALE * SCALE, self.spec_det()) as i128,
            m22: tdiv(self.m11 * SCALE * SCALE, self.spec_det()) as i128,
        }
    }

    /// The identity map.
    pub open spec fn spec_identity() -> Mat2 {
        Mat2 { m11: SCALE, m12: 0, m21: 0, m22: SCALE }
    }

    pub fn identity() -> (r: Mat2)
        ensures
            r == Mat2::spec_identity(),
    {
        Mat2 { m11: SCALE, m12: 0, m21: 0, m22: SCALE }
    }

    /// Matrix-vector product. The bound arguments describe the inputs and
    /// give the bound of the result.
    pub fn apply(&self, v: Vec2, Ghost(bm): Ghost<int>, Ghost(bv): Ghost<int>) -> (r: Vec2)
        requires
            self.bounded(bm),
            v.bounded(bv),
            0 <= bm,
            0 <= bv,
            2 * bm * bv < i128::MAX,
        ensures
            r == self.spec_apply(v),
            r.bounded(2 * bm * bv / (SCALE as int)),
    {
        proof {
            lemma_mul_abs_bound(self.m11 as int, v.x as int, bm, bv);
            lemma_mul_abs_bound(self.m12 as int, v.y as int, bm, bv);
            lemma_mul_abs_bound(self.m21 as int, v.x as int, bm, bv);
            lemma_mul_abs_bound(self.m22 as int, v.y as int, bm, bv);
            let bound = 2 * bm * bv / (SCALE as int);
            assert(2 * bm * bv == bm * bv + bm * bv) by (nonlinear_arith);
            assert(bound >= 0 && 2 * bm * bv < (SCALE as int) * (bound + 1)) by {
                vstd::arithmetic::div_mod::lemma_fundamental_div_mod(2 * bm * bv, SCALE as int);
                broadcast use vstd::arithmetic::div_mod::lemma_div_pos_is_pos;

            };
            lemma_tdiv_abs_lt(self.m11 * v.x + self.m12 * v.y, SCALE as int, bound);
            lemma_tdiv_abs_lt(self.m21 * v.x + self.m22 * v.y, SCALE as int, bound);
        }
        Vec2 {
            x: div_trunc(self.m11 * v.x + self.m12 * v.y, SCALE),
            y: div_trunc(self.m21 * v.x + self.m22 * v.y, SCALE),
        }
    }
}

/// Transform that positions a `CollisionShape` in the world.
///
/// Invariant: the linear part is invertible, and `world_to_local` is its
/// cached fixed-point inverse.
#[derive(Clone, Copy, Debug, PartialEq, Eq, Structural)]
pub struct Transform {
    pub local_to_world: Mat2,
    pub translation: Vec2,
    pub world_to_local: Mat2,
}

impl Transform {
    pub open spec fn wf(self) -> bool {
        self.local_to_world.bounded(INPUT_MAX as int) && self.translation.bounded(INPUT_MAX as int)
            && self.world_to_local.bounded(INV_MAX as int)
    }

    /// Whether a linear part can be inverted within fixed-point range.
    pub open spec fn spec_invertible(matrix: Mat2) -> bool {
        matrix.spec_det() != 0 && matrix.spec_inverse().bounded(INV_MAX as int)
    }

    /// Builds a transform from its linear part and translation, caching the
    /// inverse of the linear part. Fails, rather than panicking, exactly
    /// when the linear part cannot be inverted.
    pub fn new(local_to_world: Mat2, translation: Vec2) -> (r: Result<Transform, Error>)
        requires
            local_to_world.bounded(INPUT_MAX as int),
            translation.bounded(INPUT_MAX as int),
        ensures
            r matches Ok(t) ==> t == (Transform {
                local_to_world,
                translation,
                world_to_local: local_to_world.spec_inverse(),
            }) && t.wf(),
            r is Ok <==> Transform::spec_invertible(local_to_world),
            r matches Err(e) ==> e == Error::NonInvertibleTransform,
    {
        let m = local_to_world;
        proof {
            lemma_mul_abs_bound(m.m11 as int, m.m22 as int, INPUT_MAX as int, INPUT_MAX as int);
            lemma_mul_abs_bound(m.m12 as int, m.m21 as int, INPUT_MAX as int, INPUT_MAX as int);
        }
        let det = m.m11 * m.m22 - m.m12 * m.m21;
        if det == 0 {
            return Err(Error::NonInvertibleTransform);
        }
        proof {
            let s = SCALE as int;
            let cap = INPUT_MAX as int * s;
            lemma_mul_abs_bound(m.m22 as int, s, INPUT_MAX as int, s);
            lemma_mul_abs_bound(m.m22 * s, s, cap, s);
            lemma_mul_abs_bound(m.m11 as int, s, INPUT_MAX as int, s);
            lemma_mul_abs_bound(m.m11 * s, s, cap, s);
            lemma_mul_abs_bound(-m.m12 as int, s, INPUT_MAX as int, s);
            lemma_mul_abs_bound(-m.m12 * s, s, cap, s);
            lemma_mul_abs_bound(-m.m21 as int, s, INPUT_MAX as int, s);
            lemma_mul_abs_bound(-m.m21 * s, s, cap, s);
            lemma_tdiv_abs(m.m22 * s * s, det as int);
            lemma_tdiv_abs(m.m11 * s * s, det as int);
            lemma_tdiv_abs(-m.m12 * s * s, det as int);
            lemma_tdiv_abs(-m.m21 * s * s, det as int);
        }
        let i11 = div_trunc(m.m22 * SCALE * SCALE, det);
        let i12 = div_trunc(-m.m12 * SCALE * SCALE, det);
        let i21 = div_trunc(-m.m21 * SCALE * SCALE, det);
        let i22 = div_trunc(m.m11 * SCALE * SCALE, det);
        let inverse = Mat2 { m11: i11, m12: i12, m21: i21, m22: i22 };
        if abs128(i11) > INV_MAX || abs128(i12) > INV_MAX || abs128(i21) > INV_MAX || abs128(i22)
            > INV_MAX {
            return Err(Error::NonInvertibleTransform);
        }
        Ok(Transform { local_to_world, translation, world_to_local: inverse })
    }

    /// Create a translation transform: the linear part is the identity.
    pub fn from_translation(translation: Vec2) -> (r: Transform)
        requires
            translation.bounded(INPUT_MAX as int),
        ensures
            r == (Transform {
                local_to_world: Mat2::spec_identity(),
                translation,
                world_to_local: Mat2::spec_identity(),
            }),
            r.wf(),
    {
        Transform {
            local_to_world: Mat2::identity(),
            translation,
            world_to_local: Mat2::identity(),
        }
    }

    /// World-space position of the shape origin.
    pub fn position(&self) -> (r: Vec2)
        ensures
            r == self.translation,
    {
        self.translation
    }

    /// The identity transform.
    pub open spec fn spec_default() -> Transform {
        Transform {
            local_to_world: Mat2::spec_identity(),
            translation: Vec2 { x: 0, y: 0 },
            world_to_local: Mat2::spec_identity(),
        }
    }
}

impl Default for Transform {
    /// The default transform is the identity transform.
    fn default() -> (r: Transform)
        ensures
            r == Transform::spec_default(),
            r.wf(),
    {
        Transform {
            local_to_world: Mat2::identity(),
            translation: Vec2 { x: 0, y: 0 },
            world_to_local: Mat2::identity(),
        }
    }
}

} // verus!
