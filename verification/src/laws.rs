//! The laws this library guarantees, stated and proved over the same spec
//! functions that the executable contracts use.

use vstd::prelude::*;

use crate::epa;
use crate::gjk;
use crate::math::{
    lemma_mul_abs_bound, lemma_unit_tolerance, spec_normalize, tdiv, Vec2, INPUT_MAX, SCALE,
};
use crate::minkowski::spec_diff_support;
use crate::shapes::{ShapeData, LOCAL_DIR_MAX};
use crate::transform::{Mat2, INV_MAX};
use crate::{CollisionShape, DIFF_MAX, DIR_MAX, SUPPORT_MAX};

verus! {

/// A matrix applied to a bounded vector stays within the scaled product of
/// the bounds.
proof fn lemma_mat_apply_bound(m: Mat2, v: Vec2, bm: int, bv: int)
    requires
        m.bounded(bm),
        v.bounded(bv),
        0 <= bm,
        0 <= bv,
    ensures
        m.spec_apply(v).bounded(2 * bm * bv / (SCALE as int)),
{
    lemma_mul_abs_bound(m.m11 as int, v.x as int, bm, bv);
    lemma_mul_abs_bound(m.m12 as int, v.y as int, bm, bv);
    lemma_mul_abs_bound(m.m21 as int, v.x as int, bm, bv);
    lemma_mul_abs_bound(m.m22 as int, v.y as int, bm, bv);
    let bound = 2 * bm * bv / (SCALE as int);
    assert(2 * bm * bv == bm * bv + bm * bv) by (nonlinear_arith);
    assert(bound >= 0 && 2 * bm * bv < (SCALE as int) * (bound + 1)) by {
        vstd::arithmetic::div_mod::lemma_fundamental_div_mod(2 * bm * bv, SCALE as int);
        broadcast use vstd::arithmetic::div_mod::lemma_div_pos_is_pos;

    };
    crate::math::lemma_tdiv_abs_lt(m.m11 * v.x + m.m12 * v.y, SCALE as int, bound);
    crate::math::lemma_tdiv_abs_lt(m.m21 * v.x + m.m22 * v.y, SCALE as int, bound);
}

/// A shape's local support point never leaves the input coordinate range.
proof fn lemma_local_support_bounded(data: ShapeData, d: Vec2)
    requires
        data.wf(),
        d.bounded(LOCAL_DIR_MAX as int),
    ensures
        data.spec_support(d).bounded(INPUT_MAX as int),
{
    match data {
        ShapeData::Circle(c) => {
            match spec_normalize(d) {
                Option::None => {},
                Option::Some(n) => {
                    lemma_unit_tolerance(d);
                    lemma_mul_abs_bound(c.radius as int, n.x as int, INPUT_MAX as int, SCALE as int);
                    lemma_mul_abs_bound(c.radius as int, n.y as int, INPUT_MAX as int, SCALE as int);
                    crate::math::lemma_tdiv_abs_le(c.radius * n.x, SCALE as int, INPUT_MAX as int);
                    crate::math::lemma_tdiv_abs_le(c.radius * n.y, SCALE as int, INPUT_MAX as int);
                },
            }
        },
        ShapeData::Rectangle(r) => {},
        ShapeData::Segment(s) => {},
    }
}

/// A transformed support point never leaves the world coordinate range.
proof fn lemma_support_bounded(s: CollisionShape, d: Vec2)
    requires
        s.wf(),
        d.bounded(DIR_MAX as int),
    ensures
        s.spec_support(d).bounded(SUPPORT_MAX as int),
{
    let local_dir = s.transform.world_to_local.spec_apply(d);
    let local_sup = s.data.spec_support(local_dir);
    lemma_mat_apply_bound(s.transform.world_to_local, d, INV_MAX as int, DIR_MAX as int);
    lemma_local_support_bounded(s.data, local_dir);
    lemma_mat_apply_bound(s.transform.local_to_world, local_sup, INPUT_MAX as int, INPUT_MAX as int);
}

/// A Minkowski-difference point never leaves twice the world range.
proof fn lemma_diff_support_bounded(a: CollisionShape, b: CollisionShape, d: Vec2)
    requires
        a.wf(),
        b.wf(),
        d.bounded(DIR_MAX as int),
    ensures
        spec_diff_support(a, b, d).bounded(DIFF_MAX as int),
{
    lemma_support_bounded(a, d);
    lemma_support_bounded(b, d.spec_neg());
}

/// Both coordinates can be negated without leaving `i128`.
pub open spec fn neg_ok(v: Vec2) -> bool {
    v.x > i128::MIN && v.y > i128::MIN
}

/// Every vertex negated: the mirror image of a simplex through the origin.
pub open spec fn neg_simplex(s: gjk::Simplex) -> gjk::Simplex {
    match s {
        gjk::Simplex::Point(p) => gjk::Simplex::Point(p.spec_neg()),
        gjk::Simplex::Line(p1, p2) => gjk::Simplex::Line(p1.spec_neg(), p2.spec_neg()),
        gjk::Simplex::Triangle(p1, p2, p3) => gjk::Simplex::Triangle(
            p1.spec_neg(),
            p2.spec_neg(),
            p3.spec_neg(),
        ),
    }
}

proof fn lemma_dot_neg_both(a: Vec2, b: Vec2)
    requires
        neg_ok(a),
        neg_ok(b),
    ensures
        a.spec_neg().spec_dot(b.spec_neg()) == a.spec_dot(b),
{
    assert((-(a.x as int)) * (-(b.x as int)) == a.x * b.x) by (nonlinear_arith);
    assert((-(a.y as int)) * (-(b.y as int)) == a.y * b.y) by (nonlinear_arith);
}

proof fn lemma_dot_neg_left(a: Vec2, b: Vec2)
    requires
        neg_ok(a),
    ensures
        a.spec_neg().spec_dot(b) == -a.spec_dot(b),
{
    assert((-(a.x as int)) * (b.x as int) == -(a.x * b.x)) by (nonlinear_arith);
    assert((-(a.y as int)) * (b.y as int) == -(a.y * b.y)) by (nonlinear_arith);
}

proof fn lemma_sub_neg(a: Vec2, b: Vec2, c: int)
    requires
        a.bounded(c),
        b.bounded(c),
        0 <= c,
        2 * c < i128::MAX,
    ensures
        a.spec_neg().spec_sub(b.spec_neg()) == a.spec_sub(b).spec_neg(),
        a.spec_sub(b).bounded(2 * c),
{
}

/// Mirroring the inputs of the oriented perpendicular mirrors its output.
proof fn lemma_perp_toward_neg(axis: Vec2, direction: Vec2)
    requires
        neg_ok(axis),
        neg_ok(direction),
    ensures
        gjk::spec_perp_toward(axis.spec_neg(), direction.spec_neg()) == gjk::spec_perp_toward(
            axis,
            direction,
        ).spec_neg(),
{
    let p = axis.spec_perp();
    assert(axis.spec_neg().spec_perp() == p.spec_neg());
    lemma_dot_neg_both(p, direction);
    if p.spec_dot(direction) < 0 {
        lemma_neg_involution(p);
    }
}

proof fn lemma_neg_involution(v: Vec2)
    requires
        neg_ok(v),
    ensures
        v.spec_neg().spec_neg() == v,
{
}

/// One step of the simplex state machine commutes with mirroring: on the
/// mirrored simplex it takes the same branch, returns the mirrored
/// direction, and continues from the mirrored state.
proof fn lemma_next_neg(s: gjk::Simplex)
    requires
        s.bounded(DIFF_MAX as int),
    ensures
        ({
            let (d_opt, s1) = gjk::spec_next(s);
            gjk::spec_next(neg_simplex(s)) == (
                match d_opt {
                    Option::Some(d) => Option::Some(d.spec_neg()),
                    Option::None => Option::<Vec2>::None,
                },
                neg_simplex(s1),
            )
        }),
{
    match s {
        gjk::Simplex::Point(p) => {
            lemma_dot_neg_both(p, p);
        },
        gjk::Simplex::Line(p1, p2) => {
            lemma_sub_neg(p2, p1, DIFF_MAX as int);
            let d0 = p2.spec_sub(p1).spec_perp();
            assert(p2.spec_neg().spec_sub(p1.spec_neg()).spec_perp() == d0.spec_neg());
            lemma_dot_neg_both(d0, p1);
            lemma_dot_neg_left(d0, p1);
            if d0.spec_dot(p1) > 0 {
                lemma_neg_involution(d0);
                lemma_dot_neg_both(d0.spec_neg(), p1);
            } else {
                lemma_dot_neg_both(d0, p1);
            }
        },
        gjk::Simplex::Triangle(p1, p2, p3) => {
            lemma_sub_neg(p3, p1, DIFF_MAX as int);
            lemma_sub_neg(p3, p2, DIFF_MAX as int);
            let a1 = p3.spec_sub(p1);
            let a2 = p3.spec_sub(p2);
            lemma_perp_toward_neg(a1, a2);
            lemma_perp_toward_neg(a2, a1);
            let d1 = gjk::spec_perp_toward(a1, a2);
            let d2 = gjk::spec_perp_toward(a2, a1);
            lemma_neg_involution(p3);
            lemma_dot_neg_both(d1, p3.spec_neg());
            lemma_dot_neg_both(d2, p3.spec_neg());
        },
    }
}

/// On a bounded simplex, the state machine returns a bounded direction and
/// keeps the simplex bounded.
proof fn lemma_next_bounded(s: gjk::Simplex)
    requires
        s.bounded(DIFF_MAX as int),
    ensures
        gjk::spec_next(s).1.bounded(DIFF_MAX as int),
        gjk::spec_next(s).0 matches Some(d) ==> d.bounded(DIR_MAX as int),
{
}

/// The Minkowski difference taken in the other order is the mirror image:
/// its support along `d` is the negation of the first difference's support
/// along `-d`.
proof fn lemma_diff_support_neg(a: CollisionShape, b: CollisionShape, d: Vec2)
    requires
        a.wf(),
        b.wf(),
        d.bounded(DIR_MAX as int),
    ensures
        spec_diff_support(b, a, d) == spec_diff_support(a, b, d.spec_neg()).spec_neg(),
{
    lemma_neg_involution(d);
    lemma_support_bounded(b, d);
    lemma_support_bounded(a, d.spec_neg());
    lemma_sub_neg(b.spec_support(d), a.spec_support(d.spec_neg()), SUPPORT_MAX as int);
    lemma_sub_neg(a.spec_support(d.spec_neg()), b.spec_support(d), SUPPORT_MAX as int);
    let sa = a.spec_support(d.spec_neg());
    let sb = b.spec_support(d);
    assert(sa.spec_sub(sb).spec_neg() == sb.spec_sub(sa));
}

/// The GJK loop on the swapped pair, run from the mirrored simplex, mirrors
/// the whole run: it takes the same branches and ends the same way.
proof fn lemma_gjk_run_neg(a: CollisionShape, b: CollisionShape, s: gjk::Simplex, fuel: nat)
    requires
        a.wf(),
        b.wf(),
        s.bounded(DIFF_MAX as int),
    ensures
        match gjk::gjk_run(a, b, s, fuel) {
            gjk::GjkOutcome::Enclosed(t) => gjk::gjk_run(b, a, neg_simplex(s), fuel)
                == gjk::GjkOutcome::Enclosed(neg_simplex(t)),
            gjk::GjkOutcome::Separated(d) => gjk::gjk_run(b, a, neg_simplex(s), fuel)
                == gjk::GjkOutcome::Separated(d.spec_neg()),
            gjk::GjkOutcome::Exhausted => gjk::gjk_run(b, a, neg_simplex(s), fuel)
                == gjk::GjkOutcome::Exhausted,
        },
    decreases fuel,
{
    lemma_next_neg(s);
    lemma_next_bounded(s);
    let (d_opt, s1) = gjk::spec_next(s);
    match d_opt {
        Option::None => {},
        Option::Some(d) => {
            let p = spec_diff_support(a, b, d);
            lemma_diff_support_bounded(a, b, d);
            lemma_diff_support_neg(a, b, d.spec_neg());
            lemma_neg_involution(d);
            assert(spec_diff_support(b, a, d.spec_neg()) == p.spec_neg());
            lemma_dot_neg_both(p, d);
            if p.spec_dot(d) < 0 {
            } else if fuel == 0 {
            } else {
                assert(neg_simplex(s1).spec_insert(p.spec_neg()) == neg_simplex(
                    s1.spec_insert(p),
                ));
                lemma_gjk_run_neg(a, b, s1.spec_insert(p), (fuel - 1) as nat);
            }
        },
    }
}

/// Symmetry of the overlap test: which shape comes first does not matter.
/// The swapped query mirrors every GJK step through the origin, so the two
/// runs reach the same answer in the same number of iterations.
pub proof fn lemma_collision_symmetry(a: CollisionShape, b: CollisionShape)
    requires
        a.wf(),
        b.wf(),
    ensures
        CollisionShape::spec_collides(a, b) == CollisionShape::spec_collides(b, a),
{
    let axis_ab = CollisionShape::spec_initial_axis(a, b);
    let axis_ba = CollisionShape::spec_initial_axis(b, a);
    assert(axis_ba == axis_ab.spec_neg());
    lemma_neg_involution(axis_ab);
    let p0 = spec_diff_support(a, b, axis_ab);
    lemma_diff_support_bounded(a, b, axis_ab);
    lemma_diff_support_neg(a, b, axis_ba);
    assert(spec_diff_support(b, a, axis_ba) == p0.spec_neg());
    lemma_dot_neg_both(p0, axis_ab);
    if p0.spec_dot(axis_ab) >= 0 {
        lemma_gjk_run_neg(a, b, gjk::Simplex::Point(p0), gjk::GJK_MAX_ITERATIONS as nat);
    }
}

/// Unit length in fixed point, up to the rounding of normalization: the
/// squared magnitude sits within a few quanta of `SCALE * SCALE`.
pub open spec fn unit_within_tolerance(n: Vec2) -> bool {
    (SCALE as int) * (SCALE as int) - 4 * (SCALE as int) - 2 <= n.x * n.x + n.y * n.y <= (
    SCALE as int) * (SCALE as int)
}

/// An edge normal of a bounded polygon is a unit vector within tolerance,
/// except in the fully degenerate fallback, where it is the zero vector.
proof fn lemma_edge_normal_props(pts: Seq<Vec2>, i: int)
    requires
        epa::all_bounded(pts, DIFF_MAX as int),
        0 <= i < pts.len(),
    ensures
        epa::edge_normal(pts, i).bounded(SCALE as int),
        epa::edge_normal(pts, i) == (Vec2 { x: 0, y: 0 }) || unit_within_tolerance(
            epa::edge_normal(pts, i),
        ),
{
    let p1 = pts[i];
    let p2 = if i + 1 < pts.len() {
        pts[i + 1]
    } else {
        pts[0]
    };
    let e = p2.spec_sub(p1).spec_perp();
    let n0 = match spec_normalize(e) {
        Option::Some(n) => n,
        Option::None => match spec_normalize(p1) {
            Option::Some(n) => n,
            Option::None => Vec2 { x: 0, y: 0 },
        },
    };
    match spec_normalize(e) {
        Option::Some(n) => {
            lemma_unit_tolerance(e);
        },
        Option::None => {
            match spec_normalize(p1) {
                Option::Some(n) => {
                    lemma_unit_tolerance(p1);
                },
                Option::None => {},
            }
        },
    }
    if n0.spec_dot(p1) < 0 {
        lemma_dot_neg_both(n0, n0);
        assert(epa::edge_normal(pts, i) == n0.spec_neg());
    }
}

/// The closest-edge choice always lands on a real edge.
proof fn lemma_closest_index_range(pts: Seq<Vec2>, n: int)
    requires
        n >= 1,
    ensures
        0 <= epa::closest_edge_index(pts, n) < n,
    decreases n,
{
    if n > 1 {
        lemma_closest_index_range(pts, n - 1);
    }
}

/// Every contact the EPA refinement returns carries a normal that is unit
/// length within tolerance, or the zero vector in the fully degenerate
/// fallback.
proof fn lemma_epa_loop_normal(a: CollisionShape, b: CollisionShape, pts: Seq<Vec2>, fuel: nat)
    requires
        a.wf(),
        b.wf(),
        epa::all_bounded(pts, DIFF_MAX as int),
        pts.len() >= 1,
    ensures
        epa::epa_loop(a, b, pts, fuel) matches Ok(c) ==> c.normal.bounded(SCALE as int) && (
        c.normal == (Vec2 { x: 0, y: 0 }) || unit_within_tolerance(c.normal)),
    decreases fuel,
{
    if fuel > 0 {
        let i = epa::closest_edge_index(pts, pts.len() as int);
        lemma_closest_index_range(pts, pts.len() as int);
        lemma_edge_normal_props(pts, i);
        let n = epa::edge_normal(pts, i);
        let support = spec_diff_support(a, b, n);
        let pen = tdiv(support.spec_dot(n), SCALE as int);
        if pen - epa::edge_distance(pts, i) <= epa::EPA_TOLERANCE {
            lemma_dot_neg_both(n, n);
            assert(n.spec_neg().spec_neg() == n) by {
                lemma_neg_involution(n);
            };
        } else {
            lemma_diff_support_bounded(a, b, n);
            epa::lemma_all_bounded_insert(pts, i + 1, support, DIFF_MAX as int);
            pts.insert_ensures(i + 1, support);
            lemma_epa_loop_normal(a, b, pts.insert(i + 1, support), (fuel - 1) as nat);
        }
    }
}

/// The GJK loop only ever returns simplexes whose points stay in range.
proof fn lemma_gjk_run_bounded(a: CollisionShape, b: CollisionShape, s: gjk::Simplex, fuel: nat)
    requires
        a.wf(),
        b.wf(),
        s.bounded(DIFF_MAX as int),
    ensures
        gjk::gjk_run(a, b, s, fuel) matches gjk::GjkOutcome::Enclosed(t) ==> t.bounded(
            DIFF_MAX as int,
        ),
    decreases fuel,
{
    lemma_next_bounded(s);
    let (d_opt, s1) = gjk::spec_next(s);
    match d_opt {
        Option::None => {},
        Option::Some(d) => {
            let p = spec_diff_support(a, b, d);
            lemma_diff_support_bounded(a, b, d);
            if p.spec_dot(d) >= 0 && fuel > 0 {
                lemma_gjk_run_bounded(a, b, s1.spec_insert(p), (fuel - 1) as nat);
            }
        },
    }
}

/// Any contact this library reports carries a normal of unit length within
/// the fixed-point tolerance — except in the fully degenerate fallback
/// (every candidate normal of the expanded polygon vanishes), where the
/// normal is the zero vector.
pub proof fn lemma_contact_normal_unit(a: CollisionShape, b: CollisionShape)
    requires
        a.wf(),
        b.wf(),
    ensures
        CollisionShape::spec_contact(a, b) matches Some(c) ==> c.normal.bounded(SCALE as int) && (
        c.normal == (Vec2 { x: 0, y: 0 }) || unit_within_tolerance(c.normal)),
{
    let axis = CollisionShape::spec_initial_axis(a, b);
    match gjk::spec_gjk(a, b, axis) {
        Option::None => {},
        Option::Some(s) => {
            let p0 = spec_diff_support(a, b, axis);
            lemma_diff_support_bounded(a, b, axis);
            if p0.spec_dot(axis) >= 0 {
                lemma_gjk_run_bounded(
                    a,
                    b,
                    gjk::Simplex::Point(p0),
                    gjk::GJK_MAX_ITERATIONS as nat,
                );
            }
            assert(s.bounded(DIFF_MAX as int));
            let pts = epa::spec_initial_points(s);
            assert(epa::all_bounded(pts, DIFF_MAX as int) && 1 <= pts.len());
            lemma_epa_loop_normal(a, b, pts, epa::EPA_MAX_ITERATIONS as nat);
        },
    }
}

/// Whether a point is in the image of the pair's Minkowski-difference
/// support function.
pub open spec fn is_difference_point(a: CollisionShape, b: CollisionShape, p: Vec2) -> bool {
    exists|d: Vec2| p == spec_diff_support(a, b, d)
}

/// Every vertex of the simplex is a Minkowski-difference support point.
pub open spec fn simplex_in_difference(a: CollisionShape, b: CollisionShape, s: gjk::Simplex) -> bool {
    match s {
        gjk::Simplex::Point(p) => is_difference_point(a, b, p),
        gjk::Simplex::Line(p1, p2) => is_difference_point(a, b, p1) && is_difference_point(
            a,
            b,
            p2,
        ),
        gjk::Simplex::Triangle(p1, p2, p3) => is_difference_point(a, b, p1) && is_difference_point(
            a,
            b,
            p2,
        ) && is_difference_point(a, b, p3),
    }
}

proof fn lemma_gjk_run_in_difference(a: CollisionShape, b: CollisionShape, s: gjk::Simplex, fuel: nat)
    requires
        simplex_in_difference(a, b, s),
    ensures
        gjk::gjk_run(a, b, s, fuel) matches gjk::GjkOutcome::Enclosed(t) ==> simplex_in_difference(
            a,
            b,
            t,
        ),
    decreases fuel,
{
    let (d_opt, s1) = gjk::spec_next(s);
    match d_opt {
        Option::None => {},
        Option::Some(d) => {
            let p = spec_diff_support(a, b, d);
            if p.spec_dot(d) >= 0 && fuel > 0 {
                assert(is_difference_point(a, b, p)) by {
                    assert(p == spec_diff_support(a, b, d));
                };
                lemma_gjk_run_in_difference(a, b, s1.spec_insert(p), (fuel - 1) as nat);
            }
        },
    }
}

/// Every simplex the overlap test hands to the contact generator is made of
/// genuine points of the Minkowski difference: each of its vertices is the
/// support of the pair along some direction.
pub proof fn lemma_gjk_simplex_in_difference(a: CollisionShape, b: CollisionShape, d0: Vec2)
    ensures
        gjk::spec_gjk(a, b, d0) matches Some(s) ==> simplex_in_difference(a, b, s),
{
    let p0 = spec_diff_support(a, b, d0);
    if p0.spec_dot(d0) >= 0 {
        assert(is_difference_point(a, b, p0)) by {
            assert(p0 == spec_diff_support(a, b, d0));
        };
        lemma_gjk_run_in_difference(a, b, gjk::Simplex::Point(p0), gjk::GJK_MAX_ITERATIONS as nat);
    }
}

/// `contact_with` returns `None` exactly when `is_collided_with` is false,
/// for every pair on which the contact generator converges within its
/// iteration cap. (Without that premise one direction still holds
/// unconditionally: a reported contact implies a reported collision, and no
/// collision means no contact; both stand in the `ensures` of
/// `CollisionShape::contact_with`.)
pub proof fn lemma_contact_none_iff_separated(a: CollisionShape, b: CollisionShape)
    requires
        a.wf(),
        b.wf(),
        gjk::spec_gjk(a, b, CollisionShape::spec_initial_axis(a, b)) matches Some(s)
            ==> epa::spec_epa(a, b, s) is Ok,
    ensures
        (CollisionShape::spec_contact(a, b) is None) <==> !CollisionShape::spec_collides(a, b),
{
}

} // verus!
