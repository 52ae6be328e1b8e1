//! The GJK overlap test: an iterative simplex-growing state machine that
//! either proves the origin lies inside a Minkowski difference (the shapes
//! overlap) or finds a separating support witness (they do not).

use vstd::prelude::*;

use crate::math::{abs_int, lemma_mul_abs_bound, Vec2};
use crate::minkowski::{spec_diff_support, Difference};
use crate::{CollisionShape, DIFF_MAX, DIR_MAX};

verus! {

/// Defensive cap on GJK iterations; for well-formed convex inputs the loop
/// terminates long before.
pub const GJK_MAX_ITERATIONS: u32 = 1000;

/// A simplex of Minkowski-difference space. It only ever grows
/// point-to-line-to-triangle: a triangle is enough to enclose the origin in
/// the plane.
#[derive(Clone, Copy, Debug, PartialEq, Eq, Structural)]
pub enum Simplex {
    Point(Vec2),
    Line(Vec2, Vec2),
    Triangle(Vec2, Vec2, Vec2),
}

impl Simplex {
    pub open spec fn bounded(self, b: int) -> bool {
        match self {
            Simplex::Point(p) => p.bounded(b),
            Simplex::Line(p1, p2) => p1.bounded(b) && p2.bounded(b),
            Simplex::Triangle(p1, p2, p3) => p1.bounded(b) && p2.bounded(b) && p3.bounded(b),
        }
    }

    /// Insertion grows a point to a line and a line to a triangle; growing a
    /// triangle is an invariant violation, left out by precondition.
    pub open spec fn spec_insert(self, new_point: Vec2) -> Simplex {
        match self {
            Simplex::Point(p) => Simplex::Line(p, new_point),
            Simplex::Line(p1, p2) => Simplex::Triangle(p1, p2, new_point),
            Simplex::Triangle(p1, p2, p3) => self,
        }
    }

    pub fn new(point: Vec2) -> (r: Simplex)
        ensures
            r == Simplex::Point(point),
    {
        Simplex::Point(point)
    }

    pub fn insert(&mut self, new_point: Vec2)
        requires
            !(*old(self) is Triangle),
        ensures
            *final(self) == old(self).spec_insert(new_point),
    {
        match *self {
            Simplex::Point(p) => *self = Simplex::Line(p, new_point),
            Simplex::Line(p1, p2) => *self = Simplex::Triangle(p1, p2, new_point),
            Simplex::Triangle(_, _, _) => {
            },
        }
    }
}

/// The perpendicular of `axis` that has a nonnegative dot product with
/// `direction`.
pub open spec fn spec_perp_toward(axis: Vec2, direction: Vec2) -> Vec2 {
    let p = axis.spec_perp();
    if p.spec_dot(direction) < 0 {
        p.spec_neg()
    } else {
        p
    }
}

/// Returns a perpendicular to `axis` that has a nonnegative dot product with
/// `direction`.
pub fn perp(axis: Vec2, direction: Vec2) -> (r: Vec2)
    requires
        axis.bounded(DIR_MAX as int),
        direction.bounded(DIR_MAX as int),
    ensures
        r == spec_perp_toward(axis, direction),
        r.bounded(DIR_MAX as int),
{
    proof {
        lemma_mul_abs_bound(-axis.y as int, direction.x as int, DIR_MAX as int, DIR_MAX as int);
        lemma_mul_abs_bound(axis.x as int, direction.y as int, DIR_MAX as int, DIR_MAX as int);
    }
    let p = axis.perp();
    if p.dot(direction) < 0 {
        p.neg()
    } else {
        p
    }
}

/// One decision of the simplex state machine, as a pair: the next search
/// direction (`None` when the origin is already enclosed) and the simplex
/// the machine continues from (a triangle degrades to the line nearest the
/// origin; every other state is kept).
pub open spec fn spec_next(s: Simplex) -> (Option<Vec2>, Simplex) {
    match s {
        Simplex::Point(p) => {
            if p.spec_dot(p) > 0 {
                (Option::Some(p.spec_neg()), s)
            } else {
                (Option::None, s)
            }
        },
        Simplex::Line(p1, p2) => {
            let d0 = p2.spec_sub(p1).spec_perp();
            let dir = if d0.spec_dot(p1) > 0 {
                d0.spec_neg()
            } else {
                d0
            };
            if dir.spec_dot(p1) < 0 {
                (Option::Some(dir), s)
            } else {
                (Option::None, s)
            }
        },
        Simplex::Triangle(p1, p2, p3) => {
            let d1 = spec_perp_toward(p3.spec_sub(p1), p3.spec_sub(p2));
            if d1.spec_dot(p3.spec_neg()) > 0 {
                (Option::Some(d1), Simplex::Line(p1, p3))
            } else {
                let d2 = spec_perp_toward(p3.spec_sub(p2), p3.spec_sub(p1));
                if d2.spec_dot(p3.spec_neg()) > 0 {
                    (Option::Some(d2), Simplex::Line(p2, p3))
                } else {
                    (Option::None, s)
                }
            }
        },
    }
}

impl Simplex {
    /// Set to the simpler simplex that is closest to the origin.
    ///
    /// If the origin is inside the simplex returns `None`; otherwise returns
    /// the next direction to search toward.
    pub fn next(&mut self) -> (r: Option<Vec2>)
        requires
            old(self).bounded(DIFF_MAX as int),
        ensures
            (r, *final(self)) == spec_next(*old(self)),
            r matches Some(dir) ==> dir.bounded(DIR_MAX as int) && !(*final(self) is Triangle),
            final(self).bounded(DIFF_MAX as int),
    {
        proof {
            lemma_next_bounds(*self);
        }
        match *self {
            Simplex::Point(point) => {
                if point.magnitude_squared() > 0 {
                    Some(point.neg())
                } else {
                    None
                }
            },
            Simplex::Line(p1, p2) => {
                let mut dir = p2.sub(p1).perp();
                if dir.dot(p1) > 0 {
                    dir = dir.neg();
                }
                if dir.dot(p1) < 0 {
                    Some(dir)
                } else {
                    None
                }
            },
            Simplex::Triangle(p1, p2, p3) => {
                let mut dir = perp(p3.sub(p1), p3.sub(p2));
                proof {
                    lemma_mul_abs_bound(dir.x as int, -p3.x as int, DIR_MAX as int, DIFF_MAX as int);
                    lemma_mul_abs_bound(dir.y as int, -p3.y as int, DIR_MAX as int, DIFF_MAX as int);
                }
                if dir.dot(p3.neg()) > 0 {
                    *self = Simplex::Line(p1, p3);
                    return Some(dir);
                }
                dir = perp(p3.sub(p2), p3.sub(p1));
                proof {
                    lemma_mul_abs_bound(dir.x as int, -p3.x as int, DIR_MAX as int, DIFF_MAX as int);
                    lemma_mul_abs_bound(dir.y as int, -p3.y as int, DIR_MAX as int, DIFF_MAX as int);
                }
                if dir.dot(p3.neg()) > 0 {
                    *self = Simplex::Line(p2, p3);
                    Some(dir)
                } else {
                    None
                }
            },
        }
    }
}

/// Every product formed inside one `next` step stays far inside `i128`.
proof fn lemma_next_bounds(s: Simplex)
    requires
        s.bounded(DIFF_MAX as int),
    ensures
        match s {
            Simplex::Point(p) => abs_int(p.x * p.x) + abs_int(p.y * p.y) < i128::MAX && abs_int(
                p.x * (-p.x as int),
            ) + abs_int(p.y * (-p.y as int)) < i128::MAX,
            Simplex::Line(p1, p2) => {
                let d0 = p2.spec_sub(p1).spec_perp();
                d0.bounded(DIR_MAX as int) && abs_int(d0.x * p1.x) + abs_int(d0.y * p1.y)
                    < i128::MAX && abs_int(d0.spec_neg().x * p1.x) + abs_int(d0.spec_neg().y * p1.y)
                    < i128::MAX
            },
            Simplex::Triangle(p1, p2, p3) => true,
        },
{
    match s {
        Simplex::Point(p) => {
            lemma_mul_abs_bound(p.x as int, p.x as int, DIFF_MAX as int, DIFF_MAX as int);
            lemma_mul_abs_bound(p.y as int, p.y as int, DIFF_MAX as int, DIFF_MAX as int);
            lemma_mul_abs_bound(p.x as int, -p.x as int, DIFF_MAX as int, DIFF_MAX as int);
            lemma_mul_abs_bound(p.y as int, -p.y as int, DIFF_MAX as int, DIFF_MAX as int);
        },
        Simplex::Line(p1, p2) => {
            let d0 = p2.spec_sub(p1).spec_perp();
            lemma_mul_abs_bound(d0.x as int, p1.x as int, DIR_MAX as int, DIFF_MAX as int);
            lemma_mul_abs_bound(d0.y as int, p1.y as int, DIR_MAX as int, DIFF_MAX as int);
            lemma_mul_abs_bound(
                d0.spec_neg().x as int,
                p1.x as int,
                DIR_MAX as int,
                DIFF_MAX as int,
            );
            lemma_mul_abs_bound(
                d0.spec_neg().y as int,
                p1.y as int,
                DIR_MAX as int,
                DIFF_MAX as int,
            );
        },
        Simplex::Triangle(p1, p2, p3) => {
        },
    }
}

/// Whether a support point fails to pass the origin toward the queried
/// direction; such a point is a separating witness.
pub fn is_negative_or_invalid(dot: i128) -> (r: bool)
    ensures
        r == (dot < 0),
{
    dot < 0
}

/// How a GJK run ends: with a simplex that encloses the origin, with a
/// direction whose support point witnesses separation, or with the
/// defensive iteration cap exhausted.
pub enum GjkOutcome {
    Enclosed(Simplex),
    Separated(Vec2),
    Exhausted,
}

/// The GJK loop from a seeded simplex, with `fuel` insertions left.
pub open spec fn gjk_run(a: CollisionShape, b: CollisionShape, s: Simplex, fuel: nat) -> GjkOutcome
    decreases fuel,
{
    let (dir_opt, s1) = spec_next(s);
    match dir_opt {
        Option::None => GjkOutcome::Enclosed(s),
        Option::Some(dir) => {
            let p = spec_diff_support(a, b, dir);
            if p.spec_dot(dir) < 0 {
                GjkOutcome::Separated(dir)
            } else if fuel == 0 {
                GjkOutcome::Exhausted
            } else {
                gjk_run(a, b, s1.spec_insert(p), (fuel - 1) as nat)
            }
        },
    }
}

/// The full GJK run from the initial direction.
pub open spec fn spec_gjk_run(a: CollisionShape, b: CollisionShape, d0: Vec2) -> GjkOutcome {
    let p0 = spec_diff_support(a, b, d0);
    if p0.spec_dot(d0) < 0 {
        GjkOutcome::Separated(d0)
    } else {
        gjk_run(a, b, Simplex::Point(p0), GJK_MAX_ITERATIONS as nat)
    }
}

/// The GJK answer: `Some` exactly when the grown simplex encloses the
/// origin; `None` on a separating witness (`lemma_gjk_separated_witness`
/// says what that guarantees) and when the defensive cap runs out.
pub open spec fn spec_gjk(a: CollisionShape, b: CollisionShape, d0: Vec2) -> Option<Simplex> {
    match spec_gjk_run(a, b, d0) {
        GjkOutcome::Enclosed(s) => Option::Some(s),
        GjkOutcome::Separated(d) => Option::None,
        GjkOutcome::Exhausted => Option::None,
    }
}

proof fn lemma_gjk_run_witness(a: CollisionShape, b: CollisionShape, s: Simplex, fuel: nat)
    ensures
        gjk_run(a, b, s, fuel) matches GjkOutcome::Separated(d) ==> spec_diff_support(
            a,
            b,
            d,
        ).spec_dot(d) < 0,
    decreases fuel,
{
    let (dir_opt, s1) = spec_next(s);
    match dir_opt {
        Option::None => {},
        Option::Some(dir) => {
            let p = spec_diff_support(a, b, dir);
            if p.spec_dot(dir) >= 0 && fuel > 0 {
                lemma_gjk_run_witness(a, b, s1.spec_insert(p), (fuel - 1) as nat);
            }
        },
    }
}

/// When GJK answers `Separated(d)`, the direction `d` really is a witness:
/// the farthest Minkowski-difference point along `d` still has a negative
/// dot product with it, so the whole difference lies strictly on the far
/// side of a line through the origin and the origin is not contained —
/// the shapes provably do not overlap.
pub proof fn lemma_gjk_separated_witness(a: CollisionShape, b: CollisionShape, d0: Vec2)
    ensures
        spec_gjk_run(a, b, d0) matches GjkOutcome::Separated(d) ==> spec_diff_support(
            a,
            b,
            d,
        ).spec_dot(d) < 0,
{
    let p0 = spec_diff_support(a, b, d0);
    if p0.spec_dot(d0) >= 0 {
        lemma_gjk_run_witness(a, b, Simplex::Point(p0), GJK_MAX_ITERATIONS as nat);
    }
}

/// Grows a simplex inside the Minkowski difference until it encloses the
/// origin (`Some`), or a support point proves separation (`None`).
pub fn find_simplex_enclosing_origin(shape: &Difference<'_>, initial_direction: Vec2) -> (r:
    Option<Simplex>)
    requires
        shape.wf(),
        initial_direction.bounded(DIR_MAX as int),
    ensures
        r == spec_gjk(*shape.shape1, *shape.shape2, initial_direction),
        r matches Some(s) ==> s.bounded(DIFF_MAX as int),
{
    let ghost a = *shape.shape1;
    let ghost b = *shape.shape2;
    let first_point = shape.support(initial_direction);
    proof {
        lemma_mul_abs_bound(
            first_point.x as int,
            initial_direction.x as int,
            DIFF_MAX as int,
            DIR_MAX as int,
        );
        lemma_mul_abs_bound(
            first_point.y as int,
            initial_direction.y as int,
            DIFF_MAX as int,
            DIR_MAX as int,
        );
    }
    if is_negative_or_invalid(first_point.dot(initial_direction)) {
        return None;
    }
    let mut simplex = Simplex::new(first_point);
    let mut fuel: u32 = GJK_MAX_ITERATIONS;
    loop
        invariant
            shape.wf(),
            a == *shape.shape1,
            b == *shape.shape2,
            simplex.bounded(DIFF_MAX as int),
            gjk_run(a, b, simplex, fuel as nat) == spec_gjk_run(a, b, initial_direction),
        decreases fuel,
    {
        let ghost s_entry = simplex;
        match simplex.next() {
            None => {
                return Some(simplex);
            },
            Some(direction) => {
                let point = shape.support(direction);
                proof {
                    lemma_mul_abs_bound(
                        point.x as int,
                        direction.x as int,
                        DIFF_MAX as int,
                        DIR_MAX as int,
                    );
                    lemma_mul_abs_bound(
                        point.y as int,
                        direction.y as int,
                        DIFF_MAX as int,
                        DIR_MAX as int,
                    );
                }
                if is_negative_or_invalid(point.dot(direction)) {
                    return None;
                }
                if fuel == 0 {
                    return None;
                }
                fuel = fuel - 1;
                simplex.insert(point);
            },
        }
    }
}

} // verus!
