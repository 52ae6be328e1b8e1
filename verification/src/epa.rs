//! The EPA contact generator: starting from a GJK simplex that encloses the
//! origin, it expands a polygon toward the Minkowski-difference boundary
//! until the closest edge lies on it, and reads the contact normal and
//! penetration depth off that edge.

use vstd::prelude::*;

use crate::math::{div_trunc, lemma_mul_abs_bound, lemma_tdiv_abs, spec_normalize, tdiv, Vec2, SCALE};
use crate::minkowski::{spec_diff_support, Difference};
use crate::{gjk, CollisionShape, Contact, Error, DIFF_MAX};

verus! {

/// Cap on EPA refinement iterations; reaching it raises
/// `Error::EpaNonConvergence` instead of returning a wrong contact.
pub const EPA_MAX_ITERATIONS: u32 = 1000;

/// Convergence tolerance, in quanta: the expansion stops when a support
/// query advances the closest edge by no more than this.
pub const EPA_TOLERANCE: i128 = 8;

/// The polygon of Minkowski-difference points that EPA expands; created from
/// a GJK simplex and discarded when the query returns. It keeps its points
/// in a `smallvec::SmallVec`, inline for typical polygon sizes; the store is
/// opaque to the verifier, which sees it only through `store_points`.
#[verifier::external_body]
pub struct Simplex {
    points: smallvec::SmallVec<[Vec2; 10]>,
}

/// The points the polygon store holds, in insertion order.
pub uninterp spec fn store_points(s: Simplex) -> Seq<Vec2>;

impl Simplex {
    /// Relies on smallvec::SmallVec::new: constructs an empty vector.
    #[verifier::external_body]
    fn new_empty() -> (r: Simplex)
        ensures
            store_points(r) == Seq::<Vec2>::empty(),
    {
        Simplex { points: smallvec::SmallVec::new() }
    }

    /// Relies on smallvec::SmallVec::len: the number of stored elements.
    #[verifier::external_body]
    pub fn len(&self) -> (r: usize)
        ensures
            r == store_points(*self).len(),
    {
        self.points.len()
    }

    /// Relies on smallvec::SmallVec::push: appends one element at the end.
    #[verifier::external_body]
    fn push(&mut self, e: Vec2)
        ensures
            store_points(*final(self)) == store_points(*old(self)).push(e),
    {
        self.points.push(e)
    }

    /// Relies on smallvec::SmallVec::insert: inserts at `index` and shifts
    /// what follows to the right; it panics above the length, which the
    /// precondition rules out.
    #[verifier::external_body]
    fn insert_raw(&mut self, index: usize, e: Vec2)
        requires
            index <= store_points(*old(self)).len(),
        ensures
            store_points(*final(self)) == store_points(*old(self)).insert(index as int, e),
    {
        self.points.insert(index, e)
    }

    /// Relies on smallvec's slice view (`Deref` to `[T]`): the element at
    /// `index`, which the precondition keeps within the length.
    #[verifier::external_body]
    pub fn point_at(&self, index: usize) -> (r: Vec2)
        requires
            index < store_points(*self).len(),
        ensures
            r == store_points(*self)[index as int],
    {
        self.points[index]
    }
}

/// All points of a sequence have coordinates within `b`.
pub open spec fn all_bounded(pts: Seq<Vec2>, b: int) -> bool {
    forall|i: int| 0 <= i < pts.len() ==> (#[trigger] pts[i]).bounded(b)
}

/// An edge of the expanding polygon: the index of its first vertex, its
/// outward unit normal, and its distance from the origin in quanta.
#[derive(Clone, Copy, Debug, PartialEq, Eq, Structural)]
pub struct Edge {
    pub index: usize,
    pub normal: Vec2,
    pub distance: i128,
}

/// The outward unit normal of the polygon edge starting at vertex `i`: the
/// normalized perpendicular of the edge, oriented away from the origin. A
/// degenerate edge falls back to the direction of its first vertex, and
/// failing that to the zero vector; the result is always finite.
pub open spec fn edge_normal(pts: Seq<Vec2>, i: int) -> Vec2 {
    let p1 = pts[i];
    let p2 = if i + 1 < pts.len() {
        pts[i + 1]
    } else {
        pts[0]
    };
    let n0 = match spec_normalize(p2.spec_sub(p1).spec_perp()) {
        Option::Some(n) => n,
        Option::None => match spec_normalize(p1) {
            Option::Some(n) => n,
            Option::None => Vec2 { x: 0, y: 0 },
        },
    };
    if n0.spec_dot(p1) < 0 {
        n0.spec_neg()
    } else {
        n0
    }
}

/// Signed distance of the edge line from the origin, in quanta; the outward
/// orientation of the normal makes it nonnegative.
pub open spec fn edge_distance(pts: Seq<Vec2>, i: int) -> int {
    tdiv(edge_normal(pts, i).spec_dot(pts[i]), SCALE as int)
}

/// Index of the closest among the first `n` edges; ties keep the earliest.
pub open spec fn closest_edge_index(pts: Seq<Vec2>, n: int) -> int
    decreases n,
{
    if n <= 1 {
        0
    } else {
        let j = closest_edge_index(pts, n - 1);
        if edge_distance(pts, n - 1) < edge_distance(pts, j) {
            n - 1
        } else {
            j
        }
    }
}

/// The chosen edge is a first minimum: no edge among the first `n` is
/// closer to the origin, and every earlier edge is strictly farther.
pub proof fn lemma_closest_edge_minimal(pts: Seq<Vec2>, n: int)
    requires
        1 <= n,
    ensures
        0 <= closest_edge_index(pts, n) < n,
        forall|j: int|
            0 <= j < n ==> edge_distance(pts, closest_edge_index(pts, n)) <= #[trigger] edge_distance(
                pts,
                j,
            ),
        forall|j: int|
            0 <= j < closest_edge_index(pts, n) ==> edge_distance(pts, closest_edge_index(pts, n))
                < #[trigger] edge_distance(pts, j),
    decreases n,
{
    if n > 1 {
        lemma_closest_edge_minimal(pts, n - 1);
    }
}

/// The initial polygon: the simplex vertices, winding-normalized so that the
/// signed area is nonnegative (two vertices swap when it is negative).
pub open spec fn spec_initial_points(s: gjk::Simplex) -> Seq<Vec2> {
    match s {
        gjk::Simplex::Point(p) => seq![p],
        gjk::Simplex::Line(p1, p2) => seq![p1, p2],
        gjk::Simplex::Triangle(p1, p2, p3) => {
            if p2.spec_sub(p1).spec_cross(p3.spec_sub(p2)) < 0 {
                seq![p1, p3, p2]
            } else {
                seq![p1, p2, p3]
            }
        },
    }
}

impl Simplex {
    /// The stored points, in order.
    pub open spec fn points(self) -> Seq<Vec2> {
        store_points(self)
    }

    /// Converts a GJK simplex into the initial polygon, normalizing the
    /// winding of a triangle.
    pub fn from(simplex: gjk::Simplex) -> (r: Simplex)
        requires
            simplex.bounded(DIFF_MAX as int),
        ensures
            r.points() == spec_initial_points(simplex),
            1 <= r.points().len() <= 3,
            all_bounded(r.points(), DIFF_MAX as int),
    {
        let mut store = Simplex::new_empty();
        match simplex {
            gjk::Simplex::Point(p) => {
                store.push(p);
                assert(store_points(store) =~= spec_initial_points(simplex));
            },
            gjk::Simplex::Line(p1, p2) => {
                store.push(p1);
                store.push(p2);
                assert(store_points(store) =~= spec_initial_points(simplex));
            },
            gjk::Simplex::Triangle(p1, p2, p3) => {
                proof {
                    let e1 = p2.spec_sub(p1);
                    let e2 = p3.spec_sub(p2);
                    lemma_mul_abs_bound(
                        e1.x as int,
                        e2.y as int,
                        2 * DIFF_MAX as int,
                        2 * DIFF_MAX as int,
                    );
                    lemma_mul_abs_bound(
                        e1.y as int,
                        e2.x as int,
                        2 * DIFF_MAX as int,
                        2 * DIFF_MAX as int,
                    );
                }
                let winding = p2.sub(p1).cross(p3.sub(p2));
                store.push(p1);
                if winding < 0 {
                    store.push(p3);
                    store.push(p2);
                } else {
                    store.push(p2);
                    store.push(p3);
                }
                assert(store_points(store) =~= spec_initial_points(simplex));
            },
        }
        store
    }

    /// Builds a polygon directly from a point list.
    pub fn from_points(points: &Vec<Vec2>) -> (r: Simplex)
        ensures
            r.points() == points@,
    {
        let mut store = Simplex::new_empty();
        let mut i: usize = 0;
        while i < points.len()
            invariant
                i <= points.len(),
                store.points() == points@.subrange(0, i as int),
            decreases points.len() - i,
        {
            store.push(points[i]);
            proof {
                assert(store.points() =~= points@.subrange(0, i + 1 as int));
            }
            i = i + 1;
        }
        proof {
            assert(points@.subrange(0, points@.len() as int) =~= points@);
        }
        store
    }

    /// Inserts the point immediately after position `index`, expanding the
    /// polygon outward.
    pub fn insert(&mut self, index: usize, point: Vec2)
        requires
            index < old(self).points().len(),
            old(self).points().len() < usize::MAX,
        ensures
            final(self).points() == old(self).points().insert(index + 1, point),
    {
        self.insert_raw(index + 1, point);
    }

    /// The edge starting at vertex `index` (wrapping to the first vertex),
    /// with its outward unit normal and origin distance.
    #[verifier::rlimit(50)]
    pub fn edge(&self, index: usize) -> (r: Edge)
        requires
            index < self.points().len(),
            all_bounded(self.points(), DIFF_MAX as int),
        ensures
            r.index == index,
            r.normal == edge_normal(self.points(), index as int),
            r.distance == edge_distance(self.points(), index as int),
            r.normal.bounded(SCALE as int),
            0 <= r.distance <= 2 * DIFF_MAX,
    {
        let len = self.len();
        let p1 = self.point_at(index);
        let p2 = if index < len - 1 {
            self.point_at(index + 1)
        } else {
            self.point_at(0)
        };
        let n0 = match p2.sub(p1).perp().normalize() {
            Option::Some(n) => n,
            Option::None => match p1.normalize() {
                Option::Some(n) => n,
                Option::None => Vec2 { x: 0, y: 0 },
            },
        };
        proof {
            lemma_mul_abs_bound(n0.x as int, p1.x as int, SCALE as int, DIFF_MAX as int);
            lemma_mul_abs_bound(n0.y as int, p1.y as int, SCALE as int, DIFF_MAX as int);
            lemma_mul_abs_bound(-n0.x as int, p1.x as int, SCALE as int, DIFF_MAX as int);
            lemma_mul_abs_bound(-n0.y as int, p1.y as int, SCALE as int, DIFF_MAX as int);
        }
        let normal = if n0.dot(p1) < 0 {
            n0.neg()
        } else {
            n0
        };
        proof {
            if n0.spec_dot(p1) < 0 {
                assert(normal.spec_dot(p1) == -(n0.spec_dot(p1))) by (nonlinear_arith)
                    requires
                        normal.x == -(n0.x as int) && normal.y == -(n0.y as int),
                ;
            }
            assert(normal.spec_dot(p1) >= 0);
        }
        let raw = normal.dot(p1);
        proof {
            broadcast use vstd::arithmetic::div_mod::lemma_div_pos_is_pos;

            lemma_tdiv_abs(raw as int, SCALE as int);
            crate::math::lemma_tdiv_abs_le(raw as int, SCALE as int, 2 * DIFF_MAX as int);
        }
        let distance = div_trunc(raw, SCALE);
        Edge { index, normal, distance }
    }

    /// The edge of minimum origin distance; ties keep the first-encountered
    /// index, so the choice is deterministic.
    pub fn closest_edge(&self) -> (r: Edge)
        requires
            1 <= self.points().len(),
            all_bounded(self.points(), DIFF_MAX as int),
        ensures
            r.index < self.points().len(),
            r.index == closest_edge_index(self.points(), self.points().len() as int),
            r.normal == edge_normal(self.points(), r.index as int),
            r.distance == edge_distance(self.points(), r.index as int),
            r.normal.bounded(SCALE as int),
            0 <= r.distance <= 2 * DIFF_MAX,
            forall|j: int|
                0 <= j < self.points().len() ==> r.distance <= #[trigger] edge_distance(
                    self.points(),
                    j,
                ),
            forall|j: int|
                0 <= j < r.index ==> r.distance < #[trigger] edge_distance(self.points(), j),
    {
        proof {
            lemma_closest_edge_minimal(self.points(), self.points().len() as int);
        }
        let len = self.len();
        let mut best = self.edge(0);
        let mut i: usize = 1;
        while i < len
            invariant
                1 <= i <= len,
                len == self.points().len(),
                all_bounded(self.points(), DIFF_MAX as int),
                best.index < i,
                best.index == closest_edge_index(self.points(), i as int),
                best.normal == edge_normal(self.points(), best.index as int),
                best.distance == edge_distance(self.points(), best.index as int),
                best.normal.bounded(SCALE as int),
                0 <= best.distance <= 2 * DIFF_MAX,
            decreases len - i,
        {
            let candidate = self.edge(i);
            if candidate.distance < best.distance {
                best = candidate;
            }
            i = i + 1;
        }
        best
    }
}

impl Contact {
    /// Reads contact data off a converged edge: the normal flips to point
    /// toward the first shape, and the edge distance is the penetration.
    pub fn from(edge: Edge) -> (r: Contact)
        requires
            edge.normal.bounded(SCALE as int),
        ensures
            r == (Contact {
                normal: edge.normal.spec_neg(),
                penetration: edge.distance,
            }),
    {
        Contact { normal: edge.normal.neg(), penetration: edge.distance }
    }
}

/// The EPA refinement from a polygon with `fuel` expansions left.
pub open spec fn epa_loop(
    a: CollisionShape,
    b: CollisionShape,
    pts: Seq<Vec2>,
    fuel: nat,
) -> Result<Contact, Error>
    decreases fuel,
{
    if fuel == 0 {
        Result::Err(Error::EpaNonConvergence)
    } else {
        let i = closest_edge_index(pts, pts.len() as int);
        let n = edge_normal(pts, i);
        let d = edge_distance(pts, i);
        let support = spec_diff_support(a, b, n);
        let pen = tdiv(support.spec_dot(n), SCALE as int);
        if pen - d <= EPA_TOLERANCE {
            Result::Ok(Contact { normal: n.spec_neg(), penetration: d as i128 })
        } else {
            epa_loop(a, b, pts.insert(i + 1, support), (fuel - 1) as nat)
        }
    }
}

/// The full EPA run on the winding-normalized polygon of a GJK simplex.
pub open spec fn spec_epa(a: CollisionShape, b: CollisionShape, s: gjk::Simplex) -> Result<
    Contact,
    Error,
> {
    epa_loop(a, b, spec_initial_points(s), EPA_MAX_ITERATIONS as nat)
}

pub proof fn lemma_all_bounded_insert(pts: Seq<Vec2>, j: int, v: Vec2, b: int)
    requires
        0 <= j <= pts.len(),
        all_bounded(pts, b),
        v.bounded(b),
    ensures
        all_bounded(pts.insert(j, v), b),
{
    pts.insert_ensures(j, v);
    assert forall|k: int| 0 <= k < pts.insert(j, v).len() implies (#[trigger] pts.insert(j, v)[k]).bounded(
        b,
    ) by {
        if k < j {
            assert(pts.insert(j, v)[k] == pts[k]);
        } else if k == j {
            assert(pts.insert(j, v)[k] == v);
        } else {
            assert(pts.insert(j, v)[(k - 1) + 1] == pts[k - 1]);
        }
    }
}

/// Produces the contact data for two overlapping shapes: given the Minkowski
/// difference and a GJK simplex that encloses the origin, expands the
/// polygon until the closest edge stops advancing, then reads normal and
/// penetration off it. Fails with `EpaNonConvergence` when the iteration cap
/// is exhausted, rather than returning a wrong contact.
pub fn generate_contact(difference: &Difference<'_>, simplex: gjk::Simplex) -> (r: Result<
    Contact,
    Error,
>)
    requires
        difference.wf(),
        simplex.bounded(DIFF_MAX as int),
    ensures
        r == spec_epa(*difference.shape1, *difference.shape2, simplex),
        r matches Ok(c) ==> c.penetration >= 0 && c.normal.bounded(SCALE as int),
        r matches Err(e) ==> e == Error::EpaNonConvergence,
{
    let ghost a = *difference.shape1;
    let ghost b = *difference.shape2;
    let mut polygon = Simplex::from(simplex);
    let mut fuel: u32 = EPA_MAX_ITERATIONS;
    loop
        invariant
            difference.wf(),
            a == *difference.shape1,
            b == *difference.shape2,
            1 <= polygon.points().len(),
            polygon.points().len() + fuel <= 1003,
            all_bounded(polygon.points(), DIFF_MAX as int),
            epa_loop(a, b, polygon.points(), fuel as nat) == spec_epa(a, b, simplex),
        decreases fuel,
    {
        if fuel == 0 {
            return Err(Error::EpaNonConvergence);
        }
        let edge = polygon.closest_edge();
        let support = difference.support(edge.normal);
        proof {
            lemma_mul_abs_bound(
                support.x as int,
                edge.normal.x as int,
                DIFF_MAX as int,
                SCALE as int,
            );
            lemma_mul_abs_bound(
                support.y as int,
                edge.normal.y as int,
                DIFF_MAX as int,
                SCALE as int,
            );
            lemma_tdiv_abs(support.spec_dot(edge.normal), SCALE as int);
            crate::math::lemma_tdiv_abs_le(
                support.spec_dot(edge.normal),
                SCALE as int,
                2 * DIFF_MAX as int,
            );
        }
        let penetration = div_trunc(support.dot(edge.normal), SCALE);
        if penetration - edge.distance <= EPA_TOLERANCE {
            return Ok(Contact::from(edge));
        }
        proof {
            lemma_all_bounded_insert(
                polygon.points(),
                edge.index + 1,
                support,
                DIFF_MAX as int,
            );
        }
        polygon.insert(edge.index, support);
        fuel = fuel - 1;
    }
}

} // verus!
