//! Fixed-point plane vectors and the scalar arithmetic they are built on.
//!
//! A scalar is an `i128` holding a multiple of one quantum; `SCALE` quanta
//! make one world unit. All operations are exact integer arithmetic, so
//! every contract in this crate can speak about results exactly.

use vstd::prelude::*;

verus! {

/// Number of quanta in one world unit.
pub const SCALE: i128 = 65536;

/// Largest magnitude accepted for user-provided coordinates (shape sizes,
/// translations, matrix entries), in quanta: 2^31.
pub const INPUT_MAX: i128 = 0x80000000;

/// Normalization first rescales a vector until its largest coordinate lies
/// in `[NORM_LO, NORM_HI]`: 2^39 and 2^40. Doubling up to this band is
/// exact; halving down to it loses at most one quantum per step.
pub const NORM_LO: i128 = 0x8000000000;

/// Upper end of the normalization band: 2^40.
pub const NORM_HI: i128 = 0x10000000000;

/// Largest coordinate magnitude `normalize` accepts: 2^100.
pub const NORM_IN_MAX: i128 = 0x10000000000000000000000000;

/// Largest argument `isqrt` accepts: 2^102.
pub const ISQRT_IN_MAX: i128 = 0x40000000000000000000000000;

/// A vector (or point) of the plane, in fixed-point coordinates.
#[derive(Clone, Copy, Debug, PartialEq, Eq, Structural)]
pub struct Vec2 {
    pub x: i128,
    pub y: i128,
}

pub open spec fn abs_int(a: int) -> int {
    if a < 0 {
        -a
    } else {
        a
    }
}

/// Truncating division (round toward zero), the rounding used throughout.
pub open spec fn tdiv(a: int, b: int) -> int {
    let q = abs_int(a) / abs_int(b);
    if (a < 0) != (b < 0) {
        -q
    } else {
        q
    }
}

/// Spec-level constructor; exact whenever both coordinates fit in an `i128`.
pub open spec fn v2i(x: int, y: int) -> Vec2 {
    Vec2 { x: x as i128, y: y as i128 }
}

impl Vec2 {
    pub open spec fn spec_dot(self, other: Vec2) -> int {
        self.x * other.x + self.y * other.y
    }

    pub open spec fn spec_cross(self, other: Vec2) -> int {
        self.x * other.y - self.y * other.x
    }

    pub open spec fn spec_perp(self) -> Vec2 {
        v2i(-(self.y as int), self.x as int)
    }

    pub open spec fn spec_neg(self) -> Vec2 {
        v2i(-self.x, -self.y)
    }

    pub open spec fn spec_sub(self, other: Vec2) -> Vec2 {
        v2i(self.x - other.x, self.y - other.y)
    }

    pub open spec fn spec_add(self, other: Vec2) -> Vec2 {
        v2i(self.x + other.x, self.y + other.y)
    }

    /// Both coordinates have magnitude at most `b`.
    pub open spec fn bounded(self, b: int) -> bool {
        abs_int(self.x as int) <= b && abs_int(self.y as int) <= b
    }

    pub open spec fn is_zero(self) -> bool {
        self.x == 0 && self.y == 0
    }

    pub fn new(x: i128, y: i128) -> (r: Vec2)
        ensures
            r == (Vec2 { x, y }),
    {
        Vec2 { x, y }
    }

    /// Dot product, unscaled (the result carries `SCALE * SCALE` per unit).
    pub fn dot(self, other: Vec2) -> (r: i128)
        requires
            abs_int(self.x * other.x) + abs_int(self.y * other.y) < i128::MAX,
        ensures
            r == self.spec_dot(other),
    {
        self.x * other.x + self.y * other.y
    }

    /// Signed cross product (perp-dot), unscaled.
    pub fn cross(self, other: Vec2) -> (r: i128)
        requires
            abs_int(self.x * other.y) + abs_int(self.y * other.x) < i128::MAX,
        ensures
            r == self.spec_cross(other),
    {
        self.x * other.y - self.y * other.x
    }

    /// Rotation by 90 degrees: the perpendicular of the x-axis is the y-axis.
    pub fn perp(self) -> (r: Vec2)
        requires
            self.y > i128::MIN,
        ensures
            r == self.spec_perp(),
    {
        Vec2 { x: -self.y, y: self.x }
    }

    pub fn neg(self) -> (r: Vec2)
        requires
            self.x > i128::MIN,
            self.y > i128::MIN,
        ensures
            r == self.spec_neg(),
    {
        Vec2 { x: -self.x, y: -self.y }
    }

    pub fn sub(self, other: Vec2) -> (r: Vec2)
        requires
            i128::MIN < self.x - other.x < i128::MAX,
            i128::MIN < self.y - other.y < i128::MAX,
        ensures
            r == self.spec_sub(other),
    {
        Vec2 { x: self.x - other.x, y: self.y - other.y }
    }

    pub fn add(self, other: Vec2) -> (r: Vec2)
        requires
            i128::MIN < self.x + other.x < i128::MAX,
            i128::MIN < self.y + other.y < i128::MAX,
        ensures
            r == self.spec_add(other),
    {
        Vec2 { x: self.x + other.x, y: self.y + other.y }
    }

    pub open spec fn spec_mul(self, s: int) -> Vec2 {
        v2i(self.x * s, self.y * s)
    }

    pub open spec fn spec_div(self, s: int) -> Vec2 {
        v2i(tdiv(self.x as int, s), tdiv(self.y as int, s))
    }

    /// Scalar multiplication, component by component.
    pub fn mul(self, s: i128) -> (r: Vec2)
        requires
            i128::MIN < self.x * s < i128::MAX,
            i128::MIN < self.y * s < i128::MAX,
        ensures
            r == self.spec_mul(s as int),
    {
        Vec2 { x: self.x * s, y: self.y * s }
    }

    /// Scalar division, rounding each component toward zero.
    pub fn div(self, s: i128) -> (r: Vec2)
        requires
            s != 0,
            self.x > i128::MIN,
            self.y > i128::MIN,
            s > i128::MIN,
        ensures
            r == self.spec_div(s as int),
    {
        Vec2 { x: div_trunc(self.x, s), y: div_trunc(self.y, s) }
    }

    /// Squared magnitude, unscaled.
    pub fn magnitude_squared(self) -> (r: i128)
        requires
            abs_int(self.x * self.x) + abs_int(self.y * self.y) < i128::MAX,
        ensures
            r == self.spec_dot(self),
            r >= 0,
    {
        proof {
            lemma_square_nonneg(self.x as int);
            lemma_square_nonneg(self.y as int);
        }
        self.x * self.x + self.y * self.y
    }
}

proof fn lemma_square_nonneg(a: int)
    ensures
        a * a >= 0,
        a * a == abs_int(a) * abs_int(a),
{
    assert(a * a >= 0) by (nonlinear_arith);
    assert(a < 0 ==> a * a == (-a) * (-a)) by (nonlinear_arith);
}

/// `|a * b| <= ba * bb` whenever `|a| <= ba` and `|b| <= bb`.
pub proof fn lemma_mul_abs_bound(a: int, b: int, ba: int, bb: int)
    requires
        abs_int(a) <= ba,
        abs_int(b) <= bb,
    ensures
        abs_int(a * b) <= ba * bb,
{
    assert(abs_int(a * b) <= ba * bb) by (nonlinear_arith)
        requires
            abs_int(a) <= ba,
            abs_int(b) <= bb,
    ;
}

/// Magnitude of the absolute value, executable form.
pub fn abs128(a: i128) -> (r: i128)
    requires
        a > i128::MIN,
    ensures
        r == abs_int(a as int),
{
    if a < 0 {
        -a
    } else {
        a
    }
}

/// Floor of the square root of a nonnegative integer.
pub open spec fn sqrt_floor(n: int) -> int
    decreases n,
{
    if n <= 0 {
        0
    } else {
        let r = sqrt_floor(n - 1);
        if (r + 1) * (r + 1) <= n {
            r + 1
        } else {
            r
        }
    }
}

proof fn lemma_sqrt_floor_bounds(n: int)
    requires
        n >= 0,
    ensures
        sqrt_floor(n) >= 0,
        sqrt_floor(n) * sqrt_floor(n) <= n,
        n < (sqrt_floor(n) + 1) * (sqrt_floor(n) + 1),
    decreases n,
{
    if n == 0 {
    } else {
        lemma_sqrt_floor_bounds(n - 1);
        let r = sqrt_floor(n - 1);
        if (r + 1) * (r + 1) <= n {
            assert((r + 2) * (r + 2) > (r + 1) * (r + 1) + 1) by (nonlinear_arith)
                requires
                    r >= 0,
            ;
        }
    }
}

proof fn lemma_sqrt_floor_unique(n: int, r: int)
    requires
        n >= 0,
        r >= 0,
        r * r <= n,
        n < (r + 1) * (r + 1),
    ensures
        r == sqrt_floor(n),
{
    lemma_sqrt_floor_bounds(n);
    let s = sqrt_floor(n);
    if r < s {
        assert((r + 1) * (r + 1) <= s * s) by (nonlinear_arith)
            requires
                0 <= r + 1 <= s,
        ;
    }
    if s < r {
        assert((s + 1) * (s + 1) <= r * r) by (nonlinear_arith)
            requires
                0 <= s + 1 <= r,
        ;
    }
}

/// Executable floor square root, by binary search.
pub fn isqrt(n: i128) -> (r: i128)
    requires
        0 <= n < ISQRT_IN_MAX,
    ensures
        r == sqrt_floor(n as int),
        0 <= r,
        r * r <= n,
        n < (r + 1) * (r + 1),
{
    let mut lo: i128 = 0;
    let mut hi: i128 = 0x8000000000000;
    assert(n < (hi + 1) * (hi + 1)) by (nonlinear_arith)
        requires
            n < ISQRT_IN_MAX && hi == 0x8000000000000,
    ;
    while lo < hi
        invariant
            0 <= lo <= hi <= 0x8000000000000,
            lo * lo <= n,
            n < (hi + 1) * (hi + 1),
        decreases hi - lo,
    {
        let mid = lo + (hi - lo + 1) / 2;
        assert(lo < mid <= hi);
        assert(mid * mid < i128::MAX) by (nonlinear_arith)
            requires
                0 <= mid <= 0x8000000000000,
        ;
        if mid * mid <= n {
            lo = mid;
        } else {
            hi = mid - 1;
        }
    }
    proof {
        lemma_sqrt_floor_unique(n as int, lo as int);
    }
    lo
}

/// Largest coordinate magnitude of a vector.
pub open spec fn max_abs(v: Vec2) -> int {
    let ax = abs_int(v.x as int);
    let ay = abs_int(v.y as int);
    if ax >= ay {
        ax
    } else {
        ay
    }
}

/// Measure for `norm_grow`: distance of the largest coordinate below the band.
pub open spec fn grow_measure(v: Vec2) -> int {
    if max_abs(v) >= NORM_LO {
        0
    } else {
        NORM_LO - max_abs(v)
    }
}

/// Doubling a nonzero vector until its largest coordinate reaches `NORM_LO`.
pub open spec fn norm_grow(v: Vec2) -> Vec2
    decreases grow_measure(v),
{
    if v.is_zero() || max_abs(v) >= NORM_LO {
        v
    } else {
        norm_grow(v2i(2 * v.x, 2 * v.y))
    }
}

/// Halving a vector until its largest coordinate is at most `NORM_HI`.
pub open spec fn norm_shrink(v: Vec2) -> Vec2
    decreases max_abs(v),
    via norm_shrink_decreases
{
    if max_abs(v) <= NORM_HI {
        v
    } else {
        norm_shrink(v2i(tdiv(v.x as int, 2), tdiv(v.y as int, 2)))
    }
}

#[via_fn]
proof fn norm_shrink_decreases(v: Vec2) {
    if max_abs(v) > NORM_HI {
        lemma_halve_max_abs(v);
    }
}

/// Halving a vector exactly halves (rounding down) each coordinate magnitude.
proof fn lemma_halve_max_abs(v: Vec2)
    requires
        max_abs(v) >= 1,
    ensures
        abs_int(tdiv(v.x as int, 2)) == abs_int(v.x as int) / 2,
        abs_int(tdiv(v.y as int, 2)) == abs_int(v.y as int) / 2,
        max_abs(v2i(tdiv(v.x as int, 2), tdiv(v.y as int, 2))) == max_abs(v) / 2,
        max_abs(v2i(tdiv(v.x as int, 2), tdiv(v.y as int, 2))) < max_abs(v),
{
    broadcast use vstd::arithmetic::div_mod::lemma_div_pos_is_pos;
    broadcast use vstd::arithmetic::div_mod::lemma_div_is_ordered;
    broadcast use vstd::arithmetic::div_mod::lemma_div_is_strictly_smaller;

    let hx = tdiv(v.x as int, 2);
    let hy = tdiv(v.y as int, 2);
    assert(abs_int(hx) == abs_int(v.x as int) / 2);
    assert(abs_int(hy) == abs_int(v.y as int) / 2);
    assert(abs_int(hx) <= abs_int(v.x as int));
    assert(abs_int(hy) <= abs_int(v.y as int));
}

/// The rescaled representative a vector is normalized through.
pub open spec fn norm_scaled(v: Vec2) -> Vec2 {
    norm_shrink(norm_grow(v))
}

/// The unit vector of a nonzero vector, in fixed point: each coordinate is
/// the input coordinate divided by the vector length, carried to `SCALE`.
pub open spec fn unit_of(v: Vec2) -> Vec2 {
    let w = norm_scaled(v);
    let l = sqrt_floor(w.x * w.x + w.y * w.y);
    v2i(tdiv(w.x * SCALE, l), tdiv(w.y * SCALE, l))
}

pub open spec fn spec_normalize(v: Vec2) -> Option<Vec2> {
    if v.is_zero() {
        None
    } else {
        Some(unit_of(v))
    }
}

proof fn lemma_norm_grow_props(v: Vec2)
    requires
        !v.is_zero(),
        max_abs(v) <= NORM_IN_MAX,
    ensures
        max_abs(v) >= NORM_LO ==> norm_grow(v) == v,
        max_abs(v) < NORM_LO ==> NORM_LO <= max_abs(norm_grow(v)) < 2 * NORM_LO,
    decreases grow_measure(v),
{
    if !(v.is_zero() || max_abs(v) >= NORM_LO) {
        let w = v2i(2 * v.x, 2 * v.y);
        assert(max_abs(w) == 2 * max_abs(v));
        lemma_norm_grow_props(w);
    }
}

proof fn lemma_norm_shrink_props(v: Vec2)
    requires
        max_abs(v) >= NORM_LO,
        max_abs(v) <= NORM_IN_MAX,
    ensures
        NORM_LO <= max_abs(norm_shrink(v)) <= NORM_HI,
    decreases max_abs(v),
{
    if max_abs(v) > NORM_HI {
        lemma_halve_max_abs(v);
        let w = v2i(tdiv(v.x as int, 2), tdiv(v.y as int, 2));
        lemma_norm_shrink_props(w);
    }
}

/// After rescaling, the largest coordinate lies in the normalization band.
proof fn lemma_norm_scaled_range(v: Vec2)
    requires
        !v.is_zero(),
        v.bounded(NORM_IN_MAX as int),
    ensures
        NORM_LO <= max_abs(norm_scaled(v)) <= NORM_HI,
{
    lemma_norm_grow_props(v);
    lemma_norm_shrink_props(norm_grow(v));
}

/// Magnitudes multiply exactly.
proof fn lemma_mul_abs(a: int, b: int)
    ensures
        abs_int(a * b) == abs_int(a) * abs_int(b),
{
    assert(abs_int(a * b) == abs_int(a) * abs_int(b)) by (nonlinear_arith);
}

/// Truncating division, in terms of the Euclidean division of the
/// magnitudes.
pub proof fn lemma_tdiv_abs(a: int, b: int)
    requires
        b != 0,
    ensures
        abs_int(tdiv(a, b)) == abs_int(a) / abs_int(b),
        abs_int(tdiv(a, b)) * abs_int(b) <= abs_int(a),
        abs_int(a) < (abs_int(tdiv(a, b)) + 1) * abs_int(b),
        abs_int(tdiv(a, b)) <= abs_int(a),
{
    broadcast use vstd::arithmetic::div_mod::lemma_div_pos_is_pos;

    let bb = abs_int(b);
    vstd::arithmetic::div_mod::lemma_fundamental_div_mod(abs_int(a), bb);
    assert(0 <= abs_int(a) % bb < bb);
    assert(abs_int(tdiv(a, b)) == abs_int(a) / bb);
    assert((abs_int(a) / bb) * bb <= abs_int(a) < (abs_int(a) / bb + 1) * bb) by (nonlinear_arith)
        requires
            abs_int(a) == bb * (abs_int(a) / bb) + abs_int(a) % bb && 0 <= abs_int(a) % bb < bb,
    ;
    assert(abs_int(a) / bb <= abs_int(a)) by (nonlinear_arith)
        requires
            bb >= 1 && abs_int(a) >= 0 && (abs_int(a) / bb) * bb <= abs_int(a) && abs_int(a) / bb
                >= 0,
    ;
}

/// A bound on the divided magnitude carries over to the quotient.
pub proof fn lemma_tdiv_abs_le(a: int, b: int, c: int)
    requires
        b > 0,
        c >= 0,
        abs_int(a) <= b * c,
    ensures
        abs_int(tdiv(a, b)) <= c,
{
    lemma_tdiv_abs(a, b);
    assert(abs_int(tdiv(a, b)) <= c) by (nonlinear_arith)
        requires
            abs_int(tdiv(a, b)) * b <= abs_int(a) <= b * c && b > 0 && c >= 0,
    ;
}

/// A strict bound one divisor above also caps the quotient.
pub proof fn lemma_tdiv_abs_lt(a: int, b: int, c: int)
    requires
        b > 0,
        c >= 0,
        abs_int(a) < b * (c + 1),
    ensures
        abs_int(tdiv(a, b)) <= c,
{
    lemma_tdiv_abs(a, b);
    assert(abs_int(tdiv(a, b)) <= c) by (nonlinear_arith)
        requires
            abs_int(tdiv(a, b)) * b <= abs_int(a) < b * (c + 1) && b > 0 && c >= 0 && abs_int(
                tdiv(a, b),
            ) >= 0,
    ;
}

fn max_abs_exec(v: Vec2) -> (r: i128)
    requires
        v.x > i128::MIN,
        v.y > i128::MIN,
    ensures
        r == max_abs(v),
{
    let ax = abs128(v.x);
    let ay = abs128(v.y);
    if ax >= ay {
        ax
    } else {
        ay
    }
}

impl Vec2 {
    /// Scales a nonzero vector to unit length (`SCALE` quanta per unit);
    /// `None` for the zero vector.
    pub fn normalize(self) -> (r: Option<Vec2>)
        requires
            self.bounded(NORM_IN_MAX as int),
        ensures
            r == spec_normalize(self),
            r matches Some(n) ==> n.bounded(SCALE as int),
    {
        if self.x == 0 && self.y == 0 {
            return None;
        }
        let mut w = self;
        while max_abs_exec(w) < NORM_LO
            invariant
                !w.is_zero(),
                w.bounded(NORM_IN_MAX as int),
                norm_grow(w) == norm_grow(self),
            decreases grow_measure(w),
        {
            w = Vec2 { x: 2 * w.x, y: 2 * w.y };
        }
        assert(w == norm_grow(self));
        while max_abs_exec(w) > NORM_HI
            invariant
                w.bounded(NORM_IN_MAX as int),
                norm_shrink(w) == norm_shrink(norm_grow(self)),
            decreases max_abs(w),
        {
            proof {
                lemma_halve_max_abs(w);
            }
            w = Vec2 { x: div_trunc(w.x, 2), y: div_trunc(w.y, 2) };
        }
        assert(w == norm_scaled(self));
        proof {
            lemma_norm_scaled_range(self);
            lemma_mul_abs_bound(w.x as int, w.x as int, NORM_HI as int, NORM_HI as int);
            lemma_mul_abs_bound(w.y as int, w.y as int, NORM_HI as int, NORM_HI as int);
        }
        let m = w.magnitude_squared();
        let l = isqrt(m);
        proof {
            lemma_square_nonneg(w.x as int);
            lemma_square_nonneg(w.y as int);
            assert(l >= NORM_LO) by (nonlinear_arith)
                requires
                    l >= 0 && m < (l + 1) * (l + 1) && m >= max_abs(norm_scaled(self)) * max_abs(
                        norm_scaled(self),
                    ) && max_abs(norm_scaled(self)) >= NORM_LO,
            ;
            lemma_mul_abs(w.x as int, SCALE as int);
            lemma_mul_abs(w.y as int, SCALE as int);
            assert(abs_int(w.x as int) <= l && abs_int(w.y as int) <= l) by (nonlinear_arith)
                requires
                    l >= 0 && abs_int(w.x as int) * abs_int(w.x as int) <= m < (l + 1) * (l + 1)
                        && abs_int(w.y as int) * abs_int(w.y as int) <= m,
            ;
            assert(abs_int(w.x as int) * (SCALE as int) <= l * (SCALE as int) && abs_int(
                w.y as int,
            ) * (SCALE as int) <= l * (SCALE as int)) by (nonlinear_arith)
                requires
                    abs_int(w.x as int) <= l && abs_int(w.y as int) <= l,
            ;
            lemma_tdiv_abs_le(w.x as int * SCALE as int, l as int, SCALE as int);
            lemma_tdiv_abs_le(w.y as int * SCALE as int, l as int, SCALE as int);
        }
        let nx = div_trunc(w.x * SCALE, l);
        let ny = div_trunc(w.y * SCALE, l);
        Some(Vec2 { x: nx, y: ny })
    }
}

/// The fixed-point unit vector of any nonzero vector has squared magnitude
/// within a few quanta of `SCALE * SCALE`: it is unit length up to the
/// rounding of one division and one square root.
pub proof fn lemma_unit_tolerance(v: Vec2)
    requires
        !v.is_zero(),
        v.bounded(NORM_IN_MAX as int),
    ensures
        unit_of(v).bounded(SCALE as int),
        (SCALE as int) * (SCALE as int) - 4 * (SCALE as int) - 2 <= unit_of(v).x * unit_of(v).x
            + unit_of(v).y * unit_of(v).y <= (SCALE as int) * (SCALE as int),
{
    lemma_norm_scaled_range(v);
    let s = SCALE as int;
    let w = norm_scaled(v);
    let ax = abs_int(w.x as int);
    let ay = abs_int(w.y as int);
    lemma_square_nonneg(w.x as int);
    lemma_square_nonneg(w.y as int);
    let m = w.x * w.x + w.y * w.y;
    assert(m == ax * ax + ay * ay);
    lemma_sqrt_floor_bounds(m);
    let l = sqrt_floor(m);
    assert(m >= max_abs(w) * max_abs(w) >= NORM_LO * NORM_LO) by (nonlinear_arith)
        requires
            m == ax * ax + ay * ay && (max_abs(w) == ax || max_abs(w) == ay) && ax >= 0 && ay >= 0
                && max_abs(w) >= NORM_LO > 0,
    ;
    assert(l >= NORM_LO) by (nonlinear_arith)
        requires
            l >= 0 && m < (l + 1) * (l + 1) && m >= NORM_LO * NORM_LO && NORM_LO > 0,
    ;
    assert(ax <= l && ay <= l) by (nonlinear_arith)
        requires
            l >= 0 && ax >= 0 && ay >= 0 && ax * ax <= m < (l + 1) * (l + 1) && ay * ay <= m,
    ;
    lemma_mul_abs(w.x as int, s);
    lemma_mul_abs(w.y as int, s);
    lemma_tdiv_abs(w.x as int * s, l);
    lemma_tdiv_abs(w.y as int * s, l);
    let qx = tdiv(w.x as int * s, l);
    let qy = tdiv(w.y as int * s, l);
    let bx = abs_int(qx);
    let by = abs_int(qy);
    assert(bx * l <= ax * s && ax * s < (bx + 1) * l);
    assert(by * l <= ay * s && ay * s < (by + 1) * l);
    assert(bx <= s && by <= s) by (nonlinear_arith)
        requires
            l > 0 && s > 0 && bx >= 0 && by >= 0 && ax <= l && ay <= l && bx * l <= ax * s && by
                * l <= ay * s,
    ;
    // The result coordinates fit, so the spec constructor is exact.
    let n = unit_of(v);
    assert(n.x == qx && n.y == qy);
    lemma_square_nonneg(qx);
    lemma_square_nonneg(qy);
    let q2 = qx * qx + qy * qy;
    assert(q2 == bx * bx + by * by);
    // Upper bound: squaring the quotient relation and summing.
    assert((bx * bx + by * by) * (l * l) <= (ax * ax + ay * ay) * (s * s)) by (nonlinear_arith)
        requires
            bx >= 0 && by >= 0 && ax >= 0 && ay >= 0 && l > 0 && s > 0 && bx * l <= ax * s && by
                * l <= ay * s,
    ;
    assert(m <= l * l + 2 * l) by (nonlinear_arith)
        requires
            m < (l + 1) * (l + 1),
    ;
    assert(q2 <= s * s) by (nonlinear_arith)
        requires
            q2 >= 0 && l >= NORM_LO && NORM_LO > 2 * s * s && s > 0 && q2 * (l * l) <= m * (s * s)
                && m <= l * l + 2 * l,
    ;
    // Lower bound: the remainders lose less than one divisor each.
    let u1 = ax * s;
    let u2 = ay * s;
    let t1 = (bx + 1) * l;
    let t2 = (by + 1) * l;
    assert(u1 * u1 < t1 * t1) by (nonlinear_arith)
        requires
            0 <= u1 < t1,
    ;
    assert(u2 * u2 < t2 * t2) by (nonlinear_arith)
        requires
            0 <= u2 < t2,
    ;
    assert(m * (s * s) == u1 * u1 + u2 * u2) by (nonlinear_arith)
        requires
            u1 == ax * s && u2 == ay * s && m == ax * ax + ay * ay,
    ;
    let bb = (bx + 1) * (bx + 1) + (by + 1) * (by + 1);
    assert(t1 * t1 + t2 * t2 == bb * (l * l)) by (nonlinear_arith)
        requires
            t1 == (bx + 1) * l && t2 == (by + 1) * l && bb == (bx + 1) * (bx + 1) + (by + 1) * (by
                + 1),
    ;
    assert((l * l) * (s * s) <= m * (s * s)) by (nonlinear_arith)
        requires
            m >= l * l && s > 0,
    ;
    assert(s * s < bb) by (nonlinear_arith)
        requires
            (l * l) * (s * s) < bb * (l * l) && l > 0,
    ;
    assert(bb == q2 + 2 * bx + 2 * by + 2) by (nonlinear_arith)
        requires
            q2 == bx * bx + by * by && bb == (bx + 1) * (bx + 1) + (by + 1) * (by + 1),
    ;
}

/// Executable truncating division.
pub fn div_trunc(a: i128, b: i128) -> (r: i128)
    requires
        b != 0,
        a > i128::MIN,
        b > i128::MIN,
    ensures
        r == tdiv(a as int, b as int),
{
    let na = abs128(a);
    let nb = abs128(b);
    let q = na / nb;
    if (a < 0) != (b < 0) {
        -q
    } else {
        q
    }
}

} // verus!
