//! Fixed-point three-component vectors.
//!
//! `FxVec3` carries world-space positions and offsets in fixed-point units
//! (`fixed::SCALE` units to one unit of world space).  The mathematical
//! model of a vector is `V3`, a triple of unbounded integers; every
//! executable operation is pinned to a spec-level definition over `V3`.
//!
//! The one operation beyond ring arithmetic is `place`: put a point at a
//! given fixed distance from an anchor, along the ray toward a reference
//! point.  Its rounding error is bounded by `lemma_place_spacing`.

use vstd::prelude::*;
use crate::fixed::{div_tz, sqrt_floor, lemma_sqrt_floor_bounds,
    lemma_div_tz_bounds, isqrt_u128, div_i128_tz};

verus! {

/// Mathematical model of a vector: a triple of unbounded integers.
pub struct V3 {
    pub x: int,
    pub y: int,
    pub z: int,
}

/// A fixed-point vector; a coordinate of `fixed::SCALE` is one world unit.
#[derive(Clone, Copy, PartialEq, Eq, Structural, Debug)]
pub struct FxVec3 {
    pub x: i64,
    pub y: i64,
    pub z: i64,
}

impl View for FxVec3 {
    type V = V3;

    open spec fn view(&self) -> V3 {
        V3 { x: self.x as int, y: self.y as int, z: self.z as int }
    }
}

/// Coordinate-wise sum.
pub open spec fn v3_add(a: V3, b: V3) -> V3 {
    V3 { x: a.x + b.x, y: a.y + b.y, z: a.z + b.z }
}

/// Coordinate-wise difference.
pub open spec fn v3_sub(a: V3, b: V3) -> V3 {
    V3 { x: a.x - b.x, y: a.y - b.y, z: a.z - b.z }
}

/// Squared Euclidean norm.
pub open spec fn norm_sq(a: V3) -> int {
    a.x * a.x + a.y * a.y + a.z * a.z
}

/// Fixed-point norm: the floor of the square root of the squared norm.
pub open spec fn norm(a: V3) -> int {
    sqrt_floor(norm_sq(a))
}

/// Squared distance between two points.
pub open spec fn dist_sq(a: V3, b: V3) -> int {
    norm_sq(v3_sub(a, b))
}

/// Every coordinate of `a` lies in `[-b, b]`.
pub open spec fn v3_bounded(a: V3, b: int) -> bool {
    -b <= a.x <= b && -b <= a.y <= b && -b <= a.z <= b
}

/// `v` rescaled to length `len`: each coordinate becomes
/// `v.c * len / |v|`, rounded toward zero.  The zero vector, whose
/// direction is undefined, is kept at zero: callers that need another
/// fallback test for it first.
pub open spec fn v3_scaled_to(v: V3, len: int) -> V3 {
    let m = norm_sq(v);
    if m == 0 {
        V3 { x: 0, y: 0, z: 0 }
    } else {
        let n = sqrt_floor(m);
        V3 {
            x: div_tz(v.x * len, n),
            y: div_tz(v.y * len, n),
            z: div_tz(v.z * len, n),
        }
    }
}

/// The point at distance `len` from `from`, along the ray from `from`
/// toward `toward`.  When the two points coincide the ray is undefined and
/// the anchor itself is returned.
pub open spec fn v3_place(from: V3, toward: V3, len: int) -> V3 {
    v3_add(from, v3_scaled_to(v3_sub(toward, from), len))
}

/// Coordinate bound on the positions and lengths the geometry accepts;
/// far beyond any world-space value, yet small enough that every
/// intermediate product fits the machine integers.
pub open spec fn coord_limit() -> int {
    0x1000_0000_0000_0000
}

/// Bound on a single segment length.
pub open spec fn len_limit() -> int {
    0x100_0000_0000
}

/// Bound on any rescaling length, wide enough for a whole chain's reach.
pub open spec fn scale_limit() -> int {
    0x10_0000_0000_0000
}

/// Cross product.
pub open spec fn v3_cross(a: V3, b: V3) -> V3 {
    V3 {
        x: a.y * b.z - a.z * b.y,
        y: a.z * b.x - a.x * b.z,
        z: a.x * b.y - a.y * b.x,
    }
}

/// Dot product.
pub open spec fn v3_dot(a: V3, b: V3) -> int {
    a.x * b.x + a.y * b.y + a.z * b.z
}

impl FxVec3 {
    /// Vector sum.
    pub fn add(self, o: FxVec3) -> (r: FxVec3)
        requires
            v3_bounded(self@, 0x2000_0000_0000_0000),
            v3_bounded(o@, 0x2000_0000_0000_0000),
        ensures
            r@ == v3_add(self@, o@),
    {
        FxVec3 { x: self.x + o.x, y: self.y + o.y, z: self.z + o.z }
    }

    /// Vector difference.
    pub fn sub(self, o: FxVec3) -> (r: FxVec3)
        requires
            v3_bounded(self@, 0x2000_0000_0000_0000),
            v3_bounded(o@, 0x2000_0000_0000_0000),
        ensures
            r@ == v3_sub(self@, o@),
    {
        FxVec3 { x: self.x - o.x, y: self.y - o.y, z: self.z - o.z }
    }

    /// Squared norm, computed exactly in 128-bit arithmetic.
    pub fn norm_sq_wide(self) -> (r: i128)
        requires
            v3_bounded(self@, 0x4000_0000_0000_0000),
        ensures
            r as int == norm_sq(self@),
            0 <= r as int,
            (r as int) < 0x4000_0000_0000_0000_0000_0000_0000_0000,
    {
        proof {
            lemma_square_bound(self@.x, 0x4000_0000_0000_0000);
            lemma_square_bound(self@.y, 0x4000_0000_0000_0000);
            lemma_square_bound(self@.z, 0x4000_0000_0000_0000);
        }
        let x = self.x as i128;
        let y = self.y as i128;
        let z = self.z as i128;
        x * x + y * y + z * z
    }

    /// Fixed-point norm.
    pub fn norm(self) -> (r: i64)
        requires
            v3_bounded(self@, 0x4000_0000_0000_0000),
        ensures
            r as int == norm(self@),
            0 <= r as int,
            (r as int) < 0x8000_0000_0000_0000,
    {
        let m = self.norm_sq_wide();
        let r = isqrt_u128(m as u128);
        proof {
            let ri = r as int;
            assert(ri < 0x8000_0000_0000_0000) by (nonlinear_arith)
                requires
                    ri >= 0,
                    ri * ri < 0x4000_0000_0000_0000_0000_0000_0000_0000;
        }
        r as i64
    }

    /// This vector rescaled to length `len` (toward-zero rounding per
    /// coordinate); the zero vector stays zero.
    pub fn scaled_to(self, len: i64) -> (r: FxVec3)
        requires
            v3_bounded(self@, 0x4000_0000_0000_0000),
            0 <= len <= scale_limit(),
        ensures
            r@ == v3_scaled_to(self@, len as int),
            v3_bounded(r@, len as int),
    {
        let m = self.norm_sq_wide();
        if m == 0 {
            proof {
                lemma_norm_sq_zero(self@);
            }
            FxVec3 { x: 0, y: 0, z: 0 }
        } else {
            let n_u = isqrt_u128(m as u128);
            proof {
                let ni = n_u as int;
                assert(ni < 0x8000_0000_0000_0000) by (nonlinear_arith)
                    requires
                        ni >= 0,
                        ni * ni < 0x4000_0000_0000_0000_0000_0000_0000_0000;
                assert(ni >= 1) by (nonlinear_arith)
                    requires
                        ni >= 0,
                        (ni + 1) * (ni + 1) > m as int,
                        m as int >= 1;
                lemma_scaled_to_bounds(self@, len as int);
                lemma_coord_product_fits(self@.x, len as int);
                lemma_coord_product_fits(self@.y, len as int);
                lemma_coord_product_fits(self@.z, len as int);
            }
            let n = n_u as i128;
            let x = div_i128_tz((self.x as i128) * (len as i128), n);
            let y = div_i128_tz((self.y as i128) * (len as i128), n);
            let z = div_i128_tz((self.z as i128) * (len as i128), n);
            FxVec3 { x: x as i64, y: y as i64, z: z as i64 }
        }
    }

    /// Cross product of two short vectors (direction hints, not positions).
    pub fn cross(self, o: FxVec3) -> (r: FxVec3)
        requires
            v3_bounded(self@, 0x4000_0000),
            v3_bounded(o@, 0x4000_0000),
        ensures
            r@ == v3_cross(self@, o@),
            v3_bounded(r@, 0x2000_0000_0000_0000),
    {
        proof {
            lemma_short_product(self@.y, o@.z);
            lemma_short_product(self@.z, o@.y);
            lemma_short_product(self@.z, o@.x);
            lemma_short_product(self@.x, o@.z);
            lemma_short_product(self@.x, o@.y);
            lemma_short_product(self@.y, o@.x);
        }
        FxVec3 {
            x: self.y * o.z - self.z * o.y,
            y: self.z * o.x - self.x * o.z,
            z: self.x * o.y - self.y * o.x,
        }
    }

    /// Dot product, computed exactly in 128-bit arithmetic.
    pub fn dot_wide(self, o: FxVec3) -> (r: i128)
        requires
            v3_bounded(self@, 0x4000_0000_0000_0000),
            v3_bounded(o@, 0x4000_0000_0000_0000),
        ensures
            r as int == v3_dot(self@, o@),
    {
        proof {
            lemma_wide_product(self@.x, o@.x);
            lemma_wide_product(self@.y, o@.y);
            lemma_wide_product(self@.z, o@.z);
        }
        let r: i128 = (self.x as i128) * (o.x as i128) + (self.y as i128) * (o.y as i128)
            + (self.z as i128) * (o.z as i128);
        r
    }

    /// The point at distance `len` from `self` toward `toward`; if the two
    /// points coincide, `self` itself.
    pub fn place(self, toward: FxVec3, len: i64) -> (r: FxVec3)
        requires
            v3_bounded(self@, 0x2000_0000_0000_0000),
            v3_bounded(toward@, 0x2000_0000_0000_0000),
            0 <= len <= len_limit(),
        ensures
            r@ == v3_place(self@, toward@, len as int),
            r@.x == self@.x + v3_scaled_to(v3_sub(toward@, self@), len as int).x,
            r@.y == self@.y + v3_scaled_to(v3_sub(toward@, self@), len as int).y,
            r@.z == self@.z + v3_scaled_to(v3_sub(toward@, self@), len as int).z,
    {
        let d = toward.sub(self);
        let s = d.scaled_to(len);
        self.add(s)
    }
}

/// The product of two short coordinates stays well inside 64 bits.
proof fn lemma_short_product(a: int, b: int)
    requires
        -0x4000_0000 <= a <= 0x4000_0000,
        -0x4000_0000 <= b <= 0x4000_0000,
    ensures
        -0x1000_0000_0000_0000 <= a * b <= 0x1000_0000_0000_0000,
{
    assert(-0x1000_0000_0000_0000 <= a * b <= 0x1000_0000_0000_0000) by (nonlinear_arith)
        requires
            -0x4000_0000 <= a <= 0x4000_0000,
            -0x4000_0000 <= b <= 0x4000_0000;
}

/// The product of two coordinates stays well inside 128 bits.
proof fn lemma_wide_product(a: int, b: int)
    requires
        -0x4000_0000_0000_0000 <= a <= 0x4000_0000_0000_0000,
        -0x4000_0000_0000_0000 <= b <= 0x4000_0000_0000_0000,
    ensures
        -0x1000_0000_0000_0000_0000_0000_0000_0000 <= a * b
            <= 0x1000_0000_0000_0000_0000_0000_0000_0000,
{
    assert(-0x1000_0000_0000_0000_0000_0000_0000_0000 <= a * b
        <= 0x1000_0000_0000_0000_0000_0000_0000_0000) by (nonlinear_arith)
        requires
            -0x4000_0000_0000_0000 <= a <= 0x4000_0000_0000_0000,
            -0x4000_0000_0000_0000 <= b <= 0x4000_0000_0000_0000;
}

/// `|c| <= b` gives `c * c <= b * b`.
proof fn lemma_square_bound(c: int, b: int)
    requires
        -b <= c <= b,
    ensures
        0 <= c * c <= b * b,
{
    assert(0 <= c * c <= b * b) by (nonlinear_arith)
        requires -b <= c <= b;
}

/// A vector of squared norm zero is the zero vector.
pub proof fn lemma_norm_sq_zero(v: V3)
    requires
        norm_sq(v) == 0,
    ensures
        v == (V3 { x: 0, y: 0, z: 0 }),
{
    assert(v.x == 0 && v.y == 0 && v.z == 0) by (nonlinear_arith)
        requires v.x * v.x + v.y * v.y + v.z * v.z == 0;
}

/// Each coordinate of a vector is bounded by its norm, and rescaling to
/// `len` therefore bounds every coordinate by `len`.
pub proof fn lemma_scaled_to_bounds(v: V3, len: int)
    requires
        norm_sq(v) >= 1,
        len >= 0,
    ensures
        norm(v) >= 1,
        -norm(v) <= v.x <= norm(v),
        -norm(v) <= v.y <= norm(v),
        -norm(v) <= v.z <= norm(v),
        v3_bounded(v3_scaled_to(v, len), len),
{
    let m = norm_sq(v);
    let n = sqrt_floor(m);
    lemma_sqrt_floor_bounds(m);
    assert(n >= 1) by (nonlinear_arith)
        requires n >= 0, (n + 1) * (n + 1) > m, m >= 1;
    lemma_coord_le_norm(v.x, v.y, v.z, n, m);
    lemma_coord_le_norm(v.y, v.x, v.z, n, m);
    lemma_coord_le_norm(v.z, v.x, v.y, n, m);
    lemma_scaled_coord_bound(v.x, len, n);
    lemma_scaled_coord_bound(v.y, len, n);
    lemma_scaled_coord_bound(v.z, len, n);
}

/// A coordinate with `c * c <= m < (n + 1) * (n + 1)` satisfies `|c| <= n`.
proof fn lemma_coord_le_norm(c: int, d: int, e: int, n: int, m: int)
    requires
        c * c + d * d + e * e == m,
        n >= 0,
        m < (n + 1) * (n + 1),
    ensures
        -n <= c <= n,
{
    assert(-n <= c <= n) by (nonlinear_arith)
        requires
            c * c + d * d + e * e == m,
            n >= 0,
            m < (n + 1) * (n + 1);
}

/// `|c| <= n` gives `|div_tz(c * len, n)| <= len`.
proof fn lemma_scaled_coord_bound(c: int, len: int, n: int)
    requires
        -n <= c <= n,
        n >= 1,
        len >= 0,
    ensures
        -len <= div_tz(c * len, n) <= len,
{
    lemma_div_tz_bounds(c * len, n);
    let q = div_tz(c * len, n);
    assert(-len <= q <= len) by (nonlinear_arith)
        requires
            -n <= c <= n,
            n >= 1,
            len >= 0,
            c * len >= 0 ==> 0 <= q * n <= c * len,
            c * len <= 0 ==> c * len <= q * n <= 0;
}

/// Spacing tolerance of the solver, in fixed-point units: placed points sit
/// at their nominal distance to within this much.
pub open spec fn tol() -> int {
    100
}

/// Raw rounding-error bound for `place`, with the norm of the offset still
/// in the statement: multiplying through by `n * n` keeps the claim in
/// integers.  `ds` is the squared distance of the placed point from its
/// anchor and `n` the fixed-point norm of the ray's offset.
#[verifier::rlimit(50)]
pub proof fn lemma_place_spacing_raw(from: V3, toward: V3, len: int)
    requires
        norm_sq(v3_sub(toward, from)) >= 1,
        len >= 0,
    ensures
        ({
            let n = norm(v3_sub(toward, from));
            let ds = dist_sq(v3_place(from, toward, len), from);
            -6 * len * (n * n) <= n * n * ds - n * n * (len * len)
                && n * n * ds - n * n * (len * len)
                    <= 2 * n * (len * len) + 6 * len * (n * n) + 3 * (n * n)
        }),
{
    let d = v3_sub(toward, from);
    let m = norm_sq(d);
    let n = sqrt_floor(m);
    lemma_sqrt_floor_bounds(m);
    assert(n >= 1) by (nonlinear_arith)
        requires n >= 0, (n + 1) * (n + 1) > m, m >= 1;
    assert(m <= n * n + 2 * n) by (nonlinear_arith)
        requires m < (n + 1) * (n + 1);
    lemma_coord_le_norm(d.x, d.y, d.z, n, m);
    lemma_coord_le_norm(d.y, d.x, d.z, n, m);
    lemma_coord_le_norm(d.z, d.x, d.y, n, m);

    let qx = div_tz(d.x * len, n);
    let qy = div_tz(d.y * len, n);
    let qz = div_tz(d.z * len, n);
    lemma_div_tz_bounds(d.x * len, n);
    lemma_div_tz_bounds(d.y * len, n);
    lemma_div_tz_bounds(d.z * len, n);
    let ex = d.x * len - qx * n;
    let ey = d.y * len - qy * n;
    let ez = d.z * len - qz * n;
    assert(-(n - 1) <= ex <= n - 1);
    assert(-(n - 1) <= ey <= n - 1);
    assert(-(n - 1) <= ez <= n - 1);

    lemma_coord_identity(d.x, len, n, qx, ex);
    lemma_coord_identity(d.y, len, n, qy, ey);
    lemma_coord_identity(d.z, len, n, qz, ez);

    let l2 = len * len;
    assert(l2 * m == (d.x * len) * (d.x * len) + (d.y * len) * (d.y * len)
        + (d.z * len) * (d.z * len)) by (nonlinear_arith)
        requires
            m == d.x * d.x + d.y * d.y + d.z * d.z,
            l2 == len * len;

    let ds = dist_sq(v3_place(from, toward, len), from);
    assert(ds == qx * qx + qy * qy + qz * qz);
    assert(n * n * ds == (n * n) * (qx * qx) + (n * n) * (qy * qy) + (n * n) * (qz * qz))
        by (nonlinear_arith)
        requires ds == qx * qx + qy * qy + qz * qz;

    // n^2 * ds == l2 * m - 2 * (middle terms) + (error squares)
    assert(n * n * ds == l2 * m
        - 2 * ((d.x * len) * ex + (d.y * len) * ey + (d.z * len) * ez)
        + (ex * ex + ey * ey + ez * ez));

    let mid = (d.x * len) * ex + (d.y * len) * ey + (d.z * len) * ez;
    let esq = ex * ex + ey * ey + ez * ez;
    lemma_mid_bound(d.x, len, n, ex);
    lemma_mid_bound(d.y, len, n, ey);
    lemma_mid_bound(d.z, len, n, ez);
    assert(0 <= ex * ex <= (n - 1) * (n - 1)) by (nonlinear_arith)
        requires -(n - 1) <= ex <= n - 1;
    assert(0 <= ey * ey <= (n - 1) * (n - 1)) by (nonlinear_arith)
        requires -(n - 1) <= ey <= n - 1;
    assert(0 <= ez * ez <= (n - 1) * (n - 1)) by (nonlinear_arith)
        requires -(n - 1) <= ez <= n - 1;
    assert(3 * ((n - 1) * (n - 1)) <= 3 * (n * n)) by (nonlinear_arith)
        requires n >= 1;
    assert(3 * (len * (n * (n - 1))) <= 3 * (len * (n * n))) by (nonlinear_arith)
        requires n >= 1, len >= 0;

    // l2 * m - n * n * l2 == l2 * (m - n * n), bounded by 0 and 2 * n * l2.
    assert(0 <= l2 * m - n * n * (len * len) <= 2 * n * (len * len)) by (nonlinear_arith)
        requires
            l2 == len * len,
            n * n <= m,
            m <= n * n + 2 * n,
            len >= 0;

    assert(-(3 * (len * (n * (n - 1)))) <= mid <= 3 * (len * (n * (n - 1))));
    assert(0 <= esq <= 3 * ((n - 1) * (n - 1)));
    assert(n * n * ds - n * n * (len * len)
        <= 2 * n * (len * len) + 6 * len * (n * n) + 3 * (n * n)) by (nonlinear_arith)
        requires
            n * n * ds == l2 * m - 2 * mid + esq,
            l2 == len * len,
            -(3 * (len * (n * (n - 1)))) <= mid <= 3 * (len * (n * (n - 1))),
            0 <= esq <= 3 * ((n - 1) * (n - 1)),
            0 <= l2 * m - n * n * (len * len) <= 2 * n * (len * len),
            n >= 1,
            len >= 0;
    assert(-6 * len * (n * n) <= n * n * ds - n * n * (len * len)) by (nonlinear_arith)
        requires
            n * n * ds == l2 * m - 2 * mid + esq,
            l2 == len * len,
            -(3 * (len * (n * (n - 1)))) <= mid <= 3 * (len * (n * (n - 1))),
            0 <= esq,
            0 <= l2 * m - n * n * (len * len),
            n >= 1,
            len >= 0;
}

/// The defining identity of one rounded coordinate:
/// `(q * n) ^ 2 == (d * len) ^ 2 - 2 * (d * len) * e + e ^ 2` where
/// `e == d * len - q * n`.
proof fn lemma_coord_identity(d: int, len: int, n: int, q: int, e: int)
    requires
        e == d * len - q * n,
    ensures
        (n * n) * (q * q) == (d * len) * (d * len) - 2 * ((d * len) * e) + e * e,
{
    assert((n * n) * (q * q) == (d * len) * (d * len) - 2 * ((d * len) * e) + e * e)
        by (nonlinear_arith)
        requires e == d * len - q * n;
}

/// One middle term of the expansion is within `len * n * (n - 1)`.
proof fn lemma_mid_bound(d: int, len: int, n: int, e: int)
    requires
        -n <= d <= n,
        -(n - 1) <= e <= n - 1,
        n >= 1,
        len >= 0,
    ensures
        -(len * (n * (n - 1))) <= (d * len) * e <= len * (n * (n - 1)),
{
    assert(-(len * (n * (n - 1))) <= (d * len) * e <= len * (n * (n - 1)))
        by (nonlinear_arith)
        requires
            -n <= d <= n,
            -(n - 1) <= e <= n - 1,
            n >= 1,
            len >= 0;
}

/// Spacing law of `place`: a point placed at nominal distance `len` from
/// its anchor sits at that distance to within `tol()` fixed-point units
/// (one ten-thousandth of a world unit), whenever the ray's offset is at
/// least half the nominal distance and the distance itself is at least 52
/// units — below that the quadratic tolerance band is wider than the
/// rounding error itself and the bound says nothing.
pub proof fn lemma_place_spacing(from: V3, toward: V3, len: int)
    requires
        norm_sq(v3_sub(toward, from)) >= 1,
        52 <= len,
        len <= 2 * norm(v3_sub(toward, from)),
    ensures
        (len - tol()) * (len - tol()) <= dist_sq(v3_place(from, toward, len), from),
        dist_sq(v3_place(from, toward, len), from) <= (len + tol()) * (len + tol()),
{
    lemma_place_spacing_raw(from, toward, len);
    let n = norm(v3_sub(toward, from));
    let ds = dist_sq(v3_place(from, toward, len), from);
    lemma_sqrt_floor_bounds(norm_sq(v3_sub(toward, from)));
    assert(n >= 1) by (nonlinear_arith)
        requires
            n >= 0,
            (n + 1) * (n + 1) > norm_sq(v3_sub(toward, from)),
            norm_sq(v3_sub(toward, from)) >= 1;
    // With len <= 2 * n the raw bound becomes n^2 * (10 * len + 3).
    assert(2 * n * (len * len) <= 4 * (len * (n * n))) by (nonlinear_arith)
        requires len <= 2 * n, len >= 0, n >= 1;
    // Divide the two raw inequalities by n^2.
    assert(ds - len * len <= 10 * len + 3) by (nonlinear_arith)
        requires
            n * n * ds - n * n * (len * len)
                <= 4 * (len * (n * n)) + 6 * len * (n * n) + 3 * (n * n),
            n >= 1;
    assert(len * len - ds <= 6 * len) by (nonlinear_arith)
        requires
            -6 * len * (n * n) <= n * n * ds - n * n * (len * len),
            n >= 1;
    assert((len + tol()) * (len + tol()) == len * len + 200 * len + 10000) by (nonlinear_arith);
    assert((len - tol()) * (len - tol()) == len * len - 200 * len + 10000) by (nonlinear_arith);
}

/// The product of a coordinate within `0x4000_0000_0000_0000` and a length
/// within `len_limit()` fits comfortably in 128 bits.
proof fn lemma_coord_product_fits(c: int, len: int)
    requires
        -0x4000_0000_0000_0000 <= c <= 0x4000_0000_0000_0000,
        0 <= len <= scale_limit(),
    ensures
        -(i128::MAX as int) <= c * len <= i128::MAX as int,
{
    assert(-0x40_0000_0000_0000_0000_0000_0000_0000 <= c * len
        <= 0x40_0000_0000_0000_0000_0000_0000_0000) by (nonlinear_arith)
        requires
            -0x4000_0000_0000_0000 <= c <= 0x4000_0000_0000_0000,
            0 <= len <= 0x10_0000_0000_0000;
}

/// A vector with coordinates within `b` has norm at most `2 * b`.
pub proof fn lemma_norm_le_double(v: V3, b: int)
    requires
        v3_bounded(v, b),
        b >= 0,
    ensures
        0 <= norm(v),
        norm(v) <= 2 * b,
{
    lemma_square_bound(v.x, b);
    lemma_square_bound(v.y, b);
    lemma_square_bound(v.z, b);
    let m = norm_sq(v);
    lemma_sqrt_floor_bounds(m);
    let n = sqrt_floor(m);
    if n > 2 * b {
        assert((2 * b + 1) * (2 * b + 1) > 3 * (b * b)) by (nonlinear_arith)
            requires b >= 0;
        assert(n * n >= (2 * b + 1) * (2 * b + 1)) by (nonlinear_arith)
            requires n >= 2 * b + 1, b >= 0;
    }
}

/// Placing at distance `len` moves each coordinate by at most `len`.
pub proof fn lemma_place_bounded(from: V3, toward: V3, len: int, b: int)
    requires
        len >= 0,
        v3_bounded(from, b),
        b >= 0,
    ensures
        v3_bounded(v3_place(from, toward, len), b + len),
{
    let d = v3_sub(toward, from);
    assert(norm_sq(d) >= 0) by (nonlinear_arith);
    if norm_sq(d) == 0 {
    } else {
        lemma_scaled_to_bounds(d, len);
    }
}

} // verus!
