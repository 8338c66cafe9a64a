//! Fixed-point quaternions for joint rotations.
//!
//! A unit rotation is stored with each component scaled by `fixed::SCALE`.
//! Every product is renormalized, so a well-formed quaternion (components
//! within `SCALE`) stays well-formed through any sequence of operations,
//! and the inverse of a rotation is its conjugate, which is exact.
//! As with the vectors, every executable operation is pinned to a
//! spec-level definition, so rotation synthesis is a pure function of its
//! inputs.

use vstd::prelude::*;
use crate::fixed::{SCALE, div_tz, sqrt_floor, lemma_div_tz_magnitude, lemma_abs_mul,
    isqrt_u128, div_i128_tz};
use crate::vec3::{FxVec3, V3, v3_cross, v3_dot, v3_bounded, len_limit};

verus! {

/// Mathematical model of a quaternion: four unbounded integers.
pub struct Q4 {
    pub x: int,
    pub y: int,
    pub z: int,
    pub w: int,
}

/// A fixed-point quaternion; a unit rotation has components within
/// `SCALE` and squared norm close to `SCALE * SCALE`.
#[derive(Clone, Copy, PartialEq, Eq, Structural, Debug)]
pub struct FxQuat {
    pub x: i64,
    pub y: i64,
    pub z: i64,
    pub w: i64,
}

impl View for FxQuat {
    type V = Q4;

    open spec fn view(&self) -> Q4 {
        Q4 { x: self.x as int, y: self.y as int, z: self.z as int, w: self.w as int }
    }
}

/// The identity rotation.
pub open spec fn q_identity() -> Q4 {
    Q4 { x: 0, y: 0, z: 0, w: SCALE as int }
}

/// Well-formed rotation: every component within `SCALE`.
pub open spec fn q_wf(q: Q4) -> bool {
    &&& -(SCALE as int) <= q.x <= SCALE as int
    &&& -(SCALE as int) <= q.y <= SCALE as int
    &&& -(SCALE as int) <= q.z <= SCALE as int
    &&& -(SCALE as int) <= q.w <= SCALE as int
}

/// Squared norm over all four components.
pub open spec fn q_norm_sq(q: Q4) -> int {
    q.x * q.x + q.y * q.y + q.z * q.z + q.w * q.w
}

/// The conjugate, which inverts a unit rotation exactly.
pub open spec fn q_conjugate(q: Q4) -> Q4 {
    Q4 { x: -q.x, y: -q.y, z: -q.z, w: q.w }
}

/// `q` rescaled to unit length (components within `SCALE`); the zero
/// quaternion, which names no rotation, becomes the identity.
pub open spec fn q_normalized(q: Q4) -> Q4 {
    let m = q_norm_sq(q);
    if m == 0 {
        q_identity()
    } else {
        let n = sqrt_floor(m);
        Q4 {
            x: div_tz(q.x * SCALE, n),
            y: div_tz(q.y * SCALE, n),
            z: div_tz(q.z * SCALE, n),
            w: div_tz(q.w * SCALE, n),
        }
    }
}

/// The Hamilton product in fixed-point scale, before renormalization.
pub open spec fn q_mul_raw(a: Q4, b: Q4) -> Q4 {
    Q4 {
        x: div_tz(a.w * b.x + a.x * b.w + a.y * b.z - a.z * b.y, SCALE as int),
        y: div_tz(a.w * b.y - a.x * b.z + a.y * b.w + a.z * b.x, SCALE as int),
        z: div_tz(a.w * b.z + a.x * b.y - a.y * b.x + a.z * b.w, SCALE as int),
        w: div_tz(a.w * b.w - a.x * b.x - a.y * b.y - a.z * b.z, SCALE as int),
    }
}

/// Rotation composition: the Hamilton product, renormalized so that
/// well-formedness is closed under it.
pub open spec fn q_mul(a: Q4, b: Q4) -> Q4 {
    q_normalized(q_mul_raw(a, b))
}

/// `v` rotated by `q`.
pub open spec fn q_rotate(q: Q4, v: V3) -> V3 {
    let u = V3 { x: q.x, y: q.y, z: q.z };
    let c1 = v3_cross(u, v);
    let c2 = v3_cross(u, c1);
    let s2 = (SCALE as int) * (SCALE as int);
    V3 {
        x: v.x + div_tz(2 * (q.w * c1.x + c2.x), s2),
        y: v.y + div_tz(2 * (q.w * c1.y + c2.y), s2),
        z: v.z + div_tz(2 * (q.w * c1.z + c2.z), s2),
    }
}

/// The minimal rotation carrying direction `f` to direction `t` (both in
/// fixed-point unit scale): axis from their cross product, half-angle
/// weight from their dot product, renormalized.  Exactly opposite
/// directions name no unique minimal rotation; there, as for vanishing
/// inputs, the normalization's fallback makes it the identity.
pub open spec fn q_from_arc(f: V3, t: V3) -> Q4 {
    let c = v3_cross(f, t);
    q_normalized(Q4 {
        x: div_tz(c.x, SCALE as int),
        y: div_tz(c.y, SCALE as int),
        z: div_tz(c.z, SCALE as int),
        w: SCALE as int + div_tz(v3_dot(f, t), SCALE as int),
    })
}

impl FxQuat {
    /// The identity rotation.
    pub fn identity() -> (r: FxQuat)
        ensures
            r@ == q_identity(),
            q_wf(r@),
    {
        FxQuat { x: 0, y: 0, z: 0, w: SCALE }
    }

    /// The conjugate: the exact inverse of a unit rotation.
    pub fn conjugate(self) -> (r: FxQuat)
        requires
            q_wf(self@),
        ensures
            r@ == q_conjugate(self@),
            q_wf(r@),
    {
        FxQuat { x: -self.x, y: -self.y, z: -self.z, w: self.w }
    }

    /// Rotation composition (Hamilton product, renormalized).
    pub fn mul(self, o: FxQuat) -> (r: FxQuat)
        requires
            q_wf(self@),
            q_wf(o@),
        ensures
            r@ == q_mul(self@, o@),
            q_wf(r@),
    {
        let ax = self.x as i128;
        let ay = self.y as i128;
        let az = self.z as i128;
        let aw = self.w as i128;
        let bx = o.x as i128;
        let by = o.y as i128;
        let bz = o.z as i128;
        let bw = o.w as i128;
        proof {
            lemma_q_mul_raw_bounds(self@, o@);
            lemma_abs_mul(self@.x, o@.x, 1000000, 1000000);
            lemma_abs_mul(self@.x, o@.y, 1000000, 1000000);
            lemma_abs_mul(self@.x, o@.z, 1000000, 1000000);
            lemma_abs_mul(self@.x, o@.w, 1000000, 1000000);
            lemma_abs_mul(self@.y, o@.x, 1000000, 1000000);
            lemma_abs_mul(self@.y, o@.y, 1000000, 1000000);
            lemma_abs_mul(self@.y, o@.z, 1000000, 1000000);
            lemma_abs_mul(self@.y, o@.w, 1000000, 1000000);
            lemma_abs_mul(self@.z, o@.x, 1000000, 1000000);
            lemma_abs_mul(self@.z, o@.y, 1000000, 1000000);
            lemma_abs_mul(self@.z, o@.z, 1000000, 1000000);
            lemma_abs_mul(self@.z, o@.w, 1000000, 1000000);
            lemma_abs_mul(self@.w, o@.x, 1000000, 1000000);
            lemma_abs_mul(self@.w, o@.y, 1000000, 1000000);
            lemma_abs_mul(self@.w, o@.z, 1000000, 1000000);
            lemma_abs_mul(self@.w, o@.w, 1000000, 1000000);
        }
        let sc = SCALE as i128;
        let rx = div_i128_tz(aw * bx + ax * bw + ay * bz - az * by, sc);
        let ry = div_i128_tz(aw * by - ax * bz + ay * bw + az * bx, sc);
        let rz = div_i128_tz(aw * bz + ax * by - ay * bx + az * bw, sc);
        let rw = div_i128_tz(aw * bw - ax * bx - ay * by - az * bz, sc);
        normalize_parts(rx, ry, rz, rw)
    }

    /// Rotates a position or offset vector by this rotation.
    pub fn rotate(self, v: FxVec3) -> (r: FxVec3)
        requires
            q_wf(self@),
            v3_bounded(v@, len_limit()),
        ensures
            r@ == q_rotate(self@, v@),
            v3_bounded(r@, len_limit() + 0x1_0000_0000_0000),
    {
        let ux = self.x as i128;
        let uy = self.y as i128;
        let uz = self.z as i128;
        let w = self.w as i128;
        let vx = v.x as i128;
        let vy = v.y as i128;
        let vz = v.z as i128;
        proof {
            lemma_q_rotate_bounds(self@, v@);
            lemma_abs_mul(self@.y, v@.z, 1000000, 0x100_0000_0000);
            lemma_abs_mul(self@.z, v@.y, 1000000, 0x100_0000_0000);
            lemma_abs_mul(self@.z, v@.x, 1000000, 0x100_0000_0000);
            lemma_abs_mul(self@.x, v@.z, 1000000, 0x100_0000_0000);
            lemma_abs_mul(self@.x, v@.y, 1000000, 0x100_0000_0000);
            lemma_abs_mul(self@.y, v@.x, 1000000, 0x100_0000_0000);
        }
        let c1x = uy * vz - uz * vy;
        let c1y = uz * vx - ux * vz;
        let c1z = ux * vy - uy * vx;
        proof {
            let c1b: int = 2 * ((1000000 as int) * (0x100_0000_0000 as int));
            lemma_abs_mul(self@.y, c1z as int, 1000000, c1b);
            lemma_abs_mul(self@.z, c1y as int, 1000000, c1b);
            lemma_abs_mul(self@.z, c1x as int, 1000000, c1b);
            lemma_abs_mul(self@.x, c1z as int, 1000000, c1b);
            lemma_abs_mul(self@.x, c1y as int, 1000000, c1b);
            lemma_abs_mul(self@.y, c1x as int, 1000000, c1b);
            lemma_abs_mul(self@.w, c1x as int, 1000000, c1b);
            lemma_abs_mul(self@.w, c1y as int, 1000000, c1b);
            lemma_abs_mul(self@.w, c1z as int, 1000000, c1b);
        }
        let c2x = uy * c1z - uz * c1y;
        let c2y = uz * c1x - ux * c1z;
        let c2z = ux * c1y - uy * c1x;
        let sc2 = (SCALE as i128) * (SCALE as i128);
        let dx = div_i128_tz(2 * (w * c1x + c2x), sc2);
        let dy = div_i128_tz(2 * (w * c1y + c2y), sc2);
        let dz = div_i128_tz(2 * (w * c1z + c2z), sc2);
        FxVec3 { x: v.x + dx as i64, y: v.y + dy as i64, z: v.z + dz as i64 }
    }

    /// The minimal rotation carrying direction `f` to direction `t`.
    pub fn from_rotation_arc(f: FxVec3, t: FxVec3) -> (r: FxQuat)
        requires
            v3_bounded(f@, 2 * SCALE as int),
            v3_bounded(t@, 2 * SCALE as int),
        ensures
            r@ == q_from_arc(f@, t@),
            q_wf(r@),
    {
        let c = f.cross(t);
        let d = f.dot_wide(t);
        proof {
            lemma_abs_mul(f@.y, t@.z, 2000000, 2000000);
            lemma_abs_mul(f@.z, t@.y, 2000000, 2000000);
            lemma_abs_mul(f@.z, t@.x, 2000000, 2000000);
            lemma_abs_mul(f@.x, t@.z, 2000000, 2000000);
            lemma_abs_mul(f@.x, t@.y, 2000000, 2000000);
            lemma_abs_mul(f@.y, t@.x, 2000000, 2000000);
            lemma_abs_mul(f@.x, t@.x, 2000000, 2000000);
            lemma_abs_mul(f@.y, t@.y, 2000000, 2000000);
            lemma_abs_mul(f@.z, t@.z, 2000000, 2000000);
            lemma_div_tz_magnitude(v3_cross(f@, t@).x, SCALE as int, 8000000);
            lemma_div_tz_magnitude(v3_cross(f@, t@).y, SCALE as int, 8000000);
            lemma_div_tz_magnitude(v3_cross(f@, t@).z, SCALE as int, 8000000);
            lemma_div_tz_magnitude(v3_dot(f@, t@), SCALE as int, 12000000);
        }
        let sc = SCALE as i128;
        let qx = div_i128_tz(c.x as i128, sc);
        let qy = div_i128_tz(c.y as i128, sc);
        let qz = div_i128_tz(c.z as i128, sc);
        let qw = sc + div_i128_tz(d, sc);
        normalize_parts(qx, qy, qz, qw)
    }
}

/// Rescales four quaternion parts to unit length.
fn normalize_parts(x: i128, y: i128, z: i128, w: i128) -> (r: FxQuat)
    requires
        -0x1_0000_0000_0000 <= x <= 0x1_0000_0000_0000,
        -0x1_0000_0000_0000 <= y <= 0x1_0000_0000_0000,
        -0x1_0000_0000_0000 <= z <= 0x1_0000_0000_0000,
        -0x1_0000_0000_0000 <= w <= 0x1_0000_0000_0000,
    ensures
        r@ == q_normalized(Q4 { x: x as int, y: y as int, z: z as int, w: w as int }),
        q_wf(r@),
{
    let ghost q = Q4 { x: x as int, y: y as int, z: z as int, w: w as int };
    proof {
        lemma_part_square(x as int);
        lemma_part_square(y as int);
        lemma_part_square(z as int);
        lemma_part_square(w as int);
    }
    let m = x * x + y * y + z * z + w * w;
    if m == 0 {
        proof {
            lemma_q_norm_sq_zero(q);
        }
        FxQuat { x: 0, y: 0, z: 0, w: SCALE }
    } else {
        let n_u = isqrt_u128(m as u128);
        proof {
            let ni = n_u as int;
            assert(ni < 0x8000_0000_0000_0000) by (nonlinear_arith)
                requires
                    ni >= 0,
                    ni * ni < 0x4000_0000_0000_0000_0000_0000_0000_0000;
            assert(ni >= 1) by (nonlinear_arith)
                requires
                    ni >= 0,
                    (ni + 1) * (ni + 1) > m as int,
                    m as int >= 1;
            lemma_part_le_norm(q.x, q.y, q.z, q.w, ni, m as int);
            lemma_part_le_norm(q.y, q.x, q.z, q.w, ni, m as int);
            lemma_part_le_norm(q.z, q.x, q.y, q.w, ni, m as int);
            lemma_part_le_norm(q.w, q.x, q.y, q.z, ni, m as int);
            lemma_part_scaled(q.x, ni);
            lemma_part_scaled(q.y, ni);
            lemma_part_scaled(q.z, ni);
            lemma_part_scaled(q.w, ni);
        }
        let n = n_u as i128;
        let sc = SCALE as i128;
        let rx = div_i128_tz(x * sc, n);
        let ry = div_i128_tz(y * sc, n);
        let rz = div_i128_tz(z * sc, n);
        let rw = div_i128_tz(w * sc, n);
        FxQuat { x: rx as i64, y: ry as i64, z: rz as i64, w: rw as i64 }
    }
}

/// Every Hamilton-product component of two well-formed quaternions is
/// within `4 * SCALE` after the division, with the undivided sums well
/// inside 128 bits.
pub proof fn lemma_q_mul_raw_bounds(a: Q4, b: Q4)
    requires
        q_wf(a),
        q_wf(b),
    ensures
        -4000000 <= q_mul_raw(a, b).x <= 4000000,
        -4000000 <= q_mul_raw(a, b).y <= 4000000,
        -4000000 <= q_mul_raw(a, b).z <= 4000000,
        -4000000 <= q_mul_raw(a, b).w <= 4000000,
        -(i128::MAX as int) <= a.w * b.x + a.x * b.w + a.y * b.z - a.z * b.y <= i128::MAX as int,
        -(i128::MAX as int) <= a.w * b.y - a.x * b.z + a.y * b.w + a.z * b.x <= i128::MAX as int,
        -(i128::MAX as int) <= a.w * b.z + a.x * b.y - a.y * b.x + a.z * b.w <= i128::MAX as int,
        -(i128::MAX as int) <= a.w * b.w - a.x * b.x - a.y * b.y - a.z * b.z <= i128::MAX as int,
{
    lemma_abs_mul(a.x, b.x, 1000000, 1000000);
    lemma_abs_mul(a.x, b.y, 1000000, 1000000);
    lemma_abs_mul(a.x, b.z, 1000000, 1000000);
    lemma_abs_mul(a.x, b.w, 1000000, 1000000);
    lemma_abs_mul(a.y, b.x, 1000000, 1000000);
    lemma_abs_mul(a.y, b.y, 1000000, 1000000);
    lemma_abs_mul(a.y, b.z, 1000000, 1000000);
    lemma_abs_mul(a.y, b.w, 1000000, 1000000);
    lemma_abs_mul(a.z, b.x, 1000000, 1000000);
    lemma_abs_mul(a.z, b.y, 1000000, 1000000);
    lemma_abs_mul(a.z, b.z, 1000000, 1000000);
    lemma_abs_mul(a.z, b.w, 1000000, 1000000);
    lemma_abs_mul(a.w, b.x, 1000000, 1000000);
    lemma_abs_mul(a.w, b.y, 1000000, 1000000);
    lemma_abs_mul(a.w, b.z, 1000000, 1000000);
    lemma_abs_mul(a.w, b.w, 1000000, 1000000);
    lemma_div_tz_magnitude(a.w * b.x + a.x * b.w + a.y * b.z - a.z * b.y, SCALE as int, 4000000);
    lemma_div_tz_magnitude(a.w * b.y - a.x * b.z + a.y * b.w + a.z * b.x, SCALE as int, 4000000);
    lemma_div_tz_magnitude(a.w * b.z + a.x * b.y - a.y * b.x + a.z * b.w, SCALE as int, 4000000);
    lemma_div_tz_magnitude(a.w * b.w - a.x * b.x - a.y * b.y - a.z * b.z, SCALE as int, 4000000);
}

/// A quaternion with components within the normalization bound comes out
/// of `q_normalized` well-formed.
pub proof fn lemma_q_normalized_wf(q: Q4)
    requires
        -0x1_0000_0000_0000 <= q.x <= 0x1_0000_0000_0000,
        -0x1_0000_0000_0000 <= q.y <= 0x1_0000_0000_0000,
        -0x1_0000_0000_0000 <= q.z <= 0x1_0000_0000_0000,
        -0x1_0000_0000_0000 <= q.w <= 0x1_0000_0000_0000,
    ensures
        q_wf(q_normalized(q)),
{
    let m = q_norm_sq(q);
    lemma_part_square(q.x);
    lemma_part_square(q.y);
    lemma_part_square(q.z);
    lemma_part_square(q.w);
    if m == 0 {
    } else {
        let n = sqrt_floor(m);
        crate::fixed::lemma_sqrt_floor_bounds(m);
        assert(n >= 1) by (nonlinear_arith)
            requires n >= 0, (n + 1) * (n + 1) > m, m >= 1;
        assert(n < 0x8000_0000_0000_0000) by (nonlinear_arith)
            requires
                n >= 0,
                n * n <= m,
                m <= 0x4_0000_0000_0000_0000_0000_0000;
        lemma_part_le_norm(q.x, q.y, q.z, q.w, n, m);
        lemma_part_le_norm(q.y, q.x, q.z, q.w, n, m);
        lemma_part_le_norm(q.z, q.x, q.y, q.w, n, m);
        lemma_part_le_norm(q.w, q.x, q.y, q.z, n, m);
        lemma_part_scaled(q.x, n);
        lemma_part_scaled(q.y, n);
        lemma_part_scaled(q.z, n);
        lemma_part_scaled(q.w, n);
    }
}

/// Composition of well-formed rotations is well-formed.
pub proof fn lemma_q_mul_wf(a: Q4, b: Q4)
    requires
        q_wf(a),
        q_wf(b),
    ensures
        q_wf(q_mul(a, b)),
{
    lemma_q_mul_raw_bounds(a, b);
    lemma_q_normalized_wf(q_mul_raw(a, b));
}

/// Bounds of a rotated vector: rotating by a well-formed rotation moves
/// each coordinate by at most the rounding reach of the rotation formula.
pub proof fn lemma_q_rotate_bounds(q: Q4, v: V3)
    requires
        q_wf(q),
        v3_bounded(v, len_limit()),
    ensures
        ({
            let u = V3 { x: q.x, y: q.y, z: q.z };
            let c1 = v3_cross(u, v);
            let c2 = v3_cross(u, c1);
            let s2 = (SCALE as int) * (SCALE as int);
            &&& -(i128::MAX as int) <= 2 * (q.w * c1.x + c2.x) <= i128::MAX as int
            &&& -(i128::MAX as int) <= 2 * (q.w * c1.y + c2.y) <= i128::MAX as int
            &&& -(i128::MAX as int) <= 2 * (q.w * c1.z + c2.z) <= i128::MAX as int
            &&& -0x1_0000_0000_0000 <= div_tz(2 * (q.w * c1.x + c2.x), s2) <= 0x1_0000_0000_0000
            &&& -0x1_0000_0000_0000 <= div_tz(2 * (q.w * c1.y + c2.y), s2) <= 0x1_0000_0000_0000
            &&& -0x1_0000_0000_0000 <= div_tz(2 * (q.w * c1.z + c2.z), s2) <= 0x1_0000_0000_0000
            &&& v3_bounded(q_rotate(q, v), len_limit() + 0x1_0000_0000_0000)
        }),
{
    let u = V3 { x: q.x, y: q.y, z: q.z };
    let c1 = v3_cross(u, v);
    let c2 = v3_cross(u, c1);
    lemma_abs_mul(q.y, v.z, 1000000, 0x100_0000_0000);
    lemma_abs_mul(q.z, v.y, 1000000, 0x100_0000_0000);
    lemma_abs_mul(q.z, v.x, 1000000, 0x100_0000_0000);
    lemma_abs_mul(q.x, v.z, 1000000, 0x100_0000_0000);
    lemma_abs_mul(q.x, v.y, 1000000, 0x100_0000_0000);
    lemma_abs_mul(q.y, v.x, 1000000, 0x100_0000_0000);
    let c1b: int = 2 * ((1000000 as int) * (0x100_0000_0000 as int));
    lemma_abs_mul(q.y, c1.z, 1000000, c1b);
    lemma_abs_mul(q.z, c1.y, 1000000, c1b);
    lemma_abs_mul(q.z, c1.x, 1000000, c1b);
    lemma_abs_mul(q.x, c1.z, 1000000, c1b);
    lemma_abs_mul(q.x, c1.y, 1000000, c1b);
    lemma_abs_mul(q.y, c1.x, 1000000, c1b);
    lemma_abs_mul(q.w, c1.x, 1000000, c1b);
    lemma_abs_mul(q.w, c1.y, 1000000, c1b);
    lemma_abs_mul(q.w, c1.z, 1000000, c1b);
    lemma_div_tz_magnitude(2 * (q.w * c1.x + c2.x), (SCALE as int) * (SCALE as int),
        0x1_0000_0000_0000);
    lemma_div_tz_magnitude(2 * (q.w * c1.y + c2.y), (SCALE as int) * (SCALE as int),
        0x1_0000_0000_0000);
    lemma_div_tz_magnitude(2 * (q.w * c1.z + c2.z), (SCALE as int) * (SCALE as int),
        0x1_0000_0000_0000);
}

/// A quaternion part's square stays well inside 128 bits.
proof fn lemma_part_square(c: int)
    requires
        -0x1_0000_0000_0000 <= c <= 0x1_0000_0000_0000,
    ensures
        0 <= c * c <= 0x1_0000_0000_0000_0000_0000_0000,
{
    assert(0 <= c * c <= 0x1_0000_0000_0000_0000_0000_0000) by (nonlinear_arith)
        requires -0x1_0000_0000_0000 <= c <= 0x1_0000_0000_0000;
}

/// A quaternion with squared norm zero is the zero quaternion.
proof fn lemma_q_norm_sq_zero(q: Q4)
    requires
        q_norm_sq(q) == 0,
    ensures
        q.x == 0 && q.y == 0 && q.z == 0 && q.w == 0,
{
    assert(q.x == 0 && q.y == 0 && q.z == 0 && q.w == 0) by (nonlinear_arith)
        requires q.x * q.x + q.y * q.y + q.z * q.z + q.w * q.w == 0;
}

/// Each part of a quaternion is bounded by its norm.
proof fn lemma_part_le_norm(c: int, d: int, e: int, g: int, n: int, m: int)
    requires
        c * c + d * d + e * e + g * g == m,
        n >= 0,
        m < (n + 1) * (n + 1),
    ensures
        -n <= c <= n,
{
    assert(-n <= c <= n) by (nonlinear_arith)
        requires
            c * c + d * d + e * e + g * g == m,
            n >= 0,
            m < (n + 1) * (n + 1);
}

/// A part within the norm, rescaled by `SCALE` and divided by the norm,
/// lands within `SCALE`.
proof fn lemma_part_scaled(c: int, n: int)
    requires
        -n <= c <= n,
        n >= 1,
        n < 0x8000_0000_0000_0000,
    ensures
        -(i128::MAX as int) <= c * SCALE <= i128::MAX as int,
        -(SCALE as int) <= div_tz(c * SCALE, n) <= SCALE as int,
{
    assert(-((SCALE as int) * n) <= c * SCALE && c * SCALE <= (SCALE as int) * n
        && (SCALE as int) * n <= i128::MAX as int) by (nonlinear_arith)
        requires
            -n <= c <= n,
            1 <= n < 0x8000_0000_0000_0000,
            SCALE as int == 1000000;
    assert((SCALE as int) * n == n * (SCALE as int)) by (nonlinear_arith);
    lemma_div_tz_magnitude(c * SCALE, n, SCALE as int);
}

} // verus!
