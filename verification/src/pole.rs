//! The pole-vector constraint: an opt-in adjustment that pulls a chain's
//! middle joint (the elbow) toward the plane spanned by the chain's chord
//! and a hint direction, blended by a weight, then re-places it at its
//! segment's length from the upper-arm joint.
//!
//! The per-frame solver does not apply this step: it is kept as a named
//! pure function, off by default, so enabling it is an explicit choice of
//! the caller — and a blend weight of zero is the exact identity, so
//! leaving it off and applying it with weight zero are the same thing.

use vstd::prelude::*;
use crate::fixed::{SCALE, div_tz, sqrt_floor, lemma_div_tz_magnitude, lemma_div_tz_bounds,
    lemma_div_tz_cancel, lemma_abs_mul, lemma_sqrt_floor_bounds, div_i128_tz};
use crate::vec3::{FxVec3, V3, v3_add, v3_sub, v3_place, v3_scaled_to, v3_cross, v3_dot,
    v3_bounded, norm_sq, norm, dist_sq, tol, len_limit, lemma_scaled_to_bounds,
    lemma_place_spacing};

verus! {

/// Linear interpolation from `a` to `b` by `w` parts of `SCALE`, each
/// coordinate rounded toward zero.
pub open spec fn v3_lerp(a: V3, b: V3, w: int) -> V3 {
    V3 {
        x: a.x + div_tz((b.x - a.x) * w, SCALE as int),
        y: a.y + div_tz((b.y - a.y) * w, SCALE as int),
        z: a.z + div_tz((b.z - a.z) * w, SCALE as int),
    }
}

/// Unit normal (in fixed-point scale) of the plane spanned by the chain's
/// chord (upper arm to hand) and the pole direction.
pub open spec fn pole_plane_normal(anchor: V3, hand: V3, pole: V3) -> V3 {
    v3_scaled_to(v3_cross(v3_scaled_to(v3_sub(hand, anchor), SCALE as int), pole), SCALE as int)
}

/// The constraint is degenerate when chord and pole do not span a plane:
/// the chord vanishes or the two are parallel.
pub open spec fn pole_degenerate(anchor: V3, hand: V3, pole: V3) -> bool {
    norm_sq(v3_cross(v3_scaled_to(v3_sub(hand, anchor), SCALE as int), pole)) == 0
}

/// The elbow projected onto the chord/pole plane through the anchor.
pub open spec fn pole_projected_elbow(anchor: V3, elbow: V3, hand: V3, pole: V3) -> V3 {
    let normal = pole_plane_normal(anchor, hand, pole);
    let ae = v3_sub(elbow, anchor);
    let d = v3_dot(ae, normal);
    let t = V3 {
        x: div_tz(normal.x * d, (SCALE as int) * (SCALE as int)),
        y: div_tz(normal.y * d, (SCALE as int) * (SCALE as int)),
        z: div_tz(normal.z * d, (SCALE as int) * (SCALE as int)),
    };
    v3_add(anchor, v3_sub(ae, t))
}

/// The chain with the constraint applied: the elbow is blended toward its
/// projection by `w` parts of `SCALE` and re-placed at its segment's
/// length from the upper-arm joint.  A weight of zero — the constraint
/// switched off — and a degenerate constraint each change nothing at all.
pub open spec fn pole_constrained(ps: Seq<V3>, seg: int, pole: V3, w: int) -> Seq<V3> {
    if w == 0 || pole_degenerate(ps[1], ps[3], pole) {
        ps
    } else {
        let projected = pole_projected_elbow(ps[1], ps[2], ps[3], pole);
        ps.update(2, v3_place(ps[1], v3_lerp(ps[2], projected, w), seg))
    }
}

/// Applies the pole-vector constraint to a four-joint chain.  `positions`
/// are the chain's solved global positions, `seg` the upper-arm-to-elbow
/// segment length, `pole` a short direction hint, and `weight` the blend
/// in parts of `SCALE`: zero is the exact identity and `SCALE` projects
/// the elbow fully onto the chord/pole plane.  Only the elbow entry can
/// ever change.
pub fn apply_pole_constraint(
    positions: &Vec<FxVec3>,
    seg: i64,
    pole: FxVec3,
    weight: i64,
) -> (r: Vec<FxVec3>)
    requires
        positions@.len() == 4,
        forall|k: int| 0 <= k < 4 ==> v3_bounded(#[trigger] positions@[k]@, len_limit()),
        v3_bounded(pole@, 2 * SCALE as int),
        0 <= seg <= len_limit(),
        0 <= weight <= SCALE as int,
    ensures
        r@.len() == 4,
        crate::solver::view_positions(r@)
            == pole_constrained(crate::solver::view_positions(positions@), seg as int, pole@,
                weight as int),
        weight == 0 ==> r@ == positions@,
        forall|k: int| 0 <= k < 4 && k != 2 ==> #[trigger] r@[k] == positions@[k],
{
    let ghost ps = crate::solver::view_positions(positions@);
    if weight == 0 {
        let mut r: Vec<FxVec3> = Vec::new();
        r.push(positions[0]);
        r.push(positions[1]);
        r.push(positions[2]);
        r.push(positions[3]);
        proof {
            assert(r@ =~= positions@);
        }
        return r;
    }
    let anchor = positions[1];
    let elbow = positions[2];
    let hand = positions[3];
    let chord_unit = hand.sub(anchor).scaled_to(SCALE);
    let c = chord_unit.cross(pole);
    let cm = c.norm_sq_wide();
    let mut r: Vec<FxVec3> = Vec::new();
    r.push(positions[0]);
    r.push(positions[1]);
    if cm == 0 {
        r.push(positions[2]);
        r.push(positions[3]);
        proof {
            assert(r@ =~= positions@);
            assert(crate::solver::view_positions(r@) =~= pole_constrained(ps, seg as int,
                pole@, weight as int));
        }
        r
    } else {
        let normal = c.scaled_to(SCALE);
        let ae = elbow.sub(anchor);
        let d = ae.dot_wide(normal);
        proof {
            assert(-0x8000_0000_0000_0000 <= d as int <= 0x8000_0000_0000_0000)
                by (nonlinear_arith)
                requires
                    d as int == ae@.x * normal@.x + ae@.y * normal@.y + ae@.z * normal@.z,
                    -0x200_0000_0000 <= ae@.x <= 0x200_0000_0000,
                    -0x200_0000_0000 <= ae@.y <= 0x200_0000_0000,
                    -0x200_0000_0000 <= ae@.z <= 0x200_0000_0000,
                    -0x10_0000 <= normal@.x <= 0x10_0000,
                    -0x10_0000 <= normal@.y <= 0x10_0000,
                    -0x10_0000 <= normal@.z <= 0x10_0000;
            lemma_normal_term_fits(normal@.x, d as int);
            lemma_normal_term_fits(normal@.y, d as int);
            lemma_normal_term_fits(normal@.z, d as int);
        }
        let sc2: i128 = (SCALE as i128) * (SCALE as i128);
        let tx = div_i128_tz((normal.x as i128) * d, sc2);
        let ty = div_i128_tz((normal.y as i128) * d, sc2);
        let tz = div_i128_tz((normal.z as i128) * d, sc2);
        let t = FxVec3 { x: tx as i64, y: ty as i64, z: tz as i64 };
        let proj = anchor.add(ae.sub(t));
        proof {
            assert(proj@ == pole_projected_elbow(ps[1], ps[2], ps[3], pole@));
            lemma_lerp_coord_fits(elbow@.x, proj@.x, weight as int);
            lemma_lerp_coord_fits(elbow@.y, proj@.y, weight as int);
            lemma_lerp_coord_fits(elbow@.z, proj@.z, weight as int);
        }
        let bx = elbow.x + (div_i128_tz(((proj.x as i128) - (elbow.x as i128)) * (weight as i128),
            SCALE as i128) as i64);
        let by = elbow.y + (div_i128_tz(((proj.y as i128) - (elbow.y as i128)) * (weight as i128),
            SCALE as i128) as i64);
        let bz = elbow.z + (div_i128_tz(((proj.z as i128) - (elbow.z as i128)) * (weight as i128),
            SCALE as i128) as i64);
        let blended = FxVec3 { x: bx, y: by, z: bz };
        proof {
            assert(blended@ == v3_lerp(ps[2], pole_projected_elbow(ps[1], ps[2], ps[3], pole@),
                weight as int));
        }
        let placed = anchor.place(blended, seg);
        r.push(placed);
        r.push(positions[3]);
        proof {
            assert(r@[0] == positions@[0]);
            assert(r@[1] == positions@[1]);
            assert(r@[3] == positions@[3]);
            assert(crate::solver::view_positions(r@) =~= pole_constrained(ps, seg as int,
                pole@, weight as int));
        }
        r
    }
}

/// One projection term `normal.c * d / SCALE^2` fits comfortably in 64
/// bits: the normal is within `SCALE` and `d` within `2^63`.
proof fn lemma_normal_term_fits(nc: int, d: int)
    requires
        -0x10_0000 <= nc <= 0x10_0000,
        -0x8000_0000_0000_0000 <= d <= 0x8000_0000_0000_0000,
    ensures
        -(i128::MAX as int) <= nc * d <= i128::MAX as int,
        -0x2_0000_0000_0000 <= div_tz(nc * d, (SCALE as int) * (SCALE as int)) <= 0x2_0000_0000_0000,
{
    assert(-0x80_0000_0000_0000_0000_0000 <= nc * d <= 0x80_0000_0000_0000_0000_0000)
        by (nonlinear_arith)
        requires
            -0x10_0000 <= nc <= 0x10_0000,
            -0x8000_0000_0000_0000 <= d <= 0x8000_0000_0000_0000;
    assert(0x2_0000_0000_0000 * (1000000 * 1000000) >= 0x80_0000_0000_0000_0000_0000)
        by (nonlinear_arith);
    lemma_div_tz_magnitude(nc * d, (SCALE as int) * (SCALE as int), 0x2_0000_0000_0000);
}

/// One blended coordinate fits comfortably in 64 bits.
proof fn lemma_lerp_coord_fits(ec: int, pc: int, w: int)
    requires
        -0x200_0000_0000 <= ec <= 0x200_0000_0000,
        -0x3_0000_0000_0000 <= pc <= 0x3_0000_0000_0000,
        0 <= w <= SCALE as int,
    ensures
        -(i128::MAX as int) <= (pc - ec) * w <= i128::MAX as int,
        -0x4_0000_0000_0000 <= div_tz((pc - ec) * w, SCALE as int) <= 0x4_0000_0000_0000,
        -0x5_0000_0000_0000 <= ec + div_tz((pc - ec) * w, SCALE as int) <= 0x5_0000_0000_0000,
{
    assert(-(0x4_0000_0000_0000 * 1000000) <= (pc - ec) * w
        <= 0x4_0000_0000_0000 * 1000000) by (nonlinear_arith)
        requires
            -0x200_0000_0000 <= ec <= 0x200_0000_0000,
            -0x3_0000_0000_0000 <= pc <= 0x3_0000_0000_0000,
            0 <= w <= 1000000;
    lemma_div_tz_magnitude((pc - ec) * w, SCALE as int, 0x4_0000_0000_0000);
}

/// A full-scale blend is exact: interpolating all the way to `b` lands on
/// `b`, because the blend's division cancels its own scale.
pub proof fn lemma_lerp_full(a: V3, b: V3)
    ensures
        v3_lerp(a, b, SCALE as int) == b,
{
    lemma_div_tz_cancel(b.x - a.x, SCALE as int);
    lemma_div_tz_cancel(b.y - a.y, SCALE as int);
    lemma_div_tz_cancel(b.z - a.z, SCALE as int);
}

/// At full weight the constraint places the elbow straight at its
/// projection onto the chord/pole plane: the blend step drops out
/// exactly.
pub proof fn lemma_pole_full_weight(ps: Seq<V3>, seg: int, pole: V3)
    requires
        ps.len() == 4,
        !pole_degenerate(ps[1], ps[3], pole),
    ensures
        pole_constrained(ps, seg, pole, SCALE as int)
            == ps.update(2, v3_place(ps[1], pole_projected_elbow(ps[1], ps[2], ps[3], pole), seg)),
{
    lemma_lerp_full(ps[2], pole_projected_elbow(ps[1], ps[2], ps[3], pole));
}

/// Spacing law of the constraint: the constrained elbow sits at its
/// segment's length from the upper-arm joint to within the solver's
/// tolerance, under the same non-degeneracy conditions as any placement
/// (the blended elbow must not coincide with the upper-arm joint, nor sit
/// closer than half the segment, and the segment must not be vanishingly
/// small).
pub proof fn lemma_pole_elbow_spacing(ps: Seq<V3>, seg: int, pole: V3, w: int)
    requires
        ps.len() == 4,
        w != 0,
        !pole_degenerate(ps[1], ps[3], pole),
        52 <= seg,
        ({
            let blended = v3_lerp(ps[2], pole_projected_elbow(ps[1], ps[2], ps[3], pole), w);
            norm_sq(v3_sub(blended, ps[1])) >= 1
                && seg <= 2 * norm(v3_sub(blended, ps[1]))
        }),
    ensures
        ({
            let out = pole_constrained(ps, seg, pole, w);
            (seg - tol()) * (seg - tol()) <= dist_sq(out[2], ps[1])
                && dist_sq(out[2], ps[1]) <= (seg + tol()) * (seg + tol())
        }),
{
    let blended = v3_lerp(ps[2], pole_projected_elbow(ps[1], ps[2], ps[3], pole), w);
    assert(pole_constrained(ps, seg, pole, w)[2] == v3_place(ps[1], blended, seg));
    lemma_place_spacing(ps[1], blended, seg);
}

/// Coplanarity of the projection: the projected elbow lies in the
/// chord/pole plane through the upper-arm joint, up to the stated
/// rounding slack — `603 * b` absorbs the plane normal's own rounding
/// over an elbow offset with coordinates within `b`, and `3 * SCALE` the
/// per-coordinate division remainders.  The chord and pole must span the
/// plane decently: the cross product's norm at least half the unit scale.
pub proof fn lemma_pole_projection_coplanar(anchor: V3, elbow: V3, hand: V3, pole: V3, b: int)
    requires
        v3_bounded(v3_sub(elbow, anchor), b),
        b >= 0,
        !pole_degenerate(anchor, hand, pole),
        SCALE as int
            <= 2 * norm(v3_cross(v3_scaled_to(v3_sub(hand, anchor), SCALE as int), pole)),
    ensures
        ({
            let normal = pole_plane_normal(anchor, hand, pole);
            let proj = pole_projected_elbow(anchor, elbow, hand, pole);
            -(603 * b + 3 * (SCALE as int)) <= v3_dot(v3_sub(proj, anchor), normal)
                && v3_dot(v3_sub(proj, anchor), normal) <= 603 * b + 3 * (SCALE as int)
        }),
{
    let s: int = SCALE as int;
    let s2 = s * s;
    let c = v3_cross(v3_scaled_to(v3_sub(hand, anchor), s), pole);
    let normal = v3_scaled_to(c, s);
    let ae = v3_sub(elbow, anchor);
    let d = v3_dot(ae, normal);
    let tx = div_tz(normal.x * d, s2);
    let ty = div_tz(normal.y * d, s2);
    let tz = div_tz(normal.z * d, s2);
    let proj = pole_projected_elbow(anchor, elbow, hand, pole);

    // The cross product spans the plane, so the normal is a unit vector
    // up to rounding: components within SCALE, squared norm near SCALE^2.
    assert(norm_sq(c) >= 0) by (nonlinear_arith);
    lemma_scaled_to_bounds(c, s);
    let nsq = norm_sq(normal);
    let zero = V3 { x: 0, y: 0, z: 0 };
    assert(v3_sub(c, zero) == c);
    assert(v3_place(zero, c, s) == normal);
    lemma_place_spacing(zero, c, s);
    assert(dist_sq(v3_place(zero, c, s), zero) == nsq);
    assert((s - 100) * (s - 100) == s * s - 200 * s + 10000) by (nonlinear_arith);
    assert((s + 100) * (s + 100) == s * s + 200 * s + 10000) by (nonlinear_arith);
    assert(-(201 * s) <= nsq - s2 <= 201 * s);

    // The weight of the elbow offset along the normal.
    lemma_abs_mul(ae.x, normal.x, b, s);
    lemma_abs_mul(ae.y, normal.y, b, s);
    lemma_abs_mul(ae.z, normal.z, b, s);
    assert(-(3 * (b * s)) <= d <= 3 * (b * s));

    // Per-coordinate division remainders of the projection term.
    lemma_div_tz_bounds(normal.x * d, s2);
    lemma_div_tz_bounds(normal.y * d, s2);
    lemma_div_tz_bounds(normal.z * d, s2);
    let ex = normal.x * d - tx * s2;
    let ey = normal.y * d - ty * s2;
    let ez = normal.z * d - tz * s2;
    assert(-(s2 - 1) <= ex <= s2 - 1);
    assert(-(s2 - 1) <= ey <= s2 - 1);
    assert(-(s2 - 1) <= ez <= s2 - 1);

    // Multiply the projection's defining equations through by SCALE^2.
    assert((tx * normal.x) * s2 == (normal.x * normal.x) * d - normal.x * ex)
        by (nonlinear_arith)
        requires ex == normal.x * d - tx * s2;
    assert((ty * normal.y) * s2 == (normal.y * normal.y) * d - normal.y * ey)
        by (nonlinear_arith)
        requires ey == normal.y * d - ty * s2;
    assert((tz * normal.z) * s2 == (normal.z * normal.z) * d - normal.z * ez)
        by (nonlinear_arith)
        requires ez == normal.z * d - tz * s2;
    let dt = tx * normal.x + ty * normal.y + tz * normal.z;
    assert(dt * s2 == (tx * normal.x) * s2 + (ty * normal.y) * s2 + (tz * normal.z) * s2)
        by (nonlinear_arith)
        requires dt == tx * normal.x + ty * normal.y + tz * normal.z;
    assert(nsq * d == (normal.x * normal.x) * d + (normal.y * normal.y) * d
        + (normal.z * normal.z) * d) by (nonlinear_arith)
        requires nsq == normal.x * normal.x + normal.y * normal.y + normal.z * normal.z;
    let ee = normal.x * ex + normal.y * ey + normal.z * ez;
    assert(dt * s2 == nsq * d - ee);
    lemma_abs_mul(normal.x, ex, s, s2 - 1);
    lemma_abs_mul(normal.y, ey, s, s2 - 1);
    lemma_abs_mul(normal.z, ez, s, s2 - 1);

    // The residual along the normal, multiplied through by SCALE^2.
    let dotval = v3_dot(v3_sub(proj, anchor), normal);
    assert(v3_sub(proj, anchor) == v3_sub(ae, V3 { x: tx, y: ty, z: tz }));
    assert((ae.x - tx) * normal.x == ae.x * normal.x - tx * normal.x) by (nonlinear_arith);
    assert((ae.y - ty) * normal.y == ae.y * normal.y - ty * normal.y) by (nonlinear_arith);
    assert((ae.z - tz) * normal.z == ae.z * normal.z - tz * normal.z) by (nonlinear_arith);
    assert(dotval == d - dt);
    assert(dotval * s2 == d * (s2 - nsq) + ee) by (nonlinear_arith)
        requires
            dotval == d - dt,
            dt * s2 == nsq * d - ee;
    lemma_abs_mul(d, s2 - nsq, 3 * (b * s), 201 * s);
    assert(-(603 * b + 3 * s) <= dotval <= 603 * b + 3 * s) by (nonlinear_arith)
        requires
            -((3 * (b * s)) * (201 * s) + 3 * (s * (s2 - 1))) <= dotval * s2,
            dotval * s2 <= (3 * (b * s)) * (201 * s) + 3 * (s * (s2 - 1)),
            s == 1000000,
            s2 == s * s,
            b >= 0;
}

/// Coplanarity at full weight: the elbow the constraint actually writes
/// lies in the chord/pole plane through the upper-arm joint, with the
/// projection's slack at most doubled by the final re-placement plus its
/// own division remainders.
pub proof fn lemma_pole_full_weight_coplanar(ps: Seq<V3>, seg: int, pole: V3, b: int)
    requires
        ps.len() == 4,
        v3_bounded(v3_sub(ps[2], ps[1]), b),
        b >= 0,
        0 <= seg,
        !pole_degenerate(ps[1], ps[3], pole),
        SCALE as int
            <= 2 * norm(v3_cross(v3_scaled_to(v3_sub(ps[3], ps[1]), SCALE as int), pole)),
        ({
            let proj = pole_projected_elbow(ps[1], ps[2], ps[3], pole);
            norm_sq(v3_sub(proj, ps[1])) >= 1 && seg <= 2 * norm(v3_sub(proj, ps[1]))
        }),
    ensures
        ({
            let normal = pole_plane_normal(ps[1], ps[3], pole);
            let out = pole_constrained(ps, seg, pole, SCALE as int);
            -(1206 * b + 9 * (SCALE as int)) <= v3_dot(v3_sub(out[2], ps[1]), normal)
                && v3_dot(v3_sub(out[2], ps[1]), normal) <= 1206 * b + 9 * (SCALE as int)
        }),
{
    let s: int = SCALE as int;
    lemma_pole_full_weight(ps, seg, pole);
    lemma_pole_projection_coplanar(ps[1], ps[2], ps[3], pole, b);
    let c = v3_cross(v3_scaled_to(v3_sub(ps[3], ps[1]), s), pole);
    let normal = pole_plane_normal(ps[1], ps[3], pole);
    let proj = pole_projected_elbow(ps[1], ps[2], ps[3], pole);
    let po = v3_sub(proj, ps[1]);
    let m2 = norm_sq(po);
    let np = sqrt_floor(m2);
    assert(norm_sq(c) >= 0) by (nonlinear_arith);
    lemma_scaled_to_bounds(c, s);
    lemma_sqrt_floor_bounds(m2);
    assert(np >= 1) by (nonlinear_arith)
        requires np >= 0, (np + 1) * (np + 1) > m2, m2 >= 1;
    lemma_scaled_to_bounds(po, seg);

    // The placed elbow's offset from the anchor is the rescaled
    // projection offset.
    assert(pole_constrained(ps, seg, pole, s)[2] == v3_place(ps[1], proj, seg));
    let sc = v3_scaled_to(po, seg);
    assert(v3_sub(v3_place(ps[1], proj, seg), ps[1]) == sc);

    // Per-coordinate division remainders of the rescaling.
    lemma_div_tz_bounds(po.x * seg, np);
    lemma_div_tz_bounds(po.y * seg, np);
    lemma_div_tz_bounds(po.z * seg, np);
    let scx = div_tz(po.x * seg, np);
    let scy = div_tz(po.y * seg, np);
    let scz = div_tz(po.z * seg, np);
    let fx = po.x * seg - scx * np;
    let fy = po.y * seg - scy * np;
    let fz = po.z * seg - scz * np;
    assert(-(np - 1) <= fx <= np - 1);
    assert(-(np - 1) <= fy <= np - 1);
    assert(-(np - 1) <= fz <= np - 1);

    // Multiply the rescaling's defining equations through by the norm.
    assert((scx * normal.x) * np == (po.x * normal.x) * seg - fx * normal.x)
        by (nonlinear_arith)
        requires fx == po.x * seg - scx * np;
    assert((scy * normal.y) * np == (po.y * normal.y) * seg - fy * normal.y)
        by (nonlinear_arith)
        requires fy == po.y * seg - scy * np;
    assert((scz * normal.z) * np == (po.z * normal.z) * seg - fz * normal.z)
        by (nonlinear_arith)
        requires fz == po.z * seg - scz * np;
    let dots = v3_dot(sc, normal);
    let dotp = v3_dot(po, normal);
    assert(dots * np == (scx * normal.x) * np + (scy * normal.y) * np + (scz * normal.z) * np)
        by (nonlinear_arith)
        requires dots == scx * normal.x + scy * normal.y + scz * normal.z;
    assert(dotp * seg == (po.x * normal.x) * seg + (po.y * normal.y) * seg
        + (po.z * normal.z) * seg) by (nonlinear_arith)
        requires dotp == po.x * normal.x + po.y * normal.y + po.z * normal.z;
    let ff = fx * normal.x + fy * normal.y + fz * normal.z;
    assert(dots * np == dotp * seg - ff);
    lemma_abs_mul(fx, normal.x, np - 1, s);
    lemma_abs_mul(fy, normal.y, np - 1, s);
    lemma_abs_mul(fz, normal.z, np - 1, s);
    lemma_abs_mul(dotp, seg, 603 * b + 3 * s, 2 * np);
    assert(-(1206 * b + 9 * s) <= dots <= 1206 * b + 9 * s) by (nonlinear_arith)
        requires
            -((603 * b + 3 * s) * (2 * np) + 3 * ((np - 1) * s)) <= dots * np,
            dots * np <= (603 * b + 3 * s) * (2 * np) + 3 * ((np - 1) * s),
            np >= 1,
            s == 1000000,
            b >= 0;
}

} // verus!
