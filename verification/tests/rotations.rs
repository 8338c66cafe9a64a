use humanoid_ik::fixed::SCALE;
use humanoid_ik::quat::FxQuat;
use humanoid_ik::vec3::FxVec3;

fn v(x: i64, y: i64, z: i64) -> FxVec3 {
    FxVec3 { x, y, z }
}

fn close(a: FxVec3, b: FxVec3, tol: i64) -> bool {
    (a.x - b.x).abs() <= tol && (a.y - b.y).abs() <= tol && (a.z - b.z).abs() <= tol
}

/// The identity rotation moves nothing, exactly: its vector part is zero,
/// so every correction term vanishes.
#[test]
fn identity_rotation_is_exact() {
    let q = FxQuat::identity();
    let p = v(123_456, -789_012, 345_678);
    assert_eq!(q.rotate(p), p);
}

/// The minimal rotation from the x axis to the y axis is a quarter turn
/// about z: equal z and w parts, nothing else.
#[test]
fn arc_between_axes() {
    let q = FxQuat::from_rotation_arc(v(SCALE, 0, 0), v(0, SCALE, 0));
    assert_eq!(q.x, 0);
    assert_eq!(q.y, 0);
    assert_eq!(q.z, q.w);
    assert!(q.z > 707_000 && q.z < 707_200);
    let turned = q.rotate(v(SCALE, 0, 0));
    assert!(close(turned, v(0, SCALE, 0), 20));
}

/// The conjugate undoes a rotation to within rounding.
#[test]
fn conjugate_inverts() {
    let q = FxQuat::from_rotation_arc(v(SCALE, 0, 0), v(0, 0, SCALE));
    let p = v(250_000, -125_000, 400_000);
    let back = q.conjugate().rotate(q.rotate(p));
    assert!(close(back, p, 50));
}

/// Composing with the identity leaves a unit rotation essentially
/// unchanged (products are renormalized, so components may shift by the
/// last digit).
#[test]
fn identity_is_neutral() {
    let q = FxQuat::from_rotation_arc(v(0, SCALE, 0), v(0, 0, SCALE));
    let r = FxQuat::identity().mul(q);
    assert!((r.x - q.x).abs() <= 2);
    assert!((r.y - q.y).abs() <= 2);
    assert!((r.z - q.z).abs() <= 2);
    assert!((r.w - q.w).abs() <= 2);
}
