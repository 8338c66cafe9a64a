use humanoid_ik::chain::{BoneRole, IkRig, RigSlot, build_once};
use humanoid_ik::fixed::SCALE;
use humanoid_ik::frame::run_frame;
use humanoid_ik::authority::IkAuthority;
use humanoid_ik::pole::apply_pole_constraint;
use humanoid_ik::quat::FxQuat;
use humanoid_ik::skeleton::{Joint, Skeleton};
use humanoid_ik::vec3::FxVec3;

fn identity() -> FxQuat {
    FxQuat { x: 0, y: 0, z: 0, w: SCALE }
}

fn joint(parent: Option<usize>, t: FxVec3) -> Joint {
    Joint {
        parent,
        local_rotation: identity(),
        local_translation: t,
        global_rotation: identity(),
        global_position: FxVec3 { x: 0, y: 0, z: 0 },
        rest: None,
    }
}

fn v(x: i64, y: i64, z: i64) -> FxVec3 {
    FxVec3 { x, y, z }
}

fn built_rig() -> (Skeleton, IkRig) {
    let joints = vec![
        joint(None, v(0, 0, 0)),
        joint(Some(0), v(-150_000, 0, 0)),
        joint(Some(1), v(-200_000, 0, 0)),
        joint(Some(2), v(0, 0, 300_000)),
        joint(Some(3), v(0, 0, 250_000)),
        joint(Some(0), v(150_000, 0, 0)),
        joint(Some(5), v(200_000, 0, 0)),
        joint(Some(6), v(0, 0, 300_000)),
        joint(Some(7), v(0, 0, 250_000)),
    ];
    let roles = vec![
        BoneRole::Hips,
        BoneRole::LeftShoulder,
        BoneRole::LeftUpperArm,
        BoneRole::LeftLowerArm,
        BoneRole::LeftHand,
        BoneRole::RightShoulder,
        BoneRole::RightUpperArm,
        BoneRole::RightLowerArm,
        BoneRole::RightHand,
    ];
    let mut skeleton = Skeleton { joints };
    skeleton.propagate();
    let mut slot = RigSlot::Unbuilt;
    build_once(&mut slot, &mut skeleton, &roles);
    let rig = match slot {
        RigSlot::Built(rig) => rig,
        RigSlot::Unbuilt => panic!("rig was not built"),
    };
    (skeleton, rig)
}

fn dist_sq(a: FxVec3, b: FxVec3) -> i128 {
    let dx = (a.x - b.x) as i128;
    let dy = (a.y - b.y) as i128;
    let dz = (a.z - b.z) as i128;
    dx * dx + dy * dy + dz * dz
}

/// While authority is withheld, a frame changes nothing at all.
#[test]
fn unauthorized_frame_is_noop() {
    let (mut skeleton, rig) = built_rig();
    let before = skeleton.joints.clone();
    let authority = IkAuthority { enabled: false };
    run_frame(&mut skeleton, &rig, v(0, 0, 400_000), v(0, 0, 400_000), &authority);
    assert_eq!(skeleton.joints, before);
}

/// Two frames from identical rest states and targets produce identical
/// skeletons: the whole frame is a pure function of its inputs.
#[test]
fn frame_is_deterministic() {
    let (mut a, rig_a) = built_rig();
    let (mut b, rig_b) = built_rig();
    let authority = IkAuthority { enabled: true };
    let lt = v(-250_000, 100_000, 300_000);
    let rt = v(250_000, -100_000, 300_000);
    run_frame(&mut a, &rig_a, lt, rt, &authority);
    run_frame(&mut b, &rig_b, lt, rt, &authority);
    assert_eq!(a.joints, b.joints);
}

/// A torso whose arm bones all measure a tenth of a unit, so that each
/// solved spacing coincides with a true bone length and a propagation
/// reproduces the solved positions up to rotation rounding.
fn short_armed_rig() -> (Skeleton, IkRig) {
    let arm = v(0, 0, 100_000);
    let joints = vec![
        joint(None, v(0, 0, 0)),
        joint(Some(0), v(-150_000, 0, 0)),
        joint(Some(1), arm),
        joint(Some(2), arm),
        joint(Some(3), arm),
        joint(Some(0), v(150_000, 0, 0)),
        joint(Some(5), arm),
        joint(Some(6), arm),
        joint(Some(7), arm),
    ];
    let roles = vec![
        BoneRole::Hips,
        BoneRole::LeftShoulder,
        BoneRole::LeftUpperArm,
        BoneRole::LeftLowerArm,
        BoneRole::LeftHand,
        BoneRole::RightShoulder,
        BoneRole::RightUpperArm,
        BoneRole::RightLowerArm,
        BoneRole::RightHand,
    ];
    let mut skeleton = Skeleton { joints };
    skeleton.propagate();
    let mut slot = RigSlot::Unbuilt;
    build_once(&mut slot, &mut skeleton, &roles);
    let rig = match slot {
        RigSlot::Built(rig) => rig,
        RigSlot::Unbuilt => panic!("rig was not built"),
    };
    (skeleton, rig)
}

/// End to end: an authorized frame bends the left arm so that after the
/// next propagation the hand sits at the solved position, which reaches
/// the target; the hips joint, outside every chain, is untouched.
#[test]
fn frame_reaches_target() {
    let (mut skeleton, rig) = short_armed_rig();
    let hips_before = skeleton.joints[0];
    let right_hand_rest = skeleton.joints[8].global_position;
    let target = v(-250_000, 0, 200_000);
    let authority = IkAuthority { enabled: true };
    run_frame(&mut skeleton, &rig, target, right_hand_rest, &authority);
    assert_eq!(skeleton.joints[0], hips_before);
    skeleton.propagate();
    let tol: i128 = 2_000;
    assert!(dist_sq(skeleton.joints[4].global_position, target) <= tol * tol);
}

/// The pole constraint projects the elbow onto the plane spanned by the
/// chain's chord and the pole hint, then re-places it at its segment's
/// length from the upper-arm joint; the other three positions stay put.
#[test]
fn pole_constraint_projects_elbow() {
    let positions = vec![
        v(0, 0, 0),
        v(0, 0, 300_000),
        v(50_000, 100_000, 550_000),
        v(0, 0, 650_000),
    ];
    let seg = 250_000i64;
    let out = apply_pole_constraint(&positions, seg, v(0, -SCALE, 0), SCALE);
    assert_eq!(out[0], positions[0]);
    assert_eq!(out[1], positions[1]);
    assert_eq!(out[3], positions[3]);
    // Fully projected: the elbow loses its out-of-plane x component.
    assert_eq!(out[2].x, 0);
    let tol: i128 = 100;
    let seg_w = seg as i128;
    let d2 = dist_sq(out[2], positions[1]);
    assert!(d2 <= (seg_w + tol) * (seg_w + tol));
    assert!(d2 >= (seg_w - tol) * (seg_w - tol));
}

/// A zero blend weight is the exact identity: the constraint switched
/// off and the constraint at weight zero are the same thing, and nothing
/// moves — not even the re-placement runs.
#[test]
fn pole_constraint_zero_weight() {
    let positions = vec![
        v(0, 0, 0),
        v(0, 0, 300_000),
        v(0, 100_000, 550_000),
        v(0, 0, 650_000),
    ];
    let out = apply_pole_constraint(&positions, 250_000, v(0, -SCALE, 0), 0);
    assert_eq!(out, positions);
}

/// A degenerate hint (parallel to the chord) changes nothing.
#[test]
fn pole_constraint_degenerate_is_noop() {
    let positions = vec![
        v(0, 0, 0),
        v(0, 0, 300_000),
        v(0, 100_000, 550_000),
        v(0, 0, 650_000),
    ];
    let out = apply_pole_constraint(&positions, 250_000, v(0, 0, SCALE), SCALE);
    assert_eq!(out, positions);
}
