use humanoid_ik::chain::{BoneRole, RigSlot, build_once, find_role, HAND_GRASP_LEN};
use humanoid_ik::fixed::SCALE;
use humanoid_ik::quat::FxQuat;
use humanoid_ik::skeleton::{Joint, RestPose, Skeleton};
use humanoid_ik::vec3::FxVec3;

fn identity() -> FxQuat {
    FxQuat { x: 0, y: 0, z: 0, w: SCALE }
}

fn joint(parent: Option<usize>, t: FxVec3) -> Joint {
    Joint {
        parent,
        local_rotation: identity(),
        local_translation: t,
        global_rotation: identity(),
        global_position: FxVec3 { x: 0, y: 0, z: 0 },
        rest: None,
    }
}

fn v(x: i64, y: i64, z: i64) -> FxVec3 {
    FxVec3 { x, y, z }
}

/// A nine-joint humanoid torso: hips, then shoulder, upper arm, lower arm
/// and hand per side.  The lower-arm and hand translations carry the rest
/// segment lengths of 0.3 and 0.25 units.
fn torso() -> (Skeleton, Vec<BoneRole>) {
    let joints = vec![
        joint(None, v(0, 0, 0)),
        joint(Some(0), v(-150_000, 0, 0)),
        joint(Some(1), v(-200_000, 0, 0)),
        joint(Some(2), v(0, 0, 300_000)),
        joint(Some(3), v(0, 0, 250_000)),
        joint(Some(0), v(150_000, 0, 0)),
        joint(Some(5), v(200_000, 0, 0)),
        joint(Some(6), v(0, 0, 300_000)),
        joint(Some(7), v(0, 0, 250_000)),
    ];
    let roles = vec![
        BoneRole::Hips,
        BoneRole::LeftShoulder,
        BoneRole::LeftUpperArm,
        BoneRole::LeftLowerArm,
        BoneRole::LeftHand,
        BoneRole::RightShoulder,
        BoneRole::RightUpperArm,
        BoneRole::RightLowerArm,
        BoneRole::RightHand,
    ];
    (Skeleton { joints }, roles)
}

/// The scan finds the last joint tagged with a role, and reports absence.
#[test]
fn role_scan_finds_last() {
    let roles = vec![BoneRole::Other, BoneRole::Head, BoneRole::Other, BoneRole::Head];
    assert_eq!(find_role(&roles, BoneRole::Head), Some(3));
    assert_eq!(find_role(&roles, BoneRole::LeftHand), None);
}

/// With any required role missing, the builder performs no action and the
/// latch stays open, so it may simply be retried next frame.
#[test]
fn incomplete_side_is_noop() {
    let (mut skeleton, mut roles) = torso();
    roles[8] = BoneRole::Other;
    let mut slot = RigSlot::Unbuilt;
    build_once(&mut slot, &mut skeleton, &roles);
    assert!(matches!(slot, RigSlot::Unbuilt));
    assert!(skeleton.joints.iter().all(|j| j.rest.is_none()));
}

/// On the first complete scan the builder produces both chains, derives
/// the segment lengths from the lower-arm and hand rest translations with
/// the synthetic grasp offset appended, and captures all eight rest poses.
#[test]
fn complete_scan_builds_rig() {
    let (mut skeleton, roles) = torso();
    let mut slot = RigSlot::Unbuilt;
    build_once(&mut slot, &mut skeleton, &roles);
    let rig = match &slot {
        RigSlot::Built(rig) => rig,
        RigSlot::Unbuilt => panic!("rig was not built"),
    };
    assert_eq!(rig.left.joints, vec![1, 2, 3, 4]);
    assert_eq!(rig.right.joints, vec![5, 6, 7, 8]);
    assert_eq!(rig.left.lengths, vec![300_000, 250_000, HAND_GRASP_LEN]);
    assert_eq!(rig.right.lengths, vec![300_000, 250_000, HAND_GRASP_LEN]);
    for idx in [1usize, 2, 3, 4, 5, 6, 7, 8] {
        let rest = skeleton.joints[idx].rest.expect("rest pose captured");
        assert_eq!(rest.local, skeleton.joints[idx].local_rotation);
        assert_eq!(rest.global, skeleton.joints[idx].global_rotation);
    }
    assert!(skeleton.joints[0].rest.is_none());
}

/// The latch is irreversible: once built, later invocations change
/// nothing, even when the tags have changed.
#[test]
fn build_latches_once() {
    let (mut skeleton, roles) = torso();
    let mut slot = RigSlot::Unbuilt;
    build_once(&mut slot, &mut skeleton, &roles);
    let before_left = match &slot {
        RigSlot::Built(rig) => rig.left.joints.clone(),
        RigSlot::Unbuilt => panic!("rig was not built"),
    };
    let mut shuffled = roles.clone();
    shuffled.swap(1, 5);
    build_once(&mut slot, &mut skeleton, &shuffled);
    let after_left = match &slot {
        RigSlot::Built(rig) => rig.left.joints.clone(),
        RigSlot::Unbuilt => panic!("rig was lost"),
    };
    assert_eq!(before_left, after_left);
}

/// After a reset, every chain joint's local and global rotation equals
/// its captured rest value exactly.
#[test]
fn reset_restores_rest_exactly() {
    let (mut skeleton, roles) = torso();
    let mut slot = RigSlot::Unbuilt;
    build_once(&mut slot, &mut skeleton, &roles);
    let chain = match &slot {
        RigSlot::Built(rig) => rig.left.joints.clone(),
        RigSlot::Unbuilt => panic!("rig was not built"),
    };
    let drifted = FxQuat { x: 0, y: SCALE, z: 0, w: 0 };
    for &idx in &chain {
        skeleton.joints[idx].local_rotation = drifted;
        skeleton.joints[idx].global_rotation = drifted;
    }
    skeleton.reset_to_rest(&chain);
    for &idx in &chain {
        let rest: RestPose = skeleton.joints[idx].rest.expect("rest pose captured");
        assert_eq!(skeleton.joints[idx].local_rotation, rest.local);
        assert_eq!(skeleton.joints[idx].global_rotation, rest.global);
    }
}

/// Propagation derives global positions from local translations along the
/// parent chain; with identity rotations they simply accumulate.
#[test]
fn propagate_accumulates_translations() {
    let (mut skeleton, _) = torso();
    skeleton.propagate();
    assert_eq!(skeleton.joints[0].global_position, v(0, 0, 0));
    assert_eq!(skeleton.joints[1].global_position, v(-150_000, 0, 0));
    assert_eq!(skeleton.joints[4].global_position, v(-350_000, 0, 550_000));
    assert_eq!(skeleton.joints[8].global_position, v(350_000, 0, 550_000));
}

/// The ancestor walk climbs the parent chain and nothing else.
#[test]
fn ancestor_walk() {
    let (skeleton, _) = torso();
    assert!(skeleton.is_ancestor(4, 0));
    assert!(skeleton.is_ancestor(4, 4));
    assert!(!skeleton.is_ancestor(0, 4));
    assert!(!skeleton.is_ancestor(4, 5));
}
