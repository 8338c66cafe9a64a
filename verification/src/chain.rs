//! The chain builder: a one-shot scan of role-tagged joints that, on the
//! first frame where both arms are complete, produces the two four-joint
//! chains with their segment lengths and captures every chain joint's
//! rest pose.
//!
//! The build is latched: a two-state machine with a single irreversible
//! transition from unbuilt to built.  While a side is incomplete the
//! builder is a no-op that may be retried every frame; once built it never
//! rebuilds, even if the skeleton later changes.

use vstd::prelude::*;
use crate::vec3::{norm, len_limit, lemma_norm_le_double};
use crate::quat::q_wf;
use crate::skeleton::{Skeleton, Joint, RestPose, skeleton_wf, trans_limit};

verus! {

/// Semantic role of a joint in the humanoid skeleton.  Only the eight arm
/// roles take part in chain building.
#[derive(Clone, Copy, PartialEq, Eq, Structural, Debug)]
pub enum BoneRole {
    Hips,
    LeftShoulder,
    LeftUpperArm,
    LeftLowerArm,
    LeftHand,
    RightShoulder,
    RightUpperArm,
    RightLowerArm,
    RightHand,
    Head,
    Other,
}

/// One arm chain: four joint indices (shoulder, upper arm, lower arm,
/// hand) and three segment lengths.  The shoulder-to-upper-arm distance is
/// deliberately dropped from length accounting; the last length is the
/// synthetic hand-to-grasp-point offset.
pub struct IkChain {
    pub joints: Vec<usize>,
    pub lengths: Vec<i64>,
}

/// Both arm chains of one avatar.
pub struct IkRig {
    pub left: IkChain,
    pub right: IkChain,
}

/// The build latch: unbuilt until one successful scan, then built for the
/// rest of the application's lifetime.
pub enum RigSlot {
    Unbuilt,
    Built(IkRig),
}

/// The synthetic trailing segment length: a tenth of a world unit from
/// the hand joint to its grasp point.
pub const HAND_GRASP_LEN: i64 = 100_000;

/// Index of the last joint tagged with `r` among the first `i` roles, the
/// way a scan that overwrites earlier matches finds it.
pub open spec fn last_role_index(roles: Seq<BoneRole>, r: BoneRole, i: int) -> Option<int>
    decreases i,
{
    if i <= 0 {
        Option::None
    } else if roles[i - 1] == r {
        Option::Some(i - 1)
    } else {
        last_role_index(roles, r, i - 1)
    }
}

/// View of an optional index.
pub open spec fn opt_index(o: Option<usize>) -> Option<int> {
    match o {
        Option::Some(k) => Option::Some(k as int),
        Option::None => Option::None,
    }
}

/// Scans the role tags for the last joint carrying `r`.
pub fn find_role(roles: &Vec<BoneRole>, r: BoneRole) -> (res: Option<usize>)
    ensures
        opt_index(res) == last_role_index(roles@, r, roles@.len() as int),
        res is Some ==> (res->Some_0 as int) < roles@.len(),
{
    let mut found: Option<usize> = Option::None;
    let mut i: usize = 0;
    while i < roles.len()
        invariant
            i <= roles@.len(),
            opt_index(found) == last_role_index(roles@, r, i as int),
            found is Some ==> (found->Some_0 as int) < i as int,
        decreases roles@.len() - i,
    {
        if roles[i] == r {
            found = Option::Some(i);
        }
        i = i + 1;
    }
    found
}

/// All four roles of one arm are present among the tags.
pub open spec fn side_complete(
    roles: Seq<BoneRole>,
    shoulder: BoneRole,
    upper: BoneRole,
    lower: BoneRole,
    hand: BoneRole,
) -> bool {
    &&& last_role_index(roles, shoulder, roles.len() as int) is Some
    &&& last_role_index(roles, upper, roles.len() as int) is Some
    &&& last_role_index(roles, lower, roles.len() as int) is Some
    &&& last_role_index(roles, hand, roles.len() as int) is Some
}

/// The joint indices of one arm chain, root to leaf.
pub open spec fn side_joints(
    roles: Seq<BoneRole>,
    shoulder: BoneRole,
    upper: BoneRole,
    lower: BoneRole,
    hand: BoneRole,
) -> Seq<int> {
    seq![
        last_role_index(roles, shoulder, roles.len() as int)->Some_0,
        last_role_index(roles, upper, roles.len() as int)->Some_0,
        last_role_index(roles, lower, roles.len() as int)->Some_0,
        last_role_index(roles, hand, roles.len() as int)->Some_0,
    ]
}

/// The segment lengths of one arm chain: the rest distances from upper
/// arm to lower arm and lower arm to hand (each joint's local-translation
/// norm), with the shoulder-to-upper-arm distance dropped and the
/// synthetic grasp offset appended.
pub open spec fn side_lengths(s: Seq<Joint>, joints: Seq<int>) -> Seq<int> {
    seq![
        norm(s[joints[2]].local_translation@),
        norm(s[joints[3]].local_translation@),
        HAND_GRASP_LEN as int,
    ]
}

/// A joint with its rest pose captured from its current rotations.
pub open spec fn with_rest(j: Joint) -> Joint {
    Joint {
        rest: Option::Some(RestPose { local: j.local_rotation, global: j.global_rotation }),
        ..j
    }
}

/// The whole-rig completeness test the builder latches on.
pub open spec fn rig_complete(roles: Seq<BoneRole>) -> bool {
    &&& side_complete(roles, BoneRole::LeftShoulder, BoneRole::LeftUpperArm,
        BoneRole::LeftLowerArm, BoneRole::LeftHand)
    &&& side_complete(roles, BoneRole::RightShoulder, BoneRole::RightUpperArm,
        BoneRole::RightLowerArm, BoneRole::RightHand)
}

/// The left chain's joint indices, when complete.
pub open spec fn left_joints(roles: Seq<BoneRole>) -> Seq<int> {
    side_joints(roles, BoneRole::LeftShoulder, BoneRole::LeftUpperArm,
        BoneRole::LeftLowerArm, BoneRole::LeftHand)
}

/// The right chain's joint indices, when complete.
pub open spec fn right_joints(roles: Seq<BoneRole>) -> Seq<int> {
    side_joints(roles, BoneRole::RightShoulder, BoneRole::RightUpperArm,
        BoneRole::RightLowerArm, BoneRole::RightHand)
}

/// A built chain carries exactly these joint indices and the lengths the
/// scan derives from this rest state.
pub open spec fn chain_matches(c: &IkChain, s: Seq<Joint>, joints: Seq<int>) -> bool {
    &&& c.joints@.len() == 4
    &&& c.lengths@.len() == 3
    &&& forall|k: int| 0 <= k < 4 ==> (#[trigger] c.joints@[k]) as int == joints[k]
    &&& c.lengths@.map_values(|l: i64| l as int) == side_lengths(s, joints)
    &&& forall|k: int| 0 <= k < 3 ==> 0 <= (#[trigger] c.lengths@[k]) <= len_limit()
}

/// Captures one joint's rest pose from its current rotations.
fn set_rest(skeleton: &mut Skeleton, idx: usize)
    requires
        skeleton_wf(old(skeleton).joints@),
        (idx as int) < old(skeleton).joints@.len(),
        q_wf(old(skeleton).joints@[idx as int].global_rotation@),
    ensures
        final(skeleton).joints@
            == old(skeleton).joints@.update(idx as int, with_rest(old(skeleton).joints@[idx as int])),
        skeleton_wf(final(skeleton).joints@),
{
    let mut jt = skeleton.joints[idx];
    jt.rest = Option::Some(RestPose { local: jt.local_rotation, global: jt.global_rotation });
    skeleton.joints[idx] = jt;
    proof {
        assert(final(skeleton).joints@ =~= old(skeleton).joints@.update(idx as int,
            with_rest(old(skeleton).joints@[idx as int])));
    }
}

/// Builds one side's chain and captures its joints' rest poses.
fn build_side(skeleton: &mut Skeleton, j0: usize, j1: usize, j2: usize, j3: usize) -> (c: IkChain)
    requires
        skeleton_wf(old(skeleton).joints@),
        (j0 as int) < old(skeleton).joints@.len(),
        (j1 as int) < old(skeleton).joints@.len(),
        (j2 as int) < old(skeleton).joints@.len(),
        (j3 as int) < old(skeleton).joints@.len(),
        forall|i: int| 0 <= i < old(skeleton).joints@.len()
            ==> q_wf((#[trigger] old(skeleton).joints@[i]).global_rotation@),
    ensures
        final(skeleton).joints@.len() == old(skeleton).joints@.len(),
        skeleton_wf(final(skeleton).joints@),
        chain_matches(&c, old(skeleton).joints@,
            seq![j0 as int, j1 as int, j2 as int, j3 as int]),
        forall|i: int| 0 <= i < old(skeleton).joints@.len()
            ==> (#[trigger] final(skeleton).joints@[i])
                == if i == j0 as int || i == j1 as int || i == j2 as int || i == j3 as int {
                    with_rest(old(skeleton).joints@[i])
                } else {
                    old(skeleton).joints@[i]
                },
        forall|i: int| 0 <= i < old(skeleton).joints@.len()
            ==> q_wf((#[trigger] final(skeleton).joints@[i]).global_rotation@),
{
    let ghost s0 = old(skeleton).joints@;
    let lower = skeleton.joints[j2].local_translation;
    let hand = skeleton.joints[j3].local_translation;
    proof {
        lemma_norm_le_double(lower@, trans_limit());
        lemma_norm_le_double(hand@, trans_limit());
    }
    let mut lengths: Vec<i64> = Vec::new();
    lengths.push(lower.norm());
    lengths.push(hand.norm());
    lengths.push(HAND_GRASP_LEN);
    let mut chain_joints: Vec<usize> = Vec::new();
    chain_joints.push(j0);
    chain_joints.push(j1);
    chain_joints.push(j2);
    chain_joints.push(j3);
    set_rest(skeleton, j0);
    set_rest(skeleton, j1);
    set_rest(skeleton, j2);
    set_rest(skeleton, j3);
    proof {
        assert(lengths@.map_values(|l: i64| l as int)
            =~= side_lengths(s0, seq![j0 as int, j1 as int, j2 as int, j3 as int]));
    }
    IkChain { joints: chain_joints, lengths }
}

/// One invocation of the chain builder.  Already built, or any arm still
/// incomplete: a no-op.  First invocation with both arms complete: builds
/// the two chains, captures all eight rest poses, and latches.
pub fn build_once(slot: &mut RigSlot, skeleton: &mut Skeleton, roles: &Vec<BoneRole>)
    requires
        skeleton_wf(old(skeleton).joints@),
        roles@.len() == old(skeleton).joints@.len(),
        forall|i: int| 0 <= i < old(skeleton).joints@.len()
            ==> q_wf((#[trigger] old(skeleton).joints@[i]).global_rotation@),
    ensures
        skeleton_wf(final(skeleton).joints@),
        final(skeleton).joints@.len() == old(skeleton).joints@.len(),
        (*old(slot)) is Built ==> *final(slot) == *old(slot)
            && final(skeleton).joints@ == old(skeleton).joints@,
        (*old(slot)) is Unbuilt && !rig_complete(roles@) ==> (*final(slot)) is Unbuilt
            && final(skeleton).joints@ == old(skeleton).joints@,
        (*old(slot)) is Unbuilt && rig_complete(roles@) ==> (*final(slot)) is Built
            && chain_matches(&(*final(slot))->Built_0.left, old(skeleton).joints@, left_joints(roles@))
            && chain_matches(&(*final(slot))->Built_0.right, old(skeleton).joints@, right_joints(roles@))
            && (forall|i: int| 0 <= i < old(skeleton).joints@.len()
                ==> (#[trigger] final(skeleton).joints@[i])
                    == if left_joints(roles@).contains(i) || right_joints(roles@).contains(i) {
                        with_rest(old(skeleton).joints@[i])
                    } else {
                        old(skeleton).joints@[i]
                    }),
{
    let latched = match slot {
        RigSlot::Built(_) => true,
        RigSlot::Unbuilt => false,
    };
    if latched {
        return;
    }
    let ls = find_role(roles, BoneRole::LeftShoulder);
    let lu = find_role(roles, BoneRole::LeftUpperArm);
    let ll = find_role(roles, BoneRole::LeftLowerArm);
    let lh = find_role(roles, BoneRole::LeftHand);
    let rs = find_role(roles, BoneRole::RightShoulder);
    let ru = find_role(roles, BoneRole::RightUpperArm);
    let rl = find_role(roles, BoneRole::RightLowerArm);
    let rh = find_role(roles, BoneRole::RightHand);
    match (ls, lu, ll, lh, rs, ru, rl, rh) {
        (Option::Some(ls), Option::Some(lu), Option::Some(ll), Option::Some(lh),
            Option::Some(rs), Option::Some(ru), Option::Some(rl), Option::Some(rh)) => {
            let ghost s0 = skeleton.joints@;
            let left = build_side(skeleton, ls, lu, ll, lh);
            let ghost s1 = skeleton.joints@;
            let right = build_side(skeleton, rs, ru, rl, rh);
            proof {
                lemma_rest_capture_commutes(s0, s1, skeleton.joints@,
                    seq![ls as int, lu as int, ll as int, lh as int],
                    seq![rs as int, ru as int, rl as int, rh as int]);
                assert(seq![ls as int, lu as int, ll as int, lh as int]
                    =~= left_joints(roles@));
                assert(seq![rs as int, ru as int, rl as int, rh as int]
                    =~= right_joints(roles@));
                assert(side_lengths(s1, seq![rs as int, ru as int, rl as int, rh as int])
                    =~= side_lengths(s0, seq![rs as int, ru as int, rl as int, rh as int]));
            }
            *slot = RigSlot::Built(IkRig { left, right });
        }
        _ => {}
    }
}

/// Capturing the right chain's rest poses after the left chain's leaves
/// exactly the union captured, because the capture changes no rotation
/// and is idempotent.
proof fn lemma_rest_capture_commutes(
    s0: Seq<Joint>,
    s1: Seq<Joint>,
    s2: Seq<Joint>,
    lj: Seq<int>,
    rj: Seq<int>,
)
    requires
        s0.len() == s1.len() == s2.len(),
        lj.len() == 4,
        rj.len() == 4,
        forall|i: int| 0 <= i < s0.len()
            ==> (#[trigger] s1[i]) == if lj.contains(i) { with_rest(s0[i]) } else { s0[i] },
        forall|i: int| 0 <= i < s1.len()
            ==> (#[trigger] s2[i]) == if rj.contains(i) { with_rest(s1[i]) } else { s1[i] },
    ensures
        forall|i: int| 0 <= i < s0.len()
            ==> (#[trigger] s2[i]) == if lj.contains(i) || rj.contains(i) {
                with_rest(s0[i])
            } else {
                s0[i]
            },
{
    assert forall|i: int| 0 <= i < s0.len() implies (#[trigger] s2[i])
        == if lj.contains(i) || rj.contains(i) { with_rest(s0[i]) } else { s0[i] } by {
        if rj.contains(i) {
            if lj.contains(i) {
                assert(s1[i] == with_rest(s0[i]));
                assert(with_rest(with_rest(s0[i])) == with_rest(s0[i]));
            }
        }
    }
}

} // verus!
