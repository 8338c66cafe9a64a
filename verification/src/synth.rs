//! The rotation synthesizer: turns solved chain positions into joint
//! rotations, root to leaf.
//!
//! For each bone the minimal rotation from its current direction to its
//! desired direction is composed onto the joint's world rotation; the
//! parent-relative rotation is rewritten through the parent's world
//! rotation, and the joint's world-rotation cache is refreshed at once, so
//! later joints of the same pass see an up-to-date parent without waiting
//! for a full propagation.

use vstd::prelude::*;
use crate::fixed::SCALE;
use crate::vec3::{FxVec3, V3, v3_sub, v3_scaled_to, v3_bounded};
use crate::quat::{Q4, q_mul, q_conjugate, q_from_arc};
use crate::skeleton::{Skeleton, Joint, skeleton_wf, rots_wf};
use crate::solver::view_positions;

verus! {

/// The local and world rotation views of every joint.
pub open spec fn rot_views(s: Seq<Joint>) -> Seq<(Q4, Q4)> {
    s.map_values(|j: Joint| (j.local_rotation@, j.global_rotation@))
}

/// Rotation views after the first `k` synthesis steps.  Step `i` reads
/// bone `i` of the chain (from joint `i` to joint `i + 1`), derives the
/// minimal rotation from its current to its desired direction, and
/// rewrites joint `i`'s local rotation (and, under a parent, its cached
/// world rotation) accordingly.
pub open spec fn synth_rv(
    s: Seq<Joint>,
    chain: Seq<usize>,
    olds: Seq<V3>,
    news: Seq<V3>,
    k: int,
) -> Seq<(Q4, Q4)>
    decreases k,
{
    if k <= 0 {
        rot_views(s)
    } else {
        let rv = synth_rv(s, chain, olds, news, k - 1);
        let i = k - 1;
        let idx = chain[i] as int;
        let cur = v3_scaled_to(v3_sub(olds[i + 1], olds[i]), SCALE as int);
        let des = v3_scaled_to(v3_sub(news[i + 1], news[i]), SCALE as int);
        let delta = q_from_arc(cur, des);
        let g = q_mul(delta, rv[idx].1);
        match s[idx].parent {
            Option::None => rv.update(idx, (g, rv[idx].1)),
            Option::Some(p) => rv.update(idx, (q_mul(q_conjugate(rv[p as int].1), g), g)),
        }
    }
}

/// Synthesis steps do not change the number of joints.
pub proof fn lemma_synth_rv_len(
    s: Seq<Joint>,
    chain: Seq<usize>,
    olds: Seq<V3>,
    news: Seq<V3>,
    k: int,
)
    requires
        k <= chain.len(),
        forall|j: int| 0 <= j < k ==> (#[trigger] chain[j] as int) < s.len(),
    ensures
        synth_rv(s, chain, olds, news, k).len() == s.len(),
    decreases k,
{
    if k > 0 {
        lemma_synth_rv_len(s, chain, olds, news, k - 1);
    }
}

/// Applies the synthesizer to one chain: `olds` are the chain's current
/// global positions, `news` the solved ones.  Only the rotations of the
/// first three chain joints change, exactly as `synth_rv` says; every
/// other field of every joint is untouched.
pub fn synthesize_rotations(
    skeleton: &mut Skeleton,
    chain: &Vec<usize>,
    olds: &Vec<FxVec3>,
    news: &Vec<FxVec3>,
)
    requires
        skeleton_wf(old(skeleton).joints@),
        rots_wf(old(skeleton).joints@),
        chain@.len() == 4,
        olds@.len() == 4,
        news@.len() == 4,
        forall|k: int| 0 <= k < 4 ==> (#[trigger] chain@[k] as int) < old(skeleton).joints@.len(),
        forall|k: int| 0 <= k < 4
            ==> v3_bounded((#[trigger] olds@[k])@, 0x2000_0000_0000_0000),
        forall|k: int| 0 <= k < 4
            ==> v3_bounded((#[trigger] news@[k])@, 0x2000_0000_0000_0000),
    ensures
        final(skeleton).joints@.len() == old(skeleton).joints@.len(),
        skeleton_wf(final(skeleton).joints@),
        rots_wf(final(skeleton).joints@),
        forall|i: int| 0 <= i < old(skeleton).joints@.len()
            ==> (#[trigger] final(skeleton).joints@[i]).parent == old(skeleton).joints@[i].parent
            && final(skeleton).joints@[i].local_translation
                == old(skeleton).joints@[i].local_translation
            && final(skeleton).joints@[i].global_position
                == old(skeleton).joints@[i].global_position
            && final(skeleton).joints@[i].rest == old(skeleton).joints@[i].rest,
        forall|i: int| 0 <= i < old(skeleton).joints@.len()
            ==> ((#[trigger] final(skeleton).joints@[i]).local_rotation@,
                final(skeleton).joints@[i].global_rotation@)
                == synth_rv(old(skeleton).joints@, chain@, view_positions(olds@),
                    view_positions(news@), 3)[i],
{
    let ghost s0 = old(skeleton).joints@;
    let ghost ops = view_positions(olds@);
    let ghost nps = view_positions(news@);
    let mut i: usize = 0;
    while i < 3
        invariant
            i <= 3,
            s0 == old(skeleton).joints@,
            ops == view_positions(olds@),
            nps == view_positions(news@),
            skeleton.joints@.len() == s0.len(),
            skeleton_wf(s0),
            rots_wf(s0),
            chain@.len() == 4,
            olds@.len() == 4,
            news@.len() == 4,
            forall|k: int| 0 <= k < 4 ==> (#[trigger] chain@[k] as int) < s0.len(),
            forall|k: int| 0 <= k < 4
                ==> v3_bounded((#[trigger] olds@[k])@, 0x2000_0000_0000_0000),
            forall|k: int| 0 <= k < 4
                ==> v3_bounded((#[trigger] news@[k])@, 0x2000_0000_0000_0000),
            skeleton_wf(skeleton.joints@),
            rots_wf(skeleton.joints@),
            forall|j: int| 0 <= j < s0.len()
                ==> (#[trigger] skeleton.joints@[j]).parent == s0[j].parent
                && skeleton.joints@[j].local_translation == s0[j].local_translation
                && skeleton.joints@[j].global_position == s0[j].global_position
                && skeleton.joints@[j].rest == s0[j].rest,
            forall|j: int| 0 <= j < s0.len()
                ==> ((#[trigger] skeleton.joints@[j]).local_rotation@,
                    skeleton.joints@[j].global_rotation@)
                    == synth_rv(s0, chain@, ops, nps, i as int)[j],
        decreases 3 - i,
    {
        let idx = chain[i];
        let cur = olds[i + 1].sub(olds[i]).scaled_to(SCALE);
        let des = news[i + 1].sub(news[i]).scaled_to(SCALE);
        let delta = crate::quat::FxQuat::from_rotation_arc(cur, des);
        let mut jt = skeleton.joints[idx];
        let g = delta.mul(jt.global_rotation);
        let ghost rv = synth_rv(s0, chain@, ops, nps, i as int);
        proof {
            lemma_synth_rv_len(s0, chain@, ops, nps, i as int);
            assert(rv.len() == s0.len());
            assert(jt.global_rotation@ == rv[idx as int].1);
        }
        match jt.parent {
            Option::None => {
                jt.local_rotation = g;
            }
            Option::Some(p) => {
                proof {
                    assert(s0[idx as int].parent == Option::Some(p));
                    assert((p as int) < idx as int);
                }
                let parent_rot = skeleton.joints[p].global_rotation;
                proof {
                    assert(parent_rot@ == rv[p as int].1);
                }
                let local = parent_rot.conjugate().mul(g);
                jt.local_rotation = local;
                jt.global_rotation = g;
            }
        }
        skeleton.joints[idx] = jt;
        proof {
            assert forall|j: int| 0 <= j < s0.len() implies ((#[trigger] skeleton.joints@[j])
                .local_rotation@, skeleton.joints@[j].global_rotation@)
                == synth_rv(s0, chain@, ops, nps, i as int + 1)[j] by {
            }
        }
        i = i + 1;
    }
}

} // verus!
