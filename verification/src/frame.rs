//! The per-frame controller: while IK authority is granted, run the
//! strict frame order — propagate the hierarchy, restore every chain
//! joint's rest pose, propagate again, then solve and synthesize each
//! chain (right first, then left), mutating the hierarchy in place.
//! While authority is withheld the frame is an exact no-op.
//!
//! The whole frame is pinned to `frame_spec`, a pure function on the
//! skeleton's pose view, so a frame's outcome is determined by the rest
//! state, the chains and the two targets alone.

use vstd::prelude::*;
use crate::fixed::SCALE;
use crate::vec3::{FxVec3, V3, v3_sub, v3_scaled_to, v3_bounded, coord_limit, len_limit};
use crate::quat::{Q4, q_mul, q_conjugate, q_from_arc};
use crate::skeleton::{Skeleton, Joint, skeleton_wf, rots_wf, prop_rot, prop_pos};
use crate::chain::{IkChain, IkRig};
use crate::solver::{solve_spec, view_positions, view_lengths, lens_ok, work_limit, solve_chain};
use crate::synth::{synth_rv, synthesize_rotations, lemma_synth_rv_len};
use crate::authority::IkAuthority;

verus! {

/// The pose view of one joint: every field a mathematical value, so whole
/// frames can be written as pure functions of it.
pub struct JointPose {
    pub parent: Option<usize>,
    pub local_rot: Q4,
    pub local_t: V3,
    pub global_rot: Q4,
    pub global_pos: V3,
    pub rest: Option<(Q4, Q4)>,
}

/// The pose view of one joint.
pub open spec fn jv(j: Joint) -> JointPose {
    JointPose {
        parent: j.parent,
        local_rot: j.local_rotation@,
        local_t: j.local_translation@,
        global_rot: j.global_rotation@,
        global_pos: j.global_position@,
        rest: match j.rest {
            Option::Some(rp) => Option::Some((rp.local@, rp.global@)),
            Option::None => Option::None,
        },
    }
}

/// The pose view of the whole arena.
pub open spec fn skel_view(s: Seq<Joint>) -> Seq<JointPose> {
    s.map_values(|j: Joint| jv(j))
}

/// Derived world rotation over pose views.
pub open spec fn jv_prop_rot(sv: Seq<JointPose>, i: int) -> Q4
    decreases i,
{
    match sv[i].parent {
        Option::None => sv[i].local_rot,
        Option::Some(p) => if (p as int) < i {
            q_mul(jv_prop_rot(sv, p as int), sv[i].local_rot)
        } else {
            sv[i].local_rot
        },
    }
}

/// Derived world position over pose views.
pub open spec fn jv_prop_pos(sv: Seq<JointPose>, i: int) -> V3
    decreases i,
{
    match sv[i].parent {
        Option::None => sv[i].local_t,
        Option::Some(p) => if (p as int) < i {
            crate::vec3::v3_add(jv_prop_pos(sv, p as int),
                crate::quat::q_rotate(jv_prop_rot(sv, p as int), sv[i].local_t))
        } else {
            sv[i].local_t
        },
    }
}

/// A propagation pass over pose views: refreshes every derived global.
pub open spec fn jv_propagate(sv: Seq<JointPose>) -> Seq<JointPose> {
    Seq::new(sv.len(), |i: int| JointPose {
        global_rot: jv_prop_rot(sv, i),
        global_pos: jv_prop_pos(sv, i),
        ..sv[i]
    })
}

/// Whether the chain lists joint `i`.
pub open spec fn chain_has(chain: Seq<usize>, i: int) -> bool {
    exists|k: int| 0 <= k < chain.len() && (#[trigger] chain[k]) as int == i
}

/// A rest-pose reset of the listed joints over pose views.
pub open spec fn jv_reset(sv: Seq<JointPose>, chain: Seq<usize>) -> Seq<JointPose> {
    Seq::new(sv.len(), |i: int| if chain_has(chain, i) && sv[i].rest is Some {
        JointPose {
            local_rot: (sv[i].rest->Some_0).0,
            global_rot: (sv[i].rest->Some_0).1,
            ..sv[i]
        }
    } else {
        sv[i]
    })
}

/// The world positions of a chain's joints, in chain order.
pub open spec fn jv_chain_positions(sv: Seq<JointPose>, idxs: Seq<usize>) -> Seq<V3> {
    Seq::new(idxs.len(), |k: int| sv[idxs[k] as int].global_pos)
}

/// The rotation synthesizer over pose views: the same recursion as
/// `synth_rv`, carried on whole poses.
pub open spec fn jv_synth(
    sv: Seq<JointPose>,
    chain: Seq<usize>,
    olds: Seq<V3>,
    news: Seq<V3>,
    k: int,
) -> Seq<JointPose>
    decreases k,
{
    if k <= 0 {
        sv
    } else {
        let prev = jv_synth(sv, chain, olds, news, k - 1);
        let i = k - 1;
        let idx = chain[i] as int;
        let cur = v3_scaled_to(v3_sub(olds[i + 1], olds[i]), SCALE as int);
        let des = v3_scaled_to(v3_sub(news[i + 1], news[i]), SCALE as int);
        let delta = q_from_arc(cur, des);
        let g = q_mul(delta, prev[idx].global_rot);
        match sv[idx].parent {
            Option::None => prev.update(idx, JointPose { local_rot: g, ..prev[idx] }),
            Option::Some(p) => prev.update(idx, JointPose {
                local_rot: q_mul(q_conjugate(prev[p as int].global_rot), g),
                global_rot: g,
                ..prev[idx]
            }),
        }
    }
}

/// One chain's frame work over pose views: solve from the current chain
/// positions toward the target, then synthesize the rotations.
pub open spec fn jv_apply_chain(
    sv: Seq<JointPose>,
    idxs: Seq<usize>,
    lens: Seq<int>,
    target: V3,
) -> Seq<JointPose> {
    let olds = jv_chain_positions(sv, idxs);
    jv_synth(sv, idxs, olds, solve_spec(olds, lens, target), 3)
}

/// A whole authorized frame over pose views, in the controller's strict order:
/// propagate, reset both chains, propagate again, then solve and
/// synthesize the right chain and then the left.
pub open spec fn frame_spec(
    sv: Seq<JointPose>,
    lj: Seq<usize>,
    ll: Seq<int>,
    rj: Seq<usize>,
    rl: Seq<int>,
    lt: V3,
    rt: V3,
) -> Seq<JointPose> {
    let s1 = jv_propagate(sv);
    let s2 = jv_reset(s1, lj);
    let s3 = jv_reset(s2, rj);
    let s4 = jv_propagate(s3);
    let s5 = jv_apply_chain(s4, rj, rl, rt);
    jv_apply_chain(s5, lj, ll, lt)
}

/// The derived recurrences agree between the arena and its pose view.
pub proof fn lemma_jv_prop(s: Seq<Joint>, i: int)
    requires
        0 <= i < s.len(),
    ensures
        jv_prop_rot(skel_view(s), i) == prop_rot(s, i),
        jv_prop_pos(skel_view(s), i) == prop_pos(s, i),
    decreases i,
{
    match s[i].parent {
        Option::None => {}
        Option::Some(p) => {
            if (p as int) < i {
                lemma_jv_prop(s, p as int);
            }
        }
    }
}

/// The synthesizer agrees between the arena recursion and its pose-view
/// recursion: rotations follow `synth_rv`, everything else stays put.
pub proof fn lemma_jv_synth(
    s: Seq<Joint>,
    chain: Seq<usize>,
    olds: Seq<V3>,
    news: Seq<V3>,
    k: int,
)
    requires
        0 <= k <= chain.len(),
        forall|j: int| 0 <= j < k ==> (#[trigger] chain[j] as int) < s.len(),
        forall|j: int| 0 <= j < s.len() ==> ((#[trigger] s[j]).parent is Some
            ==> (s[j].parent->Some_0 as int) < j),
    ensures
        jv_synth(skel_view(s), chain, olds, news, k).len() == s.len(),
        forall|i: int| 0 <= i < s.len() ==> {
            let pose = #[trigger] jv_synth(skel_view(s), chain, olds, news, k)[i];
            &&& (pose.local_rot, pose.global_rot) == synth_rv(s, chain, olds, news, k)[i]
            &&& pose.parent == s[i].parent
            &&& pose.local_t == s[i].local_translation@
            &&& pose.global_pos == s[i].global_position@
            &&& pose.rest == jv(s[i]).rest
        },
    decreases k,
{
    lemma_synth_rv_len(s, chain, olds, news, k);
    if k > 0 {
        lemma_jv_synth(s, chain, olds, news, k - 1);
        lemma_synth_rv_len(s, chain, olds, news, k - 1);
        let sv = skel_view(s);
        let prev = jv_synth(sv, chain, olds, news, k - 1);
        let rv = synth_rv(s, chain, olds, news, k - 1);
        let i = k - 1;
        let idx = chain[i] as int;
        let cur = v3_scaled_to(v3_sub(olds[i + 1], olds[i]), SCALE as int);
        let des = v3_scaled_to(v3_sub(news[i + 1], news[i]), SCALE as int);
        let delta = q_from_arc(cur, des);
        let g = q_mul(delta, prev[idx].global_rot);
        assert(prev[idx].global_rot == rv[idx].1);
        assert(sv[idx].parent == s[idx].parent);
        match s[idx].parent {
            Option::None => {
                assert(jv_synth(sv, chain, olds, news, k)
                    == prev.update(idx, JointPose { local_rot: g, ..prev[idx] }));
                assert(synth_rv(s, chain, olds, news, k) == rv.update(idx, (g, rv[idx].1)));
            }
            Option::Some(p) => {
                assert((p as int) < idx);
                assert(prev[p as int].global_rot == rv[p as int].1);
                assert(jv_synth(sv, chain, olds, news, k) == prev.update(idx, JointPose {
                    local_rot: q_mul(q_conjugate(prev[p as int].global_rot), g),
                    global_rot: g,
                    ..prev[idx]
                }));
                assert(synth_rv(s, chain, olds, news, k) == rv.update(idx,
                    (q_mul(q_conjugate(rv[p as int].1), g), g)));
            }
        }
    }
}

/// A chain the frame controller can run: four joint indices in range,
/// three bounded segment lengths, and every joint's rest pose captured.
pub open spec fn chain_ready(c: &IkChain, s: Seq<Joint>) -> bool {
    &&& c.joints@.len() == 4
    &&& c.lengths@.len() == 3
    &&& forall|k: int| 0 <= k < 4 ==> (#[trigger] c.joints@[k] as int) < s.len()
    &&& forall|k: int| 0 <= k < 3 ==> 0 <= (#[trigger] c.lengths@[k]) <= len_limit()
    &&& forall|k: int| 0 <= k < 4 ==> (#[trigger] s[c.joints@[k] as int]).rest is Some
}

/// The world positions of a chain's joints over the arena.
pub open spec fn chain_positions(s: Seq<Joint>, idxs: Seq<usize>) -> Seq<V3> {
    Seq::new(idxs.len(), |k: int| s[idxs[k] as int].global_position@)
}

/// Reads the current world positions of the listed joints.
pub fn read_chain_positions(skeleton: &Skeleton, idxs: &Vec<usize>) -> (r: Vec<FxVec3>)
    requires
        forall|k: int| 0 <= k < idxs@.len()
            ==> (#[trigger] idxs@[k] as int) < skeleton.joints@.len(),
    ensures
        r@.len() == idxs@.len(),
        view_positions(r@) == chain_positions(skeleton.joints@, idxs@),
        forall|k: int| 0 <= k < idxs@.len()
            ==> (#[trigger] r@[k]) == skeleton.joints@[idxs@[k] as int].global_position,
{
    let mut r: Vec<FxVec3> = Vec::new();
    let mut k: usize = 0;
    while k < idxs.len()
        invariant
            k <= idxs@.len(),
            forall|j: int| 0 <= j < idxs@.len()
                ==> (#[trigger] idxs@[j] as int) < skeleton.joints@.len(),
            r@.len() == k,
            forall|j: int| 0 <= j < k
                ==> (#[trigger] r@[j]) == skeleton.joints@[idxs@[j] as int].global_position,
        decreases idxs@.len() - k,
    {
        r.push(skeleton.joints[idxs[k]].global_position);
        k = k + 1;
    }
    proof {
        assert(view_positions(r@) =~= chain_positions(skeleton.joints@, idxs@));
    }
    r
}

/// Solves one chain toward its target from the skeleton's current world
/// positions and synthesizes the resulting rotations in place.
pub fn solve_and_apply(skeleton: &mut Skeleton, chain: &IkChain, target: FxVec3)
    requires
        skeleton_wf(old(skeleton).joints@),
        rots_wf(old(skeleton).joints@),
        chain_ready(chain, old(skeleton).joints@),
        forall|i: int| 0 <= i < old(skeleton).joints@.len()
            ==> v3_bounded((#[trigger] old(skeleton).joints@[i]).global_position@, coord_limit()),
        v3_bounded(target@, coord_limit()),
    ensures
        final(skeleton).joints@.len() == old(skeleton).joints@.len(),
        skeleton_wf(final(skeleton).joints@),
        rots_wf(final(skeleton).joints@),
        forall|i: int| 0 <= i < old(skeleton).joints@.len()
            ==> (#[trigger] final(skeleton).joints@[i]).parent == old(skeleton).joints@[i].parent
            && final(skeleton).joints@[i].local_translation
                == old(skeleton).joints@[i].local_translation
            && final(skeleton).joints@[i].global_position
                == old(skeleton).joints@[i].global_position
            && final(skeleton).joints@[i].rest == old(skeleton).joints@[i].rest,
        forall|i: int| 0 <= i < old(skeleton).joints@.len()
            ==> ((#[trigger] final(skeleton).joints@[i]).local_rotation@,
                final(skeleton).joints@[i].global_rotation@)
                == synth_rv(old(skeleton).joints@, chain.joints@,
                    chain_positions(old(skeleton).joints@, chain.joints@),
                    solve_spec(chain_positions(old(skeleton).joints@, chain.joints@),
                        view_lengths(chain.lengths@), target@), 3)[i],
{
    let olds = read_chain_positions(skeleton, &chain.joints);
    proof {
        assert(lens_ok(view_lengths(chain.lengths@)));
        assert forall|k: int| 0 <= k < olds@.len() implies v3_bounded(
            (#[trigger] olds@[k])@, coord_limit()) by {
            assert(olds@[k] == skeleton.joints@[chain.joints@[k] as int].global_position);
        }
    }
    let news = solve_chain(&olds, &chain.lengths, target);
    proof {
        assert forall|k: int| 0 <= k < 4 implies v3_bounded((#[trigger] olds@[k])@,
            0x2000_0000_0000_0000) by {
            assert(v3_bounded(olds@[k]@, coord_limit()));
        }
        assert forall|k: int| 0 <= k < 4 implies v3_bounded((#[trigger] news@[k])@,
            0x2000_0000_0000_0000) by {
            assert(v3_bounded(news@[k]@, work_limit()));
        }
    }
    synthesize_rotations(skeleton, &chain.joints, &olds, &news);
}

/// One scheduled frame of the IK controller.  Without authority nothing
/// at all happens; with it on the hierarchy is propagated, both chains'
/// joints are restored to their rest poses, the hierarchy is propagated
/// again, and then the right and left chains are each solved toward their
/// target and their rotations synthesized — exactly `frame_spec`.
pub fn run_frame(
    skeleton: &mut Skeleton,
    rig: &IkRig,
    left_target: FxVec3,
    right_target: FxVec3,
    authority: &IkAuthority,
)
    requires
        skeleton_wf(old(skeleton).joints@),
        chain_ready(&rig.left, old(skeleton).joints@),
        chain_ready(&rig.right, old(skeleton).joints@),
        v3_bounded(left_target@, coord_limit()),
        v3_bounded(right_target@, coord_limit()),
    ensures
        final(skeleton).joints@.len() == old(skeleton).joints@.len(),
        skeleton_wf(final(skeleton).joints@),
        !authority.enabled ==> final(skeleton).joints@ == old(skeleton).joints@,
        authority.enabled ==> skel_view(final(skeleton).joints@)
            == frame_spec(skel_view(old(skeleton).joints@),
                rig.left.joints@, view_lengths(rig.left.lengths@),
                rig.right.joints@, view_lengths(rig.right.lengths@),
                left_target@, right_target@),
{
    if !authority.enabled {
        return;
    }
    let ghost s0 = old(skeleton).joints@;
    let ghost sv0 = skel_view(s0);
    skeleton.propagate();
    let ghost s1 = skeleton.joints@;
    proof {
        assert forall|i: int| 0 <= i < s1.len() implies #[trigger] skel_view(s1)[i]
            == jv_propagate(sv0)[i] by {
            lemma_jv_prop(s0, i);
        }
        assert(skel_view(s1) =~= jv_propagate(sv0));
        lemma_chain_carries(&rig.left, s0, s1);
        lemma_chain_carries(&rig.right, s0, s1);
    }
    skeleton.reset_to_rest(&rig.left.joints);
    let ghost s2 = skeleton.joints@;
    proof {
        lemma_reset_view(&rig.left, s1, s2);
        lemma_chain_carries(&rig.left, s1, s2);
        lemma_chain_carries(&rig.right, s1, s2);
    }
    skeleton.reset_to_rest(&rig.right.joints);
    let ghost s3 = skeleton.joints@;
    proof {
        lemma_reset_view(&rig.right, s2, s3);
        lemma_chain_carries(&rig.left, s2, s3);
        lemma_chain_carries(&rig.right, s2, s3);
    }
    skeleton.propagate();
    let ghost s4 = skeleton.joints@;
    proof {
        assert forall|i: int| 0 <= i < s4.len() implies #[trigger] skel_view(s4)[i]
            == jv_propagate(skel_view(s3))[i] by {
            lemma_jv_prop(s3, i);
        }
        assert(skel_view(s4) =~= jv_propagate(skel_view(s3)));
        lemma_chain_carries(&rig.left, s3, s4);
        lemma_chain_carries(&rig.right, s3, s4);
    }
    solve_and_apply(skeleton, &rig.right, right_target);
    let ghost s5 = skeleton.joints@;
    proof {
        lemma_apply_view(&rig.right, s4, s5, right_target@);
        lemma_chain_carries(&rig.left, s4, s5);
        lemma_chain_carries(&rig.right, s4, s5);
        assert forall|i: int| 0 <= i < s5.len() implies v3_bounded(
            (#[trigger] s5[i]).global_position@, coord_limit()) by {
            assert(s5[i].global_position == s4[i].global_position);
        }
    }
    solve_and_apply(skeleton, &rig.left, left_target);
    let ghost s6 = skeleton.joints@;
    proof {
        lemma_apply_view(&rig.left, s5, s6, left_target@);
    }
}

/// A ready chain stays ready across a phase that keeps every joint's rest
/// pose.
proof fn lemma_chain_carries(c: &IkChain, before: Seq<Joint>, after: Seq<Joint>)
    requires
        chain_ready(c, before),
        after.len() == before.len(),
        forall|i: int| 0 <= i < before.len()
            ==> (#[trigger] after[i]).rest == before[i].rest,
    ensures
        chain_ready(c, after),
{
}

/// What a rest-pose reset of a ready chain does, at the pose-view level.
proof fn lemma_reset_view(c: &IkChain, before: Seq<Joint>, after: Seq<Joint>)
    requires
        chain_ready(c, before),
        before.len() <= usize::MAX as int,
        after.len() == before.len(),
        forall|k: int| 0 <= k < c.joints@.len()
            ==> (#[trigger] after[c.joints@[k] as int]).local_rotation
                == before[c.joints@[k] as int].rest->Some_0.local
            && after[c.joints@[k] as int].global_rotation
                == before[c.joints@[k] as int].rest->Some_0.global,
        forall|i: int| 0 <= i < before.len()
            ==> (#[trigger] after[i]).parent == before[i].parent
            && after[i].local_translation == before[i].local_translation
            && after[i].global_position == before[i].global_position
            && after[i].rest == before[i].rest,
        forall|i: int| 0 <= i < before.len()
            ==> !c.joints@.contains(i as usize) ==> (#[trigger] after[i]) == before[i],
    ensures
        skel_view(after) == jv_reset(skel_view(before), c.joints@),
{
    assert forall|i: int| 0 <= i < before.len() implies #[trigger] skel_view(after)[i]
        == jv_reset(skel_view(before), c.joints@)[i] by {
        if chain_has(c.joints@, i) {
            let k = choose|k: int| 0 <= k < c.joints@.len() && (c.joints@[k]) as int == i;
            assert(after[c.joints@[k] as int].local_rotation
                == before[c.joints@[k] as int].rest->Some_0.local);
            assert(c.joints@.contains(i as usize));
        } else {
            if c.joints@.contains(i as usize) {
                let k = choose|k: int| 0 <= k < c.joints@.len()
                    && c.joints@[k] == i as usize;
                assert((c.joints@[k]) as int == i);
                assert(chain_has(c.joints@, i));
            }
            assert(after[i] == before[i]);
        }
    }
    assert(skel_view(after) =~= jv_reset(skel_view(before), c.joints@));
}

/// What one chain's solve-and-synthesize does, at the pose-view level.
proof fn lemma_apply_view(c: &IkChain, before: Seq<Joint>, after: Seq<Joint>, target: V3)
    requires
        skeleton_wf(before),
        chain_ready(c, before),
        after.len() == before.len(),
        forall|i: int| 0 <= i < before.len()
            ==> (#[trigger] after[i]).parent == before[i].parent
            && after[i].local_translation == before[i].local_translation
            && after[i].global_position == before[i].global_position
            && after[i].rest == before[i].rest,
        forall|i: int| 0 <= i < before.len()
            ==> ((#[trigger] after[i]).local_rotation@, after[i].global_rotation@)
                == synth_rv(before, c.joints@, chain_positions(before, c.joints@),
                    solve_spec(chain_positions(before, c.joints@),
                        view_lengths(c.lengths@), target), 3)[i],
    ensures
        skel_view(after) == jv_apply_chain(skel_view(before), c.joints@,
            view_lengths(c.lengths@), target),
{
    let olds = chain_positions(before, c.joints@);
    let news = solve_spec(olds, view_lengths(c.lengths@), target);
    assert(jv_chain_positions(skel_view(before), c.joints@) =~= olds);
    lemma_jv_synth(before, c.joints@, olds, news, 3);
    assert forall|i: int| 0 <= i < before.len() implies #[trigger] skel_view(after)[i]
        == jv_synth(skel_view(before), c.joints@, olds, news, 3)[i] by {
    }
    assert(skel_view(after) =~= jv_synth(skel_view(before), c.joints@, olds, news, 3));
}

} // verus!
