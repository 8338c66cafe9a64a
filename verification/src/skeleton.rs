//! The skeletal hierarchy: an arena of joints, each with a parent of
//! smaller index, a local (parent-relative) rotation and translation, and
//! cached global (world) rotation and position that an explicit
//! propagation pass derives root-to-leaf.
//!
//! A joint may carry a rest pose: the local and global rotation captured
//! when its chain was built.  Restoring it is an exact copy, which is what
//! makes the per-frame reset protocol drift-free.

use vstd::prelude::*;
use crate::vec3::{FxVec3, V3, v3_add, v3_bounded, len_limit, coord_limit};
use crate::quat::{FxQuat, Q4, q_wf, q_mul, q_rotate};

verus! {

/// Rotations captured at chain-build time, never updated afterward.
#[derive(Clone, Copy, PartialEq, Eq, Structural, Debug)]
pub struct RestPose {
    pub local: FxQuat,
    pub global: FxQuat,
}

/// One node of the hierarchy.
#[derive(Clone, Copy, PartialEq, Eq, Structural, Debug)]
pub struct Joint {
    /// Index of the parent joint, strictly smaller than this joint's own
    /// index; the root has none.
    pub parent: Option<usize>,
    /// Parent-relative rotation: the authoritative pose data.
    pub local_rotation: FxQuat,
    /// Parent-relative offset of this joint's origin.
    pub local_translation: FxVec3,
    /// Cached world rotation, derived by `propagate`.
    pub global_rotation: FxQuat,
    /// Cached world position, derived by `propagate`.
    pub global_position: FxVec3,
    /// Rest rotations captured when a chain claimed this joint.
    pub rest: Option<RestPose>,
}

/// The joint arena.
pub struct Skeleton {
    pub joints: Vec<Joint>,
}

/// Bound on how far one hierarchy step can move a global position: a
/// local translation plus the rotation's rounding reach.
pub open spec fn joint_step() -> int {
    0x1_0100_0000_0000
}

/// Bound on the arena size, far above any humanoid skeleton yet small
/// enough that no propagated position can leave `coord_limit()`.
pub open spec fn max_joints() -> int {
    1024
}

/// Bound on a joint's local translation, half of `len_limit()` so that a
/// translation's norm is itself a valid segment length.
pub open spec fn trans_limit() -> int {
    0x80_0000_0000
}

/// Two joints agreeing on everything but the derived global caches.
pub open spec fn same_shape(a: Joint, b: Joint) -> bool {
    &&& a.parent == b.parent
    &&& a.local_rotation == b.local_rotation
    &&& a.local_translation == b.local_translation
    &&& a.rest == b.rest
}

/// Well-formed arena: bounded size, every parent index smaller than its
/// child's, and every stored rotation and translation within range.
pub open spec fn skeleton_wf(s: Seq<Joint>) -> bool {
    &&& s.len() <= max_joints()
    &&& forall|i: int| 0 <= i < s.len() ==> match (#[trigger] s[i]).parent {
        Option::Some(p) => (p as int) < i,
        Option::None => true,
    }
    &&& forall|i: int| 0 <= i < s.len() ==> q_wf((#[trigger] s[i]).local_rotation@)
    &&& forall|i: int| 0 <= i < s.len()
        ==> v3_bounded((#[trigger] s[i]).local_translation@, trans_limit())
    &&& forall|i: int| 0 <= i < s.len() ==> match (#[trigger] s[i]).rest {
        Option::Some(rp) => q_wf(rp.local@) && q_wf(rp.global@),
        Option::None => true,
    }
}

/// The world rotation of joint `i`, derived from local rotations along
/// the parent chain.
pub open spec fn prop_rot(s: Seq<Joint>, i: int) -> Q4
    decreases i,
{
    match s[i].parent {
        Option::None => s[i].local_rotation@,
        Option::Some(p) => if (p as int) < i {
            q_mul(prop_rot(s, p as int), s[i].local_rotation@)
        } else {
            s[i].local_rotation@
        },
    }
}

/// The world position of joint `i`, derived from local translations
/// rotated into their parents' frames along the parent chain.
pub open spec fn prop_pos(s: Seq<Joint>, i: int) -> V3
    decreases i,
{
    match s[i].parent {
        Option::None => s[i].local_translation@,
        Option::Some(p) => if (p as int) < i {
            v3_add(prop_pos(s, p as int), q_rotate(prop_rot(s, p as int), s[i].local_translation@))
        } else {
            s[i].local_translation@
        },
    }
}

/// Whether joint `a` is `c` itself or one of its ancestors.
pub open spec fn ancestor_spec(s: Seq<Joint>, c: int, a: int) -> bool
    decreases c,
{
    if c == a {
        true
    } else {
        match s[c].parent {
            Option::None => false,
            Option::Some(p) => if (p as int) < c {
                ancestor_spec(s, p as int, a)
            } else {
                false
            },
        }
    }
}

/// Every cached world rotation is well-formed.
pub open spec fn rots_wf(s: Seq<Joint>) -> bool {
    forall|i: int| 0 <= i < s.len() ==> q_wf((#[trigger] s[i]).global_rotation@)
}

/// Global caches agree with the derived recurrence: what `propagate`
/// establishes.
pub open spec fn propagated(s: Seq<Joint>) -> bool {
    forall|i: int| 0 <= i < s.len()
        ==> (#[trigger] s[i]).global_rotation@ == prop_rot(s, i)
            && s[i].global_position@ == prop_pos(s, i)
}

/// Derived world rotations of a well-formed arena are well-formed, and
/// derived world positions stay within `coord_limit()`.
pub proof fn lemma_prop_bounds(s: Seq<Joint>, i: int)
    requires
        skeleton_wf(s),
        0 <= i < s.len(),
    ensures
        q_wf(prop_rot(s, i)),
        v3_bounded(prop_pos(s, i), (i + 1) * joint_step()),
        v3_bounded(prop_pos(s, i), coord_limit()),
    decreases i,
{
    assert((i + 1) * joint_step() <= 1024 * joint_step()) by (nonlinear_arith)
        requires 0 <= i < 1024;
    match s[i].parent {
        Option::None => {
            assert(1 * joint_step() <= (i + 1) * joint_step()) by (nonlinear_arith)
                requires i >= 0;
        }
        Option::Some(p) => {
            lemma_prop_bounds(s, p as int);
            crate::quat::lemma_q_mul_wf(prop_rot(s, p as int), s[i].local_rotation@);
            crate::quat::lemma_q_rotate_bounds(prop_rot(s, p as int), s[i].local_translation@);
            assert((p as int + 1) * joint_step() + joint_step() <= (i + 1) * joint_step())
                by (nonlinear_arith)
                requires (p as int) < i;
        }
    }
}

impl Skeleton {
    /// Derives every joint's global rotation and position from its local
    /// pose and its parent's (already derived) globals, root-to-leaf.
    /// Nothing else about any joint changes.
    pub fn propagate(&mut self)
        requires
            skeleton_wf(old(self).joints@),
        ensures
            final(self).joints@.len() == old(self).joints@.len(),
            skeleton_wf(final(self).joints@),
            forall|i: int| 0 <= i < old(self).joints@.len()
                ==> same_shape(#[trigger] final(self).joints@[i], old(self).joints@[i]),
            forall|i: int| 0 <= i < old(self).joints@.len()
                ==> (#[trigger] final(self).joints@[i]).global_rotation@
                    == prop_rot(old(self).joints@, i),
            forall|i: int| 0 <= i < old(self).joints@.len()
                ==> (#[trigger] final(self).joints@[i]).global_position@
                    == prop_pos(old(self).joints@, i),
            rots_wf(final(self).joints@),
            forall|i: int| 0 <= i < old(self).joints@.len()
                ==> v3_bounded((#[trigger] final(self).joints@[i]).global_position@,
                    coord_limit()),
    {
        let ghost s0 = old(self).joints@;
        let n = self.joints.len();
        let mut i: usize = 0;
        while i < n
            invariant
                i <= n,
                n == self.joints@.len(),
                n == s0.len(),
                s0 == old(self).joints@,
                skeleton_wf(s0),
                forall|j: int| i <= j < n ==> self.joints@[j] == s0[j],
                forall|j: int| 0 <= j < i
                    ==> same_shape(#[trigger] self.joints@[j], s0[j]),
                forall|j: int| 0 <= j < i
                    ==> (#[trigger] self.joints@[j]).global_rotation@ == prop_rot(s0, j),
                forall|j: int| 0 <= j < i
                    ==> (#[trigger] self.joints@[j]).global_position@ == prop_pos(s0, j),
            decreases n - i,
        {
            let mut jt = self.joints[i];
            match jt.parent {
                Option::None => {
                    jt.global_rotation = jt.local_rotation;
                    jt.global_position = jt.local_translation;
                }
                Option::Some(p) => {
                    proof {
                        assert(self.joints@[i as int] == s0[i as int]);
                        assert(s0[i as int].parent == Option::Some(p));
                        assert((p as int) < i as int);
                        lemma_prop_bounds(s0, p as int);
                        lemma_prop_bounds(s0, i as int);
                    }
                    let parent = self.joints[p];
                    jt.global_rotation = parent.global_rotation.mul(jt.local_rotation);
                    let step = parent.global_rotation.rotate(jt.local_translation);
                    jt.global_position = parent.global_position.add(step);
                }
            }
            self.joints[i] = jt;
            i = i + 1;
        }
        proof {
            assert forall|j: int| 0 <= j < n implies match (#[trigger] self.joints@[j]).parent {
                Option::Some(p) => (p as int) < j,
                Option::None => true,
            } by {
                assert(same_shape(self.joints@[j], s0[j]));
            }
            assert forall|j: int| 0 <= j < n implies q_wf(
                (#[trigger] self.joints@[j]).local_rotation@) by {
                assert(same_shape(self.joints@[j], s0[j]));
            }
            assert forall|j: int| 0 <= j < n implies v3_bounded(
                (#[trigger] self.joints@[j]).local_translation@, trans_limit()) by {
                assert(same_shape(self.joints@[j], s0[j]));
            }
            assert forall|j: int| 0 <= j < n implies match (#[trigger] self.joints@[j]).rest {
                Option::Some(rp) => q_wf(rp.local@) && q_wf(rp.global@),
                Option::None => true,
            } by {
                assert(same_shape(self.joints@[j], s0[j]));
            }
            assert forall|j: int| 0 <= j < n implies q_wf(
                (#[trigger] self.joints@[j]).global_rotation@) by {
                lemma_prop_bounds(s0, j);
            }
            assert forall|j: int| 0 <= j < n implies v3_bounded(
                (#[trigger] self.joints@[j]).global_position@, coord_limit()) by {
                lemma_prop_bounds(s0, j);
            }
        }
    }

    /// Walks up the parent chain from `child`, looking for `ancestor`.
    /// Iterative: each step strictly decreases the index, so the walk is
    /// bounded even on a hierarchy it has never seen.
    pub fn is_ancestor(&self, child: usize, ancestor: usize) -> (r: bool)
        requires
            skeleton_wf(self.joints@),
            child < self.joints@.len(),
        ensures
            r == ancestor_spec(self.joints@, child as int, ancestor as int),
    {
        let mut cur = child;
        loop
            invariant
                skeleton_wf(self.joints@),
                cur < self.joints@.len(),
                ancestor_spec(self.joints@, child as int, ancestor as int)
                    == ancestor_spec(self.joints@, cur as int, ancestor as int),
            decreases cur,
        {
            if cur == ancestor {
                return true;
            }
            match self.joints[cur].parent {
                Option::None => {
                    return false;
                }
                Option::Some(p) => {
                    cur = p;
                }
            }
        }
    }

    /// Restores the rest pose of every listed joint: its local and global
    /// rotation become exactly the captured values.  Joints outside the
    /// list, and every other field, are untouched.
    pub fn reset_to_rest(&mut self, chain: &Vec<usize>)
        requires
            skeleton_wf(old(self).joints@),
            rots_wf(old(self).joints@),
            forall|k: int| 0 <= k < chain@.len()
                ==> (#[trigger] chain@[k]) < old(self).joints@.len(),
            forall|k: int| 0 <= k < chain@.len()
                ==> (#[trigger] old(self).joints@[chain@[k] as int]).rest is Some,
        ensures
            final(self).joints@.len() == old(self).joints@.len(),
            skeleton_wf(final(self).joints@),
            rots_wf(final(self).joints@),
            forall|k: int| 0 <= k < chain@.len()
                ==> (#[trigger] final(self).joints@[chain@[k] as int]).local_rotation
                    == old(self).joints@[chain@[k] as int].rest->Some_0.local
                && final(self).joints@[chain@[k] as int].global_rotation
                    == old(self).joints@[chain@[k] as int].rest->Some_0.global,
            forall|i: int| 0 <= i < old(self).joints@.len()
                ==> (#[trigger] final(self).joints@[i]).parent == old(self).joints@[i].parent
                && final(self).joints@[i].local_translation == old(self).joints@[i].local_translation
                && final(self).joints@[i].global_position == old(self).joints@[i].global_position
                && final(self).joints@[i].rest == old(self).joints@[i].rest,
            forall|i: int| 0 <= i < old(self).joints@.len()
                ==> !chain@.contains(i as usize)
                    ==> (#[trigger] final(self).joints@[i]) == old(self).joints@[i],
    {
        let ghost s0 = old(self).joints@;
        let n = chain.len();
        let mut k: usize = 0;
        while k < n
            invariant
                k <= n,
                n == chain@.len(),
                self.joints@.len() == s0.len(),
                s0 == old(self).joints@,
                forall|j: int| 0 <= j < n ==> (#[trigger] chain@[j]) < s0.len(),
                forall|j: int| 0 <= j < n ==> (#[trigger] s0[chain@[j] as int]).rest is Some,
                forall|j: int| 0 <= j < k
                    ==> (#[trigger] self.joints@[chain@[j] as int]).local_rotation
                        == s0[chain@[j] as int].rest->Some_0.local
                    && self.joints@[chain@[j] as int].global_rotation
                        == s0[chain@[j] as int].rest->Some_0.global,
                forall|i: int| 0 <= i < s0.len()
                    ==> (#[trigger] self.joints@[i]).parent == s0[i].parent
                    && self.joints@[i].local_translation == s0[i].local_translation
                    && self.joints@[i].global_position == s0[i].global_position
                    && self.joints@[i].rest == s0[i].rest,
                forall|i: int| 0 <= i < s0.len()
                    ==> !chain@.contains(i as usize) ==> (#[trigger] self.joints@[i]) == s0[i],
            decreases n - k,
        {
            let idx = chain[k];
            let mut jt = self.joints[idx];
            match jt.rest {
                Option::Some(rp) => {
                    jt.local_rotation = rp.local;
                    jt.global_rotation = rp.global;
                }
                Option::None => {}
            }
            self.joints[idx] = jt;
            k = k + 1;
        }
        proof {
            let s = self.joints@;
            assert forall|i: int| 0 <= i < s.len() implies q_wf(
                (#[trigger] s[i]).local_rotation@) && q_wf(s[i].global_rotation@) by {
                if chain@.contains(i as usize) {
                    let j = choose|j: int| 0 <= j < chain@.len() && chain@[j] == i as usize;
                    assert(s[chain@[j] as int].local_rotation
                        == s0[chain@[j] as int].rest->Some_0.local);
                    assert(s0[i].rest is Some);
                }
            }
            assert forall|i: int| 0 <= i < s.len() implies match (#[trigger] s[i]).parent {
                Option::Some(p) => (p as int) < i,
                Option::None => true,
            } by {
                assert(s[i].parent == s0[i].parent);
            }
            assert forall|i: int| 0 <= i < s.len() implies v3_bounded(
                (#[trigger] s[i]).local_translation@, trans_limit()) by {
                assert(s[i].local_translation == s0[i].local_translation);
            }
            assert forall|i: int| 0 <= i < s.len() implies match (#[trigger] s[i]).rest {
                Option::Some(rp) => q_wf(rp.local@) && q_wf(rp.global@),
                Option::None => true,
            } by {
                assert(s[i].rest == s0[i].rest);
            }
        }
    }
}

} // verus!
