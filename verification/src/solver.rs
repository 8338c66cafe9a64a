//! The FABRIK position solver.
//!
//! Given the current global joint positions of a chain, its segment
//! lengths and a target point, the solver produces the desired global
//! positions.  An unreachable target (farther from the base than the sum
//! of the segment lengths) is handled in one exact pass that stretches the
//! chain along the ray toward the target; a reachable one by a fixed
//! number of forward/backward reaching rounds, so the cost of a solve is
//! constant and the result a pure function of its inputs.

use vstd::prelude::*;
use crate::fixed::div_tz;
use crate::vec3::{FxVec3, V3, v3_add, v3_sub, v3_place, v3_scaled_to, v3_bounded, norm_sq,
    norm, dist_sq, coord_limit, len_limit, tol, lemma_scaled_to_bounds, lemma_norm_sq_zero,
    lemma_place_spacing, lemma_place_spacing_raw};

verus! {

/// Number of forward/backward rounds of a reachable solve: fixed, with no
/// early exit, so cost and result are deterministic.
pub const FABRIK_ROUNDS: usize = 30;

/// View of a vector of fixed-point points as a sequence of models.
pub open spec fn view_positions(s: Seq<FxVec3>) -> Seq<V3> {
    s.map_values(|p: FxVec3| p@)
}

/// View of a vector of fixed-point lengths as a sequence of integers.
pub open spec fn view_lengths(s: Seq<i64>) -> Seq<int> {
    s.map_values(|l: i64| l as int)
}

/// Well-formed segment lengths: a bounded count of bounded, non-negative
/// entries, so that no sum or product in the solver can overflow.
pub open spec fn lens_ok(lengths: Seq<int>) -> bool {
    &&& lengths.len() <= 16
    &&& forall|i: int| 0 <= i < lengths.len() ==> 0 <= #[trigger] lengths[i] <= len_limit()
}

/// Sum of the first `i` segment lengths.
pub open spec fn cum_len(lengths: Seq<int>, i: int) -> int
    decreases i,
{
    if i <= 0 {
        0
    } else {
        cum_len(lengths, i - 1) + lengths[i - 1]
    }
}

/// Sum of the segment lengths from index `j` on.
pub open spec fn suffix_len(lengths: Seq<int>, j: int) -> int
    decreases lengths.len() - j,
{
    if j < 0 || j >= lengths.len() {
        0
    } else {
        lengths[j] + suffix_len(lengths, j + 1)
    }
}

/// Cumulative sums of well-formed lengths stay within `i * len_limit()`.
pub proof fn lemma_cum_len_bounds(lengths: Seq<int>, i: int)
    requires
        lens_ok(lengths),
        0 <= i <= lengths.len(),
    ensures
        0 <= cum_len(lengths, i) <= i * len_limit(),
        cum_len(lengths, i) <= cum_len(lengths, lengths.len() as int),
    decreases lengths.len() - i,
{
    if i == lengths.len() {
        lemma_cum_len_lower(lengths, i);
    } else {
        lemma_cum_len_bounds(lengths, i + 1);
        lemma_cum_len_lower(lengths, i);
        assert(cum_len(lengths, i + 1) == cum_len(lengths, i) + lengths[i]);
        assert(i * len_limit() + len_limit() == (i + 1) * len_limit()) by (nonlinear_arith);
    }
}

/// Cumulative sums of well-formed lengths are monotone from below.
proof fn lemma_cum_len_lower(lengths: Seq<int>, i: int)
    requires
        lens_ok(lengths),
        0 <= i <= lengths.len(),
    ensures
        0 <= cum_len(lengths, i),
        cum_len(lengths, i) <= i * len_limit(),
    decreases i,
{
    if i > 0 {
        lemma_cum_len_lower(lengths, i - 1);
        assert((i - 1) * len_limit() + len_limit() == i * len_limit()) by (nonlinear_arith);
    }
}

/// Suffix sums of well-formed lengths stay within the total.
pub proof fn lemma_suffix_len_bounds(lengths: Seq<int>, j: int)
    requires
        lens_ok(lengths),
        0 <= j <= lengths.len(),
    ensures
        0 <= suffix_len(lengths, j),
        suffix_len(lengths, j) <= (lengths.len() - j) * len_limit(),
        suffix_len(lengths, j) <= 16 * len_limit(),
    decreases lengths.len() - j,
{
    if j < lengths.len() {
        lemma_suffix_len_bounds(lengths, j + 1);
        assert((lengths.len() - j - 1) * len_limit() + len_limit()
            == (lengths.len() - j) * len_limit()) by (nonlinear_arith);
        assert((lengths.len() - j) * len_limit() <= 16 * len_limit()) by (nonlinear_arith)
            requires lengths.len() - j <= 16;
    } else {
        assert(0 <= (lengths.len() - j) * len_limit()) by (nonlinear_arith)
            requires j <= lengths.len();
    }
}

/// Bound on every coordinate the solver ever computes: input positions
/// plus the whole chain's reach.
pub open spec fn work_limit() -> int {
    coord_limit() + 16 * len_limit()
}

/// Position `j` after a forward reaching pass: the tip is pinned to the
/// target, and each earlier joint is placed at its segment's length from
/// its successor, along the ray toward the joint's previous position.
pub open spec fn fwd_pos(ps: Seq<V3>, lengths: Seq<int>, target: V3, j: int) -> V3
    decreases ps.len() - j,
{
    if j >= ps.len() - 1 {
        target
    } else {
        v3_place(fwd_pos(ps, lengths, target, j + 1), ps[j], lengths[j])
    }
}

/// The whole chain after a forward reaching pass.
pub open spec fn forward_pass_spec(ps: Seq<V3>, lengths: Seq<int>, target: V3) -> Seq<V3> {
    Seq::new(ps.len(), |j: int| fwd_pos(ps, lengths, target, j))
}

/// Position `j` after a backward reaching pass: the root is pinned to the
/// base, and each later joint is placed at its segment's length from its
/// predecessor, along the ray toward the joint's previous position.
pub open spec fn bwd_pos(ps: Seq<V3>, lengths: Seq<int>, base: V3, j: int) -> V3
    decreases j,
{
    if j <= 0 {
        base
    } else {
        v3_place(bwd_pos(ps, lengths, base, j - 1), ps[j], lengths[j - 1])
    }
}

/// The whole chain after a backward reaching pass.
pub open spec fn backward_pass_spec(ps: Seq<V3>, lengths: Seq<int>, base: V3) -> Seq<V3> {
    Seq::new(ps.len(), |j: int| bwd_pos(ps, lengths, base, j))
}

/// One solver round: a forward pass toward the target, then a backward
/// pass from the base.
pub open spec fn round_spec(ps: Seq<V3>, lengths: Seq<int>, base: V3, target: V3) -> Seq<V3> {
    backward_pass_spec(forward_pass_spec(ps, lengths, target), lengths, base)
}

/// `k` solver rounds.
pub open spec fn rounds_spec(ps: Seq<V3>, lengths: Seq<int>, base: V3, target: V3, k: int) -> Seq<V3>
    decreases k,
{
    if k <= 0 {
        ps
    } else {
        round_spec(rounds_spec(ps, lengths, base, target, k - 1), lengths, base, target)
    }
}

/// The chain stretched straight toward an unreachable target: joint `i`
/// sits on the ray from the base toward the target, at the sum of the
/// first `i` segment lengths from the base.
pub open spec fn extended_spec(ps: Seq<V3>, lengths: Seq<int>, target: V3) -> Seq<V3> {
    Seq::new(ps.len(), |i: int| v3_add(ps[0], v3_scaled_to(v3_sub(target, ps[0]), cum_len(lengths, i))))
}

/// A target is reachable when its squared distance from the base is at
/// most the square of the chain's total length.
pub open spec fn reachable(ps: Seq<V3>, lengths: Seq<int>, target: V3) -> bool {
    norm_sq(v3_sub(target, ps[0]))
        <= cum_len(lengths, lengths.len() as int) * cum_len(lengths, lengths.len() as int)
}

/// The solved chain: one exact stretching pass for an unreachable target,
/// `FABRIK_ROUNDS` reaching rounds for a reachable one.
pub open spec fn solve_spec(ps: Seq<V3>, lengths: Seq<int>, target: V3) -> Seq<V3> {
    if !reachable(ps, lengths, target) {
        extended_spec(ps, lengths, target)
    } else {
        rounds_spec(ps, lengths, ps[0], target, FABRIK_ROUNDS as int)
    }
}

/// Forward-pass positions stay within the target's bound plus the reach
/// of the segments from their index on.
pub proof fn lemma_fwd_pos_bounded(ps: Seq<V3>, lengths: Seq<int>, target: V3, j: int)
    requires
        lens_ok(lengths),
        ps.len() == lengths.len() + 1,
        0 <= j < ps.len(),
        v3_bounded(target, coord_limit()),
    ensures
        v3_bounded(fwd_pos(ps, lengths, target, j), coord_limit() + suffix_len(lengths, j)),
        v3_bounded(fwd_pos(ps, lengths, target, j), work_limit()),
    decreases ps.len() - j,
{
    lemma_suffix_len_bounds(lengths, j);
    if j >= ps.len() - 1 {
    } else {
        lemma_fwd_pos_bounded(ps, lengths, target, j + 1);
        lemma_suffix_len_bounds(lengths, j + 1);
        crate::vec3::lemma_place_bounded(
            fwd_pos(ps, lengths, target, j + 1),
            ps[j],
            lengths[j],
            coord_limit() + suffix_len(lengths, j + 1),
        );
    }
}

/// Backward-pass positions stay within the base's bound plus the reach of
/// the segments up to their index.
pub proof fn lemma_bwd_pos_bounded(ps: Seq<V3>, lengths: Seq<int>, base: V3, j: int)
    requires
        lens_ok(lengths),
        0 <= j <= lengths.len(),
        v3_bounded(base, coord_limit()),
    ensures
        v3_bounded(bwd_pos(ps, lengths, base, j), coord_limit() + cum_len(lengths, j)),
        v3_bounded(bwd_pos(ps, lengths, base, j), work_limit()),
    decreases j,
{
    lemma_cum_len_bounds(lengths, j);
    if j <= 0 {
    } else {
        lemma_bwd_pos_bounded(ps, lengths, base, j - 1);
        lemma_cum_len_bounds(lengths, j - 1);
        crate::vec3::lemma_place_bounded(
            bwd_pos(ps, lengths, base, j - 1),
            ps[j],
            lengths[j - 1],
            coord_limit() + cum_len(lengths, j - 1),
        );
        assert((j - 1) * len_limit() + len_limit() == j * len_limit()) by (nonlinear_arith);
        assert(j * len_limit() <= 16 * len_limit()) by (nonlinear_arith)
            requires j <= 16;
    }
}

/// One forward reaching pass, in place: pins the tip to the target and
/// pulls each earlier joint to its segment's length from its successor.
pub fn forward_pass(positions: &mut Vec<FxVec3>, lengths: &Vec<i64>, target: FxVec3)
    requires
        old(positions)@.len() == lengths@.len() + 1,
        lengths@.len() >= 1,
        lens_ok(view_lengths(lengths@)),
        forall|k: int| 0 <= k < old(positions)@.len()
            ==> v3_bounded(#[trigger] old(positions)@[k]@, work_limit()),
        v3_bounded(target@, coord_limit()),
    ensures
        final(positions)@.len() == old(positions)@.len(),
        view_positions(final(positions)@)
            == forward_pass_spec(view_positions(old(positions)@), view_lengths(lengths@), target@),
        forall|k: int| 0 <= k < final(positions)@.len()
            ==> v3_bounded(#[trigger] final(positions)@[k]@, work_limit()),
{
    let ghost ps = view_positions(old(positions)@);
    let ghost ls = view_lengths(lengths@);
    let n = positions.len();
    positions[n - 1] = target;
    let mut i: usize = n - 1;
    while i >= 1
        invariant
            1 <= n,
            i <= n - 1,
            n == positions@.len(),
            n == old(positions)@.len(),
            n == lengths@.len() + 1,
            ps == view_positions(old(positions)@),
            ls == view_lengths(lengths@),
            ps.len() == n,
            ls.len() == n - 1,
            lens_ok(ls),
            v3_bounded(target@, coord_limit()),
            forall|k: int| 0 <= k < n ==> v3_bounded(#[trigger] old(positions)@[k]@, work_limit()),
            forall|k: int| i <= k < n ==> positions@[k]@ == fwd_pos(ps, ls, target@, k),
            forall|k: int| 0 <= k < i ==> positions@[k] == old(positions)@[k],
        decreases i,
    {
        let from = positions[i];
        let toward = positions[i - 1];
        let seg = lengths[i - 1];
        proof {
            lemma_fwd_pos_bounded(ps, ls, target@, i as int);
            assert(ls[i - 1] == lengths@[i - 1] as int);
        }
        let placed = from.place(toward, seg);
        proof {
            assert(placed@ == v3_place(fwd_pos(ps, ls, target@, i as int), ps[i - 1], ls[i - 1]));
            assert(placed@ == fwd_pos(ps, ls, target@, i - 1));
            lemma_fwd_pos_bounded(ps, ls, target@, i - 1);
        }
        positions[i - 1] = placed;
        i = i - 1;
    }
    proof {
        assert forall|k: int| 0 <= k < n implies v3_bounded(
            #[trigger] positions@[k]@, work_limit()) by {
            lemma_fwd_pos_bounded(ps, ls, target@, k);
        }
        assert(view_positions(positions@) =~= forward_pass_spec(ps, ls, target@));
    }
}

/// One backward reaching pass, in place: pins the root to the base and
/// pulls each later joint to its segment's length from its predecessor.
pub fn backward_pass(positions: &mut Vec<FxVec3>, lengths: &Vec<i64>, base: FxVec3)
    requires
        old(positions)@.len() == lengths@.len() + 1,
        lengths@.len() >= 1,
        lens_ok(view_lengths(lengths@)),
        forall|k: int| 0 <= k < old(positions)@.len()
            ==> v3_bounded(#[trigger] old(positions)@[k]@, work_limit()),
        v3_bounded(base@, coord_limit()),
    ensures
        final(positions)@.len() == old(positions)@.len(),
        view_positions(final(positions)@)
            == backward_pass_spec(view_positions(old(positions)@), view_lengths(lengths@), base@),
        forall|k: int| 0 <= k < final(positions)@.len()
            ==> v3_bounded(#[trigger] final(positions)@[k]@, work_limit()),
{
    let ghost ps = view_positions(old(positions)@);
    let ghost ls = view_lengths(lengths@);
    let n = positions.len();
    positions[0] = base;
    let mut i: usize = 1;
    while i < n
        invariant
            1 <= i <= n,
            n == positions@.len(),
            n == old(positions)@.len(),
            n == lengths@.len() + 1,
            ps == view_positions(old(positions)@),
            ls == view_lengths(lengths@),
            ps.len() == n,
            ls.len() == n - 1,
            lens_ok(ls),
            v3_bounded(base@, coord_limit()),
            forall|k: int| 0 <= k < n ==> v3_bounded(#[trigger] old(positions)@[k]@, work_limit()),
            forall|k: int| 0 <= k < i ==> positions@[k]@ == bwd_pos(ps, ls, base@, k),
            forall|k: int| i <= k < n ==> positions@[k] == old(positions)@[k],
        decreases n - i,
    {
        let from = positions[i - 1];
        let toward = positions[i];
        let seg = lengths[i - 1];
        proof {
            lemma_bwd_pos_bounded(ps, ls, base@, i - 1);
            assert(ls[i - 1] == lengths@[i - 1] as int);
        }
        let placed = from.place(toward, seg);
        proof {
            assert(placed@ == v3_place(bwd_pos(ps, ls, base@, i - 1), ps[i as int], ls[i - 1]));
            assert(placed@ == bwd_pos(ps, ls, base@, i as int));
            lemma_bwd_pos_bounded(ps, ls, base@, i as int);
        }
        positions[i] = placed;
        i = i + 1;
    }
    proof {
        assert forall|k: int| 0 <= k < n implies v3_bounded(
            #[trigger] positions@[k]@, work_limit()) by {
            lemma_bwd_pos_bounded(ps, ls, base@, k);
        }
        assert(view_positions(positions@) =~= backward_pass_spec(ps, ls, base@));
    }
}

/// Sums the segment lengths of a chain.
pub fn total_length(lengths: &Vec<i64>) -> (t: i64)
    requires
        lens_ok(view_lengths(lengths@)),
    ensures
        t as int == cum_len(view_lengths(lengths@), lengths@.len() as int),
        0 <= t as int <= 16 * len_limit(),
{
    let ghost ls = view_lengths(lengths@);
    let mut t: i64 = 0;
    let mut i: usize = 0;
    while i < lengths.len()
        invariant
            i <= lengths@.len(),
            ls == view_lengths(lengths@),
            ls.len() == lengths@.len(),
            lens_ok(ls),
            t as int == cum_len(ls, i as int),
            0 <= t as int,
            t as int <= (i as int) * len_limit(),
        decreases lengths@.len() - i,
    {
        proof {
            assert(t as int + ls[i as int] <= ((i as int) + 1) * len_limit()
                && ((i as int) + 1) * len_limit() <= 16 * len_limit()) by (nonlinear_arith)
                requires
                    0 <= t as int <= (i as int) * len_limit(),
                    0 <= ls[i as int] <= len_limit(),
                    0 <= i as int,
                    (i as int) + 1 <= 16;
        }
        t = t + lengths[i];
        i = i + 1;
    }
    t
}

/// Solves one chain: desired global positions for its joints, given their
/// current global positions, the segment lengths and the target point.
/// The result is a pure function of the arguments, so a second solve from
/// the same state returns the same positions.
pub fn solve_chain(positions: &Vec<FxVec3>, lengths: &Vec<i64>, target: FxVec3) -> (r: Vec<FxVec3>)
    requires
        positions@.len() == lengths@.len() + 1,
        lengths@.len() >= 1,
        lens_ok(view_lengths(lengths@)),
        forall|k: int| 0 <= k < positions@.len()
            ==> v3_bounded(#[trigger] positions@[k]@, coord_limit()),
        v3_bounded(target@, coord_limit()),
    ensures
        r@.len() == positions@.len(),
        view_positions(r@) == solve_spec(view_positions(positions@), view_lengths(lengths@), target@),
        forall|k: int| 0 <= k < r@.len() ==> v3_bounded((#[trigger] r@[k])@, work_limit()),
{
    let ghost ps = view_positions(positions@);
    let ghost ls = view_lengths(lengths@);
    let n = positions.len();
    let base = positions[0];
    let total = total_length(lengths);
    let to_target = target.sub(base);
    let m = to_target.norm_sq_wide();
    proof {
        assert(0 <= (total as int) * (total as int) <= i128::MAX as int)
            by (nonlinear_arith)
            requires 0 <= total as int <= 0x1000_0000_0000;
    }
    let tot2 = (total as i128) * (total as i128);
    if m > tot2 {
        // Unreachable: stretch the chain straight toward the target.
        let mut r: Vec<FxVec3> = Vec::new();
        let mut cum: i64 = 0;
        let mut i: usize = 0;
        while i < n
            invariant
                i <= n,
                n == positions@.len(),
                n == lengths@.len() + 1,
                ps == view_positions(positions@),
                ls == view_lengths(lengths@),
                ps.len() == n,
                ls.len() == n - 1,
                lens_ok(ls),
                base == positions@[0],
                v3_bounded(base@, coord_limit()),
                to_target@ == v3_sub(target@, ps[0]),
                v3_bounded(to_target@, 2 * coord_limit()),
                r@.len() == i,
                cum as int == cum_len(ls, if i as int <= ls.len() { i as int } else { ls.len() as int }),
                0 <= cum as int,
                cum as int <= (i as int) * len_limit(),
                forall|k: int| 0 <= k < i
                    ==> (#[trigger] r@[k])@ == v3_add(ps[0], v3_scaled_to(v3_sub(target@, ps[0]),
                        cum_len(ls, k))),
                forall|k: int| 0 <= k < i ==> v3_bounded((#[trigger] r@[k])@, work_limit()),
            decreases n - i,
        {
            proof {
                assert((i as int) * len_limit() <= 16 * len_limit()) by (nonlinear_arith)
                    requires 0 <= i as int <= 16;
            }
            let step = to_target.scaled_to(cum);
            let p = base.add(step);
            r.push(p);
            if i < lengths.len() {
                proof {
                    assert(cum as int + ls[i as int] <= ((i as int) + 1) * len_limit()
                        && ((i as int) + 1) * len_limit() <= 16 * len_limit())
                        by (nonlinear_arith)
                        requires
                            0 <= cum as int <= (i as int) * len_limit(),
                            0 <= ls[i as int] <= len_limit(),
                            0 <= i as int,
                            (i as int) + 1 <= 16;
                }
                cum = cum + lengths[i];
            }
            i = i + 1;
        }
        proof {
            assert(view_positions(r@) =~= extended_spec(ps, ls, target@));
            assert(!reachable(ps, ls, target@));
        }
        r
    } else {
        // Reachable: a fixed number of forward/backward rounds.
        let mut d: Vec<FxVec3> = Vec::new();
        let mut i: usize = 0;
        while i < n
            invariant
                i <= n,
                n == positions@.len(),
                d@.len() == i,
                forall|k: int| 0 <= k < i ==> d@[k] == positions@[k],
            decreases n - i,
        {
            d.push(positions[i]);
            i = i + 1;
        }
        proof {
            assert(d@ =~= positions@);
        }
        let mut k: usize = 0;
        while k < FABRIK_ROUNDS
            invariant
                k <= FABRIK_ROUNDS,
                n == positions@.len(),
                n == lengths@.len() + 1,
                n >= 2,
                ps == view_positions(positions@),
                ls == view_lengths(lengths@),
                lens_ok(ls),
                base == positions@[0],
                v3_bounded(base@, coord_limit()),
                v3_bounded(target@, coord_limit()),
                d@.len() == n,
                view_positions(d@) == rounds_spec(ps, ls, base@, target@, k as int),
                forall|j: int| 0 <= j < n ==> v3_bounded((#[trigger] d@[j])@, work_limit()),
            decreases FABRIK_ROUNDS - k,
        {
            forward_pass(&mut d, lengths, target);
            backward_pass(&mut d, lengths, base);
            k = k + 1;
        }
        proof {
            assert(reachable(ps, ls, target@));
            assert(base@ == ps[0]);
        }
        d
    }
}

/// Solver rounds preserve the number of joints.
pub proof fn lemma_rounds_len(ps: Seq<V3>, lengths: Seq<int>, base: V3, target: V3, k: int)
    ensures
        rounds_spec(ps, lengths, base, target, k).len() == ps.len(),
    decreases k,
{
    if k > 0 {
        lemma_rounds_len(ps, lengths, base, target, k - 1);
    }
}

/// Determinism of the solver: the solved positions are a pure function of
/// the rest state and the target, with a fixed round count and no other
/// input, so two solves of the same chain state agree exactly.
pub proof fn lemma_solve_deterministic(
    ps: Seq<V3>,
    lengths: Seq<int>,
    target: V3,
    r1: Seq<V3>,
    r2: Seq<V3>,
)
    requires
        r1 == solve_spec(ps, lengths, target),
        r2 == solve_spec(ps, lengths, target),
    ensures
        r1 == r2,
{
}

/// An unreachable target's squared offset from the base exceeds the square
/// of the total length, so its norm is at least the total length.
proof fn lemma_unreachable_norm(ps: Seq<V3>, lengths: Seq<int>, target: V3)
    requires
        lens_ok(lengths),
        !reachable(ps, lengths, target),
    ensures
        norm_sq(v3_sub(target, ps[0])) >= 1,
        norm(v3_sub(target, ps[0])) >= cum_len(lengths, lengths.len() as int),
{
    let tt = v3_sub(target, ps[0]);
    let total = cum_len(lengths, lengths.len() as int);
    lemma_cum_len_bounds(lengths, lengths.len() as int);
    assert(0 <= total * total < (total + 1) * (total + 1)) by (nonlinear_arith)
        requires total >= 0;
    crate::fixed::lemma_sqrt_floor_unique(total * total, total);
    crate::fixed::lemma_sqrt_floor_monotone(total * total, norm_sq(tt));
}

/// Unreachable case of the solve: every joint lies on the ray from the
/// base through the target, up to the one-unit rounding of each
/// coordinate (multiplying through by the offset's norm keeps the claim
/// in integers), and the root stays at the base exactly.
pub proof fn lemma_unreachable_on_ray(ps: Seq<V3>, lengths: Seq<int>, target: V3, i: int)
    requires
        lens_ok(lengths),
        ps.len() == lengths.len() + 1,
        0 <= i < ps.len(),
        !reachable(ps, lengths, target),
    ensures
        ({
            let sol = solve_spec(ps, lengths, target);
            let d = v3_sub(sol[i], ps[0]);
            let tt = v3_sub(target, ps[0]);
            let nn = norm(tt);
            let cum = cum_len(lengths, i);
            &&& nn >= 1
            &&& -(nn - 1) <= d.x * nn - tt.x * cum <= nn - 1
            &&& -(nn - 1) <= d.y * nn - tt.y * cum <= nn - 1
            &&& -(nn - 1) <= d.z * nn - tt.z * cum <= nn - 1
            &&& (i == 0 ==> sol[i] == ps[0])
        }),
{
    let sol = solve_spec(ps, lengths, target);
    let tt = v3_sub(target, ps[0]);
    let m = norm_sq(tt);
    let nn = norm(tt);
    let cum = cum_len(lengths, i);
    lemma_unreachable_norm(ps, lengths, target);
    crate::fixed::lemma_sqrt_floor_bounds(m);
    assert(nn >= 1) by (nonlinear_arith)
        requires nn >= 0, (nn + 1) * (nn + 1) > m, m >= 1;
    lemma_cum_len_bounds(lengths, i);
    assert(sol[i] == v3_add(ps[0], v3_scaled_to(tt, cum)));
    let s = v3_scaled_to(tt, cum);
    crate::fixed::lemma_div_tz_bounds(tt.x * cum, nn);
    crate::fixed::lemma_div_tz_bounds(tt.y * cum, nn);
    crate::fixed::lemma_div_tz_bounds(tt.z * cum, nn);
    if i == 0 {
        assert(s == (V3 { x: 0, y: 0, z: 0 }));
    }
}

/// Unreachable case of the solve: every joint sits at its cumulative
/// segment length from the base, within the solver's spacing tolerance,
/// provided that length is not vanishingly small.
pub proof fn lemma_unreachable_spacing(ps: Seq<V3>, lengths: Seq<int>, target: V3, i: int)
    requires
        lens_ok(lengths),
        ps.len() == lengths.len() + 1,
        0 <= i < ps.len(),
        !reachable(ps, lengths, target),
        cum_len(lengths, i) >= 52,
    ensures
        ({
            let sol = solve_spec(ps, lengths, target);
            let cum = cum_len(lengths, i);
            (cum - tol()) * (cum - tol()) <= dist_sq(sol[i], ps[0])
                && dist_sq(sol[i], ps[0]) <= (cum + tol()) * (cum + tol())
        }),
{
    let sol = solve_spec(ps, lengths, target);
    let cum = cum_len(lengths, i);
    lemma_unreachable_norm(ps, lengths, target);
    lemma_cum_len_bounds(lengths, i);
    assert(sol[i] == v3_place(ps[0], target, cum));
    lemma_place_spacing(ps[0], target, cum);
}

/// Unreachable case of the solve with the target straight up the z axis
/// from the base: the rounding divisions are exact, so every joint lies
/// exactly on the ray, spaced by the cumulative segment lengths.
pub proof fn lemma_unreachable_axis_exact(ps: Seq<V3>, lengths: Seq<int>, target: V3, i: int)
    requires
        lens_ok(lengths),
        ps.len() == lengths.len() + 1,
        0 <= i < ps.len(),
        !reachable(ps, lengths, target),
        v3_sub(target, ps[0]).x == 0,
        v3_sub(target, ps[0]).y == 0,
        v3_sub(target, ps[0]).z > 0,
    ensures
        solve_spec(ps, lengths, target)[i]
            == (V3 { x: ps[0].x, y: ps[0].y, z: ps[0].z + cum_len(lengths, i) }),
{
    let sol = solve_spec(ps, lengths, target);
    let tt = v3_sub(target, ps[0]);
    let t = tt.z;
    let m = norm_sq(tt);
    let cum = cum_len(lengths, i);
    lemma_cum_len_bounds(lengths, i);
    assert(m == t * t);
    assert(1 <= t * t < (t + 1) * (t + 1)) by (nonlinear_arith)
        requires t >= 1;
    crate::fixed::lemma_sqrt_floor_unique(t * t, t);
    assert(norm(tt) == t);
    assert(sol[i] == v3_add(ps[0], v3_scaled_to(tt, cum)));
    assert(div_tz(0 * cum, t) == 0);
    vstd::arithmetic::div_mod::lemma_div_multiples_vanish(cum, t);
    assert(div_tz(t * cum, t) == cum);
}

/// The positions a reachable solve's very last backward pass starts
/// from: the forward-pass output of the final round.
pub open spec fn last_forward_positions(ps: Seq<V3>, lengths: Seq<int>, target: V3) -> Seq<V3> {
    forward_pass_spec(
        rounds_spec(ps, lengths, ps[0], target, FABRIK_ROUNDS as int - 1),
        lengths,
        target,
    )
}

/// Spacing law of a reachable solve: every pair of consecutive solved
/// positions is exactly one `place` apart, so their distance matches the
/// segment length to within the solver's tolerance whenever the final
/// backward step's ray offset is at least half that length and the length
/// itself is not vanishingly small.
pub proof fn lemma_solve_spacing(ps: Seq<V3>, lengths: Seq<int>, target: V3, i: int)
    requires
        lens_ok(lengths),
        ps.len() == lengths.len() + 1,
        lengths.len() >= 1,
        reachable(ps, lengths, target),
        1 <= i < ps.len(),
        52 <= lengths[i - 1],
        ({
            let prev = last_forward_positions(ps, lengths, target);
            let sol = solve_spec(ps, lengths, target);
            norm_sq(v3_sub(prev[i], sol[i - 1])) >= 1
                && lengths[i - 1] <= 2 * norm(v3_sub(prev[i], sol[i - 1]))
        }),
    ensures
        ({
            let sol = solve_spec(ps, lengths, target);
            let seg = lengths[i - 1];
            (seg - tol()) * (seg - tol()) <= dist_sq(sol[i], sol[i - 1])
                && dist_sq(sol[i], sol[i - 1]) <= (seg + tol()) * (seg + tol())
        }),
{
    let sol = solve_spec(ps, lengths, target);
    let prev = last_forward_positions(ps, lengths, target);
    assert(rounds_spec(ps, lengths, ps[0], target, FABRIK_ROUNDS as int)
        == round_spec(rounds_spec(ps, lengths, ps[0], target, FABRIK_ROUNDS as int - 1),
            lengths, ps[0], target));
    lemma_rounds_len(ps, lengths, ps[0], target, FABRIK_ROUNDS as int - 1);
    assert(prev.len() == ps.len());
    assert(sol == backward_pass_spec(prev, lengths, ps[0]));
    assert(sol[i] == bwd_pos(prev, lengths, ps[0], i));
    assert(sol[i - 1] == bwd_pos(prev, lengths, ps[0], i - 1));
    assert(sol[i] == v3_place(sol[i - 1], prev[i], lengths[i - 1]));
    lemma_place_spacing(sol[i - 1], prev[i], lengths[i - 1]);
}

/// No step of the final backward pass is degenerate: each placed joint's
/// ray offset — from the joint just placed before it to the forward-pass
/// position it reaches toward — neither vanishes nor falls below half
/// the segment length.  On such an offset the placement's direction is
/// undefined (the fallback keeps the point at its anchor) or its
/// relative rounding too coarse, and the spacing bound genuinely fails,
/// so the spacing law is stated for solves without such steps.
pub open spec fn solve_steps_nondegenerate(ps: Seq<V3>, lengths: Seq<int>, target: V3) -> bool {
    forall|i: int| 1 <= i < ps.len()
        ==> norm_sq(v3_sub(#[trigger] last_forward_positions(ps, lengths, target)[i],
                solve_spec(ps, lengths, target)[i - 1])) >= 1
            && lengths[i - 1] <= 2 * norm(v3_sub(last_forward_positions(ps, lengths, target)[i],
                solve_spec(ps, lengths, target)[i - 1]))
}

/// Spacing law of a reachable solve, over the whole chain at once: every
/// pair of consecutive solved positions is its segment length apart to
/// within the solver's tolerance, for every reachable target and every
/// non-degenerate solve with segments that are not vanishingly small.
pub proof fn lemma_solve_spacing_all(ps: Seq<V3>, lengths: Seq<int>, target: V3)
    requires
        lens_ok(lengths),
        ps.len() == lengths.len() + 1,
        lengths.len() >= 1,
        reachable(ps, lengths, target),
        forall|k: int| 0 <= k < lengths.len() ==> 52 <= #[trigger] lengths[k],
        solve_steps_nondegenerate(ps, lengths, target),
    ensures
        forall|i: int| 1 <= i < ps.len()
            ==> (lengths[i - 1] - tol()) * (lengths[i - 1] - tol())
                <= dist_sq(#[trigger] solve_spec(ps, lengths, target)[i],
                    solve_spec(ps, lengths, target)[i - 1])
            && dist_sq(solve_spec(ps, lengths, target)[i], solve_spec(ps, lengths, target)[i - 1])
                <= (lengths[i - 1] + tol()) * (lengths[i - 1] + tol()),
{
    let sol = solve_spec(ps, lengths, target);
    let prev = last_forward_positions(ps, lengths, target);
    assert forall|i: int| 1 <= i < ps.len() implies
        (lengths[i - 1] - tol()) * (lengths[i - 1] - tol())
            <= dist_sq(#[trigger] solve_spec(ps, lengths, target)[i],
                solve_spec(ps, lengths, target)[i - 1])
        && dist_sq(solve_spec(ps, lengths, target)[i], solve_spec(ps, lengths, target)[i - 1])
            <= (lengths[i - 1] + tol()) * (lengths[i - 1] + tol()) by {
        assert(norm_sq(v3_sub(prev[i], sol[i - 1])) >= 1
            && lengths[i - 1] <= 2 * norm(v3_sub(prev[i], sol[i - 1])));
        lemma_solve_spacing(ps, lengths, target, i);
    }
}

} // verus!
