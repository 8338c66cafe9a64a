use humanoid_ik::fixed::SCALE;
use humanoid_ik::solver::solve_chain;
use humanoid_ik::vec3::FxVec3;

fn v(x: i64, y: i64, z: i64) -> FxVec3 {
    FxVec3 { x, y, z }
}

/// Rest positions of the reference chain: segments of 0.3, 0.25 and 0.1
/// units laid out along the z axis from the origin.
fn rest_positions() -> Vec<FxVec3> {
    vec![
        v(0, 0, 0),
        v(0, 0, 300_000),
        v(0, 0, 550_000),
        v(0, 0, 650_000),
    ]
}

fn rest_lengths() -> Vec<i64> {
    vec![300_000, 250_000, 100_000]
}

fn dist_sq(a: FxVec3, b: FxVec3) -> i128 {
    let dx = (a.x - b.x) as i128;
    let dy = (a.y - b.y) as i128;
    let dz = (a.z - b.z) as i128;
    dx * dx + dy * dy + dz * dz
}

/// A reachable target half a unit up the z axis is reached by the hand to
/// within a thousandth of a unit after the fixed thirty rounds.  The
/// start pose is bent: from a pose lying exactly on the line through the
/// target the passes could never leave that line.
#[test]
fn reachable_target_straight_up() {
    let bent = vec![
        v(0, 0, 0),
        v(0, 120_000, 275_000),
        v(0, 200_000, 500_000),
        v(0, 150_000, 598_000),
    ];
    let solved = solve_chain(&bent, &rest_lengths(), v(0, 0, 500_000));
    assert_eq!(solved.len(), 4);
    let hand = solved[3];
    let goal = v(0, 0, 500_000);
    let tol: i128 = 1_000;
    assert!(dist_sq(hand, goal) <= tol * tol);
}

/// An unreachable target straight up the z axis stretches the chain
/// exactly along the axis: every joint sits at its cumulative segment
/// length from the base, and the hand at the chain's full reach.
#[test]
fn unreachable_target_straight_up() {
    let solved = solve_chain(&rest_positions(), &rest_lengths(), v(0, 0, 10_000_000));
    assert_eq!(solved.len(), 4);
    assert_eq!(solved[0], v(0, 0, 0));
    assert_eq!(solved[1], v(0, 0, 300_000));
    assert_eq!(solved[2], v(0, 0, 550_000));
    assert_eq!(solved[3], v(0, 0, 650_000));
}

/// For a reachable target off every axis, each pair of consecutive solved
/// positions is a segment length apart to within the spacing tolerance of
/// one ten-thousandth of a unit.
#[test]
fn reachable_spacing_holds() {
    let lengths = rest_lengths();
    let solved = solve_chain(&rest_positions(), &lengths, v(100_000, 200_000, 400_000));
    let tol: i128 = 100;
    for i in 0..3 {
        let seg = lengths[i] as i128;
        let d2 = dist_sq(solved[i + 1], solved[i]);
        assert!(d2 <= (seg + tol) * (seg + tol));
        assert!(d2 >= (seg - tol) * (seg - tol));
    }
}

/// Spacing also holds on the stretched chain of an unreachable target off
/// every axis, and the joints stay in cumulative-distance order.
#[test]
fn unreachable_spacing_holds() {
    let lengths = rest_lengths();
    let solved = solve_chain(&rest_positions(), &lengths, v(3_000_000, 4_000_000, 5_000_000));
    let base = solved[0];
    let tol: i128 = 100;
    let mut cum: i128 = 0;
    for i in 0..3 {
        cum += lengths[i] as i128;
        let d2 = dist_sq(solved[i + 1], base);
        assert!(d2 <= (cum + tol) * (cum + tol));
        assert!(d2 >= (cum - tol) * (cum - tol));
    }
}

/// Solving twice from the same rest state and target gives bit-identical
/// results: the round count is fixed and nothing else feeds the solve.
#[test]
fn solve_is_deterministic() {
    let a = solve_chain(&rest_positions(), &rest_lengths(), v(123_456, -654_321, 250_000));
    let b = solve_chain(&rest_positions(), &rest_lengths(), v(123_456, -654_321, 250_000));
    assert_eq!(a, b);
}

/// A target exactly at the chain's reach is still the reachable case
/// (the comparison is strict), and the solve pins the tip to it.
#[test]
fn boundary_target_is_reachable() {
    let solved = solve_chain(&rest_positions(), &rest_lengths(), v(0, 0, 650_000));
    let tol: i128 = 1_000;
    assert!(dist_sq(solved[3], v(0, 0, 650_000)) <= tol * tol);
}

/// A target at the base itself is degenerate but safe: the solve returns
/// four positions with the root still pinned to the base.
#[test]
fn target_at_base_is_safe() {
    let solved = solve_chain(&rest_positions(), &rest_lengths(), v(0, 0, 0));
    assert_eq!(solved.len(), 4);
    assert_eq!(solved[0], v(0, 0, 0));
}

/// The rescaling primitive the solver is built on: a vector rescaled to a
/// length lands within that length on every coordinate, and the zero
/// vector stays zero.
#[test]
fn scaled_to_behaves() {
    let d = v(3 * SCALE, 4 * SCALE, 0);
    let s = d.scaled_to(SCALE);
    assert_eq!(s, v(600_000, 800_000, 0));
    let z = v(0, 0, 0).scaled_to(SCALE);
    assert_eq!(z, v(0, 0, 0));
}

/// The exact norm: a 3-4-5 triangle comes out exactly, and truncation
/// rounds down otherwise.
#[test]
fn norm_is_exact_floor() {
    assert_eq!(v(3_000_000, 4_000_000, 0).norm(), 5_000_000);
    assert_eq!(v(1, 1, 0).norm(), 1);
    assert_eq!(v(0, 0, 0).norm(), 0);
}
