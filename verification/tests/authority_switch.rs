use humanoid_ik::authority::{Avatar, IkAuthority, TrackingStatus, apply_status, grants_ik};

fn avatars(cached: &[bool]) -> Vec<Avatar> {
    cached.iter().map(|&c| Avatar { graph_cached: c }).collect()
}

/// Ready and running sessions grant IK authority; any other state does
/// not.
#[test]
fn status_classes() {
    assert!(grants_ik(TrackingStatus::Ready));
    assert!(grants_ik(TrackingStatus::Running));
    assert!(!grants_ik(TrackingStatus::Unavailable));
}

/// A transition from non-granting to granting turns authority on and
/// removes every avatar's cached animation-graph association.
#[test]
fn transition_clears_avatars() {
    let mut authority = IkAuthority { enabled: false };
    let mut avs = avatars(&[true, true, false]);
    apply_status(&mut authority, Some(TrackingStatus::Ready), &mut avs);
    assert!(authority.enabled);
    assert!(avs.iter().all(|a| !a.graph_cached));
}

/// A steady-state frame, where the reported class matches the switch,
/// removes nothing: the side effect fires exactly once per transition.
#[test]
fn steady_state_leaves_avatars() {
    let mut authority = IkAuthority { enabled: true };
    let mut avs = avatars(&[true, false, true]);
    apply_status(&mut authority, Some(TrackingStatus::Running), &mut avs);
    assert!(authority.enabled);
    assert_eq!(avs, avatars(&[true, false, true]));
}

/// Losing the session turns authority off and also clears the cached
/// associations, once.
#[test]
fn losing_session_clears_once() {
    let mut authority = IkAuthority { enabled: true };
    let mut avs = avatars(&[true, true]);
    apply_status(&mut authority, Some(TrackingStatus::Unavailable), &mut avs);
    assert!(!authority.enabled);
    assert!(avs.iter().all(|a| !a.graph_cached));
    let mut again = avatars(&[true]);
    apply_status(&mut authority, Some(TrackingStatus::Unavailable), &mut again);
    assert!(!authority.enabled);
    assert_eq!(again, avatars(&[true]));
}

/// An absent status report leaves both the switch and the avatars alone.
#[test]
fn absent_status_is_inert() {
    let mut authority = IkAuthority { enabled: true };
    let mut avs = avatars(&[true]);
    apply_status(&mut authority, None, &mut avs);
    assert!(authority.enabled);
    assert_eq!(avs, avatars(&[true]));
}
