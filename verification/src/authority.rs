//! The authority controller: decides, from the tracking session status,
//! whether the IK pipeline holds authority this frame, and clears each
//! avatar's cached animation-graph association whenever that authority
//! flips.

use vstd::prelude::*;

verus! {

/// Session status reported by the external tracking collaborator.
#[derive(Clone, Copy, PartialEq, Eq, Structural, Debug)]
pub enum TrackingStatus {
    /// The session is ready to begin presenting frames.
    Ready,
    /// The session is live and presenting frames.
    Running,
    /// Any other session state: no tracking data is authoritative.
    Unavailable,
}

/// An avatar as the authority controller sees it: only whether its
/// animation-graph association is currently cached matters here.
#[derive(Clone, Copy, PartialEq, Eq, Structural, Debug)]
pub struct Avatar {
    pub graph_cached: bool,
}

/// The process-wide switch: true while the IK pipeline holds authority.
#[derive(Clone, Copy, PartialEq, Eq, Structural, Debug)]
pub struct IkAuthority {
    pub enabled: bool,
}

/// A status grants IK authority exactly when the session is ready or running.
pub open spec fn status_grants_ik(s: TrackingStatus) -> bool {
    s == TrackingStatus::Ready || s == TrackingStatus::Running
}

/// The switch value after observing a status report: an absent report
/// leaves it as it was; a present one overwrites it with the status class.
pub open spec fn next_enabled(enabled: bool, status: Option<TrackingStatus>) -> bool {
    match status {
        Option::None => enabled,
        Option::Some(s) => status_grants_ik(s),
    }
}

/// An avatar with its cached animation-graph association removed.
pub open spec fn cleared(a: Avatar) -> Avatar {
    Avatar { graph_cached: false }
}

/// The avatars after a frame of the authority controller: on a flip every
/// cached association is removed; on a steady-state frame none is touched.
pub open spec fn next_avatars(
    enabled: bool,
    status: Option<TrackingStatus>,
    avatars: Seq<Avatar>,
) -> Seq<Avatar> {
    if next_enabled(enabled, status) != enabled {
        avatars.map_values(|a: Avatar| cleared(a))
    } else {
        avatars
    }
}

/// Returns whether `s` grants IK authority.
pub fn grants_ik(s: TrackingStatus) -> (r: bool)
    ensures
        r == status_grants_ik(s),
{
    match s {
        TrackingStatus::Ready => true,
        TrackingStatus::Running => true,
        TrackingStatus::Unavailable => false,
    }
}

/// One frame of the authority controller: fold the (possibly absent)
/// status report into the switch, and, exactly when its value changes, remove
/// the cached animation-graph association from every avatar.
pub fn apply_status(
    authority: &mut IkAuthority,
    status: Option<TrackingStatus>,
    avatars: &mut Vec<Avatar>,
)
    ensures
        final(authority).enabled == next_enabled(old(authority).enabled, status),
        final(avatars)@ == next_avatars(old(authority).enabled, status, old(avatars)@),
{
    let last = authority.enabled;
    match status {
        Option::None => {}
        Option::Some(s) => {
            authority.enabled = grants_ik(s);
        }
    }
    if authority.enabled != last {
        let n = avatars.len();
        let mut i: usize = 0;
        while i < n
            invariant
                i <= n,
                n == avatars@.len(),
                forall|j: int| 0 <= j < i ==> avatars@[j] == cleared(old(avatars)@[j]),
                forall|j: int| i <= j < n ==> avatars@[j] == old(avatars)@[j],
            decreases n - i,
        {
            avatars[i] = Avatar { graph_cached: false };
            i = i + 1;
        }
        proof {
            assert(avatars@ =~= old(avatars)@.map_values(|a: Avatar| cleared(a)));
        }
    }
}

/// A transition from a non-granting to a granting status flips the switch
/// from false to true and removes the cached animation-graph association
/// from every avatar in that same frame.
pub proof fn lemma_authority_transition(
    enabled: bool,
    s: TrackingStatus,
    avatars: Seq<Avatar>,
)
    requires
        !enabled,
        status_grants_ik(s),
    ensures
        next_enabled(enabled, Some(s)),
        next_avatars(enabled, Some(s), avatars).len() == avatars.len(),
        forall|j: int|
            0 <= j < avatars.len() ==> !next_avatars(enabled, Some(s), avatars)[j].graph_cached,
{
}

/// On a steady-state frame, where the reported status class matches the
/// switch's current value, no avatar is touched: the removal side effect
/// fires only on the frame of a transition, so exactly once per transition.
pub proof fn lemma_authority_steady(
    enabled: bool,
    status: Option<TrackingStatus>,
    avatars: Seq<Avatar>,
)
    requires
        next_enabled(enabled, status) == enabled,
    ensures
        next_avatars(enabled, status, avatars) == avatars,
{
}

} // verus!
