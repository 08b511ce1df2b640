//! The per-item activation state machine.
//!
//! Each launcher item owns one machine. Once per frame the caller
//! reports what happened to the item's grab handle — it was seized,
//! released at some displacement, a running animation finished, or a
//! requested launch was scheduled — and performs the action the machine
//! answers with. Displacements are measured in thousandths of a spatial
//! unit, so the comparison against the threshold is exact.
//!
//! Policy for a grab during an animation: a grab while the handle is
//! returning to rest seizes it again (the return is cancelled); once the
//! commit animation has begun — shrinking, launching or growing — a grab
//! is ignored until the cycle ends. A launch task, once scheduled, is
//! never cancelled and its outcome is never observed: a failed launch
//! looks exactly like a successful one from the animation's point of
//! view.

use vstd::prelude::*;

verus! {

/// The default activation threshold, in thousandths of a unit: a release
/// farther than this from rest commits a launch.
pub const ACTIVATION_DISTANCE: u32 = 500;

/// Where a launcher item stands in the gesture cycle.
#[derive(Debug, PartialEq, Eq, Clone, Copy, Structural)]
pub enum ActivationState {
    /// At rest; no gesture in progress.
    Idle,
    /// The handle is held by the user.
    Grabbed,
    /// Released within the threshold: animating back to rest.
    Returning,
    /// Released past the threshold: the commit animation is shrinking
    /// the item.
    Shrinking,
    /// The shrink finished; the launch is being handed to the runner.
    Launching,
    /// The launch is scheduled; the item is growing back to full size.
    Growing,
}

/// What the caller reports for one frame.
#[derive(Debug, PartialEq, Eq, Clone, Copy, Structural)]
pub enum GestureEvent {
    /// The handle was seized.
    Grab,
    /// The handle was let go at this displacement from rest, in
    /// thousandths of a unit.
    Release { displacement: u32 },
    /// The running animation completed.
    TweenFinished,
    /// The requested launch was handed off (fire-and-forget).
    LaunchScheduled,
}

/// What the caller must do after a step. The two release actions also
/// zero the handle's linear and angular velocity, so no drift outlives
/// the release.
#[derive(Debug, PartialEq, Eq, Clone, Copy, Structural)]
pub enum Action {
    /// Nothing to do this frame.
    Stay,
    /// Animate the handle back to its rest pose, velocities zeroed.
    StartReturn,
    /// Animate the commit shrink, velocities zeroed.
    StartShrink,
    /// Hand the launch to the runner, fire-and-forget.
    Launch,
    /// Animate back up to full size.
    StartGrow,
}

/// The machine's transition function: the next state and the action for
/// one reported event.
pub open spec fn next(threshold: u32, s: ActivationState, e: GestureEvent) -> (
    ActivationState,
    Action,
) {
    match (s, e) {
        (ActivationState::Idle, GestureEvent::Grab) => (ActivationState::Grabbed, Action::Stay),
        (ActivationState::Grabbed, GestureEvent::Release { displacement }) => {
            if displacement <= threshold {
                (ActivationState::Returning, Action::StartReturn)
            } else {
                (ActivationState::Shrinking, Action::StartShrink)
            }
        },
        (ActivationState::Returning, GestureEvent::TweenFinished) => (
            ActivationState::Idle,
            Action::Stay,
        ),
        (ActivationState::Returning, GestureEvent::Grab) => (
            ActivationState::Grabbed,
            Action::Stay,
        ),
        (ActivationState::Shrinking, GestureEvent::TweenFinished) => (
            ActivationState::Launching,
            Action::Launch,
        ),
        (ActivationState::Launching, GestureEvent::LaunchScheduled) => (
            ActivationState::Growing,
            Action::StartGrow,
        ),
        (ActivationState::Growing, GestureEvent::TweenFinished) => (
            ActivationState::Idle,
            Action::Stay,
        ),
        _ => (s, Action::Stay),
    }
}

/// One launcher item's activation machine: its configured threshold and
/// its current state.
#[derive(Debug, PartialEq, Eq, Clone, Copy, Structural)]
pub struct ActivationStateMachine {
    threshold: u32,
    state: ActivationState,
}

impl ActivationStateMachine {
    /// A machine at rest with the given threshold, in thousandths of a
    /// unit.
    pub fn new(threshold: u32) -> (m: ActivationStateMachine)
        ensures
            m.state() == ActivationState::Idle,
            m.threshold() == threshold,
    {
        ActivationStateMachine { threshold, state: ActivationState::Idle }
    }

    /// The configured threshold.
    pub closed spec fn threshold(&self) -> u32 {
        self.threshold
    }

    /// The current state.
    pub closed spec fn state(&self) -> ActivationState {
        self.state
    }

    /// The current state, for callers.
    pub fn current_state(&self) -> (s: ActivationState)
        ensures
            s == self.state(),
    {
        self.state
    }

    /// Feeds one frame's event to the machine and returns the action to
    /// perform.
    pub fn step(&mut self, event: GestureEvent) -> (a: Action)
        ensures
            (final(self).state(), a) == next(old(self).threshold(), old(self).state(), event),
            final(self).threshold() == old(self).threshold(),
    {
        let (s, a): (ActivationState, Action) = match (self.state, event) {
            (ActivationState::Idle, GestureEvent::Grab) => (
                ActivationState::Grabbed,
                Action::Stay,
            ),
            (ActivationState::Grabbed, GestureEvent::Release { displacement }) => {
                if displacement <= self.threshold {
                    (ActivationState::Returning, Action::StartReturn)
                } else {
                    (ActivationState::Shrinking, Action::StartShrink)
                }
            },
            (ActivationState::Returning, GestureEvent::TweenFinished) => (
                ActivationState::Idle,
                Action::Stay,
            ),
            (ActivationState::Returning, GestureEvent::Grab) => (
                ActivationState::Grabbed,
                Action::Stay,
            ),
            (ActivationState::Shrinking, GestureEvent::TweenFinished) => (
                ActivationState::Launching,
                Action::Launch,
            ),
            (ActivationState::Launching, GestureEvent::LaunchScheduled) => (
                ActivationState::Growing,
                Action::StartGrow,
            ),
            (ActivationState::Growing, GestureEvent::TweenFinished) => (
                ActivationState::Idle,
                Action::Stay,
            ),
            (cur, _) => (cur, Action::Stay),
        };
        self.state = s;
        a
    }
}

/// A launch is requested in exactly one situation: the commit shrink
/// finished. No other state and event produce it, so one committed
/// gesture requests at most one launch per pass through `Shrinking`.
pub proof fn lemma_launch_only_after_shrink(threshold: u32, s: ActivationState, e: GestureEvent)
    ensures
        next(threshold, s, e).1 == Action::Launch <==> (s == ActivationState::Shrinking && e
            == GestureEvent::TweenFinished),
{
}

/// The commit path: a release past the threshold shrinks the item, the
/// finished shrink requests the launch exactly once, and the cycle ends
/// back at rest — four steps, one `Launch` action among them.
pub proof fn lemma_commit_launches_once(threshold: u32, displacement: u32)
    requires
        displacement > threshold,
    ensures
        ({
            let (s1, a1) = next(
                threshold,
                ActivationState::Grabbed,
                GestureEvent::Release { displacement },
            );
            let (s2, a2) = next(threshold, s1, GestureEvent::TweenFinished);
            let (s3, a3) = next(threshold, s2, GestureEvent::LaunchScheduled);
            let (s4, a4) = next(threshold, s3, GestureEvent::TweenFinished);
            &&& s1 == ActivationState::Shrinking && a1 == Action::StartShrink
            &&& s2 == ActivationState::Launching && a2 == Action::Launch
            &&& s3 == ActivationState::Growing && a3 == Action::StartGrow
            &&& s4 == ActivationState::Idle && a4 == Action::Stay
            &&& a1 != Action::Launch && a3 != Action::Launch && a4 != Action::Launch
        }),
{
}

/// The cancel path: a release within the threshold returns the handle to
/// rest, and neither step requests a launch.
pub proof fn lemma_release_within_threshold_no_launch(threshold: u32, displacement: u32)
    requires
        displacement <= threshold,
    ensures
        ({
            let (s1, a1) = next(
                threshold,
                ActivationState::Grabbed,
                GestureEvent::Release { displacement },
            );
            let (s2, a2) = next(threshold, s1, GestureEvent::TweenFinished);
            &&& s1 == ActivationState::Returning && a1 == Action::StartReturn
            &&& s2 == ActivationState::Idle && a2 == Action::Stay
            &&& a1 != Action::Launch && a2 != Action::Launch
        }),
{
}

/// The only way into the commit animation is a release past the
/// threshold while grabbed: `Shrinking` is entered from no other state.
pub proof fn lemma_shrinking_only_from_release(threshold: u32, s: ActivationState, e: GestureEvent)
    ensures
        next(threshold, s, e).0 == ActivationState::Shrinking ==> (s == ActivationState::Shrinking
            || (s == ActivationState::Grabbed && (e matches GestureEvent::Release { displacement }
                && displacement > threshold))),
{
}

} // verus!
