//! The per-notification animation state machine.
//!
//! A state advances `Appearing -> Visible -> Disappearing -> Finished` as
//! elapsed time is fed in. Each tick adds the elapsed time to the current
//! phase's counter; when the counter reaches the phase's configured duration
//! the state moves to the next phase and carries the excess forward, so one
//! large tick can cascade through several phases. A phase configured with a
//! zero duration is skipped immediately.

use crate::types::AnimationPhase;
use crate::types::ManagerDefaults;
use crate::types::Notification;
use vstd::prelude::*;

verus! {

/// Position of a phase in the fixed lifecycle order.
pub open spec fn phase_rank(phase: AnimationPhase) -> int {
    match phase {
        AnimationPhase::Appearing => 0,
        AnimationPhase::Visible => 1,
        AnimationPhase::Disappearing => 2,
        AnimationPhase::Finished => 3,
    }
}

/// The phase that follows `phase`; `Finished` is terminal.
pub open spec fn spec_next_phase(phase: AnimationPhase) -> AnimationPhase {
    match phase {
        AnimationPhase::Appearing => AnimationPhase::Visible,
        AnimationPhase::Visible => AnimationPhase::Disappearing,
        AnimationPhase::Disappearing => AnimationPhase::Finished,
        AnimationPhase::Finished => AnimationPhase::Finished,
    }
}

/// Configured duration of `phase` in milliseconds; the terminal phase has
/// no duration.
pub open spec fn spec_duration(timing: ManagerDefaults, phase: AnimationPhase) -> u64 {
    match phase {
        AnimationPhase::Appearing => timing.appear_ms,
        AnimationPhase::Visible => timing.visible_ms,
        AnimationPhase::Disappearing => timing.dismiss_ms,
        AnimationPhase::Finished => 0,
    }
}

/// The phase and phase-elapsed counter reached from `(phase, elapsed)` after
/// `delta` further milliseconds: time is absorbed into the current phase
/// until its duration is reached, and the excess carries into the next phase.
pub open spec fn spec_phase_after(
    phase: AnimationPhase,
    elapsed: u64,
    timing: ManagerDefaults,
    delta: u64,
) -> (AnimationPhase, u64)
    decreases 3 - phase_rank(phase),
{
    if phase == AnimationPhase::Finished {
        (phase, elapsed)
    } else {
        let dur = spec_duration(timing, phase);
        if elapsed + delta < dur {
            (phase, (elapsed + delta) as u64)
        } else {
            spec_phase_after(spec_next_phase(phase), 0, timing, ((elapsed + delta) - dur) as u64)
        }
    }
}

/// Mutable timing state of one live notification: the owned notification
/// value, the current phase, the time spent inside that phase, and the
/// creation stamp used for oldest/newest comparisons.
#[derive(Debug)]
pub struct NotificationState {
    /// The identity the manager allocated for this notification.
    pub id: u64,
    /// The notification being animated; owned, never mutated.
    pub notification: Notification,
    /// The phase the animation is currently in.
    pub current_phase: AnimationPhase,
    /// Milliseconds spent inside the current phase so far.
    pub elapsed_in_phase: u64,
    /// Monotonic creation stamp: strictly older notifications carry strictly
    /// smaller stamps within one manager.
    pub created_at: u64,
    /// The per-phase durations this state was created with.
    pub timing: ManagerDefaults,
}

/// `st` one tick of `delta` milliseconds later: phase and counter advance,
/// everything else is unchanged.
pub open spec fn stepped(st: NotificationState, delta: u64) -> NotificationState {
    let r = spec_phase_after(st.current_phase, st.elapsed_in_phase, st.timing, delta);
    NotificationState { current_phase: r.0, elapsed_in_phase: r.1, ..st }
}

impl NotificationState {
    /// Well-formedness: a live (non-terminal) phase has strictly more
    /// configured duration than time already spent in it, so zero-duration
    /// phases never persist across calls.
    pub open spec fn inv(self) -> bool {
        self.current_phase == AnimationPhase::Finished || self.elapsed_in_phase < spec_duration(
            self.timing,
            self.current_phase,
        )
    }

    /// Creates the animation state for a freshly added notification: it
    /// starts in `Appearing` with nothing elapsed, except that leading
    /// zero-duration phases are skipped immediately.
    pub fn new(
        id: u64,
        notification: Notification,
        defaults: &ManagerDefaults,
        created_at: u64,
    ) -> (st: Self)
        ensures
            st.id == id,
            st.notification == notification,
            st.created_at == created_at,
            st.timing == *defaults,
            (st.current_phase, st.elapsed_in_phase) == spec_phase_after(
                AnimationPhase::Appearing,
                0,
                *defaults,
                0,
            ),
            st.inv(),
    {
        let mut st = NotificationState {
            id,
            notification,
            current_phase: AnimationPhase::Appearing,
            elapsed_in_phase: 0,
            created_at,
            timing: *defaults,
        };
        st.update(0);
        st
    }

    /// Configured duration of `phase` for this state, in milliseconds.
    pub fn phase_duration(&self, phase: AnimationPhase) -> (d: u64)
        ensures
            d == spec_duration(self.timing, phase),
    {
        match phase {
            AnimationPhase::Appearing => self.timing.appear_ms,
            AnimationPhase::Visible => self.timing.visible_ms,
            AnimationPhase::Disappearing => self.timing.dismiss_ms,
            AnimationPhase::Finished => 0,
        }
    }

    /// Whether this state has reached the terminal phase.
    pub fn is_finished(&self) -> (r: bool)
        ensures
            r == (self.current_phase == AnimationPhase::Finished),
    {
        self.current_phase == AnimationPhase::Finished
    }

    /// Advances the state by `delta_ms` milliseconds, carrying excess time
    /// across phase boundaries as [`spec_phase_after`] describes.
    pub fn update(&mut self, delta_ms: u64)
        requires
            old(self).inv() || old(self).elapsed_in_phase == 0,
        ensures
            *final(self) == stepped(*old(self), delta_ms),
            final(self).inv(),
    {
        let mut remaining = delta_ms;
        loop
            invariant
                self.id == old(self).id,
                self.notification == old(self).notification,
                self.created_at == old(self).created_at,
                self.timing == old(self).timing,
                self.inv() || self.elapsed_in_phase == 0,
                spec_phase_after(self.current_phase, self.elapsed_in_phase, self.timing, remaining)
                    == spec_phase_after(
                    old(self).current_phase,
                    old(self).elapsed_in_phase,
                    old(self).timing,
                    delta_ms,
                ),
            decreases 3 - phase_rank(self.current_phase),
        {
            if self.current_phase == AnimationPhase::Finished {
                return ;
            }
            let dur = self.phase_duration(self.current_phase);
            if self.elapsed_in_phase < dur && remaining < dur - self.elapsed_in_phase {
                self.elapsed_in_phase = self.elapsed_in_phase + remaining;
                return ;
            }
            let consumed = if self.elapsed_in_phase < dur {
                dur - self.elapsed_in_phase
            } else {
                0
            };
            remaining = remaining - consumed;
            self.elapsed_in_phase = 0;
            self.current_phase = match self.current_phase {
                AnimationPhase::Appearing => AnimationPhase::Visible,
                AnimationPhase::Visible => AnimationPhase::Disappearing,
                AnimationPhase::Disappearing => AnimationPhase::Finished,
                AnimationPhase::Finished => AnimationPhase::Finished,
            };
        }
    }
}

/// Whatever it starts from, one tick lands in a well-formed state: either
/// the terminal phase, or a live phase with time still remaining in it.
pub proof fn lemma_phase_after_wf(
    phase: AnimationPhase,
    elapsed: u64,
    timing: ManagerDefaults,
    delta: u64,
)
    ensures
        ({
            let r = spec_phase_after(phase, elapsed, timing, delta);
            r.0 == AnimationPhase::Finished || r.1 < spec_duration(timing, r.0)
        }),
    decreases 3 - phase_rank(phase),
{
    if phase != AnimationPhase::Finished {
        let dur = spec_duration(timing, phase);
        if !(elapsed + delta < dur) {
            lemma_phase_after_wf(
                spec_next_phase(phase),
                0,
                timing,
                ((elapsed + delta) - dur) as u64,
            );
        }
    }
}

/// Law: phase monotonicity. For a single animation state the phase never
/// regresses: ticking can only keep the phase or move it later in the
/// `Appearing -> Visible -> Disappearing -> Finished` order.
pub proof fn lemma_phase_never_regresses(
    phase: AnimationPhase,
    elapsed: u64,
    timing: ManagerDefaults,
    delta: u64,
)
    ensures
        phase_rank(spec_phase_after(phase, elapsed, timing, delta).0) >= phase_rank(phase),
    decreases 3 - phase_rank(phase),
{
    if phase != AnimationPhase::Finished {
        let dur = spec_duration(timing, phase);
        if !(elapsed + delta < dur) {
            lemma_phase_never_regresses(
                spec_next_phase(phase),
                0,
                timing,
                ((elapsed + delta) - dur) as u64,
            );
        }
    }
}

/// Law: sum decomposition. From a well-formed state, ticking by `d1` and
/// then by `d2` reaches exactly the phase and counter of one tick of
/// `d1 + d2`, so splitting a duration into smaller frames never changes
/// where an animation ends up.
pub proof fn lemma_tick_sum_decomposition(
    phase: AnimationPhase,
    elapsed: u64,
    timing: ManagerDefaults,
    d1: u64,
    d2: u64,
)
    requires
        phase == AnimationPhase::Finished || elapsed < spec_duration(timing, phase) || elapsed
            == 0,
        d1 + d2 <= u64::MAX,
    ensures
        ({
            let mid = spec_phase_after(phase, elapsed, timing, d1);
            spec_phase_after(mid.0, mid.1, timing, d2) == spec_phase_after(
                phase,
                elapsed,
                timing,
                (d1 + d2) as u64,
            )
        }),
    decreases 3 - phase_rank(phase),
{
    if phase != AnimationPhase::Finished {
        let dur = spec_duration(timing, phase);
        if elapsed + d1 < dur {
            // The first tick stays inside the phase; both sides then agree on
            // whether the combined time leaves it.
        } else {
            let r1 = ((elapsed + d1) - dur) as u64;
            lemma_tick_sum_decomposition(spec_next_phase(phase), 0, timing, r1, d2);
        }
    }
}

/// Law: sum decomposition, restated on whole states: ticking a well-formed
/// state twice equals one combined tick.
pub proof fn lemma_stepped_sum_decomposition(st: NotificationState, d1: u64, d2: u64)
    requires
        st.inv() || st.elapsed_in_phase == 0,
        d1 + d2 <= u64::MAX,
    ensures
        stepped(stepped(st, d1), d2) == stepped(st, (d1 + d2) as u64),
{
    lemma_tick_sum_decomposition(st.current_phase, st.elapsed_in_phase, st.timing, d1, d2);
}

} // verus!
