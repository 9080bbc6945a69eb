//! Animation lifecycle: phase progression, excess carry across phase
//! boundaries, zero-duration phases, pruning, and activity reporting.

use ratatui_notifications::Anchor;
use ratatui_notifications::AnimationPhase;
use ratatui_notifications::Level;
use ratatui_notifications::ManagerDefaults;
use ratatui_notifications::Notification;
use ratatui_notifications::NotificationState;
use ratatui_notifications::Notifications;

fn note(anchor: Anchor) -> Notification {
    Notification {
        content: String::from("tick"),
        level: Level::Warning,
        anchor,
    }
}

fn manager_100_200_100() -> Notifications {
    Notifications::new().defaults(ManagerDefaults::new(100, 200, 100))
}

fn phase_of(m: &Notifications, id: u64) -> AnimationPhase {
    m.get(id).unwrap().current_phase
}

fn elapsed_of(m: &Notifications, id: u64) -> u64 {
    m.get(id).unwrap().elapsed_in_phase
}

#[test]
fn timed_walk_through_all_phases() {
    // appear=100ms, hold=200ms, dismiss=100ms; one notification at t=0.
    let mut m = manager_100_200_100();
    let id = m.add(note(Anchor::TopRight)).unwrap();
    assert_eq!(phase_of(&m, id), AnimationPhase::Appearing);
    assert_eq!(elapsed_of(&m, id), 0);

    m.tick(50);
    assert_eq!(phase_of(&m, id), AnimationPhase::Appearing);
    assert_eq!(elapsed_of(&m, id), 50);

    m.tick(80);
    // 130ms >= 100ms: advance to Visible carrying 30ms.
    assert_eq!(phase_of(&m, id), AnimationPhase::Visible);
    assert_eq!(elapsed_of(&m, id), 30);

    m.tick(500);
    // cascades through Visible (170ms left) and Disappearing (100ms) to
    // Finished, and the state is pruned before tick returns.
    assert!(m.get(id).is_none());
    assert_eq!(m.live_count(), 0);
}

#[test]
fn phase_boundary_is_reached_not_exceeded() {
    let mut m = manager_100_200_100();
    let id = m.add(note(Anchor::TopLeft)).unwrap();
    m.tick(100);
    // exactly the appear duration: phase advances with zero carried over
    assert_eq!(phase_of(&m, id), AnimationPhase::Visible);
    assert_eq!(elapsed_of(&m, id), 0);
}

#[test]
fn split_ticks_equal_one_big_tick() {
    let mut split = manager_100_200_100();
    let mut whole = manager_100_200_100();
    let a = split.add(note(Anchor::TopRight)).unwrap();
    let b = whole.add(note(Anchor::TopRight)).unwrap();
    split.tick(70);
    split.tick(60);
    split.tick(113);
    whole.tick(243);
    assert_eq!(phase_of(&split, a), phase_of(&whole, b));
    assert_eq!(elapsed_of(&split, a), elapsed_of(&whole, b));
    assert_eq!(phase_of(&whole, b), AnimationPhase::Visible);
    assert_eq!(elapsed_of(&whole, b), 143);
}

#[test]
fn zero_appear_duration_starts_visible() {
    let mut m = Notifications::new().defaults(ManagerDefaults::new(0, 200, 100));
    let id = m.add(note(Anchor::BottomRight)).unwrap();
    assert_eq!(phase_of(&m, id), AnimationPhase::Visible);
    assert_eq!(elapsed_of(&m, id), 0);
}

#[test]
fn all_zero_durations_finish_immediately() {
    let mut m = Notifications::new().defaults(ManagerDefaults::new(0, 0, 0));
    let id = m.add(note(Anchor::BottomRight)).unwrap();
    assert_eq!(phase_of(&m, id), AnimationPhase::Finished);
    assert!(!m.has_notification());
    m.tick(0);
    assert!(m.get(id).is_none());
    assert_eq!(m.live_count(), 0);
}

#[test]
fn zero_duration_phase_is_skipped_in_passing() {
    // no hold phase: appearing runs straight into disappearing
    let mut m = Notifications::new().defaults(ManagerDefaults::new(100, 0, 100));
    let id = m.add(note(Anchor::TopLeft)).unwrap();
    m.tick(150);
    assert_eq!(phase_of(&m, id), AnimationPhase::Disappearing);
    assert_eq!(elapsed_of(&m, id), 50);
}

#[test]
fn has_notification_tracks_activity() {
    let mut m = manager_100_200_100();
    assert!(!m.has_notification());
    let id = m.add(note(Anchor::TopRight)).unwrap();
    assert!(m.has_notification());
    m.tick(399);
    assert!(m.has_notification());
    m.tick(1);
    assert!(m.get(id).is_none());
    assert!(!m.has_notification());
}

#[test]
fn tick_advances_every_anchor() {
    let mut m = manager_100_200_100();
    let a = m.add(note(Anchor::TopLeft)).unwrap();
    let b = m.add(note(Anchor::BottomRight)).unwrap();
    m.tick(120);
    assert_eq!(phase_of(&m, a), AnimationPhase::Visible);
    assert_eq!(phase_of(&m, b), AnimationPhase::Visible);
    assert_eq!(elapsed_of(&m, a), 20);
    assert_eq!(elapsed_of(&m, b), 20);
}

#[test]
fn unbounded_hold_keeps_notification_alive() {
    let mut m = Notifications::new().defaults(ManagerDefaults::new(0, u64::MAX, 0));
    let id = m.add(note(Anchor::TopRight)).unwrap();
    m.tick(1_000_000_000);
    assert_eq!(phase_of(&m, id), AnimationPhase::Visible);
    assert!(m.has_notification());
    assert!(m.remove(id));
    assert!(!m.has_notification());
}

#[test]
fn state_update_carries_excess_directly() {
    let timing = ManagerDefaults::new(100, 200, 100);
    let mut st = NotificationState::new(7, note(Anchor::TopLeft), &timing, 3);
    assert_eq!(st.id, 7);
    assert_eq!(st.created_at, 3);
    assert_eq!(st.current_phase, AnimationPhase::Appearing);
    st.update(250);
    assert_eq!(st.current_phase, AnimationPhase::Visible);
    assert_eq!(st.elapsed_in_phase, 150);
    st.update(60);
    assert_eq!(st.current_phase, AnimationPhase::Disappearing);
    assert_eq!(st.elapsed_in_phase, 10);
    st.update(90);
    assert_eq!(st.current_phase, AnimationPhase::Finished);
}

#[test]
fn states_advance_independently_within_one_tick() {
    let mut m = manager_100_200_100();
    let a = m.add(note(Anchor::TopRight)).unwrap();
    m.tick(150);
    let b = m.add(note(Anchor::TopRight)).unwrap();
    m.tick(260);
    // a: 50ms into Visible, +260 runs through Visible and Disappearing
    assert!(m.get(a).is_none());
    // b: fresh, +260 lands 160ms into Visible
    assert_eq!(phase_of(&m, b), AnimationPhase::Visible);
    assert_eq!(elapsed_of(&m, b), 160);
    assert_eq!(m.live_count(), 1);
}
