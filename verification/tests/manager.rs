//! Manager-level behavior: identity accounting, idempotent removal, the
//! per-anchor cap with both overflow policies, and anchor grouping.

use ratatui_notifications::Anchor;
use ratatui_notifications::Level;
use ratatui_notifications::ManagerDefaults;
use ratatui_notifications::Notification;
use ratatui_notifications::NotificationBuilder;
use ratatui_notifications::NotificationError;
use ratatui_notifications::Notifications;
use ratatui_notifications::Overflow;

fn note(anchor: Anchor) -> Notification {
    Notification {
        content: String::from("hello"),
        level: Level::Info,
        anchor,
    }
}

#[test]
fn identities_are_monotonic_and_not_reused() {
    let mut m = Notifications::new();
    let a = m.add(note(Anchor::TopRight)).unwrap();
    let b = m.add(note(Anchor::TopRight)).unwrap();
    assert_eq!(a, 0);
    assert_eq!(b, 1);
    assert!(m.remove(a));
    let c = m.add(note(Anchor::BottomLeft)).unwrap();
    assert_eq!(c, 2);
}

#[test]
fn uncapped_adds_all_stay_live() {
    let mut m = Notifications::new();
    for _ in 0..5 {
        m.add(note(Anchor::TopLeft)).unwrap();
    }
    for _ in 0..3 {
        m.add(note(Anchor::BottomRight)).unwrap();
    }
    assert_eq!(m.live_count(), 8);
    assert_eq!(m.ids_at_anchor(Anchor::TopLeft).len(), 5);
    assert_eq!(m.ids_at_anchor(Anchor::BottomRight).len(), 3);
    assert_eq!(m.ids_at_anchor(Anchor::TopRight).len(), 0);
}

#[test]
fn live_count_tracks_adds_and_removes() {
    let mut m = Notifications::new();
    let a = m.add(note(Anchor::TopRight)).unwrap();
    let b = m.add(note(Anchor::TopRight)).unwrap();
    assert_eq!(m.live_count(), 2);
    assert!(m.remove(a));
    assert_eq!(m.live_count(), 1);
    assert!(m.remove(b));
    assert_eq!(m.live_count(), 0);
}

#[test]
fn remove_is_idempotent() {
    let mut m = Notifications::new();
    let id = m.add(note(Anchor::TopRight)).unwrap();
    assert!(m.remove(id));
    assert!(!m.remove(id));
    assert!(!m.remove(999));
}

#[test]
fn clear_empties_and_is_noop_when_empty() {
    let mut m = Notifications::new();
    m.clear();
    assert_eq!(m.live_count(), 0);
    m.add(note(Anchor::TopLeft)).unwrap();
    m.add(note(Anchor::TopRight)).unwrap();
    m.clear();
    assert_eq!(m.live_count(), 0);
    assert!(!m.has_notification());
    // identity allocation is unaffected by clear
    let id = m.add(note(Anchor::TopLeft)).unwrap();
    assert_eq!(id, 2);
}

#[test]
fn discard_oldest_evicts_smallest_stamp() {
    let mut m = Notifications::new()
        .max_concurrent(Some(2))
        .overflow(Overflow::DiscardOldest);
    let a = m.add(note(Anchor::TopRight)).unwrap();
    let b = m.add(note(Anchor::TopRight)).unwrap();
    let c = m.add(note(Anchor::TopRight)).unwrap();
    assert_eq!(m.live_count(), 2);
    assert!(m.get(a).is_none());
    assert!(m.get(b).is_some());
    assert!(m.get(c).is_some());
    assert_eq!(m.ids_at_anchor(Anchor::TopRight), vec![b, c]);
}

#[test]
fn discard_newest_evicts_latest_existing_and_new_one_survives() {
    let mut m = Notifications::new()
        .max_concurrent(Some(2))
        .overflow(Overflow::DiscardNewest);
    let a = m.add(note(Anchor::TopRight)).unwrap();
    let b = m.add(note(Anchor::TopRight)).unwrap();
    let c = m.add(note(Anchor::TopRight)).unwrap();
    assert_eq!(m.live_count(), 2);
    // the evicted one is b, the newest before the triggering add; c survives
    assert!(m.get(a).is_some());
    assert!(m.get(b).is_none());
    assert!(m.get(c).is_some());
    assert_eq!(m.ids_at_anchor(Anchor::TopRight), vec![a, c]);
}

#[test]
fn cap_is_per_anchor() {
    let mut m = Notifications::new().max_concurrent(Some(1));
    let a = m.add(note(Anchor::TopLeft)).unwrap();
    let b = m.add(note(Anchor::TopRight)).unwrap();
    assert_eq!(m.live_count(), 2);
    assert!(m.get(a).is_some());
    assert!(m.get(b).is_some());
    // a third anchor stays empty
    assert!(m.ids_at_anchor(Anchor::BottomLeft).is_empty());
}

#[test]
fn eviction_only_touches_the_target_anchor() {
    let mut m = Notifications::new().max_concurrent(Some(1));
    let a = m.add(note(Anchor::TopLeft)).unwrap();
    let b = m.add(note(Anchor::TopRight)).unwrap();
    let c = m.add(note(Anchor::TopRight)).unwrap();
    assert_eq!(m.live_count(), 2);
    assert!(m.get(a).is_some());
    assert!(m.get(b).is_none());
    assert!(m.get(c).is_some());
}

#[test]
fn cap_one_discard_oldest_end_to_end() {
    // cap=1, discard-oldest, one anchor: the second add evicts the first,
    // and a tick longer than the whole lifetime prunes the survivor.
    let mut m = Notifications::new()
        .max_concurrent(Some(1))
        .overflow(Overflow::DiscardOldest)
        .defaults(ManagerDefaults::new(100, 200, 100));
    let x = m.add(note(Anchor::TopRight)).unwrap();
    assert_eq!(x, 0);
    assert_eq!(m.ids_at_anchor(Anchor::TopRight), vec![0]);
    let y = m.add(note(Anchor::TopRight)).unwrap();
    assert_eq!(y, 1);
    assert_eq!(m.live_count(), 1);
    assert!(m.get(0).is_none());
    assert_eq!(m.ids_at_anchor(Anchor::TopRight), vec![1]);
    m.tick(401);
    assert_eq!(m.live_count(), 0);
    assert!(!m.has_notification());
}

#[test]
fn builder_rejects_empty_content() {
    let r = NotificationBuilder::new(String::new()).build();
    assert_eq!(r.unwrap_err(), NotificationError::EmptyContent);
}

#[test]
fn builder_carries_content_level_and_anchor() {
    let n = NotificationBuilder::new(String::from("done"))
        .level(Level::Success)
        .anchor(Anchor::BottomLeft)
        .build()
        .unwrap();
    assert_eq!(n.content, "done");
    assert_eq!(n.level, Level::Success);
    assert_eq!(n.anchor, Anchor::BottomLeft);
}

#[test]
fn builder_defaults_are_info_top_right() {
    let n = NotificationBuilder::new(String::from("hi")).build().unwrap();
    assert_eq!(n.level, Level::Info);
    assert_eq!(n.anchor, Anchor::TopRight);
}

#[test]
fn configuration_defaults() {
    assert_eq!(Overflow::default(), Overflow::DiscardOldest);
    let d = ManagerDefaults::default();
    assert_eq!(d.appear_ms, 250);
    assert_eq!(d.visible_ms, 3000);
    assert_eq!(d.dismiss_ms, 250);
}

#[test]
fn anchor_sequence_keeps_insertion_order_after_removal() {
    let mut m = Notifications::new();
    let a = m.add(note(Anchor::BottomLeft)).unwrap();
    let b = m.add(note(Anchor::BottomLeft)).unwrap();
    let c = m.add(note(Anchor::BottomLeft)).unwrap();
    assert_eq!(m.ids_at_anchor(Anchor::BottomLeft), vec![a, b, c]);
    assert!(m.remove(b));
    assert_eq!(m.ids_at_anchor(Anchor::BottomLeft), vec![a, c]);
}

#[test]
fn concurrency_cap_is_reported_to_the_renderer() {
    let m = Notifications::new();
    assert_eq!(m.concurrency_cap(), None);
    let m = Notifications::new().max_concurrent(Some(4));
    assert_eq!(m.concurrency_cap(), Some(4));
}

#[test]
fn default_manager_matches_new() {
    let mut m = Notifications::default();
    assert_eq!(m.live_count(), 0);
    assert_eq!(m.concurrency_cap(), None);
    let id = m.add(note(Anchor::TopRight)).unwrap();
    assert_eq!(id, 0);
}
