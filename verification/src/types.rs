//! Value types shared by the notification manager: screen anchors, severity
//! levels, animation phases, the overflow policy, per-phase timing defaults,
//! and the immutable notification value itself.

use vstd::prelude::*;

verus! {

/// A fixed screen position that notifications are grouped and stacked by.
#[derive(Clone, Copy, Debug, PartialEq, Eq, Structural)]
pub enum Anchor {
    TopLeft,
    TopRight,
    BottomLeft,
    BottomRight,
}

/// Severity level of a notification; purely informational for the renderer.
#[derive(Clone, Copy, Debug, PartialEq, Eq, Structural)]
pub enum Level {
    Info,
    Success,
    Warning,
    Error,
}

/// What to evict when the per-anchor concurrency cap is already reached:
/// the notification with the smallest creation stamp, or the one with the
/// largest.
#[derive(Clone, Copy, Debug, PartialEq, Eq, Structural)]
pub enum Overflow {
    DiscardOldest,
    DiscardNewest,
}

impl Default for Overflow {
    /// The default policy discards the oldest notification at the anchor.
    fn default() -> (r: Self)
        ensures
            r == Overflow::DiscardOldest,
    {
        Overflow::DiscardOldest
    }
}

/// One stage of a notification's timed visual lifecycle. `Finished` is
/// terminal: a state that reaches it is pruned by the next `tick` and is
/// never rendered.
#[derive(Clone, Copy, Debug, PartialEq, Eq, Structural)]
pub enum AnimationPhase {
    Appearing,
    Visible,
    Disappearing,
    Finished,
}

/// Construction-time validation failure for a notification value. The
/// manager itself never produces this: its own operations are total.
#[derive(Clone, Copy, Debug, PartialEq, Eq, Structural)]
pub enum NotificationError {
    EmptyContent,
}

/// Per-phase animation durations, in milliseconds, fixed at manager
/// construction and copied into every new animation state.
///
/// A hold duration of `u64::MAX` milliseconds is effectively unbounded and
/// is the supported way to keep a notification on screen until it is
/// removed explicitly.
#[derive(Clone, Copy, Debug, PartialEq, Eq, Structural)]
pub struct ManagerDefaults {
    /// Duration of the `Appearing` phase, in milliseconds.
    pub appear_ms: u64,
    /// Duration of the `Visible` (hold) phase, in milliseconds.
    pub visible_ms: u64,
    /// Duration of the `Disappearing` phase, in milliseconds.
    pub dismiss_ms: u64,
}

/// The standard animation timings used when none are configured.
pub open spec fn spec_standard_defaults() -> ManagerDefaults {
    ManagerDefaults { appear_ms: 250, visible_ms: 3000, dismiss_ms: 250 }
}

impl ManagerDefaults {
    /// Builds a timing configuration from explicit per-phase durations.
    pub fn new(appear_ms: u64, visible_ms: u64, dismiss_ms: u64) -> (r: Self)
        ensures
            r == (ManagerDefaults { appear_ms, visible_ms, dismiss_ms }),
    {
        ManagerDefaults { appear_ms, visible_ms, dismiss_ms }
    }
}

impl Default for ManagerDefaults {
    /// The standard animation timings: a quarter second in and out around a
    /// three-second hold.
    fn default() -> (r: Self)
        ensures
            r == spec_standard_defaults(),
    {
        ManagerDefaults { appear_ms: 250, visible_ms: 3000, dismiss_ms: 250 }
    }
}

/// An immutable description of one toast: its textual content, severity
/// level, and target anchor. The manager performs no validation of it and
/// owns it once added.
#[derive(Debug)]
pub struct Notification {
    /// The text shown inside the toast.
    pub content: String,
    /// Severity level, used by the renderer for styling only.
    pub level: Level,
    /// The screen position this notification is grouped under.
    pub anchor: Anchor,
}

/// Chainable construction of a [`Notification`], with the one validation
/// the system performs: content must not be empty.
#[derive(Debug)]
pub struct NotificationBuilder {
    content: String,
    level: Level,
    anchor: Anchor,
}

impl NotificationBuilder {
    /// Starts a builder with the given content, `Info` level, and the
    /// top-right anchor.
    pub fn new(content: String) -> (r: Self)
        ensures
            r.spec_content() == content@,
            r.spec_level() == Level::Info,
            r.spec_anchor() == Anchor::TopRight,
    {
        NotificationBuilder { content, level: Level::Info, anchor: Anchor::TopRight }
    }

    /// The content this builder will put into the notification.
    pub closed spec fn spec_content(self) -> Seq<char> {
        self.content@
    }

    /// The level this builder will put into the notification.
    pub closed spec fn spec_level(self) -> Level {
        self.level
    }

    /// The anchor this builder will put into the notification.
    pub closed spec fn spec_anchor(self) -> Anchor {
        self.anchor
    }

    /// Sets the severity level.
    pub fn level(self, level: Level) -> (r: Self)
        ensures
            r.spec_content() == self.spec_content(),
            r.spec_level() == level,
            r.spec_anchor() == self.spec_anchor(),
    {
        NotificationBuilder { level, ..self }
    }

    /// Sets the target anchor.
    pub fn anchor(self, anchor: Anchor) -> (r: Self)
        ensures
            r.spec_content() == self.spec_content(),
            r.spec_level() == self.spec_level(),
            r.spec_anchor() == anchor,
    {
        NotificationBuilder { anchor, ..self }
    }

    /// Finishes the notification. Fails with [`NotificationError::EmptyContent`]
    /// exactly when the content is empty; every non-empty content succeeds.
    pub fn build(self) -> (r: Result<Notification, NotificationError>)
        ensures
            self.spec_content().len() == 0 ==> r == Err::<Notification, NotificationError>(
                NotificationError::EmptyContent,
            ),
            self.spec_content().len() > 0 ==> (match r {
                Ok(n) => n.content@ == self.spec_content() && n.level == self.spec_level()
                    && n.anchor == self.spec_anchor(),
                Err(_) => false,
            }),
    {
        if self.content.as_str().is_empty() {
            Err(NotificationError::EmptyContent)
        } else {
            Ok(Notification { content: self.content, level: self.level, anchor: self.anchor })
        }
    }
}

} // verus!
