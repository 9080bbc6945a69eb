//! Transient, animated on-screen notifications ("toasts") for a text-mode
//! interface.
//!
//! The library tracks each notification's lifetime, advances per-frame
//! animation timing, and enforces per-anchor display limits with a
//! configurable overflow policy. A host render loop drives a [`Notifications`]
//! manager with synchronous `add` / `tick` / `remove` / `clear` calls and
//! reads the live, phase-aware view back out for drawing.

pub mod manager;
pub mod state;
pub mod types;

pub use manager::Notifications;
pub use state::NotificationState;
pub use types::Anchor;
pub use types::AnimationPhase;
pub use types::Level;
pub use types::ManagerDefaults;
pub use types::Notification;
pub use types::NotificationBuilder;
pub use types::NotificationError;
pub use types::Overflow;
