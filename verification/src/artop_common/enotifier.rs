//! Notification event kinds of the observer model.
use vstd::prelude::*;

verus! {

/// Notification event kinds.
#[derive(Debug, Clone, Copy, PartialEq, Eq)]
pub enum NotificationKind {
    /// An element was added.
    Add,
    /// An element was removed.
    Remove,
    /// A value was set.
    SetValue,
    /// An element was moved.
    Move,
}

} // verus!
