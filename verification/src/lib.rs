//! Dynamic-tagging workspace model for a tiling window manager.
//!
//! Each monitor carries 32 tags; any non-empty subset of tags may be visible
//! at once, and windows move between tags without being destroyed. The
//! state machines here turn user commands and window-manager events into
//! differential updates ([`state::Changes`]) that a thin I/O layer replays
//! as window-manager primitives.

use vstd::prelude::*;

pub mod bits;
pub mod dispatch;
pub mod events;
pub mod monitor;
pub mod state;

verus! {

/// A domain error; every fallible operation reports exactly one of these.
#[derive(Clone, Copy, Debug, PartialEq, Eq, Structural)]
pub enum Error {
    /// The window address is already tracked.
    AlreadyTracked,
    /// The window address is not tracked anywhere.
    UnknownWindow,
    /// An operation would leave no tag visible.
    MaskEmpty,
    /// No window was given and no active window exists.
    NoActiveWindow,
    /// The window already lives on the destination tag.
    SameTag,
    /// A tag number outside `1..=32`.
    TagOutOfRange,
    /// No monitor with the given name exists.
    UnknownMonitor,
    /// A monitor index outside the monitor list.
    MonitorOutOfRange,
    /// Removing the last remaining monitor is refused.
    LastMonitor,
    /// A monitor with the given name is already registered.
    AlreadyRegistered,
}

} // verus!
