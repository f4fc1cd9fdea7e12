//! The watch loop's decisions: which filesystem notifications re-trigger an
//! organization pass, and when the loop stops.
//!
//! The front-end subscribes to change notifications for the target directory
//! and hands each signal to `watch_step`. A newly created file or a change to
//! a file's data triggers exactly one fresh pass; every other notification is
//! ignored; a failure of the notification stream itself stops the loop. A
//! failed pass is only reported: the loop keeps watching afterwards.

use vstd::prelude::*;

verus! {

/// Kind of one filesystem notification, as the watch loop tells them apart.
#[derive(Clone, Copy, Debug, PartialEq, Eq)]
pub enum WatchEvent {
    /// A file was created in the watched directory.
    Created,
    /// A file's content was modified.
    DataModified,
    /// A file's metadata changed, with its content untouched.
    MetadataModified,
    /// A file was removed.
    Removed,
    /// Anything else the notification subsystem reports.
    Other,
}

/// One signal the watch loop receives: a notification, or a failure of the
/// notification stream itself.
#[derive(Clone, Copy, Debug, PartialEq, Eq)]
pub enum WatchSignal {
    Notification(WatchEvent),
    StreamError,
}

/// What the watch loop does with one signal.
#[derive(Clone, Copy, Debug, PartialEq, Eq)]
pub enum WatchAction {
    /// Run one fresh organization pass, then keep watching.
    Reorganize,
    /// Keep watching without a pass.
    Ignore,
    /// Stop the loop: the notification stream failed.
    Stop,
}

/// The notifications that re-trigger a pass: a file coming into being or a
/// file's content changing. Metadata-only changes and removals leave the
/// directory's organization as it is.
pub open spec fn spec_triggers_pass(e: WatchEvent) -> bool {
    e == WatchEvent::Created || e == WatchEvent::DataModified
}

/// Whether one notification re-triggers an organization pass.
pub fn should_reorganize(e: &WatchEvent) -> (r: bool)
    ensures
        r == spec_triggers_pass(*e),
{
    match *e {
        WatchEvent::Created => true,
        WatchEvent::DataModified => true,
        _ => false,
    }
}

/// The action the watch loop takes on one signal.
pub open spec fn spec_watch_step(s: WatchSignal) -> WatchAction {
    match s {
        WatchSignal::Notification(e) => if spec_triggers_pass(e) {
            WatchAction::Reorganize
        } else {
            WatchAction::Ignore
        },
        WatchSignal::StreamError => WatchAction::Stop,
    }
}

/// Decide the watch loop's next action: reorganize on a relevant
/// notification, ignore the rest, stop when the stream itself fails.
pub fn watch_step(s: &WatchSignal) -> (a: WatchAction)
    ensures
        a == spec_watch_step(*s),
{
    match *s {
        WatchSignal::Notification(e) => if should_reorganize(&e) {
            WatchAction::Reorganize
        } else {
            WatchAction::Ignore
        },
        WatchSignal::StreamError => WatchAction::Stop,
    }
}

} // verus!
