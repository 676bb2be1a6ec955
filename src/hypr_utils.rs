//! Which monitors a daemon tracks, and how a window's monitor relates to them.
use vstd::prelude::*;

use crate::types::{SortedDistinctVec, WindowEvent};

verus! {

/// Whether `name` is one of `names`.
pub open spec fn names_contain(names: Seq<String>, name: Seq<char>) -> bool {
    exists|i: int| 0 <= i < names.len() && #[trigger] names[i]@ == name
}

/// Whether a monitor is tracked: every monitor is when none is requested.
pub open spec fn tracks(requested: Seq<String>, monitor: Seq<char>) -> bool {
    requested.len() == 0 || names_contain(requested, monitor)
}

pub(crate) fn contains_name(names: &[String], name: &String) -> (r: bool)
    ensures
        r == names_contain(names@, name@),
{
    let mut i: usize = 0;
    while i < names.len()
        invariant
            i <= names@.len(),
            forall|j: int| 0 <= j < i ==> names@[j]@ != name@,
        decreases names@.len() - i,
    {
        if names[i] == *name {
            return true;
        }
        i += 1;
    }
    false
}

/// Whether `monitor` is tracked by a daemon that requested `requested_monitors`.
pub fn is_tracked_monitor(monitor: &String, requested_monitors: &[String]) -> (r: bool)
    ensures
        r == tracks(requested_monitors@, monitor@),
{
    requested_monitors.len() == 0 || contains_name(requested_monitors, monitor)
}

/// Whether a window lies on a tracked monitor; a window on no known monitor
/// counts only when every monitor is tracked.
pub fn window_on_requested_monitor(window_event: &WindowEvent, requested_monitors: &[String]) -> (r:
    bool)
    ensures
        r == (requested_monitors@.len() == 0 || (window_event.monitor matches Some(m)
            && names_contain(requested_monitors@, m@))),
{
    if requested_monitors.len() == 0 {
        return true;
    }
    match &window_event.monitor {
        Some(event_monitor) => contains_name(requested_monitors, event_monitor),
        None => false,
    }
}

/// How a window's monitor relates to the monitors a daemon tracks.
pub enum WindowMonitorRequest {
    /// The monitor is one of those requested.
    Matching { window_monitor: String },
    /// The monitor is unknown or not requested.
    NoMatch,
    /// No monitor was requested, so every monitor is tracked.
    AllRequested { window_monitor: String },
}

/// Classifies the monitor a window is on against the requested monitors.
pub fn window_monitor_request(
    monitor: Option<String>,
    requested_monitors: &SortedDistinctVec<String>,
) -> (r: WindowMonitorRequest)
    ensures
        match monitor {
            None => r is NoMatch,
            Some(m) => if requested_monitors@.len() == 0 {
                r == (WindowMonitorRequest::AllRequested { window_monitor: m })
            } else if names_contain(requested_monitors@, m@) {
                r == (WindowMonitorRequest::Matching { window_monitor: m })
            } else {
                r is NoMatch
            },
        },
{
    match monitor {
        Some(monitor) => {
            if requested_monitors.get().len() == 0 {
                return WindowMonitorRequest::AllRequested { window_monitor: monitor };
            }
            if contains_name(requested_monitors.get(), &monitor) {
                WindowMonitorRequest::Matching { window_monitor: monitor }
            } else {
                WindowMonitorRequest::NoMatch
            }
        },
        None => WindowMonitorRequest::NoMatch,
    }
}

} // verus!
