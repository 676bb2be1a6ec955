//! The command line, as plain data.
use vstd::prelude::*;

use crate::event_history::HistorySize;

verus! {

#[derive(Debug, Clone, PartialEq, Eq)]
pub struct FocusCommandArgs {
    pub requested_monitors: Vec<String>,
}

#[derive(Debug, Clone, PartialEq, Eq)]
pub enum FocusCommand {
    Next(FocusCommandArgs),
    Prev(FocusCommandArgs),
}

impl FocusCommand {
    pub open spec fn spec_requested_monitors(&self) -> &Vec<String> {
        match self {
            FocusCommand::Next(args) => &args.requested_monitors,
            FocusCommand::Prev(args) => &args.requested_monitors,
        }
    }

    /// The monitors a focus command is restricted to.
    #[verifier::when_used_as_spec(spec_requested_monitors)]
    pub fn requested_monitors(&self) -> (r: &Vec<String>)
        ensures
            r == self.spec_requested_monitors(),
    {
        match self {
            FocusCommand::Next(args) => &args.requested_monitors,
            FocusCommand::Prev(args) => &args.requested_monitors,
        }
    }
}

#[derive(Debug, Clone, PartialEq, Eq)]
pub struct DaemonArgs {
    /// Restrict focus tracking to specific monitors.
    pub requested_monitors: Vec<String>,
    /// Maximum number of focus events to retain in history.
    pub history_size: HistorySize,
}

#[derive(Debug, Clone, PartialEq, Eq)]
pub enum DaemonCommand {
    Focus(DaemonArgs),
}

#[derive(Debug, Clone, PartialEq, Eq)]
pub enum Command {
    Daemon { command: DaemonCommand },
    Focus { command: FocusCommand },
}

/// The parsed command line.
#[derive(Debug, Clone, PartialEq, Eq)]
pub struct Cli {
    pub command: Command,
}

} // verus!
