//! Bounded, cursor-navigable focus history.

pub mod cli;
pub mod event_history;
pub mod history_laws;
pub mod hypr_utils;
pub mod socket;
pub mod types;
