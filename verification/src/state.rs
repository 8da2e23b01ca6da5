//! The state that the application shares between its commands.

use vstd::prelude::*;
use crate::config::AppConfig;
use crate::reminder::Reminder;

verus! {

/// The reminders held in memory, the identifier that the next one gets, and
/// the settings.
pub struct AppState {
    pub reminders: Vec<Reminder>,
    pub next_id: u32,
    pub config: AppConfig,
}

impl AppState {
    /// The state at start: no reminders, identifiers from 1, default settings.
    pub fn new() -> (r: Self)
        ensures
            r.reminders@.len() == 0,
            r.next_id == 1,
            r.config.debug_mode,
    {
        AppState { reminders: Vec::new(), next_id: 1, config: AppConfig::default() }
    }
}

} // verus!
