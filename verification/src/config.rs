//! Application settings.

use vstd::prelude::*;
use crate::text::same_text;

verus! {

/// The settings of the application.
#[derive(Debug, Clone, Copy)]
pub struct AppConfig {
    pub debug_mode: bool,
}

impl Default for AppConfig {
    /// Debug mode is on until it is switched off.
    fn default() -> (r: Self)
        ensures
            r.debug_mode,
    {
        AppConfig { debug_mode: true }
    }
}

/// The name of the logging level that goes with debug mode on or off.
pub open spec fn level_name(debug_mode: bool) -> Seq<char> {
    if debug_mode {
        "debug"@
    } else {
        "info"@
    }
}

impl AppConfig {
    /// The name of the logging level that these settings ask for.
    pub fn log_level(&self) -> (r: &'static str)
        ensures
            r@ == level_name(self.debug_mode),
    {
        if self.debug_mode {
            "debug"
        } else {
            "info"
        }
    }

    /// The settings that a logging level stands for: debug mode is on for
    /// the level `debug` and off for any other.
    pub fn from_log_level(level: &str) -> (r: Self)
        ensures
            r.debug_mode == (level@ == "debug"@),
    {
        AppConfig { debug_mode: same_text(level, "debug") }
    }
}

} // verus!
