//! The dashboard: its state, what it shows, and its keys.

use vstd::prelude::*;

pub mod app;
pub mod ui;

verus! {

/// Time between two drawings of the dashboard, in milliseconds.
pub const TICK_MS: u64 = 250;

/// The keys of the dashboard.
pub struct TuiRunner;

impl TuiRunner {
    /// Whether pressing the character `key`, with or without Control, leaves the
    /// dashboard: `q` in any case, `c` only with Control.
    pub fn should_quit(key: char, control: bool) -> (yes: bool)
        ensures
            yes == (key == 'q' || (key == 'c' && control)),
    {
        key == 'q' || (key == 'c' && control)
    }
}

} // verus!
