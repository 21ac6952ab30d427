//! Session snapshot: the state restored on the next launch. Reading and
//! writing the session file is the application's job.

use vstd::prelude::*;

verus! {

/// Snapshot of the TUI session state.
#[derive(Debug)]
pub struct Session {
    /// Query strings for each open tab.
    pub tab_queries: Vec<String>,
    /// Index of the currently active tab.
    pub active_tab: usize,
    /// Active time range in minutes.
    pub time_range_minutes: u64,
    /// Name of the currently selected source (if any).
    pub active_source: Option<String>,
    /// Active label filters as `(label, value)` pairs.
    pub filters: Vec<(String, String)>,
}

} // verus!
