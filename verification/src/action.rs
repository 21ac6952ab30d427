//! The actions that components and key bindings produce and the main loop
//! consumes: the TUI's message bus.

use vstd::prelude::*;

verus! {

/// An action that can be dispatched through the TUI.
#[derive(Debug, Clone, PartialEq, Eq)]
pub enum Action {
    /// Quit the application.
    Quit,
    /// The terminal was resized to the given dimensions.
    Resize { width: u16, height: u16 },
    /// Periodic tick (used for rate calculations).
    Tick,
    /// Cycle focus to the next component.
    FocusNext,
    /// Cycle focus to the previous component.
    FocusPrev,
    /// Switch to the query input bar.
    EnterQueryMode,
    /// Exit query mode and return to normal log browsing.
    ExitQueryMode,
    /// Toggle the help overlay.
    ToggleHelp,
    /// Toggle the filter side panel.
    ToggleFilterPanel,
    /// Toggle the time range picker overlay.
    ToggleTimePicker,
    /// Set the active time range to the given duration in minutes.
    SetTimeRange(u64),
    /// Enter search mode (open search input).
    EnterSearchMode,
    /// Exit search mode.
    ExitSearchMode,
    /// Set the active search term and highlight matches.
    SearchSubmit(String),
    /// Jump to the next search match.
    SearchNext,
    /// Jump to the previous search match.
    SearchPrev,
    /// Clear the search term and highlights.
    SearchClear,
    /// Submit a query string to the backend.
    SubmitQuery(String),
    /// Toggle a label filter on/off and rebuild the query.
    SetFilter { label: String, value: String },
    /// Remove all active label filters.
    ClearFilters,
    /// Scroll the log viewer up by N lines.
    ScrollUp(usize),
    /// Scroll the log viewer down by N lines.
    ScrollDown(usize),
    /// Jump to the top of the log buffer.
    ScrollToTop,
    /// Jump to the bottom (resume tail mode).
    ScrollToBottom,
    /// Page up in the log viewer.
    PageUp,
    /// Page down in the log viewer.
    PageDown,
    /// Toggle line wrapping in the log viewer.
    ToggleLineWrap,
    /// Toggle timestamp display in the log viewer.
    ToggleTimestamps,
    /// Copy the currently selected log line to clipboard.
    CopyLine,
    /// Select a log line (by index in visible area).
    SelectLine(usize),
    /// Toggle the detail panel for the selected log line.
    ToggleDetail,
    /// Mouse scroll up.
    MouseScrollUp(u16, u16),
    /// Mouse scroll down.
    MouseScrollDown(u16, u16),
    /// Mouse click at a position.
    MouseClick(u16, u16),
    /// Show a notification message in the status bar.
    Notify(String),
    /// Show an error notification.
    NotifyError(String),
    /// Export visible logs to a file (JSON format).
    ExportLogs,
    /// Export visible logs as CSV.
    ExportCsv,
    /// Export visible logs as NDJSON.
    ExportNdjson,
    /// Toggle the log statistics overlay.
    ToggleStats,
    /// Request values for a label from the backend.
    LoadLabelValues(String),
    /// Save the current query with a name (empty = generated).
    SaveQuery(String),
    /// Toggle the source picker overlay.
    ToggleSourcePicker,
    /// Switch to the source with the given name.
    SwitchSource(String),
    /// Open a new tab with the default query.
    NewTab,
    /// Close the currently active tab.
    CloseTab,
    /// Switch to the tab at the given 0-based index.
    SwitchTab(usize),
    /// Toggle expand/collapse of a multi-line log group.
    ToggleExpand,
    /// Cycle the search context lines setting (0, 3, 5, 10).
    ToggleContext,
    /// An alert rule fired.
    AlertFired { rule_name: String, message: String },
    /// Toggle the alert history overlay.
    ToggleAlertPanel,
    /// Mute/unmute all alerts.
    ToggleAlertMute,
    /// Toggle the analytics dashboard overlay.
    ToggleAnalytics,
    /// Toggle column/table view mode.
    ToggleColumnMode,
    /// Sort the column view by the column at the given index.
    SortColumn(usize),
    /// Cycle dedup mode: off, exact, fuzzy.
    ToggleDedup,
    /// Toggle a bookmark on the selected log entry.
    ToggleBookmark,
    /// Jump to the next bookmarked entry.
    NextBookmark,
    /// Jump to the previous bookmarked entry.
    PrevBookmark,
    /// Clear all bookmarks.
    ClearBookmarks,
    /// Toggle the health dashboard overlay.
    ToggleHealthDashboard,
    /// Request available label names for autocomplete.
    AutocompleteLabels,
    /// Request values for the given label name for autocomplete.
    AutocompleteLabelValues(String),
    /// Toggle the trace waterfall overlay.
    ToggleTraceWaterfall,
    /// Toggle the regex playground overlay.
    ToggleRegexPlayground,
    /// Toggle the live diff mode overlay.
    ToggleDiffMode,
    /// Set or update the left-hand diff query.
    DiffQueryLeft(String),
    /// Set or update the right-hand diff query.
    DiffQueryRight(String),
    /// Toggle the saved views overlay.
    ToggleSavedViews,
    /// Toggle the live metrics dashboard overlay.
    ToggleLiveDashboard,
    /// Toggle the incident timeline overlay.
    ToggleIncidentTimeline,
    /// Mark current time as an incident boundary.
    MarkIncident(String),
    /// Toggle the natural language query overlay.
    ToggleNlQuery,
    /// Do nothing.
    Noop,
}

} // verus!
