//! Mode and focus changes that involve a component beside the application
//! state: entering and leaving the query and search bars, showing the
//! filter panel and the detail view, and the requests that need a selected
//! line, a saved query or a configured source.

use vstd::prelude::*;
use crate::app_state::{AppState, note};
use crate::components::detail_panel::DetailPanel;
use crate::components::filter_panel::FilterPanel;
use crate::components::log_viewer::LogViewer;
use crate::components::query_bar::{QueryBar, closed_popup};
use crate::components::search_bar::SearchBar;
use crate::components::source_picker::SourcePicker;
use crate::keymap::InputMode;
use crate::layout::FocusTarget;
use crate::log_entry::LogEntry;

verus! {

/// The entry under the viewer's selection, if any.
pub open spec fn selected_entry_of(v: LogViewer) -> Option<LogEntry> {
    match v.selected_line {
        None => None,
        Some(sel) => {
            let idx = v.spec_window().0 + sel;
            if idx < v.entries@.len() {
                Some(v.entries@[idx])
            } else {
                None
            }
        },
    }
}

/// Start typing a query: query mode, the query bar active and focused.
pub fn enter_query_mode(state: &mut AppState, bar: &mut QueryBar)
    ensures
        *final(bar) == (QueryBar { active: true, ..*old(bar) }),
        final(state).focus.spec_current() == FocusTarget::QueryBar,
        final(state).focus.spec_filter_visible() == old(state).focus.spec_filter_visible(),
        *final(state) == (AppState { input_mode: InputMode::Query, focus: final(state).focus, ..*old(state) }),
{
    state.input_mode = InputMode::Query;
    bar.activate();
    state.focus.set(FocusTarget::QueryBar);
}

/// Stop typing a query: normal mode, the query bar inactive (its history
/// left and dropdown closed) and the log viewer focused.
pub fn exit_query_mode(state: &mut AppState, bar: &mut QueryBar)
    requires
        old(bar).wf(),
    ensures
        final(bar).wf(),
        *final(bar) == (QueryBar {
            active: false,
            history_index: None,
            autocomplete: closed_popup(old(bar).autocomplete),
            ..*old(bar)
        }),
        final(state).focus.spec_current() == FocusTarget::LogViewer,
        final(state).focus.spec_filter_visible() == old(state).focus.spec_filter_visible(),
        *final(state) == (AppState { input_mode: InputMode::Normal, focus: final(state).focus, ..*old(state) }),
{
    state.input_mode = InputMode::Normal;
    bar.deactivate();
    state.focus.set(FocusTarget::LogViewer);
}

/// Start typing a search term: search mode, the search bar active with an
/// empty term.
pub fn enter_search_mode(state: &mut AppState, bar: &mut SearchBar)
    ensures
        final(bar).active,
        final(bar).input.spec_value().len() == 0,
        final(bar).theme == old(bar).theme,
        *final(state) == (AppState { input_mode: InputMode::Search, ..*old(state) }),
{
    state.input_mode = InputMode::Search;
    bar.activate();
}

/// Stop typing a search term: normal mode, the search bar inactive.
pub fn exit_search_mode(state: &mut AppState, bar: &mut SearchBar)
    ensures
        *final(bar) == (SearchBar { active: false, ..*old(bar) }),
        *final(state) == (AppState { input_mode: InputMode::Normal, ..*old(state) }),
{
    state.input_mode = InputMode::Normal;
    bar.deactivate();
}

/// Show or hide the filter panel. Shown, it takes the focus in filter
/// mode; hidden, the log viewer takes the focus in normal mode.
pub fn toggle_filter_panel(state: &mut AppState, panel: &mut FilterPanel)
    ensures
        *final(panel) == (FilterPanel { visible: !old(panel).visible, ..*old(panel) }),
        final(state).focus.spec_filter_visible() == final(panel).visible,
        final(state).focus.spec_current() == (if final(panel).visible {
            FocusTarget::FilterPanel
        } else {
            FocusTarget::LogViewer
        }),
        *final(state) == (AppState {
            input_mode: if final(panel).visible { InputMode::Filter } else { InputMode::Normal },
            focus: final(state).focus,
            ..*old(state)
        }),
{
    panel.toggle();
    let visible = panel.is_visible();
    state.focus.set_filter_visible(visible);
    if visible {
        state.input_mode = InputMode::Filter;
        state.focus.set(FocusTarget::FilterPanel);
    } else {
        state.input_mode = InputMode::Normal;
        state.focus.set(FocusTarget::LogViewer);
    }
}

/// Show the selected entry in the detail view, or hide the view; detail
/// mode while it is shown, normal mode otherwise. Without a selected entry
/// a hidden view stays hidden.
pub fn toggle_detail(state: &mut AppState, detail: &mut DetailPanel, viewer: &LogViewer)
    ensures
        final(detail).visible == (!old(detail).visible && selected_entry_of(*viewer) is Some),
        final(detail).scroll == (if old(detail).visible || selected_entry_of(*viewer) is Some { 0 } else { old(detail).scroll }),
        final(detail).theme == old(detail).theme,
        final(detail).visible ==> (final(detail).entry matches Some(e) && selected_entry_of(*viewer) matches Some(s)
            && e.timestamp == s.timestamp && e.labels@ == s.labels@ && e.line == s.line && e.raw == s.raw),
        old(detail).visible ==> final(detail).entry is None,
        *final(state) == (AppState {
            input_mode: if final(detail).visible { InputMode::Detail } else { InputMode::Normal },
            ..*old(state)
        }),
{
    let entry = match viewer.selected_entry() {
        Some(e) => Some(e.duplicate()),
        None => None,
    };
    detail.toggle(entry);
    state.input_mode = if detail.is_visible() {
        InputMode::Detail
    } else {
        InputMode::Normal
    };
}

/// The line to copy: the selected entry's; without a selection, a notice
/// says how to select one.
pub fn line_to_copy(state: &mut AppState, viewer: &LogViewer) -> (r: Option<String>)
    ensures
        match selected_entry_of(*viewer) {
            Some(e) => r matches Some(t) && t == e.line && *final(state) == *old(state),
            None => r is None && *final(state) == (AppState { notification: final(state).notification, ..*old(state) })
                && note(final(state).notification) == Some(("No line selected (Space to select)"@, false, 12u8)),
        },
{
    match viewer.selected_entry() {
        Some(e) => Some(e.line.clone()),
        None => {
            state.notify(String::from_str("No line selected (Space to select)"), false, 12);
            None
        },
    }
}

/// The query to save: the query bar's current query; when there is none,
/// a notice says so.
pub fn query_to_save(state: &mut AppState, bar: &QueryBar) -> (r: Option<String>)
    ensures
        bar.current_query@.len() > 0 ==> (r matches Some(q) && q@ == bar.current_query@ && *final(state) == *old(state)),
        bar.current_query@.len() == 0 ==> r is None && *final(state) == (AppState { notification: final(state).notification, ..*old(state) })
            && note(final(state).notification) == Some(("No query to save"@, false, 12u8)),
{
    let q = bar.current_query();
    if q.unicode_len() == 0 {
        state.notify(String::from_str("No query to save"), false, 12);
        None
    } else {
        Some(q.to_string())
    }
}

/// Show or hide the source picker; with no source configured, a notice
/// says how to configure one instead.
pub fn toggle_source_picker(state: &mut AppState, picker: &mut SourcePicker)
    ensures
        old(picker).sources@.len() > 0 ==> *final(state) == *old(state) && *final(picker) == (SourcePicker {
            visible: !old(picker).visible,
            cursor: if !old(picker).visible { old(picker).active } else { old(picker).cursor },
            ..*old(picker)
        }),
        old(picker).sources@.len() == 0 ==> *final(picker) == *old(picker) && *final(state) == (AppState {
            notification: final(state).notification,
            ..*old(state)
        }) && note(final(state).notification) == Some(("No sources configured. Add [sources] to config.toml"@, false, 16u8)),
{
    if picker.has_sources() {
        picker.toggle();
    } else {
        state.notify(String::from_str("No sources configured. Add [sources] to config.toml"), false, 16);
    }
}

} // verus!
