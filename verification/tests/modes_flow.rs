use oxo_tui::app_state::AppState;
use oxo_tui::components::detail_panel::DetailPanel;
use oxo_tui::components::filter_panel::FilterPanel;
use oxo_tui::components::log_viewer::LogViewer;
use oxo_tui::components::query_bar::QueryBar;
use oxo_tui::components::search_bar::SearchBar;
use oxo_tui::components::source_picker::{SourceEntry, SourcePicker};
use oxo_tui::keymap::InputMode;
use oxo_tui::layout::FocusTarget;
use oxo_tui::log_entry::{LogEntry, Timestamp};
use oxo_tui::modes::{
    enter_query_mode, enter_search_mode, exit_query_mode, exit_search_mode, line_to_copy, query_to_save,
    toggle_detail, toggle_filter_panel, toggle_source_picker,
};
use oxo_tui::theme::Theme;

fn state() -> AppState {
    AppState::new(Theme::default(), 100, None)
}

fn line(text: &str, secs: i64) -> LogEntry {
    LogEntry { timestamp: Timestamp::from_unix(secs, 0).unwrap(), labels: Vec::new(), line: text.to_string(), raw: None }
}

fn message(st: &AppState) -> Option<(String, bool, u8)> {
    st.notification.as_ref().map(|n| (n.message.clone(), n.is_error, n.ticks))
}

#[test]
fn query_and_search_modes() {
    let mut st = state();
    let mut bar = QueryBar::new(Theme::default(), None);
    enter_query_mode(&mut st, &mut bar);
    assert_eq!(st.input_mode, InputMode::Query);
    assert!(st.focus.is_focused(FocusTarget::QueryBar));
    assert!(bar.is_active());
    exit_query_mode(&mut st, &mut bar);
    assert_eq!(st.input_mode, InputMode::Normal);
    assert!(st.focus.is_focused(FocusTarget::LogViewer));
    assert!(!bar.is_active());
    let mut search = SearchBar::new(Theme::default());
    enter_search_mode(&mut st, &mut search);
    assert_eq!(st.input_mode, InputMode::Search);
    assert!(search.active);
    exit_search_mode(&mut st, &mut search);
    assert_eq!(st.input_mode, InputMode::Normal);
    assert!(!search.active);
}

#[test]
fn filter_panel_takes_and_returns_focus() {
    let mut st = state();
    let mut panel = FilterPanel::new(Theme::default());
    toggle_filter_panel(&mut st, &mut panel);
    assert!(panel.is_visible());
    assert_eq!(st.input_mode, InputMode::Filter);
    assert!(st.focus.is_focused(FocusTarget::FilterPanel));
    toggle_filter_panel(&mut st, &mut panel);
    assert!(!panel.is_visible());
    assert_eq!(st.input_mode, InputMode::Normal);
    assert!(st.focus.is_focused(FocusTarget::LogViewer));
}

#[test]
fn detail_and_copy_need_a_selection() {
    let mut st = state();
    let mut viewer = LogViewer::new(Theme::default());
    viewer.update_entries(vec![line("first", 1), line("second", 2)]);
    viewer.set_viewport_height(5);
    let mut detail = DetailPanel::new(Theme::default());
    toggle_detail(&mut st, &mut detail, &viewer);
    assert!(!detail.is_visible());
    assert_eq!(st.input_mode, InputMode::Normal);
    assert_eq!(line_to_copy(&mut st, &viewer), None);
    assert_eq!(message(&st), Some(("No line selected (Space to select)".to_string(), false, 12)));
    viewer.select_line(1);
    toggle_detail(&mut st, &mut detail, &viewer);
    assert!(detail.is_visible());
    assert_eq!(detail.entry.as_ref().map(|e| e.line.clone()), Some("second".to_string()));
    assert_eq!(st.input_mode, InputMode::Detail);
    assert_eq!(line_to_copy(&mut st, &viewer), Some("second".to_string()));
    toggle_detail(&mut st, &mut detail, &viewer);
    assert!(!detail.is_visible());
    assert_eq!(st.input_mode, InputMode::Normal);
}

#[test]
fn saving_needs_a_query_and_picking_needs_sources() {
    let mut st = state();
    let bar = QueryBar::new(Theme::default(), None);
    assert_eq!(query_to_save(&mut st, &bar), None);
    assert_eq!(message(&st), Some(("No query to save".to_string(), false, 12)));
    let bar = QueryBar::new(Theme::default(), Some("{app=\"x\"}".to_string()));
    assert_eq!(query_to_save(&mut st, &bar), Some("{app=\"x\"}".to_string()));
    let mut picker = SourcePicker::new(Theme::default());
    toggle_source_picker(&mut st, &mut picker);
    assert!(!picker.is_visible());
    assert_eq!(message(&st), Some(("No sources configured. Add [sources] to config.toml".to_string(), false, 16)));
    picker.set_sources(vec![SourceEntry { name: "a".to_string(), backend: "demo".to_string(), url: String::new() }]);
    toggle_source_picker(&mut st, &mut picker);
    assert!(picker.is_visible());
}
