use oxo_tui::app_state::AppState;
use oxo_tui::components::autocomplete::AutocompletePopup;
use oxo_tui::components::filter_panel::ActiveFilter;
use oxo_tui::components::incident_timeline::{IncidentSeverity, IncidentTimeline};
use oxo_tui::components::source_picker::{SourceEntry, SourcePicker};
use oxo_tui::components::status_bar::{ConnectionState, StatusBar};
use oxo_tui::components::tab_bar::TabBar;
use oxo_tui::layout::{FocusManager, FocusTarget};
use oxo_tui::theme::Theme;

fn s(x: &str) -> String {
    x.to_string()
}

#[test]
fn filters_build_an_escaped_selector() {
    let mut st = AppState::new(Theme::default(), 100, None);
    st.rebuild_filter_query(&Vec::new());
    assert_eq!(st.pending_query, Some(s("{}")));
    let filters = vec![
        ActiveFilter { label: s("app"), value: s("web") },
        ActiveFilter { label: s("msg"), value: s("say \"hi\" \\o/") },
    ];
    st.rebuild_filter_query(&filters);
    assert_eq!(st.pending_query, Some(s("{app=\"web\", msg=\"say \\\"hi\\\" \\\\o/\"}")));
}

#[test]
fn incidents_are_kept_newest_first() {
    let mut t = IncidentTimeline::new(Theme::default());
    t.add_anomaly(s("t100"), 100, s("spike"), s("api"));
    t.mark_incident_at(s("outage"), s("t200"), 200);
    t.add_anomaly(s("t150"), 150, s("dip"), s("db"));
    let order: Vec<i64> = t.events.iter().map(|e| e.unix_ts).collect();
    assert_eq!(order, vec![200, 150, 100]);
    assert_eq!(t.events[0].severity, IncidentSeverity::Critical);
    assert_eq!(t.events[0].source, "user");
    assert_eq!(t.events[1].title, "Anomaly Detected");
    assert!(t.events[1].auto_detected);
    assert!(t.selected_event().is_none());
    t.selected = Some(1);
    assert_eq!(t.selected_event().map(|e| e.unix_ts), Some(150));
    t.mark_incident(s("now"));
    assert_eq!(t.events.len(), 4);
    assert!(t.events.iter().any(|e| e.title == "now" && e.severity == IncidentSeverity::Critical));
    t.clear();
    assert!(t.events.is_empty());
    assert!(t.selected_event().is_none());
}

#[test]
fn sources_are_chosen_by_name() {
    let mut p = SourcePicker::new(Theme::default());
    assert!(!p.has_sources());
    p.set_sources(vec![
        SourceEntry { name: s("loki"), backend: s("loki"), url: s("http://a") },
        SourceEntry { name: s("demo"), backend: s("demo"), url: s("") },
    ]);
    assert!(p.has_sources());
    p.set_active_by_name("demo");
    assert_eq!(p.active, 1);
    p.set_active_by_name("missing");
    assert_eq!(p.active, 1);
}

#[test]
fn status_bar_shows_connection_state() {
    let theme = Theme::default();
    let mut b = StatusBar::new(theme, s("demo"), 1000);
    assert_eq!(b.state_display(), ("\u{25cb}", "disconnected", theme.error));
    b.set_connection_state(ConnectionState::Connected);
    assert_eq!(b.state_display(), ("\u{25cf}", "connected", theme.info));
    b.set_connection_state(ConnectionState::Reconnecting);
    assert_eq!(b.state_display().1, "reconnecting");
    b.set_rate(42);
    b.set_buffer_size(7);
    assert_eq!(b.rate, 42);
    assert_eq!(b.buffer_size, 7);
}

#[test]
fn suggestions_filter_prefix_first() {
    let mut a = AutocompletePopup::new(Theme::default());
    a.set_items(vec![s("namespace"), s("app"), s("pod_name"), s("Name")]);
    assert_eq!(a.selected_item(), Some("namespace"));
    a.set_filter("NAM");
    assert_eq!(a.filtered, vec![s("namespace"), s("Name"), s("pod_name")]);
    assert_eq!(a.selected_item(), Some("namespace"));
    assert_eq!(a.scroll_offset(3), 0);
    a.set_filter("zzz");
    assert_eq!(a.selected_item(), None);
}

#[test]
fn tabs_activate_by_index() {
    let mut t = TabBar::new(Theme::default());
    t.add_tab(s("second"));
    t.set_active(0);
    assert_eq!(t.active_index(), 0);
    t.set_active(7);
    assert_eq!(t.active_index(), 0);
    t.set_active(1);
    assert_eq!(t.active_index(), 1);
}

#[test]
fn focus_is_reported() {
    let f = FocusManager::new();
    assert!(f.is_focused(FocusTarget::LogViewer));
    assert!(!f.is_focused(FocusTarget::QueryBar));
}

#[test]
fn theme_presets_and_styles() {
    let m = Theme::monokai();
    let l = Theme::light();
    assert!(m.bg != l.bg);
    let d = Theme::default();
    assert_eq!(d.dimmed().fg, Some(d.fg_dim));
    assert_eq!(d.search_highlight().fg, Some(d.search_match));
    assert!(d.search_highlight().bold);
    assert_eq!(d.border_unfocused().fg, Some(d.border_unfocused));
    assert_eq!(d.status_bar().bg, Some(d.status_bg));
}

#[test]
fn severity_marks() {
    assert_eq!(IncidentSeverity::Info.icon(), "i");
    assert_eq!(IncidentSeverity::Warning.icon(), "!");
    assert_eq!(IncidentSeverity::Critical.icon(), "X");
    assert_eq!(IncidentSeverity::Warning.label(), "WARNING");
    assert_eq!(IncidentSeverity::Critical.color(), oxo_tui::theme::Color::Red);
}

#[test]
fn analytics_text_is_cut_with_three_dots() {
    use_truncate();
}

fn use_truncate() {
    assert_eq!(oxo_tui::components::analytics_panel::truncate("short", 10), "short");
    assert_eq!(oxo_tui::components::analytics_panel::truncate("abcdefghij", 6), "abc...");
    assert_eq!(oxo_tui::components::analytics_panel::truncate("abcdefghij", 6).chars().count(), 6);
    assert_eq!(oxo_tui::components::analytics_panel::truncate("abcdef", 2), "...");
}
