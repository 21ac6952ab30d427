use oxo_tui::action::Action;
use oxo_tui::app_state::{
    build_filter_query, clicked_line, key_route, mouse_action, AppState, KeyRoute, MouseKind,
    Overlays,
};
use oxo_tui::components::filter_panel::ActiveFilter;
use oxo_tui::components::log_viewer::LogViewer;
use oxo_tui::plugin::{default_manifest, plugin_source, Plugin, PluginKind, PluginRegistry, PluginSource};
use oxo_tui::components::trace_waterfall::{extract_duration, TraceWaterfall};
use oxo_tui::keymap::{InputMode, Key, KeyPress, Modifiers, PressKind};
use oxo_tui::layout::FocusTarget;
use oxo_tui::log_entry::{LogEntry, Timestamp};
use oxo_tui::theme::Theme;

fn entry(line: &str, secs: i64, labels: &[(&str, &str)]) -> LogEntry {
    LogEntry {
        timestamp: Timestamp::from_unix(secs, 0).unwrap(),
        labels: labels.iter().map(|(k, v)| (k.to_string(), v.to_string())).collect(),
        line: line.to_string(),
        raw: None,
    }
}

fn key(code: Key) -> KeyPress {
    KeyPress { code, modifiers: Modifiers::none(), kind: PressKind::Press }
}

fn no_overlays() -> Overlays {
    Overlays {
        nl_query: false,
        regex_playground: false,
        live_dashboard: false,
        incident_timeline: false,
        saved_views: false,
        diff_view: false,
        trace_waterfall: false,
        health_dashboard: false,
        alert_panel: false,
        analytics_panel: false,
        source_picker: false,
        stats_panel: false,
        time_picker: false,
        detail_panel: false,
        search_bar: false,
    }
}

#[test]
fn durations_in_lines() {
    let d = extract_duration("request took 250ms").unwrap();
    assert_eq!(d.number, "250");
    assert!(!d.seconds);
    let d = extract_duration("Latency: 1.5 s overall").unwrap();
    assert_eq!(d.number, "1.5");
    assert!(d.seconds);
    assert!(extract_duration("no timing here").is_none());
}

#[test]
fn traces_grouped_ordered_and_filtered() {
    let entries = vec![
        entry("b step two took 5ms", 20, &[("service", "api")]),
        entry("a start", 30, &[("app", "web")]),
        entry("b step one", 10, &[("level", "info")]),
        entry("lonely", 40, &[]),
        entry("a end", 35, &[("job", "worker")]),
        entry("no trace", 50, &[]),
    ];
    let ids = vec![
        Some("bbb".to_string()),
        Some("aaa".to_string()),
        Some("bbb".to_string()),
        Some("ccc".to_string()),
        Some("aaa".to_string()),
        None,
    ];
    let mut w = TraceWaterfall::new(Theme::default());
    w.build_from_entries(&entries, &ids);
    assert_eq!(w.traces.len(), 2);
    // "aaa" started at 30, "bbb" at 10: the most recent first.
    assert_eq!(w.traces[0].trace_id, "aaa");
    assert_eq!(w.traces[1].trace_id, "bbb");
    assert_eq!(w.traces[1].spans[0].line, "b step one");
    assert_eq!(w.traces[1].spans[0].service, "unknown");
    assert_eq!(w.traces[1].spans[0].level.as_deref(), Some("info"));
    assert_eq!(w.traces[1].spans[1].service, "api");
    assert_eq!(w.traces[1].spans[1].duration.as_ref().unwrap().number, "5");
    assert_eq!(w.traces[1].total_duration_ms, 10_000);
    assert_eq!(w.traces[0].spans[0].service, "web");
    assert_eq!(w.traces[0].spans[1].service, "worker");
    assert_eq!(w.traces[0].total_duration_ms, 5_000);
}

#[test]
fn trace_keys_cycle_and_scroll() {
    let entries = vec![
        entry("x", 1, &[]),
        entry("x", 2, &[]),
        entry("y", 3, &[]),
        entry("y", 4, &[]),
    ];
    let ids = vec![
        Some("t1".to_string()),
        Some("t1".to_string()),
        Some("t2".to_string()),
        Some("t2".to_string()),
    ];
    let mut w = TraceWaterfall::new(Theme::default());
    assert_eq!(w.handle_key(key(Key::Tab)), None);
    w.toggle();
    w.build_from_entries(&entries, &ids);
    assert_eq!(w.handle_key(key(Key::Tab)), Some(Action::Noop));
    assert_eq!(w.selected_trace, 1);
    w.handle_key(key(Key::Tab));
    assert_eq!(w.selected_trace, 0);
    w.handle_key(key(Key::BackTab));
    assert_eq!(w.selected_trace, 1);
    w.handle_key(key(Key::Char('j')));
    w.handle_key(key(Key::Down));
    assert_eq!(w.scroll, 2);
    w.handle_key(key(Key::Up));
    assert_eq!(w.scroll, 1);
    w.handle_key(key(Key::Esc));
    assert!(!w.is_visible());
}

#[test]
fn buffers_are_capped() {
    let mut s = AppState::new(Theme::default(), 2, None);
    s.push_entry(0, entry("one", 1, &[]));
    s.push_entry(0, entry("two", 2, &[]));
    s.push_entry(0, entry("three", 3, &[]));
    let lines: Vec<&str> = s.tabs_state[0].log_buffer.iter().map(|e| e.line.as_str()).collect();
    assert_eq!(lines, vec!["two", "three"]);
}

#[test]
fn tabs_open_switch_and_close() {
    let mut s = AppState::new(Theme::default(), 10, Some("{app=\"x\"}".to_string()));
    assert_eq!(s.tabs_state[0].query, "{app=\"x\"}");
    assert_eq!(s.new_tab(), Some(1));
    assert_eq!(s.active_tab, 1);
    assert_eq!(s.pending_new_tab_query, Some((1, "{}".to_string())));
    assert!(s.switch_tab(0));
    assert_eq!(s.base_query, "{app=\"x\"}");
    assert!(!s.switch_tab(5));
    assert!(s.close_tab());
    assert_eq!(s.tabs_state.len(), 1);
    assert_eq!(s.active_tab, 0);
    assert_eq!(s.tabs_state[0].query, "{}");
    assert!(!s.close_tab());
    assert_eq!(s.notification.as_ref().unwrap().message, "Cannot close the last tab");
}

#[test]
fn at_most_nine_tabs() {
    let mut s = AppState::new(Theme::default(), 10, None);
    for i in 1..9 {
        assert_eq!(s.new_tab(), Some(i));
    }
    assert_eq!(s.new_tab(), None);
    assert_eq!(s.notification.as_ref().unwrap().message, "Maximum number of tabs reached");
}

#[test]
fn submitting_a_query_queues_a_restart() {
    let mut s = AppState::new(Theme::default(), 10, None);
    s.input_mode = InputMode::Query;
    s.submit_query("{job=\"api\"}".to_string());
    assert_eq!(s.input_mode, InputMode::Normal);
    assert_eq!(s.base_query, "{job=\"api\"}");
    assert_eq!(s.pending_query.as_deref(), Some("{job=\"api\"}"));
    assert_eq!(s.tabs_state[0].query, "{job=\"api\"}");
}

#[test]
fn filter_query_escapes_values() {
    let filters = vec![
        ActiveFilter { label: "app".to_string(), value: "web".to_string() },
        ActiveFilter { label: "msg".to_string(), value: "a\"b\\c".to_string() },
    ];
    assert_eq!(
        build_filter_query("", &filters),
        "{app=\"web\", msg=\"a\\\"b\\\\c\"}"
    );
    assert_eq!(build_filter_query("", &Vec::new()), "{}");
    assert_eq!(build_filter_query("{job=\"x\"}", &Vec::new()), "{job=\"x\"}");
}

#[test]
fn notifications_count_down() {
    let mut s = AppState::new(Theme::default(), 10, None);
    s.notify("hello".to_string(), false, 1);
    s.tick();
    assert_eq!(s.notification.as_ref().unwrap().ticks, 0);
    s.tick();
    assert!(s.notification.is_none());
}

#[test]
fn alerts_and_mute() {
    let mut s = AppState::new(Theme::default(), 10, None);
    s.alert_fired("disk");
    assert_eq!(s.notification.as_ref().unwrap().message, "Alert: disk");
    assert!(s.notification.as_ref().unwrap().is_error);
    assert!(s.toggle_alert_mute());
    assert_eq!(s.notification.as_ref().unwrap().message, "Alerts muted");
    s.alert_fired("cpu");
    assert_eq!(s.notification.as_ref().unwrap().message, "Alerts muted");
    s.context_changed(3);
    assert_eq!(s.notification.as_ref().unwrap().message, "Context view: 3 lines");
    s.set_time_range(15, "Last 15 minutes");
    assert_eq!(s.time_range_minutes, 15);
    assert_eq!(s.notification.as_ref().unwrap().message, "Time range: Last 15 minutes");
}

#[test]
fn session_snapshot() {
    let mut s = AppState::new(Theme::default(), 10, None);
    s.new_tab();
    let filters = vec![ActiveFilter { label: "app".to_string(), value: "web".to_string() }];
    let session = s.session(&filters);
    assert_eq!(session.tab_queries, vec!["{}".to_string(), "{}".to_string()]);
    assert_eq!(session.active_tab, 1);
    assert_eq!(session.time_range_minutes, 60);
    assert_eq!(session.filters, vec![("app".to_string(), "web".to_string())]);
}

#[test]
fn keys_go_to_the_topmost_overlay() {
    let mut o = no_overlays();
    assert_eq!(key_route(&o, FocusTarget::QueryBar), KeyRoute::Focused(FocusTarget::QueryBar));
    o.search_bar = true;
    assert_eq!(key_route(&o, FocusTarget::LogViewer), KeyRoute::SearchBar);
    o.detail_panel = true;
    o.alert_panel = true;
    assert_eq!(key_route(&o, FocusTarget::LogViewer), KeyRoute::AlertPanel);
    o.nl_query = true;
    assert_eq!(key_route(&o, FocusTarget::LogViewer), KeyRoute::NlQuery);
}

#[test]
fn mouse_events_and_clicks() {
    assert_eq!(mouse_action(MouseKind::ScrollUp, 3, 4), Action::MouseScrollUp(3, 4));
    assert_eq!(mouse_action(MouseKind::LeftDown, 3, 4), Action::MouseClick(3, 4));
    assert_eq!(mouse_action(MouseKind::Other, 3, 4), Action::Noop);
    assert_eq!(clicked_line(5, 10, 6), Some(0));
    assert_eq!(clicked_line(5, 10, 13), Some(7));
    assert_eq!(clicked_line(5, 10, 14), None);
    assert_eq!(clicked_line(5, 10, 5), None);
}

#[test]
fn plugin_registry_replaces_by_name() {
    let mut r = PluginRegistry::new();
    let m = default_manifest("redact", "/p/redact.wasm");
    assert_eq!(m.version, "0.0.0");
    assert_eq!(m.description, "Plugin loaded from /p/redact.wasm");
    r.insert(Plugin::new(m.clone(), vec![1]));
    let mut f = m.clone();
    f.name = "drop".to_string();
    f.kind = PluginKind::Filter;
    r.insert(Plugin::new(f, vec![2]));
    r.insert(Plugin::new(m, vec![3]));
    assert_eq!(r.len(), 2);
    assert_eq!(r.get("redact").unwrap().wasm_bytes, vec![3]);
    assert_eq!(r.plugin_names(), vec!["redact".to_string(), "drop".to_string()]);
    assert_eq!(r.runnable(PluginKind::Transform), vec![0]);
    r.set_enabled("redact", false);
    assert!(r.runnable(PluginKind::Transform).is_empty());
    assert_eq!(r.runnable(PluginKind::Filter), vec![1]);
    assert_eq!(plugin_source(true, true, false, false), PluginSource::Directory);
    assert_eq!(plugin_source(false, false, true, false), PluginSource::BareFile);
    assert_eq!(plugin_source(false, false, false, true), PluginSource::Nothing);
}

#[test]
fn search_moves_and_bookmarks_toggle_back() {
    let mut v = LogViewer::new(Theme::default());
    v.update_entries(vec![
        entry("error one", 1, &[]),
        entry("fine", 2, &[]),
        entry("error two", 3, &[]),
    ]);
    v.set_search("error".to_string());
    assert_eq!(v.search_match_count(), 2);
    let start = v.search_match_position();
    v.search_next();
    assert_ne!(v.search_match_position(), start);
    v.search_prev();
    assert_eq!(v.search_match_position(), start);
    v.set_viewport_height(10);
    v.select_line(0);
    assert_eq!(v.selected_line, Some(0));
    v.toggle_bookmark();
    assert_eq!(v.bookmarks.len(), 1);
    v.toggle_bookmark();
    assert!(v.bookmarks.is_empty());
}

fn names(v: &[&str]) -> Vec<String> {
    v.iter().map(|s| s.to_string()).collect()
}

fn column_entry(line: &str, secs: i64) -> LogEntry {
    LogEntry {
        timestamp: Timestamp::from_unix(secs, 0).unwrap(),
        labels: Vec::new(),
        line: line.to_string(),
        raw: None,
    }
}

#[test]
fn columns_put_timestamp_and_level_first() {
    let mut viewer = LogViewer::new(Theme::default());
    viewer.discover_columns(vec![names(&["msg", "level", "timestamp"]), names(&["b", "a", "msg"]), Vec::new()]);
    assert_eq!(viewer.discovered_columns, names(&["timestamp", "level", "a", "b", "msg"]));
    viewer.discover_columns(vec![names(&["zeta", "level"]), names(&["Alpha", "beta"])]);
    assert_eq!(viewer.discovered_columns, names(&["level", "Alpha", "beta", "zeta"]));
    viewer.discover_columns(Vec::new());
    assert!(viewer.discovered_columns.is_empty());
}

#[test]
fn column_mode_toggles_and_discovers() {
    let mut viewer = LogViewer::new(Theme::default());
    viewer.toggle_column_mode(vec![names(&["b", "a"])]);
    assert!(viewer.column_mode);
    assert_eq!(viewer.discovered_columns, names(&["a", "b"]));
    viewer.refresh_columns(vec![names(&["c"])]);
    assert_eq!(viewer.discovered_columns, names(&["c"]));
    viewer.toggle_column_mode(vec![names(&["x"])]);
    assert!(!viewer.column_mode);
    assert_eq!(viewer.discovered_columns, names(&["c"]));
    viewer.refresh_columns(vec![names(&["y"])]);
    assert_eq!(viewer.discovered_columns, names(&["c"]));
}

#[test]
fn sorting_by_column_is_stable_and_reverses() {
    let mut viewer = LogViewer::new(Theme::default());
    viewer.update_entries(vec![
        column_entry("one", 1),
        column_entry("two", 2),
        column_entry("three", 3),
        column_entry("four", 4),
    ]);
    viewer.discover_columns(vec![names(&["user"])]);
    viewer.selected_line = Some(0);
    viewer.sort_by_column(0, names(&["bob", "alice", "bob", "carol"]));
    let lines: Vec<&str> = viewer.entries.iter().map(|e| e.line.as_str()).collect();
    assert_eq!(lines, vec!["two", "one", "three", "four"]);
    assert_eq!(viewer.sort_column, Some((0, true)));
    assert_eq!(viewer.selected_line, None);
    viewer.sort_by_column(0, names(&["alice", "bob", "bob", "carol"]));
    let lines: Vec<&str> = viewer.entries.iter().map(|e| e.line.as_str()).collect();
    assert_eq!(lines, vec!["four", "one", "three", "two"]);
    assert_eq!(viewer.sort_column, Some((0, false)));
    viewer.sort_by_column(5, names(&["", "", "", ""]));
    assert_eq!(viewer.sort_column, Some((0, false)));
    let lines: Vec<&str> = viewer.entries.iter().map(|e| e.line.as_str()).collect();
    assert_eq!(lines, vec!["four", "one", "three", "two"]);
}

#[test]
fn plugin_outcomes_fold_over_entries() {
    use_plugin_outcomes();
}

fn use_plugin_outcomes() {
    let es = vec![entry("a", 1, &[]), entry("b", 2, &[]), entry("c", 3, &[])];
    let kept = oxo_tui::plugin::filtered_entries(es, Some(vec![2, 0]));
    let lines: Vec<&str> = kept.iter().map(|e| e.line.as_str()).collect();
    assert_eq!(lines, vec!["c", "a"]);
    let all = oxo_tui::plugin::filtered_entries(kept, None);
    assert_eq!(all.len(), 2);
    let t = oxo_tui::plugin::transformed_entries(all, Some(vec![entry("z", 9, &[])]));
    assert_eq!(t.len(), 1);
    let t = oxo_tui::plugin::transformed_entries(t, None);
    assert_eq!(t[0].line, "z");
}

#[test]
fn entries_keep_labels_as_a_map_does() {
    let e = LogEntry::new(
        Timestamp::from_unix(1, 0).unwrap(),
        vec![("zone".to_string(), "a".to_string()), ("app".to_string(), "x".to_string()), ("zone".to_string(), "b".to_string())],
        "line".to_string(),
        None,
    );
    assert_eq!(e.labels, vec![("app".to_string(), "x".to_string()), ("zone".to_string(), "b".to_string())]);
    assert_eq!(e.label("zone").map(|s| s.as_str()), Some("b"));
}

#[test]
fn tab_actions_keep_the_tabs_consistent() {
    let mut st = AppState::new(Theme::default(), 10, None);
    assert!(st.apply_tab_action(&Action::NewTab));
    assert_eq!(st.tabs_state.len(), 2);
    assert_eq!(st.active_tab, 1);
    assert!(st.apply_tab_action(&Action::SwitchTab(0)));
    assert!(!st.apply_tab_action(&Action::SwitchTab(5)));
    assert_eq!(st.active_tab, 0);
    assert!(st.apply_tab_action(&Action::CloseTab));
    assert!(!st.apply_tab_action(&Action::CloseTab));
    assert_eq!(st.notification.as_ref().map(|n| n.message.clone()), Some("Cannot close the last tab".to_string()));
    assert!(!st.apply_tab_action(&Action::Tick));
    assert_eq!(st.tabs_state.len(), 1);
}
