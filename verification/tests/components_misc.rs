use oxo_tui::action::Action;
use oxo_tui::components::alert_panel::AlertPanel;
use oxo_tui::components::autocomplete::filter_items;
use oxo_tui::components::detail_panel::{can_colorize, colorize_json_line};
use oxo_tui::components::diff_view::{DiffRow, DiffView};
use oxo_tui::components::health_dashboard::{format_uptime, HealthDashboard};
use oxo_tui::components::filter_panel::FilterPanel;
use oxo_tui::components::histogram::Histogram;
use oxo_tui::components::incident_timeline::IncidentTimeline;
use oxo_tui::components::log_viewer::{highlight_matches, highlight_pieces, search_regex_for};
use oxo_tui::components::query_bar::QueryBar;
use oxo_tui::components::regex_playground::highlight_parts;
use oxo_tui::components::stats_panel::compute_stats;
use oxo_tui::components::time_picker::preset;
use oxo_tui::keymap::{Key, KeyPress, Modifiers};
use oxo_tui::log_entry::{LogEntry, Timestamp};
use oxo_tui::theme::{Color, Theme};

fn entry(line: &str, secs: i64, labels: &[(&str, &str)]) -> LogEntry {
    LogEntry {
        timestamp: Timestamp::from_unix(secs, 0).unwrap(),
        labels: labels.iter().map(|(k, v)| (k.to_string(), v.to_string())).collect(),
        line: line.to_string(),
        raw: None,
    }
}

fn press(code: Key) -> KeyPress {
    KeyPress::new(code, Modifiers::none())
}

#[test]
fn uptime_text() {
    assert_eq!(format_uptime(0), "0s");
    assert_eq!(format_uptime(59), "59s");
    assert_eq!(format_uptime(61), "1m 1s");
    assert_eq!(format_uptime(3600), "1h 0m 0s");
    assert_eq!(format_uptime(3725), "1h 2m 5s");
}

#[test]
fn suggestions_prefix_then_contains() {
    let items = vec![
        "backend".to_string(),
        "App".to_string(),
        "webapp".to_string(),
        "apple".to_string(),
    ];
    assert_eq!(
        filter_items(&items, "ap"),
        vec!["App".to_string(), "apple".to_string(), "webapp".to_string()]
    );
    assert_eq!(filter_items(&items, ""), items);
}

#[test]
fn json_lines_are_colored() {
    assert!(can_colorize("  \"key\": \"value\","));
    let spans = colorize_json_line("  \"key\": 42,", "> ");
    let texts: Vec<&str> = spans.iter().map(|s| s.text.as_str()).collect();
    let joined: String = texts.concat();
    assert_eq!(joined, "> " .to_string() + "  \"key\": 42,");
    assert!(spans.iter().any(|s| s.text == "\"key\"" && s.color == Some(Color::Cyan)));
    assert!(spans.iter().any(|s| s.text == "42" && s.color == Some(Color::Yellow)));
    let spans = colorize_json_line("true", "");
    assert_eq!(spans[0].color, Some(Color::Magenta));
}

#[test]
fn diff_rows_align_by_timestamp() {
    let mut d = DiffView::new(Theme::default());
    d.set_left_entries(vec![entry("a", 1, &[]), entry("b", 2, &[]), entry("c", 4, &[])]);
    d.set_right_entries(vec![entry("x", 2, &[]), entry("y", 3, &[])]);
    let rows = d.aligned_rows();
    assert_eq!(
        rows,
        vec![DiffRow::LeftOnly(0), DiffRow::Both(1, 0), DiffRow::RightOnly(1), DiffRow::LeftOnly(2)]
    );
    assert_eq!(d.row_count(), 4);
}

#[test]
fn alert_history_keeps_the_last_hundred() {
    let mut p = AlertPanel::new(Theme::default());
    for i in 0..105 {
        p.push_alert(Timestamp::from_unix(i, 0).unwrap(), format!("r{i}"), "m".to_string());
    }
    assert_eq!(p.alert_count(), 100);
    assert_eq!(p.alerts[0].rule_name, "r5");
    assert_eq!(p.alerts[99].rule_name, "r104");
}

#[test]
fn incidents_newest_first() {
    let mut t = IncidentTimeline::new(Theme::default());
    t.mark_incident_at("first".to_string(), "t1".to_string(), 100);
    t.add_anomaly("t2".to_string(), 300, "spike".to_string(), "api".to_string());
    t.mark_incident_at("second".to_string(), "t3".to_string(), 200);
    t.mark_incident_at("tie".to_string(), "t4".to_string(), 200);
    let titles: Vec<&str> = t.events.iter().map(|e| e.title.as_str()).collect();
    assert_eq!(titles, vec!["Anomaly Detected", "second", "tie", "first"]);
    assert_eq!(t.events[3].source, "user");
}

#[test]
fn histogram_counts_levels() {
    let mut h = Histogram::new(Theme::default());
    h.record_entry(Some("ERROR"));
    h.record_entry(Some("warning"));
    h.record_entry(Some("info"));
    h.record_entry(None);
    assert_eq!(h.total_rate(), 4);
    assert_eq!(h.current_bucket.errors, 1);
    assert_eq!(h.current_bucket.warnings, 1);
    h.tick();
    assert_eq!(h.total_rate(), 0);
    assert_eq!(h.buckets.len(), 60);
    assert_eq!(h.buckets[59].total, 4);
}

#[test]
fn statistics_of_entries() {
    let entries = vec![
        entry("a", 1, &[("level", "ERROR"), ("service", "api")]),
        entry("b", 2, &[("level", "info"), ("app", "web")]),
        entry("c", 3, &[("severity", "error"), ("service", "api")]),
        entry("d", 4, &[("zone", "eu")]),
    ];
    let s = compute_stats(&entries);
    assert_eq!(s.total, 4);
    assert_eq!(s.error_count, 2);
    assert_eq!(s.by_level[0], ("error".to_string(), 2));
    assert_eq!(s.top_sources[0], ("api".to_string(), 2));
    assert!(s.top_sources.contains(&("eu".to_string(), 1)));
    assert!(s.by_level.contains(&("unknown".to_string(), 1)));
}

#[test]
fn time_presets() {
    assert_eq!(preset(0).minutes, 5);
    assert_eq!(preset(3).minutes, 60);
    assert_eq!(preset(9).minutes, 10080);
}

#[test]
fn query_history_recall() {
    let mut bar = QueryBar::new(Theme::default(), None);
    bar.activate();
    for c in "{a=\"1\"}".chars() {
        bar.handle_key(press(Key::Char(c)));
    }
    assert_eq!(
        bar.handle_key(press(Key::Enter)),
        Some(Action::SubmitQuery("{a=\"1\"}".to_string()))
    );
    bar.activate();
    bar.history_prev();
    assert_eq!(bar.input.value(), "{a=\"1\"}");
    assert_eq!(bar.history.len(), 1);
}

#[test]
fn regex_highlight_pieces() {
    let parts = highlight_parts("say hello world", &vec![(4, 9)]);
    assert_eq!(
        parts,
        vec![("say ".to_string(), false), ("hello".to_string(), true), (" world".to_string(), false)]
    );
    // A range ending inside a character is widened to the whole character.
    let parts = highlight_parts("h\u{e9}llo", &vec![(1, 2)]);
    assert_eq!(parts[1], ("\u{e9}".to_string(), true));
    // A range past the end is cut to the line.
    let parts = highlight_parts("abc", &vec![(1, 99)]);
    assert_eq!(parts, vec![("a".to_string(), false), ("bc".to_string(), true)]);
    assert_eq!(highlight_parts("abc", &Vec::new()), vec![("abc".to_string(), false)]);
}

fn pieces(v: &[(&str, bool)]) -> Vec<(String, bool)> {
    v.iter().map(|(t, h)| (t.to_string(), *h)).collect()
}

#[test]
fn search_highlight_pieces() {
    let digits = search_regex_for("[0-9]+").unwrap();
    assert_eq!(
        highlight_matches("error at 10 and 20", &digits),
        pieces(&[("error at ", false), ("10", true), (" and ", false), ("20", true)])
    );
    let umlaut = search_regex_for("ö").unwrap();
    assert_eq!(
        highlight_matches("héllo wörld", &umlaut),
        pieces(&[("héllo w", false), ("ö", true), ("rld", false)])
    );
    let a = search_regex_for("a").unwrap();
    assert_eq!(highlight_matches("abc", &a), pieces(&[("a", true), ("bc", false)]));
    assert_eq!(highlight_matches("xyz", &a), pieces(&[("xyz", false)]));
    assert_eq!(highlight_matches("", &a), pieces(&[("", false)]));
    let joined: String = highlight_matches("a1b22c333", &digits).into_iter().map(|(t, _)| t).collect();
    assert_eq!(joined, "a1b22c333");
}

#[test]
fn search_highlight_from_byte_ranges() {
    assert_eq!(
        highlight_pieces("héllo", &vec![(1, 3)]),
        pieces(&[("h", false), ("é", true), ("llo", false)])
    );
    assert_eq!(highlight_pieces("abc", &vec![(0, 0)]), pieces(&[("", true), ("abc", false)]));
}

#[test]
fn health_colors_follow_connection_state() {
    let theme = Theme::default();
    let mut h = HealthDashboard::new(theme);
    h.connection_state = "Connected".to_string();
    assert_eq!(h.connection_color(), theme.info);
    h.connection_state = "RECONNECTING".to_string();
    assert_eq!(h.connection_color(), theme.warn);
    h.connection_state = "connecting".to_string();
    assert_eq!(h.connection_color(), theme.warn);
    h.connection_state = "Disconnected".to_string();
    assert_eq!(h.connection_color(), theme.error);
    h.connection_state = "error".to_string();
    assert_eq!(h.connection_color(), theme.error);
    h.connection_state = "Unknown".to_string();
    assert_eq!(h.connection_color(), theme.fg);
    assert_eq!(h.reconnect_color(), theme.info);
    h.reconnect_count = 2;
    assert_eq!(h.reconnect_color(), theme.warn);
}

#[test]
fn filters_toggle_on_and_off() {
    let mut p = FilterPanel::new(Theme::default());
    assert!(!p.is_filter_active("app", "web"));
    let a = p.toggle_filter("app".to_string(), "web".to_string());
    assert_eq!(a, Some(Action::SetFilter { label: "app".to_string(), value: "web".to_string() }));
    assert!(p.is_filter_active("app", "web"));
    assert!(!p.is_filter_active("app", "api"));
    p.toggle_filter("app".to_string(), "api".to_string());
    assert_eq!(p.active_filters().len(), 2);
    p.toggle_filter("app".to_string(), "web".to_string());
    assert!(!p.is_filter_active("app", "web"));
    assert!(p.is_filter_active("app", "api"));
    assert_eq!(p.active_filters().len(), 1);
}

#[test]
fn label_values_go_to_the_named_label() {
    let mut p = FilterPanel::new(Theme::default());
    p.set_labels(vec!["app".to_string(), "env".to_string()]);
    p.set_label_values("env", vec!["prod".to_string(), "dev".to_string()]);
    assert!(p.labels[0].values.is_empty());
    assert_eq!(p.labels[1].values, vec!["prod".to_string(), "dev".to_string()]);
    p.set_label_values("zone", vec!["x".to_string()]);
    assert!(p.labels[0].values.is_empty());
    assert_eq!(p.labels[1].values.len(), 2);
    assert_eq!(p.flat_items.len(), 2);
}
