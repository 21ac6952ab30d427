use oxo_tui::components::log_viewer::{DedupMode, LogViewer, NormPatterns};
use oxo_tui::components::query_bar::{CompletionContext, QueryBar};
use oxo_tui::components::input::InputState;
use oxo_tui::log_entry::{LogEntry, Timestamp};
use oxo_tui::theme::Theme;

fn make_entry(line: &str, secs: i64) -> LogEntry {
    LogEntry {
        timestamp: Timestamp::from_unix(secs, 0).unwrap(),
        labels: Vec::new(),
        line: line.to_string(),
        raw: None,
    }
}

fn make_bar(text: &str) -> QueryBar {
    let mut bar = QueryBar::new(Theme::default(), Some(text.to_string()));
    bar.active = true;
    bar.cached_labels = vec![
        "app".to_string(),
        "env".to_string(),
        "host".to_string(),
        "level".to_string(),
    ];
    bar.cached_label_values.push((
        "app".to_string(),
        vec!["frontend".to_string(), "backend".to_string()],
    ));
    bar
}

#[test]
fn dedup_mode_cycles() {
    assert_eq!(DedupMode::Off.next(), DedupMode::Exact);
    assert_eq!(DedupMode::Exact.next(), DedupMode::Fuzzy);
    assert_eq!(DedupMode::Fuzzy.next(), DedupMode::Off);
}

#[test]
fn exact_dedup_groups_identical_lines() {
    let theme = Theme::default();
    let mut viewer = LogViewer::new(theme);
    let entries: Vec<LogEntry> = vec![
        make_entry("error: connection refused", 1000),
        make_entry("info: request handled", 1001),
        make_entry("error: connection refused", 1002),
        make_entry("info: request handled", 1003),
        make_entry("error: connection refused", 1004),
    ];

    viewer.update_entries(entries);
    viewer.set_dedup_mode(DedupMode::Exact);

    assert_eq!(viewer.dedup_groups.len(), 2);

    let error_group = viewer
        .dedup_groups
        .iter()
        .find(|g| viewer.entries[g.entry_idx].line == "error: connection refused")
        .unwrap();
    assert_eq!(error_group.count, 3);

    let info_group = viewer
        .dedup_groups
        .iter()
        .find(|g| viewer.entries[g.entry_idx].line == "info: request handled")
        .unwrap();
    assert_eq!(info_group.count, 2);
}

#[test]
fn fuzzy_dedup_groups_similar_lines() {
    let theme = Theme::default();
    let mut viewer = LogViewer::new(theme);
    let entries: Vec<LogEntry> = vec![
        make_entry("error: connection to 10.0.0.1:5432 refused", 1000),
        make_entry("error: connection to 10.0.0.2:5432 refused", 1001),
        make_entry("info: something else", 1002),
        make_entry("error: connection to 192.168.1.1:5432 refused", 1003),
    ];

    viewer.update_entries(entries);
    viewer.set_dedup_mode(DedupMode::Fuzzy);

    assert_eq!(viewer.dedup_groups.len(), 2);

    let error_group = viewer
        .dedup_groups
        .iter()
        .find(|g| g.count == 3)
        .expect("should have a group of 3 similar error lines");
    assert_eq!(error_group.first_timestamp.secs(), 1000);
    assert_eq!(error_group.last_timestamp.secs(), 1003);
}

#[test]
fn fuzzy_normalizer_patterns() {
    let p = NormPatterns::new().unwrap();

    assert_eq!(
        p.normalize("req 550e8400-e29b-41d4-a716-446655440000 failed"),
        "req <UUID> failed"
    );
    assert_eq!(p.normalize("connect to 192.168.1.100:3306"), "connect to <IP>");
    assert_eq!(
        p.normalize("at 2024-01-15T10:30:00Z something"),
        "at <TS> something"
    );
    assert_eq!(p.normalize("took 432ms to complete"), "took <DUR> to complete");
    assert_eq!(p.normalize("status 500 returned"), "status <N> returned");
    assert_eq!(
        p.normalize("trace_id=abcdef0123456789 span"),
        "trace_id=<HEX> span"
    );
}

#[test]
fn toggle_dedup_cycles_through_modes() {
    let theme = Theme::default();
    let mut viewer = LogViewer::new(theme);
    assert_eq!(viewer.dedup_mode, DedupMode::Off);

    viewer.toggle_dedup();
    assert_eq!(viewer.dedup_mode, DedupMode::Exact);

    viewer.toggle_dedup();
    assert_eq!(viewer.dedup_mode, DedupMode::Fuzzy);

    viewer.toggle_dedup();
    assert_eq!(viewer.dedup_mode, DedupMode::Off);
    assert!(viewer.dedup_groups.is_empty());
}

#[test]
fn context_label_name_after_brace() {
    let bar = make_bar("{");
    let ctx = bar.analyze_context();
    assert!(matches!(ctx, CompletionContext::LabelName { .. }));
    if let CompletionContext::LabelName { prefix, .. } = ctx {
        assert_eq!(prefix, "");
    }
}

#[test]
fn context_label_name_partial() {
    let bar = make_bar("{ap");
    let ctx = bar.analyze_context();
    assert!(matches!(ctx, CompletionContext::LabelName { .. }));
    if let CompletionContext::LabelName { prefix, .. } = ctx {
        assert_eq!(prefix, "ap");
    }
}

#[test]
fn context_label_name_after_comma() {
    let mut bar = make_bar("{app=\"frontend\", le");
    bar.input = InputState::new("{app=\"frontend\", le".to_string());
    let ctx = bar.analyze_context();
    assert!(matches!(ctx, CompletionContext::LabelName { .. }));
    if let CompletionContext::LabelName { prefix, .. } = ctx {
        assert_eq!(prefix, "le");
    }
}

#[test]
fn context_label_value() {
    let bar = make_bar("{app=\"front");
    let ctx = bar.analyze_context();
    assert!(matches!(ctx, CompletionContext::LabelValue { .. }));
    if let CompletionContext::LabelValue { label, prefix, .. } = ctx {
        assert_eq!(label, "app");
        assert_eq!(prefix, "front");
    }
}

#[test]
fn context_none_outside_braces() {
    let bar = make_bar("rate(");
    let ctx = bar.analyze_context();
    assert!(matches!(ctx, CompletionContext::Nothing));
}

#[test]
fn accept_label_name_suggestion() {
    let mut bar = make_bar("{ap");
    bar.update_autocomplete();
    assert!(bar.autocomplete.is_visible());
    bar.accept_suggestion();
    assert_eq!(bar.input.value(), "{app");
}

#[test]
fn accept_label_value_suggestion() {
    let mut bar = make_bar("{app=\"front");
    bar.update_autocomplete();
    assert!(bar.autocomplete.is_visible());
    bar.accept_suggestion();
    assert_eq!(bar.input.value(), "{app=\"frontend");
}
