use oxo_tui::action::Action;
use oxo_tui::components::analytics_panel::AnalyticsPanel;
use oxo_tui::components::detail_panel::DetailPanel;
use oxo_tui::components::input::InputState;
use oxo_tui::components::log_viewer::{entry_level, level_tag_text, DedupMode, LineGroup, LogViewer, RowKind};
use oxo_tui::components::query_bar::{analyze, CompletionContext, QueryBar};
use oxo_tui::components::regex_playground::RegexPlayground;
use oxo_tui::components::sparkline::SparklineChart;
use oxo_tui::components::time_picker::{preset, TimePicker};
use oxo_tui::keymap::{Key, KeyPress, Modifiers};
use oxo_tui::log_entry::{LogEntry, Timestamp};
use oxo_tui::theme::Theme;

fn entry(line: &str, secs: i64) -> LogEntry {
    LogEntry {
        timestamp: Timestamp::from_unix(secs, 0).unwrap(),
        labels: Vec::new(),
        line: line.to_string(),
        raw: None,
    }
}

fn key(code: Key) -> KeyPress {
    KeyPress::new(code, Modifiers::none())
}

fn numbered(n: usize, matches: &[usize]) -> Vec<LogEntry> {
    (0..n)
        .map(|i| {
            let text = if matches.contains(&i) { format!("boom {i}") } else { format!("ok {i}") };
            entry(&text, i as i64)
        })
        .collect()
}

#[test]
fn context_rows_show_runs_around_matches() {
    let mut v = LogViewer::new(Theme::default());
    v.update_entries(numbered(20, &[2, 15]));
    v.set_viewport_height(20);
    v.set_search("boom".to_string());
    assert_eq!(v.search_match_count(), 2);
    assert_eq!(v.search_term(), Some("boom"));
    v.toggle_context();
    assert_eq!(v.context_lines(), 3);
    let rows = v.display_rows(20);
    let kinds: Vec<RowKind> = rows.iter().map(|r| r.kind).collect();
    let idx: Vec<usize> = rows.iter().filter(|r| r.kind != RowKind::Separator).map(|r| r.entry_idx).collect();
    assert_eq!(idx, vec![0, 1, 2, 3, 4, 5, 12, 13, 14, 15, 16, 17, 18]);
    use_kinds(&kinds);
    assert!(rows.iter().any(|r| r.entry_idx == 2 && r.selected));
    v.toggle_context();
    v.toggle_context();
    v.toggle_context();
    assert_eq!(v.context_lines(), 0);
    assert_eq!(v.display_rows(20).len(), 20);
    v.clear_search();
    assert_eq!(v.search_match_count(), 0);
    assert_eq!(v.search_term(), None);
}

fn use_kinds(kinds: &[RowKind]) {
    let expected = [
        RowKind::Context,
        RowKind::Context,
        RowKind::Entry,
        RowKind::Context,
        RowKind::Context,
        RowKind::Context,
        RowKind::Separator,
        RowKind::Context,
        RowKind::Context,
        RowKind::Context,
        RowKind::Entry,
        RowKind::Context,
        RowKind::Context,
        RowKind::Context,
    ];
    assert_eq!(kinds, &expected[..]);
}

#[test]
fn invalid_search_terms_are_taken_literally() {
    let mut v = LogViewer::new(Theme::default());
    v.update_entries(vec![entry("a (b", 1), entry("ab", 2), entry("A (B", 3)]);
    assert!(v.try_set_search("(b".to_string()));
    assert_eq!(v.search_match_count(), 2);
    assert_eq!(v.search_matches, vec![0, 2]);
    assert!(v.try_set_search(String::new()));
    assert_eq!(v.search_match_count(), 0);
}

#[test]
fn bookmarks_wrap_around() {
    let mut v = LogViewer::new(Theme::default());
    v.update_entries(numbered(12, &[]));
    v.set_viewport_height(12);
    v.select_line(3);
    v.toggle_bookmark();
    v.select_line(10);
    v.toggle_bookmark();
    assert_eq!(v.bookmarks, vec![3, 10]);
    v.select_line(5);
    v.next_bookmark();
    assert_eq!(v.selected_line, Some(10));
    v.prev_bookmark();
    assert_eq!(v.selected_line, Some(3));
    v.prev_bookmark();
    assert_eq!(v.selected_line, Some(10));
    v.next_bookmark();
    assert_eq!(v.selected_line, Some(3));
    assert_eq!(v.selected_entry().map(|e| e.line.clone()), Some("ok 3".to_string()));
    v.clear_bookmarks();
    assert!(v.bookmarks.is_empty());
}

#[test]
fn collapsed_groups_hide_their_continuation_lines() {
    let mut v = LogViewer::new(Theme::default());
    v.update_entries(numbered(5, &[]));
    v.set_viewport_height(5);
    v.set_line_groups(vec![
        LineGroup { continuation_count: 2, collapsed: true },
        LineGroup { continuation_count: 0, collapsed: true },
    ]);
    assert_eq!(v.entry_index_to_group(2), Some(0));
    assert_eq!(v.entry_index_to_group(3), Some(1));
    assert_eq!(v.entry_index_to_group(4), None);
    let rows = v.display_rows(5);
    let shown: Vec<(usize, usize)> = rows.iter().map(|r| (r.entry_idx, r.hidden_lines)).collect();
    assert_eq!(shown, vec![(0, 2), (3, 0), (4, 0)]);
    v.select_line(0);
    v.toggle_expand();
    let rows = v.display_rows(5);
    let kinds: Vec<RowKind> = rows.iter().map(|r| r.kind).collect();
    assert_eq!(
        kinds,
        vec![RowKind::Entry, RowKind::Continuation, RowKind::Continuation, RowKind::Entry, RowKind::Entry]
    );
}

#[test]
fn scrolling_leaves_and_returns_to_tail() {
    let mut v = LogViewer::new(Theme::default());
    v.update_entries(numbered(30, &[]));
    v.set_viewport_height(10);
    assert!(v.is_tail_mode());
    assert_eq!(v.visible_range(), (20, 30));
    v.handle_action(&Action::ScrollUp(5));
    assert!(!v.is_tail_mode());
    assert_eq!(v.visible_range(), (15, 25));
    v.handle_action(&Action::ScrollDown(5));
    assert_eq!(v.visible_range(), (20, 30));
}

#[test]
fn completion_contexts() {
    match analyze("{app=\"fr", 8) {
        CompletionContext::LabelValue { label, prefix, .. } => {
            assert_eq!(label, "app");
            assert_eq!(prefix, "fr");
        }
        other => panic!("unexpected {other:?}"),
    }
    match analyze("{le", 3) {
        CompletionContext::LabelName { prefix, token_start } => {
            assert_eq!(prefix, "le");
            assert_eq!(token_start, 1);
        }
        other => panic!("unexpected {other:?}"),
    }
    assert!(matches!(analyze("rate(", 5), CompletionContext::Nothing));
}

#[test]
fn query_submission_and_history() {
    let mut bar = QueryBar::new(Theme::default(), Some("{a=\"1\"}".to_string()));
    assert_eq!(bar.current_query(), "{a=\"1\"}");
    bar.activate();
    assert!(bar.is_active());
    bar.input = InputState::new("{b=\"2\"}".to_string());
    assert_eq!(bar.submit(), Some(Action::SubmitQuery("{b=\"2\"}".to_string())));
    assert_eq!(bar.current_query(), "{b=\"2\"}");
    bar.input = InputState::new("{c=\"3\"}".to_string());
    bar.submit();
    bar.input = InputState::new(String::new());
    assert_eq!(bar.submit(), None);
    bar.history_prev();
    assert_eq!(bar.input.value(), "{c=\"3\"}");
    bar.history_prev();
    assert_eq!(bar.input.value(), "{b=\"2\"}");
    bar.history_next();
    assert_eq!(bar.input.value(), "{c=\"3\"}");
    bar.history_next();
    assert_eq!(bar.input.value(), "{c=\"3\"}");
    bar.deactivate();
    assert!(!bar.is_active());
}

#[test]
fn playground_finds_matches_and_reports_errors() {
    let mut p = RegexPlayground::new(Theme::default());
    p.set_lines(vec!["user=alice id=7".to_string(), "nothing".to_string(), "user=bob id=12".to_string()]);
    p.input = InputState::new("user=(?P<name>\\w+)".to_string());
    p.evaluate();
    assert!(p.is_valid);
    assert_eq!(p.matches.len(), 2);
    assert_eq!(p.matches[0].entry_idx, 0);
    assert_eq!(p.matches[0].match_ranges, vec![(0, 10), (5, 10)]);
    assert_eq!(p.matches[0].captures, vec![("name".to_string(), "alice".to_string())]);
    assert_eq!(p.matches[1].entry_idx, 2);
    p.input = InputState::new("(".to_string());
    p.evaluate();
    assert!(!p.is_valid);
    assert!(!p.error_msg.is_empty());
    assert!(p.matches.is_empty());
    p.input = InputState::new(String::new());
    p.evaluate();
    assert!(p.is_valid);
    assert!(p.matches.is_empty());
}

#[test]
fn analytics_tabs_wrap() {
    let mut a = AnalyticsPanel::new(Theme::default());
    assert_eq!(a.active_tab, 0);
    a.prev_tab();
    assert_eq!(a.active_tab, 4);
    a.next_tab();
    assert_eq!(a.active_tab, 0);
    a.go_to_tab(3);
    assert_eq!(a.active_tab, 3);
    a.go_to_tab(9);
    assert_eq!(a.active_tab, 3);
}

#[test]
fn sparkline_rates() {
    let mut s = SparklineChart::new(Theme::default());
    s.record_entries(4);
    s.record_entries(3);
    assert_eq!(s.current_rate(), 0);
    s.tick();
    assert_eq!(s.current_rate(), 7);
    s.tick();
    assert_eq!(s.current_rate(), 0);
}

#[test]
fn time_picker_moves_and_confirms() {
    let mut t = TimePicker::new(Theme::default());
    assert_eq!(t.selected_minutes(), 60);
    assert_eq!(t.selected_label(), preset(3).label);
    t.toggle();
    assert_eq!(t.handle_key(key(Key::Down)), Some(Action::Noop));
    let a = t.handle_key(key(Key::Enter));
    assert_eq!(a, Some(Action::SetTimeRange(preset(4).minutes)));
    assert_eq!(t.selected_minutes(), preset(4).minutes);
    assert!(!t.is_visible());
    assert_eq!(t.handle_key(key(Key::Down)), None);
}

#[test]
fn detail_panel_scrolls_within_bounds() {
    let mut d = DetailPanel::new(Theme::default());
    d.toggle(Some(entry("x", 1)));
    assert!(d.is_visible());
    d.scroll_up();
    assert_eq!(d.scroll, 0);
    d.scroll_down();
    d.scroll_down();
    assert_eq!(d.scroll, 2);
    d.scroll_up();
    assert_eq!(d.scroll, 1);
}

fn labelled(line: &str, secs: i64, nanos: u32, labels: &[(&str, &str)]) -> LogEntry {
    LogEntry {
        timestamp: Timestamp::from_unix(secs, nanos).unwrap(),
        labels: labels.iter().map(|(k, v)| (k.to_string(), v.to_string())).collect(),
        line: line.to_string(),
        raw: None,
    }
}

#[test]
fn level_tags_and_line_styles() {
    assert_eq!(level_tag_text("info"), "[ info]");
    assert_eq!(level_tag_text("warning"), "[warning]");
    assert_eq!(level_tag_text(""), "[     ]");
    let theme = Theme::default();
    let v = LogViewer::new(theme);
    let e = labelled("x", 1, 0, &[("severity", "FATAL")]);
    assert_eq!(entry_level(&e).map(|s| s.as_str()), Some("FATAL"));
    let st = v.line_style(&e);
    assert_eq!(st.fg, Some(theme.error));
    assert!(st.bold);
    let e = labelled("x", 1, 0, &[("level", "warn"), ("severity", "error")]);
    assert_eq!(entry_level(&e).map(|s| s.as_str()), Some("warn"));
    assert_eq!(v.line_style(&e).fg, Some(theme.warn));
    assert!(!v.line_style(&e).bold);
    let e = labelled("x", 1, 0, &[("level", "chatty")]);
    assert_eq!(v.line_style(&e).fg, None);
    let e = labelled("x", 1, 0, &[]);
    assert_eq!(entry_level(&e), None);
    assert_eq!(v.line_style(&e).fg, None);
}

#[test]
fn whole_seconds_truncate_toward_zero() {
    let a = Timestamp::from_unix(10, 900_000_000).unwrap();
    let b = Timestamp::from_unix(10, 100_000_000).unwrap();
    assert_eq!(a.seconds_until(&b), 0);
    assert_eq!(a.millis_until(&b), -800);
    let c = Timestamp::from_unix(7300, 0).unwrap();
    assert_eq!(a.seconds_until(&c), 7289);
    assert_eq!(c.seconds_until(&a), -7289);
}

#[test]
fn dedup_rows_show_count_and_span() {
    let mut v = LogViewer::new(Theme::default());
    v.update_entries(vec![
        labelled("job 11 failed", 0, 0, &[]),
        labelled("job 22 failed", 3600 * 2 + 300, 0, &[]),
        labelled("all good", 7400, 0, &[]),
    ]);
    v.set_dedup_mode(DedupMode::Fuzzy);
    let g = v.dedup_groups.iter().find(|g| g.count == 2).unwrap();
    let (badge, span) = v.group_suffix(g);
    assert_eq!(badge, Some(" (x2)".to_string()));
    assert_eq!(span, Some(" over 2h".to_string()));
    let single = v.dedup_groups.iter().find(|g| g.count == 1).unwrap();
    assert_eq!(v.group_suffix(single), (None, None));
    v.set_dedup_mode(DedupMode::Exact);
    let g = v.dedup_groups.iter().find(|g| g.count == 1).unwrap();
    assert_eq!(v.group_suffix(g), (None, None));
}

#[test]
fn selecting_past_the_window_clears_the_selection() {
    let mut v = LogViewer::new(Theme::default());
    v.update_entries(numbered(3, &[]));
    v.set_viewport_height(10);
    v.select_line(1);
    assert_eq!(v.selected_line, Some(1));
    v.select_line(3);
    assert_eq!(v.selected_line, None);
    assert!(v.selected_entry().is_none());
}

#[test]
fn match_cursor_stays_within_shrunk_matches() {
    let mut v = LogViewer::new(Theme::default());
    v.update_entries(vec![entry("x1", 1), entry("x2", 2), entry("x3", 3)]);
    v.set_search("x".to_string());
    v.search_prev();
    assert_eq!(v.search_match_position(), 3);
    v.update_entries(vec![entry("x1", 1), entry("y", 2)]);
    assert_eq!(v.search_match_count(), 1);
    assert_eq!(v.search_match_position(), 1);
    v.update_entries(vec![entry("y", 2)]);
    assert_eq!(v.search_match_count(), 0);
    assert_eq!(v.search_match_position(), 0);
}
