use oxo_tui::action::Action;
use oxo_tui::components::tab_bar::TabBar;
use oxo_tui::export::{csv_escape, csv_export, csv_line, ExportFormat};
use oxo_tui::keymap::{handle_key, InputMode, Key, KeyPress, Modifiers};
use oxo_tui::layout::{FocusManager, FocusTarget};
use oxo_tui::log_entry::{LogEntry, Timestamp};
use oxo_tui::components::log_viewer::{matching_indices, search_regex_for};
use oxo_tui::saved_queries::SavedQueries;
use oxo_tui::text::{
    byte_to_char_offset, char_to_byte_offset, chars_of, format_count, join_strings,
    parse_decimal_u8, split_words, truncate, truncate_id,
};
use oxo_tui::theme::Theme;
use oxo_tui::views::{SavedView, SavedViews};

fn press(code: Key) -> KeyPress {
    KeyPress::new(code, Modifiers::none())
}

fn ctrl(code: Key) -> KeyPress {
    KeyPress::new(code, Modifiers::ctrl())
}

#[test]
fn truncation_and_counts() {
    assert_eq!(truncate("hello world", 5), "hell\u{2026}");
    assert_eq!(truncate("hi", 5), "hi");
    assert_eq!(truncate("abc", 0), "\u{2026}");
    assert_eq!(format_count(0), "0");
    assert_eq!(format_count(999), "999");
    assert_eq!(format_count(1234567), "1,234,567");
    assert_eq!(truncate_id("abcdefghijklmnop", 12), "abcdefghijk\u{2026}");
    assert_eq!(truncate_id("short", 12), "short");
}

#[test]
fn character_and_byte_offsets() {
    let s = "héllo";
    assert_eq!(char_to_byte_offset(s, 2), 3);
    assert_eq!(char_to_byte_offset(s, 99), 6);
    assert_eq!(byte_to_char_offset(s, 3), 2);
}

#[test]
fn decimal_bytes() {
    assert_eq!(parse_decimal_u8(&chars_of("255")), Some(255));
    assert_eq!(parse_decimal_u8(&chars_of("+7")), Some(7));
    assert_eq!(parse_decimal_u8(&chars_of("007")), Some(7));
    assert_eq!(parse_decimal_u8(&chars_of("256")), None);
    assert_eq!(parse_decimal_u8(&chars_of("+")), None);
    assert_eq!(parse_decimal_u8(&chars_of("")), None);
    assert_eq!(parse_decimal_u8(&chars_of("-1")), None);
}

#[test]
fn words_and_joins() {
    let ws = split_words(&chars_of("  a  bc\td "));
    let ws: Vec<String> = ws.iter().map(|w| w.iter().collect()).collect();
    assert_eq!(ws, vec!["a".to_string(), "bc".to_string(), "d".to_string()]);
    assert_eq!(join_strings(&ws, ", "), "a, bc, d");
    assert_eq!(join_strings(&Vec::new(), ", "), "");
}

#[test]
fn focus_cycles_and_returns() {
    let mut f = FocusManager::new();
    assert_eq!(f.current(), FocusTarget::LogViewer);
    f.next();
    let after = f.current();
    f.prev();
    assert_eq!(f.current(), FocusTarget::LogViewer);
    assert_ne!(after, FocusTarget::FilterPanel);
    f.set_filter_visible(true);
    f.set(FocusTarget::FilterPanel);
    f.set_filter_visible(false);
    assert_eq!(f.current(), FocusTarget::LogViewer);
    assert!(!f.available_targets().contains(&FocusTarget::FilterPanel));
}

#[test]
fn key_bindings_per_mode() {
    assert_eq!(handle_key(InputMode::Normal, press(Key::Char('q'))), Action::Quit);
    assert_eq!(handle_key(InputMode::Query, ctrl(Key::Char('c'))), Action::Quit);
    assert_eq!(handle_key(InputMode::Normal, press(Key::Char('j'))), Action::ScrollDown(1));
    assert_eq!(handle_key(InputMode::Normal, ctrl(Key::Char('d'))), Action::PageDown);
    assert_eq!(handle_key(InputMode::Normal, press(Key::Char('d'))), Action::ToggleDiffMode);
    assert_eq!(handle_key(InputMode::Normal, press(Key::Char('3'))), Action::SwitchTab(2));
    assert_eq!(handle_key(InputMode::Normal, ctrl(Key::Char('t'))), Action::NewTab);
    assert_eq!(handle_key(InputMode::Query, press(Key::Esc)), Action::ExitQueryMode);
    assert_eq!(handle_key(InputMode::Detail, press(Key::Enter)), Action::ToggleDetail);
    assert_eq!(handle_key(InputMode::Filter, press(Key::Esc)), Action::ToggleFilterPanel);
    assert_eq!(handle_key(InputMode::Search, press(Key::Char('x'))), Action::Noop);
}

fn entry(line: &str, labels: &[(&str, &str)]) -> LogEntry {
    LogEntry {
        timestamp: Timestamp::from_unix(1000, 0).unwrap(),
        labels: labels.iter().map(|(k, v)| (k.to_string(), v.to_string())).collect(),
        line: line.to_string(),
        raw: None,
    }
}

#[test]
fn csv_fields_and_records() {
    assert_eq!(csv_escape("plain"), "plain");
    assert_eq!(csv_escape("a,b"), "\"a,b\"");
    assert_eq!(csv_escape("say \"hi\""), "\"say \"\"hi\"\"\"");
    let e = entry("hello, world", &[("app", "web"), ("level", "warn"), ("zone", "a")]);
    assert_eq!(
        csv_line(&e),
        "1970-01-01T00:16:40+00:00,warn,app=web;zone=a,\"hello, world\"\n"
    );
    let doc = csv_export(&vec![entry("x", &[])]);
    assert_eq!(doc, "timestamp,level,labels,line\n1970-01-01T00:16:40+00:00,,,x\n");
    assert_eq!(ExportFormat::Ndjson.extension(), "ndjson");
}

#[test]
fn timestamps() {
    assert!(Timestamp::from_unix(i64::MAX, 0).is_none());
    let a = Timestamp::from_unix(10, 500_000_000).unwrap();
    let b = Timestamp::from_unix(12, 0).unwrap();
    assert!(a.before(&b));
    assert_eq!(a.millis_until(&b), 1500);
    assert_eq!(b.millis_until(&a), -1500);
    assert_eq!(b.to_rfc3339(), "1970-01-01T00:00:12+00:00");
    let e = entry("x", &[("app", "web")]);
    assert_eq!(e.label("app").map(|s| s.as_str()), Some("web"));
    assert!(e.label("zone").is_none());
}

#[test]
fn search_regexes() {
    let re = search_regex_for("a(?P<n>\\d+)").unwrap();
    assert_eq!(re.source(), "(?i)a(?P<n>\\d+)");
    let entries = vec![entry("xA12", &[]), entry("xyz", &[]), entry("a7", &[])];
    assert_eq!(matching_indices(&entries, &re), vec![0, 2]);
    let literal = search_regex_for("a.b*(").unwrap();
    assert_eq!(literal.source(), "(?i)a\\.b\\*\\(");
    let entries = vec![entry("A.B*(", &[]), entry("axbb(", &[])];
    assert_eq!(matching_indices(&entries, &literal), vec![0]);
}

#[test]
fn saved_collections() {
    let mut q = SavedQueries::default();
    q.add("one".to_string(), "{}".to_string());
    q.add("two".to_string(), "{a=\"b\"}".to_string());
    q.remove(5);
    assert_eq!(q.queries.len(), 2);
    q.remove(0);
    assert_eq!(q.queries[0].name, "two");

    let mut v = SavedViews::default();
    let view = |n: &str| SavedView {
        name: n.to_string(),
        query: "{}".to_string(),
        time_range_minutes: 60,
        source: None,
    };
    v.add(view("a"));
    v.add(view("b"));
    v.add(view("a"));
    assert_eq!(v.get("b").unwrap().name, "b");
    v.remove("a");
    assert_eq!(v.views.len(), 2);
    assert_eq!(v.views[0].name, "b");
    assert!(v.get("zzz").is_none());
    v.add(view("new"));
    assert_eq!(v.get("new").unwrap().name, "new");
    v.remove("new");
    assert_eq!(v.views.len(), 2);
    q.add("three".to_string(), "{}".to_string());
    q.remove(q.queries.len() - 1);
    assert_eq!(q.queries.len(), 1);
    assert_eq!(q.queries[0].name, "two");
}

#[test]
fn tab_bar_add_then_close_restores() {
    let mut bar = TabBar::new(Theme::default());
    assert_eq!(bar.add_tab("{job=\"x\"}".to_string()), Some(1));
    assert_eq!(bar.tabs[1].label, "2: {job=\"x\"}");
    bar.close_tab(1);
    assert_eq!(bar.tab_count(), 1);
    assert_eq!(bar.tabs[0].label, "1: {}");
    for _ in 0..8 {
        assert!(bar.add_tab("{}".to_string()).is_some());
    }
    assert_eq!(bar.add_tab("{}".to_string()), None);
}
