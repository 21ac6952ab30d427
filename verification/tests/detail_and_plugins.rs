use oxo_tui::components::diff_view::entries_matching;
use oxo_tui::components::detail_panel::{detail_lines, field_lines, panel_width, raw_lines, DetailSpan, SpanStyle};
use oxo_tui::log_entry::{LogEntry, Timestamp};
use oxo_tui::plugin::{default_manifest, Plugin, PluginKind, PluginRegistry};
use oxo_tui::text::split_lines;
use oxo_tui::theme::Color;
use oxo_tui::wasm_host::{kept_positions, reply_range, WasmHost};

use SpanStyle::{Accent, Bold, Colored, Dimmed, Heading, Plain};

fn flat(lines: Vec<Vec<DetailSpan>>) -> Vec<Vec<(String, SpanStyle)>> {
    lines.into_iter().map(|l| l.into_iter().map(|s| (s.text, s.style)).collect()).collect()
}

fn l(spans: &[(&str, SpanStyle)]) -> Vec<(String, SpanStyle)> {
    spans.iter().map(|(t, s)| (t.to_string(), *s)).collect()
}

fn sample_entry(raw: Option<&str>) -> LogEntry {
    let ts = Timestamp::from_unix(1705314600, 0).unwrap();
    LogEntry::new(ts, vec![("app".to_string(), "api".to_string())], "hello world!".to_string(), raw.map(|r| r.to_string()))
}

#[test]
fn detail_lines_show_every_section() {
    let e = sample_entry(Some(r#"{"a":1}"#));
    let got = flat(detail_lines(&e, 10, None));
    let want = vec![
        l(&[("Timestamp: ", Bold), ("2024-01-15T10:30:00+00:00", Plain)]),
        l(&[]),
        l(&[("Labels", Heading)]),
        l(&[]),
        l(&[("  app: ", Accent), ("api", Plain)]),
        l(&[]),
        l(&[("Message", Heading)]),
        l(&[]),
        l(&[("  hello ", Plain)]),
        l(&[("  world!", Plain)]),
        l(&[]),
        l(&[("Raw JSON", Heading)]),
        l(&[]),
        l(&[("  ", Plain), ("{", Plain)]),
        l(&[("  ", Plain), ("  ", Plain), ("\"a\"", Colored(Color::Cyan)), (": ", Plain), ("1", Colored(Color::Yellow))]),
        l(&[("  ", Plain), ("}", Plain)]),
        l(&[]),
        l(&[("  [Esc/Enter to close, j/k to scroll]", Dimmed)]),
    ];
    assert_eq!(got, want);
}

#[test]
fn detail_lines_structured_fields_and_narrow_panel() {
    let e = sample_entry(None);
    let fields = vec![("user".to_string(), "bob".to_string()), ("ctx".to_string(), r#"{"k":true}"#.to_string())];
    let got = flat(detail_lines(&e, 4, Some(fields)));
    assert_eq!(got.len(), 18);
    // No room for the message: its heading stands alone.
    assert_eq!(got[6], l(&[("Message", Heading)]));
    assert_eq!(got[7], l(&[]));
    assert_eq!(got[8], l(&[]));
    assert_eq!(got[9], l(&[("Structured Fields", Heading)]));
    assert_eq!(got[11], l(&[("  user: ", Accent), ("bob", Plain)]));
    assert_eq!(got[12], l(&[("  ctx: ", Accent)]));
    assert_eq!(got[13], l(&[("    ", Plain), ("{", Plain)]));
    assert_eq!(
        got[14],
        l(&[("    ", Plain), ("  ", Plain), ("\"k\"", Colored(Color::Cyan)), (": ", Plain), ("true", Colored(Color::Magenta))])
    );
    assert_eq!(got[15], l(&[("    ", Plain), ("}", Plain)]));
}

#[test]
fn detail_message_chunks_respect_utf8_bytes() {
    let ts = Timestamp::from_unix(0, 0).unwrap();
    let e = LogEntry::new(ts, vec![], "ééé".to_string(), None);
    // Chunks of 4 bytes: two two-byte characters, then one.
    let got = flat(detail_lines(&e, 8, None));
    assert_eq!(got[7], l(&[("  éé", Plain)]));
    assert_eq!(got[8], l(&[("  é", Plain)]));
    // The chunks, joined, give back the whole message.
    let long = "a longer message that wraps over several chunks ✓ done";
    let e = LogEntry::new(ts, vec![], long.to_string(), None);
    let got = flat(detail_lines(&e, 12, None));
    let joined: String = got[7..got.len() - 2].iter().map(|line| line[0].0[2..].to_string()).collect();
    assert_eq!(joined, long);
    assert!(got[7..got.len() - 2].iter().all(|line| line[0].0.len() - 2 <= 8));
}

#[test]
fn field_and_raw_lines_fall_back_to_plain_text() {
    assert_eq!(
        flat(field_lines("x", "{oops\r\nmore", None)),
        vec![l(&[("  x: ", Accent)]), l(&[("    {oops", Plain)]), l(&[("    more", Plain)])]
    );
    assert_eq!(flat(field_lines("n", "42", None)), vec![l(&[("  n: ", Accent), ("42", Plain)])]);
    assert_eq!(flat(raw_lines("not json\nline2", None)), vec![l(&[("  not json", Plain)]), l(&[("  line2", Plain)])]);
    assert_eq!(
        flat(raw_lines("ignored", Some("[\n  null\n]".to_string()))),
        vec![
            l(&[("  ", Plain), ("[", Plain)]),
            l(&[("  ", Plain), ("  ", Plain), ("null", Colored(Color::Magenta))]),
            l(&[("  ", Plain), ("]", Plain)]),
        ]
    );
}

#[test]
fn panel_width_takes_three_fifths_within_bounds() {
    assert_eq!(panel_width(100), 60);
    assert_eq!(panel_width(50), 40);
    assert_eq!(panel_width(20), 16);
    assert_eq!(panel_width(3), 0);
}

#[test]
fn split_lines_matches_str_lines() {
    let text = "a\r\nb\n\nc\r";
    let want: Vec<String> = text.lines().map(|s| s.to_string()).collect();
    assert_eq!(split_lines(text), want);
    assert_eq!(split_lines(text), vec!["a", "b", "", "c\r"]);
    assert!(split_lines("").is_empty());
}

#[test]
fn kept_positions_are_the_nonzero_answers() {
    assert_eq!(kept_positions(&vec![0, 1, 0, -5]), vec![1, 3]);
    assert!(kept_positions(&vec![0, 0]).is_empty());
}

/// A module exporting one page of memory and `filter(ptr, len)`, which
/// keeps an entry whose JSON is longer than 20 bytes.
fn long_entry_filter() -> Vec<u8> {
    let mut m = vec![0x00, 0x61, 0x73, 0x6d, 0x01, 0x00, 0x00, 0x00];
    m.extend([0x01, 0x07, 0x01, 0x60, 0x02, 0x7f, 0x7f, 0x01, 0x7f]);
    m.extend([0x03, 0x02, 0x01, 0x00]);
    m.extend([0x05, 0x03, 0x01, 0x00, 0x01]);
    m.extend([0x07, 0x13, 0x02, 0x06]);
    m.extend(b"memory");
    m.extend([0x02, 0x00, 0x06]);
    m.extend(b"filter");
    m.extend([0x00, 0x00]);
    m.extend([0x0a, 0x09, 0x01, 0x07, 0x00, 0x20, 0x01, 0x41, 0x14, 0x4b, 0x0b]);
    m
}

/// A module exporting one page of memory and `transform(ptr, len)`,
/// which answers with pointer 0 and length `reply_len`.
fn fixed_transform(reply_len: u8) -> Vec<u8> {
    let mut m = vec![0x00, 0x61, 0x73, 0x6d, 0x01, 0x00, 0x00, 0x00];
    m.extend([0x01, 0x07, 0x01, 0x60, 0x02, 0x7f, 0x7f, 0x01, 0x7e]);
    m.extend([0x03, 0x02, 0x01, 0x00]);
    m.extend([0x05, 0x03, 0x01, 0x00, 0x01]);
    m.extend([0x07, 0x16, 0x02, 0x06]);
    m.extend(b"memory");
    m.extend([0x02, 0x00, 0x09]);
    m.extend(b"transform");
    m.extend([0x00, 0x00]);
    m.extend([0x0a, 0x06, 0x01, 0x04, 0x00, 0x42, reply_len, 0x0b]);
    m
}

#[test]
fn wasm_filter_keeps_what_the_guest_accepts() {
    let mut host = WasmHost::new().unwrap();
    let jsons = vec![vec![b'x'; 5], vec![b'y'; 30], vec![b'z'; 25]];
    assert_eq!(host.run_filter(&long_entry_filter(), &jsons), Some(vec![1, 2]));
    assert_eq!(host.run_filter_answers(&long_entry_filter(), &jsons), Some(vec![0, 1, 1]));
    assert_eq!(host.run_filter(&[0, 1, 2], &jsons), None);
}

#[test]
fn registry_filters_entries_in_order() {
    let mut host = WasmHost::new().unwrap();
    let mut reg = PluginRegistry::new();
    let mut m = default_manifest("long", "/p/long.wasm");
    m.kind = PluginKind::Filter;
    reg.insert(Plugin::new(m, long_entry_filter()));
    let ts = Timestamp::from_unix(0, 0).unwrap();
    let entries: Vec<LogEntry> =
        ["a", "b", "c"].iter().map(|s| LogEntry::new(ts, vec![], s.to_string(), None)).collect();
    let jsons = vec![vec![b'x'; 5], vec![b'y'; 30], vec![b'z'; 25]];
    let out = reg.apply_filters(&mut host, entries, Some(jsons));
    let lines: Vec<&str> = out.iter().map(|e| e.line.as_str()).collect();
    assert_eq!(lines, vec!["b", "c"]);
    // Without the entries' JSON every filter is skipped.
    let entries: Vec<LogEntry> = ["a", "b"].iter().map(|s| LogEntry::new(ts, vec![], s.to_string(), None)).collect();
    assert_eq!(reg.apply_filters(&mut host, entries, None).len(), 2);
    // A plugin that cannot be loaded is skipped.
    let mut broken = default_manifest("broken", "/p/broken.wasm");
    broken.kind = PluginKind::Filter;
    let mut reg2 = PluginRegistry::new();
    reg2.insert(Plugin::new(broken, vec![1, 2, 3]));
    let entries: Vec<LogEntry> = ["a"].iter().map(|s| LogEntry::new(ts, vec![], s.to_string(), None)).collect();
    assert_eq!(reg2.apply_filters(&mut host, entries, Some(vec![vec![b'q'; 40]])).len(), 1);
}

#[test]
fn wasm_transform_reply_is_read_or_passed_through() {
    let mut host = WasmHost::new().unwrap();
    assert_eq!(host.run_transform(&fixed_transform(0), b"[1,2]"), Some(None));
    assert_eq!(host.run_transform(&fixed_transform(3), b"[1,2]"), Some(Some(b"[1,".to_vec())));
    assert_eq!(host.run_transform(&[9, 9], b"[]"), None);
}

#[test]
fn reply_range_decodes_pointer_and_length() {
    assert_eq!(reply_range((16i64 << 32) | 5, 100), Some((16, 5)));
    assert_eq!(reply_range(16i64 << 32, 100), None);
    assert_eq!(reply_range((96i64 << 32) | 5, 100), None);
    assert_eq!(reply_range((95i64 << 32) | 5, 100), Some((95, 5)));
    // The pointer is the high 32 bits read without sign.
    let high: i64 = ((0xFFFF_FFF0u64 << 32) | 4) as i64;
    assert_eq!(reply_range(high, usize::MAX), Some((0xFFFF_FFF0, 4)));
    assert_eq!(reply_range(-1, usize::MAX), Some((0xFFFF_FFFF, 0xFFFF_FFFF)));
}


#[test]
fn timestamp_range_is_chronos() {
    assert!(Timestamp::from_unix(-8334601228800, 0).is_some());
    assert!(Timestamp::from_unix(-8334601228801, 0).is_none());
    assert!(Timestamp::from_unix(8210266876799, 999_999_999).is_some());
    assert!(Timestamp::from_unix(8210266876800, 0).is_none());
    // A leap second only on the last second of a minute.
    assert!(Timestamp::from_unix(59, 1_500_000_000).is_some());
    assert!(Timestamp::from_unix(58, 1_500_000_000).is_none());
    assert!(Timestamp::from_unix(-1, 1_000_000_000).is_some());
    assert!(Timestamp::from_unix(0, 2_000_000_000).is_none());
}

#[test]
fn registry_transforms_with_the_plugins_reply() {
    let mut host = WasmHost::new().unwrap();
    let ts = Timestamp::from_unix(0, 0).unwrap();
    let mk = |s: &str| LogEntry::new(ts, vec![], s.to_string(), None);
    let encode = |_: &Vec<LogEntry>| Some(b"[1,2]".to_vec());
    let decode = |b: &Vec<u8>| Some(vec![LogEntry::new(ts, vec![], String::from_utf8(b.clone()).unwrap(), None)]);
    let mut reg = PluginRegistry::new();
    reg.insert(Plugin::new(default_manifest("three", "/p/three.wasm"), fixed_transform(3)));
    let out = reg.apply_transforms(&mut host, vec![mk("a"), mk("b")], encode, decode);
    let lines: Vec<&str> = out.iter().map(|e| e.line.as_str()).collect();
    assert_eq!(lines, vec!["[1,"]);
    // An empty reply leaves the entries as they were.
    let mut reg0 = PluginRegistry::new();
    reg0.insert(Plugin::new(default_manifest("none", "/p/none.wasm"), fixed_transform(0)));
    let out = reg0.apply_transforms(&mut host, vec![mk("a"), mk("b")], encode, decode);
    assert_eq!(out.len(), 2);
    assert_eq!(out[1].line, "b");
}

#[test]
fn log_time_is_the_viewer_column_format() {
    let ts = Timestamp::from_unix(1705314600, 5_000_000).unwrap();
    assert_eq!(ts.log_time(), "2024-01-15 10:30:00.005");
}

#[test]
fn diff_side_keeps_matching_entries_in_order() {
    let ts = Timestamp::from_unix(0, 0).unwrap();
    let entries: Vec<LogEntry> =
        ["GET /a", "POST /b", "GET /c"].iter().map(|s| LogEntry::new(ts, vec![], s.to_string(), None)).collect();
    let got: Vec<String> = entries_matching(&entries, "GET").into_iter().map(|e| e.line).collect();
    assert_eq!(got, vec!["GET /a", "GET /c"]);
    assert_eq!(entries_matching(&entries, "").len(), 3);
    assert!(entries_matching(&entries, "PUT").is_empty());
}
