//! Log export. Writing the file is the application's job; this module names
//! the formats and builds the CSV text.

use vstd::prelude::*;
use vstd::string::StringExecFns;
use crate::log_entry::{LogEntry, label_value, rfc3339_text};
use crate::text::{chars_of, push_char, str_eq};

verus! {

/// Supported export file formats.
#[derive(Debug, Clone, Copy, PartialEq, Eq, Structural)]
pub enum ExportFormat {
    /// Pretty-printed JSON array.
    Json,
    /// Comma-separated values with header row.
    Csv,
    /// Newline-delimited JSON (one compact object per line).
    Ndjson,
}

impl ExportFormat {
    /// File extension for this format (without leading dot).
    pub fn extension(&self) -> (s: &'static str)
        ensures
            s@ == match *self {
                ExportFormat::Json => "json"@,
                ExportFormat::Csv => "csv"@,
                ExportFormat::Ndjson => "ndjson"@,
            },
    {
        match self {
            ExportFormat::Json => "json",
            ExportFormat::Csv => "csv",
            ExportFormat::Ndjson => "ndjson",
        }
    }
}

/// Whether a CSV field must be quoted: it holds a comma, a double quote, a
/// line feed or a carriage return.
pub open spec fn needs_quoting(s: Seq<char>) -> bool {
    exists|i: int| 0 <= i < s.len() && (s[i] == ',' || s[i] == '"' || s[i] == '\n' || s[i] == '\r')
}

/// `s` with every double quote doubled.
pub open spec fn doubled_quotes(s: Seq<char>) -> Seq<char>
    decreases s.len(),
{
    if s.len() == 0 {
        Seq::empty()
    } else {
        doubled_quotes(s.drop_last()) + if s.last() == '"' {
            seq!['"', '"']
        } else {
            seq![s.last()]
        }
    }
}

/// A CSV field as RFC 4180 writes it: quoted, with inner quotes doubled,
/// when it holds a separator, a quote or a line break; unchanged otherwise.
pub open spec fn csv_field(s: Seq<char>) -> Seq<char> {
    if needs_quoting(s) {
        seq!['"'] + doubled_quotes(s) + seq!['"']
    } else {
        s
    }
}

/// Escape a field value for CSV output.
pub fn csv_escape(value: &str) -> (r: String)
    ensures
        r@ == csv_field(value@),
{
    let chars = chars_of(value);
    let mut quote = false;
    let mut i: usize = 0;
    while i < chars.len()
        invariant
            chars@ == value@,
            i <= chars.len(),
            !quote ==> forall|j: int|
                0 <= j < i ==> !(chars@[j] == ',' || chars@[j] == '"' || chars@[j] == '\n'
                    || chars@[j] == '\r'),
            quote ==> needs_quoting(value@),
        decreases chars.len() - i,
    {
        let c = chars[i];
        if c == ',' || c == '"' || c == '\n' || c == '\r' {
            quote = true;
        }
        i += 1;
    }
    if !quote {
        return value.to_owned();
    }
    let mut r = String::new();
    push_char(&mut r, '"');
    let mut k: usize = 0;
    while k < chars.len()
        invariant
            chars@ == value@,
            k <= chars.len(),
            r@ == seq!['"'] + doubled_quotes(value@.take(k as int)),
        decreases chars.len() - k,
    {
        let c = chars[k];
        assert(value@.take(k + 1).drop_last() == value@.take(k as int));
        if c == '"' {
            push_char(&mut r, '"');
            push_char(&mut r, '"');
        } else {
            push_char(&mut r, c);
        }
        k += 1;
    }
    push_char(&mut r, '"');
    assert(value@.take(value@.len() as int) == value@);
    r
}

/// Whether a label name holds the log level.
pub open spec fn is_level_key(k: Seq<char>) -> bool {
    k == "level"@ || k == "severity"@ || k == "lvl"@
}

/// The level of an entry: the value of its `level` label, else `severity`,
/// else `lvl`, else empty.
pub open spec fn level_field(labels: Seq<(String, String)>) -> Seq<char> {
    match label_value(labels, "level"@) {
        Some(v) => v,
        None => match label_value(labels, "severity"@) {
            Some(v) => v,
            None => match label_value(labels, "lvl"@) {
                Some(v) => v,
                None => Seq::empty(),
            },
        },
    }
}

/// The `name=value` texts of the labels other than the level labels, in
/// label order.
pub open spec fn label_parts(labels: Seq<(String, String)>) -> Seq<Seq<char>>
    decreases labels.len(),
{
    if labels.len() == 0 {
        Seq::empty()
    } else {
        let rest = label_parts(labels.drop_last());
        let (k, v) = labels.last();
        if is_level_key(k@) {
            rest
        } else {
            rest.push(k@ + seq!['='] + v@)
        }
    }
}

/// `parts` joined by `sep`.
pub open spec fn joined(parts: Seq<Seq<char>>, sep: Seq<char>) -> Seq<char>
    decreases parts.len(),
{
    if parts.len() == 0 {
        Seq::empty()
    } else if parts.len() == 1 {
        parts[0]
    } else {
        joined(parts.drop_last(), sep) + sep + parts.last()
    }
}

/// One CSV record for an entry: timestamp, level, the other labels joined by
/// `;`, and the line, each escaped, ending with a line feed.
pub open spec fn csv_record(e: LogEntry) -> Seq<char> {
    csv_field(rfc3339_text(e.timestamp.spec_secs(), e.timestamp.spec_nanos())) + seq![',']
        + csv_field(level_field(e.labels@)) + seq![','] + csv_field(
        joined(label_parts(e.labels@), seq![';']),
    ) + seq![','] + csv_field(e.line@) + seq!['\n']
}

/// The header line of the CSV export.
pub open spec fn csv_header() -> Seq<char> {
    "timestamp,level,labels,line\n"@
}

/// The whole CSV export of `entries`: the header, then one record each.
pub open spec fn csv_document(entries: Seq<LogEntry>) -> Seq<char>
    decreases entries.len(),
{
    if entries.len() == 0 {
        csv_header()
    } else {
        csv_document(entries.drop_last()) + csv_record(entries.last())
    }
}

/// The level text of a label list (see `level_field`).
fn level_text(e: &LogEntry) -> (r: String)
    ensures
        r@ == level_field(e.labels@),
{
    match e.label("level") {
        Some(v) => v.clone(),
        None => match e.label("severity") {
            Some(v) => v.clone(),
            None => match e.label("lvl") {
                Some(v) => v.clone(),
                None => String::new(),
            },
        },
    }
}

/// The labels of an entry other than its level, as `name=value` joined by
/// `;`.
fn labels_text(e: &LogEntry) -> (r: String)
    ensures
        r@ == joined(label_parts(e.labels@), seq![';']),
{
    let mut r = String::new();
    let mut count: usize = 0;
    let mut i: usize = 0;
    while i < e.labels.len()
        invariant
            i <= e.labels.len(),
            count == label_parts(e.labels@.take(i as int)).len(),
            count <= i,
            r@ == joined(label_parts(e.labels@.take(i as int)), seq![';']),
        decreases e.labels.len() - i,
    {
        let ghost prev = e.labels@.take(i as int);
        assert(e.labels@.take(i + 1).drop_last() == prev);
        let (k, v) = &e.labels[i];
        let skip = str_eq(k.as_str(), "level") || str_eq(k.as_str(), "severity") || str_eq(
            k.as_str(),
            "lvl",
        );
        if !skip {
            if count > 0 {
                push_char(&mut r, ';');
            }
            r.append(k.as_str());
            push_char(&mut r, '=');
            r.append(v.as_str());
            proof {
                let parts = label_parts(prev);
                let part = k@ + seq!['='] + v@;
                assert(label_parts(e.labels@.take(i + 1)) == parts.push(part));
                assert(parts.push(part).drop_last() == parts);
                if count == 0 {
                    assert(r@ =~= part);
                } else {
                    assert(r@ =~= joined(parts, seq![';']) + seq![';'] + part);
                }
            }
            count = count + 1;
        }
        i += 1;
    }
    assert(e.labels@.take(e.labels@.len() as int) == e.labels@);
    r
}

/// The CSV record of one entry.
pub fn csv_line(e: &LogEntry) -> (r: String)
    ensures
        r@ == csv_record(*e),
{
    let ts = e.timestamp.to_rfc3339();
    let mut r = csv_escape(ts.as_str());
    push_char(&mut r, ',');
    let level = level_text(e);
    let level_esc = csv_escape(level.as_str());
    r.append(level_esc.as_str());
    push_char(&mut r, ',');
    let labels = labels_text(e);
    let labels_esc = csv_escape(labels.as_str());
    r.append(labels_esc.as_str());
    push_char(&mut r, ',');
    let line_esc = csv_escape(e.line.as_str());
    r.append(line_esc.as_str());
    push_char(&mut r, '\n');
    assert(r@ =~= csv_record(*e));
    r
}

/// The full CSV export of `entries`.
pub fn csv_export(entries: &Vec<LogEntry>) -> (r: String)
    ensures
        r@ == csv_document(entries@),
{
    let mut r = String::from_str("timestamp,level,labels,line\n");
    let mut i: usize = 0;
    assert(entries@.take(0) == Seq::<LogEntry>::empty());
    while i < entries.len()
        invariant
            i <= entries.len(),
            r@ == csv_document(entries@.take(i as int)),
        decreases entries.len() - i,
    {
        let line = csv_line(&entries[i]);
        r.append(line.as_str());
        assert(entries@.take(i + 1).drop_last() == entries@.take(i as int));
        i += 1;
    }
    assert(entries@.take(entries@.len() as int) == entries@);
    r
}

} // verus!
