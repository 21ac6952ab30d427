//! Trace waterfall overlay: the log entries that carry a trace ID, grouped
//! by it; each trace's spans in time order, the most recent trace first.

use vstd::prelude::*;
use crate::action::Action;
use crate::text::{lemma_lex_total, lemma_lex_transitive, lex_less, lex_lt};
use crate::keymap::{Key, KeyPress};
use crate::log_entry::{chrono_millis_between, find_label, label_value, lemma_timestamp_eq, ts_before, LogEntry,
    Timestamp};
use crate::pattern::{captures, compile, regex_captures, regex_compiles, string_captures};
use crate::text::{chars_of, str_eq};
use crate::theme::Theme;

verus! {

/// The regex that finds a duration in a log line: a keyword, a number and
/// its unit (`ms` or `s`).
pub open spec fn duration_pattern() -> Seq<char> {
    "(?i)(?:duration|took|latency|elapsed)[=: ]+(\\d+(?:\\.\\d+)?)\\s*(?:ms|s)"@
}

/// The words after which a line gives a duration.
pub open spec fn duration_keywords() -> Seq<Seq<char>> {
    seq!["duration"@, "took"@, "latency"@, "elapsed"@]
}

/// The regex searched for a duration matches, in any case, one of the four
/// keywords `duration`, `took`, `latency` and `elapsed` (each an
/// alternative of its first group), then `=`, `:` or spaces, a number
/// (captured) and the unit `ms` or `s`.
pub proof fn law_duration_pattern_keywords()
    ensures
        duration_pattern() == "(?i)(?:"@ + crate::text::join_words(duration_keywords(), "|"@)
            + ")[=: ]+(\\d+(?:\\.\\d+)?)\\s*(?:ms|s)"@,
        forall|k: int| 0 <= k < 4 ==> crate::text::has_infix(duration_pattern(), #[trigger] duration_keywords()[k]),
{
    reveal_strlit("(?i)(?:duration|took|latency|elapsed)[=: ]+(\\d+(?:\\.\\d+)?)\\s*(?:ms|s)");
    reveal_strlit("(?i)(?:");
    reveal_strlit(")[=: ]+(\\d+(?:\\.\\d+)?)\\s*(?:ms|s)");
    reveal_strlit("|");
    reveal_strlit("duration");
    reveal_strlit("took");
    reveal_strlit("latency");
    reveal_strlit("elapsed");
    let ws = duration_keywords();
    let w1 = seq!["duration"@];
    let w2 = w1.push("took"@);
    let w3 = w2.push("latency"@);
    assert(w3.push("elapsed"@) =~= ws);
    assert(w2.drop_last() =~= w1);
    assert(w3.drop_last() =~= w2);
    assert(ws.drop_last() =~= w3);
    let j1 = crate::text::join_words(w1, "|"@);
    let j2 = crate::text::join_words(w2, "|"@);
    let j3 = crate::text::join_words(w3, "|"@);
    let j = crate::text::join_words(ws, "|"@);
    assert(j1 == "duration"@);
    assert(j2 == j1 + "|"@ + "took"@);
    assert(j3 == j2 + "|"@ + "latency"@);
    assert(j == j3 + "|"@ + "elapsed"@);
    reveal_strlit("duration|took|latency|elapsed");
    assert(j =~= "duration|took|latency|elapsed"@);
    let p = duration_pattern();
    assert(p =~= "(?i)(?:"@ + j + ")[=: ]+(\\d+(?:\\.\\d+)?)\\s*(?:ms|s)"@);
    assert(p.subrange(7, 15) =~= "duration"@);
    assert(crate::text::occurs_at(p, ws[0], 7));
    assert(p.subrange(16, 20) =~= "took"@);
    assert(crate::text::occurs_at(p, ws[1], 16));
    assert(p.subrange(21, 28) =~= "latency"@);
    assert(crate::text::occurs_at(p, ws[2], 21));
    assert(p.subrange(29, 36) =~= "elapsed"@);
    assert(crate::text::occurs_at(p, ws[3], 29));
}

/// A duration found in a log line.
#[derive(Debug)]
pub struct SpanDuration {
    /// The number as written (digits, maybe a fraction).
    pub number: String,
    /// Whether the unit is seconds (else milliseconds).
    pub seconds: bool,
}

/// Whether `s` ends in `ms`.
pub open spec fn ends_with_ms(s: Seq<char>) -> bool {
    s.len() >= 2 && s[s.len() - 2] == 'm' && s.last() == 's'
}

/// The duration the regex finds first in `line`: the number's text and
/// whether the match ends in `s` but not `ms`.
pub open spec fn duration_in(line: Seq<char>) -> Option<(Seq<char>, bool)> {
    let caps = regex_captures(duration_pattern(), line);
    if regex_compiles(duration_pattern()) && caps.len() > 1 && caps[0] is Some && caps[1] is Some {
        let whole = (caps[0]->0).2;
        Some(((caps[1]->0).2, whole.len() > 0 && whole.last() == 's' && !ends_with_ms(whole)))
    } else {
        None
    }
}

/// The duration as a pair of plain values.
pub open spec fn duration_view(d: Option<SpanDuration>) -> Option<(Seq<char>, bool)> {
    match d {
        Some(x) => Some((x.number@, x.seconds)),
        None => None,
    }
}

/// The duration written in `line`, if any.
pub fn extract_duration(line: &str) -> (r: Option<SpanDuration>)
    ensures
        duration_view(r) == duration_in(line@),
{
    let re = match compile("(?i)(?:duration|took|latency|elapsed)[=: ]+(\\d+(?:\\.\\d+)?)\\s*(?:ms|s)") {
        Ok(re) => re,
        Err(_) => {
            return None;
        },
    };
    let caps = captures(&re, line);
    if caps.len() < 2 {
        return None;
    }
    proof {
        assert(string_captures(caps@)[0] == match caps@[0] {
            Some((a, b, t)) => Some((a, b, t@)),
            None => None,
        });
        assert(string_captures(caps@)[1] == match caps@[1] {
            Some((a, b, t)) => Some((a, b, t@)),
            None => None,
        });
    }
    match (&caps[0], &caps[1]) {
        (Some(w), Some(n)) => {
            let wv = chars_of(w.2.as_str());
            let k = wv.len();
            let ms = k >= 2 && wv[k - 2] == 'm' && wv[k - 1] == 's';
            let seconds = k > 0 && wv[k - 1] == 's' && !ms;
            Some(SpanDuration { number: n.2.clone(), seconds })
        },
        _ => None,
    }
}

/// A log entry seen as one span of a trace.
#[derive(Debug)]
pub struct TraceSpan {
    /// The service that logged it (`service`, `app` or `job` label, else `unknown`).
    pub service: String,
    /// When it was logged.
    pub timestamp: Timestamp,
    /// The log line.
    pub line: String,
    /// Its `level` label, if any.
    pub level: Option<String>,
    /// The duration written in the line, if any.
    pub duration: Option<SpanDuration>,
}

/// One trace: its ID, its spans in time order, and the whole milliseconds
/// from the first span to the last.
#[derive(Debug)]
pub struct TraceView {
    /// The trace, request or correlation ID.
    pub trace_id: String,
    /// The spans, in time order.
    pub spans: Vec<TraceSpan>,
    /// Whole milliseconds from the first span to the last (at least 0).
    pub total_duration_ms: i64,
}

/// The trace ID of entry `i`, if it has one.
pub open spec fn trace_id_at(ids: Seq<Option<String>>, i: int) -> Option<Seq<char>> {
    match ids[i] {
        Some(s) => Some(s@),
        None => None,
    }
}

/// Positions below `n` of the entries in trace `id`, in entry order.
pub open spec fn trace_members(ids: Seq<Option<String>>, id: Seq<char>, n: int) -> Seq<usize>
    decreases n,
{
    if n <= 0 {
        seq![]
    } else if trace_id_at(ids, n - 1) == Some(id) {
        trace_members(ids, id, n - 1).push((n - 1) as usize)
    } else {
        trace_members(ids, id, n - 1)
    }
}

/// Where an entry stamped `t` goes in the time-ordered positions `s`: after
/// every entry that is not later than `t`.
pub open spec fn insert_pos(entries: Seq<LogEntry>, s: Seq<usize>, t: Timestamp) -> int
    decreases s.len(),
{
    if s.len() == 0 {
        0
    } else if ts_before(t, entries[s[0] as int].timestamp) {
        0
    } else {
        1 + insert_pos(entries, s.drop_first(), t)
    }
}

/// The positions `idx` ordered by the entries' timestamps, entries stamped
/// alike keeping their order (a stable sort by time).
pub open spec fn time_ordered(entries: Seq<LogEntry>, idx: Seq<usize>) -> Seq<usize>
    decreases idx.len(),
{
    if idx.len() == 0 {
        seq![]
    } else {
        let s = time_ordered(entries, idx.drop_last());
        s.insert(insert_pos(entries, s, entries[idx.last() as int].timestamp), idx.last())
    }
}

proof fn lemma_insert_pos_bound(entries: Seq<LogEntry>, s: Seq<usize>, t: Timestamp)
    ensures
        0 <= insert_pos(entries, s, t) <= s.len(),
    decreases s.len(),
{
    if s.len() > 0 {
        lemma_insert_pos_bound(entries, s.drop_first(), t);
    }
}

proof fn lemma_time_ordered_len(entries: Seq<LogEntry>, idx: Seq<usize>)
    ensures
        time_ordered(entries, idx).len() == idx.len(),
    decreases idx.len(),
{
    if idx.len() > 0 {
        let s = time_ordered(entries, idx.drop_last());
        lemma_time_ordered_len(entries, idx.drop_last());
        lemma_insert_pos_bound(entries, s, entries[idx.last() as int].timestamp);
    }
}

/// Whether the positions `s` are in time order: no entry is earlier than
/// one before it.
pub open spec fn in_time_order(entries: Seq<LogEntry>, s: Seq<usize>) -> bool {
    forall|a: int, b: int|
        0 <= a < b < s.len() ==> !ts_before(entries[s[b] as int].timestamp, entries[s[a] as int].timestamp)
}

proof fn lemma_insert_pos_props(entries: Seq<LogEntry>, s: Seq<usize>, t: Timestamp)
    ensures
        forall|k: int| 0 <= k < insert_pos(entries, s, t) ==> !ts_before(t, entries[s[k] as int].timestamp),
        insert_pos(entries, s, t) < s.len() ==> ts_before(t, entries[s[insert_pos(entries, s, t)] as int].timestamp),
    decreases s.len(),
{
    lemma_insert_pos_bound(entries, s, t);
    if s.len() > 0 && !ts_before(t, entries[s[0] as int].timestamp) {
        lemma_insert_pos_props(entries, s.drop_first(), t);
        lemma_insert_pos_bound(entries, s.drop_first(), t);
        assert forall|k: int| 0 <= k < insert_pos(entries, s, t) implies !ts_before(t, entries[s[k] as int].timestamp) by {
            if k > 0 {
                assert(s[k] == s.drop_first()[k - 1]);
            }
        }
        if insert_pos(entries, s, t) < s.len() {
            assert(s[insert_pos(entries, s, t)] == s.drop_first()[insert_pos(entries, s, t) - 1]);
        }
    }
}

/// A stable sort by time puts the entries in time order.
pub proof fn law_time_ordered_sorted(entries: Seq<LogEntry>, idx: Seq<usize>)
    ensures
        in_time_order(entries, time_ordered(entries, idx)),
    decreases idx.len(),
{
    if idx.len() > 0 {
        let s = time_ordered(entries, idx.drop_last());
        let x = idx.last();
        let t = entries[x as int].timestamp;
        let p = insert_pos(entries, s, t);
        law_time_ordered_sorted(entries, idx.drop_last());
        lemma_insert_pos_props(entries, s, t);
        lemma_insert_pos_bound(entries, s, t);
        let r = s.insert(p, x);
        assert forall|a: int, b: int| 0 <= a < b < r.len() implies !ts_before(
            entries[r[b] as int].timestamp,
            entries[r[a] as int].timestamp,
        ) by {
            let ta = entries[r[a] as int].timestamp;
            let tb = entries[r[b] as int].timestamp;
            if b < p {
                assert(r[a] == s[a] && r[b] == s[b]);
            } else if b == p {
                assert(r[a] == s[a] && r[b] == x);
            } else if a < p {
                assert(r[a] == s[a] && r[b] == s[b - 1]);
            } else if a == p {
                assert(r[a] == x && r[b] == s[b - 1]);
                let tp = entries[s[p] as int].timestamp;
                if b - 1 > p {
                    assert(!ts_before(entries[s[b - 1] as int].timestamp, tp));
                }
            } else {
                assert(r[a] == s[a - 1] && r[b] == s[b - 1]);
            }
        }
    }
}

/// The service an entry's labels name.
pub open spec fn service_of(labels: Seq<(String, String)>) -> Seq<char> {
    match label_value(labels, "service"@) {
        Some(v) => v,
        None => match label_value(labels, "app"@) {
            Some(v) => v,
            None => match label_value(labels, "job"@) {
                Some(v) => v,
                None => "unknown"@,
            },
        },
    }
}

/// The characters of an optional string.
pub open spec fn opt_view(o: Option<String>) -> Option<Seq<char>> {
    match o {
        Some(s) => Some(s@),
        None => None,
    }
}

/// Whether `s` is entry `e` seen as a span.
pub open spec fn span_of(s: TraceSpan, e: LogEntry) -> bool {
    &&& s.service@ == service_of(e.labels@)
    &&& s.timestamp == e.timestamp
    &&& s.line@ == e.line@
    &&& opt_view(s.level) == label_value(e.labels@, "level"@)
    &&& duration_view(s.duration) == duration_in(e.line@)
}

/// Where an entry stamped `t` goes among the time-ordered positions `s`.
fn insert_pos_exec(entries: &Vec<LogEntry>, s: &Vec<usize>, t: &Timestamp) -> (p: usize)
    requires
        forall|k: int| 0 <= k < s@.len() ==> s@[k] < entries@.len(),
    ensures
        p == insert_pos(entries@, s@, *t),
        p <= s@.len(),
{
    let mut p: usize = 0;
    proof {
        assert(s@.skip(0) == s@);
    }
    while p < s.len() && !t.before(&entries[s[p]].timestamp)
        invariant
            p <= s@.len(),
            forall|k: int| 0 <= k < s@.len() ==> s@[k] < entries@.len(),
            insert_pos(entries@, s@, *t) == p + insert_pos(entries@, s@.skip(p as int), *t),
        decreases s@.len() - p,
    {
        proof {
            assert(s@.skip(p as int)[0] == s@[p as int]);
            assert(s@.skip(p as int).drop_first() == s@.skip(p + 1));
        }
        p += 1;
    }
    proof {
        if p < s@.len() {
            assert(s@.skip(p as int)[0] == s@[p as int]);
        } else {
            assert(s@.skip(p as int).len() == 0);
        }
    }
    p
}

/// The positions of the entries in trace `id`, in time order.
fn ordered_members(entries: &Vec<LogEntry>, ids: &Vec<Option<String>>, id: &str) -> (r: Vec<usize>)
    requires
        entries@.len() == ids@.len(),
    ensures
        r@ == time_ordered(entries@, trace_members(ids@, id@, ids@.len() as int)),
        forall|k: int| 0 <= k < r@.len() ==> r@[k] < entries@.len(),
{
    let mut r: Vec<usize> = Vec::new();
    let mut i: usize = 0;
    while i < ids.len()
        invariant
            entries@.len() == ids@.len(),
            i <= ids@.len(),
            r@ == time_ordered(entries@, trace_members(ids@, id@, i as int)),
            forall|k: int| 0 <= k < r@.len() ==> r@[k] < i,
        decreases ids@.len() - i,
    {
        let hit = match &ids[i] {
            Some(s) => str_eq(s.as_str(), id),
            None => false,
        };
        proof {
            assert(hit == (trace_id_at(ids@, i as int) == Some(id@)));
        }
        if hit {
            let p = insert_pos_exec(entries, &r, &entries[i].timestamp);
            let ghost before = r@;
            r.insert(p, i);
            proof {
                let m = trace_members(ids@, id@, i + 1);
                assert(m == trace_members(ids@, id@, i as int).push(i));
                assert(m.drop_last() == trace_members(ids@, id@, i as int));
                assert(m.last() == i);
                assert forall|k: int| 0 <= k < r@.len() implies r@[k] < i + 1 by {
                    if k < p {
                        assert(r@[k] == before[k]);
                    } else if k > p {
                        assert(r@[k] == before[k - 1]);
                    }
                }
            }
        }
        i += 1;
    }
    r
}

/// The span that entry `e` makes.
fn span_from(e: &LogEntry) -> (s: TraceSpan)
    ensures
        span_of(s, *e),
{
    let service = match find_label(&e.labels, "service") {
        Some(v) => v.clone(),
        None => match find_label(&e.labels, "app") {
            Some(v) => v.clone(),
            None => match find_label(&e.labels, "job") {
                Some(v) => v.clone(),
                None => String::from_str("unknown"),
            },
        },
    };
    let level = match find_label(&e.labels, "level") {
        Some(v) => Some(v.clone()),
        None => None,
    };
    TraceSpan {
        service,
        timestamp: e.timestamp,
        line: e.line.clone(),
        level,
        duration: extract_duration(e.line.as_str()),
    }
}

/// Whether `t` is the trace of `id` built from `entries`: the spans of its
/// members in time order (at least two), and the milliseconds from the
/// first span to the last.
pub open spec fn trace_of(t: TraceView, entries: Seq<LogEntry>, ids: Seq<Option<String>>) -> bool {
    let m = time_ordered(entries, trace_members(ids, t.trace_id@, ids.len() as int));
    &&& m.len() >= 2
    &&& t.spans@.len() == m.len()
    &&& forall|k: int| 0 <= k < m.len() ==> span_of(#[trigger] t.spans@[k], entries[m[k] as int])
    &&& {
        let first = t.spans@[0].timestamp;
        let last = t.spans@.last().timestamp;
        let d = chrono_millis_between(
            first.spec_secs(),
            first.spec_nanos(),
            last.spec_secs(),
            last.spec_nanos(),
        );
        t.total_duration_ms == if d < 0 {
            0
        } else {
            d
        }
    }
}

/// The trace of `id` built from `entries`, when it has two spans or more.
fn build_trace(entries: &Vec<LogEntry>, ids: &Vec<Option<String>>, id: &String) -> (r: Option<TraceView>)
    requires
        entries@.len() == ids@.len(),
    ensures
        match r {
            Some(t) => trace_of(t, entries@, ids@) && t.trace_id@ == id@,
            None => time_ordered(entries@, trace_members(ids@, id@, ids@.len() as int)).len() < 2,
        },
{
    let m = ordered_members(entries, ids, id.as_str());
    if m.len() < 2 {
        return None;
    }
    let mut spans: Vec<TraceSpan> = Vec::new();
    let mut k: usize = 0;
    while k < m.len()
        invariant
            k <= m@.len(),
            m@ == time_ordered(entries@, trace_members(ids@, id@, ids@.len() as int)),
            forall|j: int| 0 <= j < m@.len() ==> m@[j] < entries@.len(),
            spans@.len() == k,
            forall|j: int| 0 <= j < k ==> span_of(#[trigger] spans@[j], entries@[m@[j] as int]),
        decreases m@.len() - k,
    {
        let s = span_from(&entries[m[k]]);
        spans.push(s);
        k += 1;
    }
    let n = spans.len();
    let d = spans[0].timestamp.millis_until(&spans[n - 1].timestamp);
    let total = if d < 0 {
        0
    } else {
        d
    };
    let t = TraceView { trace_id: id.clone(), spans, total_duration_ms: total };
    proof {
        assert(t.spans@ == spans@);
    }
    Some(t)
}


/// When the first span of `t` was logged.
pub open spec fn first_ts(t: TraceView) -> Timestamp {
    t.spans@[0].timestamp
}

/// Whether `a` is listed before `b`: it started later, or at the same
/// instant with a smaller ID.
pub open spec fn listed_before(a: TraceView, b: TraceView) -> bool {
    ts_before(first_ts(b), first_ts(a)) || (first_ts(a) == first_ts(b) && lex_lt(
        a.trace_id@,
        b.trace_id@,
    ))
}

/// Whether entry `i` has a trace ID shared by two entries or more.
pub open spec fn in_full_trace(ids: Seq<Option<String>>, i: int) -> bool {
    &&& ids[i] is Some
    &&& trace_members(ids, trace_id_at(ids, i)->0, ids.len() as int).len() >= 2
}

/// Whether `ts` are the traces built from `entries`, whose trace IDs are
/// `ids`: one per ID shared by two entries or more, each with its spans in
/// time order, the most recently started first (ties by ID).
pub open spec fn traces_of(ts: Seq<TraceView>, entries: Seq<LogEntry>, ids: Seq<Option<String>>) -> bool {
    &&& forall|a: int| 0 <= a < ts.len() ==> trace_of(#[trigger] ts[a], entries, ids)
    &&& forall|a: int, b: int| 0 <= a < b < ts.len() ==> listed_before(ts[a], ts[b])
    &&& forall|i: int|
        0 <= i < ids.len() && in_full_trace(ids, i) ==> exists|a: int|
            0 <= a < ts.len() && (#[trigger] ts[a]).trace_id@ == trace_id_at(ids, i)->0
}

proof fn lemma_listed_total(a: TraceView, b: TraceView)
    requires
        a.trace_id@ != b.trace_id@,
    ensures
        listed_before(a, b) || listed_before(b, a),
        !(listed_before(a, b) && listed_before(b, a)),
{
    lemma_lex_total(a.trace_id@, b.trace_id@);
    lemma_timestamp_eq(first_ts(a), first_ts(b));
}

proof fn lemma_listed_transitive(a: TraceView, b: TraceView, c: TraceView)
    requires
        listed_before(a, b),
        listed_before(b, c),
    ensures
        listed_before(a, c),
{
    lemma_timestamp_eq(first_ts(a), first_ts(b));
    lemma_timestamp_eq(first_ts(b), first_ts(c));
    lemma_timestamp_eq(first_ts(a), first_ts(c));
    if first_ts(a) == first_ts(b) && first_ts(b) == first_ts(c) {
        lemma_lex_transitive(a.trace_id@, b.trace_id@, c.trace_id@);
    }
}

/// Whether `a` is listed before `b`.
fn listed_before_exec(a: &TraceView, b: &TraceView) -> (r: bool)
    requires
        a.spans@.len() > 0,
        b.spans@.len() > 0,
    ensures
        r == listed_before(*a, *b),
{
    let ta = &a.spans[0].timestamp;
    let tb = &b.spans[0].timestamp;
    if tb.before(ta) {
        return true;
    }
    let same = !ta.before(tb);
    proof {
        lemma_timestamp_eq(*ta, *tb);
    }
    if same {
        let ia = chars_of(a.trace_id.as_str());
        let ib = chars_of(b.trace_id.as_str());
        lex_less(&ia, &ib)
    } else {
        false
    }
}

/// Whether an entry before position `i` has trace ID `id`.
fn seen_before(ids: &Vec<Option<String>>, i: usize, id: &String) -> (b: bool)
    requires
        i <= ids@.len(),
    ensures
        b == exists|j: int| 0 <= j < i && trace_id_at(ids@, j) == Some(id@),
{
    let mut j: usize = 0;
    while j < i
        invariant
            i <= ids@.len(),
            j <= i,
            forall|k: int| 0 <= k < j ==> trace_id_at(ids@, k) != Some(id@),
        decreases i - j,
    {
        let hit = match &ids[j] {
            Some(s) => str_eq(s.as_str(), id.as_str()),
            None => false,
        };
        if hit {
            proof {
                assert(trace_id_at(ids@, j as int) == Some(id@));
            }
            return true;
        }
        j += 1;
    }
    false
}

/// The traces built from `entries`, whose trace IDs are `ids`.
fn build_traces(entries: &Vec<LogEntry>, ids: &Vec<Option<String>>) -> (out: Vec<TraceView>)
    requires
        entries@.len() == ids@.len(),
    ensures
        traces_of(out@, entries@, ids@),
{
    let mut out: Vec<TraceView> = Vec::new();
    let mut i: usize = 0;
    while i < ids.len()
        invariant
            entries@.len() == ids@.len(),
            i <= ids@.len(),
            forall|a: int| 0 <= a < out@.len() ==> trace_of(#[trigger] out@[a], entries@, ids@),
            forall|a: int, b: int| 0 <= a < b < out@.len() ==> listed_before(out@[a], out@[b]),
            forall|j: int|
                0 <= j < i && in_full_trace(ids@, j) ==> exists|a: int|
                    0 <= a < out@.len() && (#[trigger] out@[a]).trace_id@ == trace_id_at(ids@, j)->0,
            forall|a: int|
                0 <= a < out@.len() ==> exists|j: int|
                    0 <= j < i && trace_id_at(ids@, j) == Some((#[trigger] out@[a]).trace_id@),
        decreases ids@.len() - i,
    {
        if let Some(id) = &ids[i] {
            proof {
                assert(trace_id_at(ids@, i as int) == Some(id@));
            }
            if seen_before(ids, i, id) {
                proof {
                    let j = choose|j: int| 0 <= j < i && trace_id_at(ids@, j) == Some(id@);
                    assert(in_full_trace(ids@, i as int) ==> in_full_trace(ids@, j));
                    assert forall|a: int|
                        0 <= a < out@.len() implies exists|j: int|
                            0 <= j < i + 1 && trace_id_at(ids@, j) == Some(
                                (#[trigger] out@[a]).trace_id@,
                            ) by {
                        let w = choose|j: int| 0 <= j < i && trace_id_at(ids@, j) == Some(out@[a].trace_id@);
                        assert(0 <= w < i + 1);
                    }
                }
            } else {
                proof {
                    lemma_time_ordered_len(entries@, trace_members(ids@, id@, ids@.len() as int));
                }
                match build_trace(entries, ids, id) {
                    None => {
                        proof {
                            assert(!in_full_trace(ids@, i as int));
                            assert forall|a: int|
                                0 <= a < out@.len() implies exists|j: int|
                                    0 <= j < i + 1 && trace_id_at(ids@, j) == Some(
                                        (#[trigger] out@[a]).trace_id@,
                                    ) by {
                                let w = choose|j: int| 0 <= j < i && trace_id_at(ids@, j) == Some(out@[a].trace_id@);
                                assert(0 <= w < i + 1);
                            }
                        }
                    },
                    Some(t) => {
                        proof {
                            assert forall|a: int| 0 <= a < out@.len() implies out@[a].trace_id@ != t.trace_id@ by {
                                let w = choose|j: int| 0 <= j < i && trace_id_at(ids@, j) == Some(out@[a].trace_id@);
                                if out@[a].trace_id@ == t.trace_id@ {
                                    assert(trace_id_at(ids@, w) == Some(id@));
                                }
                            }
                        }
                        let mut p: usize = 0;
                        while p < out.len() && listed_before_exec(&out[p], &t)
                            invariant
                                p <= out@.len(),
                                t.spans@.len() >= 2,
                                forall|a: int| 0 <= a < out@.len() ==> trace_of(#[trigger] out@[a], entries@, ids@),
                                forall|a: int| 0 <= a < p ==> listed_before(#[trigger] out@[a], t),
                            decreases out@.len() - p,
                        {
                            p += 1;
                        }
                        let ghost old_out = out@;
                        proof {
                            if p < old_out.len() {
                                lemma_listed_total(old_out[p as int], t);
                                assert(listed_before(t, old_out[p as int]));
                            }
                            assert forall|b: int| p <= b < old_out.len() implies listed_before(t, old_out[b]) by {
                                if b > p {
                                    lemma_listed_transitive(t, old_out[p as int], old_out[b]);
                                }
                            }
                        }
                        let ghost tv = t;
                        out.insert(p, t);
                        proof {
                            assert forall|a: int| 0 <= a < out@.len() implies trace_of(#[trigger] out@[a], entries@, ids@) by {
                                if a < p {
                                    assert(out@[a] == old_out[a]);
                                } else if a > p {
                                    assert(out@[a] == old_out[a - 1]);
                                }
                            }
                            assert forall|a: int, b: int| 0 <= a < b < out@.len() implies listed_before(out@[a], out@[b]) by {
                                if b < p {
                                    assert(out@[a] == old_out[a] && out@[b] == old_out[b]);
                                } else if b == p {
                                    assert(out@[a] == old_out[a]);
                                } else if a < p {
                                    assert(out@[a] == old_out[a] && out@[b] == old_out[b - 1]);
                                    lemma_listed_transitive(old_out[a], tv, old_out[b - 1]);
                                } else if a == p {
                                    assert(out@[b] == old_out[b - 1]);
                                } else {
                                    assert(out@[a] == old_out[a - 1] && out@[b] == old_out[b - 1]);
                                }
                            }
                            assert forall|j: int|
                                0 <= j < i + 1 && in_full_trace(ids@, j) implies exists|a: int|
                                    0 <= a < out@.len() && (#[trigger] out@[a]).trace_id@ == trace_id_at(ids@, j)->0 by {
                                if j == i {
                                    assert(out@[p as int].trace_id@ == trace_id_at(ids@, j)->0);
                                } else {
                                    let a = choose|a: int| 0 <= a < old_out.len() && (#[trigger] old_out[a]).trace_id@ == trace_id_at(ids@, j)->0;
                                    if a < p {
                                        assert(out@[a] == old_out[a]);
                                    } else {
                                        assert(out@[a + 1] == old_out[a]);
                                    }
                                }
                            }
                            assert forall|a: int|
                                0 <= a < out@.len() implies exists|j: int|
                                    0 <= j < i + 1 && trace_id_at(ids@, j) == Some(
                                        (#[trigger] out@[a]).trace_id@,
                                    ) by {
                                if a == p {
                                    assert(trace_id_at(ids@, i as int) == Some(out@[a].trace_id@));
                                } else {
                                    let b = if a < p { a } else { a - 1 };
                                    assert(out@[a] == old_out[b]);
                                    let w = choose|j: int| 0 <= j < i && trace_id_at(ids@, j) == Some(old_out[b].trace_id@);
                                    assert(0 <= w < i + 1);
                                }
                            }
                        }
                    },
                }
            }
        } else {
            proof {
                assert(!in_full_trace(ids@, i as int));
                assert forall|a: int|
                    0 <= a < out@.len() implies exists|j: int|
                        0 <= j < i + 1 && trace_id_at(ids@, j) == Some(
                            (#[trigger] out@[a]).trace_id@,
                        ) by {
                    let w = choose|j: int| 0 <= j < i && trace_id_at(ids@, j) == Some(out@[a].trace_id@);
                    assert(0 <= w < i + 1);
                }
            }
        }
        i += 1;
    }
    out
}


/// The trace waterfall overlay: the traces found in the log buffer, the
/// selected one, and how far its spans are scrolled.
#[derive(Debug)]
pub struct TraceWaterfall {
    /// Whether the overlay is shown.
    pub visible: bool,
    /// Colors.
    pub theme: Theme,
    /// The traces, most recently started first.
    pub traces: Vec<TraceView>,
    /// Position of the selected trace.
    pub selected_trace: usize,
    /// Lines scrolled in the span list.
    pub scroll: u16,
}

impl TraceWaterfall {
    /// The selection is a trace, or 0 when there is none.
    pub open spec fn wf(&self) -> bool {
        if self.traces@.len() == 0 {
            self.selected_trace == 0
        } else {
            self.selected_trace < self.traces@.len()
        }
    }

    /// A hidden overlay with no traces.
    pub fn new(theme: Theme) -> (w: TraceWaterfall)
        ensures
            w.wf(),
            !w.visible,
            w.theme == theme,
            w.traces@.len() == 0,
            w.selected_trace == 0,
            w.scroll == 0,
    {
        TraceWaterfall { visible: false, theme, traces: Vec::new(), selected_trace: 0, scroll: 0 }
    }

    /// Whether the overlay is shown.
    pub fn is_visible(&self) -> (b: bool)
        ensures
            b == self.visible,
    {
        self.visible
    }

    /// Show or hide the overlay; showing it scrolls back to the top.
    pub fn toggle(&mut self)
        ensures
            *final(self) == (TraceWaterfall {
                visible: !old(self).visible,
                scroll: if !old(self).visible {
                    0
                } else {
                    old(self).scroll
                },
                ..*old(self)
            }),
    {
        self.visible = !self.visible;
        if self.visible {
            self.scroll = 0;
        }
    }

    /// Rebuild the traces from the log buffer, where `trace_ids[i]` is the
    /// trace ID detected in `entries[i]`; selects the first trace.
    pub fn build_from_entries(&mut self, entries: &Vec<LogEntry>, trace_ids: &Vec<Option<String>>)
        requires
            entries@.len() == trace_ids@.len(),
        ensures
            final(self).wf(),
            traces_of(final(self).traces@, entries@, trace_ids@),
            final(self).selected_trace == 0,
            final(self).scroll == 0,
            final(self).visible == old(self).visible,
            final(self).theme == old(self).theme,
    {
        self.traces = build_traces(entries, trace_ids);
        self.selected_trace = 0;
        self.scroll = 0;
    }

    /// Handle a key while shown (a hidden overlay does not handle keys):
    /// Esc hides it; `j`/Down and `k`/Up scroll the spans by one line; Tab
    /// and Shift+Tab select the next and previous trace, wrapping around,
    /// and scroll back to the top.
    pub fn handle_key(&mut self, key: KeyPress) -> (r: Option<Action>)
        requires
            old(self).wf(),
        ensures
            final(self).wf(),
            ({
                let b = *old(self);
                let a = *final(self);
                let c = key.code;
                let n = b.traces@.len();
                if !b.visible {
                    a == b && r is None
                } else if c == Key::Esc {
                    a == (TraceWaterfall { visible: false, ..b }) && r == Some(Action::Noop)
                } else if c == Key::Char('j') || c == Key::Down {
                    a == (TraceWaterfall {
                        scroll: if b.scroll < u16::MAX {
                            (b.scroll + 1) as u16
                        } else {
                            b.scroll
                        },
                        ..b
                    }) && r == Some(Action::Noop)
                } else if c == Key::Char('k') || c == Key::Up {
                    a == (TraceWaterfall {
                        scroll: if b.scroll > 0 {
                            (b.scroll - 1) as u16
                        } else {
                            0
                        },
                        ..b
                    }) && r == Some(Action::Noop)
                } else if c == Key::Tab {
                    r == Some(Action::Noop) && if n == 0 {
                        a == b
                    } else {
                        a == (TraceWaterfall {
                            selected_trace: ((b.selected_trace + 1) % (n as int)) as usize,
                            scroll: 0,
                            ..b
                        })
                    }
                } else if c == Key::BackTab {
                    r == Some(Action::Noop) && if n == 0 {
                        a == b
                    } else {
                        a == (TraceWaterfall {
                            selected_trace: if b.selected_trace == 0 {
                                (n - 1) as usize
                            } else {
                                (b.selected_trace - 1) as usize
                            },
                            scroll: 0,
                            ..b
                        })
                    }
                } else {
                    a == b && r == Some(Action::Noop)
                }
            }),
    {
        if !self.visible {
            return None;
        }
        let c = key.code;
        if c == Key::Esc {
            self.visible = false;
        } else if c == Key::Char('j') || c == Key::Down {
            if self.scroll < u16::MAX {
                self.scroll = self.scroll + 1;
            }
        } else if c == Key::Char('k') || c == Key::Up {
            if self.scroll > 0 {
                self.scroll = self.scroll - 1;
            }
        } else if c == Key::Tab {
            if self.traces.len() > 0 {
                self.selected_trace = (self.selected_trace + 1) % self.traces.len();
                self.scroll = 0;
            }
        } else if c == Key::BackTab {
            if self.traces.len() > 0 {
                self.selected_trace = if self.selected_trace == 0 {
                    self.traces.len() - 1
                } else {
                    self.selected_trace - 1
                };
                self.scroll = 0;
            }
        }
        Some(Action::Noop)
    }
}

} // verus!
