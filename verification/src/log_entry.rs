//! Log entries as the viewer holds them: a UTC timestamp, a set of labels,
//! the log line, and the backend's raw record when it sent one.

use vstd::prelude::*;
use crate::text::{str_eq, chars_of, lex_lt, lex_less, lemma_lex_total, lemma_lex_transitive};

verus! {

/// The first second chrono can represent: the start of 1 January of the
/// year -262143.
pub open spec fn first_chrono_second() -> int {
    -8334601228800
}

/// The last second chrono can represent: the last second of 31 December
/// of the year 262142.
pub open spec fn last_chrono_second() -> int {
    8210266876799
}

/// Whether chrono accepts `secs` seconds and `nanos` nanoseconds since the
/// Unix epoch as a UTC date and time (`DateTime::<Utc>::from_timestamp`
/// returns `Some`): the day lies in chrono's range of years, the
/// nanoseconds stay under two seconds, and they reach a second only in a
/// leap second, which falls on the last second of a minute.
pub open spec fn chrono_accepts(secs: i64, nanos: u32) -> bool {
    &&& first_chrono_second() <= secs <= last_chrono_second()
    &&& nanos < 2_000_000_000
    &&& nanos >= 1_000_000_000 ==> secs % 60 == 59
}

/// The RFC 3339 text that chrono writes for the UTC date and time of `secs`
/// seconds and `nanos` nanoseconds since the Unix epoch.
pub uninterp spec fn rfc3339_text(secs: i64, nanos: u32) -> Seq<char>;

/// Asks chrono whether it can represent the given instant
/// (`chrono::DateTime::<Utc>::from_timestamp(secs, nanos).is_some()`): by
/// chrono's source, when the day falls between its first and last
/// representable years and `NaiveTime::from_num_seconds_from_midnight_opt`
/// takes the second of the day and the nanoseconds.
#[verifier::external_body]
fn chrono_timestamp_ok(secs: i64, nanos: u32) -> (b: bool)
    ensures
        b == chrono_accepts(secs, nanos),
{
    chrono::DateTime::from_timestamp(secs, nanos).is_some()
}

/// The RFC 3339 form of an instant chrono accepts
/// (`chrono::DateTime::<Utc>::from_timestamp(secs, nanos)` followed by
/// `to_rfc3339`). The contract names the text and says no more of it.
#[verifier::external_body]
fn chrono_rfc3339(secs: i64, nanos: u32) -> (s: String)
    requires
        chrono_accepts(secs, nanos),
    ensures
        s@ == rfc3339_text(secs, nanos),
{
    match chrono::DateTime::from_timestamp(secs, nanos) {
        Some(t) => t.to_rfc3339(),
        None => String::new(),
    }
}

/// The text chrono writes for the UTC date and time of `secs` seconds and
/// `nanos` nanoseconds since the Unix epoch with the pattern
/// `%Y-%m-%d %H:%M:%S%.3f` (the log viewer's time column).
pub uninterp spec fn log_time_text(secs: i64, nanos: u32) -> Seq<char>;

/// The log viewer's form of an instant chrono accepts
/// (`chrono::DateTime::<Utc>::from_timestamp(secs, nanos)` followed by
/// `format("%Y-%m-%d %H:%M:%S%.3f")`). The contract names the text and says
/// no more of it.
#[verifier::external_body]
fn chrono_log_time(secs: i64, nanos: u32) -> (s: String)
    requires
        chrono_accepts(secs, nanos),
    ensures
        s@ == log_time_text(secs, nanos),
{
    match chrono::DateTime::from_timestamp(secs, nanos) {
        Some(t) => t.format("%Y-%m-%d %H:%M:%S%.3f").to_string(),
        None => String::new(),
    }
}

/// Whole milliseconds from the first instant to the second, as chrono
/// counts them (`(to - from).num_milliseconds()` on `DateTime<Utc>`).
pub uninterp spec fn chrono_millis_between(from_secs: i64, from_nanos: u32, to_secs: i64, to_nanos: u32) -> i64;

/// Whole milliseconds from one instant chrono accepts to another
/// (`DateTime` subtraction, then `TimeDelta::num_milliseconds`). The
/// contract names the result; chrono's leap-second handling is not
/// restated.
#[verifier::external_body]
fn chrono_millis(from_secs: i64, from_nanos: u32, to_secs: i64, to_nanos: u32) -> (m: i64)
    requires
        chrono_accepts(from_secs, from_nanos),
        chrono_accepts(to_secs, to_nanos),
    ensures
        m == chrono_millis_between(from_secs, from_nanos, to_secs, to_nanos),
{
    match (
        chrono::DateTime::from_timestamp(from_secs, from_nanos),
        chrono::DateTime::from_timestamp(to_secs, to_nanos),
    ) {
        (Some(a), Some(b)) => (b - a).num_milliseconds(),
        _ => 0,
    }
}

/// Whole seconds from the first instant to the second, as chrono counts
/// them (`(to - from).num_seconds()` on `DateTime<Utc>`: truncated toward
/// zero).
pub uninterp spec fn chrono_seconds_between(from_secs: i64, from_nanos: u32, to_secs: i64, to_nanos: u32) -> i64;

/// Whole seconds from one instant chrono accepts to another (`DateTime`
/// subtraction, then `TimeDelta::num_seconds`). The contract names the
/// result; chrono's leap-second handling is not restated.
#[verifier::external_body]
fn chrono_seconds(from_secs: i64, from_nanos: u32, to_secs: i64, to_nanos: u32) -> (s: i64)
    requires
        chrono_accepts(from_secs, from_nanos),
        chrono_accepts(to_secs, to_nanos),
    ensures
        s == chrono_seconds_between(from_secs, from_nanos, to_secs, to_nanos),
{
    match (
        chrono::DateTime::from_timestamp(from_secs, from_nanos),
        chrono::DateTime::from_timestamp(to_secs, to_nanos),
    ) {
        (Some(a), Some(b)) => (b - a).num_seconds(),
        _ => 0,
    }
}

/// An instant in UTC: whole seconds since the Unix epoch and the nanoseconds
/// past that second (values of 10^9 and more mark a leap second).
#[derive(Debug, Clone, Copy, PartialEq, Eq, Structural)]
pub struct Timestamp {
    secs: i64,
    nanos: u32,
}

impl Timestamp {
    #[verifier::type_invariant]
    spec fn valid(self) -> bool {
        chrono_accepts(self.secs, self.nanos)
    }

    /// Whole seconds since the Unix epoch.
    pub closed spec fn spec_secs(self) -> i64 {
        self.secs
    }

    /// Nanoseconds past the second.
    pub closed spec fn spec_nanos(self) -> u32 {
        self.nanos
    }

    /// The instant `secs` seconds and `nanos` nanoseconds after the Unix
    /// epoch, when chrono can represent it.
    pub fn from_unix(secs: i64, nanos: u32) -> (r: Option<Timestamp>)
        ensures
            r is Some <==> chrono_accepts(secs, nanos),
            r matches Some(t) ==> t.spec_secs() == secs && t.spec_nanos() == nanos,
    {
        if chrono_timestamp_ok(secs, nanos) {
            Some(Timestamp { secs, nanos })
        } else {
            None
        }
    }

    /// Whole seconds since the Unix epoch.
    pub fn secs(&self) -> (s: i64)
        ensures
            s == self.spec_secs(),
    {
        self.secs
    }

    /// Nanoseconds past the second.
    pub fn nanos(&self) -> (n: u32)
        ensures
            n == self.spec_nanos(),
    {
        self.nanos
    }

    /// Whether this instant is strictly earlier than `other`.
    pub fn before(&self, other: &Timestamp) -> (b: bool)
        ensures
            b == ts_before(*self, *other),
    {
        self.secs < other.secs || (self.secs == other.secs && self.nanos < other.nanos)
    }

    /// Whole milliseconds from this instant to `later` (negative when
    /// `later` is earlier).
    pub fn millis_until(&self, later: &Timestamp) -> (m: i64)
        ensures
            m == chrono_millis_between(
                self.spec_secs(),
                self.spec_nanos(),
                later.spec_secs(),
                later.spec_nanos(),
            ),
    {
        proof {
            use_type_invariant(self);
            use_type_invariant(later);
        }
        chrono_millis(self.secs, self.nanos, later.secs, later.nanos)
    }

    /// Whole seconds from this instant to `later` (negative when `later` is
    /// earlier).
    pub fn seconds_until(&self, later: &Timestamp) -> (n: i64)
        ensures
            n == chrono_seconds_between(
                self.spec_secs(),
                self.spec_nanos(),
                later.spec_secs(),
                later.spec_nanos(),
            ),
    {
        proof {
            use_type_invariant(self);
            use_type_invariant(later);
        }
        chrono_seconds(self.secs, self.nanos, later.secs, later.nanos)
    }

    /// This instant as the log viewer's time column shows it (for example
    /// `2024-01-15 10:30:00.000`).
    pub fn log_time(&self) -> (s: String)
        ensures
            s@ == log_time_text(self.spec_secs(), self.spec_nanos()),
    {
        proof {
            use_type_invariant(self);
        }
        chrono_log_time(self.secs, self.nanos)
    }

    /// RFC 3339 text of this instant (for example `2024-01-15T10:30:00+00:00`).
    pub fn to_rfc3339(&self) -> (s: String)
        ensures
            s@ == rfc3339_text(self.spec_secs(), self.spec_nanos()),
    {
        proof {
            use_type_invariant(self);
        }
        chrono_rfc3339(self.secs, self.nanos)
    }
}

/// Instants with the same seconds and nanoseconds are the same instant.
pub proof fn lemma_timestamp_eq(a: Timestamp, b: Timestamp)
    ensures
        (a.spec_secs() == b.spec_secs() && a.spec_nanos() == b.spec_nanos()) <==> a == b,
{
}

/// Strict chronological order of instants.
pub open spec fn ts_before(a: Timestamp, b: Timestamp) -> bool {
    a.spec_secs() < b.spec_secs() || (a.spec_secs() == b.spec_secs() && a.spec_nanos()
        < b.spec_nanos())
}

/// The value of the first label named `key` in `labels`.
pub open spec fn label_value(labels: Seq<(String, String)>, key: Seq<char>) -> Option<Seq<char>>
    decreases labels.len(),
{
    if labels.len() == 0 {
        None
    } else if labels[0].0@ == key {
        Some(labels[0].1@)
    } else {
        label_value(labels.drop_first(), key)
    }
}

/// The label names are strictly ascending, so that no name occurs twice:
/// the order in which a `BTreeMap` keeps them.
pub open spec fn labels_ordered(labels: Seq<(String, String)>) -> bool {
    forall|i: int, j: int| 0 <= i < j < labels.len() ==> lex_lt(#[trigger] labels[i].0@, #[trigger] labels[j].0@)
}

/// The value that collecting `pairs` into a map gives `name`: that of its
/// last pair with that name.
pub open spec fn last_value(pairs: Seq<(String, String)>, name: Seq<char>) -> Option<Seq<char>>
    decreases pairs.len(),
{
    if pairs.len() == 0 {
        None
    } else if pairs.last().0@ == name {
        Some(pairs.last().1@)
    } else {
        last_value(pairs.drop_last(), name)
    }
}

/// A name no label has has no value.
proof fn lemma_label_absent(s: Seq<(String, String)>, n: Seq<char>)
    requires
        forall|i: int| 0 <= i < s.len() ==> (#[trigger] s[i]).0@ != n,
    ensures
        label_value(s, n) is None,
    decreases s.len(),
{
    if s.len() > 0 {
        assert(s[0].0@ != n);
        assert forall|i: int| 0 <= i < s.drop_first().len() implies (#[trigger] s.drop_first()[i]).0@ != n by {
            assert(s.drop_first()[i] == s[i + 1]);
        }
        lemma_label_absent(s.drop_first(), n);
    }
}

/// In ordered labels, the label of a name gives its value.
proof fn lemma_label_at(s: Seq<(String, String)>, n: Seq<char>, i: int)
    requires
        labels_ordered(s),
        0 <= i < s.len(),
        s[i].0@ == n,
    ensures
        label_value(s, n) == Some(s[i].1@),
    decreases i,
{
    if i > 0 {
        assert(lex_lt(s[0].0@, s[i].0@));
        lemma_lex_total(s[0].0@, s[0].0@);
        let t = s.drop_first();
        assert forall|a: int, b: int| 0 <= a < b < t.len() implies lex_lt(#[trigger] t[a].0@, #[trigger] t[b].0@) by {
            assert(t[a] == s[a + 1] && t[b] == s[b + 1]);
        }
        assert(t[i - 1] == s[i]);
        lemma_label_at(t, n, i - 1);
    }
}

/// In labels ordered by name, the value of a name is that of the one label
/// with that name, and there is none when no label has it.
pub proof fn law_ordered_labels_lookup(s: Seq<(String, String)>, n: Seq<char>)
    requires
        labels_ordered(s),
    ensures
        (forall|i: int| 0 <= i < s.len() ==> (#[trigger] s[i]).0@ != n) ==> label_value(s, n) is None,
        forall|i: int| 0 <= i < s.len() && (#[trigger] s[i]).0@ == n ==> label_value(s, n) == Some(s[i].1@),
{
    if forall|i: int| 0 <= i < s.len() ==> (#[trigger] s[i]).0@ != n {
        lemma_label_absent(s, n);
    }
    assert forall|i: int| 0 <= i < s.len() && (#[trigger] s[i]).0@ == n implies label_value(s, n) == Some(s[i].1@) by {
        lemma_label_at(s, n, i);
    }
}

/// The labels of `pairs` as a map keeps them: ordered by name, each name
/// once with the value of its last pair.
pub fn labels_from_pairs(pairs: Vec<(String, String)>) -> (r: Vec<(String, String)>)
    ensures
        labels_ordered(r@),
        forall|n: Seq<char>| #[trigger] label_value(r@, n) == last_value(pairs@, n),
{
    let mut out: Vec<(String, String)> = Vec::new();
    let mut k: usize = 0;
    proof {
        assert forall|n: Seq<char>| #[trigger] label_value(out@, n) == last_value(pairs@.take(0), n) by {
            assert(pairs@.take(0) =~= Seq::<(String, String)>::empty());
        }
    }
    while k < pairs.len()
        invariant
            k <= pairs@.len(),
            labels_ordered(out@),
            forall|n: Seq<char>| #[trigger] label_value(out@, n) == last_value(pairs@.take(k as int), n),
        decreases pairs@.len() - k,
    {
        let ghost old_out = out@;
        let key = pairs[k].0.clone();
        let val = pairs[k].1.clone();
        let kc = chars_of(key.as_str());
        let mut p: usize = 0;
        while p < out.len() && lex_less(&chars_of(out[p].0.as_str()), &kc)
            invariant
                p <= out@.len(),
                out@ == old_out,
                kc@ == key@,
                forall|q: int| 0 <= q < p ==> lex_lt(#[trigger] out@[q].0@, key@),
            decreases out@.len() - p,
        {
            p += 1;
        }
        proof {
            assert(pairs@.take(k + 1).drop_last() =~= pairs@.take(k as int));
            assert(pairs@.take(k + 1).last() == pairs@[k as int]);
            law_ordered_labels_lookup(old_out, key@);
        }
        if p < out.len() && str_eq(out[p].0.as_str(), key.as_str()) {
            out.set(p, (key, val));
            proof {
                let s = out@;
                assert forall|a: int, b: int| 0 <= a < b < s.len() implies lex_lt(#[trigger] s[a].0@, #[trigger] s[b].0@) by {
                    assert(s[a].0@ == old_out[a].0@ && s[b].0@ == old_out[b].0@);
                }
                assert forall|n: Seq<char>| #[trigger] label_value(out@, n) == last_value(pairs@.take(k + 1), n) by {
                    law_ordered_labels_lookup(out@, n);
                    law_ordered_labels_lookup(old_out, n);
                    if n == key@ {
                        assert(out@[p as int].0@ == n);
                    } else {
                        if exists|i: int| 0 <= i < old_out.len() && (#[trigger] old_out[i]).0@ == n {
                            let i = choose|i: int| 0 <= i < old_out.len() && (#[trigger] old_out[i]).0@ == n;
                            assert(out@[i] == old_out[i]);
                        } else {
                            assert forall|i: int| 0 <= i < out@.len() implies (#[trigger] out@[i]).0@ != n by {
                                if i != p {
                                    assert(out@[i] == old_out[i]);
                                }
                            }
                        }
                    }
                }
            }
        } else {
            proof {
                if p < old_out.len() {
                    lemma_lex_total(old_out[p as int].0@, key@);
                }
                assert forall|q: int| p <= q < old_out.len() implies lex_lt(key@, #[trigger] old_out[q].0@) by {
                    lemma_lex_total(old_out[p as int].0@, key@);
                    if q > p {
                        assert(lex_lt(old_out[p as int].0@, old_out[q].0@));
                        lemma_lex_transitive(key@, old_out[p as int].0@, old_out[q].0@);
                    }
                }
            }
            out.insert(p, (key, val));
            proof {
                let s = out@;
                assert(s == old_out.insert(p as int, (key, val)));
                assert forall|a: int, b: int| 0 <= a < b < s.len() implies lex_lt(#[trigger] s[a].0@, #[trigger] s[b].0@) by {
                    if b < p {
                        assert(s[a] == old_out[a] && s[b] == old_out[b]);
                    } else if b == p {
                        assert(s[a] == old_out[a]);
                    } else if a < p {
                        assert(s[a] == old_out[a] && s[b] == old_out[b - 1]);
                        lemma_lex_transitive(old_out[a].0@, key@, old_out[b - 1].0@);
                    } else if a == p {
                        assert(s[b] == old_out[b - 1]);
                    } else {
                        assert(s[a] == old_out[a - 1] && s[b] == old_out[b - 1]);
                    }
                }
                assert forall|n: Seq<char>| #[trigger] label_value(out@, n) == last_value(pairs@.take(k + 1), n) by {
                    law_ordered_labels_lookup(out@, n);
                    law_ordered_labels_lookup(old_out, n);
                    if n == key@ {
                        assert(s[p as int].0@ == n);
                    } else if exists|i: int| 0 <= i < old_out.len() && (#[trigger] old_out[i]).0@ == n {
                        let i = choose|i: int| 0 <= i < old_out.len() && (#[trigger] old_out[i]).0@ == n;
                        if i < p {
                            assert(s[i] == old_out[i]);
                        } else {
                            assert(s[i + 1] == old_out[i]);
                        }
                    } else {
                        assert forall|i: int| 0 <= i < s.len() implies (#[trigger] s[i]).0@ != n by {
                            if i < p {
                                assert(s[i] == old_out[i]);
                            } else if i > p {
                                assert(s[i] == old_out[i - 1]);
                            }
                        }
                    }
                }
            }
        }
        k += 1;
    }
    proof {
        assert(pairs@.take(pairs@.len() as int) =~= pairs@);
    }
    out
}

/// A single log entry.
#[derive(Debug)]
pub struct LogEntry {
    /// When the entry was logged.
    pub timestamp: Timestamp,
    /// Labels attached to the entry, ordered by name with no name twice
    /// (see [`labels_ordered`]); [`LogEntry::new`] builds them so.
    pub labels: Vec<(String, String)>,
    /// The log line.
    pub line: String,
    /// The backend's raw JSON record, when there is one.
    pub raw: Option<String>,
}

/// Copy of an optional string.
pub fn clone_opt_string(s: &Option<String>) -> (r: Option<String>)
    ensures
        r == *s,
{
    match s {
        Some(x) => Some(x.clone()),
        None => None,
    }
}

/// Copy of a list of string pairs.
pub fn clone_pairs(v: &Vec<(String, String)>) -> (r: Vec<(String, String)>)
    ensures
        r@ == v@,
{
    let mut r: Vec<(String, String)> = Vec::new();
    let mut i: usize = 0;
    while i < v.len()
        invariant
            i <= v.len(),
            r@ == v@.take(i as int),
        decreases v.len() - i,
    {
        let (a, b) = &v[i];
        r.push((a.clone(), b.clone()));
        assert(v@.take(i + 1) == v@.take(i as int).push(v@[i as int]));
        i += 1;
    }
    assert(v@.take(v@.len() as int) == v@);
    r
}

impl LogEntry {
    /// An entry whose labels are collected from `labels` as a map collects
    /// them: ordered by name, each name once with its last value.
    pub fn new(timestamp: Timestamp, labels: Vec<(String, String)>, line: String, raw: Option<String>) -> (r: LogEntry)
        ensures
            r.timestamp == timestamp,
            labels_ordered(r.labels@),
            forall|n: Seq<char>| #[trigger] label_value(r.labels@, n) == last_value(labels@, n),
            r.line == line,
            r.raw == raw,
    {
        LogEntry { timestamp, labels: labels_from_pairs(labels), line, raw }
    }

    /// A copy of this entry.
    pub fn duplicate(&self) -> (r: LogEntry)
        ensures
            r.timestamp == self.timestamp,
            r.labels@ == self.labels@,
            r.line == self.line,
            r.raw == self.raw,
    {
        LogEntry {
            timestamp: self.timestamp,
            labels: clone_pairs(&self.labels),
            line: self.line.clone(),
            raw: clone_opt_string(&self.raw),
        }
    }

    /// The value of the label named `key`.
    pub fn label(&self, key: &str) -> (r: Option<&String>)
        ensures
            match r {
                Some(v) => label_value(self.labels@, key@) == Some(v@),
                None => label_value(self.labels@, key@) is None,
            },
    {
        find_label(&self.labels, key)
    }
}

/// The value of the first pair of `labels` whose name is `key`.
pub fn find_label<'a>(labels: &'a Vec<(String, String)>, key: &str) -> (r: Option<&'a String>)
    ensures
        match r {
            Some(v) => label_value(labels@, key@) == Some(v@),
            None => label_value(labels@, key@) is None,
        },
{
    let mut i: usize = 0;
    assert(labels@.skip(0) == labels@);
    while i < labels.len()
        invariant
            i <= labels.len(),
            label_value(labels@, key@) == label_value(labels@.skip(i as int), key@),
        decreases labels.len() - i,
    {
        assert(labels@.skip(i as int).drop_first() == labels@.skip(i + 1));
        if str_eq(labels[i].0.as_str(), key) {
            return Some(&labels[i].1);
        }
        i += 1;
    }
    None
}

/// Copy of a list of entries.
pub fn clone_entries(v: &Vec<LogEntry>) -> (r: Vec<LogEntry>)
    ensures
        r.len() == v.len(),
        forall|i: int|
            0 <= i < v.len() ==> {
                &&& (#[trigger] r@[i]).timestamp == v@[i].timestamp
                &&& r@[i].labels@ == v@[i].labels@
                &&& r@[i].line == v@[i].line
                &&& r@[i].raw == v@[i].raw
            },
{
    let mut r: Vec<LogEntry> = Vec::new();
    let mut i: usize = 0;
    while i < v.len()
        invariant
            i <= v.len(),
            r.len() == i,
            forall|j: int|
                0 <= j < i ==> {
                    &&& (#[trigger] r@[j]).timestamp == v@[j].timestamp
                    &&& r@[j].labels@ == v@[j].labels@
                    &&& r@[j].line == v@[j].line
                    &&& r@[j].raw == v@[j].raw
                },
        decreases v.len() - i,
    {
        r.push(v[i].duplicate());
        i += 1;
    }
    r
}

} // verus!
