//! The statistics overlay: entries per level and the busiest sources of
//! the log buffer.

use vstd::prelude::*;
use crate::action::Action;
use crate::keymap::{Key, KeyPress};
use crate::log_entry::{LogEntry, label_value, find_label};
use crate::text::{chars_of, lowercase, str_eq, to_lowercase, lex_lt, lex_less, lemma_lex_total, lemma_lex_transitive};
use crate::theme::Theme;

verus! {

/// Whether `a` comes strictly before `b` in a count table: higher count
/// first, then by name.
pub open spec fn ranks_before(a: (Seq<char>, usize), b: (Seq<char>, usize)) -> bool {
    a.1 > b.1 || (a.1 == b.1 && lex_lt(a.0, b.0))
}

/// How many times `k` occurs in `keys`.
pub open spec fn occurrences(keys: Seq<Seq<char>>, k: Seq<char>) -> nat
    decreases keys.len(),
{
    if keys.len() == 0 {
        0
    } else {
        occurrences(keys.drop_last(), k) + if keys.last() == k { 1nat } else { 0nat }
    }
}

/// Whether `t` counts the keys of `keys`: one row per distinct key with its
/// number of occurrences.
pub open spec fn counts_keys(t: Seq<(Seq<char>, usize)>, keys: Seq<Seq<char>>) -> bool {
    &&& forall|a: int, b: int| 0 <= a < t.len() && 0 <= b < t.len() && a != b ==> t[a].0 != t[b].0
    &&& forall|a: int| 0 <= a < t.len() ==> #[trigger] t[a].1 == occurrences(keys, t[a].0) && t[a].1 > 0
    &&& forall|i: int| 0 <= i < keys.len() ==> has_row(t, #[trigger] keys[i])
}

/// Whether some row of `t` is for `k`.
pub open spec fn has_row(t: Seq<(Seq<char>, usize)>, k: Seq<char>) -> bool {
    exists|a: int| 0 <= a < t.len() && #[trigger] t[a].0 == k
}

/// Whether `t` is ordered by count, highest first, then by name.
pub open spec fn ranked(t: Seq<(Seq<char>, usize)>) -> bool {
    forall|a: int, b: int| 0 <= a < b < t.len() ==> ranks_before(t[a], t[b])
}

/// The level of an entry: its `level`, `severity` or `lvl` label, else
/// `unknown`.
pub open spec fn level_of(labels: Seq<(String, String)>) -> Seq<char> {
    match label_value(labels, "level"@) {
        Some(v) => v,
        None => match label_value(labels, "severity"@) {
            Some(v) => v,
            None => match label_value(labels, "lvl"@) {
                Some(v) => v,
                None => "unknown"@,
            },
        },
    }
}

/// The first label value whose name is not a level name.
pub open spec fn first_non_level(labels: Seq<(String, String)>) -> Option<Seq<char>>
    decreases labels.len(),
{
    if labels.len() == 0 {
        None
    } else {
        let k = labels[0].0@;
        if k != "level"@ && k != "severity"@ && k != "lvl"@ {
            Some(labels[0].1@)
        } else {
            first_non_level(labels.drop_first())
        }
    }
}

/// The source of an entry: its `service`, `app`, `job`, `container` or
/// `source` label, else its first label that is not a level, else
/// `unknown`.
pub open spec fn source_of(labels: Seq<(String, String)>) -> Seq<char> {
    match label_value(labels, "service"@) {
        Some(v) => v,
        None => match label_value(labels, "app"@) {
            Some(v) => v,
            None => match label_value(labels, "job"@) {
                Some(v) => v,
                None => match label_value(labels, "container"@) {
                    Some(v) => v,
                    None => match label_value(labels, "source"@) {
                        Some(v) => v,
                        None => match first_non_level(labels) {
                            Some(v) => v,
                            None => "unknown"@,
                        },
                    },
                },
            },
        },
    }
}

/// The lowercased levels of the entries.
pub open spec fn level_keys(entries: Seq<LogEntry>) -> Seq<Seq<char>> {
    Seq::new(entries.len(), |i: int| lowercase(level_of(entries[i].labels@)))
}

/// The sources of the entries.
pub open spec fn source_keys(entries: Seq<LogEntry>) -> Seq<Seq<char>> {
    Seq::new(entries.len(), |i: int| source_of(entries[i].labels@))
}

/// Whether a (lowercased) level is an error level.
pub open spec fn is_error_key(k: Seq<char>) -> bool {
    k == "error"@ || k == "err"@ || k == "fatal"@ || k == "critical"@
}

/// The level key of an entry comes from its labels, lowercased: its
/// `level` label; without one its `severity` label; without either its
/// `lvl` label; and with none of the three `unknown`. Each such key has a
/// row in the per-level table.
pub proof fn law_stats_level_labels(entries: Seq<LogEntry>, s: LogStats)
    requires
        stats_of(s, entries),
    ensures
        forall|i: int|
            0 <= i < entries.len() && label_value(entries[i].labels@, "level"@) is Some ==> {
                let v = label_value(entries[i].labels@, "level"@)->0;
                &&& #[trigger] level_keys(entries)[i] == lowercase(v)
                &&& has_row(table_view(s.by_level@), lowercase(v))
            },
        forall|i: int|
            0 <= i < entries.len() && label_value(entries[i].labels@, "level"@) is None && label_value(
                entries[i].labels@,
                "severity"@,
            ) is Some ==> {
                let v = label_value(entries[i].labels@, "severity"@)->0;
                &&& #[trigger] level_keys(entries)[i] == lowercase(v)
                &&& has_row(table_view(s.by_level@), lowercase(v))
            },
        forall|i: int|
            0 <= i < entries.len() && label_value(entries[i].labels@, "level"@) is None && label_value(
                entries[i].labels@,
                "severity"@,
            ) is None && label_value(entries[i].labels@, "lvl"@) is Some ==> {
                let v = label_value(entries[i].labels@, "lvl"@)->0;
                &&& #[trigger] level_keys(entries)[i] == lowercase(v)
                &&& has_row(table_view(s.by_level@), lowercase(v))
            },
        forall|i: int|
            0 <= i < entries.len() && label_value(entries[i].labels@, "level"@) is None && label_value(
                entries[i].labels@,
                "severity"@,
            ) is None && label_value(entries[i].labels@, "lvl"@) is None ==> #[trigger] level_keys(entries)[i]
                == lowercase("unknown"@) && has_row(table_view(s.by_level@), lowercase("unknown"@)),
{
    assert forall|i: int| 0 <= i < entries.len() implies has_row(
        table_view(s.by_level@),
        #[trigger] level_keys(entries)[i],
    ) by {
        assert(has_row(table_view(s.by_level@), level_keys(entries)[i]));
    }
}

/// When every entry carries only an `lvl` label among the level labels,
/// the error count is the number of entries whose `lvl` value, lowercased,
/// is `error`, `err`, `fatal` or `critical`.
pub proof fn law_stats_errors_from_lvl(entries: Seq<LogEntry>, s: LogStats)
    requires
        stats_of(s, entries),
        forall|i: int|
            0 <= i < entries.len() ==> label_value(#[trigger] entries[i].labels@, "level"@) is None
                && label_value(entries[i].labels@, "severity"@) is None && label_value(
                entries[i].labels@,
                "lvl"@,
            ) is Some,
    ensures
        s.error_count == error_count_of(
            Seq::new(entries.len(), |i: int| lowercase(label_value(entries[i].labels@, "lvl"@)->0)),
        ),
{
    let ks = Seq::new(entries.len(), |i: int| lowercase(label_value(entries[i].labels@, "lvl"@)->0));
    assert(level_keys(entries) =~= ks);
    lemma_error_count_of(ks);
}

/// The error count is the number of entries whose level key (see
/// [`law_stats_level_labels`]) is `error`, `err`, `fatal` or `critical`.
pub proof fn law_stats_error_count(entries: Seq<LogEntry>, s: LogStats)
    requires
        stats_of(s, entries),
    ensures
        s.error_count == error_count_of(level_keys(entries)),
{
    lemma_error_count_of(level_keys(entries));
}

/// How many of `keys` are `error`, `err`, `fatal` or `critical`.
pub open spec fn error_count_of(keys: Seq<Seq<char>>) -> nat
    decreases keys.len(),
{
    if keys.len() == 0 {
        0
    } else {
        let k = keys.last();
        error_count_of(keys.drop_last()) + if k == "error"@ || k == "err"@ || k == "fatal"@ || k
            == "critical"@ {
            1nat
        } else {
            0nat
        }
    }
}

proof fn lemma_error_count_of(keys: Seq<Seq<char>>)
    ensures
        error_entries(keys) == error_count_of(keys),
    decreases keys.len(),
{
    if keys.len() > 0 {
        lemma_error_count_of(keys.drop_last());
    }
}

/// The statistics of a set of entries.
#[derive(Debug)]
pub struct LogStats {
    /// Number of entries.
    pub total: usize,
    /// Entries per lowercased level, most frequent first.
    pub by_level: Vec<(String, usize)>,
    /// The five most frequent sources with their entry counts.
    pub top_sources: Vec<(String, usize)>,
    /// Entries at an error level (error, err, fatal, critical).
    pub error_count: usize,
}

/// The characters and counts of a table.
pub open spec fn table_view(t: Seq<(String, usize)>) -> Seq<(Seq<char>, usize)> {
    Seq::new(t.len(), |i: int| (t[i].0@, t[i].1))
}

/// Whether `s` are the statistics of `entries`.
pub open spec fn stats_of(s: LogStats, entries: Seq<LogEntry>) -> bool {
    &&& s.total == entries.len()
    &&& counts_keys(table_view(s.by_level@), level_keys(entries))
    &&& ranked(table_view(s.by_level@))
    &&& exists|full: Seq<(Seq<char>, usize)>|
        #![trigger counts_keys(full, source_keys(entries))]
        counts_keys(full, source_keys(entries)) && ranked(full) && table_view(s.top_sources@) == full.take(
            if full.len() < 5 { full.len() as int } else { 5 },
        )
    &&& s.error_count == error_entries(level_keys(entries))
}

/// How many of `keys` are error levels.
pub open spec fn error_entries(keys: Seq<Seq<char>>) -> nat
    decreases keys.len(),
{
    if keys.len() == 0 {
        0
    } else {
        error_entries(keys.drop_last()) + if is_error_key(keys.last()) { 1nat } else { 0nat }
    }
}

/// Occurrences never exceed the length.
pub proof fn lemma_occurrences_le(keys: Seq<Seq<char>>, k: Seq<char>)
    ensures
        occurrences(keys, k) <= keys.len(),
    decreases keys.len(),
{
    if keys.len() > 0 {
        lemma_occurrences_le(keys.drop_last(), k);
    }
}

/// Whether row `a` ranks before row `b`.
fn ranks_before_exec(a: &(String, usize), b: &(String, usize)) -> (r: bool)
    ensures
        r == ranks_before((a.0@, a.1), (b.0@, b.1)),
{
    if a.1 != b.1 {
        a.1 > b.1
    } else {
        lex_less(&chars_of(a.0.as_str()), &chars_of(b.0.as_str()))
    }
}

/// The rows of a table counting `keys`.
pub fn count_keys(keys: &Vec<String>) -> (t: Vec<(String, usize)>)
    ensures
        counts_keys(table_view(t@), crate::text::string_views(keys@)),
{
    let ghost kv = crate::text::string_views(keys@);
    let mut t: Vec<(String, usize)> = Vec::new();
    let mut i: usize = 0;
    while i < keys.len()
        invariant
            i <= keys@.len(),
            kv == crate::text::string_views(keys@),
            t@.len() <= i,
            counts_keys(table_view(t@), kv.take(i as int)),
        decreases keys@.len() - i,
    {
        let ghost tv = table_view(t@);
        let ghost pre = kv.take(i as int);
        let ghost next = kv.take(i + 1);
        assert(next.drop_last() == pre);
        assert(next.last() == keys@[i as int]@);
        let mut a: usize = 0;
        while a < t.len()
            invariant
                a <= t@.len(),
                i < keys@.len(),
                tv == table_view(t@),
                forall|b: int| 0 <= b < a ==> tv[b].0 != keys@[i as int]@,
            ensures
                a <= t@.len(),
                forall|b: int| 0 <= b < a ==> tv[b].0 != keys@[i as int]@,
                a < t@.len() ==> tv[a as int].0 == keys@[i as int]@,
            decreases t@.len() - a,
        {
            assert(tv[a as int].0 == t@[a as int].0@);
            if str_eq(t[a].0.as_str(), keys[i].as_str()) {
                break;
            }
            a += 1;
        }
        if a < t.len() {
            let c = t[a].1;
            proof {
                lemma_occurrences_le(pre, tv[a as int].0);
                assert(tv[a as int].1 == occurrences(pre, tv[a as int].0));
                assert(c == tv[a as int].1);
            }
            let name = t[a].0.clone();
            t.set(a, (name, c + 1));
            proof {
                let nt = table_view(t@);
                assert forall|x: int| 0 <= x < nt.len() implies #[trigger] nt[x].1 == occurrences(next, nt[x].0) && nt[x].1 > 0 by {
                    assert(tv[x].1 == occurrences(pre, tv[x].0));
                    if x != a {
                        assert(nt[x] == tv[x]);
                    }
                }
                assert forall|x: int, y: int| 0 <= x < nt.len() && 0 <= y < nt.len() && x != y implies nt[x].0 != nt[y].0 by {
                    assert(nt[x].0 == tv[x].0);
                    assert(nt[y].0 == tv[y].0);
                }
                assert forall|j: int| 0 <= j < next.len() implies has_row(nt, #[trigger] next[j]) by {
                    if j < i {
                        assert(next[j] == pre[j]);
                        assert(has_row(tv, pre[j]));
                        let x = choose|x: int| 0 <= x < tv.len() && #[trigger] tv[x].0 == pre[j];
                        assert(nt[x].0 == tv[x].0);
                    } else {
                        assert(nt[a as int].0 == next[j]);
                    }
                }
            }
        } else {
            t.push((keys[i].clone(), 1));
            proof {
                let nt = table_view(t@);
                let n0 = tv.len() as int;
                assert(nt[n0].0 == keys@[i as int]@);
                assert forall|x: int| 0 <= x < nt.len() implies #[trigger] nt[x].1 == occurrences(next, nt[x].0) && nt[x].1 > 0 by {
                    if x < n0 {
                        assert(nt[x] == tv[x]);
                        assert(tv[x].1 == occurrences(pre, tv[x].0));
                    } else {
                        assert(occurrences(pre, nt[x].0) == 0) by {
                            lemma_absent_occurrences(pre, nt[x].0, tv);
                        }
                    }
                }
                assert forall|x: int, y: int| 0 <= x < nt.len() && 0 <= y < nt.len() && x != y implies nt[x].0 != nt[y].0 by {
                    if x < n0 {
                        assert(nt[x] == tv[x]);
                    }
                    if y < n0 {
                        assert(nt[y] == tv[y]);
                    }
                }
                assert forall|j: int| 0 <= j < next.len() implies has_row(nt, #[trigger] next[j]) by {
                    if j < i {
                        assert(next[j] == pre[j]);
                        assert(has_row(tv, pre[j]));
                        let x = choose|x: int| 0 <= x < tv.len() && #[trigger] tv[x].0 == pre[j];
                        assert(nt[x] == tv[x]);
                    } else {
                        assert(nt[n0].0 == next[j]);
                    }
                }
            }
        }
        i += 1;
    }
    assert(kv.take(keys@.len() as int) == kv);
    t
}

/// A key no row of a table counting `keys` has does not occur in `keys`.
proof fn lemma_absent_occurrences(keys: Seq<Seq<char>>, k: Seq<char>, t: Seq<(Seq<char>, usize)>)
    requires
        counts_keys(t, keys),
        forall|x: int| 0 <= x < t.len() ==> t[x].0 != k,
    ensures
        occurrences(keys, k) == 0,
    decreases keys.len(),
{
    if keys.len() > 0 {
        let j = keys.len() - 1;
        assert(has_row(t, keys[j]));
        assert(keys.last() != k);
        lemma_prefix_counted(keys, t, k);
    }
}

/// Occurrences in the prefix without the last key.
proof fn lemma_prefix_counted(keys: Seq<Seq<char>>, t: Seq<(Seq<char>, usize)>, k: Seq<char>)
    requires
        keys.len() > 0,
        counts_keys(t, keys),
        forall|x: int| 0 <= x < t.len() ==> t[x].0 != k,
    ensures
        occurrences(keys.drop_last(), k) == 0,
    decreases keys.len(),
{
    let p = keys.drop_last();
    if p.len() > 0 {
        assert forall|i: int| 0 <= i < p.len() implies p[i] != k by {
            assert(p[i] == keys[i]);
            assert(has_row(t, keys[i]));
        }
        lemma_no_occurrence(p, k);
    }
}

/// A key that is none of the keys does not occur.
proof fn lemma_no_occurrence(keys: Seq<Seq<char>>, k: Seq<char>)
    requires
        forall|i: int| 0 <= i < keys.len() ==> keys[i] != k,
    ensures
        occurrences(keys, k) == 0,
    decreases keys.len(),
{
    if keys.len() > 0 {
        lemma_no_occurrence(keys.drop_last(), k);
    }
}

/// Whether `perm` maps the rows of `out` one-to-one onto those of `orig`.
pub open spec fn rows_permuted(out: Seq<(Seq<char>, usize)>, orig: Seq<(Seq<char>, usize)>, perm: Seq<int>) -> bool {
    &&& out.len() == orig.len()
    &&& perm.len() == out.len()
    &&& forall|j: int| 0 <= j < out.len() ==> 0 <= #[trigger] perm[j] < orig.len() && out[j] == orig[perm[j]]
    &&& forall|a: int, b: int| 0 <= a < perm.len() && 0 <= b < perm.len() && a != b ==> perm[a] != perm[b]
    &&& forall|x: int| 0 <= x < orig.len() ==> #[trigger] crate::components::log_viewer::covered(perm, x)
}

/// The rows reordered by rank, with the permutation relating the orders.
fn rank_rows(rows: Vec<(String, usize)>) -> (r: (Vec<(String, usize)>, Ghost<Seq<int>>))
    requires
        forall|a: int, b: int| 0 <= a < rows@.len() && 0 <= b < rows@.len() && a != b ==> rows@[a].0@ != rows@[b].0@,
    ensures
        rows_permuted(table_view(r.0@), table_view(rows@), r.1@),
        ranked(table_view(r.0@)),
{
    let ghost orig = table_view(rows@);
    let mut rest = rows;
    let mut out: Vec<(String, usize)> = Vec::new();
    let ghost mut perm: Seq<int> = Seq::empty();
    while rest.len() > 0
        invariant
            table_view(rest@) == orig.take(rest@.len() as int),
            rest@.len() <= orig.len(),
            out@.len() + rest@.len() == orig.len(),
            perm.len() == out@.len(),
            forall|a: int, b: int| 0 <= a < orig.len() && 0 <= b < orig.len() && a != b ==> orig[a].0 != orig[b].0,
            forall|j: int|
                0 <= j < out@.len() ==> rest@.len() <= #[trigger] perm[j] < orig.len() && table_view(out@)[j]
                    == orig[perm[j]],
            forall|a: int, b: int| 0 <= a < perm.len() && 0 <= b < perm.len() && a != b ==> perm[a] != perm[b],
            forall|x: int| rest@.len() <= x < orig.len() ==> #[trigger] crate::components::log_viewer::covered(perm, x),
            ranked(table_view(out@)),
        decreases rest@.len(),
    {
        let ghost before_rest = table_view(rest@);
        let g = match rest.pop() {
            Some(g) => g,
            None => {
                return (out, Ghost(perm));
            },
        };
        let ghost idx = rest@.len() as int;
        let ghost gv = (g.0@, g.1);
        assert(gv == orig[idx]) by {
            assert(before_rest[idx] == orig[idx]);
        }
        assert(table_view(rest@) =~= orig.take(idx));
        let ghost ov = table_view(out@);
        let mut p: usize = 0;
        while p < out.len()
            invariant
                p <= out@.len(),
                ov == table_view(out@),
                gv == (g.0@, g.1),
                forall|k: int| 0 <= k < p ==> !ranks_before(gv, #[trigger] ov[k]),
            ensures
                p <= out@.len(),
                forall|k: int| 0 <= k < p ==> !ranks_before(gv, #[trigger] ov[k]),
                p < out@.len() ==> ranks_before(gv, ov[p as int]),
            decreases out@.len() - p,
        {
            assert(ov[p as int] == (out@[p as int].0@, out@[p as int].1));
            if ranks_before_exec(&g, &out[p]) {
                break;
            }
            p += 1;
        }
        let ghost old_perm = perm;
        out.insert(p, g);
        proof {
            perm = old_perm.insert(p as int, idx);
            let nv = table_view(out@);
            assert(nv =~= ov.insert(p as int, gv));
            assert forall|j: int|
                0 <= j < out@.len() implies rest@.len() <= #[trigger] perm[j] < orig.len() && table_view(out@)[j]
                    == orig[perm[j]] by {
                if j < p {
                    assert(perm[j] == old_perm[j]);
                } else if j == p {
                } else {
                    assert(perm[j] == old_perm[j - 1]);
                }
            }
            assert forall|a: int, b: int| 0 <= a < perm.len() && 0 <= b < perm.len() && a != b implies perm[a] != perm[b] by {
                if a != p && b != p {
                    let a0 = if a < p { a } else { a - 1 };
                    let b0 = if b < p { b } else { b - 1 };
                    assert(perm[a] == old_perm[a0]);
                    assert(perm[b] == old_perm[b0]);
                } else if a == p {
                    let b0 = if b < p { b } else { b - 1 };
                    assert(perm[b] == old_perm[b0]);
                } else {
                    let a0 = if a < p { a } else { a - 1 };
                    assert(perm[a] == old_perm[a0]);
                }
            }
            assert forall|x: int| rest@.len() <= x < orig.len() implies #[trigger] crate::components::log_viewer::covered(perm, x) by {
                if x == idx {
                    assert(perm[p as int] == x);
                } else {
                    assert(crate::components::log_viewer::covered(old_perm, x));
                    let j0 = choose|j: int| 0 <= j < old_perm.len() && #[trigger] old_perm[j] == x;
                    if j0 < p {
                        assert(perm[j0] == x);
                    } else {
                        assert(perm[j0 + 1] == x);
                    }
                }
            }
            assert forall|a: int, b: int| 0 <= a < b < nv.len() implies ranks_before(nv[a], nv[b]) by {
                if b < p {
                } else if b == p {
                    let x = perm[a];
                    assert(ov[a] == orig[x]);
                    assert(x != idx);
                    assert(orig[x].0 != gv.0);
                    lemma_lex_total(ov[a].0, gv.0);
                    assert(!ranks_before(gv, ov[a]));
                } else if a < p {
                    assert(nv[b] == ov[b - 1]);
                } else if a == p {
                    assert(nv[b] == ov[b - 1]);
                    assert(ranks_before(gv, ov[p as int]));
                    if b - 1 > p {
                        assert(ranks_before(ov[p as int], ov[b - 1]));
                        if gv.1 == ov[p as int].1 && ov[p as int].1 == ov[b - 1].1 {
                            lemma_lex_transitive(gv.0, ov[p as int].0, ov[b - 1].0);
                        }
                    }
                } else {
                    assert(nv[a] == ov[a - 1]);
                    assert(nv[b] == ov[b - 1]);
                }
            }
        }
    }
    (out, Ghost(perm))
}

/// Reordering a count table keeps it a count table.
proof fn lemma_permuted_counts(out: Seq<(Seq<char>, usize)>, orig: Seq<(Seq<char>, usize)>, perm: Seq<int>, keys: Seq<Seq<char>>)
    requires
        counts_keys(orig, keys),
        rows_permuted(out, orig, perm),
    ensures
        counts_keys(out, keys),
{
    assert forall|a: int| 0 <= a < out.len() implies #[trigger] out[a].1 == occurrences(keys, out[a].0) && out[a].1 > 0 by {
        assert(out[a] == orig[perm[a]]);
    }
    assert forall|a: int, b: int| 0 <= a < out.len() && 0 <= b < out.len() && a != b implies out[a].0 != out[b].0 by {
        assert(out[a] == orig[perm[a]]);
        assert(out[b] == orig[perm[b]]);
    }
    assert forall|i: int| 0 <= i < keys.len() implies has_row(out, #[trigger] keys[i]) by {
        assert(has_row(orig, keys[i]));
        let x = choose|x: int| 0 <= x < orig.len() && #[trigger] orig[x].0 == keys[i];
        assert(crate::components::log_viewer::covered(perm, x));
        let j = choose|j: int| 0 <= j < perm.len() && #[trigger] perm[j] == x;
        assert(out[j] == orig[perm[j]]);
        assert(out[j].0 == keys[i]);
    }
}

/// The rows of a count table have distinct names.
proof fn lemma_distinct_rows(t: Seq<(String, usize)>, keys: Seq<Seq<char>>)
    requires
        counts_keys(table_view(t), keys),
    ensures
        forall|a: int, b: int| 0 <= a < t.len() && 0 <= b < t.len() && a != b ==> t[a].0@ != t[b].0@,
{
    assert forall|a: int, b: int| 0 <= a < t.len() && 0 <= b < t.len() && a != b implies t[a].0@ != t[b].0@ by {
        assert(table_view(t)[a].0 == t[a].0@);
        assert(table_view(t)[b].0 == t[b].0@);
    }
}

/// The level of an entry, lowercased.
fn entry_level(e: &LogEntry) -> (s: String)
    ensures
        s@ == lowercase(level_of(e.labels@)),
{
    let v = match find_label(&e.labels, "level") {
        Some(v) => v.as_str(),
        None => match find_label(&e.labels, "severity") {
            Some(v) => v.as_str(),
            None => match find_label(&e.labels, "lvl") {
                Some(v) => v.as_str(),
                None => "unknown",
            },
        },
    };
    to_lowercase(v)
}

/// The first label value of `labels` whose name is not a level name.
fn first_non_level_exec(labels: &Vec<(String, String)>) -> (r: Option<&String>)
    ensures
        match r {
            Some(v) => first_non_level(labels@) == Some(v@),
            None => first_non_level(labels@) is None,
        },
{
    let mut i: usize = 0;
    assert(labels@.skip(0) == labels@);
    while i < labels.len()
        invariant
            i <= labels@.len(),
            first_non_level(labels@) == first_non_level(labels@.skip(i as int)),
        decreases labels@.len() - i,
    {
        assert(labels@.skip(i as int).drop_first() == labels@.skip(i + 1));
        let k = labels[i].0.as_str();
        if !str_eq(k, "level") && !str_eq(k, "severity") && !str_eq(k, "lvl") {
            return Some(&labels[i].1);
        }
        i += 1;
    }
    None
}

/// The source of an entry.
fn entry_source(e: &LogEntry) -> (s: String)
    ensures
        s@ == source_of(e.labels@),
{
    let v = match find_label(&e.labels, "service") {
        Some(v) => v.as_str(),
        None => match find_label(&e.labels, "app") {
            Some(v) => v.as_str(),
            None => match find_label(&e.labels, "job") {
                Some(v) => v.as_str(),
                None => match find_label(&e.labels, "container") {
                    Some(v) => v.as_str(),
                    None => match find_label(&e.labels, "source") {
                        Some(v) => v.as_str(),
                        None => match first_non_level_exec(&e.labels) {
                            Some(v) => v.as_str(),
                            None => "unknown",
                        },
                    },
                },
            },
        },
    };
    v.to_string()
}

/// The statistics of `entries`: entries per level, the five busiest
/// sources, and the number of error entries.
pub fn compute_stats(entries: &Vec<LogEntry>) -> (s: LogStats)
    ensures
        stats_of(s, entries@),
{
    let n = entries.len();
    let mut levels: Vec<String> = Vec::new();
    let mut sources: Vec<String> = Vec::new();
    let mut errors: usize = 0;
    let mut i: usize = 0;
    while i < n
        invariant
            n == entries@.len(),
            i <= n,
            errors <= i,
            errors == error_entries(Seq::new(i as nat, |k: int| lowercase(level_of(entries@[k].labels@)))),
            levels@.len() == i,
            sources@.len() == i,
            forall|k: int| 0 <= k < i ==> #[trigger] levels@[k]@ == lowercase(level_of(entries@[k].labels@)),
            forall|k: int| 0 <= k < i ==> #[trigger] sources@[k]@ == source_of(entries@[k].labels@),
        decreases n - i,
    {
        let level = entry_level(&entries[i]);
        let ghost prev = Seq::new(i as nat, |k: int| lowercase(level_of(entries@[k].labels@)));
        let ghost next = Seq::new((i + 1) as nat, |k: int| lowercase(level_of(entries@[k].labels@)));
        assert(next.drop_last() =~= prev);
        let l = level.as_str();
        if str_eq(l, "error") || str_eq(l, "err") || str_eq(l, "fatal") || str_eq(l, "critical") {
            errors = errors + 1;
        }
        levels.push(level);
        sources.push(entry_source(&entries[i]));
        i += 1;
    }
    assert(crate::text::string_views(levels@) =~= level_keys(entries@));
    assert(crate::text::string_views(sources@) =~= source_keys(entries@));
    let level_table = count_keys(&levels);
    proof {
        lemma_distinct_rows(level_table@, crate::text::string_views(levels@));
    }
    let (by_level, Ghost(p1)) = rank_rows(level_table);
    proof {
        lemma_permuted_counts(table_view(by_level@), table_view(level_table@), p1, level_keys(entries@));
    }
    let source_table = count_keys(&sources);
    proof {
        lemma_distinct_rows(source_table@, crate::text::string_views(sources@));
    }
    let (ranked_sources, Ghost(p2)) = rank_rows(source_table);
    proof {
        lemma_permuted_counts(table_view(ranked_sources@), table_view(source_table@), p2, source_keys(entries@));
    }
    let ghost full = table_view(ranked_sources@);
    let mut top_sources = ranked_sources;
    top_sources.truncate(5);
    assert(table_view(top_sources@) =~= full.take(if full.len() < 5 { full.len() as int } else { 5 }));
    assert(Seq::new(n as nat, |k: int| lowercase(level_of(entries@[k].labels@))) =~= level_keys(entries@));
    LogStats { total: n, by_level, top_sources, error_count: errors }
}

/// The statistics of no entries.
pub open spec fn empty_stats(s: LogStats) -> bool {
    s.total == 0 && s.by_level@.len() == 0 && s.top_sources@.len() == 0 && s.error_count == 0
}

/// The overlay's state.
pub struct StatsPanel {
    /// Whether the overlay is shown.
    pub visible: bool,
    /// The statistics shown.
    pub stats: LogStats,
    /// The color theme.
    pub theme: Theme,
}

impl StatsPanel {
    /// A hidden overlay with empty statistics.
    pub fn new(theme: Theme) -> (p: StatsPanel)
        ensures
            !p.visible,
            empty_stats(p.stats),
            p.theme == theme,
    {
        StatsPanel {
            visible: false,
            stats: LogStats { total: 0, by_level: Vec::new(), top_sources: Vec::new(), error_count: 0 },
            theme,
        }
    }

    /// Show or hide the overlay.
    pub fn toggle(&mut self)
        ensures
            *final(self) == (StatsPanel { visible: !old(self).visible, ..*old(self) }),
    {
        self.visible = !self.visible;
    }

    /// Whether the overlay is shown.
    pub fn is_visible(&self) -> (b: bool)
        ensures
            b == self.visible,
    {
        self.visible
    }

    /// Recompute the statistics from `entries`.
    pub fn update_stats(&mut self, entries: &Vec<LogEntry>)
        ensures
            stats_of(final(self).stats, entries@),
            final(self).visible == old(self).visible,
            final(self).theme == old(self).theme,
    {
        self.stats = compute_stats(entries);
    }

    /// Handle a key while shown (a hidden overlay does not handle keys): Esc
    /// closes, other keys are swallowed.
    pub fn handle_key(&mut self, key: KeyPress) -> (r: Option<Action>)
        ensures
            !old(self).visible ==> *final(self) == *old(self) && r is None,
            old(self).visible ==> r == Some(Action::Noop) && *final(self) == (StatsPanel {
                visible: key.code != Key::Esc,
                ..*old(self)
            }),
    {
        if !self.visible {
            return None;
        }
        if key.code == Key::Esc {
            self.visible = false;
        }
        Some(Action::Noop)
    }
}

} // verus!
