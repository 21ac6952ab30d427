//! The main log viewer: a scrollable window over the log buffer with tail
//! mode, search with match navigation, context lines, collapsible
//! multi-line groups, bookmarks and deduplication.

use vstd::prelude::*;
use crate::action::Action;
use crate::keymap::{Key, KeyPress, is_char};
use crate::log_entry::{LogEntry, Timestamp, ts_before, label_value, chrono_seconds_between};
use crate::pattern::{CompiledRegex, compile, is_match, replace_all, escape, regex_compiles,
    regex_is_match, regex_replaced, escaped, find_ranges, regex_find_ranges, ranges_in_text,
    match_ranges_ok};
use crate::components::regex_playground::segment_views;
use crate::components::nl_query::has_string;
use crate::components::trace_waterfall::opt_view;
use crate::text::{lex_lt, lex_less, lemma_lex_total, lemma_lex_transitive};
use crate::theme::{Style, Theme, level_color, level_is_fatal};
use crate::text::{str_eq, decimal, decimal_string, string_views, chars_of, string_from_range,
    byte_to_char_offset, char_at_byte, lemma_char_at_byte, lemma_byte_len_monotone, byte_len,
    is_char_offset, char_vec_views, lowercase, to_lowercase};

verus! {

/// Deduplication mode; cycles Off, Exact, Fuzzy, Off.
#[derive(Debug, Clone, Copy, PartialEq, Eq, Structural)]
pub enum DedupMode {
    /// No deduplication.
    Off,
    /// Entries with identical lines form one group.
    Exact,
    /// Entries whose lines agree once variable tokens (UUIDs, addresses,
    /// hex tokens, timestamps, durations, numbers) are replaced form one group.
    Fuzzy,
}

/// The mode after `m` in the cycle.
pub open spec fn next_mode(m: DedupMode) -> DedupMode {
    match m {
        DedupMode::Off => DedupMode::Exact,
        DedupMode::Exact => DedupMode::Fuzzy,
        DedupMode::Fuzzy => DedupMode::Off,
    }
}

/// The title label of a mode.
pub open spec fn mode_label(m: DedupMode) -> Seq<char> {
    match m {
        DedupMode::Off => ""@,
        DedupMode::Exact => "DEDUP:EXACT"@,
        DedupMode::Fuzzy => "DEDUP:FUZZY"@,
    }
}

impl DedupMode {
    /// The next mode in the cycle.
    pub fn next(self) -> (r: DedupMode)
        ensures
            r == next_mode(self),
    {
        match self {
            DedupMode::Off => DedupMode::Exact,
            DedupMode::Exact => DedupMode::Fuzzy,
            DedupMode::Fuzzy => DedupMode::Off,
        }
    }

    /// The label shown in the viewer's title (empty when off).
    pub fn label(self) -> (s: &'static str)
        ensures
            s@ == mode_label(self),
    {
        match self {
            DedupMode::Off => "",
            DedupMode::Exact => "DEDUP:EXACT",
            DedupMode::Fuzzy => "DEDUP:FUZZY",
        }
    }
}

/// Cycling the dedup mode three times comes back to the start, and the
/// three modes it passes are all different.
pub proof fn law_dedup_mode_cycle(m: DedupMode)
    ensures
        next_mode(next_mode(next_mode(m))) == m,
        next_mode(m) != m,
        next_mode(next_mode(m)) != m,
        next_mode(next_mode(m)) != next_mode(m),
{
}

/// A multi-line group of entries: a parent entry followed by its
/// continuation lines, shown or hidden together.
#[derive(Debug, Clone, Copy, PartialEq, Eq, Structural)]
pub struct LineGroup {
    /// Number of continuation entries after the parent.
    pub continuation_count: usize,
    /// Whether the continuation lines are hidden.
    pub collapsed: bool,
}

/// Number of entries the first `k` groups span.
pub open spec fn groups_span(groups: Seq<LineGroup>, k: int) -> int
    decreases k,
{
    if k <= 0 || groups.len() == 0 {
        0
    } else {
        groups_span(groups, k - 1) + 1 + groups[k - 1].continuation_count
    }
}

/// A group of entries with the same dedup key.
#[derive(Debug)]
pub struct DedupGroup {
    /// Index of the representative entry (the most recent member).
    pub entry_idx: usize,
    /// Indices of all members, ascending.
    pub member_indices: Vec<usize>,
    /// Number of members.
    pub count: usize,
    /// Timestamp of the first member.
    pub first_timestamp: Timestamp,
    /// Timestamp of the last member.
    pub last_timestamp: Timestamp,
}

/// Pattern of a UUID.
pub open spec fn uuid_pattern() -> Seq<char> {
    "[0-9a-fA-F]{8}-[0-9a-fA-F]{4}-[0-9a-fA-F]{4}-[0-9a-fA-F]{4}-[0-9a-fA-F]{12}"@
}

/// Pattern of an IPv4 address with an optional port.
pub open spec fn ipv4_pattern() -> Seq<char> {
    "\\b\\d{1,3}\\.\\d{1,3}\\.\\d{1,3}\\.\\d{1,3}(:\\d+)?\\b"@
}

/// Pattern of a hex token of 16 digits or more.
pub open spec fn hex_pattern() -> Seq<char> {
    "\\b[0-9a-fA-F]{16,}\\b"@
}

/// Pattern of an ISO 8601 timestamp.
pub open spec fn iso_timestamp_pattern() -> Seq<char> {
    "\\d{4}-\\d{2}-\\d{2}[T ]\\d{2}:\\d{2}:\\d{2}(\\.\\d+)?(Z|[+-]\\d{2}:?\\d{2})?"@
}

/// Pattern of a duration with its unit.
pub open spec fn duration_pattern() -> Seq<char> {
    "\\b\\d+(\\.\\d+)?\\s*(ms|us|\u{b5}s|ns|s|sec|min)\\b"@
}

/// Pattern of a number of two digits or more.
pub open spec fn number_pattern() -> Seq<char> {
    "\\b\\d{2,}\\b"@
}

/// Whether `regex` accepts all six normalisation patterns.
pub open spec fn norm_patterns_compile() -> bool {
    &&& regex_compiles(uuid_pattern())
    &&& regex_compiles(ipv4_pattern())
    &&& regex_compiles(hex_pattern())
    &&& regex_compiles(iso_timestamp_pattern())
    &&& regex_compiles(duration_pattern())
    &&& regex_compiles(number_pattern())
}

/// `line` with its variable tokens replaced, in turn, by `<UUID>`, `<IP>`,
/// `<HEX>`, `<TS>`, `<DUR>` and `<N>`.
pub open spec fn normalized(line: Seq<char>) -> Seq<char> {
    let s = regex_replaced(uuid_pattern(), line, "<UUID>"@);
    let s = regex_replaced(ipv4_pattern(), s, "<IP>"@);
    let s = regex_replaced(hex_pattern(), s, "<HEX>"@);
    let s = regex_replaced(iso_timestamp_pattern(), s, "<TS>"@);
    let s = regex_replaced(duration_pattern(), s, "<DUR>"@);
    regex_replaced(number_pattern(), s, "<N>"@)
}

/// The key entries are grouped by: the line itself, or in fuzzy mode its
/// normalised form (the line itself should the patterns not compile).
pub open spec fn dedup_key(mode: DedupMode, line: Seq<char>) -> Seq<char> {
    if mode == DedupMode::Fuzzy && norm_patterns_compile() {
        normalized(line)
    } else {
        line
    }
}

/// The dedup keys of the entries.
pub open spec fn dedup_keys(mode: DedupMode, entries: Seq<LogEntry>) -> Seq<Seq<char>> {
    Seq::new(entries.len(), |i: int| dedup_key(mode, entries[i].line@))
}

/// The key of a group: that of its first member.
pub open spec fn group_key(g: DedupGroup, keys: Seq<Seq<char>>) -> Seq<char> {
    keys[g.member_indices@[0] as int]
}

/// `g` gathers, in ascending order, exactly the entries with its key, and
/// its summary fields describe those members.
pub open spec fn group_ok(g: DedupGroup, entries: Seq<LogEntry>, keys: Seq<Seq<char>>) -> bool {
    let m = g.member_indices@;
    &&& m.len() >= 1
    &&& ascending(m)
    &&& forall|k: int|
        0 <= k < m.len() ==> #[trigger] m[k] < entries.len() && keys[m[k] as int] == keys[m[0] as int]
    &&& forall|i: int|
        0 <= i < entries.len() && #[trigger] keys[i] == keys[m[0] as int] ==> m.contains(i as usize)
    &&& g.entry_idx == m.last()
    &&& g.count == m.len()
    &&& g.first_timestamp == entries[m[0] as int].timestamp
    &&& g.last_timestamp == entries[m.last() as int].timestamp
}

/// Whether some group has key `k`.
pub open spec fn has_group_with_key(groups: Seq<DedupGroup>, keys: Seq<Seq<char>>, k: Seq<char>) -> bool {
    exists|g: int| 0 <= g < groups.len() && #[trigger] group_key(groups[g], keys) == k
}

/// `groups` is the deduplication of `entries` under `keys`: one group per
/// distinct key, each holding exactly the entries with that key, most
/// recently seen first.
pub open spec fn is_dedup_grouping(groups: Seq<DedupGroup>, entries: Seq<LogEntry>, keys: Seq<Seq<char>>) -> bool {
    &&& forall|g: int| 0 <= g < groups.len() ==> group_ok(#[trigger] groups[g], entries, keys)
    &&& forall|a: int, b: int|
        0 <= a < groups.len() && 0 <= b < groups.len() && a != b ==> group_key(groups[a], keys)
            != group_key(groups[b], keys)
    &&& forall|i: int| 0 <= i < entries.len() ==> has_group_with_key(groups, keys, #[trigger] keys[i])
    &&& forall|a: int, b: int|
        0 <= a < b < groups.len() ==> !ts_before(groups[a].last_timestamp, groups[b].last_timestamp)
}

/// The six compiled normalisation patterns.
pub struct NormPatterns {
    uuid: CompiledRegex,
    ipv4: CompiledRegex,
    hex_token: CompiledRegex,
    iso_timestamp: CompiledRegex,
    duration: CompiledRegex,
    number: CompiledRegex,
}

impl NormPatterns {
    #[verifier::type_invariant]
    spec fn sources(self) -> bool {
        &&& self.uuid.spec_source() == uuid_pattern()
        &&& self.ipv4.spec_source() == ipv4_pattern()
        &&& self.hex_token.spec_source() == hex_pattern()
        &&& self.iso_timestamp.spec_source() == iso_timestamp_pattern()
        &&& self.duration.spec_source() == duration_pattern()
        &&& self.number.spec_source() == number_pattern()
    }

    /// Compile the six patterns; `None` should `regex` refuse one.
    pub fn new() -> (r: Option<NormPatterns>)
        ensures
            r is Some <==> norm_patterns_compile(),
    {
        let uuid = compile("[0-9a-fA-F]{8}-[0-9a-fA-F]{4}-[0-9a-fA-F]{4}-[0-9a-fA-F]{4}-[0-9a-fA-F]{12}");
        let ipv4 = compile("\\b\\d{1,3}\\.\\d{1,3}\\.\\d{1,3}\\.\\d{1,3}(:\\d+)?\\b");
        let hex_token = compile("\\b[0-9a-fA-F]{16,}\\b");
        let iso_timestamp = compile("\\d{4}-\\d{2}-\\d{2}[T ]\\d{2}:\\d{2}:\\d{2}(\\.\\d+)?(Z|[+-]\\d{2}:?\\d{2})?");
        let duration = compile("\\b\\d+(\\.\\d+)?\\s*(ms|us|\u{b5}s|ns|s|sec|min)\\b");
        let number = compile("\\b\\d{2,}\\b");
        match (uuid, ipv4, hex_token, iso_timestamp, duration, number) {
            (Ok(uuid), Ok(ipv4), Ok(hex_token), Ok(iso_timestamp), Ok(duration), Ok(number)) => {
                Some(NormPatterns { uuid, ipv4, hex_token, iso_timestamp, duration, number })
            },
            _ => None,
        }
    }

    /// `line` with its variable tokens replaced by placeholders.
    pub fn normalize(&self, line: &str) -> (s: String)
        ensures
            s@ == normalized(line@),
    {
        proof {
            use_type_invariant(self);
        }
        let s = replace_all(&self.uuid, line, "<UUID>");
        let s = replace_all(&self.ipv4, s.as_str(), "<IP>");
        let s = replace_all(&self.hex_token, s.as_str(), "<HEX>");
        let s = replace_all(&self.iso_timestamp, s.as_str(), "<TS>");
        let s = replace_all(&self.duration, s.as_str(), "<DUR>");
        replace_all(&self.number, s.as_str(), "<N>")
    }
}

/// What a display row of the viewer shows.
#[derive(Debug, Clone, Copy, PartialEq, Eq, Structural)]
pub enum RowKind {
    /// A log entry, drawn in full.
    Entry,
    /// An entry shown dimmed as context around a search match.
    Context,
    /// A continuation line of an expanded multi-line group.
    Continuation,
    /// A `---` separator between runs of context.
    Separator,
    /// The representative entry of a dedup group.
    Group,
}

/// One line of the viewer's body, as the renderer draws it.
#[derive(Debug, Clone, Copy, PartialEq, Eq, Structural)]
pub struct Row {
    /// What the row shows.
    pub kind: RowKind,
    /// The entry it shows (0 for a separator).
    pub entry_idx: usize,
    /// Whether it carries the selection marker.
    pub selected: bool,
    /// Whether the entry is bookmarked.
    pub bookmarked: bool,
    /// Continuation lines hidden under a collapsed parent entry (0 otherwise).
    pub hidden_lines: usize,
    /// For a dedup group row, the group's index.
    pub group: usize,
}

/// Whether `i` lies in the context window of some match other than itself:
/// within `c` entries of it, and before `n`.
pub open spec fn in_context(matches: Seq<usize>, c: int, n: int, i: int) -> bool {
    exists|k: int|
        0 <= k < matches.len() && #[trigger] matches[k] - c <= i < matches[k] + c + 1 && i < n && i
            != matches[k] && 0 <= i
}

/// The multi-line group that owns entry `e`, if any.
pub open spec fn owner(gs: Seq<LineGroup>, e: int) -> Option<int> {
    if exists|g: int| 0 <= g < gs.len() && #[trigger] groups_span(gs, g) <= e < groups_span(gs, g + 1) {
        Some(choose|g: int| 0 <= g < gs.len() && #[trigger] groups_span(gs, g) <= e < groups_span(gs, g + 1))
    } else {
        None
    }
}

/// The viewer.
pub struct LogViewer {
    /// The entries, oldest first.
    pub entries: Vec<LogEntry>,
    /// Lines scrolled away from the bottom (0 shows the newest entries).
    pub scroll_offset: usize,
    /// Whether the viewer follows new entries.
    pub tail_mode: bool,
    /// Entries that arrived while scrolled away from the bottom.
    pub new_entries_count: usize,
    /// Whether timestamps are shown.
    pub show_timestamps: bool,
    /// Whether long lines wrap.
    pub line_wrap: bool,
    /// Height of the viewport in lines.
    pub viewport_height: usize,
    /// The selected line, relative to the top of the window.
    pub selected_line: Option<usize>,
    /// The color theme.
    pub theme: Theme,
    /// The multi-line groups, in entry order.
    pub line_groups: Vec<LineGroup>,
    /// Context lines shown around search matches (0 when off).
    pub context_lines: usize,
    /// The active search term.
    pub search_term: Option<String>,
    /// The regex compiled for the active search term.
    pub search_regex: Option<CompiledRegex>,
    /// Indices of the entries that match the search, ascending.
    pub search_matches: Vec<usize>,
    /// The current match, an index into `search_matches`.
    pub search_match_cursor: usize,
    /// Bookmarked entry indices, ascending.
    pub bookmarks: Vec<usize>,
    /// The dedup mode.
    pub dedup_mode: DedupMode,
    /// The dedup groups, most recently seen first.
    pub dedup_groups: Vec<DedupGroup>,
    /// The fuzzy normalisation patterns, compiled on first use.
    pub norm_patterns: Option<NormPatterns>,
    /// Whether entries are shown as a table of their structured fields.
    pub column_mode: bool,
    /// The table's columns, as last discovered.
    pub discovered_columns: Vec<String>,
    /// The column the entries were last sorted by, and whether ascending.
    pub sort_column: Option<(usize, bool)>,
}

/// The match cursor `c` kept within `n` matches: the last match when it
/// lies past them, 0 when there are none.
pub open spec fn clamped_cursor(c: usize, n: nat) -> usize {
    if (c as int) < n {
        c
    } else if n > 0 {
        (n - 1) as usize
    } else {
        0
    }
}

/// Whether `b` is strictly ascending.
pub open spec fn ascending(b: Seq<usize>) -> bool {
    forall|i: int, j: int| 0 <= i < j < b.len() ==> b[i] < b[j]
}

/// The least element of the ascending list `b` above `c`, if any.
pub open spec fn least_above(b: Seq<usize>, c: int) -> Option<usize>
    decreases b.len(),
{
    if b.len() == 0 {
        None
    } else if b[0] > c {
        Some(b[0])
    } else {
        least_above(b.drop_first(), c)
    }
}

/// The greatest element of the ascending list `b` below `c`, if any.
pub open spec fn greatest_below(b: Seq<usize>, c: int) -> Option<usize>
    decreases b.len(),
{
    if b.len() == 0 {
        None
    } else if b.last() < c {
        Some(b.last())
    } else {
        greatest_below(b.drop_last(), c)
    }
}

/// The pattern searched for `term`: the term itself, case-insensitive,
/// or, where `regex` refuses that, the term taken literally.
pub open spec fn search_pattern(term: Seq<char>) -> Seq<char> {
    if regex_compiles("(?i)"@ + term) {
        "(?i)"@ + term
    } else {
        "(?i)"@ + escaped(term)
    }
}

/// Whether `v` lists, in ascending order, exactly the indices of the
/// entries whose line the regex compiled from `pat` matches.
pub open spec fn is_match_list(v: Seq<usize>, entries: Seq<LogEntry>, pat: Seq<char>) -> bool {
    &&& forall|a: int, b: int| 0 <= a < b < v.len() ==> v[a] < v[b]
    &&& forall|k: int|
        0 <= k < v.len() ==> v[k] < entries.len() && regex_is_match(
            pat,
            entries[v[k] as int].line@,
        )
    &&& forall|i: int|
        0 <= i < entries.len() && regex_is_match(pat, entries[i].line@) ==> v.contains(
            i as usize,
        )
}

/// `after` is `before` searching for `term`: an empty term clears the
/// search; otherwise the term, its regex and its exact match list are set,
/// the cursor is on the first match, and that match is scrolled into view.
pub open spec fn is_search_for(before: LogViewer, after: LogViewer, term: Seq<char>) -> bool {
    if term.len() == 0 {
        after == (LogViewer {
            search_term: None,
            search_regex: None,
            search_matches: after.search_matches,
            search_match_cursor: 0,
            ..before
        }) && after.search_matches@.len() == 0
    } else {
        &&& after.search_term matches Some(t) && t@ == term
        &&& after.search_regex matches Some(re) && re.spec_source() == search_pattern(term)
        &&& after.search_match_cursor == 0
        &&& is_match_list(after.search_matches@, before.entries@, search_pattern(term))
        &&& (LogViewer {
            search_term: before.search_term,
            search_regex: after.search_regex,
            search_matches: after.search_matches,
            search_match_cursor: before.search_match_cursor,
            ..after
        }) == (if after.search_matches@.len() > 0 {
            (LogViewer {
                search_regex: after.search_regex,
                search_matches: after.search_matches,
                ..before
            }).shown_at(after.search_matches@[0] as int)
        } else {
            LogViewer { search_regex: after.search_regex, search_matches: after.search_matches, ..before }
        })
    }
}

/// `after` is `before` with the bookmark on the selected entry toggled
/// (nothing changes when no entry is selected).
pub open spec fn bookmark_toggled(before: LogViewer, after: LogViewer) -> bool {
    &&& after == (LogViewer { bookmarks: after.bookmarks, ..before })
    &&& match before.selected_index() {
        Some(e) if e < before.entries@.len() => after.bookmarks@.to_set() == (if before.bookmarks@.contains(
            e as usize,
        ) {
            before.bookmarks@.to_set().remove(e as usize)
        } else {
            before.bookmarks@.to_set().insert(e as usize)
        }),
        _ => after.bookmarks@ == before.bookmarks@,
    }
}

/// `after` is `before` with the multi-line group of the selected entry
/// expanded or collapsed (nothing changes when no group owns it).
pub open spec fn expand_toggled(before: LogViewer, after: LogViewer) -> bool {
    &&& after == (LogViewer { line_groups: after.line_groups, ..before })
    &&& match before.selected_index() {
        Some(e) => {
            let gs = before.line_groups@;
            if e < groups_span(gs, gs.len() as int) {
                exists|g: int|
                    0 <= g < gs.len() && #[trigger] groups_span(gs, g) <= e < groups_span(gs, g + 1)
                        && after.line_groups@ == gs.update(
                        g,
                        LineGroup { collapsed: !gs[g].collapsed, ..gs[g] },
                    )
            } else {
                after.line_groups@ == gs
            }
        },
        None => after.line_groups@ == before.line_groups@,
    }
}

/// `after` is `before` with the search cleared.
pub open spec fn search_cleared(before: LogViewer, after: LogViewer) -> bool {
    &&& after == (LogViewer {
        search_term: None,
        search_regex: None,
        search_matches: after.search_matches,
        search_match_cursor: 0,
        ..before
    })
    &&& after.search_matches@.len() == 0
}

/// `after` is `before` in the next dedup mode, regrouped.
pub open spec fn dedup_toggled(before: LogViewer, after: LogViewer) -> bool {
    &&& after.dedup_mode == next_mode(before.dedup_mode)
    &&& after == (LogViewer {
        dedup_mode: after.dedup_mode,
        dedup_groups: after.dedup_groups,
        norm_patterns: after.norm_patterns,
        ..before
    })
}

/// `after` is `before` without bookmarks.
pub open spec fn bookmarks_cleared(before: LogViewer, after: LogViewer) -> bool {
    after == (LogViewer { bookmarks: after.bookmarks, ..before }) && after.bookmarks@.len() == 0
}

/// The scroll offset that brings entry `e` into view (roughly centred) with
/// `n` entries, a viewport of `h` lines and a current offset of `o`.
pub open spec fn offset_to_show(n: int, h: int, e: int, o: int) -> int {
    if n > h {
        n - (if e + h / 2 + 1 < n {
            e + h / 2 + 1
        } else {
            n
        })
    } else {
        o
    }
}

/// The range `[start, end)` of entry indices visible with `n` entries, a
/// viewport of `h` lines and a scroll offset of `o` lines from the bottom.
pub open spec fn visible_window(n: int, h: int, o: int) -> (int, int) {
    (if n > h + o { n - h - o } else { 0 }, if n > o { n - o } else { 0 })
}

/// The largest scroll offset: the window then starts at the top.
pub open spec fn max_offset(n: int, h: int) -> int {
    if n > h { n - h } else { 0 }
}

impl LogViewer {
    /// The visible window of entry indices.
    pub open spec fn spec_window(&self) -> (int, int) {
        visible_window(
            self.entries@.len() as int,
            self.viewport_height as int,
            self.scroll_offset as int,
        )
    }

    /// An empty viewer in tail mode that shows timestamps.
    pub fn new(theme: Theme) -> (v: LogViewer)
        ensures
            v.entries@.len() == 0,
            v.scroll_offset == 0,
            v.tail_mode,
            v.new_entries_count == 0,
            v.show_timestamps,
            !v.line_wrap,
            v.viewport_height == 0,
            v.selected_line is None,
            v.theme == theme,
            v.line_groups@.len() == 0,
            v.context_lines == 0,
            v.search_term is None,
            v.search_regex is None,
            v.search_matches@.len() == 0,
            v.search_match_cursor == 0,
            v.search_wf(),
            v.search_exact(),
            v.bookmarks@.len() == 0,
            v.dedup_mode == DedupMode::Off,
            v.dedup_groups@.len() == 0,
            v.norm_patterns is None,
            !v.column_mode,
            v.discovered_columns@.len() == 0,
            v.sort_column is None,
    {
        LogViewer {
            entries: Vec::new(),
            scroll_offset: 0,
            tail_mode: true,
            new_entries_count: 0,
            show_timestamps: true,
            line_wrap: false,
            viewport_height: 0,
            selected_line: None,
            theme,
            line_groups: Vec::new(),
            context_lines: 0,
            search_term: None,
            search_regex: None,
            search_matches: Vec::new(),
            search_match_cursor: 0,
            bookmarks: Vec::new(),
            dedup_mode: DedupMode::Off,
            dedup_groups: Vec::new(),
            norm_patterns: None,
            column_mode: false,
            discovered_columns: Vec::new(),
            sort_column: None,
        }
    }

    /// The viewer with line `visible_index` of the window selected; an
    /// index past the window clears the selection.
    pub open spec fn line_selected(self, visible_index: usize) -> LogViewer {
        if visible_index < self.spec_window().1 - self.spec_window().0 {
            LogViewer { selected_line: Some(visible_index), ..self }
        } else {
            LogViewer { selected_line: None, ..self }
        }
    }

    /// The viewer with the next context setting: 0, 3, 5, 10, then 0.
    pub open spec fn context_toggled(self) -> LogViewer {
        LogViewer {
            context_lines: match self.context_lines {
                0 => 3,
                3 => 5,
                5 => 10,
                _ => 0,
            },
            ..self
        }
    }

    /// The viewer on the next search match (wrapping), scrolled to it.
    pub open spec fn at_next_match(self) -> LogViewer {
        if self.search_matches@.len() == 0 {
            self
        } else {
            let c = ((self.search_match_cursor + 1) % (self.search_matches@.len() as int)) as usize;
            (LogViewer { search_match_cursor: c, ..self }).shown_at(self.search_matches@[c as int] as int)
        }
    }

    /// The viewer on the previous search match (wrapping), scrolled to it.
    pub open spec fn at_prev_match(self) -> LogViewer {
        if self.search_matches@.len() == 0 {
            self
        } else {
            let c = if self.search_match_cursor == 0 {
                (self.search_matches@.len() - 1) as usize
            } else {
                (self.search_match_cursor - 1) as usize
            };
            if c < self.search_matches@.len() {
                (LogViewer { search_match_cursor: c, ..self }).shown_at(self.search_matches@[c as int] as int)
            } else {
                LogViewer { search_match_cursor: c, ..self }
            }
        }
    }

    /// The viewer on the first bookmark after the selected entry (or the
    /// first bookmark).
    pub open spec fn at_next_bookmark(self) -> LogViewer {
        if self.bookmarks@.len() == 0 {
            self
        } else {
            let current = match self.selected_index() {
                Some(e) => e,
                None => usize::MAX as int,
            };
            let target = match least_above(self.bookmarks@, current) {
                Some(t) => t,
                None => self.bookmarks@[0],
            };
            self.shown_at(target as int)
        }
    }

    /// The viewer on the last bookmark before the selected entry (or the
    /// last bookmark).
    pub open spec fn at_prev_bookmark(self) -> LogViewer {
        if self.bookmarks@.len() == 0 {
            self
        } else {
            let current = match self.selected_index() {
                Some(e) => e,
                None => 0,
            };
            let target = match greatest_below(self.bookmarks@, current) {
                Some(t) => t,
                None => self.bookmarks@.last(),
            };
            self.shown_at(target as int)
        }
    }

    /// Set the viewport height (in lines).
    pub fn set_viewport_height(&mut self, height: usize)
        ensures
            *final(self) == (LogViewer { viewport_height: height, ..*old(self) }),
    {
        self.viewport_height = height;
    }

    /// Whether the viewer follows new entries.
    pub fn is_tail_mode(&self) -> (b: bool)
        ensures
            b == self.tail_mode,
    {
        self.tail_mode
    }

    /// The visible window `[start, end)` of entry indices.
    pub fn visible_range(&self) -> (r: (usize, usize))
        ensures
            r.0 == self.spec_window().0,
            r.1 == self.spec_window().1,
            r.0 <= r.1 <= self.entries@.len(),
    {
        let total = self.entries.len();
        let start = if total > self.scroll_offset && total - self.scroll_offset
            > self.viewport_height {
            total - self.viewport_height - self.scroll_offset
        } else {
            0
        };
        let end = if total > self.scroll_offset {
            total - self.scroll_offset
        } else {
            0
        };
        (start, end)
    }

    /// The viewer scrolled up by `n` lines, no further than the top, out of
    /// tail mode.
    pub open spec fn scrolled_up(self, n: int) -> LogViewer {
        let max = max_offset(self.entries@.len() as int, self.viewport_height as int);
        LogViewer {
            scroll_offset: (if self.scroll_offset + n < max { self.scroll_offset + n } else { max }) as usize,
            tail_mode: false,
            ..self
        }
    }

    /// The viewer scrolled down by `n` lines; reaching the bottom resumes
    /// tail mode and clears the count of new entries.
    pub open spec fn scrolled_down(self, n: int) -> LogViewer {
        if self.scroll_offset <= n {
            LogViewer { scroll_offset: 0, tail_mode: true, new_entries_count: 0, ..self }
        } else {
            LogViewer { scroll_offset: (self.scroll_offset - n) as usize, ..self }
        }
    }

    /// The viewer at the top of the buffer, out of tail mode.
    pub open spec fn at_top(self) -> LogViewer {
        LogViewer {
            scroll_offset: max_offset(self.entries@.len() as int, self.viewport_height as int) as usize,
            tail_mode: false,
            ..self
        }
    }

    /// The viewer at the bottom, in tail mode.
    pub open spec fn at_bottom(self) -> LogViewer {
        LogViewer { scroll_offset: 0, tail_mode: true, new_entries_count: 0, ..self }
    }

    /// Scroll up by `n` lines, no further than the top; leaves tail mode.
    fn scroll_up(&mut self, n: usize)
        ensures
            *final(self) == old(self).scrolled_up(n as int),
    {
        let total = self.entries.len();
        let max = if total > self.viewport_height {
            total - self.viewport_height
        } else {
            0
        };
        let wanted = self.scroll_offset.saturating_add(n);
        self.scroll_offset = if wanted < max {
            wanted
        } else {
            max
        };
        self.tail_mode = false;
    }

    /// Scroll down by `n` lines; reaching the bottom resumes tail mode.
    fn scroll_down(&mut self, n: usize)
        ensures
            *final(self) == old(self).scrolled_down(n as int),
    {
        if self.scroll_offset <= n {
            self.scroll_offset = 0;
            self.tail_mode = true;
            self.new_entries_count = 0;
        } else {
            self.scroll_offset = self.scroll_offset - n;
        }
    }

    /// Jump to the top of the buffer; leaves tail mode.
    fn scroll_to_top(&mut self)
        ensures
            *final(self) == old(self).at_top(),
    {
        let total = self.entries.len();
        self.scroll_offset = if total > self.viewport_height {
            total - self.viewport_height
        } else {
            0
        };
        self.tail_mode = false;
    }

    /// Jump to the bottom and resume tail mode.
    fn scroll_to_bottom(&mut self)
        ensures
            *final(self) == old(self).at_bottom(),
    {
        self.scroll_offset = 0;
        self.tail_mode = true;
        self.new_entries_count = 0;
    }

    /// Select the line at `visible_index` within the window; an index past
    /// the window clears the selection.
    pub fn select_line(&mut self, visible_index: usize)
        ensures
            *final(self) == old(self).line_selected(visible_index),
    {
        let (start, end) = self.visible_range();
        if visible_index < end - start {
            self.selected_line = Some(visible_index);
        } else {
            self.selected_line = None;
        }
    }

    /// The entry under the selection, if any.
    pub fn selected_entry(&self) -> (r: Option<&LogEntry>)
        ensures
            match self.selected_line {
                None => r is None,
                Some(sel) => {
                    let idx = self.spec_window().0 + sel;
                    if idx < self.entries@.len() {
                        r == Some(&self.entries@[idx])
                    } else {
                        r is None
                    }
                },
            },
    {
        match self.selected_line {
            None => None,
            Some(sel) => {
                let (start, _end) = self.visible_range();
                if sel < self.entries.len() - start {
                    Some(&self.entries[start + sel])
                } else {
                    None
                }
            },
        }
    }

    /// Cycle the context lines shown around matches: 0, 3, 5, 10, 0.
    pub fn toggle_context(&mut self)
        ensures
            *final(self) == old(self).context_toggled(),
    {
        self.context_lines = match self.context_lines {
            0 => 3,
            3 => 5,
            5 => 10,
            _ => 0,
        };
    }

    /// The search state is consistent: a term has a regex compiled from its
    /// search pattern, the matches are ascending indices of entries, and
    /// the cursor lies within the matches (0 when there are none).
    pub open spec fn search_wf(&self) -> bool {
        &&& self.search_match_cursor < usize::MAX
        &&& self.search_matches@.len() == 0 ==> self.search_match_cursor == 0
        &&& self.search_matches@.len() > 0 ==> self.search_match_cursor < self.search_matches@.len()
        &&& forall|a: int, b: int|
            0 <= a < b < self.search_matches@.len() ==> self.search_matches@[a] < self.search_matches@[b]
        &&& forall|k: int| 0 <= k < self.search_matches@.len() ==> self.search_matches@[k] < self.entries@.len()
        &&& match self.search_regex {
            None => self.search_term is None && self.search_matches@.len() == 0,
            Some(re) => self.search_term matches Some(t) && re.spec_source() == search_pattern(t@),
        }
    }

    /// The match list is exact: it lists every entry that the search regex
    /// matches. Reordering the entries (column sorting) leaves it stale
    /// until the next search or snapshot.
    pub open spec fn search_exact(&self) -> bool {
        match self.search_regex {
            None => true,
            Some(re) => is_match_list(self.search_matches@, self.entries@, re.spec_source()),
        }
    }

    /// The viewer after scrolling entry `e` into view and selecting it.
    pub open spec fn shown_at(self, e: int) -> LogViewer {
        let n = self.entries@.len() as int;
        let h = self.viewport_height as int;
        let o = offset_to_show(n, h, e, self.scroll_offset as int);
        let start = visible_window(n, h, o).0;
        LogViewer {
            scroll_offset: o as usize,
            tail_mode: false,
            selected_line: Some(if e > start { (e - start) as usize } else { 0 }),
            ..self
        }
    }

    /// Scroll entry `entry_idx` into view and select it; an index past the
    /// entries changes nothing.
    fn scroll_to_entry(&mut self, entry_idx: usize)
        ensures
            *final(self) == (if entry_idx < old(self).entries@.len() {
                old(self).shown_at(entry_idx as int)
            } else {
                *old(self)
            }),
    {
        let total = self.entries.len();
        if entry_idx >= total {
            return;
        }
        let half = self.viewport_height / 2;
        if total > self.viewport_height {
            let desired_end = if half < total - entry_idx - 1 {
                entry_idx + half + 1
            } else {
                total
            };
            self.scroll_offset = total - desired_end;
        }
        self.tail_mode = false;
        let (start, _end) = self.visible_range();
        self.selected_line = Some(entry_idx.saturating_sub(start));
    }

    /// Scroll the `match_idx`-th search match into view and select it; an
    /// index past the matches changes nothing.
    fn scroll_to_match(&mut self, match_idx: usize)
        requires
            old(self).search_wf(),
        ensures
            *final(self) == (if match_idx < old(self).search_matches@.len() {
                old(self).shown_at(old(self).search_matches@[match_idx as int] as int)
            } else {
                *old(self)
            }),
    {
        if match_idx < self.search_matches.len() {
            let e = self.search_matches[match_idx];
            self.scroll_to_entry(e);
        }
    }

    /// Recompute the matches of the active search over the entries.
    fn rebuild_search_matches(&mut self)
        ensures
            *final(self) == (LogViewer {
                search_matches: final(self).search_matches,
                ..*old(self)
            }),
            match old(self).search_regex {
                None => final(self).search_matches@.len() == 0,
                Some(re) => is_match_list(final(self).search_matches@, old(self).entries@, re.spec_source()),
            },
    {
        let found = match &self.search_regex {
            Some(re) => matching_indices(&self.entries, re),
            None => Vec::new(),
        };
        self.search_matches = found;
    }

    /// Number of search matches.
    pub fn search_match_count(&self) -> (n: usize)
        ensures
            n == self.search_matches@.len(),
    {
        self.search_matches.len()
    }

    /// The current match, counted from 1 (0 when there are none).
    pub fn search_match_position(&self) -> (p: usize)
        requires
            self.search_wf(),
        ensures
            p == (if self.search_matches@.len() == 0 { 0 } else { self.search_match_cursor + 1 }),
    {
        if self.search_matches.len() == 0 {
            0
        } else {
            self.search_match_cursor + 1
        }
    }

    /// The active search term.
    pub fn search_term(&self) -> (t: Option<&str>)
        ensures
            match self.search_term {
                None => t is None,
                Some(s) => t matches Some(x) && x@ == s@,
            },
    {
        match &self.search_term {
            None => None,
            Some(s) => Some(s.as_str()),
        }
    }

    /// Clear the search and its highlights.
    pub fn clear_search(&mut self)
        ensures
            *final(self) == (LogViewer {
                search_term: None,
                search_regex: None,
                search_matches: final(self).search_matches,
                search_match_cursor: 0,
                ..*old(self)
            }),
            final(self).search_matches@.len() == 0,
            final(self).search_wf(),
            final(self).search_exact(),
    {
        self.search_term = None;
        self.search_regex = None;
        self.search_matches = Vec::new();
        self.search_match_cursor = 0;
    }

    /// Search for `term`: case-insensitive, and taken literally where it is
    /// not a regex that `regex` accepts. An empty term clears the search;
    /// otherwise the first match, if any, is scrolled into view.
    pub fn set_search(&mut self, term: String)
        requires
            old(self).search_wf(),
            term@.len() == 0 || regex_compiles(search_pattern(term@)),
        ensures
            final(self).search_wf(),
            final(self).search_exact(),
            is_search_for(*old(self), *final(self), term@),
    {
        if term.as_str().unicode_len() == 0 {
            self.clear_search();
            return;
        }
        let compiled = match search_regex_for(term.as_str()) {
            Some(re) => re,
            None => {
                return;
            },
        };
        self.install_search(term, compiled);
    }

    /// Search with the regex compiled for a non-empty term.
    fn install_search(&mut self, term: String, compiled: CompiledRegex)
        requires
            old(self).search_wf(),
            term@.len() > 0,
            compiled.spec_source() == search_pattern(term@),
        ensures
            final(self).search_wf(),
            final(self).search_exact(),
            is_search_for(*old(self), *final(self), term@),
    {
        self.search_term = Some(term);
        self.search_regex = Some(compiled);
        self.rebuild_search_matches();
        self.search_match_cursor = 0;
        if self.search_matches.len() > 0 {
            self.scroll_to_match(0);
        }
    }

    /// Search for `term` as [`LogViewer::set_search`] does, where `regex`
    /// accepts its search pattern; otherwise leave the viewer as it is.
    /// Returns whether the search was set.
    pub fn try_set_search(&mut self, term: String) -> (b: bool)
        requires
            old(self).search_wf(),
        ensures
            final(self).search_wf(),
            b == (term@.len() == 0 || regex_compiles(search_pattern(term@))),
            b ==> is_search_for(*old(self), *final(self), term@),
            b ==> final(self).search_exact(),
            !b ==> *final(self) == *old(self),
    {
        let ok = term.as_str().unicode_len() == 0 || search_regex_for(term.as_str()).is_some();
        if ok {
            self.set_search(term);
        }
        ok
    }

    /// Move to the next search match, wrapping to the first.
    pub fn search_next(&mut self)
        requires
            old(self).search_wf(),
        ensures
            final(self).search_wf(),
            *final(self) == old(self).at_next_match(),
    {
        if self.search_matches.len() == 0 {
            return;
        }
        self.search_match_cursor = (self.search_match_cursor + 1) % self.search_matches.len();
        self.scroll_to_match(self.search_match_cursor);
    }

    /// Move to the previous search match, wrapping to the last.
    pub fn search_prev(&mut self)
        requires
            old(self).search_wf(),
        ensures
            final(self).search_wf(),
            *final(self) == old(self).at_prev_match(),
    {
        if self.search_matches.len() == 0 {
            return;
        }
        if self.search_match_cursor == 0 {
            self.search_match_cursor = self.search_matches.len() - 1;
        } else {
            self.search_match_cursor = self.search_match_cursor - 1;
        }
        self.scroll_to_match(self.search_match_cursor);
    }

    /// Bookmarks are ascending and point at entries.
    pub open spec fn bookmarks_wf(&self) -> bool {
        &&& ascending(self.bookmarks@)
        &&& forall|k: int| 0 <= k < self.bookmarks@.len() ==> self.bookmarks@[k] < self.entries@.len()
    }

    /// The entry index under the selection, if any (it may lie past the
    /// entries).
    pub open spec fn selected_index(&self) -> Option<int> {
        match self.selected_line {
            None => None,
            Some(sel) => Some(self.spec_window().0 + sel),
        }
    }

    /// Toggle a bookmark on the selected entry.
    pub fn toggle_bookmark(&mut self)
        requires
            old(self).bookmarks_wf(),
        ensures
            final(self).bookmarks_wf(),
            bookmark_toggled(*old(self), *final(self)),
    {
        if let Some(sel) = self.selected_line {
            let (start, _end) = self.visible_range();
            if sel < self.entries.len() - start {
                let e = start + sel;
                let b = toggled(&self.bookmarks, e);
                proof {
                    assert forall|k: int| 0 <= k < b@.len() implies b@[k] < self.entries@.len() by {
                        assert(b@.to_set().contains(b@[k]));
                        if b@[k] != e {
                            assert(self.bookmarks@.to_set().contains(b@[k]));
                        }
                    }
                }
                self.bookmarks = b;
            }
        }
    }

    /// Select the first bookmark after the selected entry, wrapping to the
    /// first bookmark.
    pub fn next_bookmark(&mut self)
        requires
            old(self).bookmarks_wf(),
        ensures
            *final(self) == old(self).at_next_bookmark(),
    {
        if self.bookmarks.len() == 0 {
            return;
        }
        let (start, _end) = self.visible_range();
        let current = match self.selected_line {
            Some(sel) => start.saturating_add(sel),
            None => usize::MAX,
        };
        proof {
            let at = match self.selected_index() {
                Some(x) => x,
                None => usize::MAX as int,
            };
            lemma_least_above_agree(self.bookmarks@, current as int, at);
        }
        let target = match first_above(&self.bookmarks, current) {
            Some(t) => t,
            None => self.bookmarks[0],
        };
        self.scroll_to_entry(target);
    }

    /// Select the last bookmark before the selected entry, wrapping to the
    /// last bookmark.
    pub fn prev_bookmark(&mut self)
        requires
            old(self).bookmarks_wf(),
        ensures
            *final(self) == old(self).at_prev_bookmark(),
    {
        if self.bookmarks.len() == 0 {
            return;
        }
        let (start, _end) = self.visible_range();
        let current = match self.selected_line {
            Some(sel) => start.saturating_add(sel),
            None => 0,
        };
        proof {
            let at = match self.selected_index() {
                Some(x) => x,
                None => 0,
            };
            assert(self.entries@.len() == self.entries.len());
            assert forall|k: int| 0 <= k < self.bookmarks@.len() implies (self.bookmarks@[k]
                < current as int) == (self.bookmarks@[k] < at) by {
                assert(self.bookmarks@[k] < self.entries@.len());
            }
            lemma_greatest_below_agree(self.bookmarks@, current as int, at);
        }
        let target = match last_below(&self.bookmarks, current) {
            Some(t) => t,
            None => self.bookmarks[self.bookmarks.len() - 1],
        };
        self.scroll_to_entry(target);
    }

    /// Remove every bookmark.
    pub fn clear_bookmarks(&mut self)
        ensures
            *final(self) == (LogViewer { bookmarks: final(self).bookmarks, ..*old(self) }),
            final(self).bookmarks@.len() == 0,
    {
        self.bookmarks = Vec::new();
    }

    /// The dedup state is consistent: no groups when off, otherwise the
    /// deduplication of the entries under the mode's keys.
    pub open spec fn dedup_wf(&self) -> bool {
        &&& self.dedup_mode == DedupMode::Off ==> self.dedup_groups@.len() == 0
        &&& self.dedup_mode != DedupMode::Off ==> is_dedup_grouping(
            self.dedup_groups@,
            self.entries@,
            dedup_keys(self.dedup_mode, self.entries@),
        )
        &&& self.norm_patterns is Some ==> norm_patterns_compile()
    }

    /// Recompute the dedup groups for the current mode and entries.
    fn rebuild_dedup_groups(&mut self)
        requires
            old(self).norm_patterns is Some ==> norm_patterns_compile(),
        ensures
            final(self).dedup_wf(),
            *final(self) == (LogViewer {
                dedup_groups: final(self).dedup_groups,
                norm_patterns: final(self).norm_patterns,
                ..*old(self)
            }),
            old(self).dedup_mode != DedupMode::Fuzzy ==> final(self).norm_patterns == old(self).norm_patterns,
    {
        if self.dedup_mode == DedupMode::Off {
            self.dedup_groups = Vec::new();
            return;
        }
        if self.dedup_mode == DedupMode::Fuzzy && self.norm_patterns.is_none() {
            self.norm_patterns = NormPatterns::new();
        }
        let keys = compute_keys(&self.entries, self.dedup_mode, &self.norm_patterns);
        let groups = group_by_key(&self.entries, &keys);
        let (sorted, Ghost(perm)) = sort_by_recency(groups);
        proof {
            lemma_permuted_grouping(sorted@, groups@, perm, self.entries@, string_views(keys@));
        }
        self.dedup_groups = sorted;
    }

    /// Move to the next dedup mode and regroup (or drop the groups when the
    /// mode is off).
    pub fn toggle_dedup(&mut self)
        requires
            old(self).dedup_wf(),
        ensures
            final(self).dedup_wf(),
            final(self).dedup_mode == next_mode(old(self).dedup_mode),
            *final(self) == (LogViewer {
                dedup_mode: final(self).dedup_mode,
                dedup_groups: final(self).dedup_groups,
                norm_patterns: final(self).norm_patterns,
                ..*old(self)
            }),
    {
        self.dedup_mode = self.dedup_mode.next();
        self.rebuild_dedup_groups();
    }

    /// Set the dedup mode and regroup.
    pub fn set_dedup_mode(&mut self, mode: DedupMode)
        requires
            old(self).dedup_wf(),
        ensures
            final(self).dedup_wf(),
            final(self).dedup_mode == mode,
            *final(self) == (LogViewer {
                dedup_mode: mode,
                dedup_groups: final(self).dedup_groups,
                norm_patterns: final(self).norm_patterns,
                ..*old(self)
            }),
    {
        self.dedup_mode = mode;
        self.rebuild_dedup_groups();
    }

    /// The viewer's state is consistent: search, bookmarks and dedup groups
    /// all describe the current entries.
    pub open spec fn wf(&self) -> bool {
        &&& self.search_wf()
        &&& self.bookmarks_wf()
        &&& self.dedup_wf()
        &&& self.groups_wf()
    }

    /// The multi-line groups span no more than the entries.
    pub open spec fn groups_wf(&self) -> bool {
        groups_span(self.line_groups@, self.line_groups@.len() as int) <= self.entries@.len()
    }

    /// Show a new snapshot of the log buffer. In tail mode the view stays
    /// at the bottom; otherwise it keeps its place and counts the entries
    /// that arrived. Bookmarks are dropped when the number of entries
    /// changes; search matches and dedup groups are recomputed, and the
    /// multi-line groups are reset.
    pub fn update_entries(&mut self, entries: Vec<LogEntry>)
        requires
            old(self).wf(),
            !old(self).tail_mode && entries@.len() > old(self).entries@.len() ==> {
                &&& old(self).new_entries_count + (entries@.len() - old(self).entries@.len()) <= usize::MAX
                &&& old(self).scroll_offset + (entries@.len() - old(self).entries@.len()) <= usize::MAX
            },
        ensures
            final(self).wf(),
            final(self).search_exact(),
            final(self).entries@ == entries@,
            ({
                let added = if entries@.len() > old(self).entries@.len() {
                    entries@.len() - old(self).entries@.len()
                } else {
                    0
                };
                &&& old(self).tail_mode ==> final(self).scroll_offset == 0 && final(self).new_entries_count
                    == old(self).new_entries_count
                &&& !old(self).tail_mode ==> final(self).scroll_offset == old(self).scroll_offset + added
                    && final(self).new_entries_count == old(self).new_entries_count + added
            }),
            final(self).bookmarks@ == (if old(self).bookmarks@.len() > 0 && entries@.len()
                != old(self).entries@.len() {
                Seq::<usize>::empty()
            } else {
                old(self).bookmarks@
            }),
            final(self).line_groups@.len() == 0,
            final(self).tail_mode == old(self).tail_mode,
            final(self).show_timestamps == old(self).show_timestamps,
            final(self).line_wrap == old(self).line_wrap,
            final(self).viewport_height == old(self).viewport_height,
            final(self).selected_line == old(self).selected_line,
            final(self).theme == old(self).theme,
            final(self).context_lines == old(self).context_lines,
            final(self).search_term == old(self).search_term,
            final(self).search_regex == old(self).search_regex,
            final(self).search_match_cursor == clamped_cursor(
                old(self).search_match_cursor,
                final(self).search_matches@.len(),
            ),
            final(self).dedup_mode == old(self).dedup_mode,
    {
        let previous_len = self.entries.len();
        self.entries = entries;
        let n = self.entries.len();
        if self.tail_mode {
            self.scroll_offset = 0;
        } else {
            let added = if n > previous_len { n - previous_len } else { 0 };
            self.new_entries_count = self.new_entries_count + added;
            self.scroll_offset = self.scroll_offset + added;
        }
        if self.bookmarks.len() > 0 && n != previous_len {
            self.bookmarks = Vec::new();
        }
        self.rebuild_search_matches();
        let found = self.search_matches.len();
        if self.search_match_cursor >= found {
            self.search_match_cursor = if found > 0 { found - 1 } else { 0 };
        }
        self.line_groups = Vec::new();
        self.rebuild_dedup_groups();
    }

    /// Set the multi-line groups of the entries, in entry order.
    pub fn set_line_groups(&mut self, groups: Vec<LineGroup>)
        requires
            groups_span(groups@, groups@.len() as int) <= old(self).entries@.len(),
        ensures
            *final(self) == (LogViewer { line_groups: groups, ..*old(self) }),
    {
        self.line_groups = groups;
    }

    /// The index of the multi-line group that owns entry `entry_idx`.
    pub fn entry_index_to_group(&self, entry_idx: usize) -> (r: Option<usize>)
        ensures
            match r {
                Some(g) => g < self.line_groups@.len() && groups_span(self.line_groups@, g as int)
                    <= entry_idx < groups_span(self.line_groups@, g + 1),
                None => entry_idx >= groups_span(self.line_groups@, self.line_groups@.len() as int),
            },
    {
        match group_of_entry(&self.line_groups, entry_idx) {
            Some((g, _start)) => Some(g),
            None => None,
        }
    }

    /// Expand or collapse the multi-line group of the selected entry.
    pub fn toggle_expand(&mut self)
        requires
            old(self).groups_wf(),
        ensures
            final(self).groups_wf(),
            expand_toggled(*old(self), *final(self)),
    {
        if let Some(sel) = self.selected_line {
            let (start, _end) = self.visible_range();
            let entry_idx = start.saturating_add(sel);
            let n = self.entries.len();
            if let Some(g) = self.entry_index_to_group(entry_idx) {
                let group = self.line_groups[g];
                let ghost gs = self.line_groups@;
                self.line_groups.set(g, LineGroup { collapsed: !group.collapsed, ..group });
                proof {
                    lemma_span_monotone(gs, g + 1, gs.len() as int);
                    lemma_span_update(gs, g as int, LineGroup { collapsed: !group.collapsed, ..group }, gs.len() as int);
                }
            }
        }
    }

    /// The viewer and the action after the key `code` (modifiers are not
    /// looked at): `j`/Down and `k`/Up move the selection or scroll, `g`/Home
    /// and `G`/End jump, PageUp/PageDown scroll by the viewport less two
    /// lines, space toggles the selection, Enter asks for the detail view
    /// and `n`/`N` for the next/previous match. Other keys are not handled.
    pub open spec fn key_outcome(self, code: Key) -> (LogViewer, Option<Action>) {
        let (start, end) = self.spec_window();
        let page = if self.viewport_height > 2 { self.viewport_height - 2 } else { 0 };
        if is_char(code, 'j') || code == Key::Down {
            let v = match self.selected_line {
                Some(sel) => if sel + 1 < end - start {
                    LogViewer { selected_line: Some((sel + 1) as usize), ..self }
                } else {
                    self.scrolled_down(1)
                },
                None => self.scrolled_down(1),
            };
            (v, Some(Action::Noop))
        } else if is_char(code, 'k') || code == Key::Up {
            let v = match self.selected_line {
                Some(sel) => if sel > 0 {
                    LogViewer { selected_line: Some((sel - 1) as usize), ..self }
                } else {
                    self.scrolled_up(1)
                },
                None => self.scrolled_up(1),
            };
            (v, Some(Action::Noop))
        } else if is_char(code, 'g') || code == Key::Home {
            (LogViewer { selected_line: Some(0), ..self.at_top() }, Some(Action::Noop))
        } else if is_char(code, 'G') || code == Key::End {
            (LogViewer { selected_line: None, ..self.at_bottom() }, Some(Action::Noop))
        } else if code == Key::PageDown {
            (self.scrolled_down(page), Some(Action::Noop))
        } else if code == Key::PageUp {
            (self.scrolled_up(page), Some(Action::Noop))
        } else if is_char(code, ' ') {
            let sel = if self.selected_line is Some { None } else { Some(0usize) };
            (LogViewer { selected_line: sel, ..self }, Some(Action::Noop))
        } else if code == Key::Enter {
            (self, Some(Action::ToggleDetail))
        } else if is_char(code, 'n') {
            (self, Some(Action::SearchNext))
        } else if is_char(code, 'N') {
            (self, Some(Action::SearchPrev))
        } else {
            (self, None)
        }
    }

    /// Handle a key press while the viewer has focus.
    pub fn handle_key(&mut self, key: KeyPress) -> (a: Option<Action>)
        ensures
            (*final(self), a) == old(self).key_outcome(key.code),
    {
        match key.code {
            Key::Char('j') | Key::Down => {
                match self.selected_line {
                    Some(sel) => {
                        let (start, end) = self.visible_range();
                        if sel < end - start && sel + 1 < end - start {
                            self.selected_line = Some(sel + 1);
                        } else {
                            self.scroll_down(1);
                        }
                    },
                    None => self.scroll_down(1),
                }
                Some(Action::Noop)
            },
            Key::Char('k') | Key::Up => {
                match self.selected_line {
                    Some(sel) => {
                        if sel > 0 {
                            self.selected_line = Some(sel - 1);
                        } else {
                            self.scroll_up(1);
                        }
                    },
                    None => self.scroll_up(1),
                }
                Some(Action::Noop)
            },
            Key::Char('g') | Key::Home => {
                self.scroll_to_top();
                self.selected_line = Some(0);
                Some(Action::Noop)
            },
            Key::Char('G') | Key::End => {
                self.scroll_to_bottom();
                self.selected_line = None;
                Some(Action::Noop)
            },
            Key::PageDown => {
                self.scroll_down(self.viewport_height.saturating_sub(2));
                Some(Action::Noop)
            },
            Key::PageUp => {
                self.scroll_up(self.viewport_height.saturating_sub(2));
                Some(Action::Noop)
            },
            Key::Char(' ') => {
                if self.selected_line.is_some() {
                    self.selected_line = None;
                } else {
                    self.selected_line = Some(0);
                }
                Some(Action::Noop)
            },
            Key::Enter => Some(Action::ToggleDetail),
            Key::Char('n') => Some(Action::SearchNext),
            Key::Char('N') => Some(Action::SearchPrev),
            _ => None,
        }
    }

    /// Apply an action addressed to the viewer. Actions the viewer does not
    /// handle (and the column-mode actions, which need structured-log
    /// parsing this library does not have) leave it unchanged. A search term
    /// whose pattern `regex` refuses leaves the search as it was. Never
    /// produces a follow-up action.
    pub fn handle_action(&mut self, action: &Action) -> (r: Option<Action>)
        requires
            old(self).wf(),
        ensures
            final(self).wf(),
            r is None,
            match action {
                Action::ScrollUp(n) => *final(self) == old(self).scrolled_up(*n as int),
                Action::ScrollDown(n) => *final(self) == old(self).scrolled_down(*n as int),
                Action::SelectLine(i) => *final(self) == old(self).line_selected(*i),
                Action::ToggleLineWrap => *final(self) == (LogViewer { line_wrap: !old(self).line_wrap, ..*old(self) }),
                Action::ToggleTimestamps => *final(self) == (LogViewer {
                    show_timestamps: !old(self).show_timestamps,
                    ..*old(self)
                }),
                Action::SearchSubmit(t) => if t@.len() == 0 || regex_compiles(search_pattern(t@)) {
                    is_search_for(*old(self), *final(self), t@)
                } else {
                    *final(self) == *old(self)
                },
                Action::SearchNext => *final(self) == old(self).at_next_match(),
                Action::SearchPrev => *final(self) == old(self).at_prev_match(),
                Action::SearchClear => search_cleared(*old(self), *final(self)),
                Action::ToggleExpand => expand_toggled(*old(self), *final(self)),
                Action::ToggleContext => *final(self) == old(self).context_toggled(),
                Action::ToggleDedup => dedup_toggled(*old(self), *final(self)),
                Action::ToggleBookmark => bookmark_toggled(*old(self), *final(self)),
                Action::NextBookmark => *final(self) == old(self).at_next_bookmark(),
                Action::PrevBookmark => *final(self) == old(self).at_prev_bookmark(),
                Action::ClearBookmarks => bookmarks_cleared(*old(self), *final(self)),
                _ => *final(self) == *old(self),
            },
    {
        match action {
            Action::ScrollUp(n) => self.scroll_up(*n),
            Action::ScrollDown(n) => self.scroll_down(*n),
            Action::SelectLine(i) => self.select_line(*i),
            Action::ToggleLineWrap => {
                self.line_wrap = !self.line_wrap;
            },
            Action::ToggleTimestamps => {
                self.show_timestamps = !self.show_timestamps;
            },
            Action::SearchSubmit(term) => {
                let _ = self.try_set_search(term.clone());
            },
            Action::SearchNext => self.search_next(),
            Action::SearchPrev => self.search_prev(),
            Action::SearchClear => self.clear_search(),
            Action::ToggleExpand => self.toggle_expand(),
            Action::ToggleContext => self.toggle_context(),
            Action::ToggleDedup => self.toggle_dedup(),
            Action::ToggleBookmark => self.toggle_bookmark(),
            Action::NextBookmark => self.next_bookmark(),
            Action::PrevBookmark => self.prev_bookmark(),
            Action::ClearBookmarks => self.clear_bookmarks(),
            _ => {},
        }
        None
    }

    /// The tail indicator of the title.
    pub open spec fn title_tail(self) -> Seq<char> {
        if self.tail_mode {
            " (TAIL)"@
        } else if self.new_entries_count > 0 {
            " (+"@ + decimal(self.new_entries_count as nat) + " new)"@
        } else {
            Seq::empty()
        }
    }

    /// The search part of the title: the term and the current match.
    pub open spec fn title_search(self) -> Seq<char> {
        match self.search_term {
            Some(t) => if self.search_matches@.len() == 0 {
                " [/"@ + t@ + ": no matches]"@
            } else {
                " [/"@ + t@ + ": "@ + decimal((self.search_match_cursor + 1) as nat) + "/"@ + decimal(
                    self.search_matches@.len(),
                ) + "]"@
            },
            None => Seq::empty(),
        }
    }

    /// The context part of the title.
    pub open spec fn title_context(self) -> Seq<char> {
        if self.context_lines > 0 {
            " [ctx:"@ + decimal(self.context_lines as nat) + "]"@
        } else {
            Seq::empty()
        }
    }

    /// The dedup part of the title: mode, entries and groups.
    pub open spec fn title_dedup(self) -> Seq<char> {
        if self.dedup_mode != DedupMode::Off {
            " ["@ + mode_label(self.dedup_mode) + " "@ + decimal(self.entries@.len()) + "→"@
                + decimal(self.dedup_groups@.len()) + "]"@
        } else {
            Seq::empty()
        }
    }

    /// The bookmark part of the title.
    pub open spec fn title_marks(self) -> Seq<char> {
        if self.bookmarks@.len() > 0 {
            " ["@ + decimal(self.bookmarks@.len()) + "bm]"@
        } else {
            Seq::empty()
        }
    }

    /// The table-view part of the title.
    pub open spec fn title_column(self) -> Seq<char> {
        if self.column_mode {
            " [COL]"@
        } else {
            Seq::empty()
        }
    }

    /// The title of the viewer's frame: `Logs`, then the tail or
    /// new-entries indicator, the search and its position, the context
    /// setting, the table view, the dedup summary and the bookmark count.
    pub open spec fn title_text(self) -> Seq<char> {
        " Logs"@ + self.title_tail() + self.title_search() + self.title_context() + self.title_column()
            + self.title_dedup() + self.title_marks() + " "@
    }

    /// The title of the viewer's frame.
    pub fn title(&self) -> (t: String)
        requires
            self.search_wf(),
        ensures
            t@ == self.title_text(),
    {
        let mut t = String::from_str(" Logs");
        self.push_title_tail(&mut t);
        self.push_title_search(&mut t);
        self.push_title_context(&mut t);
        if self.column_mode {
            t.append(" [COL]");
        }
        self.push_title_dedup(&mut t);
        self.push_title_marks(&mut t);
        t.append(" ");
        assert(t@ =~= self.title_text());
        t
    }

    fn push_title_tail(&self, t: &mut String)
        ensures
            final(t)@ == old(t)@ + self.title_tail(),
    {
        if self.tail_mode {
            t.append(" (TAIL)");
        } else if self.new_entries_count > 0 {
            t.append(" (+");
            t.append(usize_decimal(self.new_entries_count).as_str());
            t.append(" new)");
        }
        assert(t@ =~= old(t)@ + self.title_tail());
    }

    fn push_title_search(&self, t: &mut String)
        requires
            self.search_wf(),
        ensures
            final(t)@ == old(t)@ + self.title_search(),
    {
        if let Some(term) = &self.search_term {
            t.append(" [/");
            t.append(term.as_str());
            if self.search_matches.len() == 0 {
                t.append(": no matches]");
            } else {
                t.append(": ");
                t.append(usize_decimal(self.search_match_cursor + 1).as_str());
                t.append("/");
                t.append(usize_decimal(self.search_matches.len()).as_str());
                t.append("]");
            }
        }
        assert(t@ =~= old(t)@ + self.title_search());
    }

    fn push_title_context(&self, t: &mut String)
        ensures
            final(t)@ == old(t)@ + self.title_context(),
    {
        if self.context_lines > 0 {
            t.append(" [ctx:");
            t.append(usize_decimal(self.context_lines).as_str());
            t.append("]");
        }
        assert(t@ =~= old(t)@ + self.title_context());
    }

    fn push_title_dedup(&self, t: &mut String)
        ensures
            final(t)@ == old(t)@ + self.title_dedup(),
    {
        if self.dedup_mode != DedupMode::Off {
            t.append(" [");
            t.append(self.dedup_mode.label());
            t.append(" ");
            t.append(usize_decimal(self.entries.len()).as_str());
            t.append("→");
            t.append(usize_decimal(self.dedup_groups.len()).as_str());
            t.append("]");
        }
        assert(t@ =~= old(t)@ + self.title_dedup());
    }

    fn push_title_marks(&self, t: &mut String)
        ensures
            final(t)@ == old(t)@ + self.title_marks(),
    {
        if self.bookmarks.len() > 0 {
            t.append(" [");
            t.append(usize_decimal(self.bookmarks.len()).as_str());
            t.append("bm]");
        }
        assert(t@ =~= old(t)@ + self.title_marks());
    }

    /// Whether entry `i` is a match or context of a match.
    pub open spec fn is_relevant(self, i: int) -> bool {
        (0 <= i && self.search_matches@.contains(i as usize)) || in_context(
            self.search_matches@,
            self.context_lines as int,
            self.entries@.len() as int,
            i,
        )
    }

    /// Whether a separator goes before entry `i`: context view is on, `i`
    /// is relevant and the entry before it is not.
    pub open spec fn gap_before(self, i: int) -> bool {
        &&& self.context_lines > 0
        &&& self.search_matches@.len() > 0
        &&& i > 0
        &&& self.is_relevant(i)
        &&& !self.is_relevant(i - 1)
    }

    /// Continuation lines hidden under entry `i` when it is the parent of a
    /// collapsed group.
    pub open spec fn hidden_under(self, i: int) -> usize {
        let gs = self.line_groups@;
        match owner(gs, i) {
            Some(g) => if groups_span(gs, g) == i && gs[g].continuation_count > 0 && gs[g].collapsed {
                gs[g].continuation_count
            } else {
                0
            },
            None => 0,
        }
    }

    /// The row that shows entry `i` as `kind`.
    pub open spec fn entry_row(self, i: int, kind: RowKind) -> Row {
        Row {
            kind,
            entry_idx: i as usize,
            selected: self.selected_line == Some((i - self.spec_window().0) as usize),
            bookmarked: self.bookmarks@.contains(i as usize),
            hidden_lines: self.hidden_under(i),
            group: 0,
        }
    }

    /// The rows that entry `i` contributes outside dedup mode. With context
    /// view on during a search only matches and their context show, with a
    /// separator before each run; otherwise continuation lines of collapsed
    /// groups are hidden and those of expanded groups drawn as such.
    pub open spec fn rows_of(self, i: int) -> Seq<Row> {
        if self.search_term is Some && self.context_lines > 0 {
            let m = 0 <= i && self.search_matches@.contains(i as usize);
            let c = in_context(self.search_matches@, self.context_lines as int, self.entries@.len() as int, i);
            if !m && !c {
                Seq::empty()
            } else {
                let sep = if self.gap_before(i) {
                    seq![Row { kind: RowKind::Separator, entry_idx: 0, selected: false, bookmarked: false, hidden_lines: 0, group: 0 }]
                } else {
                    Seq::empty()
                };
                sep + seq![self.entry_row(i, if c && !m { RowKind::Context } else { RowKind::Entry })]
            }
        } else {
            let gs = self.line_groups@;
            match owner(gs, i) {
                Some(g) => if groups_span(gs, g) != i {
                    if gs[g].collapsed {
                        Seq::empty()
                    } else {
                        seq![Row { kind: RowKind::Continuation, entry_idx: i as usize, selected: false, bookmarked: false, hidden_lines: 0, group: 0 }]
                    }
                } else {
                    seq![self.entry_row(i, RowKind::Entry)]
                },
                None => seq![self.entry_row(i, RowKind::Entry)],
            }
        }
    }

    /// The rows of the entries `lo..hi`, in order.
    pub open spec fn window_rows(self, lo: int, hi: int) -> Seq<Row>
        decreases hi - lo,
    {
        if hi <= lo {
            Seq::empty()
        } else {
            self.window_rows(lo, hi - 1) + self.rows_of(hi - 1)
        }
    }

    /// The first and one-past-last dedup group shown in a body of `h` lines.
    pub open spec fn group_window(self, h: int) -> (int, int) {
        let n = self.dedup_groups@.len() as int;
        let end = if n > self.scroll_offset { n - self.scroll_offset } else { 0 };
        (if end > h { end - h } else { 0 }, end)
    }

    /// The row of the `k`-th shown dedup group, counted from `first`.
    pub open spec fn group_row(self, first: int, k: int) -> Row {
        let g = self.dedup_groups@[first + k];
        Row {
            kind: RowKind::Group,
            entry_idx: g.entry_idx,
            selected: self.selected_line == Some(k as usize),
            bookmarked: self.bookmarks@.contains(g.entry_idx),
            hidden_lines: self.hidden_under(g.entry_idx as int),
            group: (first + k) as usize,
        }
    }

    /// The rows the viewer's body shows with `h` lines of height: the
    /// visible dedup groups when dedup is on and there are groups, else the
    /// rows of the visible window of entries.
    pub open spec fn display_rows_spec(self, h: int) -> Seq<Row> {
        if self.dedup_mode != DedupMode::Off && self.dedup_groups@.len() > 0 {
            let (first, end) = self.group_window(h);
            Seq::new((end - first) as nat, |k: int| self.group_row(first, k))
        } else {
            self.window_rows(self.spec_window().0, self.spec_window().1)
        }
    }

    /// The rows of the viewer's body for a body `height` lines high.
    pub fn display_rows(&self, height: usize) -> (rows: Vec<Row>)
        requires
            self.wf(),
        ensures
            rows@ == self.display_rows_spec(height as int),
    {
        let n = self.entries.len();
        if self.dedup_mode != DedupMode::Off && self.dedup_groups.len() > 0 {
            let ng = self.dedup_groups.len();
            let end = if ng > self.scroll_offset { ng - self.scroll_offset } else { 0 };
            let first = if end > height { end - height } else { 0 };
            let mut rows: Vec<Row> = Vec::new();
            let mut k: usize = 0;
            while k < end - first
                invariant
                    self.wf(),
                    ng == self.dedup_groups@.len(),
                    (first as int, end as int) == self.group_window(height as int),
                    first <= end <= ng,
                    k <= end - first,
                    rows@ == Seq::new(k as nat, |j: int| self.group_row(first as int, j)),
                decreases end - first - k,
            {
                let g = &self.dedup_groups[first + k];
                proof {
                    assert(group_ok(self.dedup_groups@[first + k], self.entries@, dedup_keys(self.dedup_mode, self.entries@)));
                    assert(g.member_indices@[g.member_indices@.len() - 1] < self.entries@.len());
                }
                let row = Row {
                    kind: RowKind::Group,
                    entry_idx: g.entry_idx,
                    selected: match self.selected_line {
                        Some(s) => s == k,
                        None => false,
                    },
                    bookmarked: contains_index(&self.bookmarks, g.entry_idx),
                    hidden_lines: self.hidden_lines_under(g.entry_idx),
                    group: first + k,
                };
                rows.push(row);
                proof {
                    assert(rows@ =~= Seq::new((k + 1) as nat, |j: int| self.group_row(first as int, j)));
                }
                k += 1;
            }
            return rows;
        }
        let (start, end) = self.visible_range();
        let active = self.search_term.is_some() && self.context_lines > 0;
        let matched = if active { index_flags(&self.search_matches, n) } else { Vec::new() };
        let context = if active {
            proof {
                assert(self.search_regex is Some);
                assert(forall|k: int| 0 <= k < self.search_matches@.len() ==> self.search_matches@[k] < n);
            }
            context_flags(&self.search_matches, self.context_lines, n)
        } else {
            Vec::new()
        };
        let mut rows: Vec<Row> = Vec::new();
        let mut i: usize = start;
        while i < end
            invariant
                self.wf(),
                n == self.entries@.len(),
                start <= i <= end <= n,
                (start as int, end as int) == self.spec_window(),
                active == (self.search_term is Some && self.context_lines > 0),
                active ==> matched@.len() == n && context@.len() == n,
                active ==> forall|j: int| 0 <= j < n ==> #[trigger] matched@[j] == self.search_matches@.contains(j as usize),
                active ==> forall|j: int| 0 <= j < n ==> #[trigger] context@[j] == in_context(self.search_matches@, self.context_lines as int, n as int, j),
                rows@ == self.window_rows(start as int, i as int),
            decreases end - i,
        {
            let more = self.entry_rows(i, start, active, &matched, &context);
            let ghost before = rows@;
            let mut more = more;
            rows.append(&mut more);
            proof {
                assert(rows@ == self.window_rows(start as int, i + 1));
            }
            i += 1;
        }
        rows
    }

    /// The rows entry `i` contributes outside dedup mode.
    fn entry_rows(&self, i: usize, start: usize, active: bool, matched: &Vec<bool>, context: &Vec<bool>) -> (rows: Vec<Row>)
        requires
            self.wf(),
            i < self.entries@.len(),
            start == self.spec_window().0,
            start <= i,
            active == (self.search_term is Some && self.context_lines > 0),
            active ==> matched@.len() == self.entries@.len() && context@.len() == self.entries@.len(),
            active ==> forall|j: int| 0 <= j < self.entries@.len() ==> #[trigger] matched@[j] == self.search_matches@.contains(j as usize),
            active ==> forall|j: int| 0 <= j < self.entries@.len() ==> #[trigger] context@[j] == in_context(self.search_matches@, self.context_lines as int, self.entries@.len() as int, j),
        ensures
            rows@ == self.rows_of(i as int),
    {
        let mut rows: Vec<Row> = Vec::new();
        if active {
            let m = matched[i];
            let c = context[i];
            if !m && !c {
                return rows;
            }
            if self.search_matches.len() > 0 && i > 0 && !matched[i - 1] && !context[i - 1] {
                rows.push(Row { kind: RowKind::Separator, entry_idx: 0, selected: false, bookmarked: false, hidden_lines: 0, group: 0 });
            }
            let kind = if c && !m { RowKind::Context } else { RowKind::Entry };
            rows.push(self.make_entry_row(i, start, kind));
            proof {
                assert(rows@ =~= self.rows_of(i as int));
            }
            return rows;
        }
        match group_of_entry(&self.line_groups, i) {
            Some((g, parent)) => {
                proof {
                    lemma_owner_is(self.line_groups@, i as int, g as int);
                }
                if parent != i {
                    if !self.line_groups[g].collapsed {
                        rows.push(Row { kind: RowKind::Continuation, entry_idx: i, selected: false, bookmarked: false, hidden_lines: 0, group: 0 });
                    }
                } else {
                    rows.push(self.make_entry_row(i, start, RowKind::Entry));
                }
            },
            None => {
                proof {
                    lemma_owner_none(self.line_groups@, i as int);
                }
                rows.push(self.make_entry_row(i, start, RowKind::Entry));
            },
        }
        proof {
            assert(rows@ =~= self.rows_of(i as int));
        }
        rows
    }

    /// The row showing entry `i` as `kind`.
    fn make_entry_row(&self, i: usize, start: usize, kind: RowKind) -> (r: Row)
        requires
            self.wf(),
            start == self.spec_window().0,
            start <= i,
        ensures
            r == self.entry_row(i as int, kind),
    {
        Row {
            kind,
            entry_idx: i,
            selected: match self.selected_line {
                Some(s) => s == i - start,
                None => false,
            },
            bookmarked: contains_index(&self.bookmarks, i),
            hidden_lines: self.hidden_lines_under(i),
            group: 0,
        }
    }

    /// Continuation lines hidden under entry `i`.
    fn hidden_lines_under(&self, i: usize) -> (h: usize)
        ensures
            h == self.hidden_under(i as int),
    {
        match group_of_entry(&self.line_groups, i) {
            Some((g, parent)) => {
                proof {
                    lemma_owner_is(self.line_groups@, i as int, g as int);
                }
                let grp = self.line_groups[g];
                if parent == i && grp.continuation_count > 0 && grp.collapsed {
                    grp.continuation_count
                } else {
                    0
                }
            },
            None => {
                proof {
                    lemma_owner_none(self.line_groups@, i as int);
                }
                0
            },
        }
    }

    /// Context lines shown around search matches.
    pub fn context_lines(&self) -> (n: usize)
        ensures
            n == self.context_lines,
    {
        self.context_lines
    }
}

/// The regex searched for `term`, when `regex` accepts its search pattern.
pub fn search_regex_for(term: &str) -> (r: Option<CompiledRegex>)
    ensures
        r is Some <==> regex_compiles(search_pattern(term@)),
        r matches Some(re) ==> re.spec_source() == search_pattern(term@),
{
    let plain = prefixed_case_insensitive(term);
    match compile(plain.as_str()) {
        Ok(re) => Some(re),
        Err(_) => {
            let literal = prefixed_case_insensitive(escape(term).as_str());
            match compile(literal.as_str()) {
                Ok(re) => Some(re),
                Err(_) => None,
            }
        },
    }
}

/// The owning group is the only group whose span contains the entry.
proof fn lemma_owner_is(gs: Seq<LineGroup>, e: int, g: int)
    requires
        0 <= g < gs.len(),
        groups_span(gs, g) <= e < groups_span(gs, g + 1),
    ensures
        owner(gs, e) == Some(g),
{
    let h = choose|h: int| 0 <= h < gs.len() && #[trigger] groups_span(gs, h) <= e < groups_span(gs, h + 1);
    if h < g {
        lemma_span_monotone(gs, h + 1, g);
    } else if h > g {
        lemma_span_monotone(gs, g + 1, h);
    }
}

/// An entry past the span of every group has no owner.
proof fn lemma_owner_none(gs: Seq<LineGroup>, e: int)
    requires
        e >= groups_span(gs, gs.len() as int),
    ensures
        owner(gs, e) is None,
{
    assert forall|g: int| 0 <= g < gs.len() implies !(#[trigger] groups_span(gs, g) <= e < groups_span(gs, g + 1)) by {
        lemma_span_monotone(gs, g + 1, gs.len() as int);
    }
}

/// Whether `x` is in `v`.
fn contains_index(v: &Vec<usize>, x: usize) -> (b: bool)
    ensures
        b == v@.contains(x),
{
    let mut i: usize = 0;
    while i < v.len()
        invariant
            i <= v.len(),
            forall|k: int| 0 <= k < i ==> v@[k] != x,
        decreases v.len() - i,
    {
        if v[i] == x {
            return true;
        }
        i += 1;
    }
    false
}

/// `n` flags, set at the indices listed in `v`.
fn index_flags(v: &Vec<usize>, n: usize) -> (f: Vec<bool>)
    ensures
        f@.len() == n,
        forall|j: int| 0 <= j < n ==> #[trigger] f@[j] == v@.contains(j as usize),
{
    let mut f: Vec<bool> = Vec::new();
    let mut j: usize = 0;
    while j < n
        invariant
            j <= n,
            f@.len() == j,
            forall|x: int| 0 <= x < j ==> !(#[trigger] f@[x]),
        decreases n - j,
    {
        f.push(false);
        j += 1;
    }
    let mut k: usize = 0;
    while k < v.len()
        invariant
            k <= v.len(),
            f@.len() == n,
            forall|x: int| 0 <= x < n ==> #[trigger] f@[x] == (exists|a: int| 0 <= a < k && v@[a] == x as usize),
        decreases v.len() - k,
    {
        let x = v[k];
        if x < n {
            f.set(x, true);
        }
        proof {
            assert forall|y: int| 0 <= y < n implies #[trigger] f@[y] == (exists|a: int| 0 <= a < k + 1 && v@[a] == y as usize) by {
                if f@[y] {
                    if y != x {
                        let a = choose|a: int| 0 <= a < k && v@[a] == y as usize;
                        assert(0 <= a < k + 1 && v@[a] == y as usize);
                    } else {
                        assert(v@[k as int] == y as usize);
                    }
                }
            }
        }
        k += 1;
    }
    proof {
        assert forall|y: int| 0 <= y < n implies #[trigger] f@[y] == v@.contains(y as usize) by {
            if v@.contains(y as usize) {
                let a = choose|a: int| 0 <= a < v@.len() && v@[a] == y as usize;
                assert(0 <= a < v@.len() && v@[a] == y as usize);
            }
        }
    }
    f
}

/// Whether `i` is in the context window of one of the first `k` matches.
pub open spec fn in_context_upto(matches: Seq<usize>, c: int, n: int, k: int, i: int) -> bool {
    exists|a: int|
        0 <= a < k && #[trigger] matches[a] - c <= i < matches[a] + c + 1 && i < n && i != matches[a] && 0 <= i
}

/// For each index below `n`, whether it is context of some match.
fn context_flags(matches: &Vec<usize>, c: usize, n: usize) -> (f: Vec<bool>)
    requires
        forall|k: int| 0 <= k < matches@.len() ==> matches@[k] < n,
    ensures
        f@.len() == n,
        forall|j: int| 0 <= j < n ==> #[trigger] f@[j] == in_context(matches@, c as int, n as int, j),
{
    let mut f: Vec<bool> = Vec::new();
    let mut j: usize = 0;
    while j < n
        invariant
            j <= n,
            f@.len() == j,
            forall|x: int| 0 <= x < j ==> !(#[trigger] f@[x]),
        decreases n - j,
    {
        f.push(false);
        j += 1;
    }
    let mut k: usize = 0;
    while k < matches.len()
        invariant
            k <= matches.len(),
            f@.len() == n,
            forall|k: int| 0 <= k < matches@.len() ==> matches@[k] < n,
            forall|x: int| 0 <= x < n ==> #[trigger] f@[x] == in_context_upto(matches@, c as int, n as int, k as int, x),
        decreases matches.len() - k,
    {
        let m = matches[k];
        if m < n {
            let lo = if m > c { m - c } else { 0 };
            let hi = if c < n - m { m + c + 1 } else { n };
            let mut i = lo;
            while i < hi
                invariant
                    lo <= i <= hi <= n,
                    m < n,
                    k < matches@.len(),
                    m == matches@[k as int],
                    lo == (if m > c { (m - c) as usize } else { 0 }),
                    hi == (if c < n - m { (m + c + 1) as usize } else { n }),
                    f@.len() == n,
                    forall|x: int| 0 <= x < n ==> #[trigger] f@[x] == (in_context_upto(matches@, c as int, n as int, k as int, x)
                        || (lo <= x < i && x != m)),
                decreases hi - i,
            {
                if i != m {
                    f.set(i, true);
                }
                i += 1;
            }
        }
        proof {
            assert forall|x: int| 0 <= x < n implies #[trigger] f@[x] == in_context_upto(matches@, c as int, n as int, k + 1, x) by {
                if in_context_upto(matches@, c as int, n as int, k + 1, x) {
                    let a = choose|a: int| 0 <= a < k + 1 && #[trigger] matches@[a] - c <= x < matches@[a] + c + 1 && x < n && x != matches@[a] && 0 <= x;
                    if a < k {
                        assert(in_context_upto(matches@, c as int, n as int, k as int, x));
                    }
                }
                if in_context_upto(matches@, c as int, n as int, k as int, x) {
                    let a = choose|a: int| 0 <= a < k && #[trigger] matches@[a] - c <= x < matches@[a] + c + 1 && x < n && x != matches@[a] && 0 <= x;
                    assert(0 <= a < k + 1 && matches@[a] - c <= x < matches@[a] + c + 1 && x < n && x != matches@[a] && 0 <= x);
                }
            }
        }
        k += 1;
    }
    proof {
        assert forall|x: int| 0 <= x < n implies #[trigger] f@[x] == in_context(matches@, c as int, n as int, x) by {
            if in_context(matches@, c as int, n as int, x) {
                let a = choose|a: int| 0 <= a < matches@.len() && #[trigger] matches@[a] - c <= x < matches@[a] + c + 1 && x < n && x != matches@[a] && 0 <= x;
                assert(0 <= a < matches@.len() && matches@[a] - c <= x < matches@[a] + c + 1 && x < n && x != matches@[a] && 0 <= x);
            }
            if in_context_upto(matches@, c as int, n as int, matches@.len() as int, x) {
                let a = choose|a: int| 0 <= a < matches@.len() && #[trigger] matches@[a] - c <= x < matches@[a] + c + 1 && x < n && x != matches@[a] && 0 <= x;
                assert(0 <= a < matches@.len() && matches@[a] - c <= x < matches@[a] + c + 1 && x < n && x != matches@[a] && 0 <= x);
            }
        }
    }
    f
}

/// The decimal digits of `n`.
fn usize_decimal(n: usize) -> (s: String)
    ensures
        s@ == decimal(n as nat),
{
    let w: u64 = n as u64;
    assert(w == n);
    decimal_string(w)
}

/// `(?i)` followed by `term`: the pattern that matches `term` ignoring case.
fn prefixed_case_insensitive(term: &str) -> (s: String)
    ensures
        s@ == "(?i)"@ + term@,
{
    let mut s = String::from_str("(?i)");
    s.append(term);
    s
}

/// The indices of the entries whose line `re` matches, ascending.
pub fn matching_indices(entries: &Vec<LogEntry>, re: &CompiledRegex) -> (v: Vec<usize>)
    ensures
        is_match_list(v@, entries@, re.spec_source()),
{
    let mut v: Vec<usize> = Vec::new();
    let mut i: usize = 0;
    while i < entries.len()
        invariant
            i <= entries.len(),
            forall|a: int, b: int| 0 <= a < b < v@.len() ==> v@[a] < v@[b],
            forall|k: int| 0 <= k < v@.len() ==> v@[k] < i && regex_is_match(
                re.spec_source(),
                entries@[v@[k] as int].line@,
            ),
            forall|j: int|
                0 <= j < i && regex_is_match(re.spec_source(), entries@[j].line@) ==> v@.contains(
                    j as usize,
                ),
        decreases entries.len() - i,
    {
        let ghost before = v@;
        if is_match(re, entries[i].line.as_str()) {
            v.push(i);
        }
        proof {
            assert forall|j: int|
                0 <= j < i + 1 && regex_is_match(re.spec_source(), entries@[j].line@) implies v@.contains(
                j as usize,
            ) by {
                if j < i {
                    let k = choose|k: int| 0 <= k < before.len() && before[k] == j as usize;
                    assert(v@[k] == j as usize);
                } else {
                    assert(v@[v@.len() - 1] == i);
                }
            }
        }
        i += 1;
    }
    v
}

/// The ascending list `b` with `e` removed if present, inserted otherwise.
pub fn toggled(b: &Vec<usize>, e: usize) -> (r: Vec<usize>)
    requires
        ascending(b@),
    ensures
        ascending(r@),
        r@.to_set() == (if b@.contains(e) {
            b@.to_set().remove(e)
        } else {
            b@.to_set().insert(e)
        }),
{
    let mut r: Vec<usize> = Vec::new();
    let mut i: usize = 0;
    while i < b.len() && b[i] < e
        invariant
            ascending(b@),
            i <= b.len(),
            r@ == b@.take(i as int),
            forall|k: int| 0 <= k < i ==> b@[k] < e,
        decreases b.len() - i,
    {
        r.push(b[i]);
        assert(b@.take(i + 1) == b@.take(i as int).push(b@[i as int]));
        i += 1;
    }
    let found = i < b.len() && b[i] == e;
    if !found {
        r.push(e);
    }
    let ghost mid = r@;
    let mut j: usize = if found { i + 1 } else { i };
    while j < b.len()
        invariant
            ascending(b@),
            i <= j <= b.len(),
            j == i || (found && j == i + 1) || j > i,
            found ==> i < b.len() && b@[i as int] == e && j >= i + 1,
            !found ==> (i == b.len() || b@[i as int] > e) && j >= i,
            r@ == mid + b@.subrange(if found { i + 1 } else { i as int }, j as int),
        decreases b.len() - j,
    {
        r.push(b[j]);
        j += 1;
    }
    proof {
        let lo: int = if found { i + 1 } else { i as int };
        assert(r@ == mid + b@.subrange(lo, b@.len() as int));
        assert(ascending(r@)) by {
            assert forall|x: int, y: int| 0 <= x < y < r@.len() implies r@[x] < r@[y] by {
                if y < mid.len() {
                } else if x < mid.len() {
                    if x < i {
                        assert(r@[x] == b@[x]);
                        if found {
                            assert(r@[y] == b@[lo + y - mid.len()]);
                        } else if y == mid.len() - 1 {
                        } else {
                            assert(r@[y] == b@[lo + y - mid.len()]);
                        }
                    } else {
                        assert(r@[y] == b@[lo + y - mid.len()]);
                    }
                } else {
                    assert(r@[x] == b@[lo + x - mid.len()]);
                    assert(r@[y] == b@[lo + y - mid.len()]);
                }
            }
        }
        let target = if b@.contains(e) { b@.to_set().remove(e) } else { b@.to_set().insert(e) };
        assert forall|x: usize| r@.to_set().contains(x) <==> target.contains(x) by {
            if r@.to_set().contains(x) {
                let k = choose|k: int| 0 <= k < r@.len() && r@[k] == x;
                if k < mid.len() {
                    if k < i {
                        assert(b@[k] == x);
                        assert(b@.contains(x));
                    }
                } else {
                    assert(b@[lo + k - mid.len()] == x);
                    assert(b@.contains(x));
                }
                if found {
                    assert(b@.contains(e));
                }
            }
            if target.contains(x) {
                if x == e {
                    if !found {
                        assert(r@[i as int] == e);
                    } else {
                        assert(b@[i as int] == e);
                    }
                } else {
                    assert(b@.contains(x));
                    let k = choose|k: int| 0 <= k < b@.len() && b@[k] == x;
                    if k < i {
                        assert(r@[k] == x);
                    } else if found && k == i {
                    } else {
                        assert(k >= lo);
                        assert(r@[mid.len() + k - lo] == x);
                    }
                }
            }
            if found {
                assert(b@.contains(e));
            } else {
                assert forall|k: int| 0 <= k < b@.len() implies b@[k] != e by {
                    if k < i {
                    } else {
                    }
                }
            }
        }
        assert(r@.to_set() =~= target);
    }
    r
}

/// `least_above` only depends on which elements lie above the bound, and
/// what it gives is an element of the list.
pub proof fn lemma_least_above_agree(b: Seq<usize>, c1: int, c2: int)
    requires
        forall|k: int| 0 <= k < b.len() ==> (b[k] > c1) == (b[k] > c2),
    ensures
        least_above(b, c1) == least_above(b, c2),
        least_above(b, c1) matches Some(t) ==> b.contains(t),
    decreases b.len(),
{
    if b.len() > 0 {
        lemma_least_above_agree(b.drop_first(), c1, c2);
        if let Some(t) = least_above(b.drop_first(), c1) {
            let k = choose|k: int| 0 <= k < b.drop_first().len() && b.drop_first()[k] == t;
            assert(b[k + 1] == t);
        }
        assert(b[0] == b[0]);
    }
}

/// `greatest_below` only depends on which elements lie below the bound,
/// and what it gives is an element of the list.
pub proof fn lemma_greatest_below_agree(b: Seq<usize>, c1: int, c2: int)
    requires
        forall|k: int| 0 <= k < b.len() ==> (b[k] < c1) == (b[k] < c2),
    ensures
        greatest_below(b, c1) == greatest_below(b, c2),
        greatest_below(b, c1) matches Some(t) ==> b.contains(t),
    decreases b.len(),
{
    if b.len() > 0 {
        lemma_greatest_below_agree(b.drop_last(), c1, c2);
        if let Some(t) = greatest_below(b.drop_last(), c1) {
            let k = choose|k: int| 0 <= k < b.drop_last().len() && b.drop_last()[k] == t;
            assert(b[k] == t);
        }
        assert(b[b.len() - 1] == b.last());
    }
}

/// The least element of the ascending list `b` above `c`, if any.
pub fn first_above(b: &Vec<usize>, c: usize) -> (r: Option<usize>)
    requires
        ascending(b@),
    ensures
        r == least_above(b@, c as int),
{
    let mut i: usize = 0;
    assert(b@.skip(0) == b@);
    while i < b.len()
        invariant
            i <= b.len(),
            least_above(b@, c as int) == least_above(b@.skip(i as int), c as int),
        decreases b.len() - i,
    {
        assert(b@.skip(i as int).drop_first() == b@.skip(i + 1));
        if b[i] > c {
            return Some(b[i]);
        }
        i += 1;
    }
    None
}

/// The greatest element of the ascending list `b` below `c`, if any.
pub fn last_below(b: &Vec<usize>, c: usize) -> (r: Option<usize>)
    requires
        ascending(b@),
    ensures
        r == greatest_below(b@, c as int),
{
    let mut i: usize = b.len();
    assert(b@.take(b@.len() as int) == b@);
    while i > 0
        invariant
            i <= b.len(),
            greatest_below(b@, c as int) == greatest_below(b@.take(i as int), c as int),
        decreases i,
    {
        assert(b@.take(i as int).drop_last() == b@.take(i - 1));
        if b[i - 1] < c {
            return Some(b[i - 1]);
        }
        i -= 1;
    }
    None
}


/// The dedup key of every entry.
fn compute_keys(entries: &Vec<LogEntry>, mode: DedupMode, patterns: &Option<NormPatterns>) -> (keys: Vec<String>)
    requires
        mode == DedupMode::Fuzzy ==> (patterns is Some <==> norm_patterns_compile()),
    ensures
        keys@.len() == entries@.len(),
        string_views(keys@) == dedup_keys(mode, entries@),
{
    let mut keys: Vec<String> = Vec::new();
    let mut i: usize = 0;
    while i < entries.len()
        invariant
            i <= entries.len(),
            mode == DedupMode::Fuzzy ==> (patterns is Some <==> norm_patterns_compile()),
            keys.len() == i,
            forall|j: int| 0 <= j < i ==> #[trigger] keys@[j]@ == dedup_key(mode, entries@[j].line@),
        decreases entries.len() - i,
    {
        let key = match (mode, patterns) {
            (DedupMode::Fuzzy, Some(p)) => p.normalize(entries[i].line.as_str()),
            _ => entries[i].line.clone(),
        };
        keys.push(key);
        i += 1;
    }
    assert(string_views(keys@) =~= dedup_keys(mode, entries@));
    keys
}

/// The groups of entries `0..upto` under `keys`, in the order their keys
/// first occur: each is well formed, keys are distinct, and every entry
/// belongs to one.
pub open spec fn partial_grouping(groups: Seq<DedupGroup>, entries: Seq<LogEntry>, keys: Seq<Seq<char>>, upto: int) -> bool {
    &&& forall|g: int| 0 <= g < groups.len() ==> group_ok(#[trigger] groups[g], entries.take(upto), keys)
    &&& forall|a: int, b: int|
        0 <= a < groups.len() && 0 <= b < groups.len() && a != b ==> group_key(groups[a], keys)
            != group_key(groups[b], keys)
    &&& forall|i: int| 0 <= i < upto ==> has_group_with_key(groups, keys, #[trigger] keys[i])
}

/// Group the entries by key, in order of first occurrence.
fn group_by_key(entries: &Vec<LogEntry>, keys: &Vec<String>) -> (groups: Vec<DedupGroup>)
    requires
        keys.len() == entries.len(),
    ensures
        partial_grouping(groups@, entries@, string_views(keys@), entries@.len() as int),
{
    let ghost kv = string_views(keys@);
    let mut groups: Vec<DedupGroup> = Vec::new();
    let mut i: usize = 0;
    while i < entries.len()
        invariant
            i <= entries.len(),
            keys.len() == entries.len(),
            kv == string_views(keys@),
            partial_grouping(groups@, entries@, kv, i as int),
        decreases entries.len() - i,
    {
        assert(kv[i as int] == keys@[i as int]@);
        let mut g: usize = 0;
        while g < groups.len()
            invariant
                g <= groups.len(),
                i < entries.len(),
                keys.len() == entries.len(),
                kv == string_views(keys@),
                partial_grouping(groups@, entries@, kv, i as int),
                forall|h: int| 0 <= h < g ==> group_key(groups@[h], kv) != kv[i as int],
            ensures
                g <= groups.len(),
                forall|h: int| 0 <= h < g ==> group_key(groups@[h], kv) != kv[i as int],
                g < groups.len() ==> group_key(groups@[g as int], kv) == kv[i as int],
            decreases groups.len() - g,
        {
            assert(group_ok(groups@[g as int], entries@.take(i as int), kv));
            let first = groups[g].member_indices[0];
            assert(kv[first as int] == keys@[first as int]@);
            if str_eq(keys[first].as_str(), keys[i].as_str()) {
                break;
            }
            g += 1;
        }
        let found = g < groups.len();
        let ghost before = groups@;
        if found {
            let ghost old_g = groups@[g as int];
            groups[g].member_indices.push(i);
            groups[g].entry_idx = i;
            groups[g].count = groups[g].member_indices.len();
            groups[g].last_timestamp = entries[i].timestamp;
            proof {
                let t = entries@.take(i + 1);
                let t0 = entries@.take(i as int);
                let m0 = old_g.member_indices@;
                let m1 = groups@[g as int].member_indices@;
                assert(m1 == m0.push(i));
                assert(group_ok(old_g, t0, kv));
                assert(group_ok(groups@[g as int], t, kv)) by {
                    assert forall|x: int, y: int| 0 <= x < y < m1.len() implies m1[x] < m1[y] by {
                        if y < m0.len() {
                            assert(m0[x] < m0[y]);
                        } else {
                            assert(m0[x] < t0.len());
                        }
                    }
                    assert forall|k: int| 0 <= k < m1.len() implies #[trigger] m1[k] < t.len()
                        && kv[m1[k] as int] == kv[m1[0] as int] by {
                        if k < m0.len() {
                            assert(m0[k] < t0.len());
                        }
                    }
                    assert forall|j: int| 0 <= j < t.len() && #[trigger] kv[j] == kv[m1[0] as int]
                        implies m1.contains(j as usize) by {
                        if j < i {
                            assert(m0.contains(j as usize));
                            let k = choose|k: int| 0 <= k < m0.len() && m0[k] == j as usize;
                            assert(m1[k] == j as usize);
                        } else {
                            assert(m1[m0.len() as int] == i);
                        }
                    }
                    assert(m0[0] < t0.len());
                    assert(t[m1[0] as int] == t0[m0[0] as int]);
                }
                assert forall|h: int| 0 <= h < groups@.len() implies group_ok(#[trigger] groups@[h], t, kv) by {
                    if h != g {
                        assert(groups@[h] == before[h]);
                        assert(group_ok(before[h], t0, kv));
                        let mh = before[h].member_indices@;
                        assert(group_key(before[h], kv) != group_key(before[g as int], kv));
                        assert forall|k: int| 0 <= k < mh.len() implies #[trigger] mh[k] < t.len()
                            && kv[mh[k] as int] == kv[mh[0] as int] by {
                            assert(mh[k] < t0.len());
                        }
                        assert forall|j: int| 0 <= j < t.len() && #[trigger] kv[j] == kv[mh[0] as int]
                            implies mh.contains(j as usize) by {
                            if j < i {
                            } else {
                                assert(kv[j] == kv[m0[0] as int]);
                            }
                        }
                        assert(mh[0] < t0.len());
                        assert(mh.last() < t0.len()) by {
                            assert(mh[mh.len() - 1] < t0.len());
                        }
                    }
                }
                assert forall|a: int, b: int|
                    0 <= a < groups@.len() && 0 <= b < groups@.len() && a != b implies group_key(groups@[a], kv)
                        != group_key(groups@[b], kv) by {
                    assert(group_key(groups@[a], kv) == group_key(before[a], kv));
                    assert(group_key(groups@[b], kv) == group_key(before[b], kv));
                }
                assert forall|j: int| 0 <= j < i + 1 implies has_group_with_key(groups@, kv, #[trigger] kv[j]) by {
                    if j < i {
                        assert(has_group_with_key(before, kv, kv[j]));
                        let h = choose|h: int| 0 <= h < before.len() && #[trigger] group_key(before[h], kv) == kv[j];
                        assert(group_key(groups@[h], kv) == group_key(before[h], kv));
                    } else {
                        assert(group_key(groups@[g as int], kv) == kv[j]);
                    }
                }
            }
        } else {
            let mut m: Vec<usize> = Vec::new();
            m.push(i);
            groups.push(DedupGroup {
                entry_idx: i,
                member_indices: m,
                count: 1,
                first_timestamp: entries[i].timestamp,
                last_timestamp: entries[i].timestamp,
            });
            proof {
                let t = entries@.take(i + 1);
                let t0 = entries@.take(i as int);
                let n = before.len() as int;
                assert(groups@[n].member_indices@ =~= seq![i]);
                assert(group_ok(groups@[n], t, kv)) by {
                    let m1 = groups@[n].member_indices@;
                    assert forall|j: int| 0 <= j < t.len() && #[trigger] kv[j] == kv[m1[0] as int]
                        implies m1.contains(j as usize) by {
                        if j < i {
                            assert(has_group_with_key(before, kv, kv[j]));
                        let h = choose|h: int| 0 <= h < before.len() && #[trigger] group_key(before[h], kv) == kv[j];
                            assert(group_key(before[h], kv) != kv[i as int]);
                        } else {
                            assert(m1[0] == i);
                        }
                    }
                }
                assert forall|h: int| 0 <= h < groups@.len() implies group_ok(#[trigger] groups@[h], t, kv) by {
                    if h < n {
                        assert(groups@[h] == before[h]);
                        assert(group_ok(before[h], t0, kv));
                        let mh = before[h].member_indices@;
                        assert(group_key(before[h], kv) != kv[i as int]);
                        assert forall|k: int| 0 <= k < mh.len() implies #[trigger] mh[k] < t.len()
                            && kv[mh[k] as int] == kv[mh[0] as int] by {
                            assert(mh[k] < t0.len());
                        }
                        assert forall|j: int| 0 <= j < t.len() && #[trigger] kv[j] == kv[mh[0] as int]
                            implies mh.contains(j as usize) by {
                        }
                        assert(mh[0] < t0.len());
                        assert(mh.last() < t0.len()) by {
                            assert(mh[mh.len() - 1] < t0.len());
                        }
                    }
                }
                assert forall|a: int, b: int|
                    0 <= a < groups@.len() && 0 <= b < groups@.len() && a != b implies group_key(groups@[a], kv)
                        != group_key(groups@[b], kv) by {
                    if a < n {
                        assert(groups@[a] == before[a]);
                    }
                    if b < n {
                        assert(groups@[b] == before[b]);
                    }
                }
                assert forall|j: int| 0 <= j < i + 1 implies has_group_with_key(groups@, kv, #[trigger] kv[j]) by {
                    if j < i {
                        assert(has_group_with_key(before, kv, kv[j]));
                        let h = choose|h: int| 0 <= h < before.len() && #[trigger] group_key(before[h], kv) == kv[j];
                        assert(groups@[h] == before[h]);
                    } else {
                        assert(group_key(groups@[n], kv) == kv[j]);
                    }
                }
            }
        }
        i += 1;
    }
    assert(entries@.take(entries@.len() as int) == entries@);
    groups
}

/// Whether the groups are ordered most recently seen first.
pub open spec fn by_recency(groups: Seq<DedupGroup>) -> bool {
    forall|a: int, b: int|
        0 <= a < b < groups.len() ==> !ts_before(groups[a].last_timestamp, groups[b].last_timestamp)
}

/// Whether `x` is a value of `perm`.
pub open spec fn covered(perm: Seq<int>, x: int) -> bool {
    exists|j: int| 0 <= j < perm.len() && #[trigger] perm[j] == x
}

/// Whether `perm` maps the positions of `out` one-to-one onto the positions
/// of `orig`, with `out[j] == orig[perm[j]]`.
pub open spec fn permutes(out: Seq<DedupGroup>, orig: Seq<DedupGroup>, perm: Seq<int>) -> bool {
    &&& out.len() == orig.len()
    &&& perm.len() == out.len()
    &&& forall|j: int| 0 <= j < out.len() ==> 0 <= #[trigger] perm[j] < orig.len() && out[j] == orig[perm[j]]
    &&& forall|a: int, b: int| 0 <= a < perm.len() && 0 <= b < perm.len() && a != b ==> perm[a] != perm[b]
    &&& forall|x: int| 0 <= x < orig.len() ==> #[trigger] covered(perm, x)
}

/// The groups reordered most recently seen first, with the permutation
/// that relates the two orders.
fn sort_by_recency(groups: Vec<DedupGroup>) -> (r: (Vec<DedupGroup>, Ghost<Seq<int>>))
    ensures
        permutes(r.0@, groups@, r.1@),
        by_recency(r.0@),
{
    let ghost orig = groups@;
    let mut rest = groups;
    let mut out: Vec<DedupGroup> = Vec::new();
    let ghost mut perm: Seq<int> = Seq::empty();
    while rest.len() > 0
        invariant
            rest@ == orig.take(rest@.len() as int),
            rest@.len() <= orig.len(),
            out@.len() + rest@.len() == orig.len(),
            perm.len() == out@.len(),
            forall|j: int|
                0 <= j < out@.len() ==> rest@.len() <= #[trigger] perm[j] < orig.len() && out@[j]
                    == orig[perm[j]],
            forall|a: int, b: int| 0 <= a < perm.len() && 0 <= b < perm.len() && a != b ==> perm[a] != perm[b],
            forall|x: int| rest@.len() <= x < orig.len() ==> #[trigger] covered(perm, x),
            by_recency(out@),
        decreases rest@.len(),
    {
        let ghost before_rest = rest@;
        let g = match rest.pop() {
            Some(g) => g,
            None => {
                return (out, Ghost(perm));
            },
        };
        let ghost idx = rest@.len() as int;
        assert(g == orig[idx]) by {
            assert(before_rest[idx] == orig[idx]);
        }
        assert(rest@ == orig.take(idx)) by {
            assert(rest@ =~= orig.take(idx));
        }
        let mut p: usize = 0;
        while p < out.len() && g.last_timestamp.before(&out[p].last_timestamp)
            invariant
                p <= out@.len(),
                forall|k: int| 0 <= k < p ==> ts_before(g.last_timestamp, #[trigger] out@[k].last_timestamp),
            decreases out@.len() - p,
        {
            p += 1;
        }
        let ghost old_out = out@;
        let ghost old_perm = perm;
        out.insert(p, g);
        proof {
            perm = old_perm.insert(p as int, idx);
            assert(out@ == old_out.insert(p as int, g));
            assert forall|j: int|
                0 <= j < out@.len() implies rest@.len() <= #[trigger] perm[j] < orig.len() && out@[j]
                    == orig[perm[j]] by {
                if j < p {
                    assert(perm[j] == old_perm[j]);
                } else if j == p {
                } else {
                    assert(perm[j] == old_perm[j - 1]);
                }
            }
            assert forall|a: int, b: int| 0 <= a < perm.len() && 0 <= b < perm.len() && a != b implies perm[a]
                != perm[b] by {
                if a != p && b != p {
                    let a0 = if a < p { a } else { a - 1 };
                    let b0 = if b < p { b } else { b - 1 };
                    assert(perm[a] == old_perm[a0]);
                    assert(perm[b] == old_perm[b0]);
                } else if a == p {
                    let b0 = if b < p { b } else { b - 1 };
                    assert(perm[b] == old_perm[b0]);
                } else {
                    let a0 = if a < p { a } else { a - 1 };
                    assert(perm[a] == old_perm[a0]);
                }
            }
            assert forall|x: int| rest@.len() <= x < orig.len() implies #[trigger] covered(perm, x) by {
                if x == idx {
                    assert(perm[p as int] == x);
                } else {
                    assert(covered(old_perm, x));
                    let j0 = choose|j: int| 0 <= j < old_perm.len() && #[trigger] old_perm[j] == x;
                    if j0 < p {
                        assert(perm[j0] == x);
                    } else {
                        assert(perm[j0 + 1] == x);
                    }
                }
            }
            assert forall|a: int, b: int| 0 <= a < b < out@.len() implies !ts_before(
                out@[a].last_timestamp,
                out@[b].last_timestamp,
            ) by {
                if b < p {
                } else if b == p {
                    assert(ts_before(g.last_timestamp, old_out[a].last_timestamp));
                } else if a < p {
                    assert(out@[b] == old_out[b - 1]);
                } else if a == p {
                    assert(out@[b] == old_out[b - 1]);
                    assert(!ts_before(g.last_timestamp, old_out[p as int].last_timestamp));
                    if b - 1 > p {
                        assert(!ts_before(old_out[p as int].last_timestamp, old_out[b - 1].last_timestamp));
                    }
                } else {
                    assert(out@[a] == old_out[a - 1]);
                    assert(out@[b] == old_out[b - 1]);
                }
            }
        }
    }
    (out, Ghost(perm))
}

/// Reordering a complete grouping by a permutation into recency order
/// gives the deduplication of the entries.
proof fn lemma_permuted_grouping(
    out: Seq<DedupGroup>,
    orig: Seq<DedupGroup>,
    perm: Seq<int>,
    entries: Seq<LogEntry>,
    keys: Seq<Seq<char>>,
)
    requires
        keys.len() == entries.len(),
        partial_grouping(orig, entries, keys, entries.len() as int),
        permutes(out, orig, perm),
        by_recency(out),
    ensures
        is_dedup_grouping(out, entries, keys),
{
    assert(entries.take(entries.len() as int) == entries);
    assert forall|g: int| 0 <= g < out.len() implies group_ok(#[trigger] out[g], entries, keys) by {
        assert(out[g] == orig[perm[g]]);
        assert(group_ok(orig[perm[g]], entries.take(entries.len() as int), keys));
    }
    assert forall|a: int, b: int| 0 <= a < out.len() && 0 <= b < out.len() && a != b implies group_key(
        out[a],
        keys,
    ) != group_key(out[b], keys) by {
        assert(out[a] == orig[perm[a]]);
        assert(out[b] == orig[perm[b]]);
    }
    assert forall|i: int| 0 <= i < entries.len() implies has_group_with_key(out, keys, #[trigger] keys[i]) by {
        assert(has_group_with_key(orig, keys, keys[i]));
        let h = choose|h: int| 0 <= h < orig.len() && #[trigger] group_key(orig[h], keys) == keys[i];
        assert(covered(perm, h));
        let j = choose|j: int| 0 <= j < perm.len() && #[trigger] perm[j] == h;
        assert(out[j] == orig[perm[j]]);
        assert(group_key(out[j], keys) == keys[i]);
    }
}

/// Groups never span past the position of their last entry.
proof fn lemma_span_monotone(gs: Seq<LineGroup>, a: int, b: int)
    requires
        0 <= a <= b <= gs.len(),
    ensures
        groups_span(gs, a) <= groups_span(gs, b),
        a < b ==> groups_span(gs, a) < groups_span(gs, b),
    decreases b - a,
{
    if a < b {
        lemma_span_monotone(gs, a, b - 1);
    }
}

/// Changing whether a group is collapsed keeps every span.
proof fn lemma_span_update(gs: Seq<LineGroup>, g: int, x: LineGroup, k: int)
    requires
        0 <= g < gs.len(),
        x.continuation_count == gs[g].continuation_count,
        0 <= k <= gs.len(),
    ensures
        groups_span(gs.update(g, x), k) == groups_span(gs, k),
    decreases k,
{
    if k > 0 {
        lemma_span_update(gs, g, x, k - 1);
    }
}

/// The span of the groups counts at least one entry per group.
proof fn lemma_span_bounded(gs: Seq<LineGroup>, k: int)
    requires
        0 <= k <= gs.len(),
    ensures
        groups_span(gs, k) >= k,
    decreases k,
{
    if k > 0 {
        lemma_span_bounded(gs, k - 1);
    }
}

/// The group owning entry `e` and the index of its parent entry.
fn group_of_entry(groups: &Vec<LineGroup>, e: usize) -> (r: Option<(usize, usize)>)
    ensures
        match r {
            Some((g, start)) => g < groups@.len() && start == groups_span(groups@, g as int)
                && groups_span(groups@, g as int) <= e < groups_span(groups@, g + 1),
            None => e >= groups_span(groups@, groups@.len() as int),
        },
{
    let mut consumed: usize = 0;
    let mut g: usize = 0;
    while g < groups.len()
        invariant
            g <= groups@.len(),
            consumed == groups_span(groups@, g as int),
            consumed <= e,
        decreases groups@.len() - g,
    {
        let size = groups[g].continuation_count;
        if e - consumed <= size {
            return Some((g, consumed));
        }
        consumed = consumed + 1 + size;
        g += 1;
    }
    None
}


/// Moving to the next search match and back returns to the same match.
pub proof fn law_next_then_prev_match(v: LogViewer)
    requires
        v.search_wf(),
    ensures
        v.at_next_match().at_prev_match().search_match_cursor == v.search_match_cursor,
        v.at_next_match().at_prev_match().search_matches == v.search_matches,
{
    let n = v.search_matches@.len() as int;
    let c = v.search_match_cursor as int;
    let w = v.at_next_match();
    if c + 1 < n {
        assert((c + 1) % n == c + 1) by (nonlinear_arith)
            requires
                0 <= c + 1 < n,
        ;
        assert(w.search_match_cursor == c + 1);
    } else if n > 0 {
        assert((c + 1) % n == 0) by (nonlinear_arith)
            requires
                c + 1 == n,
                n > 0,
        ;
        assert(w.search_match_cursor == 0);
    }
    assert(w.search_matches == v.search_matches);
}

/// Toggling the bookmark of the same selected entry twice gives back the
/// bookmarks there were.
pub proof fn law_bookmark_toggle_twice(v: LogViewer, a: LogViewer, b: LogViewer)
    requires
        bookmark_toggled(v, a),
        bookmark_toggled(a, b),
    ensures
        b.bookmarks@.to_set() == v.bookmarks@.to_set(),
{
    assert(a.selected_index() == v.selected_index());
    match v.selected_index() {
        Some(e) => {
            if e < v.entries@.len() {
                let x = e as usize;
                let s = v.bookmarks@.to_set();
                if v.bookmarks@.contains(x) {
                    assert(!a.bookmarks@.to_set().contains(x));
                    assert(!a.bookmarks@.contains(x));
                    assert(s.remove(x).insert(x) =~= s);
                } else {
                    assert(a.bookmarks@.to_set().contains(x));
                    assert(a.bookmarks@.contains(x));
                    assert(s.insert(x).remove(x) =~= s);
                }
            }
        },
        None => {},
    }
}

/// The character positions of byte ranges of `t`.
pub open spec fn char_ranges(t: Seq<char>, rs: Seq<(usize, usize)>) -> Seq<(int, int)> {
    Seq::new(rs.len(), |i: int| (char_at_byte(t, rs[i].0 as int), char_at_byte(t, rs[i].1 as int)))
}

/// The pieces of `t` from character `last` on, for the match ranges `rs`
/// (character positions): before each match the plain text since the
/// previous one when there is some, then the match itself highlighted, and
/// after the last match the plain rest when it is not empty.
pub open spec fn pieces_after(t: Seq<char>, rs: Seq<(int, int)>, last: int) -> Seq<(Seq<char>, bool)>
    decreases rs.len(),
{
    if rs.len() == 0 {
        if last < t.len() {
            seq![(t.subrange(last, t.len() as int), false)]
        } else {
            seq![]
        }
    } else {
        let s = rs[0].0;
        let e = rs[0].1;
        let before: Seq<(Seq<char>, bool)> = if s > last {
            seq![(t.subrange(last, s), false)]
        } else {
            seq![]
        };
        before + seq![(t.subrange(s, e), true)] + pieces_after(t, rs.drop_first(), e)
    }
}

/// The pieces a log line `t` is drawn in, given the byte ranges of the
/// search matches: see [`pieces_after`]; an empty line is one plain piece.
pub open spec fn highlighted(t: Seq<char>, rs: Seq<(usize, usize)>) -> Seq<(Seq<char>, bool)> {
    let p = pieces_after(t, char_ranges(t, rs), 0);
    if p.len() == 0 {
        seq![(t, false)]
    } else {
        p
    }
}

/// The texts of `p`, one after the other.
pub open spec fn joined(p: Seq<(Seq<char>, bool)>) -> Seq<char>
    decreases p.len(),
{
    if p.len() == 0 {
        Seq::empty()
    } else {
        p[0].0 + joined(p.drop_first())
    }
}

/// The character position at a character boundary gives back the boundary.
proof fn lemma_char_at_offset(t: Seq<char>, b: int)
    requires
        is_char_offset(t, b),
    ensures
        0 <= char_at_byte(t, b) <= t.len(),
        byte_len(t.take(char_at_byte(t, b))) == b,
{
    let k = choose|k: int| 0 <= k <= t.len() && #[trigger] byte_len(t.take(k)) == b;
    lemma_char_at_byte(t, k);
}

/// Character positions keep the order of the byte offsets they stand at.
proof fn lemma_char_at_order(t: Seq<char>, a: int, b: int)
    requires
        is_char_offset(t, a),
        is_char_offset(t, b),
        a <= b,
    ensures
        char_at_byte(t, a) <= char_at_byte(t, b),
{
    lemma_char_at_offset(t, a);
    lemma_char_at_offset(t, b);
    if char_at_byte(t, a) > char_at_byte(t, b) {
        lemma_byte_len_monotone(t, char_at_byte(t, b), char_at_byte(t, a));
    }
}

/// The pieces of `text` as the log viewer draws it, given the byte ranges
/// of the search matches in it (see [`highlighted`]).
pub fn highlight_pieces(text: &str, ranges: &Vec<(usize, usize)>) -> (r: Vec<(String, bool)>)
    requires
        ranges_in_text(text@, ranges@),
    ensures
        segment_views(r@) == highlighted(text@, ranges@),
{
    let v = chars_of(text);
    let ghost cr = char_ranges(text@, ranges@);
    let mut r: Vec<(String, bool)> = Vec::new();
    let mut last: usize = 0;
    let mut i: usize = 0;
    proof {
        assert(cr.skip(0) == cr);
        assert(segment_views(r@) =~= Seq::<(Seq<char>, bool)>::empty());
    }
    while i < ranges.len()
        invariant
            v@ == text@,
            last <= v@.len(),
            i <= ranges@.len(),
            cr == char_ranges(text@, ranges@),
            ranges_in_text(text@, ranges@),
            segment_views(r@) + pieces_after(text@, cr.skip(i as int), last as int)
                == pieces_after(text@, cr, 0),
        decreases ranges@.len() - i,
    {
        let (sb, eb) = ranges[i];
        assert(ranges@[i as int].0 <= ranges@[i as int].1);
        let ks = byte_to_char_offset(text, sb);
        let ke = byte_to_char_offset(text, eb);
        proof {
            lemma_char_at_byte(text@, ks as int);
            lemma_char_at_byte(text@, ke as int);
            if ks > ke {
                lemma_byte_len_monotone(text@, ke as int, ks as int);
            }
            let rest = cr.skip(i as int);
            assert(rest[0] == (ks as int, ke as int));
            assert(rest.drop_first() == cr.skip(i + 1));
        }
        let ghost old_r = segment_views(r@);
        let ghost before: Seq<(Seq<char>, bool)> = if ks > last {
            seq![(text@.subrange(last as int, ks as int), false)]
        } else {
            seq![]
        };
        if ks > last {
            r.push((string_from_range(&v, last, ks), false));
        }
        r.push((string_from_range(&v, ks, ke), true));
        proof {
            assert(segment_views(r@) =~= old_r + before + seq![(text@.subrange(ks as int, ke as int), true)]);
            let tail = pieces_after(text@, cr.skip(i + 1), ke as int);
            assert(old_r + (before + seq![(text@.subrange(ks as int, ke as int), true)] + tail)
                =~= segment_views(r@) + tail);
        }
        last = ke;
        i += 1;
    }
    proof {
        assert(cr.skip(i as int).len() == 0);
    }
    if last < v.len() {
        r.push((string_from_range(&v, last, v.len()), false));
        proof {
            assert(v@.subrange(last as int, v@.len() as int) == text@.subrange(last as int, text@.len() as int));
        }
    }
    proof {
        assert(segment_views(r@) =~= pieces_after(text@, cr, 0));
    }
    if r.len() == 0 {
        r.push((String::from_str(text), false));
        proof {
            assert(segment_views(r@) =~= seq![(text@, false)]);
        }
    }
    r
}

/// The pieces of `text` as the log viewer draws it while searching for
/// `re`: the plain text between the matches, and each match highlighted.
pub fn highlight_matches(text: &str, re: &CompiledRegex) -> (r: Vec<(String, bool)>)
    ensures
        segment_views(r@) == highlighted(text@, regex_find_ranges(re.spec_source(), text@)),
{
    let ranges = find_ranges(re, text);
    highlight_pieces(text, &ranges)
}

/// The pieces after character `last` put back together give the text from
/// `last` on, when the matches come in order from `last` on.
proof fn lemma_pieces_after_joined(t: Seq<char>, rs: Seq<(int, int)>, last: int)
    requires
        0 <= last <= t.len(),
        forall|i: int| 0 <= i < rs.len() ==> last <= #[trigger] rs[i].0 && rs[i].0 <= rs[i].1 <= t.len(),
        forall|i: int, j: int| 0 <= i < j < rs.len() ==> #[trigger] rs[i].1 <= #[trigger] rs[j].0,
    ensures
        joined(pieces_after(t, rs, last)) == t.subrange(last, t.len() as int),
    decreases rs.len(),
{
    if rs.len() == 0 {
        if last < t.len() {
            let p = seq![(t.subrange(last, t.len() as int), false)];
            assert(p.drop_first() =~= Seq::<(Seq<char>, bool)>::empty());
            assert(joined(p.drop_first()) == Seq::<char>::empty());
            assert(joined(p) =~= t.subrange(last, t.len() as int));
        } else {
            assert(t.subrange(last, t.len() as int) =~= Seq::<char>::empty());
        }
    } else {
        let s = rs[0].0;
        let e = rs[0].1;
        let rest = rs.drop_first();
        assert forall|i: int| 0 <= i < rest.len() implies e <= #[trigger] rest[i].0 && rest[i].0 <= rest[i].1 <= t.len() by {
            assert(rest[i] == rs[i + 1]);
        }
        assert forall|i: int, j: int| 0 <= i < j < rest.len() implies #[trigger] rest[i].1 <= #[trigger] rest[j].0 by {
            assert(rest[i] == rs[i + 1]);
            assert(rest[j] == rs[j + 1]);
        }
        lemma_pieces_after_joined(t, rest, e);
        let tail = pieces_after(t, rest, e);
        let hit = seq![(t.subrange(s, e), true)];
        lemma_joined_concat(hit, tail);
        assert(hit.drop_first() =~= Seq::<(Seq<char>, bool)>::empty());
        assert(joined(hit.drop_first()) == Seq::<char>::empty());
        assert(joined(hit) =~= t.subrange(s, e));
        if s > last {
            let before = seq![(t.subrange(last, s), false)];
            lemma_joined_concat(before, hit + tail);
            assert(before.drop_first() =~= Seq::<(Seq<char>, bool)>::empty());
            assert(joined(before.drop_first()) == Seq::<char>::empty());
            assert(joined(before) =~= t.subrange(last, s));
            assert(before + hit + tail =~= before + (hit + tail));
            assert(t.subrange(last, s) + (t.subrange(s, e) + t.subrange(e, t.len() as int))
                =~= t.subrange(last, t.len() as int));
        } else {
            assert(Seq::<(Seq<char>, bool)>::empty() + hit + tail =~= hit + tail);
            assert(t.subrange(s, e) + t.subrange(e, t.len() as int) =~= t.subrange(last, t.len() as int));
        }
    }
}

/// Joining two lists of pieces joins their texts.
proof fn lemma_joined_concat(a: Seq<(Seq<char>, bool)>, b: Seq<(Seq<char>, bool)>)
    ensures
        joined(a + b) == joined(a) + joined(b),
    decreases a.len(),
{
    if a.len() == 0 {
        assert(a + b =~= b);
        assert(joined(a) + joined(b) =~= joined(b));
    } else {
        lemma_joined_concat(a.drop_first(), b);
        assert((a + b).drop_first() =~= a.drop_first() + b);
        assert((a + b)[0] == a[0]);
        assert(a[0].0 + (joined(a.drop_first()) + joined(b)) =~= (a[0].0 + joined(a.drop_first())) + joined(b));
    }
}

/// Highlighting splits a line without changing it: the pieces put back
/// together give the line, for matches as `regex` reports them.
pub proof fn law_highlight_keeps_text(t: Seq<char>, rs: Seq<(usize, usize)>)
    requires
        match_ranges_ok(t, rs),
    ensures
        joined(highlighted(t, rs)) == t,
{
    let cr = char_ranges(t, rs);
    assert forall|i: int| 0 <= i < cr.len() implies 0 <= #[trigger] cr[i].0 && cr[i].0 <= cr[i].1 <= t.len() by {
        assert(rs[i].0 <= rs[i].1);
        lemma_char_at_order(t, rs[i].0 as int, rs[i].1 as int);
        lemma_char_at_offset(t, rs[i].0 as int);
        lemma_char_at_offset(t, rs[i].1 as int);
    }
    assert forall|i: int, j: int| 0 <= i < j < cr.len() implies #[trigger] cr[i].1 <= #[trigger] cr[j].0 by {
        assert(rs[i].1 <= rs[j].0);
        assert(rs[i].0 <= rs[i].1);
        assert(rs[j].0 <= rs[j].1);
        lemma_char_at_order(t, rs[i].1 as int, rs[j].0 as int);
    }
    lemma_pieces_after_joined(t, cr, 0);
    assert(t.subrange(0, t.len() as int) =~= t);
    let p = pieces_after(t, cr, 0);
    if p.len() == 0 {
        let q = seq![(t, false)];
        assert(q.drop_first() =~= Seq::<(Seq<char>, bool)>::empty());
        assert(joined(q.drop_first()) == Seq::<char>::empty());
        assert(joined(q) =~= t);
    }
}

/// The names in lists of strings.
pub open spec fn nested_views(f: Seq<Vec<String>>) -> Seq<Seq<Seq<char>>> {
    Seq::new(f.len(), |i: int| string_views(f[i]@))
}

/// The names of all the lists, one list after the other.
pub open spec fn all_names(f: Seq<Seq<Seq<char>>>) -> Seq<Seq<char>>
    decreases f.len(),
{
    if f.len() == 0 {
        Seq::empty()
    } else {
        all_names(f.drop_last()) + f.last()
    }
}

/// Whether `s` is in strictly ascending order.
pub open spec fn strictly_ascending(s: Seq<Seq<char>>) -> bool {
    forall|i: int, j: int| 0 <= i < j < s.len() ==> lex_lt(#[trigger] s[i], #[trigger] s[j])
}

/// Whether `cols` lists the field names `names` as the table's columns:
/// each name once, "timestamp" first and "level" next where they occur,
/// then the other names in ascending order.
pub open spec fn column_order(cols: Seq<Seq<char>>, names: Seq<Seq<char>>) -> bool {
    let ts = names.contains("timestamp"@);
    let lv = names.contains("level"@);
    let p = (if ts { 1int } else { 0int }) + (if lv { 1int } else { 0int });
    &&& cols.no_duplicates()
    &&& forall|n: Seq<char>| #[trigger] cols.contains(n) <==> names.contains(n)
    &&& p <= cols.len()
    &&& ts ==> cols[0] == "timestamp"@
    &&& lv ==> cols[p - 1] == "level"@
    &&& strictly_ascending(cols.skip(p))
}

/// A sequence extended by one element holds what it held and that element.
proof fn lemma_push_contains(s: Seq<Seq<char>>, x: Seq<char>, n: Seq<char>)
    ensures
        s.push(x).contains(n) <==> (s.contains(n) || n == x),
{
    if s.contains(n) {
        let k = choose|k: int| 0 <= k < s.len() && s[k] == n;
        assert(s.push(x)[k] == n);
    }
    if n == x {
        assert(s.push(x)[s.len() as int] == n);
    }
    if s.push(x).contains(n) {
        let k = choose|k: int| 0 <= k < s.push(x).len() && s.push(x)[k] == n;
        if k < s.len() {
            assert(s[k] == n);
        }
    }
}

/// Each distinct field name of `fields`, once.
fn distinct_names(fields: &Vec<Vec<String>>) -> (found: Vec<String>)
    ensures
        string_views(found@).no_duplicates(),
        forall|n: Seq<char>| #[trigger] string_views(found@).contains(n) <==> all_names(nested_views(fields@)).contains(n),
{
    let ghost nv = nested_views(fields@);
    let mut found: Vec<String> = Vec::new();
    let mut i: usize = 0;
    proof {
        assert(nv.take(0) =~= Seq::<Seq<Seq<char>>>::empty());
        assert(all_names(nv.take(0)) =~= Seq::<Seq<char>>::empty());
        assert(string_views(found@) =~= Seq::<Seq<char>>::empty());
    }
    while i < fields.len()
        invariant
            i <= fields@.len(),
            nv == nested_views(fields@),
            string_views(found@).no_duplicates(),
            forall|n: Seq<char>| #[trigger] string_views(found@).contains(n) <==> all_names(nv.take(i as int)).contains(n),
        decreases fields@.len() - i,
    {
        let row = &fields[i];
        let ghost done = all_names(nv.take(i as int));
        let ghost rv = string_views(row@);
        let mut j: usize = 0;
        proof {
            assert(done + rv.take(0) =~= done);
        }
        while j < row.len()
            invariant
                j <= row@.len(),
                *row == fields@[i as int],
                rv == string_views(row@),
                string_views(found@).no_duplicates(),
                forall|n: Seq<char>| #[trigger] string_views(found@).contains(n) <==> (done + rv.take(j as int)).contains(n),
            decreases row@.len() - j,
        {
            let ghost old_found = string_views(found@);
            let name = &row[j];
            proof {
                assert(done + rv.take(j + 1) =~= (done + rv.take(j as int)).push(rv[j as int]));
                assert forall|n: Seq<char>| (done + rv.take(j + 1)).contains(n) <==> ((done + rv.take(j as int)).contains(n) || n == rv[j as int]) by {
                    lemma_push_contains(done + rv.take(j as int), rv[j as int], n);
                }
            }
            if !has_string(&found, name.as_str()) {
                found.push(name.clone());
                proof {
                    assert(string_views(found@) =~= old_found.push(name@));
                    assert forall|n: Seq<char>| #[trigger] string_views(found@).contains(n) <==> (done + rv.take(j + 1)).contains(n) by {
                        lemma_push_contains(old_found, name@, n);
                    }
                    assert forall|a: int, b: int| 0 <= a < b < string_views(found@).len() implies string_views(found@)[a] != string_views(found@)[b] by {
                        if b == old_found.len() {
                            assert(old_found[a] == string_views(found@)[a]);
                        }
                    }
                }
            }
            j += 1;
        }
        proof {
            assert(rv.take(row@.len() as int) =~= rv);
            assert(nv.take(i + 1).drop_last() =~= nv.take(i as int));
            assert(nv.take(i + 1).last() == nv[i as int]);
            assert(nv[i as int] == rv);
        }
        i += 1;
    }
    proof {
        assert(nv.take(fields@.len() as int) =~= nv);
    }
    found
}

/// Position at which `x` goes into the ascending names `rest`.
fn name_slot(rest: &Vec<String>, x: &Vec<char>) -> (p: usize)
    requires
        strictly_ascending(string_views(rest@)),
    ensures
        p <= rest@.len(),
        forall|q: int| 0 <= q < p ==> !lex_lt(x@, string_views(rest@)[q]),
        forall|q: int| p <= q < rest@.len() ==> lex_lt(x@, string_views(rest@)[q]),
{
    let ghost rv = string_views(rest@);
    let mut p: usize = 0;
    while p < rest.len() && !lex_less(x, &chars_of(rest[p].as_str()))
        invariant
            p <= rest@.len(),
            rv == string_views(rest@),
            forall|q: int| 0 <= q < p ==> !lex_lt(x@, rv[q]),
        decreases rest@.len() - p,
    {
        p += 1;
    }
    proof {
        if p < rest@.len() {
            assert forall|q: int| p <= q < rest@.len() implies lex_lt(x@, rv[q]) by {
                if q > p {
                    assert(lex_lt(rv[p as int], rv[q]));
                    lemma_lex_transitive(x@, rv[p as int], rv[q]);
                }
            }
        }
    }
    p
}

/// Inserting a name between the smaller and the larger ones keeps the
/// order strict.
proof fn lemma_insert_ascending(s: Seq<Seq<char>>, p: int, x: Seq<char>)
    requires
        strictly_ascending(s),
        0 <= p <= s.len(),
        forall|q: int| 0 <= q < p ==> lex_lt(s[q], x),
        forall|q: int| p <= q < s.len() ==> lex_lt(x, s[q]),
    ensures
        strictly_ascending(s.insert(p, x)),
{
    let t = s.insert(p, x);
    assert forall|i: int, j: int| 0 <= i < j < t.len() implies lex_lt(#[trigger] t[i], #[trigger] t[j]) by {
        if i < p && j < p {
            assert(t[i] == s[i] && t[j] == s[j]);
        } else if i < p && j == p {
            assert(t[i] == s[i]);
        } else if i < p {
            assert(t[i] == s[i] && t[j] == s[j - 1]);
            lemma_lex_transitive(s[i], x, s[j - 1]);
        } else if i == p {
            assert(t[j] == s[j - 1]);
        } else {
            assert(t[i] == s[i - 1] && t[j] == s[j - 1]);
        }
    }
}

/// Strictly ascending names are distinct.
proof fn lemma_ascending_distinct(s: Seq<Seq<char>>)
    requires
        strictly_ascending(s),
    ensures
        s.no_duplicates(),
{
    assert forall|i: int, j: int| 0 <= i < s.len() && 0 <= j < s.len() && i != j implies s[i] != s[j] by {
        lemma_lex_total(s[i], s[j]);
        if i < j {
            assert(lex_lt(s[i], s[j]));
        } else {
            assert(lex_lt(s[j], s[i]));
        }
    }
}

/// The distinct names `found` in column order.
fn columns_in_order(found: &Vec<String>) -> (cols: Vec<String>)
    requires
        string_views(found@).no_duplicates(),
    ensures
        column_order(string_views(cols@), string_views(found@)),
{
    let ghost fv = string_views(found@);
    proof {
        reveal_strlit("timestamp");
        reveal_strlit("level");
    }
    let ts = has_string(found, "timestamp");
    let lv = has_string(found, "level");
    let mut rest: Vec<String> = Vec::new();
    let mut k: usize = 0;
    proof {
        assert(string_views(rest@) =~= Seq::<Seq<char>>::empty());
    }
    while k < found.len()
        invariant
            k <= found@.len(),
            fv == string_views(found@),
            fv.no_duplicates(),
            strictly_ascending(string_views(rest@)),
            forall|n: Seq<char>| #[trigger] string_views(rest@).contains(n) <==> (fv.take(k as int).contains(n)
                && n != "timestamp"@ && n != "level"@),
        decreases found@.len() - k,
    {
        let ghost old_rest = string_views(rest@);
        let name = &found[k];
        proof {
            assert(fv.take(k + 1) =~= fv.take(k as int).push(fv[k as int]));
            assert forall|n: Seq<char>| fv.take(k + 1).contains(n) <==> (fv.take(k as int).contains(n) || n == fv[k as int]) by {
                lemma_push_contains(fv.take(k as int), fv[k as int], n);
            }
            if fv.take(k as int).contains(fv[k as int]) {
                let q = choose|q: int| 0 <= q < k && fv.take(k as int)[q] == fv[k as int];
                assert(fv[q] == fv[k as int]);
            }
        }
        if !str_eq(name.as_str(), "timestamp") && !str_eq(name.as_str(), "level") {
            let x = chars_of(name.as_str());
            let p = name_slot(&rest, &x);
            proof {
                assert(!old_rest.contains(name@));
                assert forall|q: int| 0 <= q < p implies lex_lt(old_rest[q], name@) by {
                    lemma_lex_total(name@, old_rest[q]);
                    if old_rest[q] == name@ {
                        assert(old_rest.contains(name@));
                    }
                }
                lemma_insert_ascending(old_rest, p as int, name@);
            }
            rest.insert(p, name.clone());
            proof {
                assert(string_views(rest@) =~= old_rest.insert(p as int, name@));
                assert forall|n: Seq<char>| #[trigger] string_views(rest@).contains(n) <==> (old_rest.contains(n) || n == name@) by {
                    let t = string_views(rest@);
                    if old_rest.contains(n) {
                        let q = choose|q: int| 0 <= q < old_rest.len() && old_rest[q] == n;
                        if q < p {
                            assert(t[q] == n);
                        } else {
                            assert(t[q + 1] == n);
                        }
                    }
                    if n == name@ {
                        assert(t[p as int] == n);
                    }
                    if t.contains(n) {
                        let q = choose|q: int| 0 <= q < t.len() && t[q] == n;
                        if q < p {
                            assert(old_rest[q] == n);
                        } else if q > p {
                            assert(old_rest[q - 1] == n);
                        }
                    }
                }
            }
        }
        k += 1;
    }
    let mut cols: Vec<String> = Vec::new();
    if ts {
        cols.push(String::from_str("timestamp"));
    }
    if lv {
        cols.push(String::from_str("level"));
    }
    let ghost head = string_views(cols@);
    let ghost tail = string_views(rest@);
    proof {
        let h1: Seq<Seq<char>> = if ts { seq!["timestamp"@] } else { seq![] };
        let h2: Seq<Seq<char>> = if lv { seq!["level"@] } else { seq![] };
        assert(head =~= h1 + h2);
    }
    proof {
        assert(fv.take(found@.len() as int) =~= fv);
        assert("timestamp"@ != "level"@) by {
            assert("timestamp"@.len() != "level"@.len());
        }
        lemma_ascending_distinct(tail);
    }
    cols.append(&mut rest);
    proof {
        let c = string_views(cols@);
        assert(c =~= head + tail);
        let p = head.len() as int;
        assert(c.skip(p) =~= tail);
        assert forall|n: Seq<char>| #[trigger] c.contains(n) <==> fv.contains(n) by {
            if c.contains(n) {
                let q = choose|q: int| 0 <= q < c.len() && c[q] == n;
                if q >= p {
                    assert(tail[q - p] == n);
                    assert(tail.contains(n));
                } else {
                    assert(head[q] == n);
                }
            }
            if fv.contains(n) {
                if n == "timestamp"@ {
                    assert(c[0] == n);
                } else if n == "level"@ {
                    assert(c[p - 1] == n);
                } else {
                    assert(tail.contains(n));
                    let q = choose|q: int| 0 <= q < tail.len() && tail[q] == n;
                    assert(c[p + q] == n);
                }
            }
        }
        assert forall|a: int, b: int| 0 <= a < c.len() && 0 <= b < c.len() && a != b implies c[a] != c[b] by {
            if a >= p && b >= p {
                assert(c[a] == tail[a - p] && c[b] == tail[b - p]);
            } else if a >= p {
                assert(c[a] == tail[a - p]);
                assert(tail.contains(c[a]));
            } else if b >= p {
                assert(c[b] == tail[b - p]);
                assert(tail.contains(c[b]));
            }
        }
    }
    cols
}

impl LogViewer {
    /// Discover the table's columns from the field names of the structured
    /// data of each visible entry (an entry without any gives an empty
    /// list): every name once, "timestamp" first and "level" next where they
    /// occur, then the others in ascending order.
    pub fn discover_columns(&mut self, fields: Vec<Vec<String>>)
        ensures
            *final(self) == (LogViewer { discovered_columns: final(self).discovered_columns, ..*old(self) }),
            column_order(string_views(final(self).discovered_columns@), all_names(nested_views(fields@))),
    {
        let found = distinct_names(&fields);
        let cols = columns_in_order(&found);
        proof {
            let fv = string_views(found@);
            let names = all_names(nested_views(fields@));
            assert(fv.contains("timestamp"@) == names.contains("timestamp"@));
            assert(fv.contains("level"@) == names.contains("level"@));
        }
        self.discovered_columns = cols;
    }

    /// After a new snapshot of the entries: rediscover the table's columns
    /// from the visible entries' field names when the table view is on.
    pub fn refresh_columns(&mut self, fields: Vec<Vec<String>>)
        ensures
            !old(self).column_mode ==> *final(self) == *old(self),
            old(self).column_mode ==> {
                &&& *final(self) == (LogViewer { discovered_columns: final(self).discovered_columns, ..*old(self) })
                &&& column_order(string_views(final(self).discovered_columns@), all_names(nested_views(fields@)))
            },
    {
        if self.column_mode {
            self.discover_columns(fields);
        }
    }

    /// Switch the table view on or off; switching it on discovers the
    /// columns from the visible entries' field names (see
    /// [`LogViewer::discover_columns`]).
    pub fn toggle_column_mode(&mut self, fields: Vec<Vec<String>>)
        ensures
            final(self).column_mode == !old(self).column_mode,
            old(self).column_mode ==> *final(self) == (LogViewer { column_mode: false, ..*old(self) }),
            !old(self).column_mode ==> {
                &&& *final(self) == (LogViewer {
                    column_mode: true,
                    discovered_columns: final(self).discovered_columns,
                    ..*old(self)
                })
                &&& column_order(string_views(final(self).discovered_columns@), all_names(nested_views(fields@)))
            },
    {
        self.column_mode = !self.column_mode;
        if self.column_mode {
            self.discover_columns(fields);
        }
    }
}

/// Whether key `a` goes strictly before key `b`, ascending (`asc`) or
/// descending. Keys compare as `str` does: character by character.
pub open spec fn key_before(a: Seq<char>, b: Seq<char>, asc: bool) -> bool {
    if asc {
        lex_lt(a, b)
    } else {
        lex_lt(b, a)
    }
}

/// Where an entry with key `k` goes into the ordered entry indices `s`:
/// after every index whose key does not come after `k`.
pub open spec fn key_slot(keys: Seq<Seq<char>>, s: Seq<usize>, k: Seq<char>, asc: bool) -> int
    decreases s.len(),
{
    if s.len() == 0 {
        0
    } else if key_before(k, keys[s[0] as int], asc) {
        0
    } else {
        1 + key_slot(keys, s.drop_first(), k, asc)
    }
}

/// The entry indices `0..n` stably sorted by their keys: entries with equal
/// keys keep their order.
pub open spec fn key_order(keys: Seq<Seq<char>>, asc: bool, n: nat) -> Seq<usize>
    decreases n,
{
    if n == 0 {
        Seq::empty()
    } else {
        let s = key_order(keys, asc, (n - 1) as nat);
        s.insert(key_slot(keys, s, keys[n - 1], asc), (n - 1) as usize)
    }
}

/// Whether `ord` lists the entry indices `0..n` each once, sorted by their
/// keys in the chosen direction, entries with equal keys in their original
/// order: the one stable sort of the keys.
pub open spec fn stable_sorted_order(keys: Seq<Seq<char>>, asc: bool, n: nat, ord: Seq<usize>) -> bool {
    &&& ord.len() == n
    &&& ord.no_duplicates()
    &&& forall|j: int| 0 <= j < n ==> #[trigger] ord[j] < n
    &&& forall|a: int, b: int|
        #![trigger ord[a], ord[b]]
        0 <= a < b < n ==> {
            &&& !key_before(keys[ord[b] as int], keys[ord[a] as int], asc)
            &&& keys[ord[a] as int] == keys[ord[b] as int] ==> ord[a] < ord[b]
        }
}

/// The entries in the order `ord` (indices into `entries`).
pub open spec fn reordered(entries: Seq<LogEntry>, ord: Seq<usize>) -> Seq<LogEntry> {
    Seq::new(ord.len(), |j: int| entries[ord[j] as int])
}

/// The direction a column is sorted in when chosen: reversed when it was
/// the last one sorted by, ascending otherwise.
pub open spec fn next_direction(prev: Option<(usize, bool)>, col_idx: usize) -> bool {
    match prev {
        Some((p, a)) => if p == col_idx { !a } else { true },
        None => true,
    }
}

proof fn lemma_key_slot_bound(keys: Seq<Seq<char>>, s: Seq<usize>, k: Seq<char>, asc: bool)
    ensures
        0 <= key_slot(keys, s, k, asc) <= s.len(),
    decreases s.len(),
{
    if s.len() > 0 {
        lemma_key_slot_bound(keys, s.drop_first(), k, asc);
    }
}

proof fn lemma_key_order_len(keys: Seq<Seq<char>>, asc: bool, n: nat)
    ensures
        key_order(keys, asc, n).len() == n,
        forall|j: int| 0 <= j < n ==> #[trigger] key_order(keys, asc, n)[j] < n,
    decreases n,
{
    if n > 0 {
        let s = key_order(keys, asc, (n - 1) as nat);
        lemma_key_order_len(keys, asc, (n - 1) as nat);
        lemma_key_slot_bound(keys, s, keys[n - 1], asc);
        let p = key_slot(keys, s, keys[n - 1], asc);
        assert forall|j: int| 0 <= j < n implies #[trigger] key_order(keys, asc, n)[j] < n by {
            if j < p {
                assert(key_order(keys, asc, n)[j] == s[j]);
            } else if j > p {
                assert(key_order(keys, asc, n)[j] == s[j - 1]);
            }
        }
    }
}

/// Where key `k` goes into the ordered indices `ord`.
fn key_slot_exec(keys: &Vec<Vec<char>>, ord: &Vec<usize>, k: &Vec<char>, asc: bool) -> (p: usize)
    requires
        forall|j: int| 0 <= j < ord@.len() ==> ord@[j] < keys@.len(),
    ensures
        p == key_slot(char_vec_views(keys@), ord@, k@, asc),
{
    let ghost kv = char_vec_views(keys@);
    let mut p: usize = 0;
    proof {
        assert(ord@.skip(0) =~= ord@);
        lemma_key_slot_bound(kv, ord@, k@, asc);
    }
    while p < ord.len()
        invariant
            p <= ord@.len(),
            kv == char_vec_views(keys@),
            forall|j: int| 0 <= j < ord@.len() ==> ord@[j] < keys@.len(),
            key_slot(kv, ord@, k@, asc) == p + key_slot(kv, ord@.skip(p as int), k@, asc),
        decreases ord@.len() - p,
    {
        let other = &keys[ord[p]];
        let before = if asc {
            lex_less(k, other)
        } else {
            lex_less(other, k)
        };
        proof {
            assert(ord@.skip(p as int)[0] == ord@[p as int]);
            assert(ord@.skip(p as int).drop_first() =~= ord@.skip(p + 1));
            assert(kv[ord@[p as int] as int] == other@);
        }
        if before {
            return p;
        }
        p += 1;
    }
    p
}

/// Sort `entries` stably by `keys` (one per entry), moving the entries.
fn sort_entries_by_keys(entries: &mut Vec<LogEntry>, keys: &Vec<Vec<char>>, asc: bool)
    requires
        keys@.len() == old(entries)@.len(),
    ensures
        final(entries)@ == reordered(
            old(entries)@,
            key_order(char_vec_views(keys@), asc, old(entries)@.len() as nat),
        ),
{
    let ghost before = entries@;
    let ghost kv = char_vec_views(keys@);
    let n = entries.len();
    let mut ord: Vec<usize> = Vec::new();
    let mut i: usize = 0;
    proof {
        assert(entries@ =~= reordered(before, ord@) + before.skip(0));
    }
    while i < n
        invariant
            i <= n,
            n == before.len(),
            keys@.len() == n,
            kv == char_vec_views(keys@),
            ord@ == key_order(kv, asc, i as nat),
            ord@.len() == i,
            forall|j: int| 0 <= j < ord@.len() ==> ord@[j] < i,
            entries@ == reordered(before, ord@) + before.skip(i as int),
        decreases n - i,
    {
        let p = key_slot_exec(keys, &ord, &keys[i], asc);
        proof {
            lemma_key_slot_bound(kv, ord@, kv[i as int], asc);
            assert(kv[i as int] == keys@[i as int]@);
        }
        let ghost r = reordered(before, ord@);
        let ghost rest = before.skip(i as int);
        let e = entries.remove(i);
        proof {
            assert((r + rest)[i as int] == rest[0]);
            assert(e == before[i as int]);
            assert(entries@ =~= r + rest.drop_first());
        }
        entries.insert(p, e);
        let ghost old_ord = ord@;
        ord.insert(p, i);
        proof {
            assert(rest.drop_first() =~= before.skip(i + 1));
            assert(reordered(before, ord@) =~= r.insert(p as int, before[i as int]));
            assert(entries@ =~= reordered(before, ord@) + before.skip(i + 1));
            lemma_key_order_len(kv, asc, (i + 1) as nat);
            assert forall|j: int| 0 <= j < ord@.len() implies ord@[j] < i + 1 by {
                if j < p {
                    assert(ord@[j] == old_ord[j]);
                } else if j > p {
                    assert(ord@[j] == old_ord[j - 1]);
                }
            }
        }
        i += 1;
    }
    proof {
        assert(before.skip(n as int) =~= Seq::<LogEntry>::empty());
        assert(entries@ =~= reordered(before, ord@));
    }
}

/// The keys as character vectors.
fn keys_of(values: &Vec<String>) -> (keys: Vec<Vec<char>>)
    ensures
        char_vec_views(keys@) == string_views(values@),
{
    let mut keys: Vec<Vec<char>> = Vec::new();
    let mut i: usize = 0;
    while i < values.len()
        invariant
            i <= values@.len(),
            char_vec_views(keys@) == string_views(values@).take(i as int),
        decreases values@.len() - i,
    {
        let ghost old_keys = keys@;
        keys.push(chars_of(values[i].as_str()));
        proof {
            assert(char_vec_views(keys@) =~= char_vec_views(old_keys).push(values@[i as int]@));
            assert(string_views(values@).take(i + 1) =~= string_views(values@).take(i as int).push(values@[i as int]@));
        }
        i += 1;
    }
    proof {
        assert(string_views(values@).take(values@.len() as int) =~= string_views(values@));
    }
    keys
}

impl LogViewer {
    /// Sort the entries by column `col_idx` of the table, given each entry's
    /// value in that column (empty where it has none): ascending, or
    /// reversed when the same column is chosen again; entries with equal
    /// values keep their order. Sorting drops the selection and the
    /// bookmarks and regroups the dedup groups; the search matches are left
    /// as they were. A column past the table changes nothing.
    pub fn sort_by_column(&mut self, col_idx: usize, values: Vec<String>)
        requires
            old(self).wf(),
            values@.len() == old(self).entries@.len(),
        ensures
            final(self).wf(),
            col_idx >= old(self).discovered_columns@.len() ==> *final(self) == *old(self),
            col_idx < old(self).discovered_columns@.len() ==> {
                let asc = next_direction(old(self).sort_column, col_idx);
                &&& final(self).entries@ == reordered(
                    old(self).entries@,
                    key_order(string_views(values@), asc, old(self).entries@.len() as nat),
                )
                &&& stable_sorted_order(
                    string_views(values@),
                    asc,
                    old(self).entries@.len() as nat,
                    key_order(string_views(values@), asc, old(self).entries@.len() as nat),
                )
                &&& final(self).bookmarks@.len() == 0
                &&& old(self).dedup_mode == DedupMode::Off ==> final(self).dedup_groups == old(self).dedup_groups
                &&& *final(self) == (LogViewer {
                    entries: final(self).entries,
                    sort_column: Some((col_idx, asc)),
                    selected_line: None,
                    bookmarks: final(self).bookmarks,
                    dedup_groups: final(self).dedup_groups,
                    norm_patterns: final(self).norm_patterns,
                    ..*old(self)
                })
            },
    {
        if col_idx >= self.discovered_columns.len() {
            return;
        }
        let ascending = match self.sort_column {
            Some((prev_idx, prev_asc)) => if prev_idx == col_idx { !prev_asc } else { true },
            None => true,
        };
        self.sort_column = Some((col_idx, ascending));
        let keys = keys_of(&values);
        let nvals = values.len();
        proof {
            assert(values@.len() == nvals);
            assert(char_vec_views(keys@).len() == keys@.len());
            assert(string_views(values@).len() == values@.len());
        }
        sort_entries_by_keys(&mut self.entries, &keys, ascending);
        proof {
            lemma_key_order_len(string_views(values@), ascending, values@.len() as nat);
            law_column_sort_ordered(string_views(values@), ascending, values@.len() as nat);
            law_column_sort_keeps_entries(string_views(values@), ascending, values@.len() as nat);
        }
        self.selected_line = None;
        self.bookmarks = Vec::new();
        if self.dedup_mode != DedupMode::Off {
            self.rebuild_dedup_groups();
        }
    }
}

/// Sorting by a column puts the keys in order: along the sorted entries
/// no key comes strictly before an earlier one, and entries with equal
/// keys keep their original order.
pub proof fn law_column_sort_ordered(keys: Seq<Seq<char>>, asc: bool, n: nat)
    requires
        n <= keys.len(),
        n <= usize::MAX,
    ensures
        forall|a: int, b: int|
            #![trigger key_order(keys, asc, n)[a], key_order(keys, asc, n)[b]]
            0 <= a < b < n ==> {
                let ka = keys[key_order(keys, asc, n)[a] as int];
                let kb = keys[key_order(keys, asc, n)[b] as int];
                &&& !key_before(kb, ka, asc)
                &&& ka == kb ==> key_order(keys, asc, n)[a] < key_order(keys, asc, n)[b]
            },
    decreases n,
{
    lemma_key_order_len(keys, asc, n);
    if n > 0 {
        let m = (n - 1) as nat;
        let s = key_order(keys, asc, m);
        let k = keys[m as int];
        let p = key_slot(keys, s, k, asc);
        law_column_sort_ordered(keys, asc, m);
        lemma_key_order_len(keys, asc, m);
        lemma_key_slot_props(keys, s, k, asc);
        lemma_key_slot_bound(keys, s, k, asc);
        let t = key_order(keys, asc, n);
        assert(t == s.insert(p, m as usize));
        assert forall|a: int, b: int| #![trigger t[a], t[b]] 0 <= a < b < n implies {
            let ka = keys[t[a] as int];
            let kb = keys[t[b] as int];
            &&& !key_before(kb, ka, asc)
            &&& ka == kb ==> t[a] < t[b]
        } by {
            if a < p && b < p {
                assert(t[a] == s[a] && t[b] == s[b]);
                assert(!key_before(keys[t[b] as int], keys[t[a] as int], asc));
            } else if a < p && b == p {
                assert(t[a] == s[a]);
                assert(t[b] == m as usize);
                assert(!key_before(k, keys[s[a] as int], asc));
                lemma_key_before_total(k, keys[s[a] as int], asc);
                assert(!key_before(keys[t[b] as int], keys[t[a] as int], asc));
            } else if a < p {
                assert(t[a] == s[a] && t[b] == s[b - 1]);
                assert(!key_before(keys[t[b] as int], keys[t[a] as int], asc));
            } else if a == p {
                assert(t[b] == s[b - 1]);
                assert(t[a] == m as usize);
                let kq = keys[s[b - 1] as int];
                let kp = keys[s[p] as int];
                assert(key_before(k, kp, asc));
                if b - 1 > p {
                    assert(!key_before(kq, kp, asc));
                }
                lemma_key_before_total(kq, kp, asc);
                if key_before(kq, k, asc) {
                    lemma_key_before_transitive(kq, k, kp, asc);
                }
                assert(!key_before(keys[t[b] as int], keys[t[a] as int], asc));
            } else {
                assert(t[a] == s[a - 1] && t[b] == s[b - 1]);
                assert(!key_before(keys[t[b] as int], keys[t[a] as int], asc));
            }
        }
    }
}

/// Going strictly before is transitive.
proof fn lemma_key_before_transitive(a: Seq<char>, b: Seq<char>, c: Seq<char>, asc: bool)
    requires
        key_before(a, b, asc),
        key_before(b, c, asc),
    ensures
        key_before(a, c, asc),
{
    if asc {
        lemma_lex_transitive(a, b, c);
    } else {
        lemma_lex_transitive(c, b, a);
    }
}

/// Of two keys at most one goes strictly before the other, and equal keys
/// go before neither.
proof fn lemma_key_before_total(a: Seq<char>, b: Seq<char>, asc: bool)
    ensures
        !(key_before(a, b, asc) && key_before(b, a, asc)),
        a == b ==> !key_before(a, b, asc),
{
    lemma_lex_total(a, b);
}

/// The slot lies after every key that `k` does not go before, and before the
/// first one it does.
proof fn lemma_key_slot_props(keys: Seq<Seq<char>>, s: Seq<usize>, k: Seq<char>, asc: bool)
    ensures
        forall|q: int| 0 <= q < key_slot(keys, s, k, asc) ==> !key_before(k, keys[s[q] as int], asc),
        key_slot(keys, s, k, asc) < s.len() ==> key_before(k, keys[s[key_slot(keys, s, k, asc)] as int], asc),
    decreases s.len(),
{
    lemma_key_slot_bound(keys, s, k, asc);
    if s.len() > 0 && !key_before(k, keys[s[0] as int], asc) {
        lemma_key_slot_props(keys, s.drop_first(), k, asc);
        lemma_key_slot_bound(keys, s.drop_first(), k, asc);
        assert forall|q: int| 0 <= q < key_slot(keys, s, k, asc) implies !key_before(k, keys[s[q] as int], asc) by {
            if q > 0 {
                assert(s[q] == s.drop_first()[q - 1]);
            }
        }
        if key_slot(keys, s, k, asc) < s.len() {
            assert(s[key_slot(keys, s, k, asc)] == s.drop_first()[key_slot(keys, s, k, asc) - 1]);
        }
    }
}

/// Sorting by a column keeps every entry exactly once: the order lists each
/// index `0..n` once.
pub proof fn law_column_sort_keeps_entries(keys: Seq<Seq<char>>, asc: bool, n: nat)
    requires
        n <= usize::MAX,
    ensures
        key_order(keys, asc, n).len() == n,
        key_order(keys, asc, n).no_duplicates(),
        forall|i: usize| i < n ==> #[trigger] key_order(keys, asc, n).contains(i),
    decreases n,
{
    lemma_key_order_len(keys, asc, n);
    if n > 0 {
        let m = (n - 1) as nat;
        let s = key_order(keys, asc, m);
        let p = key_slot(keys, s, keys[m as int], asc);
        law_column_sort_keeps_entries(keys, asc, m);
        lemma_key_order_len(keys, asc, m);
        lemma_key_slot_bound(keys, s, keys[m as int], asc);
        let t = key_order(keys, asc, n);
        assert(t == s.insert(p, m as usize));
        assert forall|a: int, b: int| 0 <= a < t.len() && 0 <= b < t.len() && a != b implies t[a] != t[b] by {
            if a != p && b != p {
                let sa = if a < p { a } else { a - 1 };
                let sb = if b < p { b } else { b - 1 };
                assert(t[a] == s[sa] && t[b] == s[sb]);
            } else if a == p {
                let sb = if b < p { b } else { b - 1 };
                assert(t[b] == s[sb]);
                assert(s[sb] < m);
            } else {
                let sa = if a < p { a } else { a - 1 };
                assert(t[a] == s[sa]);
                assert(s[sa] < m);
            }
        }
        assert forall|i: usize| i < n implies #[trigger] t.contains(i) by {
            if i == m {
                assert(t[p] == m as usize);
            } else {
                assert(s.contains(i));
                let q = choose|q: int| 0 <= q < s.len() && s[q] == i;
                if q < p {
                    assert(t[q] == s[q]);
                } else {
                    assert(t[q + 1] == s[q]);
                }
            }
        }
    }
}

/// The level of an entry with labels `labels`: its `level` label, or else
/// its `severity` label.
pub open spec fn level_of(labels: Seq<(String, String)>) -> Option<Seq<char>> {
    match label_value(labels, "level"@) {
        Some(v) => Some(v),
        None => label_value(labels, "severity"@),
    }
}

/// The level of `entry` (see [`level_of`]).
pub fn entry_level(entry: &LogEntry) -> (r: Option<&String>)
    ensures
        match r {
            Some(v) => level_of(entry.labels@) == Some(v@),
            None => level_of(entry.labels@) is None,
        },
{
    match entry.label("level") {
        Some(v) => Some(v),
        None => entry.label("severity"),
    }
}

/// The style an entry's line is drawn in for its level: the level's
/// color, bold when the level is fatal or critical (case ignored), and no
/// color for an unknown or missing level.
pub open spec fn line_style_for(t: Theme, level: Option<Seq<char>>) -> Style {
    match level {
        Some(l) => Style {
            fg: level_color(t, l),
            bg: None,
            bold: level_is_fatal(lowercase(l)),
        },
        None => Style { fg: None, bg: None, bold: false },
    }
}

/// A level as a log line shows it: in brackets, right-aligned to five
/// characters.
pub open spec fn level_tag(l: Seq<char>) -> Seq<char> {
    "["@ + Seq::new(if l.len() < 5 { (5 - l.len()) as nat } else { 0 }, |i: int| ' ') + l + "]"@
}

/// The level `level` as a log line shows it (see [`level_tag`]).
pub fn level_tag_text(level: &str) -> (s: String)
    ensures
        s@ == level_tag(level@),
{
    let n = level.unicode_len();
    let pad: usize = if n < 5 { 5 - n } else { 0 };
    let mut s = String::from_str("[");
    let mut i: usize = 0;
    proof {
        reveal_strlit("[");
        reveal_strlit("]");
    }
    while i < pad
        invariant
            i <= pad,
            s@ == "["@ + Seq::new(i as nat, |k: int| ' '),
        decreases pad - i,
    {
        crate::text::push_char(&mut s, ' ');
        assert(s@ =~= "["@ + Seq::new((i + 1) as nat, |k: int| ' '));
        i += 1;
    }
    s.append(level);
    s.append("]");
    assert(s@ =~= level_tag(level@));
    s
}

/// The time text after a fuzzy dedup group whose entries span `secs` whole
/// seconds: in hours from an hour on, in minutes from a minute on,
/// otherwise in seconds; none under a second.
pub open spec fn span_text(secs: nat) -> Option<Seq<char>> {
    if secs >= 3600 {
        Some(" over "@ + decimal(secs / 3600) + "h"@)
    } else if secs >= 60 {
        Some(" over "@ + decimal(secs / 60) + "m"@)
    } else if secs > 0 {
        Some(" over "@ + decimal(secs) + "s"@)
    } else {
        None
    }
}

/// The whole seconds a dedup group's entries span, sign dropped.
pub open spec fn group_span_secs(g: DedupGroup) -> nat {
    let d = chrono_seconds_between(
        g.first_timestamp.spec_secs(),
        g.first_timestamp.spec_nanos(),
        g.last_timestamp.spec_secs(),
        g.last_timestamp.spec_nanos(),
    ) as int;
    (if d < 0 { -d } else { d }) as nat
}

/// The text of `secs` seconds as [`span_text`] gives it.
fn span_text_of(secs: u64) -> (r: Option<String>)
    ensures
        opt_view(r) == span_text(secs as nat),
{
    if secs >= 3600 {
        let mut t = String::from_str(" over ");
        t.append(decimal_string(secs / 3600).as_str());
        t.append("h");
        Some(t)
    } else if secs >= 60 {
        let mut t = String::from_str(" over ");
        t.append(decimal_string(secs / 60).as_str());
        t.append("m");
        Some(t)
    } else if secs > 0 {
        let mut t = String::from_str(" over ");
        t.append(decimal_string(secs).as_str());
        t.append("s");
        Some(t)
    } else {
        None
    }
}

impl LogViewer {
    /// The style the line of `entry` is drawn in (see [`line_style_for`]).
    pub fn line_style(&self, entry: &LogEntry) -> (s: Style)
        ensures
            s == line_style_for(self.theme, level_of(entry.labels@)),
    {
        match entry_level(entry) {
            Some(l) => {
                let low = to_lowercase(l.as_str());
                let fatal = str_eq(low.as_str(), "fatal") || str_eq(low.as_str(), "critical");
                Style { fg: self.theme.log_level_color(l.as_str()), bg: None, bold: fatal }
            },
            None => Style { fg: None, bg: None, bold: false },
        }
    }

    /// What follows the row of dedup group `g`: nothing for a single
    /// entry; otherwise its count (` (xN)`) and, in fuzzy mode, the time its
    /// entries span (see [`span_text`]).
    pub fn group_suffix(&self, g: &DedupGroup) -> (r: (Option<String>, Option<String>))
        ensures
            g.count <= 1 ==> r.0 is None && r.1 is None,
            g.count > 1 ==> (r.0 matches Some(c) && c@ == " (x"@ + decimal(g.count as nat) + ")"@),
            g.count > 1 ==> opt_view(r.1) == (if self.dedup_mode == DedupMode::Fuzzy {
                span_text(group_span_secs(*g))
            } else {
                None
            }),
    {
        if g.count <= 1 {
            return (None, None);
        }
        let mut badge = String::from_str(" (x");
        badge.append(usize_decimal(g.count).as_str());
        badge.append(")");
        let span = if self.dedup_mode == DedupMode::Fuzzy {
            let d = g.first_timestamp.seconds_until(&g.last_timestamp);
            let a: u64 = if d < 0 {
                (0i128 - d as i128) as u64
            } else {
                d as u64
            };
            span_text_of(a)
        } else {
            None
        };
        (Some(badge), span)
    }
}

/// The context setting cycles through off, 3, 5 and 10 lines: four
/// toggles bring the viewer back to where it was.
pub proof fn law_context_cycle(v: LogViewer)
    requires
        v.context_lines == 0 || v.context_lines == 3 || v.context_lines == 5 || v.context_lines == 10,
    ensures
        v.context_toggled().context_toggled().context_toggled().context_toggled() == v,
{
}

} // verus!
