//! The live diff view: two queries side by side, their entries aligned by
//! timestamp so that what only one side has stands out.

use vstd::prelude::*;
use crate::action::Action;
use crate::components::input::{InputState, input_edited};
use crate::keymap::{Key, KeyPress, is_char};
use crate::log_entry::{LogEntry, Timestamp, ts_before, lemma_timestamp_eq};
use crate::theme::Theme;
use crate::plugin::same_entry;
use crate::text::{chars_of, contains_chars, has_infix};

verus! {

/// One of the two panes.
#[derive(Debug, Clone, Copy, PartialEq, Eq, Structural)]
pub enum DiffPane {
    /// The left pane.
    Left,
    /// The right pane.
    Right,
}

/// What the diff view is doing.
#[derive(Debug, Clone, Copy, PartialEq, Eq, Structural)]
pub enum DiffMode {
    /// Scrolling through the aligned entries.
    Viewing,
    /// Editing the left query.
    EditingLeft,
    /// Editing the right query.
    EditingRight,
}

/// A row of the aligned view, by entry index on each side.
#[derive(Debug, Clone, Copy, PartialEq, Eq, Structural)]
pub enum DiffRow {
    /// Entries with the same timestamp on both sides.
    Both(usize, usize),
    /// An entry only the left side has at this point.
    LeftOnly(usize),
    /// An entry only the right side has at this point.
    RightOnly(usize),
}

/// The timestamps of a list of entries.
pub open spec fn stamps(v: Seq<LogEntry>) -> Seq<Timestamp> {
    Seq::new(v.len(), |i: int| v[i].timestamp)
}

/// The rows aligning `l[i..]` and `r[j..]`: while both sides have entries,
/// equal timestamps pair up and otherwise the earlier one goes alone; then
/// the rest of either side.
pub open spec fn merged(l: Seq<Timestamp>, r: Seq<Timestamp>, i: int, j: int) -> Seq<DiffRow>
    decreases l.len() - i + r.len() - j,
{
    if i < 0 || j < 0 || i > l.len() || j > r.len() {
        Seq::empty()
    } else if i < l.len() && j < r.len() {
        if l[i] == r[j] {
            seq![DiffRow::Both(i as usize, j as usize)] + merged(l, r, i + 1, j + 1)
        } else if ts_before(l[i], r[j]) {
            seq![DiffRow::LeftOnly(i as usize)] + merged(l, r, i + 1, j)
        } else {
            seq![DiffRow::RightOnly(j as usize)] + merged(l, r, i, j + 1)
        }
    } else if i < l.len() {
        seq![DiffRow::LeftOnly(i as usize)] + merged(l, r, i + 1, j)
    } else if j < r.len() {
        seq![DiffRow::RightOnly(j as usize)] + merged(l, r, i, j + 1)
    } else {
        Seq::empty()
    }
}

/// How many rows aligning `l[i..]` and `r[j..]` takes.
pub open spec fn merged_count(l: Seq<Timestamp>, r: Seq<Timestamp>, i: int, j: int) -> nat
    decreases l.len() - i + r.len() - j,
{
    if i < 0 || j < 0 || i > l.len() || j > r.len() {
        0
    } else if i < l.len() && j < r.len() {
        if l[i] == r[j] {
            1 + merged_count(l, r, i + 1, j + 1)
        } else if ts_before(l[i], r[j]) {
            1 + merged_count(l, r, i + 1, j)
        } else {
            1 + merged_count(l, r, i, j + 1)
        }
    } else {
        ((if i < l.len() { l.len() - i } else { 0 }) + (if j < r.len() { r.len() - j } else { 0 })) as nat
    }
}

/// The left entry indices a list of rows shows, in order.
pub open spec fn left_side(rows: Seq<DiffRow>) -> Seq<usize>
    decreases rows.len(),
{
    if rows.len() == 0 {
        Seq::empty()
    } else {
        let rest = left_side(rows.drop_first());
        match rows[0] {
            DiffRow::Both(a, _) => seq![a] + rest,
            DiffRow::LeftOnly(a) => seq![a] + rest,
            DiffRow::RightOnly(_) => rest,
        }
    }
}

/// The right entry indices a list of rows shows, in order.
pub open spec fn right_side(rows: Seq<DiffRow>) -> Seq<usize>
    decreases rows.len(),
{
    if rows.len() == 0 {
        Seq::empty()
    } else {
        let rest = right_side(rows.drop_first());
        match rows[0] {
            DiffRow::Both(_, b) => seq![b] + rest,
            DiffRow::RightOnly(b) => seq![b] + rest,
            DiffRow::LeftOnly(_) => rest,
        }
    }
}

/// The indices `i..n`, ascending.
pub open spec fn index_range(i: int, n: int) -> Seq<usize>
    decreases n - i,
{
    if i >= n {
        Seq::empty()
    } else {
        seq![i as usize] + index_range(i + 1, n)
    }
}

/// The number of aligned rows is what the row count gives.
pub proof fn law_row_count_matches(l: Seq<Timestamp>, r: Seq<Timestamp>, i: int, j: int)
    requires
        0 <= i <= l.len(),
        0 <= j <= r.len(),
    ensures
        merged(l, r, i, j).len() == merged_count(l, r, i, j),
    decreases l.len() - i + r.len() - j,
{
    if i < l.len() && j < r.len() {
        if l[i] == r[j] {
            law_row_count_matches(l, r, i + 1, j + 1);
        } else if ts_before(l[i], r[j]) {
            law_row_count_matches(l, r, i + 1, j);
        } else {
            law_row_count_matches(l, r, i, j + 1);
        }
    } else if i < l.len() {
        law_row_count_matches(l, r, i + 1, j);
    } else if j < r.len() {
        law_row_count_matches(l, r, i, j + 1);
    }
}

/// The aligned rows show every entry of each side exactly once, in order.
pub proof fn law_aligned_rows_keep_both_sides(l: Seq<Timestamp>, r: Seq<Timestamp>, i: int, j: int)
    requires
        0 <= i <= l.len(),
        0 <= j <= r.len(),
        l.len() <= usize::MAX,
        r.len() <= usize::MAX,
    ensures
        left_side(merged(l, r, i, j)) == index_range(i, l.len() as int),
        right_side(merged(l, r, i, j)) == index_range(j, r.len() as int),
    decreases l.len() - i + r.len() - j,
{
    let m = merged(l, r, i, j);
    if i < l.len() && j < r.len() {
        if l[i] == r[j] {
            law_aligned_rows_keep_both_sides(l, r, i + 1, j + 1);
            assert(m.drop_first() =~= merged(l, r, i + 1, j + 1));
        } else if ts_before(l[i], r[j]) {
            law_aligned_rows_keep_both_sides(l, r, i + 1, j);
            assert(m.drop_first() =~= merged(l, r, i + 1, j));
        } else {
            law_aligned_rows_keep_both_sides(l, r, i, j + 1);
            assert(m.drop_first() =~= merged(l, r, i, j + 1));
        }
    } else if i < l.len() {
        law_aligned_rows_keep_both_sides(l, r, i + 1, j);
        assert(m.drop_first() =~= merged(l, r, i + 1, j));
    } else if j < r.len() {
        law_aligned_rows_keep_both_sides(l, r, i, j + 1);
        assert(m.drop_first() =~= merged(l, r, i, j + 1));
    }
}

/// The timestamp a row stands at: that of the entry (or pair) it shows.
pub open spec fn row_time(l: Seq<Timestamp>, r: Seq<Timestamp>, row: DiffRow) -> Timestamp {
    match row {
        DiffRow::Both(a, _) => l[a as int],
        DiffRow::LeftOnly(a) => l[a as int],
        DiffRow::RightOnly(b) => r[b as int],
    }
}

/// Whether the timestamps `t` never go back.
pub open spec fn in_time_order(t: Seq<Timestamp>) -> bool {
    forall|a: int, b: int| 0 <= a < b < t.len() ==> !ts_before(#[trigger] t[b], #[trigger] t[a])
}

/// The rows aligning `l[i..]` and `r[j..]` show only entries from there on.
proof fn lemma_rows_from(l: Seq<Timestamp>, r: Seq<Timestamp>, i: int, j: int)
    requires
        0 <= i <= l.len(),
        0 <= j <= r.len(),
        l.len() <= usize::MAX,
        r.len() <= usize::MAX,
    ensures
        forall|k: int|
            0 <= k < merged(l, r, i, j).len() ==> match #[trigger] merged(l, r, i, j)[k] {
                DiffRow::Both(a, b) => i <= a < l.len() && j <= b < r.len(),
                DiffRow::LeftOnly(a) => i <= a < l.len(),
                DiffRow::RightOnly(b) => j <= b < r.len(),
            },
    decreases l.len() - i + r.len() - j,
{
    let m = merged(l, r, i, j);
    if i < l.len() && (j >= r.len() || l[i] == r[j] || ts_before(l[i], r[j])) {
        let (ni, nj) = if j < r.len() && l[i] == r[j] { (i + 1, j + 1) } else { (i + 1, j) };
        lemma_rows_from(l, r, ni, nj);
        assert forall|k: int| 0 < k < m.len() implies m[k] == merged(l, r, ni, nj)[k - 1] by {}
    } else if j < r.len() {
        lemma_rows_from(l, r, i, j + 1);
        assert forall|k: int| 0 < k < m.len() implies m[k] == merged(l, r, i, j + 1)[k - 1] by {}
    }
}

/// When both sides are in time order, the aligned rows pair only entries
/// with the same timestamp, and the rows' timestamps never go back.
pub proof fn law_aligned_rows_in_time_order(l: Seq<Timestamp>, r: Seq<Timestamp>, i: int, j: int)
    requires
        0 <= i <= l.len(),
        0 <= j <= r.len(),
        l.len() <= usize::MAX,
        r.len() <= usize::MAX,
        in_time_order(l),
        in_time_order(r),
    ensures
        forall|k: int|
            0 <= k < merged(l, r, i, j).len() ==> (#[trigger] merged(l, r, i, j)[k] matches DiffRow::Both(a, b)
                ==> l[a as int] == r[b as int]),
        forall|k1: int, k2: int|
            0 <= k1 < k2 < merged(l, r, i, j).len() ==> !ts_before(
                row_time(l, r, #[trigger] merged(l, r, i, j)[k2]),
                row_time(l, r, #[trigger] merged(l, r, i, j)[k1]),
            ),
    decreases l.len() - i + r.len() - j,
{
    let m = merged(l, r, i, j);
    lemma_rows_from(l, r, i, j);
    if i < l.len() || j < r.len() {
        let both = i < l.len() && j < r.len() && l[i] == r[j];
        let left = i < l.len() && (j >= r.len() || (!both && ts_before(l[i], r[j])));
        let (ni, nj) = if both { (i + 1, j + 1) } else if left { (i + 1, j) } else { (i, j + 1) };
        let rest = merged(l, r, ni, nj);
        law_aligned_rows_in_time_order(l, r, ni, nj);
        lemma_rows_from(l, r, ni, nj);
        assert(m == seq![m[0]] + rest);
        assert forall|k: int| 0 < k < m.len() implies m[k] == rest[k - 1] by {}
        let t0 = row_time(l, r, m[0]);
        if i < l.len() && j < r.len() && !both && !left {
            lemma_timestamp_eq(l[i], r[j]);
        }
        assert forall|k: int| 0 < k < m.len() implies !ts_before(row_time(l, r, m[k]), t0) by {
            let row = rest[k - 1];
            match row {
                DiffRow::Both(a, b) => {
                    if i < l.len() && a > i {
                        assert(!ts_before(l[a as int], l[i]));
                    }
                },
                DiffRow::LeftOnly(a) => {
                    if i < l.len() && a > i {
                        assert(!ts_before(l[a as int], l[i]));
                    }
                },
                DiffRow::RightOnly(b) => {
                    if j < r.len() && b > j {
                        assert(!ts_before(r[b as int], r[j]));
                    }
                },
            }
        }
    }
}

/// The positions of the entries whose line contains `q`, in order.
pub open spec fn matching_positions(es: Seq<LogEntry>, q: Seq<char>) -> Seq<usize>
    decreases es.len(),
{
    if es.len() == 0 {
        seq![]
    } else if has_infix(es.last().line@, q) {
        matching_positions(es.drop_last(), q).push((es.len() - 1) as usize)
    } else {
        matching_positions(es.drop_last(), q)
    }
}

/// Copies of the entries whose line contains `query`, in order: what a
/// diff side shows for a query run over the buffer.
pub fn entries_matching(entries: &Vec<LogEntry>, query: &str) -> (r: Vec<LogEntry>)
    ensures
        r@.len() == matching_positions(entries@, query@).len(),
        forall|j: int|
            0 <= j < r@.len() ==> same_entry(
                #[trigger] r@[j],
                entries@[matching_positions(entries@, query@)[j] as int],
            ),
{
    let q = chars_of(query);
    let mut r: Vec<LogEntry> = Vec::new();
    let mut i: usize = 0;
    while i < entries.len()
        invariant
            i <= entries@.len(),
            q@ == query@,
            r@.len() == matching_positions(entries@.take(i as int), query@).len(),
            forall|j: int|
                0 <= j < r@.len() ==> same_entry(
                    #[trigger] r@[j],
                    entries@[matching_positions(entries@.take(i as int), query@)[j] as int],
                ),
        decreases entries@.len() - i,
    {
        let ghost before = matching_positions(entries@.take(i as int), query@);
        assert(entries@.take(i + 1).drop_last() =~= entries@.take(i as int));
        assert(entries@.take(i + 1).last() == entries@[i as int]);
        let line = chars_of(entries[i].line.as_str());
        if contains_chars(&line, &q) {
            r.push(entries[i].duplicate());
            assert(matching_positions(entries@.take(i + 1), query@) == before.push(i as usize));
        } else {
            assert(matching_positions(entries@.take(i + 1), query@) == before);
        }
        i += 1;
    }
    assert(entries@.take(i as int) =~= entries@);
    r
}

/// The diff view's state.
pub struct DiffView {
    /// Whether the view is shown.
    pub visible: bool,
    /// The color theme.
    pub theme: Theme,
    /// The left query.
    pub left_query: String,
    /// The right query.
    pub right_query: String,
    /// The left query's entries, oldest first.
    pub left_entries: Vec<LogEntry>,
    /// The right query's entries, oldest first.
    pub right_entries: Vec<LogEntry>,
    /// The pane with focus.
    pub active_pane: DiffPane,
    /// Rows scrolled past the top.
    pub scroll: usize,
    /// What the view is doing.
    pub mode: DiffMode,
    /// The query being edited.
    pub query_input: InputState,
}

impl DiffView {
    /// The aligned rows of the two sides.
    pub open spec fn spec_rows(self) -> Seq<DiffRow> {
        merged(stamps(self.left_entries@), stamps(self.right_entries@), 0, 0)
    }

    /// A hidden view with empty queries, viewing the left pane.
    pub fn new(theme: Theme) -> (d: DiffView)
        ensures
            !d.visible,
            d.theme == theme,
            d.left_query@.len() == 0,
            d.right_query@.len() == 0,
            d.left_entries@.len() == 0,
            d.right_entries@.len() == 0,
            d.active_pane == DiffPane::Left,
            d.scroll == 0,
            d.mode == DiffMode::Viewing,
            d.query_input.spec_value().len() == 0,
    {
        DiffView {
            visible: false,
            theme,
            left_query: String::new(),
            right_query: String::new(),
            left_entries: Vec::new(),
            right_entries: Vec::new(),
            active_pane: DiffPane::Left,
            scroll: 0,
            mode: DiffMode::Viewing,
            query_input: InputState::empty(),
        }
    }

    /// Show or hide the view; hiding stops any editing.
    pub fn toggle(&mut self)
        ensures
            *final(self) == (DiffView {
                visible: !old(self).visible,
                mode: if old(self).visible { DiffMode::Viewing } else { old(self).mode },
                ..*old(self)
            }),
    {
        self.visible = !self.visible;
        if !self.visible {
            self.mode = DiffMode::Viewing;
        }
    }

    /// Whether the view is shown.
    pub fn is_visible(&self) -> (b: bool)
        ensures
            b == self.visible,
    {
        self.visible
    }

    /// Set the left query's entries.
    pub fn set_left_entries(&mut self, entries: Vec<LogEntry>)
        ensures
            *final(self) == (DiffView { left_entries: entries, ..*old(self) }),
    {
        self.left_entries = entries;
    }

    /// Set the right query's entries.
    pub fn set_right_entries(&mut self, entries: Vec<LogEntry>)
        ensures
            *final(self) == (DiffView { right_entries: entries, ..*old(self) }),
    {
        self.right_entries = entries;
    }

    /// The left query.
    pub fn left_query(&self) -> (q: &str)
        ensures
            q@ == self.left_query@,
    {
        self.left_query.as_str()
    }

    /// The right query.
    pub fn right_query(&self) -> (q: &str)
        ensures
            q@ == self.right_query@,
    {
        self.right_query.as_str()
    }

    /// The rows aligning the two sides by timestamp.
    pub fn aligned_rows(&self) -> (rows: Vec<DiffRow>)
        ensures
            rows@ == self.spec_rows(),
    {
        let ghost l = stamps(self.left_entries@);
        let ghost r = stamps(self.right_entries@);
        let nl = self.left_entries.len();
        let nr = self.right_entries.len();
        let mut rows: Vec<DiffRow> = Vec::new();
        let mut li: usize = 0;
        let mut ri: usize = 0;
        while li < nl || ri < nr
            invariant
                nl == l.len(),
                nr == r.len(),
                l == stamps(self.left_entries@),
                r == stamps(self.right_entries@),
                li <= nl,
                ri <= nr,
                rows@ + merged(l, r, li as int, ri as int) == merged(l, r, 0, 0),
            decreases nl - li + nr - ri,
        {
            let ghost before = rows@;
            let ghost rest = merged(l, r, li as int, ri as int);
            if li < nl && ri < nr {
                let lt = self.left_entries[li].timestamp;
                let rt = self.right_entries[ri].timestamp;
                assert(lt == l[li as int] && rt == r[ri as int]);
                if lt == rt {
                    rows.push(DiffRow::Both(li, ri));
                    li += 1;
                    ri += 1;
                } else if lt.before(&rt) {
                    rows.push(DiffRow::LeftOnly(li));
                    li += 1;
                } else {
                    rows.push(DiffRow::RightOnly(ri));
                    ri += 1;
                }
            } else if li < nl {
                rows.push(DiffRow::LeftOnly(li));
                li += 1;
            } else {
                rows.push(DiffRow::RightOnly(ri));
                ri += 1;
            }
            assert(rows@ + merged(l, r, li as int, ri as int) =~= before + rest);
        }
        assert(rows@ + Seq::<DiffRow>::empty() =~= rows@);
        rows
    }

    /// The aligned rows of a view whose two sides are each in time order:
    /// the rows show every left entry once and every right entry once, each
    /// side in its order; a row pairs two entries only when their
    /// timestamps are equal; the rows' timestamps never go back; and there
    /// are as many rows as [`DiffView::row_count`] counts.
    pub proof fn law_aligned_rows(self)
        requires
            self.left_entries@.len() <= usize::MAX,
            self.right_entries@.len() <= usize::MAX,
            in_time_order(stamps(self.left_entries@)),
            in_time_order(stamps(self.right_entries@)),
        ensures
            left_side(self.spec_rows()) == index_range(0, self.left_entries@.len() as int),
            right_side(self.spec_rows()) == index_range(0, self.right_entries@.len() as int),
            forall|k: int|
                0 <= k < self.spec_rows().len() ==> (#[trigger] self.spec_rows()[k] matches DiffRow::Both(a, b)
                    ==> self.left_entries@[a as int].timestamp == self.right_entries@[b as int].timestamp),
            forall|k1: int, k2: int|
                0 <= k1 < k2 < self.spec_rows().len() ==> !ts_before(
                    row_time(stamps(self.left_entries@), stamps(self.right_entries@), #[trigger] self.spec_rows()[k2]),
                    row_time(stamps(self.left_entries@), stamps(self.right_entries@), #[trigger] self.spec_rows()[k1]),
                ),
            self.spec_rows().len() == merged_count(stamps(self.left_entries@), stamps(self.right_entries@), 0, 0),
    {
        let l = stamps(self.left_entries@);
        let r = stamps(self.right_entries@);
        law_aligned_rows_keep_both_sides(l, r, 0, 0);
        law_aligned_rows_in_time_order(l, r, 0, 0);
        law_row_count_matches(l, r, 0, 0);
        assert forall|k: int|
            0 <= k < self.spec_rows().len() implies (#[trigger] self.spec_rows()[k] matches DiffRow::Both(a, b)
                ==> self.left_entries@[a as int].timestamp == self.right_entries@[b as int].timestamp) by {
            lemma_rows_from(l, r, 0, 0);
        }
    }

    /// How many aligned rows there are.
    pub fn row_count(&self) -> (n: usize)
        requires
            self.left_entries@.len() + self.right_entries@.len() <= usize::MAX,
        ensures
            n == merged_count(stamps(self.left_entries@), stamps(self.right_entries@), 0, 0),
    {
        let ghost l = stamps(self.left_entries@);
        let ghost r = stamps(self.right_entries@);
        let nl = self.left_entries.len();
        let nr = self.right_entries.len();
        let mut count: usize = 0;
        let mut li: usize = 0;
        let mut ri: usize = 0;
        while li < nl && ri < nr
            invariant
                nl == l.len(),
                nr == r.len(),
                l == stamps(self.left_entries@),
                r == stamps(self.right_entries@),
                li <= nl,
                ri <= nr,
                count <= li + ri,
                nl + nr <= usize::MAX,
                count + merged_count(l, r, li as int, ri as int) == merged_count(l, r, 0, 0),
            decreases nl - li + nr - ri,
        {
            let lt = self.left_entries[li].timestamp;
            let rt = self.right_entries[ri].timestamp;
            assert(lt == l[li as int] && rt == r[ri as int]);
            if lt == rt {
                li += 1;
                ri += 1;
            } else if lt.before(&rt) {
                li += 1;
            } else {
                ri += 1;
            }
            count += 1;
        }
        proof {
            law_row_count_matches(l, r, li as int, ri as int);
            assert(merged_count(l, r, li as int, ri as int) == (nl - li) + (nr - ri));
        }
        count + (nl - li) + (nr - ri)
    }

    /// Handle a key while the view is shown (a hidden view does not handle
    /// keys). Viewing: Esc closes, `j`/Down and `k`/Up scroll within the
    /// rows, Tab switches pane, `l`/`r` start editing the left/right query.
    /// Editing: Esc stops, Enter sets the query and asks to run it, other
    /// keys edit it.
    pub fn handle_key(&mut self, key: KeyPress) -> (r: Option<Action>)
        requires
            old(self).left_entries@.len() + old(self).right_entries@.len() <= usize::MAX,
        ensures
            ({
                let b = *old(self);
                let a = *final(self);
                let code = key.code;
                let rows = merged_count(stamps(b.left_entries@), stamps(b.right_entries@), 0, 0);
                if !b.visible {
                    a == b && r is None
                } else {
                    match b.mode {
                        DiffMode::Viewing => r == Some(Action::Noop) && if code == Key::Esc {
                            a == (DiffView { visible: false, ..b })
                        } else if is_char(code, 'j') || code == Key::Down {
                            a == (DiffView { scroll: if b.scroll + 1 < rows { (b.scroll + 1) as usize } else { b.scroll }, ..b })
                        } else if is_char(code, 'k') || code == Key::Up {
                            a == (DiffView { scroll: if b.scroll > 0 { (b.scroll - 1) as usize } else { 0 }, ..b })
                        } else if code == Key::Tab {
                            a == (DiffView {
                                active_pane: if b.active_pane == DiffPane::Left { DiffPane::Right } else { DiffPane::Left },
                                ..b
                            })
                        } else if is_char(code, 'l') {
                            a == (DiffView { mode: DiffMode::EditingLeft, query_input: a.query_input, ..b })
                                && a.query_input.spec_value() == b.left_query@
                                && a.query_input.spec_cursor() == b.left_query@.len()
                        } else if is_char(code, 'r') {
                            a == (DiffView { mode: DiffMode::EditingRight, query_input: a.query_input, ..b })
                                && a.query_input.spec_value() == b.right_query@
                                && a.query_input.spec_cursor() == b.right_query@.len()
                        } else {
                            a == b
                        },
                        _ => if code == Key::Esc {
                            a == (DiffView { mode: DiffMode::Viewing, ..b }) && r == Some(Action::Noop)
                        } else if code == Key::Enter {
                            let q = b.query_input.spec_value();
                            if b.mode == DiffMode::EditingLeft {
                                a == (DiffView { mode: DiffMode::Viewing, left_query: a.left_query, ..b })
                                    && a.left_query@ == q
                                    && (r matches Some(Action::DiffQueryLeft(s)) && s@ == q)
                            } else {
                                a == (DiffView { mode: DiffMode::Viewing, right_query: a.right_query, ..b })
                                    && a.right_query@ == q
                                    && (r matches Some(Action::DiffQueryRight(s)) && s@ == q)
                            }
                        } else {
                            a == (DiffView { query_input: a.query_input, ..b })
                                && input_edited(b.query_input, a.query_input, key)
                                && r == Some(Action::Noop)
                        },
                    }
                }
            }),
    {
        if !self.visible {
            return None;
        }
        match self.mode {
            DiffMode::Viewing => {
                match key.code {
                    Key::Esc => {
                        self.visible = false;
                    },
                    Key::Char('j') | Key::Down => {
                        let max = self.row_count();
                        if self.scroll < max.saturating_sub(1) {
                            self.scroll = self.scroll + 1;
                        }
                    },
                    Key::Char('k') | Key::Up => {
                        self.scroll = self.scroll.saturating_sub(1);
                    },
                    Key::Tab => {
                        self.active_pane = match self.active_pane {
                            DiffPane::Left => DiffPane::Right,
                            DiffPane::Right => DiffPane::Left,
                        };
                    },
                    Key::Char('l') => {
                        self.mode = DiffMode::EditingLeft;
                        self.query_input = InputState::new(self.left_query.clone());
                    },
                    Key::Char('r') => {
                        self.mode = DiffMode::EditingRight;
                        self.query_input = InputState::new(self.right_query.clone());
                    },
                    _ => {},
                }
                Some(Action::Noop)
            },
            DiffMode::EditingLeft | DiffMode::EditingRight => {
                match key.code {
                    Key::Esc => {
                        self.mode = DiffMode::Viewing;
                        Some(Action::Noop)
                    },
                    Key::Enter => {
                        let query = self.query_input.value().to_string();
                        let editing_left = self.mode == DiffMode::EditingLeft;
                        self.mode = DiffMode::Viewing;
                        if editing_left {
                            self.left_query = query.clone();
                            Some(Action::DiffQueryLeft(query))
                        } else {
                            self.right_query = query.clone();
                            Some(Action::DiffQueryRight(query))
                        }
                    },
                    _ => {
                        self.query_input.handle_key(key);
                        Some(Action::Noop)
                    },
                }
            },
        }
    }
}

} // verus!
