//! The query input bar: a text input for LogQL queries with history and
//! autocomplete of label names and values.

use vstd::prelude::*;
use crate::action::Action;
use crate::components::autocomplete::AutocompletePopup;
use crate::components::input::{InputState, input_edited};
use crate::keymap::{Key, KeyPress, is_char};
use crate::text::{chars_of, slice_chars, count_leading_space, count_trailing_space, occurs_at,
    rfind_upto, string_from_range, string_views, trim, trim_start, str_eq};
use crate::theme::Theme;

verus! {

/// Most queries kept in the history.
pub const MAX_HISTORY: usize = 50;

/// Whether `i` is the last position where `p` occurs in `s`.
pub open spec fn is_last_occ(s: Seq<char>, p: Seq<char>, i: int) -> bool {
    occurs_at(s, p, i) && forall|j: int| i < j ==> !occurs_at(s, p, j)
}

/// The last position where `p` occurs in `s`, if it occurs.
pub open spec fn last_occ(s: Seq<char>, p: Seq<char>) -> Option<int> {
    if exists|i: int| is_last_occ(s, p, i) {
        Some(choose|i: int| is_last_occ(s, p, i))
    } else {
        None
    }
}

/// `t` after its last comma (all of `t` when it has none).
pub open spec fn after_last_comma(t: Seq<char>) -> Seq<char> {
    match last_occ(t, seq![',']) {
        Some(k) => t.skip(k + 1),
        None => t,
    }
}

/// What the cursor is completing, in characters.
pub enum ContextModel {
    /// A label name: the partial name and where it starts.
    LabelName { prefix: Seq<char>, token_start: int },
    /// A label value: the label, the partial value and where it starts.
    LabelValue { label: Seq<char>, prefix: Seq<char>, token_start: int },
    /// Nothing to complete.
    NoContext,
}

/// The completion context of a label value whose quoted value opens with
/// `marker` (`="` or `=~"`) inside the braces text `inside`, which starts
/// at character `base`: there is one when the last `marker` is not followed
/// by a closing quote.
pub open spec fn value_context(inside: Seq<char>, marker: Seq<char>, base: int) -> Option<ContextModel> {
    match last_occ(inside, marker) {
        Some(q) => {
            let after = inside.skip(q + marker.len());
            if !after.contains('"') {
                Some(
                    ContextModel::LabelValue {
                        label: trim(after_last_comma(inside.take(q))),
                        prefix: after,
                        token_start: base + q + marker.len(),
                    },
                )
            } else {
                None
            }
        },
        None => None,
    }
}

/// The completion context at character `cursor` of the query `v`. Outside
/// an unclosed `{` there is none; after an open `="` or `=~"` it is the
/// label value; otherwise it is the label name after the last comma,
/// unless that already holds `=` or `!`.
pub open spec fn completion_context(v: Seq<char>, cursor: int) -> ContextModel {
    let c = if cursor <= v.len() { cursor } else { v.len() as int };
    let before = v.take(c);
    let open = last_occ(before, seq!['{']);
    let close = last_occ(before, seq!['}']);
    let inside_braces = match open {
        Some(o) => match close {
            Some(cl) => o > cl,
            None => true,
        },
        None => false,
    };
    if !inside_braces {
        ContextModel::NoContext
    } else {
        let o = open->0;
        let inside = before.skip(o + 1);
        match value_context(inside, seq!['=', '"'], o + 1) {
            Some(ctx) => ctx,
            None => match value_context(inside, seq!['=', '~', '"'], o + 1) {
                Some(ctx) => ctx,
                None => {
                    let partial = trim_start(after_last_comma(inside));
                    if partial.contains('=') || partial.contains('!') {
                        ContextModel::NoContext
                    } else {
                        ContextModel::LabelName { prefix: partial, token_start: c - partial.len() }
                    }
                },
            },
        }
    }
}

/// What the cursor is completing.
#[derive(Debug)]
pub enum CompletionContext {
    /// A label name: the partial name typed so far and the character
    /// position where it starts.
    LabelName { prefix: String, token_start: usize },
    /// A label value: the label, the partial value typed so far and the
    /// character position where it starts.
    LabelValue { label: String, prefix: String, token_start: usize },
    /// Nothing to complete.
    Nothing,
}

impl View for CompletionContext {
    type V = ContextModel;

    open spec fn view(&self) -> ContextModel {
        match self {
            CompletionContext::LabelName { prefix, token_start } => ContextModel::LabelName {
                prefix: prefix@,
                token_start: *token_start as int,
            },
            CompletionContext::LabelValue { label, prefix, token_start } => ContextModel::LabelValue {
                label: label@,
                prefix: prefix@,
                token_start: *token_start as int,
            },
            CompletionContext::Nothing => ContextModel::NoContext,
        }
    }
}

/// The last position where `p` occurs in `v`.
pub fn last_occurrence(v: &Vec<char>, p: &Vec<char>) -> (r: Option<usize>)
    ensures
        match r {
            Some(i) => last_occ(v@, p@) == Some(i as int),
            None => last_occ(v@, p@) is None,
        },
{
    let r = rfind_upto(v, p, v.len());
    match r {
        Some(i) => {
            proof {
                assert(is_last_occ(v@, p@, i as int));
                assert forall|k: int| is_last_occ(v@, p@, k) implies k == i by {
                    if k < i {
                        assert(!occurs_at(v@, p@, i as int));
                    } else if k > i {
                        assert(k <= v@.len());
                    }
                }
            }
            Some(i)
        },
        None => {
            proof {
                assert forall|k: int| !is_last_occ(v@, p@, k) by {
                    if 0 <= k <= v@.len() {
                    }
                }
            }
            None
        },
    }
}

/// Whether `v` holds the character `ch`.
pub fn has_char(v: &Vec<char>, ch: char) -> (b: bool)
    ensures
        b == v@.contains(ch),
{
    let mut i: usize = 0;
    while i < v.len()
        invariant
            i <= v.len(),
            forall|k: int| 0 <= k < i ==> v@[k] != ch,
        decreases v.len() - i,
    {
        if v[i] == ch {
            return true;
        }
        i += 1;
    }
    false
}

/// Where the text after the last comma of `t` starts.
fn after_last_comma_start(t: &Vec<char>) -> (k: usize)
    ensures
        k <= t@.len(),
        t@.skip(k as int) == after_last_comma(t@),
{
    let comma = vec![','];
    let _n = t.len();
    assert(comma@ == seq![',']);
    match last_occurrence(t, &comma) {
        Some(q) => q + 1,
        None => {
            assert(t@.skip(0) == t@);
            0
        },
    }
}

/// The completion context of a label value opened by `marker` in `inside`
/// (which starts at character `base` of the query).
fn value_context_exec(inside: &Vec<char>, marker: &Vec<char>, base: usize) -> (r: Option<CompletionContext>)
    requires
        base + inside@.len() <= usize::MAX,
    ensures
        match r {
            Some(ctx) => value_context(inside@, marker@, base as int) == Some(ctx@),
            None => value_context(inside@, marker@, base as int) is None,
        },
{
    match last_occurrence(inside, marker) {
        Some(q) => {
            let start = q + marker.len();
            let after = slice_chars(inside, start, inside.len());
            assert(after@ == inside@.skip(start as int));
            if has_char(&after, '"') {
                return None;
            }
            let before = slice_chars(inside, 0, q);
            assert(before@ == inside@.take(q as int));
            let k = after_last_comma_start(&before);
            let lead = count_leading_space(&before, k, before.len());
            let trail = count_trailing_space(&before, k + lead, before.len());
            let label = string_from_range(&before, k + lead, before.len() - trail);
            proof {
                let tok = before@.subrange(k as int, before@.len() as int);
                assert(tok == after_last_comma(before@));
                assert(trim_start(tok) == before@.subrange(k + lead, before@.len() as int));
                assert(label@ == trim(tok));
            }
            let prefix = string_from_range(&after, 0, after.len());
            assert(prefix@ == after@.subrange(0, after@.len() as int));
            assert(after@.subrange(0, after@.len() as int) =~= after@);
            let ctx = CompletionContext::LabelValue { label, prefix, token_start: base + start };
            assert(ctx@ == ContextModel::LabelValue {
                label: trim(after_last_comma(inside@.take(q as int))),
                prefix: inside@.skip(q + marker@.len()),
                token_start: base + q + marker@.len(),
            });
            Some(ctx)
        },
        None => None,
    }
}

/// The completion context at character `cursor` of the query `value`.
pub fn analyze(value: &str, cursor: usize) -> (r: CompletionContext)
    ensures
        r@ == completion_context(value@, cursor as int),
{
    let v = chars_of(value);
    let c = if cursor <= v.len() { cursor } else { v.len() };
    let before = slice_chars(&v, 0, c);
    assert(before@ == value@.take(c as int));
    let open_brace = vec!['{'];
    let close_brace = vec!['}'];
    assert(open_brace@ == seq!['{']);
    assert(close_brace@ == seq!['}']);
    let open = last_occurrence(&before, &open_brace);
    let close = last_occurrence(&before, &close_brace);
    let inside_braces = match open {
        Some(o) => match close {
            Some(cl) => o > cl,
            None => true,
        },
        None => false,
    };
    if !inside_braces {
        return CompletionContext::Nothing;
    }
    let o = match open {
        Some(o) => o,
        None => 0,
    };
    proof {
        assert(occurs_at(before@, seq!['{'], o as int));
    }
    let inside = slice_chars(&before, o + 1, c);
    assert(inside@ == before@.skip(o + 1));
    let eq_quote = vec!['=', '"'];
    assert(eq_quote@ == seq!['=', '"']);
    if let Some(ctx) = value_context_exec(&inside, &eq_quote, o + 1) {
        assert(completion_context(value@, cursor as int) == ctx@);
        return ctx;
    }
    let eq_tilde = vec!['=', '~', '"'];
    assert(eq_tilde@ == seq!['=', '~', '"']);
    if let Some(ctx) = value_context_exec(&inside, &eq_tilde, o + 1) {
        assert(completion_context(value@, cursor as int) == ctx@);
        return ctx;
    }
    let k = after_last_comma_start(&inside);
    let lead = count_leading_space(&inside, k, inside.len());
    let partial_start = k + lead;
    let partial = slice_chars(&inside, partial_start, inside.len());
    proof {
        let tok = inside@.subrange(k as int, inside@.len() as int);
        assert(tok == after_last_comma(inside@));
        assert(partial@ == trim_start(tok));
    }
    if has_char(&partial, '=') || has_char(&partial, '!') {
        return CompletionContext::Nothing;
    }
    let prefix = string_from_range(&partial, 0, partial.len());
    assert(partial@.subrange(0, partial@.len() as int) =~= partial@);
    CompletionContext::LabelName { prefix, token_start: c - partial.len() }
}

/// Whether no two entries of `cache` have the same label.
pub open spec fn distinct_labels(cache: Seq<(String, Vec<String>)>) -> bool {
    forall|i: int, j: int| 0 <= i < cache.len() && 0 <= j < cache.len() && i != j ==> cache[i].0@ != cache[j].0@
}

/// The cached values of `label`, if any.
pub open spec fn cached_values(cache: Seq<(String, Vec<String>)>, label: Seq<char>) -> Option<Seq<Seq<char>>> {
    if exists|i: int| 0 <= i < cache.len() && #[trigger] cache[i].0@ == label {
        let i = choose|i: int| 0 <= i < cache.len() && #[trigger] cache[i].0@ == label;
        Some(string_views(cache[i].1@))
    } else {
        None
    }
}

/// The history after submitting `q`: `q` is appended unless it is already
/// the last entry, and the oldest entry goes when there are too many.
pub open spec fn pushed_history(h: Seq<Seq<char>>, q: Seq<char>) -> Seq<Seq<char>> {
    if h.len() > 0 && h.last() == q {
        h
    } else if h.len() + 1 > MAX_HISTORY {
        h.push(q).drop_first()
    } else {
        h.push(q)
    }
}

/// The text and cursor after inserting the suggestion `sug` in place of
/// the partial token of `ctx`, for the query `v` with the cursor at
/// `cursor`; `None` when there is nothing to complete.
pub open spec fn accepted(v: Seq<char>, cursor: int, sug: Seq<char>, ctx: ContextModel) -> Option<(Seq<char>, int)> {
    let c = if cursor <= v.len() { cursor } else { v.len() as int };
    match ctx {
        ContextModel::LabelName { token_start, .. } => Some(
            (v.take(token_start) + sug + v.skip(c), token_start + sug.len()),
        ),
        ContextModel::LabelValue { token_start, .. } => Some(
            (v.take(token_start) + sug + v.skip(c), token_start + sug.len()),
        ),
        ContextModel::NoContext => None,
    }
}

/// The dropdown hidden with its highlight reset.
pub open spec fn closed_popup(a: AutocompletePopup) -> AutocompletePopup {
    AutocompletePopup { visible: false, selected: 0, ..a }
}

/// The query bar's state.
pub struct QueryBar {
    /// The text being edited.
    pub input: InputState,
    /// Whether the bar accepts input.
    pub active: bool,
    /// Submitted queries, oldest first.
    pub history: Vec<String>,
    /// The history entry being browsed, if any.
    pub history_index: Option<usize>,
    /// The last submitted query.
    pub current_query: String,
    /// The color theme.
    pub theme: Theme,
    /// The autocomplete dropdown.
    pub autocomplete: AutocompletePopup,
    /// Label names known from the backend.
    pub cached_labels: Vec<String>,
    /// Known values of labels, one entry per label.
    pub cached_label_values: Vec<(String, Vec<String>)>,
}

impl QueryBar {
    /// The bar's state is consistent.
    pub open spec fn wf(&self) -> bool {
        &&& self.autocomplete.wf()
        &&& self.history@.len() <= MAX_HISTORY
        &&& (self.history_index matches Some(i) ==> i < self.history@.len())
        &&& distinct_labels(self.cached_label_values@)
    }

    /// The history as character sequences.
    pub open spec fn history_views(&self) -> Seq<Seq<char>> {
        string_views(self.history@)
    }

    /// An inactive bar holding `initial_query` (or nothing) both as its text,
    /// with the cursor at the end, and as the current query.
    pub fn new(theme: Theme, initial_query: Option<String>) -> (b: QueryBar)
        ensures
            b.wf(),
            !b.active,
            b.history@.len() == 0,
            b.history_index is None,
            b.input.spec_value() == b.current_query@,
            b.input.spec_cursor() == b.current_query@.len(),
            b.current_query@ == (match initial_query {
                Some(q) => q@,
                None => Seq::empty(),
            }),
            b.theme == theme,
            !b.autocomplete.visible,
            b.cached_labels@.len() == 0,
            b.cached_label_values@.len() == 0,
    {
        let query = match initial_query {
            Some(q) => q,
            None => String::new(),
        };
        let input = InputState::new(query.clone());
        QueryBar {
            input,
            active: false,
            history: Vec::new(),
            history_index: None,
            current_query: query,
            theme,
            autocomplete: AutocompletePopup::new(theme),
            cached_labels: Vec::new(),
            cached_label_values: Vec::new(),
        }
    }

    /// Whether the bar accepts input.
    pub fn is_active(&self) -> (b: bool)
        ensures
            b == self.active,
    {
        self.active
    }

    /// Start accepting input.
    pub fn activate(&mut self)
        ensures
            *final(self) == (QueryBar { active: true, ..*old(self) }),
    {
        self.active = true;
    }

    /// Stop accepting input, leave the history and hide the dropdown.
    pub fn deactivate(&mut self)
        requires
            old(self).wf(),
        ensures
            final(self).wf(),
            *final(self) == (QueryBar {
                active: false,
                history_index: None,
                autocomplete: closed_popup(old(self).autocomplete),
                ..*old(self)
            }),
    {
        self.active = false;
        self.history_index = None;
        self.autocomplete.close();
    }

    /// The last submitted query.
    pub fn current_query(&self) -> (q: &str)
        ensures
            q@ == self.current_query@,
    {
        self.current_query.as_str()
    }

    /// Record the label names the backend knows.
    pub fn set_available_labels(&mut self, labels: Vec<String>)
        ensures
            *final(self) == (QueryBar { cached_labels: labels, ..*old(self) }),
    {
        self.cached_labels = labels;
    }

    /// Record the values the backend knows for `label`, replacing those
    /// recorded before.
    pub fn set_label_values(&mut self, label: &str, values: Vec<String>)
        requires
            old(self).wf(),
        ensures
            final(self).wf(),
            *final(self) == (QueryBar { cached_label_values: final(self).cached_label_values, ..*old(self) }),
            cached_values(final(self).cached_label_values@, label@) == Some(string_views(values@)),
            forall|other: Seq<char>|
                other != label@ ==> cached_values(final(self).cached_label_values@, other)
                    == cached_values(old(self).cached_label_values@, other),
    {
        let ghost before = self.cached_label_values@;
        let ghost vv = string_views(values@);
        let mut i: usize = 0;
        while i < self.cached_label_values.len()
            invariant
                i <= self.cached_label_values@.len(),
                self.cached_label_values@ == before,
                forall|k: int| 0 <= k < i ==> before[k].0@ != label@,
            ensures
                i <= self.cached_label_values@.len(),
                self.cached_label_values@ == before,
                forall|k: int| 0 <= k < i ==> before[k].0@ != label@,
                i < self.cached_label_values@.len() ==> before[i as int].0@ == label@,
            decreases self.cached_label_values@.len() - i,
        {
            if str_eq(self.cached_label_values[i].0.as_str(), label) {
                break;
            }
            i += 1;
        }
        let entry = (label.to_string(), values);
        if i < self.cached_label_values.len() {
            self.cached_label_values.set(i, entry);
        } else {
            self.cached_label_values.push(entry);
        }
        proof {
            let after = self.cached_label_values@;
            assert(distinct_labels(after)) by {
                assert forall|a: int, b: int| 0 <= a < after.len() && 0 <= b < after.len() && a != b implies after[a].0@ != after[b].0@ by {
                    if a < before.len() && b < before.len() {
                        if a != i && b != i {
                            assert(after[a] == before[a]);
                            assert(after[b] == before[b]);
                        }
                    }
                }
            }
            let j = if i < before.len() { i as int } else { before.len() as int };
            assert(after[j].0@ == label@);
            assert(cached_values(after, label@) == Some(vv));
            assert forall|other: Seq<char>| other != label@ implies cached_values(after, other) == cached_values(before, other) by {
                if exists|k: int| 0 <= k < before.len() && #[trigger] before[k].0@ == other {
                    let k = choose|k: int| 0 <= k < before.len() && #[trigger] before[k].0@ == other;
                    assert(after[k] == before[k]);
                    assert(after[k].0@ == other);
                }
                if exists|k: int| 0 <= k < after.len() && #[trigger] after[k].0@ == other {
                    let k = choose|k: int| 0 <= k < after.len() && #[trigger] after[k].0@ == other;
                    assert(k != j);
                    assert(after[k] == before[k]);
                }
            }
        }
    }

    /// Submit the text as a query (see [`submit_outcome`]).
    pub fn submit(&mut self) -> (r: Option<Action>)
        requires
            old(self).wf(),
        ensures
            final(self).wf(),
            submit_outcome(*old(self), *final(self), r),
    {
        self.autocomplete.close();
        let query = self.input.value().to_string();
        if query.as_str().unicode_len() == 0 {
            return None;
        }
        let ghost h = string_views(self.history@);
        let n = self.history.len();
        let repeat = n > 0 && str_eq(self.history[n - 1].as_str(), query.as_str());
        if !repeat {
            self.history.push(query.clone());
            if self.history.len() > MAX_HISTORY {
                self.history.remove(0);
            }
        }
        proof {
            if n > 0 {
                assert(h.last() == self.history@[n - 1]@ || !repeat);
            }
            assert(string_views(self.history@) =~= pushed_history(h, query@));
        }
        self.current_query = query.clone();
        self.history_index = None;
        self.active = false;
        Some(Action::SubmitQuery(query))
    }

    /// Show the previous history entry (see [`history_prev_outcome`]).
    pub fn history_prev(&mut self)
        requires
            old(self).wf(),
        ensures
            final(self).wf(),
            history_prev_outcome(*old(self), *final(self)),
    {
        if self.history.len() == 0 {
            return;
        }
        let idx = match self.history_index {
            Some(i) => i.saturating_sub(1),
            None => self.history.len() - 1,
        };
        self.history_index = Some(idx);
        self.input = InputState::new(self.history[idx].clone());
    }

    /// Show the next history entry (see [`history_next_outcome`]).
    pub fn history_next(&mut self)
        requires
            old(self).wf(),
        ensures
            final(self).wf(),
            history_next_outcome(*old(self), *final(self)),
    {
        if let Some(idx) = self.history_index {
            if idx + 1 < self.history.len() {
                self.history_index = Some(idx + 1);
                self.input = InputState::new(self.history[idx + 1].clone());
            } else {
                self.history_index = None;
                self.input = InputState::new(self.current_query.clone());
            }
        }
    }

    /// Put the highlighted suggestion in place of the partial token (see
    /// [`accept_outcome`]).
    pub fn accept_suggestion(&mut self)
        requires
            old(self).wf(),
        ensures
            final(self).wf(),
            accept_outcome(*old(self), *final(self)),
    {
        let suggestion = match self.autocomplete.selected_item() {
            Some(s) => chars_of(s),
            None => {
                return;
            },
        };
        let ctx = self.analyze_context();
        let token_start = match &ctx {
            CompletionContext::LabelName { token_start, .. } => *token_start,
            CompletionContext::LabelValue { token_start, .. } => *token_start,
            CompletionContext::Nothing => {
                return;
            },
        };
        let v = chars_of(self.input.value());
        let cursor = self.input.cursor();
        proof {
            lemma_context_bounds(v@, cursor as int);
        }
        let c = if cursor <= v.len() { cursor } else { v.len() };
        let mut nv = slice_chars(&v, 0, token_start);
        let mut i: usize = 0;
        while i < suggestion.len()
            invariant
                i <= suggestion@.len(),
                nv@ == v@.take(token_start as int) + suggestion@.take(i as int),
            decreases suggestion@.len() - i,
        {
            nv.push(suggestion[i]);
            assert(suggestion@.take(i + 1) == suggestion@.take(i as int).push(suggestion@[i as int]));
            i += 1;
        }
        let mut rest = slice_chars(&v, c, v.len());
        assert(suggestion@.take(suggestion@.len() as int) == suggestion@);
        let ghost head = nv@;
        nv.append(&mut rest);
        assert(nv@ == v@.take(token_start as int) + suggestion@ + v@.skip(c as int));
        let total = nv.len();
        assert(token_start + suggestion@.len() <= total);
        let new_cursor = token_start + suggestion.len();
        let text = string_from_range(&nv, 0, nv.len());
        assert(nv@.subrange(0, nv@.len() as int) =~= nv@);
        self.input = InputState::new(text).with_cursor(new_cursor);
        self.autocomplete.close();
    }

    /// Refresh the dropdown for the completion context at the cursor (see
    /// [`update_outcome`]); may ask for label names or values.
    pub fn update_autocomplete(&mut self) -> (r: Option<Action>)
        requires
            old(self).wf(),
        ensures
            final(self).wf(),
            update_outcome(*old(self), *final(self), r),
    {
        let ctx = self.analyze_context();
        match ctx {
            CompletionContext::LabelName { prefix, .. } => {
                if self.cached_labels.len() == 0 {
                    self.autocomplete.close();
                    return Some(Action::AutocompleteLabels);
                }
                let items = copy_strings(&self.cached_labels);
                self.autocomplete.set_items(items);
                self.autocomplete.set_filter(prefix.as_str());
                self.autocomplete.show();
                None
            },
            CompletionContext::LabelValue { label, prefix, .. } => {
                match self.find_label_values(label.as_str()) {
                    Some(i) => {
                        let items = copy_strings(&self.cached_label_values[i].1);
                        self.autocomplete.set_items(items);
                        self.autocomplete.set_filter(prefix.as_str());
                        self.autocomplete.show();
                        None
                    },
                    None => {
                        self.autocomplete.close();
                        Some(Action::AutocompleteLabelValues(label))
                    },
                }
            },
            CompletionContext::Nothing => {
                self.autocomplete.close();
                None
            },
        }
    }

    /// Where the cached values of `label` are kept.
    fn find_label_values(&self, label: &str) -> (r: Option<usize>)
        requires
            distinct_labels(self.cached_label_values@),
        ensures
            match r {
                Some(i) => i < self.cached_label_values@.len() && cached_values(self.cached_label_values@, label@)
                    == Some(string_views(self.cached_label_values@[i as int].1@)),
                None => cached_values(self.cached_label_values@, label@) is None,
            },
    {
        let mut i: usize = 0;
        while i < self.cached_label_values.len()
            invariant
                i <= self.cached_label_values@.len(),
                distinct_labels(self.cached_label_values@),
                forall|k: int| 0 <= k < i ==> self.cached_label_values@[k].0@ != label@,
            decreases self.cached_label_values@.len() - i,
        {
            if str_eq(self.cached_label_values[i].0.as_str(), label) {
                proof {
                    let c = self.cached_label_values@;
                    assert(c[i as int].0@ == label@);
                    let k = choose|k: int| 0 <= k < c.len() && #[trigger] c[k].0@ == label@;
                    if k != i {
                        assert(distinct_labels(c));
                        assert(c[k].0@ != c[i as int].0@);
                    }
                }
                return Some(i);
            }
            i += 1;
        }
        None
    }

    /// Handle a key while the bar has focus. An inactive bar ignores keys.
    /// While the dropdown is shown, Tab accepts the suggestion, Down (or
    /// Ctrl+N) and Up (or Ctrl+P) move the highlight and Esc closes it.
    /// Otherwise Enter submits, Esc leaves input mode, Up and Down browse
    /// the history, and other keys edit the text, refreshing the dropdown
    /// when the text changed.
    pub fn handle_key(&mut self, key: KeyPress) -> (r: Option<Action>)
        requires
            old(self).wf(),
        ensures
            final(self).wf(),
            ({
                let b = *old(self);
                let a = *final(self);
                let code = key.code;
                let ctrl = key.modifiers.control;
                let vis = b.autocomplete.visible;
                if !b.active {
                    a == b && r is None
                } else if vis && code == Key::Tab {
                    exists|mid: QueryBar| mid.wf() && accept_outcome(b, mid) && update_outcome(mid, a, r)
                } else if vis && (code == Key::Down || (ctrl && is_char(code, 'n'))) {
                    a == (QueryBar { autocomplete: b.autocomplete.spec_next(), ..b }) && r is None
                } else if vis && (code == Key::Up || (ctrl && is_char(code, 'p'))) {
                    a == (QueryBar { autocomplete: b.autocomplete.spec_prev(), ..b }) && r is None
                } else if vis && code == Key::Esc {
                    a == (QueryBar { autocomplete: closed_popup(b.autocomplete), ..b }) && r is None
                } else if code == Key::Enter {
                    submit_outcome(b, a, r)
                } else if code == Key::Esc {
                    a == (QueryBar {
                        active: false,
                        history_index: None,
                        autocomplete: closed_popup(b.autocomplete),
                        ..b
                    }) && r == Some(Action::ExitQueryMode)
                } else if code == Key::Up && !vis {
                    history_prev_outcome(b, a) && r is None
                } else if code == Key::Down && !vis {
                    history_next_outcome(b, a) && r is None
                } else {
                    exists|mid: QueryBar|
                        #![trigger mid.input]
                        mid == (QueryBar { input: mid.input, ..b }) && input_edited(b.input, mid.input, key)
                            && if mid.input.spec_value() != b.input.spec_value() {
                            update_outcome(mid, a, r)
                        } else {
                            a == mid && r is None
                        }
                }
            }),
    {
        if !self.active {
            return None;
        }
        let ctrl = key.modifiers.control;
        if self.autocomplete.visible {
            match key.code {
                Key::Tab => {
                    self.accept_suggestion();
                    let ghost mid = *self;
                    let r = self.update_autocomplete();
                    assert(mid.wf() && accept_outcome(*old(self), mid) && update_outcome(mid, *self, r));
                    return r;
                },
                Key::Down => {
                    self.autocomplete.next();
                    return None;
                },
                Key::Char('n') if ctrl => {
                    self.autocomplete.next();
                    return None;
                },
                Key::Up => {
                    self.autocomplete.prev();
                    return None;
                },
                Key::Char('p') if ctrl => {
                    self.autocomplete.prev();
                    return None;
                },
                Key::Esc => {
                    self.autocomplete.close();
                    return None;
                },
                _ => {},
            }
        }
        match key.code {
            Key::Enter => self.submit(),
            Key::Esc => {
                self.deactivate();
                Some(Action::ExitQueryMode)
            },
            Key::Up => {
                self.history_prev();
                None
            },
            Key::Down => {
                self.history_next();
                None
            },
            _ => {
                let before = self.input.value().to_string();
                self.input.handle_key(key);
                let ghost mid = *self;
                let same = str_eq(before.as_str(), self.input.value());
                if !same {
                    let r = self.update_autocomplete();
                    assert(update_outcome(mid, *self, r));
                    r
                } else {
                    None
                }
            },
        }
    }

    /// The completion context at the cursor.
    pub fn analyze_context(&self) -> (ctx: CompletionContext)
        ensures
            ctx@ == completion_context(self.input.spec_value(), self.input.spec_cursor() as int),
    {
        analyze(self.input.value(), self.input.cursor())
    }
}

/// `after` and `r` are what submitting gives in `before`: the dropdown
/// closes; an empty text submits nothing; otherwise the text joins the
/// history, becomes the current query, and the bar leaves input mode.
pub open spec fn submit_outcome(before: QueryBar, after: QueryBar, r: Option<Action>) -> bool {
    let q = before.input.spec_value();
    if q.len() == 0 {
        r is None && after == (QueryBar { autocomplete: closed_popup(before.autocomplete), ..before })
    } else {
        &&& r matches Some(Action::SubmitQuery(s)) && s@ == q
        &&& string_views(after.history@) == pushed_history(string_views(before.history@), q)
        &&& after.current_query@ == q
        &&& after == (QueryBar {
            history: after.history,
            current_query: after.current_query,
            history_index: None,
            active: false,
            autocomplete: closed_popup(before.autocomplete),
            ..before
        })
    }
}

/// `after` is `before` showing the previous history entry (the last one
/// when not browsing yet).
pub open spec fn history_prev_outcome(before: QueryBar, after: QueryBar) -> bool {
    if before.history@.len() == 0 {
        after == before
    } else {
        let idx = match before.history_index {
            Some(i) => if i > 0 { (i - 1) as usize } else { 0 },
            None => (before.history@.len() - 1) as usize,
        };
        &&& after == (QueryBar { history_index: Some(idx), input: after.input, ..before })
        &&& after.input.spec_value() == before.history@[idx as int]@
        &&& after.input.spec_cursor() == after.input.spec_value().len()
    }
}

/// `after` is `before` showing the next history entry, or back to the
/// current query past the last one; nothing changes when not browsing.
pub open spec fn history_next_outcome(before: QueryBar, after: QueryBar) -> bool {
    match before.history_index {
        None => after == before,
        Some(i) => if i + 1 < before.history@.len() {
            &&& after == (QueryBar { history_index: Some((i + 1) as usize), input: after.input, ..before })
            &&& after.input.spec_value() == before.history@[i + 1]@
            &&& after.input.spec_cursor() == after.input.spec_value().len()
        } else {
            &&& after == (QueryBar { history_index: None, input: after.input, ..before })
            &&& after.input.spec_value() == before.current_query@
            &&& after.input.spec_cursor() == after.input.spec_value().len()
        },
    }
}

/// `after` is `before` with the highlighted suggestion put in place of the
/// partial token and the cursor after it, and the dropdown closed; nothing
/// changes when nothing is highlighted or there is nothing to complete.
pub open spec fn accept_outcome(before: QueryBar, after: QueryBar) -> bool {
    let v = before.input.spec_value();
    let c = before.input.spec_cursor() as int;
    let a = before.autocomplete;
    if a.filtered@.len() == 0 {
        after == before
    } else {
        let sug = a.filtered@[a.selected as int]@;
        match accepted(v, c, sug, completion_context(v, c)) {
            None => after == before,
            Some((nv, nc)) => {
                &&& after == (QueryBar { input: after.input, autocomplete: closed_popup(a), ..before })
                &&& after.input.spec_value() == nv
                &&& after.input.spec_cursor() == (if nc <= nv.len() { nc } else { nv.len() as int })
            },
        }
    }
}

/// `after` and `r` are what refreshing the dropdown gives in `before`: in
/// a label-name context it lists the known label names (or asks for them
/// when none are known); in a label-value context the known values of that
/// label (or asks for them); elsewhere it closes.
pub open spec fn update_outcome(before: QueryBar, after: QueryBar, r: Option<Action>) -> bool {
    let ctx = completion_context(before.input.spec_value(), before.input.spec_cursor() as int);
    let a = after.autocomplete;
    let shown = |items: Seq<Seq<char>>, prefix: Seq<char>|
        {
            &&& after == (QueryBar { autocomplete: a, ..before })
            &&& a.wf()
            &&& string_views(a.items@) == items
            &&& a.filter@ == prefix
            &&& a.visible
            &&& a.theme == before.autocomplete.theme
            &&& r is None
        };
    match ctx {
        ContextModel::LabelName { prefix, .. } => if before.cached_labels@.len() == 0 {
            after == (QueryBar { autocomplete: closed_popup(before.autocomplete), ..before })
                && r == Some(Action::AutocompleteLabels)
        } else {
            shown(string_views(before.cached_labels@), prefix)
        },
        ContextModel::LabelValue { label, prefix, .. } => match cached_values(before.cached_label_values@, label) {
            Some(vals) => shown(vals, prefix),
            None => after == (QueryBar { autocomplete: closed_popup(before.autocomplete), ..before })
                && (r matches Some(Action::AutocompleteLabelValues(l)) && l@ == label),
        },
        ContextModel::NoContext => after == (QueryBar { autocomplete: closed_popup(before.autocomplete), ..before })
            && r is None,
    }
}

/// The token start of a completion context never passes the cursor.
proof fn lemma_context_bounds(v: Seq<char>, cursor: int)
    requires
        0 <= cursor,
    ensures
        ({
            let c = if cursor <= v.len() { cursor } else { v.len() as int };
            match completion_context(v, cursor) {
                ContextModel::LabelName { token_start, .. } => 0 <= token_start <= c,
                ContextModel::LabelValue { token_start, .. } => 0 <= token_start <= c,
                ContextModel::NoContext => true,
            }
        }),
{
    let c = if cursor <= v.len() { cursor } else { v.len() as int };
    let before = v.take(c);
    let open = last_occ(before, seq!['{']);
    if let Some(o) = open {
        assert(is_last_occ(before, seq!['{'], o));
        let inside = before.skip(o + 1);
        lemma_value_context_bounds(inside, seq!['=', '"'], o + 1);
        lemma_value_context_bounds(inside, seq!['=', '~', '"'], o + 1);
        let t = after_last_comma(inside);
        if let Some(k) = last_occ(inside, seq![',']) {
            assert(is_last_occ(inside, seq![','], k));
        }
        crate::text::lemma_leading_space_bound(t);
    }
}

/// A value context starts within the braces text.
proof fn lemma_value_context_bounds(inside: Seq<char>, marker: Seq<char>, base: int)
    ensures
        value_context(inside, marker, base) matches Some(ContextModel::LabelValue { token_start, .. })
            ==> base <= token_start <= base + inside.len(),
{
    if let Some(q) = last_occ(inside, marker) {
        assert(is_last_occ(inside, marker, q));
    }
}

/// A last occurrence is the one `last_occ` finds.
proof fn lemma_last_occ_is(s: Seq<char>, p: Seq<char>, i: int)
    requires
        is_last_occ(s, p, i),
    ensures
        last_occ(s, p) == Some(i),
{
    let j = choose|j: int| is_last_occ(s, p, j);
    assert(is_last_occ(s, p, j));
    if j < i {
        assert(!occurs_at(s, p, i));
    } else if i < j {
        assert(!occurs_at(s, p, j));
    }
}

/// When no occurrence of `p` in `s` lies at `from` or later, the last one,
/// if any, lies before `from`.
proof fn lemma_last_occ_before(s: Seq<char>, p: Seq<char>, from: int)
    requires
        forall|j: int| from <= j ==> !occurs_at(s, p, j),
    ensures
        last_occ(s, p) matches Some(k) ==> k < from && occurs_at(s, p, k),
{
    if let Some(k) = last_occ(s, p) {
        assert(is_last_occ(s, p, k));
    }
}

/// Completing inside an unclosed `{` right after `label="partial` or
/// `label=~"partial` (no quote in the partial value): the cursor completes
/// a value of that label (the text after the last comma before the
/// marker, trimmed), with the partial value as prefix, starting just
/// after the marker.
pub proof fn law_value_completion(v: Seq<char>, cursor: int, head: Seq<char>, body: Seq<char>, tilde: bool, partial: Seq<char>)
    requires
        0 <= cursor <= v.len(),
        v.take(cursor) == head + seq!['{'] + body + (if tilde { seq!['=', '~', '"'] } else { seq!['=', '"'] })
            + partial,
        !body.contains('{') && !body.contains('}'),
        !partial.contains('{') && !partial.contains('}') && !partial.contains('"'),
    ensures
        completion_context(v, cursor) == (ContextModel::LabelValue {
            label: trim(after_last_comma(body)),
            prefix: partial,
            token_start: head.len() + 1 + body.len() + if tilde { 3int } else { 2int },
        }),
{
    let m = if tilde { seq!['=', '~', '"'] } else { seq!['=', '"'] };
    let before = v.take(cursor);
    let o = head.len() as int;
    let inside = body + m + partial;
    assert(before =~= head + seq!['{'] + inside);
    assert(before.skip(o + 1) =~= inside);
    assert forall|j: int| o < j implies !occurs_at(before, seq!['{'], j) by {
        if occurs_at(before, seq!['{'], j) {
            assert(before.subrange(j, j + 1)[0] == before[j]);
            if j - o - 1 < body.len() {
                assert(body[j - o - 1] == before[j]);
                assert(body.contains('{'));
            } else if j - o - 1 < body.len() + m.len() {
                assert(m[j - o - 1 - body.len()] == before[j]);
            } else {
                assert(partial[j - o - 1 - body.len() - m.len()] == before[j]);
                assert(partial.contains('{'));
            }
        }
    }
    assert(before.subrange(o, o + 1) =~= seq!['{']);
    lemma_last_occ_is(before, seq!['{'], o);
    assert forall|j: int| o <= j implies !occurs_at(before, seq!['}'], j) by {
        if occurs_at(before, seq!['}'], j) {
            assert(before.subrange(j, j + 1)[0] == before[j]);
            if j == o {
            } else if j - o - 1 < body.len() {
                assert(body[j - o - 1] == before[j]);
                assert(body.contains('}'));
            } else if j - o - 1 < body.len() + m.len() {
                assert(m[j - o - 1 - body.len()] == before[j]);
            } else {
                assert(partial[j - o - 1 - body.len() - m.len()] == before[j]);
                assert(partial.contains('}'));
            }
        }
    }
    lemma_last_occ_before(before, seq!['}'], o);
    let b = body.len() as int;
    // The plain marker `="`.
    let eq = seq!['=', '"'];
    if tilde {
        assert forall|j: int| b - 1 <= j implies !occurs_at(inside, eq, j) by {
            if occurs_at(inside, eq, j) {
                assert(inside.subrange(j, j + 2)[1] == inside[j + 1]);
                assert(inside.subrange(j, j + 2)[0] == inside[j]);
                if j + 1 < b + 3 {
                    assert(inside[j + 1] == m[j + 1 - b]);
                } else {
                    assert(inside[j + 1] == partial[j + 1 - b - 3]);
                    assert(partial.contains('"'));
                }
            }
        }
        lemma_last_occ_before(inside, eq, b - 1);
        if let Some(q) = last_occ(inside, eq) {
            let after = inside.skip(q + 2);
            assert(after[b + 2 - q - 2] == inside[b + 2]);
            assert(after.contains('"'));
        }
        assert(value_context(inside, eq, o + 1) is None);
    }
    assert(inside.subrange(b, b + m.len()) =~= m);
    assert forall|j: int| b < j implies !occurs_at(inside, m, j) by {
        if occurs_at(inside, m, j) {
            let l = m.len() as int;
            assert(inside.subrange(j, j + l)[l - 1] == inside[j + l - 1]);
            if j + l - 1 < b + l {
                assert(inside[j + l - 1] == m[j + l - 1 - b]);
            } else {
                assert(inside[j + l - 1] == partial[j + l - 1 - b - l]);
                assert(partial.contains('"'));
            }
        }
    }
    lemma_last_occ_is(inside, m, b);
    assert(inside.skip(b + m.len()) =~= partial);
    assert(inside.take(b) =~= body);
}

/// Outside any brace the cursor completes nothing.
pub proof fn law_no_completion_outside_braces(v: Seq<char>, cursor: int)
    requires
        0 <= cursor <= v.len(),
        !v.take(cursor).contains('{'),
    ensures
        completion_context(v, cursor) == ContextModel::NoContext,
{
    let before = v.take(cursor);
    assert forall|j: int| 0 <= j implies !occurs_at(before, seq!['{'], j) by {
        if occurs_at(before, seq!['{'], j) {
            assert(before.subrange(j, j + 1)[0] == before[j]);
        }
    }
    lemma_last_occ_before(before, seq!['{'], 0);
}

/// Completing inside an unclosed `{` whose text holds no quote: the cursor
/// completes the label name after the last comma (leading spaces left
/// out), unless that text already holds `=` or `!`.
pub proof fn law_name_completion(v: Seq<char>, cursor: int, head: Seq<char>, body: Seq<char>)
    requires
        0 <= cursor <= v.len(),
        v.take(cursor) == head + seq!['{'] + body,
        !body.contains('{') && !body.contains('}') && !body.contains('"'),
    ensures
        ({
            let partial = trim_start(after_last_comma(body));
            completion_context(v, cursor) == if partial.contains('=') || partial.contains('!') {
                ContextModel::NoContext
            } else {
                ContextModel::LabelName { prefix: partial, token_start: cursor - partial.len() }
            }
        }),
{
    let before = v.take(cursor);
    let o = head.len() as int;
    assert(before =~= head + seq!['{'] + body);
    assert(before.skip(o + 1) =~= body);
    assert forall|j: int| o < j implies !occurs_at(before, seq!['{'], j) by {
        if occurs_at(before, seq!['{'], j) {
            assert(before.subrange(j, j + 1)[0] == before[j]);
            assert(body[j - o - 1] == before[j]);
            assert(body.contains('{'));
        }
    }
    assert(before.subrange(o, o + 1) =~= seq!['{']);
    lemma_last_occ_is(before, seq!['{'], o);
    assert forall|j: int| o <= j implies !occurs_at(before, seq!['}'], j) by {
        if occurs_at(before, seq!['}'], j) {
            assert(before.subrange(j, j + 1)[0] == before[j]);
            if j > o {
                assert(body[j - o - 1] == before[j]);
                assert(body.contains('}'));
            }
        }
    }
    lemma_last_occ_before(before, seq!['}'], o);
    let eq = seq!['=', '"'];
    let eqt = seq!['=', '~', '"'];
    assert forall|j: int| 0 <= j implies !occurs_at(body, eq, j) by {
        if occurs_at(body, eq, j) {
            assert(body.subrange(j, j + 2)[1] == body[j + 1]);
            assert(body.contains('"'));
        }
    }
    lemma_last_occ_before(body, eq, 0);
    assert forall|j: int| 0 <= j implies !occurs_at(body, eqt, j) by {
        if occurs_at(body, eqt, j) {
            assert(body.subrange(j, j + 3)[2] == body[j + 2]);
            assert(body.contains('"'));
        }
    }
    lemma_last_occ_before(body, eqt, 0);
}

/// A copy of a list of strings.
pub fn copy_strings(v: &Vec<String>) -> (r: Vec<String>)
    ensures
        string_views(r@) == string_views(v@),
{
    let mut r: Vec<String> = Vec::new();
    let mut i: usize = 0;
    while i < v.len()
        invariant
            i <= v.len(),
            r@.len() == i,
            forall|k: int| 0 <= k < i ==> #[trigger] r@[k]@ == v@[k]@,
        decreases v.len() - i,
    {
        let s = v[i].clone();
        r.push(s);
        i += 1;
    }
    assert(string_views(r@) =~= string_views(v@));
    r
}

/// Submitting keeps the history within its bound and leaves the submitted
/// query as its newest entry.
pub proof fn law_history_bounded(h: Seq<Seq<char>>, q: Seq<char>)
    requires
        h.len() <= MAX_HISTORY,
    ensures
        pushed_history(h, q).len() <= MAX_HISTORY,
        pushed_history(h, q).len() > 0,
        pushed_history(h, q).last() == q,
{
}

/// After submitting a non-empty query, stepping back through the history
/// brings that query back into the input.
pub proof fn law_submit_then_recall(b0: QueryBar, b1: QueryBar, r: Option<Action>, b2: QueryBar)
    requires
        b0.wf(),
        b0.input.spec_value().len() > 0,
        submit_outcome(b0, b1, r),
        history_prev_outcome(b1, b2),
    ensures
        b2.input.spec_value() == b0.input.spec_value(),
{
    let q = b0.input.spec_value();
    law_history_bounded(string_views(b0.history@), q);
    let h1 = string_views(b1.history@);
    assert(h1.len() == b1.history@.len());
    assert(h1[h1.len() - 1] == b1.history@[b1.history@.len() - 1]@);
}

} // verus!
