//! The application's own state and decisions: the open tabs with their
//! log buffers and queries, the input mode and focus, the notification
//! line, the work queued for the event loop (tail restarts, label loads,
//! source switches), and which component a key goes to.

use vstd::prelude::*;
use crate::action::Action;
use crate::components::filter_panel::ActiveFilter;
use crate::components::tab_bar::{queries, TabBar, MAX_TABS};
use crate::keymap::InputMode;
use crate::layout::{FocusManager, FocusTarget};
use crate::log_entry::LogEntry;
use crate::session::Session;
use crate::text::{decimal, decimal_string, join_words, string_views};
use crate::theme::Theme;

verus! {

/// A message shown in place of the status bar for a number of ticks.
#[derive(Debug, Clone)]
pub struct Notification {
    /// The message.
    pub message: String,
    /// Whether it reports an error.
    pub is_error: bool,
    /// Ticks left before it disappears.
    pub ticks: u8,
}

/// One tab: its log buffer, oldest entry first, and its query.
#[derive(Debug)]
pub struct TabState {
    /// Buffered log entries.
    pub log_buffer: Vec<LogEntry>,
    /// The query running in this tab.
    pub query: String,
}

/// The application's state apart from the backend, the channels and the
/// components.
pub struct AppState {
    /// Most entries a tab's buffer holds.
    pub max_buffer_size: usize,
    /// The tabs, in order.
    pub tabs_state: Vec<TabState>,
    /// Index of the visible tab.
    pub active_tab: usize,
    /// The input mode.
    pub input_mode: InputMode,
    /// Which panel has the focus.
    pub focus: FocusManager,
    /// The tab bar.
    pub tab_bar: TabBar,
    /// The query the filters refine.
    pub base_query: String,
    /// A tail restart queued for the visible tab.
    pub pending_query: Option<String>,
    /// A tail start queued for a new tab: (tab index, query).
    pub pending_new_tab_query: Option<(usize, String)>,
    /// A label whose values should be loaded.
    pub pending_label_load: Option<String>,
    /// A source to switch to.
    pub pending_switch_source: Option<String>,
    /// The time range, in minutes.
    pub time_range_minutes: u64,
    /// The notification shown, if any.
    pub notification: Option<Notification>,
    /// Whether alerts are muted.
    pub alert_muted: bool,
    /// Whether the application should quit.
    pub should_quit: bool,
}

/// The queries of the tabs.
pub open spec fn tab_queries(tabs: Seq<TabState>) -> Seq<Seq<char>> {
    Seq::new(tabs.len(), |i: int| tabs[i].query@)
}

/// `buf` with `e` appended, then its oldest entry dropped when it holds
/// more than `max` entries.
pub open spec fn capped_push(buf: Seq<LogEntry>, e: LogEntry, max: usize) -> Seq<LogEntry> {
    if buf.len() + 1 > max {
        buf.push(e).drop_first()
    } else {
        buf.push(e)
    }
}

/// A buffer within its limit stays within it, and ends with the entry
/// just added (when the limit allows any entry).
pub proof fn law_capped_push(buf: Seq<LogEntry>, e: LogEntry, max: usize)
    requires
        buf.len() <= max,
    ensures
        capped_push(buf, e, max).len() <= max,
        max >= 1 ==> capped_push(buf, e, max).last() == e,
        buf.len() < max ==> capped_push(buf, e, max) == buf.push(e),
{
}

/// Opening a tab and closing it again (it is then the visible one) leaves
/// the tabs as they were.
pub proof fn law_new_tab_then_close(tabs: Seq<TabState>, t: TabState)
    ensures
        tabs.push(t).remove(tabs.len() as int) == tabs,
{
    assert(tabs.push(t).remove(tabs.len() as int) =~= tabs);
}

/// A notification's message, kind and ticks.
pub open spec fn note(n: Option<Notification>) -> Option<(Seq<char>, bool, u8)> {
    match n {
        Some(x) => Some((x.message@, x.is_error, x.ticks)),
        None => None,
    }
}

impl AppState {
    /// One to nine tabs, matching the tab bar, the visible one among them,
    /// and no buffer over the limit.
    pub open spec fn wf(&self) -> bool {
        &&& self.tab_bar.wf()
        &&& self.tabs_state@.len() == self.tab_bar.tabs@.len()
        &&& self.active_tab == self.tab_bar.active
        &&& self.active_tab < self.tabs_state@.len()
        &&& forall|t: int|
            0 <= t < self.tabs_state@.len() ==> (#[trigger] self.tabs_state@[t]).log_buffer@.len()
                <= self.max_buffer_size
    }

    /// The starting state: one tab running `initial_query` (or `{}`), in
    /// normal mode with the log viewer focused, a one-hour time range.
    pub fn new(theme: Theme, max_buffer_size: usize, initial_query: Option<String>) -> (s: AppState)
        ensures
            s.wf(),
            s.max_buffer_size == max_buffer_size,
            s.tabs_state@.len() == 1,
            s.tabs_state@[0].log_buffer@.len() == 0,
            s.tabs_state@[0].query@ == match initial_query {
                Some(q) => q@,
                None => "{}"@,
            },
            s.active_tab == 0,
            s.input_mode == InputMode::Normal,
            s.focus.spec_current() == FocusTarget::LogViewer,
            s.base_query@.len() == 0,
            s.pending_query is None && s.pending_new_tab_query is None,
            s.pending_label_load is None && s.pending_switch_source is None,
            s.time_range_minutes == 60,
            s.notification is None,
            !s.alert_muted && !s.should_quit,
    {
        let q = match initial_query {
            Some(q) => q,
            None => String::from_str("{}"),
        };
        let mut tabs_state: Vec<TabState> = Vec::new();
        tabs_state.push(TabState { log_buffer: Vec::new(), query: q });
        let tab_bar = TabBar::new(theme);
        proof {
            assert(queries(tab_bar.tabs@).len() == tab_bar.tabs@.len());
        }
        AppState {
            max_buffer_size,
            tabs_state,
            active_tab: 0,
            input_mode: InputMode::Normal,
            focus: FocusManager::new(),
            tab_bar,
            base_query: String::new(),
            pending_query: None,
            pending_new_tab_query: None,
            pending_label_load: None,
            pending_switch_source: None,
            time_range_minutes: 60,
            notification: None,
            alert_muted: false,
            should_quit: false,
        }
    }

    /// Show `message` for `ticks` ticks.
    pub fn notify(&mut self, message: String, is_error: bool, ticks: u8)
        ensures
            *final(self) == (AppState {
                notification: Some(Notification { message, is_error, ticks }),
                ..*old(self)
            }),
    {
        self.notification = Some(Notification { message, is_error, ticks });
    }

    /// Append `entry` to the buffer of tab `tab`, dropping the oldest entry
    /// when the buffer would exceed its limit.
    pub fn push_entry(&mut self, tab: usize, entry: LogEntry)
        requires
            old(self).wf(),
            tab < old(self).tabs_state@.len(),
        ensures
            final(self).wf(),
            final(self).tabs_state@.len() == old(self).tabs_state@.len(),
            final(self).tabs_state@[tab as int].log_buffer@ == capped_push(
                old(self).tabs_state@[tab as int].log_buffer@,
                entry,
                old(self).max_buffer_size,
            ),
            final(self).tabs_state@[tab as int].query == old(self).tabs_state@[tab as int].query,
            forall|t: int|
                0 <= t < old(self).tabs_state@.len() && t != tab ==> #[trigger] final(self).tabs_state@[t]
                    == old(self).tabs_state@[t],
            final(self).active_tab == old(self).active_tab,
            final(self).tab_bar == old(self).tab_bar,
            final(self).max_buffer_size == old(self).max_buffer_size,
    {
        let ghost before = self.tabs_state@;
        let mut ts = self.tabs_state.remove(tab);
        ts.log_buffer.push(entry);
        if ts.log_buffer.len() > self.max_buffer_size {
            ts.log_buffer.remove(0);
        }
        self.tabs_state.insert(tab, ts);
        proof {
            assert forall|t: int|
                0 <= t < self.tabs_state@.len() && t != tab implies #[trigger] self.tabs_state@[t]
                    == before[t] by {
                if t < tab {
                    assert(self.tabs_state@[t] == before[t]);
                } else {
                    assert(self.tabs_state@[t] == before[t]);
                }
            }
        }
    }

    /// One tick: the notification counts down and disappears after its
    /// last tick.
    pub fn tick(&mut self)
        ensures
            *final(self) == (AppState {
                notification: match old(self).notification {
                    Some(n) => if n.ticks == 0 {
                        None
                    } else {
                        Some(Notification { ticks: (n.ticks - 1) as u8, ..n })
                    },
                    None => None,
                },
                ..*old(self)
            }),
    {
        let n = self.notification.take();
        self.notification = match n {
            Some(n) => if n.ticks == 0 {
                None
            } else {
                Some(Notification { ticks: n.ticks - 1, ..n })
            },
            None => None,
        };
    }
}


/// `a` followed by `b`.
fn concat(a: &str, b: &str) -> (r: String)
    ensures
        r@ == a@ + b@,
{
    let mut r = String::from_str(a);
    r.append(b);
    r
}

/// `v` with `\` and `"` escaped by a backslash, for a LogQL string.
pub open spec fn escaped_value(v: Seq<char>) -> Seq<char>
    decreases v.len(),
{
    if v.len() == 0 {
        seq![]
    } else {
        escaped_value(v.drop_last()) + if v.last() == '\\' {
            seq!['\\', '\\']
        } else if v.last() == '"' {
            seq!['\\', '"']
        } else {
            seq![v.last()]
        }
    }
}

/// The matcher `label="value"` of a filter, the value escaped.
pub open spec fn filter_matcher(f: ActiveFilter) -> Seq<char> {
    f.label@ + "=\""@ + escaped_value(f.value@) + "\""@
}

/// The matchers of the filters, in order.
pub open spec fn filter_matchers(fs: Seq<ActiveFilter>) -> Seq<Seq<char>> {
    Seq::new(fs.len(), |i: int| filter_matcher(fs[i]))
}

/// The query the filters select: the base query (`{}` when empty) when no
/// filter is active, else a stream selector of their matchers.
pub open spec fn filter_query(base: Seq<char>, fs: Seq<ActiveFilter>) -> Seq<char> {
    if fs.len() == 0 {
        if base.len() == 0 {
            "{}"@
        } else {
            base
        }
    } else {
        "{"@ + join_words(filter_matchers(fs), ", "@) + "}"@
    }
}

/// `v` escaped for a LogQL string.
fn escape_value(v: &str) -> (r: String)
    ensures
        r@ == escaped_value(v@),
{
    let cs = crate::text::chars_of(v);
    let mut r = String::new();
    let mut i: usize = 0;
    while i < cs.len()
        invariant
            i <= cs@.len(),
            cs@ == v@,
            r@ == escaped_value(v@.take(i as int)),
        decreases cs@.len() - i,
    {
        proof {
            assert(v@.take(i + 1).drop_last() == v@.take(i as int));
            assert(v@.take(i + 1).last() == v@[i as int]);
        }
        let c = cs[i];
        if c == '\\' {
            crate::text::push_char(&mut r, '\\');
            crate::text::push_char(&mut r, '\\');
            proof {
                assert(r@ =~= escaped_value(v@.take(i as int)) + seq!['\\', '\\']);
            }
        } else if c == '"' {
            crate::text::push_char(&mut r, '\\');
            crate::text::push_char(&mut r, '"');
            proof {
                assert(r@ =~= escaped_value(v@.take(i as int)) + seq!['\\', '"']);
            }
        } else {
            crate::text::push_char(&mut r, c);
            proof {
                assert(r@ =~= escaped_value(v@.take(i as int)) + seq![c]);
            }
        }
        i += 1;
    }
    proof {
        assert(v@.take(v@.len() as int) == v@);
    }
    r
}

/// The query the active filters select on top of `base`.
pub fn build_filter_query(base: &str, filters: &Vec<ActiveFilter>) -> (q: String)
    ensures
        q@ == filter_query(base@, filters@),
{
    if filters.len() == 0 {
        return if base.unicode_len() == 0 {
            String::from_str("{}")
        } else {
            String::from_str(base)
        };
    }
    let mut matchers: Vec<String> = Vec::new();
    let mut i: usize = 0;
    while i < filters.len()
        invariant
            i <= filters@.len(),
            matchers@.len() == i,
            string_views(matchers@) == filter_matchers(filters@).take(i as int),
        decreases filters@.len() - i,
    {
        let f = &filters[i];
        let a = concat(f.label.as_str(), "=\"");
        let e = escape_value(f.value.as_str());
        let b = concat(a.as_str(), e.as_str());
        let m = concat(b.as_str(), "\"");
        let ghost before = matchers@;
        matchers.push(m);
        proof {
            assert forall|j: int| 0 <= j < i + 1 implies string_views(matchers@)[j] == filter_matchers(
                filters@,
            ).take(i + 1)[j] by {
                if j < i {
                    assert(matchers@[j] == before[j]);
                    assert(string_views(before)[j] == before[j]@);
                }
            }
            assert(string_views(matchers@) =~= filter_matchers(filters@).take(i + 1));
        }
        i += 1;
    }
    proof {
        assert(filter_matchers(filters@).take(filters@.len() as int) == filter_matchers(filters@));
    }
    let j = crate::text::join_strings(&matchers, ", ");
    let a = concat("{", j.as_str());
    concat(a.as_str(), "}")
}

impl AppState {
    /// The query of tab `i`.
    pub open spec fn query_of(&self, i: int) -> Seq<char> {
        self.tabs_state@[i].query@
    }

    /// Replace the query of tab `i`.
    fn set_tab_query(&mut self, i: usize, q: String)
        requires
            old(self).wf(),
            i < old(self).tabs_state@.len(),
        ensures
            final(self).wf(),
            final(self).tabs_state@.len() == old(self).tabs_state@.len(),
            final(self).tabs_state@[i as int].query == q,
            final(self).tabs_state@[i as int].log_buffer == old(self).tabs_state@[i as int].log_buffer,
            forall|t: int|
                0 <= t < old(self).tabs_state@.len() && t != i ==> #[trigger] final(self).tabs_state@[t]
                    == old(self).tabs_state@[t],
            *final(self) == (AppState { tabs_state: final(self).tabs_state, ..*old(self) }),
    {
        let ghost before = self.tabs_state@;
        let mut ts = self.tabs_state.remove(i);
        ts.query = q;
        self.tabs_state.insert(i, ts);
        proof {
            assert forall|t: int|
                0 <= t < before.len() && t != i implies #[trigger] self.tabs_state@[t] == before[t] by {
                if t < i {
                    assert(self.tabs_state@[t] == before[t]);
                } else {
                    assert(self.tabs_state@[t] == before[t]);
                }
            }
        }
    }

    /// Submit `query` on the visible tab: back to normal mode, the query
    /// becomes the base query and the tab's query, and the tab's tail is
    /// restarted on it.
    pub fn submit_query(&mut self, query: String)
        requires
            old(self).wf(),
        ensures
            final(self).wf(),
            final(self).input_mode == InputMode::Normal,
            final(self).base_query@ == query@,
            final(self).query_of(old(self).active_tab as int) == query@,
            final(self).pending_query matches Some(p) && p@ == query@,
            final(self).tabs_state@.len() == old(self).tabs_state@.len(),
            forall|t: int|
                0 <= t < old(self).tabs_state@.len() && t != old(self).active_tab
                    ==> #[trigger] final(self).tabs_state@[t] == old(self).tabs_state@[t],
            final(self).tabs_state@[old(self).active_tab as int].log_buffer
                == old(self).tabs_state@[old(self).active_tab as int].log_buffer,
            final(self).active_tab == old(self).active_tab,
            final(self).tab_bar == old(self).tab_bar,
            final(self).notification == old(self).notification,
    {
        self.input_mode = InputMode::Normal;
        self.base_query = query.clone();
        let i = self.active_tab;
        self.set_tab_query(i, query.clone());
        self.pending_query = Some(query);
    }

    /// Open a tab on `{}` and make it visible, its tail queued; at nine
    /// tabs, say so instead. Returns the new tab's index.
    pub fn new_tab(&mut self) -> (r: Option<usize>)
        requires
            old(self).wf(),
        ensures
            final(self).wf(),
            old(self).tabs_state@.len() >= MAX_TABS ==> {
                &&& r is None
                &&& *final(self) == (AppState { notification: final(self).notification, ..*old(self) })
                &&& note(final(self).notification) == Some(("Maximum number of tabs reached"@, false, 12u8))
            },
            old(self).tabs_state@.len() < MAX_TABS ==> {
                let n = old(self).tabs_state@.len();
                &&& r == Some(n as usize)
                &&& final(self).tabs_state@.len() == n + 1
                &&& final(self).tabs_state@.take(n as int) == old(self).tabs_state@
                &&& final(self).tabs_state@[n as int].log_buffer@.len() == 0
                &&& final(self).query_of(n as int) == "{}"@
                &&& final(self).active_tab == n
                &&& queries(final(self).tab_bar.tabs@) == queries(old(self).tab_bar.tabs@).push("{}"@)
                &&& final(self).pending_new_tab_query matches Some((i, q)) && i == n && q@ == "{}"@
                &&& final(self).notification == old(self).notification
                &&& final(self).base_query == old(self).base_query
                &&& final(self).pending_query == old(self).pending_query
            },
    {
        if self.tabs_state.len() >= MAX_TABS {
            self.notify(String::from_str("Maximum number of tabs reached"), false, 12);
            return None;
        }
        let q = String::from_str("{}");
        let added = self.tab_bar.add_tab(q.clone());
        match added {
            Some(idx) => {
                let ghost before = self.tabs_state@;
                self.tabs_state.push(TabState { log_buffer: Vec::new(), query: q.clone() });
                self.active_tab = idx;
                self.tab_bar.set_active(idx);
                self.pending_new_tab_query = Some((idx, q));
                proof {
                    assert(self.tabs_state@.take(before.len() as int) == before);
                    assert(queries(self.tab_bar.tabs@).len() == self.tab_bar.tabs@.len());
                    assert(queries(old(self).tab_bar.tabs@).len() == old(self).tab_bar.tabs@.len());
                    assert forall|t: int|
                        0 <= t < self.tabs_state@.len() implies (#[trigger] self.tabs_state@[t]).log_buffer@.len()
                            <= self.max_buffer_size by {
                        if t < before.len() {
                            assert(self.tabs_state@[t] == before[t]);
                        }
                    }
                }
                Some(idx)
            },
            None => None,
        }
    }

    /// Close the visible tab; the next one (or the new last one) becomes
    /// visible and its query the base query. The last tab is never closed:
    /// say so instead. Returns whether a tab was closed.
    pub fn close_tab(&mut self) -> (closed: bool)
        requires
            old(self).wf(),
        ensures
            final(self).wf(),
            old(self).tabs_state@.len() <= 1 ==> {
                &&& !closed
                &&& *final(self) == (AppState { notification: final(self).notification, ..*old(self) })
                &&& note(final(self).notification) == Some(("Cannot close the last tab"@, false, 12u8))
            },
            old(self).tabs_state@.len() > 1 ==> {
                let n = (old(self).tabs_state@.len() - 1) as int;
                &&& closed
                &&& final(self).tabs_state@ == old(self).tabs_state@.remove(old(self).active_tab as int)
                &&& final(self).active_tab == if old(self).active_tab < n {
                    old(self).active_tab
                } else {
                    (n - 1) as usize
                }
                &&& final(self).base_query@ == final(self).query_of(final(self).active_tab as int)
                &&& queries(final(self).tab_bar.tabs@) == queries(old(self).tab_bar.tabs@).remove(
                    old(self).active_tab as int,
                )
                &&& final(self).notification == old(self).notification
                &&& final(self).pending_query == old(self).pending_query
            },
    {
        if self.tab_bar.tab_count() <= 1 {
            self.notify(String::from_str("Cannot close the last tab"), false, 12);
            return false;
        }
        let close_idx = self.active_tab;
        let ghost before = self.tabs_state@;
        let _removed = self.tabs_state.remove(close_idx);
        self.tab_bar.close_tab(close_idx);
        if self.active_tab >= self.tabs_state.len() {
            self.active_tab = self.tabs_state.len() - 1;
        }
        let a = self.active_tab;
        self.tab_bar.set_active(a);
        self.base_query = self.tabs_state[a].query.clone();
        proof {
            assert(queries(self.tab_bar.tabs@).len() == self.tab_bar.tabs@.len());
            assert(queries(old(self).tab_bar.tabs@).len() == old(self).tab_bar.tabs@.len());
            assert forall|t: int|
                0 <= t < self.tabs_state@.len() implies (#[trigger] self.tabs_state@[t]).log_buffer@.len()
                    <= self.max_buffer_size by {
                if t < close_idx {
                    assert(self.tabs_state@[t] == before[t]);
                } else {
                    assert(self.tabs_state@[t] == before[t + 1]);
                }
            }
        }
        true
    }

    /// Make tab `n` visible, its query the base query; a number past the
    /// tabs changes nothing. Returns whether the tab was switched.
    pub fn switch_tab(&mut self, n: usize) -> (switched: bool)
        requires
            old(self).wf(),
        ensures
            final(self).wf(),
            switched == (n < old(self).tabs_state@.len()),
            !switched ==> *final(self) == *old(self),
            switched ==> *final(self) == (AppState {
                active_tab: n,
                tab_bar: TabBar { active: n, ..old(self).tab_bar },
                base_query: final(self).base_query,
                ..*old(self)
            }) && final(self).base_query@ == old(self).query_of(n as int),
    {
        if n >= self.tabs_state.len() {
            return false;
        }
        self.active_tab = n;
        self.tab_bar.set_active(n);
        self.base_query = self.tabs_state[n].query.clone();
        true
    }

    /// Carry out a tab action (new, close or switch tab) on the tabs; any
    /// other action leaves the state alone. Returns whether the visible
    /// tab changed. Whatever the action, the tabs stay consistent with the
    /// tab bar: one to the maximum, the visible one among them; a new tab
    /// at the maximum or closing the last tab only leaves a notice.
    pub fn apply_tab_action(&mut self, action: &Action) -> (changed: bool)
        requires
            old(self).wf(),
        ensures
            final(self).wf(),
            1 <= final(self).tabs_state@.len() <= MAX_TABS,
            match *action {
                Action::NewTab => changed == (old(self).tabs_state@.len() < MAX_TABS) && (!changed ==> (
                *final(self) == (AppState { notification: final(self).notification, ..*old(self) })
                    && note(final(self).notification) == Some(("Maximum number of tabs reached"@, false, 12u8)))),
                Action::CloseTab => changed == (old(self).tabs_state@.len() > 1) && (!changed ==> (
                *final(self) == (AppState { notification: final(self).notification, ..*old(self) })
                    && note(final(self).notification) == Some(("Cannot close the last tab"@, false, 12u8)))),
                Action::SwitchTab(n) => changed == (n < old(self).tabs_state@.len()) && (!changed ==> *final(self) == *old(self))
                    && (changed ==> final(self).active_tab == n),
                _ => !changed && *final(self) == *old(self),
            },
    {
        match action {
            Action::NewTab => self.new_tab().is_some(),
            Action::CloseTab => self.close_tab(),
            Action::SwitchTab(n) => self.switch_tab(*n),
            _ => false,
        }
    }

    /// Restart the visible tab's tail on the query the active filters
    /// select.
    pub fn rebuild_filter_query(&mut self, filters: &Vec<ActiveFilter>)
        ensures
            *final(self) == (AppState { pending_query: final(self).pending_query, ..*old(self) }),
            final(self).pending_query matches Some(q) && q@ == filter_query(old(self).base_query@, filters@),
    {
        let q = build_filter_query(self.base_query.as_str(), filters);
        self.pending_query = Some(q);
    }

    /// Use a time range of `minutes` (shown as `label`): say so and restart
    /// the visible tab's tail so that its history covers the new range.
    pub fn set_time_range(&mut self, minutes: u64, label: &str)
        requires
            old(self).wf(),
        ensures
            final(self).wf(),
            *final(self) == (AppState {
                time_range_minutes: minutes,
                notification: final(self).notification,
                pending_query: final(self).pending_query,
                ..*old(self)
            }),
            note(final(self).notification) == Some(("Time range: "@ + label@, false, 12u8)),
            final(self).pending_query matches Some(q) && q@ == old(self).query_of(old(self).active_tab as int),
    {
        self.time_range_minutes = minutes;
        self.notify(concat("Time range: ", label), false, 12);
        let q = self.tabs_state[self.active_tab].query.clone();
        self.pending_query = Some(q);
    }

    /// Mute or unmute alerts and say so; returns whether they are now muted.
    pub fn toggle_alert_mute(&mut self) -> (muted: bool)
        ensures
            muted == !old(self).alert_muted,
            *final(self) == (AppState {
                alert_muted: muted,
                notification: final(self).notification,
                ..*old(self)
            }),
            note(final(self).notification) == Some((
                if muted {
                    "Alerts muted"@
                } else {
                    "Alerts unmuted"@
                },
                false,
                12u8,
            )),
    {
        self.alert_muted = !self.alert_muted;
        let m = if self.alert_muted {
            String::from_str("Alerts muted")
        } else {
            String::from_str("Alerts unmuted")
        };
        self.notify(m, false, 12);
        self.alert_muted
    }

    /// An alert fired for `rule_name`: shown as an error unless alerts are
    /// muted.
    pub fn alert_fired(&mut self, rule_name: &str)
        ensures
            old(self).alert_muted ==> *final(self) == *old(self),
            !old(self).alert_muted ==> *final(self) == (AppState {
                notification: final(self).notification,
                ..*old(self)
            }) && note(final(self).notification) == Some(("Alert: "@ + rule_name@, true, 20u8)),
    {
        if !self.alert_muted {
            self.notify(concat("Alert: ", rule_name), true, 20);
        }
    }

    /// Say how many context lines are now shown (`0` for none).
    pub fn context_changed(&mut self, lines: usize)
        ensures
            *final(self) == (AppState { notification: final(self).notification, ..*old(self) }),
            note(final(self).notification) == Some((
                if lines == 0 {
                    "Context view: off"@
                } else {
                    "Context view: "@ + decimal(lines as nat) + " lines"@
                },
                false,
                12u8,
            )),
    {
        if lines == 0 {
            self.notify(String::from_str("Context view: off"), false, 12);
        } else {
            let n = decimal_string(lines as u64);
            let a = concat("Context view: ", n.as_str());
            self.notify(concat(a.as_str(), " lines"), false, 12);
        }
    }

    /// The session to save: the tabs' queries, the visible tab, the time
    /// range and the active filters.
    pub fn session(&self, filters: &Vec<ActiveFilter>) -> (s: Session)
        ensures
            string_views(s.tab_queries@) == tab_queries(self.tabs_state@),
            s.active_tab == self.active_tab,
            s.time_range_minutes == self.time_range_minutes,
            s.active_source is None,
            s.filters@.len() == filters@.len(),
            forall|i: int|
                0 <= i < filters@.len() ==> (#[trigger] s.filters@[i]).0@ == filters@[i].label@
                    && s.filters@[i].1@ == filters@[i].value@,
    {
        let mut qs: Vec<String> = Vec::new();
        let mut i: usize = 0;
        while i < self.tabs_state.len()
            invariant
                i <= self.tabs_state@.len(),
                qs@.len() == i,
                string_views(qs@) == tab_queries(self.tabs_state@).take(i as int),
            decreases self.tabs_state@.len() - i,
        {
            let ghost before = qs@;
            qs.push(self.tabs_state[i].query.clone());
            proof {
                assert forall|j: int| 0 <= j < i + 1 implies string_views(qs@)[j] == tab_queries(
                    self.tabs_state@,
                ).take(i + 1)[j] by {
                    if j < i {
                        assert(qs@[j] == before[j]);
                        assert(string_views(before)[j] == before[j]@);
                    }
                }
                assert(string_views(qs@) =~= tab_queries(self.tabs_state@).take(i + 1));
            }
            i += 1;
        }
        proof {
            assert(tab_queries(self.tabs_state@).take(self.tabs_state@.len() as int) == tab_queries(
                self.tabs_state@,
            ));
        }
        let mut fs: Vec<(String, String)> = Vec::new();
        let mut j: usize = 0;
        while j < filters.len()
            invariant
                j <= filters@.len(),
                fs@.len() == j,
                forall|k: int|
                    0 <= k < j ==> (#[trigger] fs@[k]).0@ == filters@[k].label@ && fs@[k].1@
                        == filters@[k].value@,
            decreases filters@.len() - j,
        {
            fs.push((filters[j].label.clone(), filters[j].value.clone()));
            j += 1;
        }
        Session {
            tab_queries: qs,
            active_tab: self.active_tab,
            time_range_minutes: self.time_range_minutes,
            active_source: None,
            filters: fs,
        }
    }
}

/// Which overlays are shown, and whether the search bar is active.
#[derive(Debug, Clone, Copy, PartialEq, Eq, Structural)]
pub struct Overlays {
    /// Natural-language query.
    pub nl_query: bool,
    /// Regex playground.
    pub regex_playground: bool,
    /// Live dashboard.
    pub live_dashboard: bool,
    /// Incident timeline.
    pub incident_timeline: bool,
    /// Saved views.
    pub saved_views: bool,
    /// Diff view.
    pub diff_view: bool,
    /// Trace waterfall.
    pub trace_waterfall: bool,
    /// Health dashboard.
    pub health_dashboard: bool,
    /// Alert panel.
    pub alert_panel: bool,
    /// Analytics panel.
    pub analytics_panel: bool,
    /// Source picker.
    pub source_picker: bool,
    /// Statistics panel.
    pub stats_panel: bool,
    /// Time picker.
    pub time_picker: bool,
    /// Detail panel.
    pub detail_panel: bool,
    /// Search bar (active, not shown).
    pub search_bar: bool,
}

/// The component a key goes to.
#[derive(Debug, Clone, Copy, PartialEq, Eq, Structural)]
pub enum KeyRoute {
    /// Natural-language query overlay.
    NlQuery,
    /// Regex playground.
    RegexPlayground,
    /// Live dashboard.
    LiveDashboard,
    /// Incident timeline.
    IncidentTimeline,
    /// Saved views.
    SavedViews,
    /// Diff view.
    DiffView,
    /// Trace waterfall.
    TraceWaterfall,
    /// Health dashboard.
    HealthDashboard,
    /// Alert panel.
    AlertPanel,
    /// Analytics panel.
    AnalyticsPanel,
    /// Source picker.
    SourcePicker,
    /// Statistics panel.
    StatsPanel,
    /// Time picker.
    TimePicker,
    /// Detail panel.
    DetailPanel,
    /// Search bar, then the search-mode bindings.
    SearchBar,
    /// The focused component, then the bindings of the input mode.
    Focused(FocusTarget),
}

/// The component a key goes to: the topmost overlay shown (most recently
/// opened kinds on top), else the active search bar, else the focused
/// component.
pub open spec fn route_for(o: Overlays, focus: FocusTarget) -> KeyRoute {
    if o.nl_query {
        KeyRoute::NlQuery
    } else if o.regex_playground {
        KeyRoute::RegexPlayground
    } else if o.live_dashboard {
        KeyRoute::LiveDashboard
    } else if o.incident_timeline {
        KeyRoute::IncidentTimeline
    } else if o.saved_views {
        KeyRoute::SavedViews
    } else if o.diff_view {
        KeyRoute::DiffView
    } else if o.trace_waterfall {
        KeyRoute::TraceWaterfall
    } else if o.health_dashboard {
        KeyRoute::HealthDashboard
    } else if o.alert_panel {
        KeyRoute::AlertPanel
    } else if o.analytics_panel {
        KeyRoute::AnalyticsPanel
    } else if o.source_picker {
        KeyRoute::SourcePicker
    } else if o.stats_panel {
        KeyRoute::StatsPanel
    } else if o.time_picker {
        KeyRoute::TimePicker
    } else if o.detail_panel {
        KeyRoute::DetailPanel
    } else if o.search_bar {
        KeyRoute::SearchBar
    } else {
        KeyRoute::Focused(focus)
    }
}

/// The component a key goes to.
pub fn key_route(o: &Overlays, focus: FocusTarget) -> (r: KeyRoute)
    ensures
        r == route_for(*o, focus),
{
    if o.nl_query {
        KeyRoute::NlQuery
    } else if o.regex_playground {
        KeyRoute::RegexPlayground
    } else if o.live_dashboard {
        KeyRoute::LiveDashboard
    } else if o.incident_timeline {
        KeyRoute::IncidentTimeline
    } else if o.saved_views {
        KeyRoute::SavedViews
    } else if o.diff_view {
        KeyRoute::DiffView
    } else if o.trace_waterfall {
        KeyRoute::TraceWaterfall
    } else if o.health_dashboard {
        KeyRoute::HealthDashboard
    } else if o.alert_panel {
        KeyRoute::AlertPanel
    } else if o.analytics_panel {
        KeyRoute::AnalyticsPanel
    } else if o.source_picker {
        KeyRoute::SourcePicker
    } else if o.stats_panel {
        KeyRoute::StatsPanel
    } else if o.time_picker {
        KeyRoute::TimePicker
    } else if o.detail_panel {
        KeyRoute::DetailPanel
    } else if o.search_bar {
        KeyRoute::SearchBar
    } else {
        KeyRoute::Focused(focus)
    }
}

/// What a mouse event is.
#[derive(Debug, Clone, Copy, PartialEq, Eq, Structural)]
pub enum MouseKind {
    /// Wheel up.
    ScrollUp,
    /// Wheel down.
    ScrollDown,
    /// Left button pressed.
    LeftDown,
    /// Anything else.
    Other,
}

/// The action of a mouse event at (`column`, `row`).
pub fn mouse_action(kind: MouseKind, column: u16, row: u16) -> (a: Action)
    ensures
        a == match kind {
            MouseKind::ScrollUp => Action::MouseScrollUp(column, row),
            MouseKind::ScrollDown => Action::MouseScrollDown(column, row),
            MouseKind::LeftDown => Action::MouseClick(column, row),
            MouseKind::Other => Action::Noop,
        },
{
    match kind {
        MouseKind::ScrollUp => Action::MouseScrollUp(column, row),
        MouseKind::ScrollDown => Action::MouseScrollDown(column, row),
        MouseKind::LeftDown => Action::MouseClick(column, row),
        MouseKind::Other => Action::Noop,
    }
}

/// The visible line a click on row `y` selects, in a log viewer drawn at
/// rows `area_y .. area_y + area_height` with a one-row border above and
/// below.
pub fn clicked_line(area_y: u16, area_height: u16, y: u16) -> (r: Option<usize>)
    requires
        area_y < u16::MAX,
        area_y + area_height <= u16::MAX,
    ensures
        r == (if area_y + 1 <= y < area_y + (if area_height > 0 {
            area_height - 1
        } else {
            0
        }) {
            Some((y - area_y - 1) as usize)
        } else {
            None
        }),
{
    let top = area_y + 1;
    let bottom = area_y + if area_height > 0 {
        area_height - 1
    } else {
        0
    };
    if y >= top && y < bottom {
        Some((y - top) as usize)
    } else {
        None
    }
}

} // verus!
