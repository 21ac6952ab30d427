//! The tab bar: up to nine query tabs, each labelled with its position and
//! the start of its query.

use vstd::prelude::*;
use crate::text::{chars_of, decimal, decimal_string, string_from_range};
use crate::theme::Theme;

verus! {

/// Most tabs open at once.
pub const MAX_TABS: usize = 9;

/// A tab: its label and its query.
#[derive(Debug, Clone)]
pub struct TabInfo {
    /// `n: query-start`, where `n` is the tab's position counted from 1.
    pub label: String,
    /// The tab's query.
    pub query: String,
}

/// The label of tab number `n` (counted from 1) with query `q`: the number,
/// a colon and the first 20 characters of the query.
pub open spec fn tab_label(n: nat, q: Seq<char>) -> Seq<char> {
    decimal(n) + ": "@ + q.take(if q.len() < 20 { q.len() as int } else { 20 })
}

/// The tab bar's state.
pub struct TabBar {
    /// The tabs, in order.
    pub tabs: Vec<TabInfo>,
    /// The index of the active tab.
    pub active: usize,
    /// The color theme.
    pub theme: Theme,
}

/// The queries of a list of tabs.
pub open spec fn queries(tabs: Seq<TabInfo>) -> Seq<Seq<char>> {
    Seq::new(tabs.len(), |i: int| tabs[i].query@)
}

/// Every tab is labelled with its position and query.
pub open spec fn labels_match(tabs: Seq<TabInfo>) -> bool {
    forall|i: int| 0 <= i < tabs.len() ==> (#[trigger] tabs[i]).label@ == tab_label((i + 1) as nat, tabs[i].query@)
}

/// The label of tab number `n` with query `q`.
fn make_label(n: usize, q: &str) -> (s: String)
    ensures
        s@ == tab_label(n as nat, q@),
{
    let mut s = decimal_string(n as u64);
    s.append(": ");
    let chars = chars_of(q);
    let k = if chars.len() < 20 { chars.len() } else { 20 };
    let head = string_from_range(&chars, 0, k);
    s.append(head.as_str());
    assert(chars@.subrange(0, k as int) == q@.take(k as int));
    s
}

impl TabBar {
    /// One to nine tabs, the active one among them, each labelled by its
    /// position and query.
    pub open spec fn wf(&self) -> bool {
        &&& 1 <= self.tabs@.len() <= MAX_TABS
        &&& self.active < self.tabs@.len()
        &&& labels_match(self.tabs@)
    }

    /// A bar with one tab on the query `{}`.
    pub fn new(theme: Theme) -> (b: TabBar)
        ensures
            b.wf(),
            queries(b.tabs@) == seq!["{}"@],
            b.active == 0,
            b.theme == theme,
    {
        let q = String::from_str("{}");
        let label = make_label(1, "{}");
        let mut tabs: Vec<TabInfo> = Vec::new();
        tabs.push(TabInfo { label, query: q });
        let b = TabBar { tabs, active: 0, theme };
        assert(queries(b.tabs@) =~= seq!["{}"@]);
        b
    }

    /// Open a tab on `query` after the others; returns its index, or `None`
    /// when nine tabs are already open.
    pub fn add_tab(&mut self, query: String) -> (r: Option<usize>)
        requires
            old(self).wf(),
        ensures
            final(self).wf(),
            final(self).active == old(self).active,
            final(self).theme == old(self).theme,
            old(self).tabs@.len() >= MAX_TABS ==> r is None && final(self).tabs@ == old(self).tabs@,
            old(self).tabs@.len() < MAX_TABS ==> r == Some(old(self).tabs@.len() as usize) && queries(
                final(self).tabs@,
            ) == queries(old(self).tabs@).push(query@),
    {
        if self.tabs.len() >= MAX_TABS {
            return None;
        }
        let n = self.tabs.len() + 1;
        let label = make_label(n, query.as_str());
        let ghost before = self.tabs@;
        self.tabs.push(TabInfo { label, query });
        proof {
            assert forall|i: int| 0 <= i < self.tabs@.len() implies (#[trigger] self.tabs@[i]).label@ == tab_label(
                (i + 1) as nat,
                self.tabs@[i].query@,
            ) by {
                if i < before.len() {
                    assert(self.tabs@[i] == before[i]);
                }
            }
            assert(queries(self.tabs@) =~= queries(before).push(self.tabs@.last().query@));
        }
        Some(self.tabs.len() - 1)
    }

    /// Close the tab at `index` and renumber the rest; the last tab, or an
    /// index past the tabs, is not closed. The active index stays, moved
    /// back onto the last tab when it falls past the end.
    pub fn close_tab(&mut self, index: usize)
        requires
            old(self).wf(),
        ensures
            final(self).wf(),
            final(self).theme == old(self).theme,
            old(self).tabs@.len() <= 1 || index >= old(self).tabs@.len() ==> *final(self) == *old(self),
            !(old(self).tabs@.len() <= 1 || index >= old(self).tabs@.len()) ==> {
                &&& queries(final(self).tabs@) == queries(old(self).tabs@).remove(index as int)
                &&& final(self).active == (if old(self).active < final(self).tabs@.len() {
                    old(self).active
                } else {
                    (final(self).tabs@.len() - 1) as usize
                })
            },
    {
        if self.tabs.len() <= 1 || index >= self.tabs.len() {
            return;
        }
        let ghost before = queries(self.tabs@);
        let removed = self.tabs.remove(index);
        assert(queries(self.tabs@) =~= before.remove(index as int));
        let mut relabelled: Vec<TabInfo> = Vec::new();
        let mut i: usize = 0;
        while i < self.tabs.len()
            invariant
                i <= self.tabs@.len(),
                self.tabs@.len() < MAX_TABS,
                relabelled@.len() == i,
                forall|k: int| 0 <= k < i ==> (#[trigger] relabelled@[k]).query@ == self.tabs@[k].query@
                    && relabelled@[k].label@ == tab_label((k + 1) as nat, self.tabs@[k].query@),
            decreases self.tabs@.len() - i,
        {
            let q = self.tabs[i].query.clone();
            let label = make_label(i + 1, q.as_str());
            relabelled.push(TabInfo { label, query: q });
            i += 1;
        }
        let ghost kept = queries(self.tabs@);
        self.tabs = relabelled;
        assert(queries(self.tabs@) =~= kept);
        if self.active >= self.tabs.len() {
            self.active = self.tabs.len() - 1;
        }
    }

    /// The index of the active tab.
    pub fn active_index(&self) -> (i: usize)
        ensures
            i == self.active,
    {
        self.active
    }

    /// Make tab `index` active; an index past the tabs changes nothing.
    pub fn set_active(&mut self, index: usize)
        ensures
            *final(self) == (if index < old(self).tabs@.len() {
                TabBar { active: index, ..*old(self) }
            } else {
                *old(self)
            }),
    {
        if index < self.tabs.len() {
            self.active = index;
        }
    }

    /// The active tab.
    pub fn active_tab(&self) -> (t: &TabInfo)
        requires
            self.wf(),
        ensures
            *t == self.tabs@[self.active as int],
    {
        &self.tabs[self.active]
    }

    /// How many tabs are open.
    pub fn tab_count(&self) -> (n: usize)
        ensures
            n == self.tabs@.len(),
    {
        self.tabs.len()
    }

    /// The tabs, in order.
    pub fn tabs(&self) -> (t: &Vec<TabInfo>)
        ensures
            *t == self.tabs,
    {
        &self.tabs
    }
}

/// Opening a tab and then closing it gives back the tabs there were.
pub proof fn law_add_then_close(before: Seq<Seq<char>>, q: Seq<char>)
    ensures
        before.push(q).remove(before.len() as int) == before,
{
    assert(before.push(q).remove(before.len() as int) =~= before);
}

} // verus!
