//! The filter side panel: label names with their values, expandable, and
//! the label filters that are switched on.

use vstd::prelude::*;
use crate::action::Action;
use crate::keymap::{Key, KeyPress, is_char};
use crate::text::str_eq;
use crate::theme::Theme;

verus! {

/// A label and its known values.
#[derive(Debug, Clone)]
pub struct LabelGroup {
    /// The label name.
    pub name: String,
    /// Its values.
    pub values: Vec<String>,
    /// Whether its values are listed.
    pub expanded: bool,
}

/// A label filter that is switched on.
#[derive(Debug, Clone)]
pub struct ActiveFilter {
    /// The label.
    pub label: String,
    /// The value it must have.
    pub value: String,
}

/// A line of the panel's list.
#[derive(Debug, Clone, Copy, PartialEq, Eq, Structural)]
pub enum FlatItem {
    /// A label, by index.
    Label(usize),
    /// A value, by label index and value index.
    Value(usize, usize),
}

/// The lines of label `li`: the label, then its values when expanded.
pub open spec fn group_lines(li: int, g: LabelGroup) -> Seq<FlatItem> {
    seq![FlatItem::Label(li as usize)] + if g.expanded {
        Seq::new(g.values@.len(), |vi: int| FlatItem::Value(li as usize, vi as usize))
    } else {
        Seq::empty()
    }
}

/// The lines of the first `k` labels, in order.
pub open spec fn flat_lines(labels: Seq<LabelGroup>, k: int) -> Seq<FlatItem>
    decreases k,
{
    if k <= 0 {
        Seq::empty()
    } else {
        flat_lines(labels, k - 1) + group_lines(k - 1, labels[k - 1])
    }
}

/// The labels and their value lists can be indexed by `usize`.
pub open spec fn sizes_fit(labels: Seq<LabelGroup>) -> bool {
    &&& labels.len() <= usize::MAX
    &&& forall|i: int| 0 <= i < labels.len() ==> (#[trigger] labels[i]).values@.len() <= usize::MAX
}

/// The position of the first label named `name`, if any.
pub open spec fn label_position(labels: Seq<LabelGroup>, name: Seq<char>) -> Option<int>
    decreases labels.len(),
{
    if labels.len() == 0 {
        None
    } else if labels[0].name@ == name {
        Some(0)
    } else {
        match label_position(labels.drop_first(), name) {
            Some(k) => Some(k + 1),
            None => None,
        }
    }
}

/// A scan that passes `i` labels not named `name` and stops at one that is
/// (or at the end) finds the first label of that name.
proof fn lemma_label_position(labels: Seq<LabelGroup>, name: Seq<char>, i: int)
    requires
        0 <= i <= labels.len(),
        forall|j: int| 0 <= j < i ==> (#[trigger] labels[j]).name@ != name,
        i < labels.len() ==> labels[i].name@ == name,
    ensures
        label_position(labels, name) == (if i < labels.len() { Some(i) } else { None::<int> }),
    decreases i,
{
    if i > 0 {
        let rest = labels.drop_first();
        assert(labels[0].name@ != name);
        assert forall|j: int| 0 <= j < i - 1 implies (#[trigger] rest[j]).name@ != name by {
            assert(rest[j] == labels[j + 1]);
        }
        if i < labels.len() {
            assert(rest[i - 1] == labels[i]);
        }
        lemma_label_position(rest, name, i - 1);
    }
}

/// The filters as (label, value) pairs of characters.
pub open spec fn filter_pairs(v: Seq<ActiveFilter>) -> Seq<(Seq<char>, Seq<char>)> {
    Seq::new(v.len(), |i: int| (v[i].label@, v[i].value@))
}

/// The filters after switching (`label`, `value`): removed when on,
/// appended when off.
pub open spec fn toggled_filters(f: Seq<(Seq<char>, Seq<char>)>, p: (Seq<char>, Seq<char>)) -> Seq<(Seq<char>, Seq<char>)> {
    if f.contains(p) {
        f.remove(f.index_of(p))
    } else {
        f.push(p)
    }
}

/// The panel's state.
pub struct FilterPanel {
    /// The labels, in order.
    pub labels: Vec<LabelGroup>,
    /// The filters switched on.
    pub active_filters: Vec<ActiveFilter>,
    /// Whether the panel is shown.
    pub visible: bool,
    /// The highlighted line, if any.
    pub selected: Option<usize>,
    /// The lines of the list.
    pub flat_items: Vec<FlatItem>,
    /// The color theme.
    pub theme: Theme,
}

impl FilterPanel {
    /// The list lines are those of the labels, and each filter is on once.
    pub open spec fn wf(&self) -> bool {
        &&& self.flat_items@ == flat_lines(self.labels@, self.labels@.len() as int)
        &&& filter_pairs(self.active_filters@).no_duplicates()
        &&& sizes_fit(self.labels@)
    }

    /// A hidden panel with no labels and no filters.
    pub fn new(theme: Theme) -> (p: FilterPanel)
        ensures
            p.wf(),
            p.labels@.len() == 0,
            p.active_filters@.len() == 0,
            !p.visible,
            p.selected is None,
            p.theme == theme,
    {
        let p = FilterPanel {
            labels: Vec::new(),
            active_filters: Vec::new(),
            visible: false,
            selected: None,
            flat_items: Vec::new(),
            theme,
        };
        assert(filter_pairs(p.active_filters@) =~= Seq::empty());
        p
    }

    /// Whether the panel is shown.
    pub fn is_visible(&self) -> (b: bool)
        ensures
            b == self.visible,
    {
        self.visible
    }

    /// Show or hide the panel.
    pub fn toggle(&mut self)
        ensures
            *final(self) == (FilterPanel { visible: !old(self).visible, ..*old(self) }),
    {
        self.visible = !self.visible;
    }

    /// The filters switched on.
    pub fn active_filters(&self) -> (f: &Vec<ActiveFilter>)
        ensures
            *f == self.active_filters,
    {
        &self.active_filters
    }

    /// Whether the filter `label`=`value` is switched on.
    pub fn is_filter_active(&self, label: &str, value: &str) -> (b: bool)
        ensures
            b == filter_pairs(self.active_filters@).contains((label@, value@)),
    {
        let ghost fp = filter_pairs(self.active_filters@);
        let mut i: usize = 0;
        while i < self.active_filters.len()
            invariant
                i <= self.active_filters@.len(),
                fp == filter_pairs(self.active_filters@),
                forall|j: int| 0 <= j < i ==> fp[j] != (label@, value@),
            decreases self.active_filters@.len() - i,
        {
            let f = &self.active_filters[i];
            if str_eq(f.label.as_str(), label) && str_eq(f.value.as_str(), value) {
                proof {
                    assert(fp[i as int] == (label@, value@));
                }
                return true;
            }
            i += 1;
        }
        false
    }

    /// Set the label names, each collapsed and without values.
    pub fn set_labels(&mut self, names: Vec<String>)
        requires
            old(self).wf(),
        ensures
            final(self).wf(),
            final(self).labels@.len() == names@.len(),
            forall|i: int| 0 <= i < names@.len() ==> (#[trigger] final(self).labels@[i]).name == names@[i]
                && final(self).labels@[i].values@.len() == 0 && !final(self).labels@[i].expanded,
            final(self).active_filters == old(self).active_filters,
            final(self).visible == old(self).visible,
            final(self).selected == old(self).selected,
            final(self).theme == old(self).theme,
    {
        let mut labels: Vec<LabelGroup> = Vec::new();
        let mut names = names;
        let ghost all = names@;
        let mut rest: Vec<String> = Vec::new();
        while names.len() > 0
            invariant
                names@.len() + rest@.len() == all.len(),
                names@ == all.take(names@.len() as int),
                forall|k: int| 0 <= k < rest@.len() ==> #[trigger] rest@[k] == all[all.len() - 1 - k],
            decreases names@.len(),
        {
            let n = names.pop();
            match n {
                Some(x) => {
                    proof {
                        assert(x == all[names@.len() as int]);
                    }
                    rest.push(x);
                    assert(names@ =~= all.take(names@.len() as int));
                },
                None => {},
            }
        }
        while rest.len() > 0
            invariant
                labels@.len() + rest@.len() == all.len(),
                forall|k: int| 0 <= k < rest@.len() ==> #[trigger] rest@[k] == all[all.len() - 1 - k],
                forall|i: int| 0 <= i < labels@.len() ==> (#[trigger] labels@[i]).name == all[i]
                    && labels@[i].values@.len() == 0 && !labels@[i].expanded,
            decreases rest@.len(),
        {
            let n = rest.pop();
            match n {
                Some(name) => {
                    proof {
                        assert(name == all[labels@.len() as int]);
                    }
                    labels.push(LabelGroup { name, values: Vec::new(), expanded: false });
                },
                None => {},
            }
        }
        let _n = labels.len();
        self.labels = labels;
        self.rebuild_flat_items();
    }

    /// Set the values of label `label`, if it is listed (the first label of
    /// that name), and recompute the list lines; nothing changes when no
    /// label has that name.
    pub fn set_label_values(&mut self, label: &str, values: Vec<String>)
        requires
            old(self).wf(),
        ensures
            final(self).wf(),
            match label_position(old(self).labels@, label@) {
                Some(i) => {
                    &&& final(self).labels@ == old(self).labels@.update(
                        i,
                        LabelGroup { values: values, ..old(self).labels@[i] },
                    )
                    &&& *final(self) == (FilterPanel {
                        labels: final(self).labels,
                        flat_items: final(self).flat_items,
                        ..*old(self)
                    })
                },
                None => *final(self) == *old(self),
            },
    {
        let mut i: usize = 0;
        while i < self.labels.len()
            invariant
                i <= self.labels@.len(),
                *self == *old(self),
                old(self).wf(),
                forall|j: int| 0 <= j < i ==> (#[trigger] self.labels@[j]).name@ != label@,
            decreases self.labels@.len() - i,
        {
            if str_eq(self.labels[i].name.as_str(), label) {
                proof {
                    lemma_label_position(self.labels@, label@, i as int);
                }
                let ghost before = self.labels@;
                let _m = values.len();
                self.labels[i].values = values;
                assert(self.labels@ == before.update(i as int, LabelGroup { values: values, ..before[i as int] }));
                self.rebuild_flat_items();
                proof {
                    assert forall|k: int| 0 <= k < self.labels@.len() implies (#[trigger] self.labels@[k]).values@.len() <= usize::MAX by {
                        if k != i {
                            assert(self.labels@[k] == before[k]);
                        }
                    }
                }
                return;
            }
            i += 1;
        }
        proof {
            lemma_label_position(self.labels@, label@, i as int);
        }
    }

    /// Recompute the list lines from the labels.
    fn rebuild_flat_items(&mut self)
        ensures
            final(self).flat_items@ == flat_lines(final(self).labels@, final(self).labels@.len() as int),
            final(self).labels == old(self).labels,
            final(self).active_filters == old(self).active_filters,
            final(self).visible == old(self).visible,
            final(self).selected == old(self).selected,
            final(self).theme == old(self).theme,
    {
        let mut items: Vec<FlatItem> = Vec::new();
        let mut li: usize = 0;
        while li < self.labels.len()
            invariant
                li <= self.labels@.len(),
                items@ == flat_lines(self.labels@, li as int),
            decreases self.labels@.len() - li,
        {
            let ghost before = items@;
            items.push(FlatItem::Label(li));
            if self.labels[li].expanded {
                let mut vi: usize = 0;
                while vi < self.labels[li].values.len()
                    invariant
                        li < self.labels@.len(),
                        vi <= self.labels@[li as int].values@.len(),
                        items@ == before + seq![FlatItem::Label(li)] + Seq::new(vi as nat, |k: int| FlatItem::Value(li, k as usize)),
                    decreases self.labels@[li as int].values@.len() - vi,
                {
                    items.push(FlatItem::Value(li, vi));
                    assert(items@ =~= before + seq![FlatItem::Label(li)] + Seq::new((vi + 1) as nat, |k: int| FlatItem::Value(li, k as usize)));
                    vi += 1;
                }
            }
            assert(items@ =~= flat_lines(self.labels@, li + 1));
            li += 1;
        }
        self.flat_items = items;
    }

    /// Switch the filter `label` = `value` off when it is on, on otherwise,
    /// and ask for the query to be rebuilt.
    pub fn toggle_filter(&mut self, label: String, value: String) -> (r: Option<Action>)
        requires
            old(self).wf(),
        ensures
            final(self).wf(),
            filter_pairs(final(self).active_filters@) == toggled_filters(
                filter_pairs(old(self).active_filters@),
                (label@, value@),
            ),
            *final(self) == (FilterPanel { active_filters: final(self).active_filters, ..*old(self) }),
            r matches Some(Action::SetFilter { label: l, value: v }) && l@ == label@ && v@ == value@,
    {
        let ghost f = filter_pairs(self.active_filters@);
        let ghost p = (label@, value@);
        let mut i: usize = 0;
        while i < self.active_filters.len()
            invariant
                i <= self.active_filters@.len(),
                f == filter_pairs(self.active_filters@),
                p == (label@, value@),
                forall|k: int| 0 <= k < i ==> f[k] != p,
            ensures
                i <= self.active_filters@.len(),
                forall|k: int| 0 <= k < i ==> f[k] != p,
                i < self.active_filters@.len() ==> f[i as int] == p,
            decreases self.active_filters@.len() - i,
        {
            let ghost fi = (self.active_filters@[i as int].label@, self.active_filters@[i as int].value@);
            assert(f[i as int] == fi);
            let same_label = str_eq(self.active_filters[i].label.as_str(), label.as_str());
            let same_value = str_eq(self.active_filters[i].value.as_str(), value.as_str());
            if same_label && same_value {
                assert(fi == p);
                break;
            }
            assert(fi.0 != p.0 || fi.1 != p.1);
            i += 1;
        }
        if i < self.active_filters.len() {
            self.active_filters.remove(i);
            proof {
                assert(f.contains(p));
                assert(f.index_of(p) == i) by {
                    assert(f[i as int] == p);
                }
                assert(filter_pairs(self.active_filters@) =~= f.remove(i as int));
                assert(f.remove(i as int).no_duplicates()) by {
                    assert forall|a: int, b: int| 0 <= a < f.remove(i as int).len() && 0 <= b < f.remove(i as int).len() && a != b implies f.remove(i as int)[a] != f.remove(i as int)[b] by {
                        let a0 = if a < i { a } else { a + 1 };
                        let b0 = if b < i { b } else { b + 1 };
                        assert(f.remove(i as int)[a] == f[a0]);
                        assert(f.remove(i as int)[b] == f[b0]);
                    }
                }
            }
        } else {
            self.active_filters.push(ActiveFilter { label: label.clone(), value: value.clone() });
            proof {
                assert(!f.contains(p)) by {
                    if f.contains(p) {
                        let k = choose|k: int| 0 <= k < f.len() && f[k] == p;
                        assert(f[k] != p);
                    }
                }
                assert(filter_pairs(self.active_filters@) =~= f.push(p));
                assert(f.push(p).no_duplicates()) by {
                    assert forall|a: int, b: int| 0 <= a < f.push(p).len() && 0 <= b < f.push(p).len() && a != b implies f.push(p)[a] != f.push(p)[b] by {
                        if a < f.len() && b < f.len() {
                        } else if a < f.len() {
                            assert(f.push(p)[a] == f[a]);
                        } else {
                            assert(f.push(p)[b] == f[b]);
                        }
                    }
                }
            }
        }
        Some(Action::SetFilter { label, value })
    }

    /// The panel after the highlight moves down (wrapping), or up.
    pub open spec fn moved(self, down: bool) -> FilterPanel {
        let len = self.flat_items@.len();
        if len == 0 {
            self
        } else {
            let sel = match self.selected {
                Some(i) => if down {
                    ((i + 1) % (len as int)) as usize
                } else if i == 0 {
                    (len - 1) as usize
                } else {
                    (i - 1) as usize
                },
                None => 0,
            };
            FilterPanel { selected: Some(sel), ..self }
        }
    }

    /// Handle a key while shown (a hidden panel does not handle keys):
    /// `j`/Down and `k`/Up move the highlight (wrapping); Enter or space on
    /// a label expands or collapses it, and on a value switches that filter.
    pub fn handle_key(&mut self, key: KeyPress) -> (r: Option<Action>)
        requires
            old(self).wf(),
        ensures
            final(self).wf(),
            ({
                let b = *old(self);
                let a = *final(self);
                let code = key.code;
                if !b.visible {
                    a == b && r is None
                } else if is_char(code, 'j') || code == Key::Down {
                    a == b.moved(true) && r is None
                } else if is_char(code, 'k') || code == Key::Up {
                    a == b.moved(false) && r is None
                } else if code == Key::Enter || is_char(code, ' ') {
                    match b.selected {
                        Some(idx) if idx < b.flat_items@.len() => match b.flat_items@[idx as int] {
                            FlatItem::Label(li) => r is None && a.labels@.len() == b.labels@.len()
                                && a.labels@[li as int] == (LabelGroup { expanded: !b.labels@[li as int].expanded, ..b.labels@[li as int] })
                                && (forall|k: int| 0 <= k < b.labels@.len() && k != li ==> a.labels@[k] == b.labels@[k])
                                && a.active_filters == b.active_filters && a.selected == b.selected && a.visible == b.visible,
                            FlatItem::Value(li, vi) => filter_pairs(a.active_filters@) == toggled_filters(
                                filter_pairs(b.active_filters@),
                                (b.labels@[li as int].name@, b.labels@[li as int].values@[vi as int]@),
                            ) && a == (FilterPanel { active_filters: a.active_filters, ..b })
                                && (r matches Some(Action::SetFilter { label: l, value: v })
                                    && l@ == b.labels@[li as int].name@
                                    && v@ == b.labels@[li as int].values@[vi as int]@),
                        },
                        _ => a == b && r is None,
                    }
                } else {
                    a == b && r is None
                }
            }),
    {
        if !self.visible {
            return None;
        }
        match key.code {
            Key::Char('j') | Key::Down => {
                let len = self.flat_items.len();
                if len > 0 {
                    let i = match self.selected {
                        Some(i) => {
                            assert((i + 1) % (len as int) == ((i % len) + 1) % (len as int)) by (nonlinear_arith)
                                requires len > 0;
                            (i % len + 1) % len
                        },
                        None => 0,
                    };
                    self.selected = Some(i);
                }
                None
            },
            Key::Char('k') | Key::Up => {
                let len = self.flat_items.len();
                if len > 0 {
                    let i = match self.selected {
                        Some(i) => if i == 0 { len - 1 } else { i - 1 },
                        None => 0,
                    };
                    self.selected = Some(i);
                }
                None
            },
            Key::Enter | Key::Char(' ') => {
                let idx = match self.selected {
                    Some(idx) => idx,
                    None => {
                        return None;
                    },
                };
                if idx >= self.flat_items.len() {
                    return None;
                }
                proof {
                    lemma_flat_lines_valid(self.labels@, self.labels@.len() as int, idx as int);
                }
                match self.flat_items[idx] {
                    FlatItem::Label(li) => {
                        let flipped = !self.labels[li].expanded;
                        self.labels[li].expanded = flipped;
                        self.rebuild_flat_items();
                        None
                    },
                    FlatItem::Value(li, vi) => {
                        let label = self.labels[li].name.clone();
                        let value = self.labels[li].values[vi].clone();
                        self.toggle_filter(label, value)
                    },
                }
            },
            _ => None,
        }
    }
}

/// Every line of the first `k` labels points at a label (and value) that
/// exists.
pub proof fn lemma_flat_lines_valid(labels: Seq<LabelGroup>, k: int, idx: int)
    requires
        0 <= k <= labels.len(),
        sizes_fit(labels),
        0 <= idx < flat_lines(labels, k).len(),
    ensures
        match flat_lines(labels, k)[idx] {
            FlatItem::Label(li) => li < k,
            FlatItem::Value(li, vi) => li < k && vi < labels[li as int].values@.len(),
        },
    decreases k,
{
    if k > 0 {
        let prev = flat_lines(labels, k - 1);
        let g = group_lines(k - 1, labels[k - 1]);
        if idx < prev.len() {
            lemma_flat_lines_valid(labels, k - 1, idx);
        } else {
            assert(flat_lines(labels, k)[idx] == g[idx - prev.len()]);
            if idx - prev.len() > 0 {
                assert(g[idx - prev.len()] == FlatItem::Value((k - 1) as usize, (idx - prev.len() - 1) as usize));
            }
        }
    }
}

} // verus!
