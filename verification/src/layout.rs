//! Focus management: which component receives keyboard input, and the
//! order in which focus cycles through the components.

use vstd::prelude::*;

verus! {

/// Identifiers for focusable components.
#[derive(Debug, Clone, Copy, PartialEq, Eq, Structural, Hash)]
pub enum FocusTarget {
    /// The query input bar.
    QueryBar,
    /// The main log viewer.
    LogViewer,
    /// The label filter panel (when visible).
    FilterPanel,
    /// The sparkline chart.
    Sparkline,
    /// The histogram chart.
    Histogram,
}

/// The targets that focus cycles through, in order. The filter panel only
/// takes part while it is visible.
pub open spec fn available(filter_visible: bool) -> Seq<FocusTarget> {
    if filter_visible {
        seq![
            FocusTarget::QueryBar,
            FocusTarget::LogViewer,
            FocusTarget::FilterPanel,
            FocusTarget::Sparkline,
            FocusTarget::Histogram,
        ]
    } else {
        seq![
            FocusTarget::QueryBar,
            FocusTarget::LogViewer,
            FocusTarget::Sparkline,
            FocusTarget::Histogram,
        ]
    }
}

/// Position of `t` in the cycle order, or -1 when it does not take part.
pub open spec fn position(filter_visible: bool, t: FocusTarget) -> int {
    match t {
        FocusTarget::QueryBar => 0,
        FocusTarget::LogViewer => 1,
        FocusTarget::FilterPanel => if filter_visible { 2 } else { -1 },
        FocusTarget::Sparkline => if filter_visible { 3 } else { 2 },
        FocusTarget::Histogram => if filter_visible { 4 } else { 3 },
    }
}

/// The target after `t` in the cycle (wrapping); `t` itself when it does
/// not take part in the cycle.
pub open spec fn cycle_next(filter_visible: bool, t: FocusTarget) -> FocusTarget {
    let s = available(filter_visible);
    let p = position(filter_visible, t);
    if p < 0 { t } else { s[(p + 1) % (s.len() as int)] }
}

/// The target before `t` in the cycle (wrapping); `t` itself when it does
/// not take part in the cycle.
pub open spec fn cycle_prev(filter_visible: bool, t: FocusTarget) -> FocusTarget {
    let s = available(filter_visible);
    let p = position(filter_visible, t);
    if p < 0 { t } else if p == 0 { s[s.len() - 1] } else { s[p - 1] }
}

/// The elements of the cycle order, one by one.
pub proof fn lemma_available_elems(filter_visible: bool)
    ensures
        available(filter_visible)[0] == FocusTarget::QueryBar,
        available(filter_visible)[1] == FocusTarget::LogViewer,
        filter_visible ==> available(filter_visible).len() == 5,
        filter_visible ==> available(filter_visible)[2] == FocusTarget::FilterPanel,
        filter_visible ==> available(filter_visible)[3] == FocusTarget::Sparkline,
        filter_visible ==> available(filter_visible)[4] == FocusTarget::Histogram,
        !filter_visible ==> available(filter_visible).len() == 4,
        !filter_visible ==> available(filter_visible)[2] == FocusTarget::Sparkline,
        !filter_visible ==> available(filter_visible)[3] == FocusTarget::Histogram,
{
}

/// The position function agrees with the cycle order.
pub proof fn lemma_position_matches(filter_visible: bool, t: FocusTarget)
    ensures
        position(filter_visible, t) >= 0 <==> available(filter_visible).contains(t),
        position(filter_visible, t) >= 0 ==> available(filter_visible)[position(filter_visible, t)]
            == t,
        position(filter_visible, t) < available(filter_visible).len(),
{
    let s = available(filter_visible);
    lemma_available_elems(filter_visible);
    if position(filter_visible, t) >= 0 {
        assert(s[position(filter_visible, t)] == t);
    } else {
        assert forall|i: int| 0 <= i < s.len() implies s[i] != t by {}
    }
}

/// Focus state manager.
#[derive(Debug)]
pub struct FocusManager {
    /// Currently focused component.
    current: FocusTarget,
    /// Whether the filter panel is visible (affects focus cycling).
    filter_visible: bool,
}

impl FocusManager {
    /// The focused component.
    pub closed spec fn spec_current(&self) -> FocusTarget {
        self.current
    }

    /// Whether the filter panel takes part in the focus cycle.
    pub closed spec fn spec_filter_visible(&self) -> bool {
        self.filter_visible
    }

    /// Create a new focus manager with the log viewer focused.
    pub fn new() -> (m: Self)
        ensures
            m.spec_current() == FocusTarget::LogViewer,
            !m.spec_filter_visible(),
    {
        FocusManager { current: FocusTarget::LogViewer, filter_visible: false }
    }

    /// Get the currently focused component.
    pub fn current(&self) -> (t: FocusTarget)
        ensures
            t == self.spec_current(),
    {
        self.current
    }

    /// Set focus to a specific target.
    pub fn set(&mut self, target: FocusTarget)
        ensures
            final(self).spec_current() == target,
            final(self).spec_filter_visible() == old(self).spec_filter_visible(),
    {
        self.current = target;
    }

    /// Update whether the filter panel is visible. When it is hidden while
    /// focused, focus moves to the log viewer.
    pub fn set_filter_visible(&mut self, visible: bool)
        ensures
            final(self).spec_filter_visible() == visible,
            final(self).spec_current() == (if !visible && old(self).spec_current()
                == FocusTarget::FilterPanel {
                FocusTarget::LogViewer
            } else {
                old(self).spec_current()
            }),
    {
        self.filter_visible = visible;
        if !visible && self.current == FocusTarget::FilterPanel {
            self.current = FocusTarget::LogViewer;
        }
    }

    /// Cycle focus to the next component.
    pub fn next(&mut self)
        ensures
            final(self).spec_filter_visible() == old(self).spec_filter_visible(),
            final(self).spec_current() == cycle_next(
                old(self).spec_filter_visible(),
                old(self).spec_current(),
            ),
    {
        let available = self.available_targets();
        let pos = find_target(&available, self.current);
        proof {
            lemma_position_matches(self.filter_visible, self.current);
        }
        if let Some(pos) = pos {
            let next_pos = (pos + 1) % available.len();
            self.current = available[next_pos];
        }
    }

    /// Cycle focus to the previous component.
    pub fn prev(&mut self)
        ensures
            final(self).spec_filter_visible() == old(self).spec_filter_visible(),
            final(self).spec_current() == cycle_prev(
                old(self).spec_filter_visible(),
                old(self).spec_current(),
            ),
    {
        let available = self.available_targets();
        let pos = find_target(&available, self.current);
        proof {
            lemma_position_matches(self.filter_visible, self.current);
        }
        if let Some(pos) = pos {
            let prev_pos = if pos == 0 {
                available.len() - 1
            } else {
                pos - 1
            };
            self.current = available[prev_pos];
        }
    }

    /// Check if a given target is currently focused.
    pub fn is_focused(&self, target: FocusTarget) -> (b: bool)
        ensures
            b == (self.spec_current() == target),
    {
        self.current == target
    }

    /// The currently available focus targets, in cycle order.
    pub fn available_targets(&self) -> (v: Vec<FocusTarget>)
        ensures
            v@ == available(self.spec_filter_visible()),
    {
        let mut v: Vec<FocusTarget> = Vec::new();
        v.push(FocusTarget::QueryBar);
        v.push(FocusTarget::LogViewer);
        if self.filter_visible {
            v.push(FocusTarget::FilterPanel);
        }
        v.push(FocusTarget::Sparkline);
        v.push(FocusTarget::Histogram);
        v
    }
}

/// First position of `t` in `v`.
fn find_target(v: &Vec<FocusTarget>, t: FocusTarget) -> (r: Option<usize>)
    ensures
        match r {
            Some(i) => i < v.len() && v@[i as int] == t && forall|j: int|
                0 <= j < i ==> v@[j] != t,
            None => !v@.contains(t),
        },
{
    let mut i: usize = 0;
    while i < v.len()
        invariant
            i <= v.len(),
            forall|j: int| 0 <= j < i ==> v@[j] != t,
        decreases v.len() - i,
    {
        if v[i] == t {
            return Some(i);
        }
        i += 1;
    }
    None
}

/// Moving focus forward and then back returns to the component that was
/// focused before, whatever the visibility of the filter panel.
pub proof fn law_next_then_prev(filter_visible: bool, t: FocusTarget)
    ensures
        cycle_prev(filter_visible, cycle_next(filter_visible, t)) == t,
{
    lemma_available_elems(filter_visible);
    lemma_position_matches(filter_visible, t);
}

/// Moving focus back and then forward returns to the component that was
/// focused before.
pub proof fn law_prev_then_next(filter_visible: bool, t: FocusTarget)
    ensures
        cycle_next(filter_visible, cycle_prev(filter_visible, t)) == t,
{
    lemma_available_elems(filter_visible);
    lemma_position_matches(filter_visible, t);
}

/// Once the filter panel is hidden it can no longer be reached by cycling:
/// from any target, moving forward or back never lands on it.
pub proof fn law_hidden_filter_unreachable(t: FocusTarget)
    requires
        t != FocusTarget::FilterPanel,
    ensures
        cycle_next(false, t) != FocusTarget::FilterPanel,
        cycle_prev(false, t) != FocusTarget::FilterPanel,
{
    lemma_position_matches(false, t);
}

} // verus!
