//! The live metrics dashboard's navigation: four tabs, switched by keys
//! (the metrics themselves are drawn from the caller's data).

use vstd::prelude::*;
use crate::action::Action;
use crate::keymap::{Key, KeyPress, is_char};
use crate::theme::Theme;

verus! {

/// A tab of the dashboard.
#[derive(Debug, Clone, Copy, PartialEq, Eq, Structural)]
pub enum DashboardTab {
    /// Key figures.
    Overview,
    /// Request and log rates.
    Rates,
    /// Latency percentiles.
    Latency,
    /// Errors.
    Errors,
}

/// The tab to the right of `t`, wrapping.
pub open spec fn tab_right(t: DashboardTab) -> DashboardTab {
    match t {
        DashboardTab::Overview => DashboardTab::Rates,
        DashboardTab::Rates => DashboardTab::Latency,
        DashboardTab::Latency => DashboardTab::Errors,
        DashboardTab::Errors => DashboardTab::Overview,
    }
}

/// The tab to the left of `t`, wrapping.
pub open spec fn tab_left(t: DashboardTab) -> DashboardTab {
    match t {
        DashboardTab::Overview => DashboardTab::Errors,
        DashboardTab::Rates => DashboardTab::Overview,
        DashboardTab::Latency => DashboardTab::Rates,
        DashboardTab::Errors => DashboardTab::Latency,
    }
}

/// The tab titles, in order.
pub fn tab_titles() -> (t: [&'static str; 4])
    ensures
        t@[0]@ == "Overview"@,
        t@[1]@ == "Rates"@,
        t@[2]@ == "Latency"@,
        t@[3]@ == "Errors"@,
{
    ["Overview", "Rates", "Latency", "Errors"]
}

/// The dashboard's navigation state.
pub struct LiveDashboard {
    /// Whether the dashboard is shown.
    pub visible: bool,
    /// The tab shown.
    pub active_tab: DashboardTab,
    /// The color theme.
    pub theme: Theme,
}

impl LiveDashboard {
    /// A hidden dashboard on the overview.
    pub fn new(theme: Theme) -> (d: LiveDashboard)
        ensures
            d == (LiveDashboard { visible: false, active_tab: DashboardTab::Overview, theme }),
    {
        LiveDashboard { visible: false, active_tab: DashboardTab::Overview, theme }
    }

    /// Show or hide the dashboard.
    pub fn toggle(&mut self)
        ensures
            *final(self) == (LiveDashboard { visible: !old(self).visible, ..*old(self) }),
    {
        self.visible = !self.visible;
    }

    /// Whether the dashboard is shown.
    pub fn is_visible(&self) -> (b: bool)
        ensures
            b == self.visible,
    {
        self.visible
    }

    /// Handle a key: Esc or `L` hide the dashboard, `h`/Left and `l`/Right
    /// move between tabs (wrapping), `1` to `4` pick a tab. Other keys are
    /// not handled.
    pub fn handle_key(&mut self, key: KeyPress) -> (r: Option<Action>)
        ensures
            ({
                let b = *old(self);
                let a = *final(self);
                let code = key.code;
                if code == Key::Esc || is_char(code, 'L') {
                    a == (LiveDashboard { visible: false, ..b }) && r == Some(Action::Noop)
                } else if is_char(code, 'h') || code == Key::Left {
                    a == (LiveDashboard { active_tab: tab_left(b.active_tab), ..b }) && r == Some(Action::Noop)
                } else if is_char(code, 'l') || code == Key::Right {
                    a == (LiveDashboard { active_tab: tab_right(b.active_tab), ..b }) && r == Some(Action::Noop)
                } else if is_char(code, '1') {
                    a == (LiveDashboard { active_tab: DashboardTab::Overview, ..b }) && r == Some(Action::Noop)
                } else if is_char(code, '2') {
                    a == (LiveDashboard { active_tab: DashboardTab::Rates, ..b }) && r == Some(Action::Noop)
                } else if is_char(code, '3') {
                    a == (LiveDashboard { active_tab: DashboardTab::Latency, ..b }) && r == Some(Action::Noop)
                } else if is_char(code, '4') {
                    a == (LiveDashboard { active_tab: DashboardTab::Errors, ..b }) && r == Some(Action::Noop)
                } else {
                    a == b && r is None
                }
            }),
    {
        match key.code {
            Key::Esc | Key::Char('L') => {
                self.visible = false;
                Some(Action::Noop)
            },
            Key::Char('h') | Key::Left => {
                self.active_tab = match self.active_tab {
                    DashboardTab::Overview => DashboardTab::Errors,
                    DashboardTab::Rates => DashboardTab::Overview,
                    DashboardTab::Latency => DashboardTab::Rates,
                    DashboardTab::Errors => DashboardTab::Latency,
                };
                Some(Action::Noop)
            },
            Key::Char('l') | Key::Right => {
                self.active_tab = match self.active_tab {
                    DashboardTab::Overview => DashboardTab::Rates,
                    DashboardTab::Rates => DashboardTab::Latency,
                    DashboardTab::Latency => DashboardTab::Errors,
                    DashboardTab::Errors => DashboardTab::Overview,
                };
                Some(Action::Noop)
            },
            Key::Char('1') => {
                self.active_tab = DashboardTab::Overview;
                Some(Action::Noop)
            },
            Key::Char('2') => {
                self.active_tab = DashboardTab::Rates;
                Some(Action::Noop)
            },
            Key::Char('3') => {
                self.active_tab = DashboardTab::Latency;
                Some(Action::Noop)
            },
            Key::Char('4') => {
                self.active_tab = DashboardTab::Errors;
                Some(Action::Noop)
            },
            _ => None,
        }
    }
}

/// Moving left undoes moving right, and four moves right come back.
pub proof fn law_dashboard_tabs(t: DashboardTab)
    ensures
        tab_left(tab_right(t)) == t,
        tab_right(tab_left(t)) == t,
        tab_right(tab_right(tab_right(tab_right(t)))) == t,
{
}

} // verus!
