//! The alert history overlay: the most recent alerts that fired, with a
//! mute switch.

use vstd::prelude::*;
use crate::action::Action;
use crate::keymap::{Key, KeyPress, is_char};
use crate::log_entry::Timestamp;
use crate::theme::Theme;

verus! {

/// Most alerts kept.
pub const MAX_ALERT_HISTORY: usize = 100;

/// An alert that fired.
#[derive(Debug, Clone)]
pub struct AlertHistoryEntry {
    /// When it fired.
    pub timestamp: Timestamp,
    /// The rule that fired.
    pub rule_name: String,
    /// Its message.
    pub message: String,
}

/// The alert panel's state.
pub struct AlertPanel {
    /// Whether the panel is shown.
    pub visible: bool,
    /// The alerts, oldest first.
    pub alerts: Vec<AlertHistoryEntry>,
    /// Whether alerts are muted.
    pub muted: bool,
    /// Lines scrolled past the top.
    pub scroll: u16,
    /// The color theme.
    pub theme: Theme,
}

/// The alert list after adding `e`: the oldest alert goes when the list is
/// full.
pub open spec fn pushed_alerts(v: Seq<AlertHistoryEntry>, e: AlertHistoryEntry) -> Seq<AlertHistoryEntry> {
    if v.len() >= MAX_ALERT_HISTORY {
        v.drop_first().push(e)
    } else {
        v.push(e)
    }
}

impl AlertPanel {
    /// A hidden, unmuted panel with no alerts.
    pub fn new(theme: Theme) -> (p: AlertPanel)
        ensures
            !p.visible,
            p.alerts@.len() == 0,
            !p.muted,
            p.scroll == 0,
            p.theme == theme,
    {
        AlertPanel { visible: false, alerts: Vec::new(), muted: false, scroll: 0, theme }
    }

    /// Whether the panel is shown.
    pub fn is_visible(&self) -> (b: bool)
        ensures
            b == self.visible,
    {
        self.visible
    }

    /// Show or hide the panel; showing starts at the top.
    pub fn toggle(&mut self)
        ensures
            *final(self) == (AlertPanel {
                visible: !old(self).visible,
                scroll: if !old(self).visible { 0 } else { old(self).scroll },
                ..*old(self)
            }),
    {
        self.visible = !self.visible;
        if self.visible {
            self.scroll = 0;
        }
    }

    /// Set whether alerts are muted.
    pub fn set_muted(&mut self, muted: bool)
        ensures
            *final(self) == (AlertPanel { muted: muted, ..*old(self) }),
    {
        self.muted = muted;
    }

    /// Record an alert that fired.
    pub fn push_alert(&mut self, timestamp: Timestamp, rule_name: String, message: String)
        requires
            old(self).alerts@.len() <= MAX_ALERT_HISTORY,
        ensures
            final(self).alerts@ == pushed_alerts(
                old(self).alerts@,
                AlertHistoryEntry { timestamp, rule_name, message },
            ),
            final(self).alerts@.len() <= MAX_ALERT_HISTORY,
            *final(self) == (AlertPanel { alerts: final(self).alerts, ..*old(self) }),
    {
        if self.alerts.len() >= MAX_ALERT_HISTORY {
            self.alerts.remove(0);
        }
        self.alerts.push(AlertHistoryEntry { timestamp, rule_name, message });
    }

    /// How many alerts are kept.
    pub fn alert_count(&self) -> (n: usize)
        ensures
            n == self.alerts@.len(),
    {
        self.alerts.len()
    }

    /// Handle a key while shown (a hidden panel does not handle keys): Esc
    /// closes, `j`/Down and `k`/Up scroll, `m` asks to toggle muting, other
    /// keys are swallowed.
    pub fn handle_key(&mut self, key: KeyPress) -> (r: Option<Action>)
        ensures
            ({
                let b = *old(self);
                let a = *final(self);
                let code = key.code;
                if !b.visible {
                    a == b && r is None
                } else if code == Key::Esc {
                    a == (AlertPanel { visible: false, ..b }) && r == Some(Action::Noop)
                } else if is_char(code, 'j') || code == Key::Down {
                    a == (AlertPanel { scroll: if b.scroll < u16::MAX { (b.scroll + 1) as u16 } else { u16::MAX }, ..b })
                        && r == Some(Action::Noop)
                } else if is_char(code, 'k') || code == Key::Up {
                    a == (AlertPanel { scroll: if b.scroll > 0 { (b.scroll - 1) as u16 } else { 0 }, ..b })
                        && r == Some(Action::Noop)
                } else if is_char(code, 'm') {
                    a == b && r == Some(Action::ToggleAlertMute)
                } else {
                    a == b && r == Some(Action::Noop)
                }
            }),
    {
        if !self.visible {
            return None;
        }
        match key.code {
            Key::Esc => {
                self.visible = false;
                Some(Action::Noop)
            },
            Key::Char('j') | Key::Down => {
                self.scroll = self.scroll.saturating_add(1);
                Some(Action::Noop)
            },
            Key::Char('k') | Key::Up => {
                self.scroll = self.scroll.saturating_sub(1);
                Some(Action::Noop)
            },
            Key::Char('m') => Some(Action::ToggleAlertMute),
            _ => Some(Action::Noop),
        }
    }
}

/// The alert list never holds more than its bound, and the newest alert is
/// always last.
pub proof fn law_alert_history_bounded(v: Seq<AlertHistoryEntry>, e: AlertHistoryEntry)
    requires
        v.len() <= MAX_ALERT_HISTORY,
    ensures
        pushed_alerts(v, e).len() <= MAX_ALERT_HISTORY,
        pushed_alerts(v, e).last() == e,
{
}

} // verus!
