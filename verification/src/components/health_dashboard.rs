//! The backend health overlay's state, and how it writes an uptime.

use vstd::prelude::*;
use crate::action::Action;
use crate::keymap::{Key, KeyPress, is_char};
use crate::text::{decimal, decimal_string, lowercase, str_eq, to_lowercase};
use crate::theme::{Color, Theme};

verus! {

/// An uptime of `seconds` written with hours, minutes and seconds, leaving
/// out leading zero units (`1h 2m 3s`, `2m 3s`, `3s`).
pub open spec fn uptime_text(seconds: nat) -> Seq<char> {
    let h = seconds / 3600;
    let m = (seconds % 3600) / 60;
    let s = seconds % 60;
    if h > 0 {
        decimal(h) + "h "@ + decimal(m) + "m "@ + decimal(s) + "s"@
    } else if m > 0 {
        decimal(m) + "m "@ + decimal(s) + "s"@
    } else {
        decimal(s) + "s"@
    }
}

/// An uptime of `seconds`, written with hours, minutes and seconds.
pub fn format_uptime(seconds: u64) -> (r: String)
    ensures
        r@ == uptime_text(seconds as nat),
{
    let h = seconds / 3600;
    let m = (seconds % 3600) / 60;
    let s = seconds % 60;
    let mut r = String::new();
    if h > 0 {
        r.append(decimal_string(h).as_str());
        r.append("h ");
    }
    if h > 0 || m > 0 {
        r.append(decimal_string(m).as_str());
        r.append("m ");
    }
    r.append(decimal_string(s).as_str());
    r.append("s");
    proof {
        reveal_strlit("");
    }
    r
}

/// The overlay's state.
pub struct HealthDashboard {
    /// Whether the overlay is shown.
    pub visible: bool,
    /// The color theme.
    pub theme: Theme,
    /// The backend's name.
    pub backend_name: String,
    /// The connection state, as text.
    pub connection_state: String,
    /// Entries received since start.
    pub entries_received: u64,
    /// Seconds since start.
    pub uptime_seconds: u64,
    /// Reconnections since start.
    pub reconnect_count: u32,
    /// When the last entry arrived, if one did.
    pub last_entry_at: Option<String>,
    /// Lines scrolled past the top.
    pub scroll: u16,
}

impl HealthDashboard {
    /// A hidden overlay knowing nothing yet.
    pub fn new(theme: Theme) -> (d: HealthDashboard)
        ensures
            !d.visible,
            d.theme == theme,
            d.backend_name@.len() == 0,
            d.connection_state@ == "Unknown"@,
            d.entries_received == 0,
            d.uptime_seconds == 0,
            d.reconnect_count == 0,
            d.last_entry_at is None,
            d.scroll == 0,
    {
        HealthDashboard {
            visible: false,
            theme,
            backend_name: String::new(),
            connection_state: String::from_str("Unknown"),
            entries_received: 0,
            uptime_seconds: 0,
            reconnect_count: 0,
            last_entry_at: None,
            scroll: 0,
        }
    }

    /// Show or hide the overlay; showing starts at the top.
    pub fn toggle(&mut self)
        ensures
            *final(self) == (HealthDashboard {
                visible: !old(self).visible,
                scroll: if !old(self).visible { 0 } else { old(self).scroll },
                ..*old(self)
            }),
    {
        self.visible = !self.visible;
        if self.visible {
            self.scroll = 0;
        }
    }

    /// Whether the overlay is shown.
    pub fn is_visible(&self) -> (b: bool)
        ensures
            b == self.visible,
    {
        self.visible
    }

    /// Handle a key while shown (a hidden overlay does not handle keys): Esc
    /// closes, `j`/Down and `k`/Up scroll, other keys are swallowed.
    pub fn handle_key(&mut self, key: KeyPress) -> (r: Option<Action>)
        ensures
            ({
                let b = *old(self);
                let a = *final(self);
                let code = key.code;
                if !b.visible {
                    a == b && r is None
                } else if code == Key::Esc {
                    a == (HealthDashboard { visible: false, ..b }) && r == Some(Action::Noop)
                } else if is_char(code, 'j') || code == Key::Down {
                    a == (HealthDashboard { scroll: if b.scroll < u16::MAX { (b.scroll + 1) as u16 } else { u16::MAX }, ..b })
                        && r == Some(Action::Noop)
                } else if is_char(code, 'k') || code == Key::Up {
                    a == (HealthDashboard { scroll: if b.scroll > 0 { (b.scroll - 1) as u16 } else { 0 }, ..b })
                        && r == Some(Action::Noop)
                } else {
                    a == b && r == Some(Action::Noop)
                }
            }),
    {
        if !self.visible {
            return None;
        }
        match key.code {
            Key::Esc => {
                self.visible = false;
            },
            Key::Char('j') | Key::Down => {
                self.scroll = self.scroll.saturating_add(1);
            },
            Key::Char('k') | Key::Up => {
                self.scroll = self.scroll.saturating_sub(1);
            },
            _ => {},
        }
        Some(Action::Noop)
    }
}

/// The color a connection state is shown in, given the state in lower
/// case: the information color when connected, the warning color while
/// (re)connecting, the error color when disconnected or failed, and the
/// plain text color otherwise.
pub open spec fn connection_color_of(t: Theme, state: Seq<char>) -> Color {
    if state == "connected"@ {
        t.info
    } else if state == "reconnecting"@ || state == "connecting"@ {
        t.warn
    } else if state == "disconnected"@ || state == "error"@ {
        t.error
    } else {
        t.fg
    }
}

impl HealthDashboard {
    /// The color the connection state is shown in (its case ignored).
    pub fn connection_color(&self) -> (c: Color)
        ensures
            c == connection_color_of(self.theme, lowercase(self.connection_state@)),
    {
        let state = to_lowercase(self.connection_state.as_str());
        let s = state.as_str();
        if str_eq(s, "connected") {
            self.theme.info
        } else if str_eq(s, "reconnecting") || str_eq(s, "connecting") {
            self.theme.warn
        } else if str_eq(s, "disconnected") || str_eq(s, "error") {
            self.theme.error
        } else {
            self.theme.fg
        }
    }

    /// The color the reconnection count is shown in: the warning color once
    /// the backend has reconnected, the information color before.
    pub fn reconnect_color(&self) -> (c: Color)
        ensures
            c == (if self.reconnect_count > 0 { self.theme.warn } else { self.theme.info }),
    {
        if self.reconnect_count > 0 {
            self.theme.warn
        } else {
            self.theme.info
        }
    }
}

} // verus!
