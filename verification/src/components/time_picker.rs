//! The time range picker: a list of preset ranges with a cursor and the
//! chosen range.

use vstd::prelude::*;
use crate::action::Action;
use crate::keymap::{Key, KeyPress, is_char};
use crate::theme::Theme;

verus! {

/// A preset time range.
#[derive(Debug, Clone, Copy)]
pub struct TimePreset {
    /// Its name in the list.
    pub label: &'static str,
    /// Its length in minutes.
    pub minutes: u64,
}

/// Number of presets.
pub const PRESET_COUNT: usize = 10;

/// The length in minutes of preset `i`.
pub open spec fn preset_minutes(i: int) -> u64 {
    if i == 0 {
        5
    } else if i == 1 {
        15
    } else if i == 2 {
        30
    } else if i == 3 {
        60
    } else if i == 4 {
        180
    } else if i == 5 {
        360
    } else if i == 6 {
        720
    } else if i == 7 {
        1440
    } else if i == 8 {
        2880
    } else {
        10080
    }
}

/// The name of preset `i`.
pub open spec fn preset_label(i: int) -> Seq<char> {
    if i == 0 {
        "Last 5 minutes"@
    } else if i == 1 {
        "Last 15 minutes"@
    } else if i == 2 {
        "Last 30 minutes"@
    } else if i == 3 {
        "Last 1 hour"@
    } else if i == 4 {
        "Last 3 hours"@
    } else if i == 5 {
        "Last 6 hours"@
    } else if i == 6 {
        "Last 12 hours"@
    } else if i == 7 {
        "Last 24 hours"@
    } else if i == 8 {
        "Last 2 days"@
    } else {
        "Last 7 days"@
    }
}

/// Preset `i`, from five minutes to seven days.
pub fn preset(i: usize) -> (p: TimePreset)
    requires
        i < PRESET_COUNT,
    ensures
        p.minutes == preset_minutes(i as int),
        p.label@ == preset_label(i as int),
{
    match i {
        0 => TimePreset { label: "Last 5 minutes", minutes: 5 },
        1 => TimePreset { label: "Last 15 minutes", minutes: 15 },
        2 => TimePreset { label: "Last 30 minutes", minutes: 30 },
        3 => TimePreset { label: "Last 1 hour", minutes: 60 },
        4 => TimePreset { label: "Last 3 hours", minutes: 180 },
        5 => TimePreset { label: "Last 6 hours", minutes: 360 },
        6 => TimePreset { label: "Last 12 hours", minutes: 720 },
        7 => TimePreset { label: "Last 24 hours", minutes: 1440 },
        8 => TimePreset { label: "Last 2 days", minutes: 2880 },
        _ => TimePreset { label: "Last 7 days", minutes: 10080 },
    }
}

/// The picker's state.
pub struct TimePicker {
    /// Whether the picker is shown.
    pub visible: bool,
    /// The preset under the cursor.
    pub cursor: usize,
    /// The chosen preset.
    pub selected: usize,
    /// The color theme.
    pub theme: Theme,
}

impl TimePicker {
    /// Cursor and choice are presets.
    pub open spec fn wf(&self) -> bool {
        self.cursor < PRESET_COUNT && self.selected < PRESET_COUNT
    }

    /// A hidden picker with the last hour chosen.
    pub fn new(theme: Theme) -> (p: TimePicker)
        ensures
            p.wf(),
            !p.visible,
            p.cursor == 3,
            p.selected == 3,
            p.theme == theme,
    {
        TimePicker { visible: false, cursor: 3, selected: 3, theme }
    }

    /// Show or hide the picker; showing puts the cursor on the chosen preset.
    pub fn toggle(&mut self)
        ensures
            *final(self) == (TimePicker {
                visible: !old(self).visible,
                cursor: if !old(self).visible { old(self).selected } else { old(self).cursor },
                ..*old(self)
            }),
    {
        self.visible = !self.visible;
        if self.visible {
            self.cursor = self.selected;
        }
    }

    /// Whether the picker is shown.
    pub fn is_visible(&self) -> (b: bool)
        ensures
            b == self.visible,
    {
        self.visible
    }

    /// The length of the chosen range, in minutes.
    pub fn selected_minutes(&self) -> (m: u64)
        requires
            self.wf(),
        ensures
            m == preset_minutes(self.selected as int),
    {
        preset(self.selected).minutes
    }

    /// The name of the chosen range.
    pub fn selected_label(&self) -> (s: &'static str)
        requires
            self.wf(),
        ensures
            s@ == preset_label(self.selected as int),
    {
        preset(self.selected).label
    }

    /// Handle a key while shown (a hidden picker does not handle keys):
    /// `j`/Down and `k`/Up move the cursor within the list, Enter chooses
    /// the preset under it and closes, asking for that range, Esc closes,
    /// and other keys are swallowed.
    pub fn handle_key(&mut self, key: KeyPress) -> (r: Option<Action>)
        requires
            old(self).wf(),
        ensures
            final(self).wf(),
            ({
                let b = *old(self);
                let a = *final(self);
                let code = key.code;
                if !b.visible {
                    a == b && r is None
                } else if is_char(code, 'j') || code == Key::Down {
                    a == (TimePicker { cursor: if b.cursor + 1 < PRESET_COUNT { (b.cursor + 1) as usize } else { b.cursor }, ..b })
                        && r == Some(Action::Noop)
                } else if is_char(code, 'k') || code == Key::Up {
                    a == (TimePicker { cursor: if b.cursor > 0 { (b.cursor - 1) as usize } else { 0 }, ..b })
                        && r == Some(Action::Noop)
                } else if code == Key::Enter {
                    a == (TimePicker { selected: b.cursor, visible: false, ..b })
                        && r == Some(Action::SetTimeRange(preset_minutes(b.cursor as int)))
                } else if code == Key::Esc {
                    a == (TimePicker { visible: false, ..b }) && r == Some(Action::Noop)
                } else {
                    a == b && r == Some(Action::Noop)
                }
            }),
    {
        if !self.visible {
            return None;
        }
        match key.code {
            Key::Char('j') | Key::Down => {
                if self.cursor + 1 < PRESET_COUNT {
                    self.cursor = self.cursor + 1;
                }
                Some(Action::Noop)
            },
            Key::Char('k') | Key::Up => {
                if self.cursor > 0 {
                    self.cursor = self.cursor - 1;
                }
                Some(Action::Noop)
            },
            Key::Enter => {
                self.selected = self.cursor;
                self.visible = false;
                Some(Action::SetTimeRange(preset(self.selected).minutes))
            },
            Key::Esc => {
                self.visible = false;
                Some(Action::Noop)
            },
            _ => Some(Action::Noop),
        }
    }
}

} // verus!
