//! The source picker: the configured log sources, with a cursor and the
//! source in use.

use vstd::prelude::*;
use crate::action::Action;
use crate::keymap::{Key, KeyPress, is_char};
use crate::text::str_eq;
use crate::theme::Theme;

verus! {

/// A configured log source.
#[derive(Debug, Clone)]
pub struct SourceEntry {
    /// Its name.
    pub name: String,
    /// The kind of backend.
    pub backend: String,
    /// Where the backend is reached.
    pub url: String,
}

/// The picker's state.
pub struct SourcePicker {
    /// Whether the picker is shown.
    pub visible: bool,
    /// The sources, in order.
    pub sources: Vec<SourceEntry>,
    /// The source under the cursor.
    pub cursor: usize,
    /// The source in use.
    pub active: usize,
    /// The color theme.
    pub theme: Theme,
}

/// The first position of a source named `name`.
pub open spec fn first_named(v: Seq<SourceEntry>, name: Seq<char>) -> Option<int> {
    if exists|i: int| 0 <= i < v.len() && #[trigger] v[i].name@ == name {
        Some(choose|i: int| 0 <= i < v.len() && #[trigger] v[i].name@ == name && forall|j: int| 0 <= j < i ==> v[j].name@ != name)
    } else {
        None
    }
}

impl SourcePicker {
    /// A hidden picker without sources.
    pub fn new(theme: Theme) -> (p: SourcePicker)
        ensures
            !p.visible,
            p.sources@.len() == 0,
            p.cursor == 0,
            p.active == 0,
            p.theme == theme,
    {
        SourcePicker { visible: false, sources: Vec::new(), cursor: 0, active: 0, theme }
    }

    /// Set the sources; cursor and source in use go back to the first.
    pub fn set_sources(&mut self, sources: Vec<SourceEntry>)
        ensures
            *final(self) == (SourcePicker { sources: sources, cursor: 0, active: 0, ..*old(self) }),
    {
        self.sources = sources;
        self.cursor = 0;
        self.active = 0;
    }

    /// Show or hide the picker; showing puts the cursor on the source in use.
    pub fn toggle(&mut self)
        ensures
            *final(self) == (SourcePicker {
                visible: !old(self).visible,
                cursor: if !old(self).visible { old(self).active } else { old(self).cursor },
                ..*old(self)
            }),
    {
        self.visible = !self.visible;
        if self.visible {
            self.cursor = self.active;
        }
    }

    /// Whether the picker is shown.
    pub fn is_visible(&self) -> (b: bool)
        ensures
            b == self.visible,
    {
        self.visible
    }

    /// Mark the first source named `name` as in use, if there is one.
    pub fn set_active_by_name(&mut self, name: &str)
        ensures
            *final(self) == (match first_named(old(self).sources@, name@) {
                Some(i) => SourcePicker { active: i as usize, ..*old(self) },
                None => *old(self),
            }),
    {
        let mut i: usize = 0;
        while i < self.sources.len()
            invariant
                i <= self.sources@.len(),
                *self == *old(self),
                forall|j: int| 0 <= j < i ==> self.sources@[j].name@ != name@,
            decreases self.sources@.len() - i,
        {
            if str_eq(self.sources[i].name.as_str(), name) {
                proof {
                    let v = self.sources@;
                    let k = choose|k: int| 0 <= k < v.len() && #[trigger] v[k].name@ == name@ && forall|j: int| 0 <= j < k ==> v[j].name@ != name@;
                    assert(v[i as int].name@ == name@);
                    if k < i {
                    } else if k > i {
                        assert(v[i as int].name@ != name@);
                    }
                }
                self.active = i;
                return;
            }
            i += 1;
        }
    }

    /// Whether any source is configured.
    pub fn has_sources(&self) -> (b: bool)
        ensures
            b == (self.sources@.len() > 0),
    {
        self.sources.len() > 0
    }

    /// Handle a key while shown (a hidden picker does not handle keys):
    /// `j`/Down and `k`/Up move the cursor within the sources, Enter switches
    /// to the source under it and closes, Esc closes, other keys are
    /// swallowed.
    pub fn handle_key(&mut self, key: KeyPress) -> (r: Option<Action>)
        ensures
            ({
                let b = *old(self);
                let a = *final(self);
                let code = key.code;
                if !b.visible {
                    a == b && r is None
                } else if is_char(code, 'j') || code == Key::Down {
                    a == (SourcePicker { cursor: if b.cursor + 1 < b.sources@.len() { (b.cursor + 1) as usize } else { b.cursor }, ..b })
                        && r == Some(Action::Noop)
                } else if is_char(code, 'k') || code == Key::Up {
                    a == (SourcePicker { cursor: if b.cursor > 0 { (b.cursor - 1) as usize } else { 0 }, ..b })
                        && r == Some(Action::Noop)
                } else if code == Key::Enter {
                    if b.cursor < b.sources@.len() {
                        a == (SourcePicker { active: b.cursor, visible: false, ..b })
                            && (r matches Some(Action::SwitchSource(n)) && n@ == b.sources@[b.cursor as int].name@)
                    } else {
                        a == (SourcePicker { visible: false, ..b }) && r == Some(Action::Noop)
                    }
                } else if code == Key::Esc {
                    a == (SourcePicker { visible: false, ..b }) && r == Some(Action::Noop)
                } else {
                    a == b && r == Some(Action::Noop)
                }
            }),
    {
        if !self.visible {
            return None;
        }
        match key.code {
            Key::Char('j') | Key::Down => {
                if self.sources.len() > 0 && self.cursor < self.sources.len() - 1 {
                    self.cursor = self.cursor + 1;
                }
                Some(Action::Noop)
            },
            Key::Char('k') | Key::Up => {
                if self.cursor > 0 {
                    self.cursor = self.cursor - 1;
                }
                Some(Action::Noop)
            },
            Key::Enter => {
                if self.cursor < self.sources.len() {
                    let name = self.sources[self.cursor].name.clone();
                    self.active = self.cursor;
                    self.visible = false;
                    Some(Action::SwitchSource(name))
                } else {
                    self.visible = false;
                    Some(Action::Noop)
                }
            },
            Key::Esc => {
                self.visible = false;
                Some(Action::Noop)
            },
            _ => Some(Action::Noop),
        }
    }
}

} // verus!
