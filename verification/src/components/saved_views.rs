//! The saved views overlay: the saved views in a list, to load or delete.

use vstd::prelude::*;
use crate::action::Action;
use crate::keymap::{Key, KeyPress, is_char};
use crate::theme::Theme;
use crate::views::SavedView;

verus! {

/// The overlay's state.
pub struct SavedViewsPanel {
    /// Whether the overlay is shown.
    pub visible: bool,
    /// The views listed.
    pub views: Vec<SavedView>,
    /// The view under the cursor.
    pub cursor: usize,
    /// The color theme.
    pub theme: Theme,
}

/// `prefix` followed by `name`.
fn with_prefix(prefix: &str, name: &str) -> (s: String)
    ensures
        s@ == prefix@ + name@,
{
    let mut s = String::from_str(prefix);
    s.append(name);
    s
}

impl SavedViewsPanel {
    /// A hidden, empty overlay.
    pub fn new(theme: Theme) -> (p: SavedViewsPanel)
        ensures
            !p.visible,
            p.views@.len() == 0,
            p.cursor == 0,
            p.theme == theme,
    {
        SavedViewsPanel { visible: false, views: Vec::new(), cursor: 0, theme }
    }

    /// Show or hide the overlay; showing puts the cursor on the first view.
    pub fn toggle(&mut self)
        ensures
            *final(self) == (SavedViewsPanel {
                visible: !old(self).visible,
                cursor: if !old(self).visible { 0 } else { old(self).cursor },
                ..*old(self)
            }),
    {
        self.visible = !self.visible;
        if self.visible {
            self.cursor = 0;
        }
    }

    /// Set the views listed; the cursor goes to the first.
    pub fn set_views(&mut self, views: Vec<SavedView>)
        ensures
            *final(self) == (SavedViewsPanel { views: views, cursor: 0, ..*old(self) }),
    {
        self.views = views;
        self.cursor = 0;
    }

    /// Whether any view is listed.
    pub fn has_views(&self) -> (b: bool)
        ensures
            b == (self.views@.len() > 0),
    {
        self.views.len() > 0
    }

    /// Whether the overlay is shown.
    pub fn is_visible(&self) -> (b: bool)
        ensures
            b == self.visible,
    {
        self.visible
    }

    /// Handle a key while shown (a hidden overlay does not handle keys):
    /// `j`/Down and `k`/Up move the cursor within the views, Enter closes
    /// and announces the view under the cursor being loaded, `d` deletes
    /// it, Esc closes, other keys are swallowed.
    pub fn handle_key(&mut self, key: KeyPress) -> (r: Option<Action>)
        ensures
            ({
                let b = *old(self);
                let a = *final(self);
                let code = key.code;
                let n = b.views@.len();
                if !b.visible {
                    a == b && r is None
                } else if is_char(code, 'j') || code == Key::Down {
                    a == (SavedViewsPanel { cursor: if b.cursor + 1 < n { (b.cursor + 1) as usize } else { b.cursor }, ..b })
                        && r == Some(Action::Noop)
                } else if is_char(code, 'k') || code == Key::Up {
                    a == (SavedViewsPanel { cursor: if b.cursor > 0 { (b.cursor - 1) as usize } else { 0 }, ..b })
                        && r == Some(Action::Noop)
                } else if code == Key::Enter {
                    a == (SavedViewsPanel { visible: false, ..b }) && if b.cursor < n {
                        r matches Some(Action::Notify(m)) && m@ == "Loading view: "@ + b.views@[b.cursor as int].name@
                    } else {
                        r == Some(Action::Noop)
                    }
                } else if is_char(code, 'd') {
                    if b.cursor < n {
                        &&& a.views@ == b.views@.remove(b.cursor as int)
                        &&& a.cursor == (if b.cursor >= n - 1 && b.cursor > 0 { (b.cursor - 1) as usize } else { b.cursor })
                        &&& a == (SavedViewsPanel { views: a.views, cursor: a.cursor, ..b })
                        &&& r matches Some(Action::Notify(m)) && m@ == "Deleted view: "@ + b.views@[b.cursor as int].name@
                    } else {
                        a == b && r == Some(Action::Noop)
                    }
                } else if code == Key::Esc {
                    a == (SavedViewsPanel { visible: false, ..b }) && r == Some(Action::Noop)
                } else {
                    a == b && r == Some(Action::Noop)
                }
            }),
    {
        if !self.visible {
            return None;
        }
        match key.code {
            Key::Char('j') | Key::Down => {
                if self.views.len() > 0 && self.cursor < self.views.len() - 1 {
                    self.cursor = self.cursor + 1;
                }
                Some(Action::Noop)
            },
            Key::Char('k') | Key::Up => {
                if self.cursor > 0 {
                    self.cursor = self.cursor - 1;
                }
                Some(Action::Noop)
            },
            Key::Enter => {
                self.visible = false;
                if self.cursor < self.views.len() {
                    Some(Action::Notify(with_prefix("Loading view: ", self.views[self.cursor].name.as_str())))
                } else {
                    Some(Action::Noop)
                }
            },
            Key::Char('d') => {
                if self.cursor < self.views.len() {
                    let message = with_prefix("Deleted view: ", self.views[self.cursor].name.as_str());
                    self.views.remove(self.cursor);
                    if self.cursor >= self.views.len() && self.cursor > 0 {
                        self.cursor = self.cursor - 1;
                    }
                    Some(Action::Notify(message))
                } else {
                    Some(Action::Noop)
                }
            },
            Key::Esc => {
                self.visible = false;
                Some(Action::Noop)
            },
            _ => Some(Action::Noop),
        }
    }
}

} // verus!
