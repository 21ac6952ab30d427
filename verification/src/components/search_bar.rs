//! The search bar: a one-line input whose term is searched as it is typed.

use vstd::prelude::*;
use crate::action::Action;
use crate::components::input::{InputState, input_edited};
use crate::keymap::{Key, KeyPress};
use crate::theme::Theme;

verus! {

/// The search bar's state.
pub struct SearchBar {
    /// The term being typed.
    pub input: InputState,
    /// Whether the bar accepts input.
    pub active: bool,
    /// The color theme.
    pub theme: Theme,
}

/// The action that searches for `term`: clearing the search when it is
/// empty.
pub open spec fn search_action(term: Seq<char>, a: Action) -> bool {
    if term.len() == 0 {
        a == Action::SearchClear
    } else {
        a matches Action::SearchSubmit(t) && t@ == term
    }
}

impl SearchBar {
    /// An inactive, empty bar.
    pub fn new(theme: Theme) -> (b: SearchBar)
        ensures
            !b.active,
            b.input.spec_value().len() == 0,
            b.theme == theme,
    {
        SearchBar { input: InputState::empty(), active: false, theme }
    }

    /// Whether the bar accepts input.
    pub fn is_active(&self) -> (b: bool)
        ensures
            b == self.active,
    {
        self.active
    }

    /// Start a new search with an empty term.
    pub fn activate(&mut self)
        ensures
            final(self).active,
            final(self).input.spec_value().len() == 0,
            final(self).theme == old(self).theme,
    {
        self.active = true;
        self.input = InputState::empty();
    }

    /// Stop accepting input.
    pub fn deactivate(&mut self)
        ensures
            *final(self) == (SearchBar { active: false, ..*old(self) }),
    {
        self.active = false;
    }

    /// Handle a key while active (an inactive bar does not handle keys):
    /// Enter finishes and searches for the term, Esc leaves search mode, and
    /// other keys edit the term and search for it as it now stands.
    pub fn handle_key(&mut self, key: KeyPress) -> (r: Option<Action>)
        ensures
            ({
                let b = *old(self);
                let a = *final(self);
                if !b.active {
                    a == b && r is None
                } else if key.code == Key::Enter {
                    a == (SearchBar { active: false, ..b }) && (r matches Some(act) && search_action(
                        b.input.spec_value(),
                        act,
                    ))
                } else if key.code == Key::Esc {
                    a == (SearchBar { active: false, ..b }) && r == Some(Action::ExitSearchMode)
                } else {
                    a == (SearchBar { input: a.input, ..b }) && input_edited(b.input, a.input, key) && (
                    r matches Some(act) && search_action(a.input.spec_value(), act))
                }
            }),
    {
        if !self.active {
            return None;
        }
        match key.code {
            Key::Enter => {
                let term = self.input.value().to_string();
                self.active = false;
                if term.as_str().unicode_len() == 0 {
                    Some(Action::SearchClear)
                } else {
                    Some(Action::SearchSubmit(term))
                }
            },
            Key::Esc => {
                self.active = false;
                Some(Action::ExitSearchMode)
            },
            _ => {
                self.input.handle_key(key);
                let term = self.input.value().to_string();
                if term.as_str().unicode_len() == 0 {
                    Some(Action::SearchClear)
                } else {
                    Some(Action::SearchSubmit(term))
                }
            },
        }
    }
}

} // verus!
