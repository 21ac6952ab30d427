//! The help overlay's state.

use vstd::prelude::*;
use crate::action::Action;
use crate::theme::Theme;

verus! {

/// The help overlay's state.
pub struct HelpOverlay {
    /// Whether the overlay is shown.
    pub visible: bool,
    /// The color theme.
    pub theme: Theme,
}

impl HelpOverlay {
    /// A hidden overlay.
    pub fn new(theme: Theme) -> (h: HelpOverlay)
        ensures
            !h.visible,
            h.theme == theme,
    {
        HelpOverlay { visible: false, theme }
    }

    /// Whether the overlay is shown.
    pub fn is_visible(&self) -> (b: bool)
        ensures
            b == self.visible,
    {
        self.visible
    }

    /// Show or hide the overlay.
    pub fn toggle(&mut self)
        ensures
            *final(self) == (HelpOverlay { visible: !old(self).visible, ..*old(self) }),
    {
        self.visible = !self.visible;
    }

    /// React to an action: the help action shows or hides the overlay.
    /// Never produces a follow-up action.
    pub fn handle_action(&mut self, action: &Action) -> (r: Option<Action>)
        ensures
            r is None,
            *final(self) == (if action is ToggleHelp {
                HelpOverlay { visible: !old(self).visible, ..*old(self) }
            } else {
                *old(self)
            }),
    {
        if let Action::ToggleHelp = action {
            self.toggle();
        }
        None
    }
}

} // verus!
