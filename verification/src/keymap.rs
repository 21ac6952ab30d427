//! Key events and the key bindings that map them to actions, by input mode.
//! Follows vim-style navigation conventions.

use vstd::prelude::*;
use crate::action::Action;

verus! {

/// A key on the keyboard.
#[derive(Debug, Clone, Copy, PartialEq, Eq, Structural)]
pub enum Key {
    /// A character key.
    Char(char),
    /// Backspace.
    Backspace,
    /// Enter / Return.
    Enter,
    /// Left arrow.
    Left,
    /// Right arrow.
    Right,
    /// Up arrow.
    Up,
    /// Down arrow.
    Down,
    /// Home.
    Home,
    /// End.
    End,
    /// Page up.
    PageUp,
    /// Page down.
    PageDown,
    /// Tab.
    Tab,
    /// Shift + Tab.
    BackTab,
    /// Delete.
    Delete,
    /// Insert.
    Insert,
    /// A function key.
    F(u8),
    /// Escape.
    Esc,
    /// Any other key.
    Other,
}

/// Modifier keys held with a key.
#[derive(Debug, Clone, Copy, PartialEq, Eq, Structural)]
pub struct Modifiers {
    /// Shift.
    pub shift: bool,
    /// Control.
    pub control: bool,
    /// Alt.
    pub alt: bool,
    /// Super (the "Windows" key).
    pub super_key: bool,
    /// Hyper.
    pub hyper: bool,
    /// Meta.
    pub meta: bool,
}

impl Modifiers {
    /// No modifier.
    pub open spec fn spec_none() -> Modifiers {
        Modifiers {
            shift: false,
            control: false,
            alt: false,
            super_key: false,
            hyper: false,
            meta: false,
        }
    }

    /// No modifier.
    pub fn none() -> (m: Modifiers)
        ensures
            m == Self::spec_none(),
    {
        Modifiers {
            shift: false,
            control: false,
            alt: false,
            super_key: false,
            hyper: false,
            meta: false,
        }
    }

    /// Control only.
    pub fn ctrl() -> (m: Modifiers)
        ensures
            m == (Modifiers { control: true, ..Self::spec_none() }),
    {
        Modifiers {
            shift: false,
            control: true,
            alt: false,
            super_key: false,
            hyper: false,
            meta: false,
        }
    }

    /// Whether no modifier is held.
    pub open spec fn spec_is_empty(self) -> bool {
        !self.shift && !self.control && !self.alt && !self.super_key && !self.hyper && !self.meta
    }

    /// Whether no modifier is held.
    pub fn is_empty(&self) -> (b: bool)
        ensures
            b == self.spec_is_empty(),
    {
        !self.shift && !self.control && !self.alt && !self.super_key && !self.hyper && !self.meta
    }
}

/// Whether a key went down, repeated, or went up.
#[derive(Debug, Clone, Copy, PartialEq, Eq, Structural)]
pub enum PressKind {
    /// The key went down.
    Press,
    /// The key is held and repeats.
    Repeat,
    /// The key went up.
    Release,
}

/// A key event with its modifiers.
#[derive(Debug, Clone, Copy, PartialEq, Eq, Structural)]
pub struct KeyPress {
    /// The key.
    pub code: Key,
    /// The modifiers held.
    pub modifiers: Modifiers,
    /// Press, repeat or release.
    pub kind: PressKind,
}

impl KeyPress {
    /// A key press.
    pub fn new(code: Key, modifiers: Modifiers) -> (k: KeyPress)
        ensures
            k.code == code,
            k.modifiers == modifiers,
            k.kind == PressKind::Press,
    {
        KeyPress { code, modifiers, kind: PressKind::Press }
    }
}

/// The current input mode, which determines how key presses are interpreted.
#[derive(Debug, Clone, Copy, PartialEq, Eq, Structural)]
pub enum InputMode {
    /// Normal mode: browsing logs, navigating panels.
    Normal,
    /// Query mode: typing in the query bar.
    Query,
    /// Search mode: typing in the search bar.
    Search,
    /// Filter mode: navigating the filter panel.
    Filter,
    /// Detail mode: viewing a log entry's details.
    Detail,
}

/// Whether `c` is the character `ch`.
pub open spec fn is_char(c: Key, ch: char) -> bool {
    c == Key::Char(ch)
}

/// Bindings of normal (log browsing) mode. Digit keys 1 to 9 without
/// modifiers switch to that tab; `S` (save query) is bound separately.
pub open spec fn normal_action(key: KeyPress) -> Action {
    let c = key.code;
    let ctrl = key.modifiers.control;
    if ctrl && is_char(c, 't') {
        Action::NewTab
    } else if ctrl && is_char(c, 'w') {
        Action::CloseTab
    } else if is_char(c, 'q') {
        Action::Quit
    } else if is_char(c, 'j') || c == Key::Down {
        Action::ScrollDown(1)
    } else if is_char(c, 'k') || c == Key::Up {
        Action::ScrollUp(1)
    } else if is_char(c, 'd') && ctrl {
        Action::PageDown
    } else if is_char(c, 'u') && ctrl {
        Action::PageUp
    } else if c == Key::PageDown {
        Action::PageDown
    } else if c == Key::PageUp {
        Action::PageUp
    } else if is_char(c, 'g') || c == Key::Home {
        Action::ScrollToTop
    } else if is_char(c, 'G') || c == Key::End {
        Action::ScrollToBottom
    } else if is_char(c, '/') {
        Action::EnterSearchMode
    } else if is_char(c, 'n') {
        Action::SearchNext
    } else if is_char(c, 'N') {
        Action::SearchPrev
    } else if is_char(c, ':') {
        Action::EnterQueryMode
    } else if c == Key::Tab {
        Action::FocusNext
    } else if c == Key::BackTab {
        Action::FocusPrev
    } else if is_char(c, '?') {
        Action::ToggleHelp
    } else if is_char(c, 'f') {
        Action::ToggleFilterPanel
    } else if is_char(c, 'w') {
        Action::ToggleLineWrap
    } else if is_char(c, 't') {
        Action::ToggleTimestamps
    } else if is_char(c, 'T') {
        Action::ToggleTimePicker
    } else if c == Key::Enter {
        Action::ToggleDetail
    } else if is_char(c, 'y') {
        Action::CopyLine
    } else if is_char(c, 'e') {
        Action::ExportLogs
    } else if (c matches Key::Char(d) && '1' <= d <= '9') && key.modifiers.spec_is_empty() {
        Action::SwitchTab((c->Char_0 as u32 - '1' as u32) as usize)
    } else if is_char(c, 'b') {
        Action::ToggleSourcePicker
    } else if is_char(c, 'x') {
        Action::ToggleExpand
    } else if is_char(c, 'C') {
        Action::ToggleContext
    } else if is_char(c, 's') {
        Action::ToggleStats
    } else if is_char(c, 'a') {
        Action::ToggleAlertPanel
    } else if is_char(c, 'A') {
        Action::ToggleAlertMute
    } else if is_char(c, 'i') {
        Action::ToggleAnalytics
    } else if is_char(c, 'c') {
        Action::ToggleColumnMode
    } else if is_char(c, 'D') {
        Action::ToggleDedup
    } else if is_char(c, 'm') {
        Action::ToggleBookmark
    } else if is_char(c, '\'') {
        Action::NextBookmark
    } else if is_char(c, 'W') {
        Action::ToggleTraceWaterfall
    } else if is_char(c, 'R') {
        Action::ToggleRegexPlayground
    } else if is_char(c, 'd') && key.modifiers.spec_is_empty() {
        Action::ToggleDiffMode
    } else if is_char(c, 'H') {
        Action::ToggleHealthDashboard
    } else if is_char(c, 'V') {
        Action::ToggleSavedViews
    } else if is_char(c, 'L') {
        Action::ToggleLiveDashboard
    } else if is_char(c, 'I') {
        Action::ToggleIncidentTimeline
    } else if is_char(c, 'l') && ctrl {
        Action::ToggleNlQuery
    } else {
        Action::Noop
    }
}

/// Whether the key is `S` in normal mode, which saves the current query
/// (with an empty name).
pub open spec fn is_save_key(mode: InputMode, key: KeyPress) -> bool {
    mode == InputMode::Normal && !(key.modifiers.control && (is_char(key.code, 'c') || is_char(
        key.code,
        'q',
    ) || is_char(key.code, 't') || is_char(key.code, 'w'))) && is_char(key.code, 'S')
}

/// The action bound to `key` in `mode` (for every key but the save key, see
/// `is_save_key`). Ctrl+C and Ctrl+Q quit in every mode.
pub open spec fn key_action(mode: InputMode, key: KeyPress) -> Action {
    let c = key.code;
    if key.modifiers.control && (is_char(c, 'c') || is_char(c, 'q')) {
        Action::Quit
    } else {
        match mode {
            InputMode::Normal => normal_action(key),
            InputMode::Query => if c == Key::Esc {
                Action::ExitQueryMode
            } else {
                Action::Noop
            },
            InputMode::Search => if c == Key::Esc {
                Action::ExitSearchMode
            } else {
                Action::Noop
            },
            InputMode::Filter => if c == Key::Esc {
                Action::ToggleFilterPanel
            } else if is_char(c, 'j') || c == Key::Down {
                Action::ScrollDown(1)
            } else if is_char(c, 'k') || c == Key::Up {
                Action::ScrollUp(1)
            } else {
                Action::Noop
            },
            InputMode::Detail => if c == Key::Esc || c == Key::Enter {
                Action::ToggleDetail
            } else if is_char(c, 'j') || c == Key::Down {
                Action::ScrollDown(1)
            } else if is_char(c, 'k') || c == Key::Up {
                Action::ScrollUp(1)
            } else if is_char(c, 'x') {
                Action::ToggleExpand
            } else {
                Action::Noop
            },
        }
    }
}

/// Map a key event to an action based on the current input mode.
pub fn handle_key(mode: InputMode, key: KeyPress) -> (a: Action)
    ensures
        is_save_key(mode, key) ==> (a matches Action::SaveQuery(name) && name@ == Seq::<
            char,
        >::empty()),
        !is_save_key(mode, key) ==> a == key_action(mode, key),
{
    if key.modifiers.control {
        match key.code {
            Key::Char('c') | Key::Char('q') => return Action::Quit,
            _ => {},
        }
    }
    match mode {
        InputMode::Normal => handle_normal_mode(key),
        InputMode::Query => handle_query_mode(key),
        InputMode::Search => handle_search_mode(key),
        InputMode::Filter => handle_filter_mode(key),
        InputMode::Detail => handle_detail_mode(key),
    }
}

/// Key bindings for normal (log browsing) mode.
fn handle_normal_mode(key: KeyPress) -> (a: Action)
    ensures
        is_char(key.code, 'S') && !(key.modifiers.control && (is_char(key.code, 't') || is_char(
            key.code,
            'w',
        ))) ==> (a matches Action::SaveQuery(name) && name@ == Seq::<char>::empty()),
        !(is_char(key.code, 'S') && !(key.modifiers.control && (is_char(key.code, 't')
            || is_char(key.code, 'w')))) ==> a == normal_action(key),
{
    let ctrl = key.modifiers.control;
    if ctrl {
        match key.code {
            Key::Char('t') => return Action::NewTab,
            Key::Char('w') => return Action::CloseTab,
            _ => {},
        }
    }
    match key.code {
        Key::Char('q') => Action::Quit,
        Key::Char('j') | Key::Down => Action::ScrollDown(1),
        Key::Char('k') | Key::Up => Action::ScrollUp(1),
        Key::Char('d') if ctrl => Action::PageDown,
        Key::Char('u') if ctrl => Action::PageUp,
        Key::PageDown => Action::PageDown,
        Key::PageUp => Action::PageUp,
        Key::Char('g') => Action::ScrollToTop,
        Key::Char('G') => Action::ScrollToBottom,
        Key::Home => Action::ScrollToTop,
        Key::End => Action::ScrollToBottom,
        Key::Char('/') => Action::EnterSearchMode,
        Key::Char('n') => Action::SearchNext,
        Key::Char('N') => Action::SearchPrev,
        Key::Char(':') => Action::EnterQueryMode,
        Key::Tab => Action::FocusNext,
        Key::BackTab => Action::FocusPrev,
        Key::Char('?') => Action::ToggleHelp,
        Key::Char('f') => Action::ToggleFilterPanel,
        Key::Char('w') => Action::ToggleLineWrap,
        Key::Char('t') => Action::ToggleTimestamps,
        Key::Char('T') => Action::ToggleTimePicker,
        Key::Enter => Action::ToggleDetail,
        Key::Char('y') => Action::CopyLine,
        Key::Char('e') => Action::ExportLogs,
        Key::Char(c) if '1' <= c && c <= '9' && key.modifiers.is_empty() => {
            let n = (c as u32 - '1' as u32) as usize;
            Action::SwitchTab(n)
        },
        Key::Char('b') => Action::ToggleSourcePicker,
        Key::Char('x') => Action::ToggleExpand,
        Key::Char('C') => Action::ToggleContext,
        Key::Char('s') => Action::ToggleStats,
        Key::Char('S') => Action::SaveQuery(String::new()),
        Key::Char('a') => Action::ToggleAlertPanel,
        Key::Char('A') => Action::ToggleAlertMute,
        Key::Char('i') => Action::ToggleAnalytics,
        Key::Char('c') => Action::ToggleColumnMode,
        Key::Char('D') => Action::ToggleDedup,
        Key::Char('m') => Action::ToggleBookmark,
        Key::Char('\'') => Action::NextBookmark,
        Key::Char('W') => Action::ToggleTraceWaterfall,
        Key::Char('R') => Action::ToggleRegexPlayground,
        Key::Char('d') if key.modifiers.is_empty() => Action::ToggleDiffMode,
        Key::Char('H') => Action::ToggleHealthDashboard,
        Key::Char('V') => Action::ToggleSavedViews,
        Key::Char('L') => Action::ToggleLiveDashboard,
        Key::Char('I') => Action::ToggleIncidentTimeline,
        Key::Char('l') if ctrl => Action::ToggleNlQuery,
        _ => Action::Noop,
    }
}

/// Key bindings for query input mode.
fn handle_query_mode(key: KeyPress) -> (a: Action)
    ensures
        a == (if key.code == Key::Esc {
            Action::ExitQueryMode
        } else {
            Action::Noop
        }),
{
    match key.code {
        Key::Esc => Action::ExitQueryMode,
        _ => Action::Noop,
    }
}

/// Key bindings for search input mode.
fn handle_search_mode(key: KeyPress) -> (a: Action)
    ensures
        a == (if key.code == Key::Esc {
            Action::ExitSearchMode
        } else {
            Action::Noop
        }),
{
    match key.code {
        Key::Esc => Action::ExitSearchMode,
        _ => Action::Noop,
    }
}

/// Key bindings for filter panel mode.
fn handle_filter_mode(key: KeyPress) -> (a: Action)
    ensures
        a == key_action(InputMode::Filter, key) || (key.modifiers.control && (is_char(
            key.code,
            'c',
        ) || is_char(key.code, 'q'))),
        !(key.modifiers.control && (is_char(key.code, 'c') || is_char(key.code, 'q')))
            ==> a == key_action(InputMode::Filter, key),
{
    match key.code {
        Key::Esc => Action::ToggleFilterPanel,
        Key::Char('j') | Key::Down => Action::ScrollDown(1),
        Key::Char('k') | Key::Up => Action::ScrollUp(1),
        _ => Action::Noop,
    }
}

/// Key bindings for detail panel mode.
fn handle_detail_mode(key: KeyPress) -> (a: Action)
    ensures
        !(key.modifiers.control && (is_char(key.code, 'c') || is_char(key.code, 'q')))
            ==> a == key_action(InputMode::Detail, key),
{
    match key.code {
        Key::Esc | Key::Enter => Action::ToggleDetail,
        Key::Char('j') | Key::Down => Action::ScrollDown(1),
        Key::Char('k') | Key::Up => Action::ScrollUp(1),
        Key::Char('x') => Action::ToggleExpand,
        _ => Action::Noop,
    }
}

} // verus!
