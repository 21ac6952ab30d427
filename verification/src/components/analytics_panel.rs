//! The analytics overlay: five tabs (patterns, anomalies, correlations,
//! trends, endpoints), the detected log patterns and anomalies.

use vstd::prelude::*;
use crate::action::Action;
use crate::keymap::{Key, KeyPress, is_char};
use crate::theme::Theme;
use crate::text::{chars_of, string_from_range};

verus! {

/// Number of tabs.
pub const TAB_COUNT: usize = 5;

/// A recurring log pattern.
#[derive(Debug, Clone)]
pub struct PatternInfo {
    /// The template, with `{*}` where the lines vary.
    pub template: String,
    /// How many lines follow it.
    pub count: usize,
    /// One such line.
    pub example: String,
}

/// The kind of an anomaly.
#[derive(Debug, Clone, Copy, PartialEq, Eq, Structural)]
pub enum AnomalySeverity {
    /// A sudden rise in volume.
    VolumeSpike,
    /// A pattern not seen before.
    NewPattern,
}

/// A detected anomaly.
#[derive(Debug, Clone)]
pub struct AnomalyInfo {
    /// What was seen.
    pub description: String,
    /// When.
    pub timestamp: String,
    /// Its kind.
    pub severity: AnomalySeverity,
}

/// The overlay's state (the numeric analytics are drawn from the caller's
/// data).
pub struct AnalyticsPanel {
    /// Whether the overlay is shown.
    pub visible: bool,
    /// The tab shown.
    pub active_tab: usize,
    /// Lines scrolled past the top.
    pub scroll: u16,
    /// The color theme.
    pub theme: Theme,
    /// The detected patterns.
    pub patterns: Vec<PatternInfo>,
    /// The detected anomalies.
    pub anomalies: Vec<AnomalyInfo>,
}

/// The tab after `t`, wrapping.
pub open spec fn next_tab_of(t: usize) -> usize {
    ((t + 1) % (TAB_COUNT as int)) as usize
}

/// The tab before `t`, wrapping.
pub open spec fn prev_tab_of(t: usize) -> usize {
    if t == 0 { (TAB_COUNT - 1) as usize } else { (t - 1) as usize }
}

/// The tab a digit key `1` to `5` picks.
pub open spec fn digit_tab(code: Key) -> usize {
    if is_char(code, '1') {
        0
    } else if is_char(code, '2') {
        1
    } else if is_char(code, '3') {
        2
    } else if is_char(code, '4') {
        3
    } else {
        4
    }
}

impl AnalyticsPanel {
    /// The tab shown is one of the tabs.
    pub open spec fn wf(&self) -> bool {
        self.active_tab < TAB_COUNT
    }

    /// A hidden overlay on the first tab, with nothing detected.
    pub fn new(theme: Theme) -> (p: AnalyticsPanel)
        ensures
            p.wf(),
            !p.visible,
            p.active_tab == 0,
            p.scroll == 0,
            p.theme == theme,
            p.patterns@.len() == 0,
            p.anomalies@.len() == 0,
    {
        AnalyticsPanel { visible: false, active_tab: 0, scroll: 0, theme, patterns: Vec::new(), anomalies: Vec::new() }
    }

    /// Whether the overlay is shown.
    pub fn is_visible(&self) -> (b: bool)
        ensures
            b == self.visible,
    {
        self.visible
    }

    /// Show or hide the overlay; showing starts at the top.
    pub fn toggle(&mut self)
        ensures
            *final(self) == (AnalyticsPanel {
                visible: !old(self).visible,
                scroll: if !old(self).visible { 0 } else { old(self).scroll },
                ..*old(self)
            }),
    {
        self.visible = !self.visible;
        if self.visible {
            self.scroll = 0;
        }
    }

    /// Set the detected patterns.
    pub fn set_patterns(&mut self, patterns: Vec<PatternInfo>)
        ensures
            *final(self) == (AnalyticsPanel { patterns: patterns, ..*old(self) }),
    {
        self.patterns = patterns;
    }

    /// Set the detected anomalies.
    pub fn set_anomalies(&mut self, anomalies: Vec<AnomalyInfo>)
        ensures
            *final(self) == (AnalyticsPanel { anomalies: anomalies, ..*old(self) }),
    {
        self.anomalies = anomalies;
    }

    /// Show the next tab, from the top.
    pub fn next_tab(&mut self)
        requires
            old(self).wf(),
        ensures
            final(self).wf(),
            *final(self) == (AnalyticsPanel { active_tab: next_tab_of(old(self).active_tab), scroll: 0, ..*old(self) }),
    {
        self.active_tab = (self.active_tab + 1) % TAB_COUNT;
        self.scroll = 0;
    }

    /// Show the previous tab, from the top.
    pub fn prev_tab(&mut self)
        requires
            old(self).wf(),
        ensures
            final(self).wf(),
            *final(self) == (AnalyticsPanel { active_tab: prev_tab_of(old(self).active_tab), scroll: 0, ..*old(self) }),
    {
        self.active_tab = if self.active_tab == 0 { TAB_COUNT - 1 } else { self.active_tab - 1 };
        self.scroll = 0;
    }

    /// Show tab `tab`, from the top; a tab past the last changes nothing.
    pub fn go_to_tab(&mut self, tab: usize)
        requires
            old(self).wf(),
        ensures
            final(self).wf(),
            *final(self) == (if tab < TAB_COUNT {
                AnalyticsPanel { active_tab: tab, scroll: 0, ..*old(self) }
            } else {
                *old(self)
            }),
    {
        if tab < TAB_COUNT {
            self.active_tab = tab;
            self.scroll = 0;
        }
    }

    /// Handle a key while shown (a hidden overlay does not handle keys):
    /// Esc closes; Tab, `l` and Right go to the next tab, BackTab, `h` and
    /// Left to the previous one, `1` to `5` to that tab; `j`/Down and
    /// `k`/Up scroll; other keys are swallowed.
    pub fn handle_key(&mut self, key: KeyPress) -> (r: Option<Action>)
        requires
            old(self).wf(),
        ensures
            final(self).wf(),
            ({
                let b = *old(self);
                let a = *final(self);
                let code = key.code;
                if !b.visible {
                    a == b && r is None
                } else {
                    r == Some(Action::Noop) && if code == Key::Esc {
                        a == (AnalyticsPanel { visible: false, ..b })
                    } else if code == Key::Tab || is_char(code, 'l') || code == Key::Right {
                        a == (AnalyticsPanel { active_tab: next_tab_of(b.active_tab), scroll: 0, ..b })
                    } else if code == Key::BackTab || is_char(code, 'h') || code == Key::Left {
                        a == (AnalyticsPanel { active_tab: prev_tab_of(b.active_tab), scroll: 0, ..b })
                    } else if is_char(code, '1') || is_char(code, '2') || is_char(code, '3') || is_char(code, '4')
                        || is_char(code, '5') {
                        a == (AnalyticsPanel { active_tab: digit_tab(code), scroll: 0, ..b })
                    } else if is_char(code, 'j') || code == Key::Down {
                        a == (AnalyticsPanel { scroll: if b.scroll < u16::MAX { (b.scroll + 1) as u16 } else { u16::MAX }, ..b })
                    } else if is_char(code, 'k') || code == Key::Up {
                        a == (AnalyticsPanel { scroll: if b.scroll > 0 { (b.scroll - 1) as u16 } else { 0 }, ..b })
                    } else {
                        a == b
                    }
                }
            }),
    {
        if !self.visible {
            return None;
        }
        match key.code {
            Key::Esc => {
                self.visible = false;
            },
            Key::Tab | Key::Char('l') | Key::Right => self.next_tab(),
            Key::BackTab | Key::Char('h') | Key::Left => self.prev_tab(),
            Key::Char('1') => self.go_to_tab(0),
            Key::Char('2') => self.go_to_tab(1),
            Key::Char('3') => self.go_to_tab(2),
            Key::Char('4') => self.go_to_tab(3),
            Key::Char('5') => self.go_to_tab(4),
            Key::Char('j') | Key::Down => {
                self.scroll = self.scroll.saturating_add(1);
            },
            Key::Char('k') | Key::Up => {
                self.scroll = self.scroll.saturating_sub(1);
            },
            _ => {},
        }
        Some(Action::Noop)
    }
}

/// Stepping to the next tab and back shows the same tab, and five steps
/// forward come back to the start.
pub proof fn law_tab_cycle(t: usize)
    requires
        t < TAB_COUNT,
    ensures
        prev_tab_of(next_tab_of(t)) == t,
        next_tab_of(prev_tab_of(t)) == t,
        next_tab_of(next_tab_of(next_tab_of(next_tab_of(next_tab_of(t))))) == t,
{
}

/// `s` cut to at most `max_len` characters: when it is longer, its first
/// `max_len - 3` characters followed by three dots (only the dots when
/// `max_len` is under 3).
pub open spec fn dotted(s: Seq<char>, max_len: nat) -> Seq<char> {
    if s.len() <= max_len {
        s
    } else {
        s.take(if max_len >= 3 { max_len - 3 } else { 0 }) + "..."@
    }
}

/// `s` cut to at most `max_len` characters, ending in `...` when cut (see
/// [`dotted`]); the panel's tables cut their text this way.
pub fn truncate(s: &str, max_len: usize) -> (r: String)
    ensures
        r@ == dotted(s@, max_len as nat),
{
    let chars = chars_of(s);
    if chars.len() <= max_len {
        string_from_range(&chars, 0, chars.len())
    } else {
        let keep = if max_len >= 3 { max_len - 3 } else { 0 };
        let mut r = string_from_range(&chars, 0, keep);
        r.append("...");
        assert(chars@.subrange(0, chars@.len() as int) == s@);
        assert(chars@.subrange(0, keep as int) == s@.take(keep as int));
        r
    }
}

/// A cut text keeps within `max_len` characters from 3 on, and what it keeps
/// of `s` is a prefix.
pub proof fn law_dotted_fits(s: Seq<char>, max_len: nat)
    requires
        max_len >= 3,
    ensures
        dotted(s, max_len).len() <= max_len,
        s.len() > max_len ==> dotted(s, max_len).take(max_len - 3) == s.take(max_len - 3),
{
    reveal_strlit("...");
    if s.len() > max_len {
        assert(dotted(s, max_len).take(max_len - 3) =~= s.take(max_len - 3));
    }
}

} // verus!
