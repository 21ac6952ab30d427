//! The incident timeline: detected anomalies and marked incidents, newest
//! first.

use vstd::prelude::*;
use crate::action::Action;
use crate::keymap::{Key, KeyPress, is_char};
use crate::theme::{Color, Theme};

verus! {

/// How serious an incident is.
#[derive(Debug, Clone, Copy, PartialEq, Eq, Structural)]
pub enum IncidentSeverity {
    /// For information.
    Info,
    /// Worth a look.
    Warning,
    /// Needs action.
    Critical,
}

impl IncidentSeverity {
    /// The mark shown before an event of this severity in the list.
    pub fn icon(self) -> (s: &'static str)
        ensures
            s@ == match self {
                IncidentSeverity::Info => "i"@,
                IncidentSeverity::Warning => "!"@,
                IncidentSeverity::Critical => "X"@,
            },
    {
        match self {
            IncidentSeverity::Info => "i",
            IncidentSeverity::Warning => "!",
            IncidentSeverity::Critical => "X",
        }
    }

    /// The severity's name in the event details.
    pub fn label(self) -> (s: &'static str)
        ensures
            s@ == match self {
                IncidentSeverity::Info => "INFO"@,
                IncidentSeverity::Warning => "WARNING"@,
                IncidentSeverity::Critical => "CRITICAL"@,
            },
    {
        match self {
            IncidentSeverity::Info => "INFO",
            IncidentSeverity::Warning => "WARNING",
            IncidentSeverity::Critical => "CRITICAL",
        }
    }

    /// The color the severity is drawn in.
    pub fn color(self) -> (c: Color)
        ensures
            c == match self {
                IncidentSeverity::Info => Color::Blue,
                IncidentSeverity::Warning => Color::Yellow,
                IncidentSeverity::Critical => Color::Red,
            },
    {
        match self {
            IncidentSeverity::Info => Color::Blue,
            IncidentSeverity::Warning => Color::Yellow,
            IncidentSeverity::Critical => Color::Red,
        }
    }
}

/// An event on the timeline.
#[derive(Debug, Clone)]
pub struct IncidentEvent {
    /// When it happened, as text.
    pub timestamp: String,
    /// When it happened, in seconds since the Unix epoch.
    pub unix_ts: i64,
    /// How serious it is.
    pub severity: IncidentSeverity,
    /// Its title.
    pub title: String,
    /// What happened.
    pub description: String,
    /// Where it was seen.
    pub source: String,
    /// Related entries.
    pub related_count: usize,
    /// Whether it was detected rather than marked.
    pub auto_detected: bool,
}

/// Whether events are ordered newest first.
pub open spec fn newest_first(v: Seq<IncidentEvent>) -> bool {
    forall|a: int, b: int| 0 <= a < b < v.len() ==> v[a].unix_ts >= v[b].unix_ts
}

/// Where a new event at time `ts` goes: after every event at least as
/// recent.
pub open spec fn insertion_point(v: Seq<IncidentEvent>, ts: i64) -> int
    decreases v.len(),
{
    if v.len() == 0 {
        0
    } else if v.last().unix_ts >= ts {
        v.len() as int
    } else {
        insertion_point(v.drop_last(), ts)
    }
}

/// The `%Y-%m-%d %H:%M:%S UTC` text chrono writes for the instant `secs`
/// seconds after the Unix epoch (whole seconds; the format shows no
/// fraction).
pub uninterp spec fn utc_text(secs: i64) -> Seq<char>;

/// The current UTC time: its `%Y-%m-%d %H:%M:%S UTC` text and its Unix
/// seconds (`chrono::Utc::now()`). The seconds are the clock's; the text is
/// the one written for those seconds.
#[verifier::external_body]
fn utc_now() -> (r: (String, i64))
    ensures
        r.0@ == utc_text(r.1),
{
    let now = chrono::Utc::now();
    (now.format("%Y-%m-%d %H:%M:%S UTC").to_string(), now.timestamp())
}

/// The timeline's state.
pub struct IncidentTimeline {
    /// Whether the timeline is shown.
    pub visible: bool,
    /// The color theme.
    pub theme: Theme,
    /// The events, newest first.
    pub events: Vec<IncidentEvent>,
    /// The highlighted event, if any.
    pub selected: Option<usize>,
    /// Whether the highlighted event's details are shown.
    pub detail_visible: bool,
}

impl IncidentTimeline {
    /// Events are newest first.
    pub open spec fn wf(&self) -> bool {
        newest_first(self.events@)
    }

    /// A hidden, empty timeline.
    pub fn new(theme: Theme) -> (t: IncidentTimeline)
        ensures
            t.wf(),
            !t.visible,
            t.theme == theme,
            t.events@.len() == 0,
            t.selected is None,
            !t.detail_visible,
    {
        IncidentTimeline { visible: false, theme, events: Vec::new(), selected: None, detail_visible: false }
    }

    /// Show or hide the timeline.
    pub fn toggle(&mut self)
        ensures
            *final(self) == (IncidentTimeline { visible: !old(self).visible, ..*old(self) }),
    {
        self.visible = !self.visible;
    }

    /// Whether the timeline is shown.
    pub fn is_visible(&self) -> (b: bool)
        ensures
            b == self.visible,
    {
        self.visible
    }

    /// Add an event in time order: after every event at least as recent.
    pub fn add_event(&mut self, event: IncidentEvent)
        requires
            old(self).wf(),
        ensures
            final(self).wf(),
            final(self).events@ == old(self).events@.insert(insertion_point(old(self).events@, event.unix_ts), event),
            *final(self) == (IncidentTimeline { events: final(self).events, ..*old(self) }),
    {
        let ghost v = self.events@;
        let mut p = self.events.len();
        assert(v.take(p as int) == v);
        while p > 0 && self.events[p - 1].unix_ts < event.unix_ts
            invariant
                p <= v.len(),
                self.events@ == v,
                newest_first(v),
                insertion_point(v, event.unix_ts) == insertion_point(v.take(p as int), event.unix_ts),
                forall|k: int| p <= k < v.len() ==> v[k].unix_ts < event.unix_ts,
            decreases p,
        {
            assert(v.take(p as int).drop_last() == v.take(p - 1));
            p -= 1;
        }
        proof {
            if p > 0 {
                assert(v.take(p as int).last() == v[p - 1]);
            }
        }
        let ts = event.unix_ts;
        self.events.insert(p, event);
        proof {
            let w = self.events@;
            assert forall|a: int, b: int| 0 <= a < b < w.len() implies w[a].unix_ts >= w[b].unix_ts by {
                if b < p {
                } else if b == p {
                    assert(v[a].unix_ts >= v[p - 1].unix_ts || a == p - 1);
                } else if a < p {
                    assert(w[b] == v[b - 1]);
                    if a < p - 1 {
                        assert(v[a].unix_ts >= v[p - 1].unix_ts);
                    }
                } else if a == p {
                    assert(w[b] == v[b - 1]);
                } else {
                    assert(w[a] == v[a - 1]);
                    assert(w[b] == v[b - 1]);
                }
            }
        }
    }

    /// Add a detected anomaly (a warning) to the timeline.
    pub fn add_anomaly(&mut self, timestamp: String, unix_ts: i64, description: String, source: String)
        requires
            old(self).wf(),
        ensures
            final(self).wf(),
            ({
                let p = insertion_point(old(self).events@, unix_ts);
                &&& final(self).events@.len() == old(self).events@.len() + 1
                &&& final(self).events@[p].unix_ts == unix_ts
                &&& final(self).events@[p].timestamp == timestamp
                &&& final(self).events@[p].severity == IncidentSeverity::Warning
                &&& final(self).events@[p].title@ == "Anomaly Detected"@
                &&& final(self).events@[p].description == description
                &&& final(self).events@[p].source == source
                &&& final(self).events@[p].related_count == 0
                &&& final(self).events@[p].auto_detected
                &&& final(self).events@ == old(self).events@.insert(p, final(self).events@[p])
            }),
    {
        proof {
            lemma_insertion_point_bounds(self.events@, unix_ts);
        }
        self.add_event(IncidentEvent {
            timestamp,
            unix_ts,
            severity: IncidentSeverity::Warning,
            title: String::from_str("Anomaly Detected"),
            description,
            source,
            related_count: 0,
            auto_detected: true,
        });
    }

    /// Add an incident marked by the user at the given time (a critical
    /// event from the user).
    pub fn mark_incident_at(&mut self, title: String, timestamp: String, unix_ts: i64)
        requires
            old(self).wf(),
        ensures
            final(self).wf(),
            ({
                let p = insertion_point(old(self).events@, unix_ts);
                &&& final(self).events@.len() == old(self).events@.len() + 1
                &&& final(self).events@[p].unix_ts == unix_ts
                &&& final(self).events@[p].timestamp == timestamp
                &&& final(self).events@[p].severity == IncidentSeverity::Critical
                &&& final(self).events@[p].title == title
                &&& final(self).events@[p].description@ == "Manually marked incident"@
                &&& final(self).events@[p].source@ == "user"@
                &&& final(self).events@[p].related_count == 0
                &&& !final(self).events@[p].auto_detected
                &&& final(self).events@ == old(self).events@.insert(p, final(self).events@[p])
            }),
    {
        proof {
            lemma_insertion_point_bounds(self.events@, unix_ts);
        }
        self.add_event(IncidentEvent {
            timestamp,
            unix_ts,
            severity: IncidentSeverity::Critical,
            title,
            description: String::from_str("Manually marked incident"),
            source: String::from_str("user"),
            related_count: 0,
            auto_detected: false,
        });
    }

    /// Add an incident marked by the user now. The time is the clock's.
    pub fn mark_incident(&mut self, title: String)
        requires
            old(self).wf(),
        ensures
            final(self).wf(),
            final(self).events@.len() == old(self).events@.len() + 1,
            exists|p: int|
                0 <= p < final(self).events@.len() && #[trigger] final(self).events@[p].title == title
                    && final(self).events@[p].severity == IncidentSeverity::Critical
                    && p == insertion_point(old(self).events@, final(self).events@[p].unix_ts)
                    && final(self).events@[p].timestamp@ == utc_text(final(self).events@[p].unix_ts)
                    && final(self).events@[p].description@ == "Manually marked incident"@
                    && final(self).events@[p].source@ == "user"@
                    && final(self).events@[p].related_count == 0
                    && !final(self).events@[p].auto_detected
                    && final(self).events@ == old(self).events@.insert(p, final(self).events@[p]),
    {
        let (text, ts) = utc_now();
        let ghost p = insertion_point(self.events@, ts);
        self.mark_incident_at(title, text, ts);
        proof {
            lemma_insertion_point_bounds(old(self).events@, ts);
            assert(self.events@[p].title == title);
        }
    }

    /// Remove every event and the highlight.
    pub fn clear(&mut self)
        ensures
            final(self).wf(),
            *final(self) == (IncidentTimeline { events: final(self).events, selected: None, ..*old(self) }),
            final(self).events@.len() == 0,
    {
        self.events = Vec::new();
        self.selected = None;
    }

    /// The highlighted event, if any.
    pub fn selected_event(&self) -> (r: Option<&IncidentEvent>)
        ensures
            match self.selected {
                Some(i) => if i < self.events@.len() { r == Some(&self.events@[i as int]) } else { r is None },
                None => r is None,
            },
    {
        match self.selected {
            Some(i) => if i < self.events.len() {
                Some(&self.events[i])
            } else {
                None
            },
            None => None,
        }
    }

    /// Handle a key: Esc or `I` close the details, or the timeline when no
    /// details are shown; `j`/Down and `k`/Up move the highlight; Enter
    /// shows or hides the details; `m` asks to mark an incident; `c` clears
    /// the timeline. Other keys are not handled.
    pub fn handle_key(&mut self, key: KeyPress) -> (r: Option<Action>)
        requires
            old(self).wf(),
        ensures
            final(self).wf(),
            ({
                let b = *old(self);
                let a = *final(self);
                let code = key.code;
                let len = b.events@.len();
                if code == Key::Esc || is_char(code, 'I') {
                    r == Some(Action::Noop) && a == (if b.detail_visible {
                        IncidentTimeline { detail_visible: false, ..b }
                    } else {
                        IncidentTimeline { visible: false, ..b }
                    })
                } else if is_char(code, 'j') || code == Key::Down {
                    r == Some(Action::Noop) && a == (if len == 0 {
                        b
                    } else {
                        IncidentTimeline {
                            selected: Some(match b.selected {
                                Some(i) => if i + 1 < len { (i + 1) as usize } else { (len - 1) as usize },
                                None => 0,
                            }),
                            ..b
                        }
                    })
                } else if is_char(code, 'k') || code == Key::Up {
                    r == Some(Action::Noop) && a == (IncidentTimeline {
                        selected: Some(match b.selected {
                            Some(i) => if i > 0 { (i - 1) as usize } else { 0 },
                            None => 0,
                        }),
                        ..b
                    })
                } else if code == Key::Enter {
                    r == Some(Action::Noop) && a == (IncidentTimeline { detail_visible: !b.detail_visible, ..b })
                } else if is_char(code, 'm') {
                    a == b && (r matches Some(Action::MarkIncident(t)) && t@ == "Manual incident mark"@)
                } else if is_char(code, 'c') {
                    r == Some(Action::Noop) && a == (IncidentTimeline { events: a.events, selected: None, ..b })
                        && a.events@.len() == 0
                } else {
                    a == b && r is None
                }
            }),
    {
        match key.code {
            Key::Esc | Key::Char('I') => {
                if self.detail_visible {
                    self.detail_visible = false;
                } else {
                    self.visible = false;
                }
                Some(Action::Noop)
            },
            Key::Char('j') | Key::Down => {
                let len = self.events.len();
                if len == 0 {
                    return Some(Action::Noop);
                }
                let next = match self.selected {
                    Some(i) => if i < len - 1 { i + 1 } else { len - 1 },
                    None => 0,
                };
                self.selected = Some(next);
                Some(Action::Noop)
            },
            Key::Char('k') | Key::Up => {
                let next = match self.selected {
                    Some(i) => i.saturating_sub(1),
                    None => 0,
                };
                self.selected = Some(next);
                Some(Action::Noop)
            },
            Key::Enter => {
                self.detail_visible = !self.detail_visible;
                Some(Action::Noop)
            },
            Key::Char('m') => Some(Action::MarkIncident(String::from_str("Manual incident mark"))),
            Key::Char('c') => {
                self.clear();
                Some(Action::Noop)
            },
            _ => None,
        }
    }
}

/// The insertion point lies within the list.
pub proof fn lemma_insertion_point_bounds(v: Seq<IncidentEvent>, ts: i64)
    ensures
        0 <= insertion_point(v, ts) <= v.len(),
    decreases v.len(),
{
    if v.len() > 0 && v.last().unix_ts < ts {
        lemma_insertion_point_bounds(v.drop_last(), ts);
    }
}

/// Adding an event keeps the timeline newest first, and the event is
/// there.
pub proof fn law_add_keeps_order(v: Seq<IncidentEvent>, e: IncidentEvent)
    requires
        newest_first(v),
    ensures
        newest_first(v.insert(insertion_point(v, e.unix_ts), e)),
        v.insert(insertion_point(v, e.unix_ts), e).contains(e),
{
    lemma_insertion_point_bounds(v, e.unix_ts);
    lemma_insertion_point_spot(v, e.unix_ts);
    let p = insertion_point(v, e.unix_ts);
    let w = v.insert(p, e);
    assert(w[p] == e);
    assert forall|a: int, b: int| 0 <= a < b < w.len() implies w[a].unix_ts >= w[b].unix_ts by {
        if b < p {
        } else if b == p {
            assert(w[a] == v[a]);
        } else if a < p {
            assert(w[b] == v[b - 1]);
            if a < p - 1 || true {
                assert(v[a].unix_ts >= e.unix_ts);
            }
        } else if a == p {
            assert(w[b] == v[b - 1]);
        } else {
            assert(w[a] == v[a - 1]);
            assert(w[b] == v[b - 1]);
        }
    }
}

/// Every event before the insertion point is at least as recent as `ts`,
/// every one from it on is older.
pub proof fn lemma_insertion_point_spot(v: Seq<IncidentEvent>, ts: i64)
    requires
        newest_first(v),
    ensures
        forall|k: int| 0 <= k < insertion_point(v, ts) ==> v[k].unix_ts >= ts,
        forall|k: int| insertion_point(v, ts) <= k < v.len() ==> v[k].unix_ts < ts,
    decreases v.len(),
{
    lemma_insertion_point_bounds(v, ts);
    if v.len() > 0 {
        if v.last().unix_ts >= ts {
            assert forall|k: int| 0 <= k < v.len() implies v[k].unix_ts >= ts by {
                if k < v.len() - 1 {
                    assert(v[k].unix_ts >= v[v.len() - 1].unix_ts);
                }
            }
        } else {
            let w = v.drop_last();
            assert(newest_first(w));
            lemma_insertion_point_spot(w, ts);
            lemma_insertion_point_bounds(w, ts);
            assert forall|k: int| 0 <= k < insertion_point(v, ts) implies v[k].unix_ts >= ts by {
                assert(v[k] == w[k]);
            }
            assert forall|k: int| insertion_point(v, ts) <= k < v.len() implies v[k].unix_ts < ts by {
                if k < v.len() - 1 {
                    assert(v[k] == w[k]);
                }
            }
        }
    }
}

} // verus!
