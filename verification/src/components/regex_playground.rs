//! The regex playground: a pattern tried live against the log lines,
//! showing which lines match and what the capture groups hold.

use vstd::prelude::*;
use crate::action::Action;
use crate::components::input::{InputState, input_edited};
use crate::keymap::{Key, KeyPress};
use crate::pattern::{capture_names, captures, compile, regex_capture_names, regex_captures,
    regex_compiles, regex_error_text};
use crate::text::{byte_len, char_to_byte_offset, char_width, char_width_of, chars_of, decimal,
    decimal_string, string_from_range};
use crate::theme::Theme;

verus! {

/// Most matching lines kept.
pub const MAX_MATCHES: usize = 500;

/// A matching line.
#[derive(Debug)]
pub struct RegexMatch {
    /// Its position among the lines.
    pub entry_idx: usize,
    /// The line.
    pub line: String,
    /// The byte range of the whole match, then of each group that took
    /// part in it.
    pub match_ranges: Vec<(usize, usize)>,
    /// Each group that took part: its name (or number) and its text.
    pub captures: Vec<(String, String)>,
}

/// A matching line, as characters.
pub struct MatchModel {
    /// Its position among the lines.
    pub entry_idx: int,
    /// The line.
    pub line: Seq<char>,
    /// The byte ranges of the whole match and the groups that took part.
    pub ranges: Seq<(usize, usize)>,
    /// The groups that took part, named or numbered, with their text.
    pub captures: Seq<(Seq<char>, Seq<char>)>,
}

/// The ranges of the groups `i..` that took part in the match.
pub open spec fn group_ranges(caps: Seq<Option<(usize, usize, Seq<char>)>>, i: int) -> Seq<(usize, usize)>
    decreases caps.len() - i,
{
    if i < 0 || i >= caps.len() {
        Seq::empty()
    } else {
        match caps[i] {
            Some((a, b, _)) => seq![(a, b)] + group_ranges(caps, i + 1),
            None => group_ranges(caps, i + 1),
        }
    }
}

/// The named (or numbered) groups `i..` that took part in the match, with
/// their text.
pub open spec fn named_groups(caps: Seq<Option<(usize, usize, Seq<char>)>>, names: Seq<Option<Seq<char>>>, i: int) -> Seq<(Seq<char>, Seq<char>)>
    decreases names.len() - i,
{
    if i < 0 || i >= names.len() {
        Seq::empty()
    } else if i < caps.len() && caps[i] is Some {
        let name = match names[i] {
            Some(n) => n,
            None => decimal(i as nat),
        };
        seq![(name, (caps[i]->0).2)] + named_groups(caps, names, i + 1)
    } else {
        named_groups(caps, names, i + 1)
    }
}

/// What line `idx` holding `line` shows for `pattern`, if it matches.
pub open spec fn match_of(pattern: Seq<char>, line: Seq<char>, idx: int) -> Option<MatchModel> {
    let caps = regex_captures(pattern, line);
    if caps.len() == 0 {
        None
    } else {
        let all = caps[0]->0;
        Some(MatchModel {
            entry_idx: idx,
            line,
            ranges: seq![(all.0, all.1)] + group_ranges(caps, 1),
            captures: named_groups(caps, regex_capture_names(pattern), 1),
        })
    }
}

/// The matches among the first `k` lines, in order.
pub open spec fn all_matches(pattern: Seq<char>, lines: Seq<String>, k: int) -> Seq<MatchModel>
    decreases k,
{
    if k <= 0 {
        Seq::empty()
    } else {
        let rest = all_matches(pattern, lines, k - 1);
        match match_of(pattern, lines[k - 1]@, k - 1) {
            Some(m) => rest.push(m),
            None => rest,
        }
    }
}

/// The matches as characters.
pub open spec fn match_views(v: Seq<RegexMatch>) -> Seq<MatchModel> {
    Seq::new(
        v.len(),
        |i: int|
            MatchModel {
                entry_idx: v[i].entry_idx as int,
                line: v[i].line@,
                ranges: v[i].match_ranges@,
                captures: Seq::new(v[i].captures@.len(), |j: int| (v[i].captures@[j].0@, v[i].captures@[j].1@)),
            },
    )
}

/// The playground's state.
pub struct RegexPlayground {
    /// Whether the playground is shown.
    pub visible: bool,
    /// The color theme.
    pub theme: Theme,
    /// The pattern being typed.
    pub input: InputState,
    /// Whether `regex` accepts the pattern.
    pub is_valid: bool,
    /// Why `regex` refuses the pattern.
    pub error_msg: String,
    /// The matching lines, at most [`MAX_MATCHES`].
    pub matches: Vec<RegexMatch>,
    /// Number of lines tried.
    pub total_entries: usize,
    /// Lines scrolled past the top.
    pub scroll: u16,
    /// The lines tried.
    pub lines: Vec<String>,
}

/// `after` is `before` with the pattern tried against the lines: an empty
/// pattern matches nothing; a pattern `regex` refuses records its message;
/// otherwise the first [`MAX_MATCHES`] matching lines are kept.
pub open spec fn evaluated(before: RegexPlayground, after: RegexPlayground) -> bool {
    let p = before.input.spec_value();
    let all = all_matches(p, before.lines@, before.lines@.len() as int);
    &&& after == (RegexPlayground {
        matches: after.matches,
        scroll: 0,
        is_valid: after.is_valid,
        error_msg: after.error_msg,
        ..before
    })
    &&& if p.len() == 0 {
        after.is_valid && after.error_msg@.len() == 0 && after.matches@.len() == 0
    } else if !regex_compiles(p) {
        !after.is_valid && after.error_msg@ == regex_error_text(p) && after.matches@.len() == 0
    } else {
        after.is_valid && after.error_msg@.len() == 0 && match_views(after.matches@) == all.take(
            if all.len() < MAX_MATCHES { all.len() as int } else { MAX_MATCHES as int },
        )
    }
}

impl RegexPlayground {
    /// A hidden playground with an empty pattern and no lines.
    pub fn new(theme: Theme) -> (p: RegexPlayground)
        ensures
            !p.visible,
            p.theme == theme,
            p.input.spec_value().len() == 0,
            p.is_valid,
            p.error_msg@.len() == 0,
            p.matches@.len() == 0,
            p.total_entries == 0,
            p.scroll == 0,
            p.lines@.len() == 0,
    {
        RegexPlayground {
            visible: false,
            theme,
            input: InputState::empty(),
            is_valid: true,
            error_msg: String::new(),
            matches: Vec::new(),
            total_entries: 0,
            scroll: 0,
            lines: Vec::new(),
        }
    }

    /// Whether the playground is shown.
    pub fn is_visible(&self) -> (b: bool)
        ensures
            b == self.visible,
    {
        self.visible
    }

    /// Show or hide the playground; showing starts afresh with an empty
    /// pattern.
    pub fn toggle(&mut self)
        ensures
            final(self).visible == !old(self).visible,
            !old(self).visible ==> {
                &&& final(self).scroll == 0
                &&& final(self).input.spec_value().len() == 0
                &&& final(self).is_valid
                &&& final(self).error_msg@.len() == 0
                &&& final(self).matches@.len() == 0
                &&& *final(self) == (RegexPlayground {
                    visible: true,
                    scroll: 0,
                    input: final(self).input,
                    is_valid: true,
                    error_msg: final(self).error_msg,
                    matches: final(self).matches,
                    ..*old(self)
                })
            },
            old(self).visible ==> *final(self) == (RegexPlayground { visible: false, ..*old(self) }),
    {
        self.visible = !self.visible;
        if self.visible {
            self.scroll = 0;
            self.input = InputState::empty();
            self.is_valid = true;
            self.error_msg = String::new();
            self.matches = Vec::new();
        }
    }

    /// Set the lines to try the pattern against.
    pub fn set_lines(&mut self, lines: Vec<String>)
        ensures
            *final(self) == (RegexPlayground { total_entries: lines@.len() as usize, lines: lines, ..*old(self) }),
    {
        self.total_entries = lines.len();
        self.lines = lines;
    }

    /// Try the pattern against the lines (see [`evaluated`]).
    pub fn evaluate(&mut self)
        ensures
            evaluated(*old(self), *final(self)),
    {
        self.matches = Vec::new();
        self.scroll = 0;
        let pattern = self.input.value().to_string();
        if pattern.as_str().unicode_len() == 0 {
            self.is_valid = true;
            self.error_msg = String::new();
            return;
        }
        let re = match compile(pattern.as_str()) {
            Ok(r) => {
                self.is_valid = true;
                self.error_msg = String::new();
                r
            },
            Err(e) => {
                self.is_valid = false;
                self.error_msg = e;
                return;
            },
        };
        let names = capture_names(&re);
        let ghost all = all_matches(pattern@, self.lines@, self.lines@.len() as int);
        let mut found: Vec<RegexMatch> = Vec::new();
        let mut idx: usize = 0;
        while idx < self.lines.len() && found.len() < MAX_MATCHES
            invariant
                idx <= self.lines@.len(),
                found@.len() <= MAX_MATCHES,
                re.spec_source() == pattern@,
                crate::pattern::optional_views(names@) == regex_capture_names(pattern@),
                match_views(found@) == all_matches(pattern@, self.lines@, idx as int),
            decreases self.lines@.len() - idx,
        {
            let caps = captures(&re, self.lines[idx].as_str());
            let ghost before = match_views(found@);
            if caps.len() > 0 {
                let overall = match &caps[0] {
                    Some((a, b, _)) => (*a, *b),
                    None => (0, 0),
                };
                let mut ranges: Vec<(usize, usize)> = Vec::new();
                ranges.push(overall);
                let more = collect_ranges(&caps, 1);
                let mut more = more;
                let ghost head = ranges@;
                ranges.append(&mut more);
                let groups = collect_groups(&caps, &names, 1);
                let m = RegexMatch { entry_idx: idx, line: self.lines[idx].clone(), match_ranges: ranges, captures: groups };
                found.push(m);
                proof {
                    let sc = crate::pattern::string_captures(caps@);
                    assert(sc[0] == Some((overall.0, overall.1, (caps@[0]->0).2@)));
                    assert(match_views(found@) =~= before.push(match_views(found@).last()));
                }
            }
            idx += 1;
        }
        proof {
            lemma_matches_prefix(pattern@, self.lines@, idx as int, self.lines@.len() as int);
        }
        self.matches = found;
    }

    /// Handle a key while shown (a hidden playground does not handle keys):
    /// Esc closes; Enter closes and searches for the pattern (unless it is
    /// empty); Ctrl+Down and Ctrl+Up scroll by one line, PageDown and PageUp
    /// by ten; other keys edit the pattern, which is then tried again.
    pub fn handle_key(&mut self, key: KeyPress) -> (r: Option<Action>)
        ensures
            ({
                let b = *old(self);
                let a = *final(self);
                let code = key.code;
                let ctrl = key.modifiers.control;
                if !b.visible {
                    a == b && r is None
                } else if code == Key::Esc {
                    a == (RegexPlayground { visible: false, ..b }) && r == Some(Action::Noop)
                } else if code == Key::Enter {
                    a == (RegexPlayground { visible: false, ..b }) && if b.input.spec_value().len() == 0 {
                        r == Some(Action::Noop)
                    } else {
                        r matches Some(Action::SearchSubmit(t)) && t@ == b.input.spec_value()
                    }
                } else if code == Key::Down && ctrl {
                    a == (RegexPlayground { scroll: if b.scroll < u16::MAX { (b.scroll + 1) as u16 } else { u16::MAX }, ..b })
                        && r == Some(Action::Noop)
                } else if code == Key::Up && ctrl {
                    a == (RegexPlayground { scroll: if b.scroll > 0 { (b.scroll - 1) as u16 } else { 0 }, ..b })
                        && r == Some(Action::Noop)
                } else if code == Key::PageDown {
                    a == (RegexPlayground { scroll: if b.scroll <= u16::MAX - 10 { (b.scroll + 10) as u16 } else { u16::MAX }, ..b })
                        && r == Some(Action::Noop)
                } else if code == Key::PageUp {
                    a == (RegexPlayground { scroll: if b.scroll >= 10 { (b.scroll - 10) as u16 } else { 0 }, ..b })
                        && r == Some(Action::Noop)
                } else {
                    r == Some(Action::Noop) && exists|mid: RegexPlayground|
                        #![trigger mid.input]
                        mid == (RegexPlayground { input: mid.input, ..b }) && input_edited(b.input, mid.input, key)
                            && evaluated(mid, a)
                }
            }),
    {
        if !self.visible {
            return None;
        }
        match key.code {
            Key::Esc => {
                self.visible = false;
                Some(Action::Noop)
            },
            Key::Enter => {
                let term = self.input.value().to_string();
                self.visible = false;
                if term.as_str().unicode_len() == 0 {
                    Some(Action::Noop)
                } else {
                    Some(Action::SearchSubmit(term))
                }
            },
            Key::Down if key.modifiers.control => {
                self.scroll = self.scroll.saturating_add(1);
                Some(Action::Noop)
            },
            Key::Up if key.modifiers.control => {
                self.scroll = self.scroll.saturating_sub(1);
                Some(Action::Noop)
            },
            Key::PageDown => {
                self.scroll = self.scroll.saturating_add(10);
                Some(Action::Noop)
            },
            Key::PageUp => {
                self.scroll = self.scroll.saturating_sub(10);
                Some(Action::Noop)
            },
            _ => {
                self.input.handle_key(key);
                let ghost mid = *self;
                self.evaluate();
                assert(evaluated(mid, *self));
                Some(Action::Noop)
            },
        }
    }
}

/// Matches among a prefix of the lines begin the matches among all of them.
pub proof fn lemma_matches_prefix(p: Seq<char>, lines: Seq<String>, i: int, n: int)
    requires
        0 <= i <= n,
    ensures
        all_matches(p, lines, n).take(all_matches(p, lines, i).len() as int) == all_matches(p, lines, i),
        all_matches(p, lines, i).len() <= all_matches(p, lines, n).len(),
    decreases n - i,
{
    if i < n {
        lemma_matches_prefix(p, lines, i, n - 1);
        let a = all_matches(p, lines, n - 1);
        let b = all_matches(p, lines, n);
        assert(b.take(a.len() as int) =~= a);
        assert(b.take(all_matches(p, lines, i).len() as int) =~= a.take(all_matches(p, lines, i).len() as int));
    } else {
        assert(all_matches(p, lines, n).take(all_matches(p, lines, n).len() as int) =~= all_matches(p, lines, n));
    }
}

/// The ranges of the groups `i..` that took part in the match.
fn collect_ranges(caps: &Vec<Option<(usize, usize, String)>>, i: usize) -> (r: Vec<(usize, usize)>)
    ensures
        r@ == group_ranges(crate::pattern::string_captures(caps@), i as int),
{
    let ghost sc = crate::pattern::string_captures(caps@);
    let mut r: Vec<(usize, usize)> = Vec::new();
    let mut k = caps.len();
    if k < i {
        return r;
    }
    let mut acc: Vec<(usize, usize)> = Vec::new();
    while k > i
        invariant
            i <= k <= caps@.len(),
            sc == crate::pattern::string_captures(caps@),
            acc@ == group_ranges(sc, k as int).reverse(),
        decreases k - i,
    {
        k -= 1;
        match &caps[k] {
            Some((a, b, _)) => {
                acc.push((*a, *b));
                assert(acc@ =~= group_ranges(sc, k as int).reverse());
            },
            None => {
                assert(acc@ =~= group_ranges(sc, k as int).reverse());
            },
        }
    }
    while acc.len() > 0
        invariant
            r@ + acc@.reverse() == group_ranges(sc, i as int),
        decreases acc@.len(),
    {
        let ghost before = acc@;
        match acc.pop() {
            Some(x) => {
                r.push(x);
                assert(r@ + acc@.reverse() =~= group_ranges(sc, i as int));
            },
            None => {},
        }
    }
    assert(r@ + Seq::<(usize, usize)>::empty().reverse() =~= r@);
    r
}

/// The named (or numbered) groups `i..` that took part in the match.
fn collect_groups(caps: &Vec<Option<(usize, usize, String)>>, names: &Vec<Option<String>>, i: usize) -> (r: Vec<(String, String)>)
    ensures
        Seq::new(r@.len(), |j: int| (r@[j].0@, r@[j].1@)) == named_groups(
            crate::pattern::string_captures(caps@),
            crate::pattern::optional_views(names@),
            i as int,
        ),
{
    let ghost sc = crate::pattern::string_captures(caps@);
    let ghost nv = crate::pattern::optional_views(names@);
    let mut r: Vec<(String, String)> = Vec::new();
    let mut k: usize = i;
    if k > names.len() {
        return r;
    }
    while k < names.len()
        invariant
            i <= k <= names@.len(),
            sc == crate::pattern::string_captures(caps@),
            nv == crate::pattern::optional_views(names@),
            Seq::new(r@.len(), |j: int| (r@[j].0@, r@[j].1@)) + named_groups(sc, nv, k as int) == named_groups(sc, nv, i as int),
        decreases names@.len() - k,
    {
        let ghost before = Seq::new(r@.len(), |j: int| (r@[j].0@, r@[j].1@));
        if k < caps.len() {
            match &caps[k] {
                Some((_, _, text)) => {
                    let name = match &names[k] {
                        Some(n) => n.clone(),
                        None => decimal_string(k as u64),
                    };
                    r.push((name, text.clone()));
                    assert(Seq::new(r@.len(), |j: int| (r@[j].0@, r@[j].1@)) =~= before.push((r@.last().0@, r@.last().1@)));
                },
                None => {},
            }
        }
        k += 1;
    }
    assert(Seq::new(r@.len(), |j: int| (r@[j].0@, r@[j].1@)) + Seq::<(Seq<char>, Seq<char>)>::empty() =~= Seq::new(r@.len(), |j: int| (r@[j].0@, r@[j].1@)));
    r
}


/// The text and highlight mark of each piece.
pub open spec fn segment_views(v: Seq<(String, bool)>) -> Seq<(Seq<char>, bool)> {
    Seq::new(v.len(), |i: int| (v[i].0@, v[i].1))
}

/// Number of leading characters of `s` that fit in `b` bytes.
pub open spec fn chars_within(s: Seq<char>, b: int) -> nat
    decreases s.len(),
{
    if s.len() == 0 || char_width(s[0]) > b {
        0
    } else {
        1 + chars_within(s.drop_first(), b - char_width(s[0]))
    }
}

/// Number of leading characters of `s` needed to cover `b` bytes (all of
/// them when `s` is shorter).
pub open spec fn chars_to_reach(s: Seq<char>, b: int) -> nat
    decreases s.len(),
{
    if b <= 0 || s.len() == 0 {
        0
    } else {
        1 + chars_to_reach(s.drop_first(), b - char_width(s[0]))
    }
}

/// The pieces `line` is drawn in, each marked when highlighted: the first
/// match range (byte offsets, cut to the line, its start moved back and
/// its end moved forward to character boundaries) is highlighted; with no
/// range the whole line is plain.
pub open spec fn highlight_segments(line: Seq<char>, ranges: Seq<(usize, usize)>) -> Seq<(Seq<char>, bool)> {
    if ranges.len() == 0 {
        seq![(line, false)]
    } else {
        let total = byte_len(line) as int;
        let s = if (ranges[0].0 as int) < total { ranges[0].0 as int } else { total };
        let e = if (ranges[0].1 as int) < total { ranges[0].1 as int } else { total };
        let ks = chars_within(line, s) as int;
        let ke = chars_to_reach(line, e) as int;
        let before: Seq<(Seq<char>, bool)> = if ks > 0 { seq![(line.take(ks), false)] } else { seq![] };
        let hit: Seq<(Seq<char>, bool)> = if ks < ke { seq![(line.subrange(ks, ke), true)] } else { seq![] };
        let after: Seq<(Seq<char>, bool)> = if ke < line.len() { seq![(line.skip(ke), false)] } else { seq![] };
        before + hit + after
    }
}

proof fn lemma_chars_within_bound(s: Seq<char>, b: int)
    ensures
        chars_within(s, b) <= s.len(),
    decreases s.len(),
{
    if s.len() > 0 && char_width(s[0]) <= b {
        lemma_chars_within_bound(s.drop_first(), b - char_width(s[0]));
    }
}

proof fn lemma_chars_to_reach_bound(s: Seq<char>, b: int)
    ensures
        chars_to_reach(s, b) <= s.len(),
    decreases s.len(),
{
    if b > 0 && s.len() > 0 {
        lemma_chars_to_reach_bound(s.drop_first(), b - char_width(s[0]));
    }
}

/// The pieces of `line` as they are drawn (see [`highlight_segments`]).
pub fn highlight_parts(line: &str, ranges: &Vec<(usize, usize)>) -> (r: Vec<(String, bool)>)
    ensures
        segment_views(r@) == highlight_segments(line@, ranges@),
{
    let v = chars_of(line);
    let mut r: Vec<(String, bool)> = Vec::new();
    if ranges.len() == 0 {
        r.push((String::from_str(line), false));
        proof {
            assert(segment_views(r@) =~= seq![(line@, false)]);
        }
        return r;
    }
    let total = char_to_byte_offset(line, v.len());
    proof {
        assert(line@.take(line@.len() as int) == line@);
    }
    let (rs, re) = ranges[0];
    let sb = if rs < total { rs } else { total };
    let eb = if re < total { re } else { total };
    let mut ks: usize = 0;
    let mut left: usize = sb;
    proof {
        assert(v@.skip(0) == v@);
    }
    while ks < v.len() && char_width_of(v[ks]) <= left
        invariant
            ks <= v@.len(),
            v@ == line@,
            chars_within(line@, sb as int) == ks + chars_within(v@.skip(ks as int), left as int),
        decreases v@.len() - ks,
    {
        proof {
            assert(v@.skip(ks as int)[0] == v@[ks as int]);
            assert(v@.skip(ks as int).drop_first() == v@.skip(ks + 1));
        }
        left = left - char_width_of(v[ks]);
        ks += 1;
    }
    proof {
        if ks < v@.len() {
            assert(v@.skip(ks as int)[0] == v@[ks as int]);
        }
    }
    let mut ke: usize = 0;
    let mut need: usize = eb;
    while need > 0 && ke < v.len()
        invariant
            ke <= v@.len(),
            v@ == line@,
            chars_to_reach(line@, eb as int) == ke + chars_to_reach(v@.skip(ke as int), need as int),
        decreases v@.len() - ke,
    {
        proof {
            assert(v@.skip(ke as int)[0] == v@[ke as int]);
            assert(v@.skip(ke as int).drop_first() == v@.skip(ke + 1));
        }
        let w = char_width_of(v[ke]);
        let ghost old_need = need as int;
        need = if w >= need { 0 } else { need - w };
        proof {
            let t = v@.skip(ke as int);
            assert(chars_to_reach(t, old_need) == 1 + chars_to_reach(t.drop_first(), old_need - w));
            if w >= old_need {
                assert(chars_to_reach(t.drop_first(), old_need - w) == 0);
                assert(chars_to_reach(t.drop_first(), 0) == 0);
            }
        }
        ke += 1;
    }
    proof {
        lemma_chars_within_bound(line@, sb as int);
        lemma_chars_to_reach_bound(line@, eb as int);
    }
    if ks > 0 {
        r.push((string_from_range(&v, 0, ks), false));
    }
    if ks < ke {
        r.push((string_from_range(&v, ks, ke), true));
    }
    if ke < v.len() {
        r.push((string_from_range(&v, ke, v.len()), false));
    }
    proof {
        assert(v@.subrange(0, ks as int) == line@.take(ks as int));
        assert(v@.subrange(ke as int, v@.len() as int) == line@.skip(ke as int));
        assert(segment_views(r@) =~= highlight_segments(line@, ranges@));
    }
    r
}

} // verus!
