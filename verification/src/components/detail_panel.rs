//! The detail panel: shows one log entry in full, and syntax-colors the
//! lines of pretty-printed JSON it displays.

use vstd::prelude::*;
use crate::action::Action;
use crate::keymap::{Key, KeyPress, is_char};
use crate::log_entry::{rfc3339_text, LogEntry};
use crate::components::trace_waterfall::opt_view;
use crate::text::{
    char_width, char_width_of, chars_of, count_leading_space, leading_space, split_lines, string_from_chars,
    string_from_range, string_views, text_lines, trim_start,
};
use crate::theme::{Color, Theme};

verus! {

/// A piece of a colored JSON line: its text and its foreground color
/// (`None` for text drawn unstyled).
#[derive(Debug)]
pub struct JsonSpan {
    /// The text.
    pub text: String,
    /// The foreground color, if styled.
    pub color: Option<Color>,
}

/// A piece of a colored JSON line, as characters.
pub struct SpanModel {
    /// The text.
    pub text: Seq<char>,
    /// The foreground color, if styled.
    pub color: Option<Color>,
}

/// The characters of JSON structure.
pub open spec fn is_structural(c: char) -> bool {
    c == '{' || c == '}' || c == '[' || c == ']' || c == ',' || c == ':'
}

/// The characters that end a bare token (number, boolean, null).
pub open spec fn ends_bare_token(c: char) -> bool {
    c == ',' || c == '}' || c == ']' || c == ' ' || c == ':' || c == '"'
}

/// Where a quoted string whose body starts at `p` ends (just past its
/// closing quote, or at the end of `s`); a backslash skips the character
/// after it. May lie one past the end when `s` ends inside an escape.
pub open spec fn string_end(s: Seq<char>, p: int) -> int
    decreases s.len() + 1 - p,
{
    if p >= s.len() {
        p
    } else if s[p] == '\\' {
        string_end(s, p + 2)
    } else if s[p] == '"' {
        p + 1
    } else {
        string_end(s, p + 1)
    }
}

/// The end of the run of characters from `p` that satisfy `f`.
pub open spec fn run_end(s: Seq<char>, p: int, f: spec_fn(char) -> bool) -> int
    decreases s.len() - p,
{
    if p < 0 || p >= s.len() || !f(s[p]) {
        p
    } else {
        run_end(s, p + 1, f)
    }
}

/// The color of a bare token: magenta for `true`, `false` and `null`,
/// yellow when it starts like a number, the default color otherwise.
pub open spec fn bare_color(t: Seq<char>) -> Color {
    if t == "true"@ || t == "false"@ || t == "null"@ {
        Color::Magenta
    } else if t.len() > 0 && (('0' <= t[0] && t[0] <= '9') || t[0] == '-') {
        Color::Yellow
    } else {
        Color::Reset
    }
}

/// The colored pieces of `s` from position `p`: quoted strings (cyan when a
/// colon follows, so a key, else green), runs of structure and spaces
/// (unstyled), runs of spaces (unstyled) and bare tokens. `None` when a
/// string ends inside an escape at the very end of `s`.
pub open spec fn json_tokens(s: Seq<char>, p: int) -> Option<Seq<SpanModel>>
    decreases s.len() - p, 0int,
{
    if p < 0 || p >= s.len() {
        Some(Seq::empty())
    } else if s[p] == '"' {
        let e = string_end(s, p + 1);
        proof {
            lemma_string_end_ge(s, p + 1);
        }
        if e > s.len() {
            None
        } else {
            let q = run_end(s, e, |c: char| c == ' ');
            let color = if q < s.len() && s[q] == ':' { Color::Cyan } else { Color::Green };
            match json_tokens(s, e) {
                Some(rest) => Some(seq![SpanModel { text: s.subrange(p, e), color: Some(color) }] + rest),
                None => None,
            }
        }
    } else if is_structural(s[p]) {
        let e = run_end(s, p, |c: char| is_structural(c) || c == ' ');
        proof {
            lemma_run_end(s, p, |c: char| is_structural(c) || c == ' ');
        }
        match json_tokens(s, e) {
            Some(rest) => Some(seq![SpanModel { text: s.subrange(p, e), color: None }] + rest),
            None => None,
        }
    } else if s[p] == ' ' {
        let e = run_end(s, p, |c: char| c == ' ');
        proof {
            lemma_run_end(s, p, |c: char| c == ' ');
        }
        match json_tokens(s, e) {
            Some(rest) => Some(seq![SpanModel { text: s.subrange(p, e), color: None }] + rest),
            None => None,
        }
    } else {
        let e = run_end(s, p, |c: char| !ends_bare_token(c));
        proof {
            lemma_run_end(s, p, |c: char| !ends_bare_token(c));
        }
        let t = s.subrange(p, e);
        match json_tokens(s, e) {
            Some(rest) => Some(seq![SpanModel { text: t, color: Some(bare_color(t)) }] + rest),
            None => None,
        }
    }
}

/// A string that starts at `p` ends at `p` or later.
pub proof fn lemma_string_end_ge(s: Seq<char>, p: int)
    ensures
        string_end(s, p) >= p,
    decreases s.len() + 1 - p,
{
    if p < s.len() {
        if s[p] == '\\' {
            lemma_string_end_ge(s, p + 2);
        } else if s[p] != '"' {
            lemma_string_end_ge(s, p + 1);
        }
    }
}

/// A run ends at or after its start, past it when the first character is
/// in the run, and never past the end of `s`.
pub proof fn lemma_run_end(s: Seq<char>, p: int, f: spec_fn(char) -> bool)
    ensures
        run_end(s, p, f) >= p,
        0 <= p < s.len() && f(s[p]) ==> run_end(s, p, f) > p,
        0 <= p <= s.len() ==> run_end(s, p, f) <= s.len(),
        forall|k: int| p <= k < run_end(s, p, f) ==> f(#[trigger] s[k]),
        0 <= p <= s.len() && run_end(s, p, f) < s.len() ==> !f(s[run_end(s, p, f)]),
    decreases s.len() - p,
{
    if 0 <= p < s.len() && f(s[p]) {
        lemma_run_end(s, p + 1, f);
    }
}

/// The characters and colors of a list of spans.
pub open spec fn span_views(v: Seq<JsonSpan>) -> Seq<SpanModel> {
    Seq::new(v.len(), |i: int| SpanModel { text: v[i].text@, color: v[i].color })
}

/// The colored pieces of one line of pretty-printed JSON, after the
/// caller's indentation: that indentation and the line's own leading
/// white space (each when not empty, unstyled), then the pieces of the
/// rest. `None` when a string ends inside an escape at the end of the line.
pub open spec fn colorized(line: Seq<char>, indent: Seq<char>) -> Option<Seq<SpanModel>> {
    let pre = if indent.len() > 0 { seq![SpanModel { text: indent, color: None }] } else { Seq::empty() };
    let lw = leading_space(line);
    let ws = if lw > 0 { seq![SpanModel { text: line.take(lw as int), color: None }] } else { Seq::empty() };
    let rest = trim_start(line);
    if rest.len() == 0 {
        Some(pre + ws)
    } else {
        match json_tokens(rest, 0) {
            Some(t) => Some(pre + ws + t),
            None => None,
        }
    }
}

/// Where the quoted string whose body starts at `p` ends, unless it ends
/// inside an escape past the end of `v`.
fn string_end_exec(v: &Vec<char>, p: usize) -> (r: Option<usize>)
    requires
        p <= v@.len(),
    ensures
        match r {
            Some(e) => e == string_end(v@, p as int) && e <= v@.len(),
            None => string_end(v@, p as int) > v@.len(),
        },
{
    let n = v.len();
    let mut q = p;
    while q < n
        invariant
            n == v@.len(),
            p <= q <= n,
            string_end(v@, q as int) == string_end(v@, p as int),
        decreases n - q,
    {
        if v[q] == '\\' {
            if q + 1 >= n {
                assert(string_end(v@, q + 2) == q + 2);
                return None;
            }
            q = q + 2;
        } else if v[q] == '"' {
            return Some(q + 1);
        } else {
            q = q + 1;
        }
    }
    Some(q)
}

/// The end of the run of spaces from `p`.
fn spaces_end(v: &Vec<char>, p: usize) -> (e: usize)
    requires
        p <= v@.len(),
    ensures
        e == run_end(v@, p as int, |c: char| c == ' '),
{
    let mut q = p;
    while q < v.len() && v[q] == ' '
        invariant
            p <= q <= v@.len(),
            run_end(v@, q as int, |c: char| c == ' ') == run_end(v@, p as int, |c: char| c == ' '),
        decreases v@.len() - q,
    {
        q = q + 1;
    }
    q
}

/// The end of the run of structure and spaces from `p`.
fn structure_end(v: &Vec<char>, p: usize) -> (e: usize)
    requires
        p <= v@.len(),
    ensures
        e == run_end(v@, p as int, |c: char| is_structural(c) || c == ' '),
{
    let mut q = p;
    while q < v.len() && (is_structural_char(v[q]) || v[q] == ' ')
        invariant
            p <= q <= v@.len(),
            run_end(v@, q as int, |c: char| is_structural(c) || c == ' ') == run_end(
                v@,
                p as int,
                |c: char| is_structural(c) || c == ' ',
            ),
        decreases v@.len() - q,
    {
        q = q + 1;
    }
    q
}

/// The end of the bare token from `p`.
fn bare_end(v: &Vec<char>, p: usize) -> (e: usize)
    requires
        p <= v@.len(),
    ensures
        e == run_end(v@, p as int, |c: char| !ends_bare_token(c)),
{
    let mut q = p;
    while q < v.len() && !ends_bare_token_char(v[q])
        invariant
            p <= q <= v@.len(),
            run_end(v@, q as int, |c: char| !ends_bare_token(c)) == run_end(
                v@,
                p as int,
                |c: char| !ends_bare_token(c),
            ),
        decreases v@.len() - q,
    {
        q = q + 1;
    }
    q
}

/// Whether `c` is a character of JSON structure.
fn is_structural_char(c: char) -> (b: bool)
    ensures
        b == is_structural(c),
{
    c == '{' || c == '}' || c == '[' || c == ']' || c == ',' || c == ':'
}

/// Whether `c` ends a bare token.
fn ends_bare_token_char(c: char) -> (b: bool)
    ensures
        b == ends_bare_token(c),
{
    c == ',' || c == '}' || c == ']' || c == ' ' || c == ':' || c == '"'
}

/// The color of the bare token `t`.
fn bare_token_color(t: &Vec<char>) -> (c: Color)
    ensures
        c == bare_color(t@),
{
    let s = string_from_range(t, 0, t.len());
    assert(t@.subrange(0, t@.len() as int) =~= t@);
    if crate::text::str_eq(s.as_str(), "true") || crate::text::str_eq(s.as_str(), "false")
        || crate::text::str_eq(s.as_str(), "null") {
        Color::Magenta
    } else if t.len() > 0 && (('0' <= t[0] && t[0] <= '9') || t[0] == '-') {
        Color::Yellow
    } else {
        Color::Reset
    }
}

/// Whether [`colorize_json_line`] accepts `line`: no string in it ends
/// inside an escape at the very end.
pub fn can_colorize(line: &str) -> (b: bool)
    ensures
        b == (json_tokens(trim_start(line@), 0) is Some),
{
    let v = chars_of(line);
    let lead = count_leading_space(&v, 0, v.len());
    let rest = crate::text::slice_chars(&v, lead, v.len());
    assert(v@.subrange(0, v@.len() as int) =~= v@);
    assert(rest@ == trim_start(line@));
    json_scan(&rest).is_some()
}

/// The colored pieces of `v` (`None` as for `json_tokens`).
fn json_scan(v: &Vec<char>) -> (r: Option<Vec<JsonSpan>>)
    ensures
        match r {
            Some(spans) => json_tokens(v@, 0) == Some(span_views(spans@)),
            None => json_tokens(v@, 0) is None,
        },
{
    let mut spans: Vec<JsonSpan> = Vec::new();
    let mut p: usize = 0;
    while p < v.len()
        invariant
            p <= v@.len(),
            match json_tokens(v@, p as int) {
                Some(rest) => json_tokens(v@, 0) == Some(span_views(spans@) + rest),
                None => json_tokens(v@, 0) is None,
            },
        decreases v@.len() - p,
    {
        let ghost before = span_views(spans@);
        let c = v[p];
        let e: usize;
        if c == '"' {
            let end = match string_end_exec(v, p + 1) {
                Some(end) => end,
                None => {
                    return None;
                },
            };
            proof {
                lemma_string_end_ge(v@, p + 1);
            }
            let q = spaces_end(v, end);
            let color = if q < v.len() && v[q] == ':' { Color::Cyan } else { Color::Green };
            let text = string_from_range(v, p, end);
            spans.push(JsonSpan { text, color: Some(color) });
            e = end;
        } else if is_structural_char(c) {
            let end = structure_end(v, p);
            proof {
                lemma_run_end(v@, p as int, |c: char| is_structural(c) || c == ' ');
            }
            let text = string_from_range(v, p, end);
            spans.push(JsonSpan { text, color: None });
            e = end;
        } else if c == ' ' {
            let end = spaces_end(v, p);
            proof {
                lemma_run_end(v@, p as int, |c: char| c == ' ');
            }
            let text = string_from_range(v, p, end);
            spans.push(JsonSpan { text, color: None });
            e = end;
        } else {
            let end = bare_end(v, p);
            proof {
                lemma_run_end(v@, p as int, |c: char| !ends_bare_token(c));
            }
            let token = crate::text::slice_chars(v, p, end);
            let color = bare_token_color(&token);
            let text = string_from_range(v, p, end);
            spans.push(JsonSpan { text, color: Some(color) });
            e = end;
        }
        proof {
            assert(span_views(spans@) =~= before + seq![span_views(spans@).last()]);
            match json_tokens(v@, e as int) {
                Some(rest) => {
                    assert(span_views(spans@) + rest =~= before + (seq![span_views(spans@).last()] + rest));
                },
                None => {},
            }
        }
        p = e;
    }
    assert(span_views(spans@) + Seq::<SpanModel>::empty() =~= span_views(spans@));
    Some(spans)
}

/// Color one line of pretty-printed JSON: keys cyan, string values green,
/// numbers yellow, `true`/`false`/`null` magenta, structure unstyled,
/// after the caller's indentation.
pub fn colorize_json_line(line: &str, indent_prefix: &str) -> (r: Vec<JsonSpan>)
    requires
        json_tokens(trim_start(line@), 0) is Some,
    ensures
        colorized(line@, indent_prefix@) == Some(span_views(r@)),
{
    let mut spans: Vec<JsonSpan> = Vec::new();
    let indent = chars_of(indent_prefix);
    if indent.len() > 0 {
        spans.push(JsonSpan { text: string_from_range(&indent, 0, indent.len()), color: None });
        assert(indent@.subrange(0, indent@.len() as int) =~= indent@);
    }
    let v = chars_of(line);
    let lead = count_leading_space(&v, 0, v.len());
    assert(v@.subrange(0, v@.len() as int) =~= v@);
    if lead > 0 {
        spans.push(JsonSpan { text: string_from_range(&v, 0, lead), color: None });
    }
    let ghost head = span_views(spans@);
    let rest = crate::text::slice_chars(&v, lead, v.len());
    assert(rest@ == trim_start(line@));
    if rest.len() == 0 {
        assert(head =~= colorized(line@, indent_prefix@)->0);
        return spans;
    }
    match json_scan(&rest) {
        Some(mut more) => {
            let ghost tail = span_views(more@);
            spans.append(&mut more);
            assert(span_views(spans@) =~= head + tail);
            assert(colorized(line@, indent_prefix@) == Some(head + tail));
            spans
        },
        None => spans,
    }
}


/// How a piece of the detail panel is drawn.
#[derive(Debug, Clone, Copy, PartialEq, Eq, Structural)]
pub enum SpanStyle {
    /// Unstyled.
    Plain,
    /// Bold.
    Bold,
    /// A section heading: bold and underlined.
    Heading,
    /// In the theme's accent color.
    Accent,
    /// Dimmed.
    Dimmed,
    /// In the given color (colored JSON).
    Colored(Color),
}

/// A piece of a line of the detail panel.
#[derive(Debug)]
pub struct DetailSpan {
    /// The text.
    pub text: String,
    /// How it is drawn.
    pub style: SpanStyle,
}

/// A piece of a line of the detail panel, as characters.
pub struct DetailSpanModel {
    /// The text.
    pub text: Seq<char>,
    /// How it is drawn.
    pub style: SpanStyle,
}

/// The piece with text `text` drawn as `style`.
pub open spec fn dspan(text: Seq<char>, style: SpanStyle) -> DetailSpanModel {
    DetailSpanModel { text, style }
}

/// The pieces of one line, as characters.
pub open spec fn detail_span_views(v: Seq<DetailSpan>) -> Seq<DetailSpanModel> {
    Seq::new(v.len(), |i: int| dspan(v[i].text@, v[i].style))
}

/// The lines of the panel, as characters.
pub open spec fn line_views(v: Seq<Vec<DetailSpan>>) -> Seq<Seq<DetailSpanModel>> {
    Seq::new(v.len(), |i: int| detail_span_views(v[i]@))
}

/// The style of a piece of colored JSON.
pub open spec fn json_style(c: Option<Color>) -> SpanStyle {
    match c {
        Some(k) => SpanStyle::Colored(k),
        None => SpanStyle::Plain,
    }
}

/// Colored JSON pieces as panel pieces.
pub open spec fn styled_json(v: Seq<SpanModel>) -> Seq<DetailSpanModel> {
    Seq::new(v.len(), |i: int| dspan(v[i].text, json_style(v[i].color)))
}

/// One line of pretty-printed JSON after `indent`: colored (see
/// [`colorized`]), or as plain text when the colorizer refuses it.
pub open spec fn json_line_model(line: Seq<char>, indent: Seq<char>) -> Seq<DetailSpanModel> {
    match colorized(line, indent) {
        Some(spans) => styled_json(spans),
        None => seq![dspan(indent + line, SpanStyle::Plain)],
    }
}

/// Lines of pretty-printed JSON, each colored after `indent`.
pub open spec fn json_block(lines: Seq<Seq<char>>, indent: Seq<char>) -> Seq<Seq<DetailSpanModel>> {
    Seq::new(lines.len(), |i: int| json_line_model(lines[i], indent))
}

/// Lines of text, each as plain text after `indent`.
pub open spec fn plain_block(lines: Seq<Seq<char>>, indent: Seq<char>) -> Seq<Seq<DetailSpanModel>> {
    Seq::new(lines.len(), |i: int| seq![dspan(indent + lines[i], SpanStyle::Plain)])
}

/// Whether a field's value is nested JSON: it starts with `{` or `[`.
pub open spec fn opens_nested(v: Seq<char>) -> bool {
    v.len() > 0 && (v[0] == '{' || v[0] == '[')
}

/// The lines of one structured field: `key: value` on one line, or, for a
/// nested value, the key on its own line followed by the value
/// pretty-printed and colored (`pretty`), or by its own lines when it is
/// not JSON (`pretty` is `None`).
pub open spec fn field_model(key: Seq<char>, value: Seq<char>, pretty: Option<Seq<char>>) -> Seq<Seq<DetailSpanModel>> {
    let head = dspan("  "@ + key + ": "@, SpanStyle::Accent);
    if opens_nested(value) {
        seq![seq![head]] + match pretty {
            Some(p) => json_block(text_lines(p), "    "@),
            None => plain_block(text_lines(value), "    "@),
        }
    } else {
        seq![seq![head, dspan(value, SpanStyle::Plain)]]
    }
}

/// The lines of the structured fields, in order; a nested value is
/// pretty-printed as `serde_json` does it.
pub open spec fn fields_model(fs: Seq<(String, String)>) -> Seq<Seq<DetailSpanModel>>
    decreases fs.len(),
{
    if fs.len() == 0 {
        seq![]
    } else {
        fields_model(fs.drop_last()) + field_model(fs.last().0@, fs.last().1@, json_pretty_text(fs.last().1@))
    }
}

/// The lines of the raw JSON record: pretty-printed and colored
/// (`pretty`), or its own lines as plain text when it is not JSON.
pub open spec fn raw_model(raw: Seq<char>, pretty: Option<Seq<char>>) -> Seq<Seq<DetailSpanModel>> {
    match pretty {
        Some(p) => json_block(text_lines(p), "  "@),
        None => plain_block(text_lines(raw), "  "@),
    }
}

/// The message's chunks from a chunk that starts at `start`, scanning from
/// `i` with `used` bytes taken: a chunk grows while the UTF-8 bytes of its
/// characters fit in `size`.
pub open spec fn chunks_from(s: Seq<char>, size: int, start: int, i: int, used: int) -> Seq<Seq<char>>
    decreases s.len() - i,
{
    if i >= s.len() {
        if start < s.len() {
            seq![s.subrange(start, s.len() as int)]
        } else {
            seq![]
        }
    } else if used + char_width(s[i]) <= size {
        chunks_from(s, size, start, i + 1, used + char_width(s[i]))
    } else {
        seq![s.subrange(start, i)] + chunks_from(s, size, i, i + 1, char_width(s[i]) as int)
    }
}

/// `s` cut into chunks of at most `size` UTF-8 bytes each, at character
/// boundaries, each as long as it can be.
pub open spec fn message_chunks(s: Seq<char>, size: nat) -> Seq<Seq<char>> {
    chunks_from(s, size as int, 0, 0, 0)
}

/// The chunks from `start`, joined, are the message from `start`.
proof fn lemma_chunks_from_join(s: Seq<char>, size: int, start: int, i: int, used: int)
    requires
        0 <= start <= i <= s.len(),
    ensures
        chunks_from(s, size, start, i, used).flatten() == s.subrange(start, s.len() as int),
    decreases s.len() - i,
{
    if i >= s.len() {
        if start < s.len() {
            let one = seq![s.subrange(start, s.len() as int)];
            assert(one.drop_first() =~= Seq::<Seq<char>>::empty());
            assert(one.drop_first().flatten() =~= Seq::<char>::empty());
            assert(one.first() + Seq::<char>::empty() =~= one.first());
            assert(one.flatten() =~= s.subrange(start, s.len() as int));
        } else {
            assert(s.subrange(start, s.len() as int) =~= Seq::<char>::empty());
        }
    } else if used + char_width(s[i]) <= size {
        lemma_chunks_from_join(s, size, start, i + 1, used + char_width(s[i]));
    } else {
        let rest = chunks_from(s, size, i, i + 1, char_width(s[i]) as int);
        lemma_chunks_from_join(s, size, i, i + 1, char_width(s[i]) as int);
        let all = seq![s.subrange(start, i)] + rest;
        assert(all.drop_first() =~= rest);
        assert(all.flatten() =~= s.subrange(start, i) + s.subrange(i, s.len() as int));
        assert(s.subrange(start, i) + s.subrange(i, s.len() as int) =~= s.subrange(start, s.len() as int));
    }
}

/// The panel shows the whole message: its chunks, joined, are the message.
pub proof fn law_message_chunks_join(s: Seq<char>, size: nat)
    ensures
        message_chunks(s, size).flatten() == s,
{
    lemma_chunks_from_join(s, size as int, 0, 0, 0);
    assert(s.subrange(0, s.len() as int) =~= s);
}

/// The message lines: each chunk after two spaces.
pub open spec fn chunk_block(cs: Seq<Seq<char>>) -> Seq<Seq<DetailSpanModel>> {
    plain_block(cs, "  "@)
}

/// The bytes of a message chunk in a panel `width` columns wide: the width
/// less the borders and the margin (none when the panel is narrower).
pub open spec fn chunk_size(width: int) -> nat {
    if width > 4 { (width - 4) as nat } else { 0 }
}

/// Whether every character of `s` fits alone in a chunk of `size` bytes.
pub open spec fn chunkable(s: Seq<char>, size: nat) -> bool {
    forall|k: int| 0 <= k < s.len() ==> char_width(#[trigger] s[k]) <= size
}

/// A heading line, set off by empty lines.
pub open spec fn section(title: Seq<char>) -> Seq<Seq<DetailSpanModel>> {
    seq![seq![], seq![dspan(title, SpanStyle::Heading)], seq![]]
}

/// The key hint at the bottom of the panel.
pub open spec fn close_hint() -> Seq<char> {
    "  [Esc/Enter to close, j/k to scroll]"@
}

/// The lines of the detail panel for `entry` in a panel `width` columns
/// wide, with the entry's structured fields when its line has them: the
/// timestamp, the labels, the message cut into chunks that fit the panel,
/// the structured fields, the raw record pretty-printed, and the key hint.
pub open spec fn detail_model(entry: LogEntry, width: int, fields: Option<Vec<(String, String)>>) -> Seq<Seq<DetailSpanModel>> {
    let size = chunk_size(width);
    let stamp = rfc3339_text(entry.timestamp.spec_secs(), entry.timestamp.spec_nanos());
    let head = seq![
        seq![dspan("Timestamp: "@, SpanStyle::Bold), dspan(stamp, SpanStyle::Plain)],
        seq![],
        seq![dspan("Labels"@, SpanStyle::Heading)],
        seq![],
    ];
    let labels = Seq::new(
        entry.labels@.len(),
        |i: int| seq![dspan("  "@ + entry.labels@[i].0@ + ": "@, SpanStyle::Accent), dspan(entry.labels@[i].1@, SpanStyle::Plain)],
    );
    let message = section("Message"@) + if size > 0 { chunk_block(message_chunks(entry.line@, size)) } else { seq![] };
    let structured = match fields {
        Some(fs) => section("Structured Fields"@) + fields_model(fs@),
        None => seq![],
    };
    let raw = match entry.raw {
        Some(r) => section("Raw JSON"@) + raw_model(r@, json_pretty_text(r@)),
        None => seq![],
    };
    head + labels + message + structured + raw + seq![seq![], seq![dspan(close_hint(), SpanStyle::Dimmed)]]
}

/// What `serde_json` gives for `text` read as a JSON value and written
/// back pretty-printed; `None` when it does not read.
pub uninterp spec fn json_pretty_text(text: Seq<char>) -> Option<Seq<char>>;

/// Calls `serde_json::from_str` for a `serde_json::Value`, then
/// `serde_json::to_string_pretty` on it; `None` when either fails. The
/// contract names the result and says no more of it.
#[verifier::external_body]
pub(crate) fn json_pretty(text: &str) -> (r: Option<String>)
    ensures
        opt_view(r) == json_pretty_text(text@),
{
    match serde_json::from_str::<serde_json::Value>(text) {
        Ok(v) => serde_json::to_string_pretty(&v).ok(),
        Err(_) => None,
    }
}

/// `prefix` followed by `body`.
fn prefixed(prefix: &str, body: &str) -> (r: String)
    ensures
        r@ == prefix@ + body@,
{
    let mut v = chars_of(prefix);
    let mut b = chars_of(body);
    v.append(&mut b);
    string_from_chars(&v)
}

/// Append one line to the panel's lines.
fn push_line(out: &mut Vec<Vec<DetailSpan>>, line: Vec<DetailSpan>)
    ensures
        line_views(final(out)@) == line_views(old(out)@).push(detail_span_views(line@)),
{
    let ghost before = line_views(out@);
    out.push(line);
    assert(line_views(out@) =~= before.push(detail_span_views(line@)));
}

/// Append lines to the panel's lines.
fn push_lines(out: &mut Vec<Vec<DetailSpan>>, more: Vec<Vec<DetailSpan>>)
    ensures
        line_views(final(out)@) == line_views(old(out)@) + line_views(more@),
{
    let ghost before = line_views(out@);
    let ghost added = line_views(more@);
    let mut more = more;
    out.append(&mut more);
    assert(line_views(out@) =~= before + added);
}

/// A line of one piece.
fn one_span(text: String, style: SpanStyle) -> (r: Vec<DetailSpan>)
    ensures
        detail_span_views(r@) == seq![dspan(text@, style)],
{
    let mut v: Vec<DetailSpan> = Vec::new();
    v.push(DetailSpan { text, style });
    assert(detail_span_views(v@) =~= seq![dspan(text@, style)]);
    v
}

/// A line of two pieces.
fn two_spans(a: String, sa: SpanStyle, b: String, sb: SpanStyle) -> (r: Vec<DetailSpan>)
    ensures
        detail_span_views(r@) == seq![dspan(a@, sa), dspan(b@, sb)],
{
    let mut v: Vec<DetailSpan> = Vec::new();
    v.push(DetailSpan { text: a, style: sa });
    v.push(DetailSpan { text: b, style: sb });
    assert(detail_span_views(v@) =~= seq![dspan(a@, sa), dspan(b@, sb)]);
    v
}

/// Push an empty line, a heading and another empty line.
fn push_section(out: &mut Vec<Vec<DetailSpan>>, title: &str)
    ensures
        line_views(final(out)@) == line_views(old(out)@) + section(title@),
{
    let ghost before = line_views(out@);
    let e1: Vec<DetailSpan> = Vec::new();
    assert(detail_span_views(e1@) =~= Seq::<DetailSpanModel>::empty());
    push_line(out, e1);
    push_line(out, one_span(String::from_str(title), SpanStyle::Heading));
    let e2: Vec<DetailSpan> = Vec::new();
    assert(detail_span_views(e2@) =~= Seq::<DetailSpanModel>::empty());
    push_line(out, e2);
    assert(line_views(out@) =~= before + section(title@));
}

/// One line of pretty-printed JSON after `indent`, colored when the
/// colorizer takes it.
fn json_line(line: &str, indent: &str) -> (r: Vec<DetailSpan>)
    ensures
        detail_span_views(r@) == json_line_model(line@, indent@),
{
    if can_colorize(line) {
        let spans = colorize_json_line(line, indent);
        let mut out: Vec<DetailSpan> = Vec::new();
        let mut i: usize = 0;
        while i < spans.len()
            invariant
                i <= spans@.len(),
                detail_span_views(out@) == styled_json(span_views(spans@)).take(i as int),
            decreases spans@.len() - i,
        {
            let style = match spans[i].color {
                Some(c) => SpanStyle::Colored(c),
                None => SpanStyle::Plain,
            };
            let ghost before = detail_span_views(out@);
            let text = spans[i].text.clone();
            assert(style == json_style(spans@[i as int].color));
            assert(text@ == spans@[i as int].text@);
            out.push(DetailSpan { text, style });
            assert(detail_span_views(out@) =~= before.push(dspan(text@, style)));
            assert(styled_json(span_views(spans@)).take(i + 1) =~= styled_json(span_views(spans@)).take(
                i as int,
            ).push(styled_json(span_views(spans@))[i as int]));
            assert(detail_span_views(out@) =~= styled_json(span_views(spans@)).take(i + 1));
            i += 1;
        }
        assert(styled_json(span_views(spans@)).take(spans@.len() as int) =~= styled_json(span_views(spans@)));
        out
    } else {
        assert(json_tokens(Seq::<char>::empty(), 0) is Some);
        one_span(prefixed(indent, line), SpanStyle::Plain)
    }
}

/// Lines of pretty-printed JSON, each colored after `indent`.
fn json_lines(lines: &Vec<String>, indent: &str) -> (r: Vec<Vec<DetailSpan>>)
    ensures
        line_views(r@) == json_block(string_views(lines@), indent@),
{
    let mut out: Vec<Vec<DetailSpan>> = Vec::new();
    let mut i: usize = 0;
    while i < lines.len()
        invariant
            i <= lines@.len(),
            line_views(out@) == json_block(string_views(lines@), indent@).take(i as int),
        decreases lines@.len() - i,
    {
        push_line(&mut out, json_line(lines[i].as_str(), indent));
        assert(line_views(out@) =~= json_block(string_views(lines@), indent@).take(i + 1));
        i += 1;
    }
    assert(json_block(string_views(lines@), indent@).take(lines@.len() as int) =~= json_block(
        string_views(lines@),
        indent@,
    ));
    out
}

/// Lines of text, each as plain text after `indent`.
fn plain_lines(lines: &Vec<String>, indent: &str) -> (r: Vec<Vec<DetailSpan>>)
    ensures
        line_views(r@) == plain_block(string_views(lines@), indent@),
{
    let mut out: Vec<Vec<DetailSpan>> = Vec::new();
    let mut i: usize = 0;
    while i < lines.len()
        invariant
            i <= lines@.len(),
            line_views(out@) == plain_block(string_views(lines@), indent@).take(i as int),
        decreases lines@.len() - i,
    {
        push_line(&mut out, one_span(prefixed(indent, lines[i].as_str()), SpanStyle::Plain));
        assert(line_views(out@) =~= plain_block(string_views(lines@), indent@).take(i + 1));
        i += 1;
    }
    assert(plain_block(string_views(lines@), indent@).take(lines@.len() as int) =~= plain_block(
        string_views(lines@),
        indent@,
    ));
    out
}

/// The lines of one structured field, given what `serde_json` made of its
/// value pretty-printed (`pretty`, `None` when it is not JSON).
pub fn field_lines(key: &str, value: &str, pretty: Option<String>) -> (r: Vec<Vec<DetailSpan>>)
    ensures
        line_views(r@) == field_model(key@, value@, opt_view(pretty)),
{
    let head_text = key_text(key);
    let vc = chars_of(value);
    let mut out: Vec<Vec<DetailSpan>> = Vec::new();
    if vc.len() > 0 && (vc[0] == '{' || vc[0] == '[') {
        push_line(&mut out, one_span(head_text, SpanStyle::Accent));
        match pretty {
            Some(p) => {
                let ls = split_lines(p.as_str());
                push_lines(&mut out, json_lines(&ls, "    "));
            },
            None => {
                let ls = split_lines(value);
                push_lines(&mut out, plain_lines(&ls, "    "));
            },
        }
    } else {
        push_line(&mut out, two_spans(head_text, SpanStyle::Accent, String::from_str(value), SpanStyle::Plain));
    }
    out
}

/// The lines of the raw JSON record, given what `serde_json` made of it
/// pretty-printed (`pretty`, `None` when it is not JSON).
pub fn raw_lines(raw: &str, pretty: Option<String>) -> (r: Vec<Vec<DetailSpan>>)
    ensures
        line_views(r@) == raw_model(raw@, opt_view(pretty)),
{
    match pretty {
        Some(p) => {
            let ls = split_lines(p.as_str());
            json_lines(&ls, "  ")
        },
        None => {
            let ls = split_lines(raw);
            plain_lines(&ls, "  ")
        },
    }
}

/// The message cut into chunks of at most `size` UTF-8 bytes, each chunk a
/// line after two spaces.
fn chunk_lines(line: &str, size: usize) -> (r: Vec<Vec<DetailSpan>>)
    requires
        size > 0,
        chunkable(line@, size as nat),
    ensures
        line_views(r@) == chunk_block(message_chunks(line@, size as nat)),
{
    let v = chars_of(line);
    let mut out: Vec<Vec<DetailSpan>> = Vec::new();
    let mut start: usize = 0;
    let mut i: usize = 0;
    let mut used: usize = 0;
    while i < v.len()
        invariant
            v@ == line@,
            start <= i <= v@.len(),
            used <= size,
            chunkable(v@, size as nat),
            chunk_block(message_chunks(v@, size as nat)) == line_views(out@) + chunk_block(
                chunks_from(v@, size as int, start as int, i as int, used as int),
            ),
        decreases v@.len() - i,
    {
        let w = char_width_of(v[i]);
        assert(char_width(v@[i as int]) <= size);
        if w <= size - used {
            used = used + w;
        } else {
            let piece = string_from_range(&v, start, i);
            let ghost before = line_views(out@);
            let ghost rest = chunks_from(v@, size as int, i as int, i + 1, w as int);
            push_line(&mut out, one_span(prefixed("  ", piece.as_str()), SpanStyle::Plain));
            assert(chunk_block(seq![v@.subrange(start as int, i as int)] + rest) =~= seq![
                seq![dspan("  "@ + v@.subrange(start as int, i as int), SpanStyle::Plain)]
            ] + chunk_block(rest));
            assert(before + (seq![seq![dspan("  "@ + v@.subrange(start as int, i as int), SpanStyle::Plain)]]
                + chunk_block(rest)) =~= line_views(out@) + chunk_block(rest));
            start = i;
            used = w;
        }
        i += 1;
    }
    if start < v.len() {
        let piece = string_from_range(&v, start, v.len());
        let ghost before = line_views(out@);
        push_line(&mut out, one_span(prefixed("  ", piece.as_str()), SpanStyle::Plain));
        assert(chunk_block(seq![v@.subrange(start as int, v@.len() as int)]) =~= seq![
            seq![dspan("  "@ + v@.subrange(start as int, v@.len() as int), SpanStyle::Plain)]
        ]);
    } else {
        assert(chunk_block(Seq::<Seq<char>>::empty()) =~= Seq::<Seq<DetailSpanModel>>::empty());
        assert(line_views(out@) + Seq::<Seq<DetailSpanModel>>::empty() =~= line_views(out@));
    }
    out
}


/// `key` as the panel shows it before a value: indented, with a colon.
fn key_text(key: &str) -> (r: String)
    ensures
        r@ == "  "@ + key@ + ": "@,
{
    let mut head = chars_of("  ");
    let mut kc = chars_of(key);
    head.append(&mut kc);
    let mut colon = chars_of(": ");
    head.append(&mut colon);
    string_from_chars(&head)
}

/// The width of the detail panel on a screen `area_width` columns wide:
/// three fifths of the screen, at least 40 columns, and at most the screen
/// less 4 columns.
pub fn panel_width(area_width: u16) -> (w: u16)
    requires
        area_width * 3 <= u16::MAX,
    ensures
        ({
            let part = area_width * 3 / 5;
            let lo = if part > 40 { part } else { 40 };
            let hi = if area_width > 4 { area_width - 4 } else { 0 };
            w == if lo < hi { lo } else { hi }
        }),
{
    let part = area_width * 3 / 5;
    let lo = if part > 40 { part } else { 40 };
    let hi = area_width.saturating_sub(4);
    if lo < hi { lo } else { hi }
}

/// The lines of the detail panel for `entry` in a panel `width` columns
/// wide, given the structured fields of its line when it has them. Nested
/// field values and the raw record are pretty-printed by `serde_json`.
pub fn detail_lines(entry: &LogEntry, width: usize, fields: Option<Vec<(String, String)>>) -> (lines: Vec<Vec<DetailSpan>>)
    requires
        chunk_size(width as int) == 0 || chunkable(entry.line@, chunk_size(width as int)),
    ensures
        line_views(lines@) == detail_model(*entry, width as int, fields),
{
    let ghost model = detail_model(*entry, width as int, fields);
    let mut out: Vec<Vec<DetailSpan>> = Vec::new();
    let stamp = entry.timestamp.to_rfc3339();
    push_line(&mut out, two_spans(String::from_str("Timestamp: "), SpanStyle::Bold, stamp, SpanStyle::Plain));
    let e1: Vec<DetailSpan> = Vec::new();
    assert(detail_span_views(e1@) =~= Seq::<DetailSpanModel>::empty());
    push_line(&mut out, e1);
    push_line(&mut out, one_span(String::from_str("Labels"), SpanStyle::Heading));
    let e2: Vec<DetailSpan> = Vec::new();
    assert(detail_span_views(e2@) =~= Seq::<DetailSpanModel>::empty());
    push_line(&mut out, e2);
    let ghost head = line_views(out@);
    let ghost labels = Seq::new(
        entry.labels@.len(),
        |i: int| seq![dspan("  "@ + entry.labels@[i].0@ + ": "@, SpanStyle::Accent), dspan(entry.labels@[i].1@, SpanStyle::Plain)],
    );
    let mut i: usize = 0;
    while i < entry.labels.len()
        invariant
            i <= entry.labels@.len(),
            labels.len() == entry.labels@.len(),
            forall|k: int| 0 <= k < labels.len() ==> #[trigger] labels[k] == seq![dspan("  "@ + entry.labels@[k].0@ + ": "@, SpanStyle::Accent), dspan(entry.labels@[k].1@, SpanStyle::Plain)],
            line_views(out@) == head + labels.take(i as int),
        decreases entry.labels@.len() - i,
    {
        let k = key_text(entry.labels[i].0.as_str());
        let v = entry.labels[i].1.clone();
        push_line(&mut out, two_spans(k, SpanStyle::Accent, v, SpanStyle::Plain));
        assert(labels.take(i + 1) =~= labels.take(i as int).push(labels[i as int]));
        assert(line_views(out@) =~= head + labels.take(i + 1));
        i += 1;
    }
    assert(labels.take(i as int) =~= labels);
    push_section(&mut out, "Message");
    let size = if width > 4 { width - 4 } else { 0 };
    if size > 0 {
        push_lines(&mut out, chunk_lines(entry.line.as_str(), size));
    }
    match &fields {
        Some(fs) => {
            push_section(&mut out, "Structured Fields");
            let ghost before = line_views(out@);
            let mut j: usize = 0;
            while j < fs.len()
                invariant
                    j <= fs@.len(),
                    line_views(out@) == before + fields_model(fs@.take(j as int)),
                decreases fs@.len() - j,
            {
                let key = fs[j].0.as_str();
                let value = fs[j].1.as_str();
                let vc = chars_of(value);
                let pretty = if vc.len() > 0 && (vc[0] == '{' || vc[0] == '[') {
                    json_pretty(value)
                } else {
                    None
                };
                let more = field_lines(key, value, pretty);
                assert(line_views(more@) == field_model(key@, value@, json_pretty_text(value@)));
                push_lines(&mut out, more);
                assert(fs@.take(j + 1).drop_last() =~= fs@.take(j as int));
                assert(line_views(out@) =~= before + fields_model(fs@.take(j + 1)));
                j += 1;
            }
            assert(fs@.take(j as int) =~= fs@);
        },
        None => {},
    }
    match &entry.raw {
        Some(r) => {
            push_section(&mut out, "Raw JSON");
            let pretty = json_pretty(r.as_str());
            push_lines(&mut out, raw_lines(r.as_str(), pretty));
        },
        None => {},
    }
    let e3: Vec<DetailSpan> = Vec::new();
    assert(detail_span_views(e3@) =~= Seq::<DetailSpanModel>::empty());
    push_line(&mut out, e3);
    push_line(&mut out, one_span(String::from_str("  [Esc/Enter to close, j/k to scroll]"), SpanStyle::Dimmed));
    assert(line_views(out@) =~= model);
    out
}

/// The detail panel's state.
pub struct DetailPanel {
    /// Whether the panel is shown.
    pub visible: bool,
    /// The entry being inspected.
    pub entry: Option<LogEntry>,
    /// Lines scrolled past the top.
    pub scroll: u16,
    /// The color theme.
    pub theme: Theme,
}

impl DetailPanel {
    /// A hidden panel.
    pub fn new(theme: Theme) -> (p: DetailPanel)
        ensures
            !p.visible,
            p.entry is None,
            p.scroll == 0,
            p.theme == theme,
    {
        DetailPanel { visible: false, entry: None, scroll: 0, theme }
    }

    /// Whether the panel is shown.
    pub fn is_visible(&self) -> (b: bool)
        ensures
            b == self.visible,
    {
        self.visible
    }

    /// Close the panel when it is shown; otherwise show `entry`, if there is
    /// one, from the top.
    pub fn toggle(&mut self, entry: Option<LogEntry>)
        ensures
            old(self).visible ==> *final(self) == (DetailPanel { visible: false, entry: None, scroll: 0, ..*old(self) }),
            !old(self).visible ==> *final(self) == (if entry is Some {
                DetailPanel { visible: true, entry: entry, scroll: 0, ..*old(self) }
            } else {
                *old(self)
            }),
    {
        if self.visible {
            self.visible = false;
            self.entry = None;
            self.scroll = 0;
        } else if entry.is_some() {
            self.visible = true;
            self.entry = entry;
            self.scroll = 0;
        }
    }

    /// Scroll one line down (saturating).
    pub fn scroll_down(&mut self)
        ensures
            *final(self) == (DetailPanel {
                scroll: if old(self).scroll < u16::MAX { (old(self).scroll + 1) as u16 } else { u16::MAX },
                ..*old(self)
            }),
    {
        self.scroll = self.scroll.saturating_add(1);
    }

    /// Scroll one line up (saturating).
    pub fn scroll_up(&mut self)
        ensures
            *final(self) == (DetailPanel {
                scroll: if old(self).scroll > 0 { (old(self).scroll - 1) as u16 } else { 0 },
                ..*old(self)
            }),
    {
        self.scroll = self.scroll.saturating_sub(1);
    }

    /// Handle a key while the panel is shown: Esc or Enter close it, `j`/Down
    /// and `k`/Up scroll, and every other key is swallowed. A hidden panel
    /// does not handle keys.
    pub fn handle_key(&mut self, key: KeyPress) -> (r: Option<Action>)
        ensures
            !old(self).visible ==> *final(self) == *old(self) && r is None,
            old(self).visible ==> r == Some(Action::Noop),
            old(self).visible && (key.code == Key::Esc || key.code == Key::Enter) ==> *final(self) == (DetailPanel {
                visible: false,
                entry: None,
                scroll: 0,
                ..*old(self)
            }),
            old(self).visible && (is_char(key.code, 'j') || key.code == Key::Down) ==> *final(self) == (DetailPanel {
                scroll: if old(self).scroll < u16::MAX { (old(self).scroll + 1) as u16 } else { u16::MAX },
                ..*old(self)
            }),
            old(self).visible && (is_char(key.code, 'k') || key.code == Key::Up) ==> *final(self) == (DetailPanel {
                scroll: if old(self).scroll > 0 { (old(self).scroll - 1) as u16 } else { 0 },
                ..*old(self)
            }),
            old(self).visible && !(key.code == Key::Esc || key.code == Key::Enter || is_char(key.code, 'j')
                || key.code == Key::Down || is_char(key.code, 'k') || key.code == Key::Up) ==> *final(self) == *old(self),
    {
        if !self.visible {
            return None;
        }
        match key.code {
            Key::Esc | Key::Enter => {
                self.visible = false;
                self.entry = None;
                self.scroll = 0;
            },
            Key::Char('j') | Key::Down => self.scroll_down(),
            Key::Char('k') | Key::Up => self.scroll_up(),
            _ => {},
        }
        Some(Action::Noop)
    }
}

} // verus!
