//! Natural-language query assistant: turns a plain English description of
//! the logs wanted ("errors from api service", "slow requests over 2
//! seconds") into a LogQL query by keyword heuristics, with an explanation
//! of each part of the query. For example:
//!
//! - "errors in the last hour" gives `{} |= "error"`;
//! - "show me 500 errors from api service" gives `{job="api"} |= "500"`;
//! - "slow requests over 2 seconds" gives `{} | json | duration > 2000`.

use vstd::prelude::*;
use crate::action::Action;
use crate::components::input::{InputState, input_edited};
use crate::keymap::{Key, KeyPress};
use crate::text::{
    byte_len, byte_len_of, byte_to_char_offset, char_at_byte, char_to_byte_offset, chars_of,
    contains_chars, decimal, decimal_string, find_first, first_occurrence, has_infix,
    is_char_boundary, is_char_offset, join_char_vecs, join_strings, join_words, lemma_char_at_byte,
    lemma_encode_concat, lowercase, occurs_at, slice_chars, split_words, str_eq,
    string_from_chars, string_from_range, string_views, to_lowercase, trim_start, trim_start_chars, words,
    char_vec_views,
};
use crate::theme::Theme;

verus! {

/// Whether `c` is alphabetic or numeric in the Unicode sense
/// (`char::is_alphanumeric`).
pub uninterp spec fn alphanumeric(c: char) -> bool;

/// `char::is_alphanumeric`. The contract names the result; the Unicode
/// tables are not restated.
#[verifier::external_body]
fn is_alphanumeric_char(c: char) -> (b: bool)
    ensures
        b == alphanumeric(c),
{
    c.is_alphanumeric()
}

/// Whether `c` is trimmed from the ends of a word: with `quotes`, a double
/// quote; otherwise anything but a letter, a digit, `-` or `_`.
pub open spec fn trimmed_char(c: char, quotes: bool) -> bool {
    if quotes {
        c == '"'
    } else {
        !alphanumeric(c) && c != '-' && c != '_'
    }
}

/// Number of leading characters of `s` that are trimmed.
pub open spec fn lead_trimmed(s: Seq<char>, quotes: bool) -> nat
    decreases s.len(),
{
    if s.len() == 0 || !trimmed_char(s[0], quotes) {
        0
    } else {
        1 + lead_trimmed(s.drop_first(), quotes)
    }
}

/// Number of trailing characters of `s` that are trimmed.
pub open spec fn trail_trimmed(s: Seq<char>, quotes: bool) -> nat
    decreases s.len(),
{
    if s.len() == 0 || !trimmed_char(s.last(), quotes) {
        0
    } else {
        1 + trail_trimmed(s.drop_last(), quotes)
    }
}

/// `s` without the trimmed characters at either end (`str::trim_matches`).
pub open spec fn trim_matching(s: Seq<char>, quotes: bool) -> Seq<char> {
    let t = s.skip(lead_trimmed(s, quotes) as int);
    t.take(t.len() - trail_trimmed(t, quotes))
}

proof fn lemma_lead_trimmed_exact(s: Seq<char>, quotes: bool, n: int)
    requires
        0 <= n <= s.len(),
        forall|j: int| 0 <= j < n ==> trimmed_char(s[j], quotes),
        n == s.len() || !trimmed_char(s[n], quotes),
    ensures
        lead_trimmed(s, quotes) == n,
    decreases n,
{
    if n > 0 {
        let t = s.drop_first();
        assert forall|j: int| 0 <= j < n - 1 implies trimmed_char(t[j], quotes) by {
            assert(t[j] == s[j + 1]);
        }
        if n - 1 < t.len() {
            assert(t[n - 1] == s[n]);
        }
        lemma_lead_trimmed_exact(t, quotes, n - 1);
    }
}

proof fn lemma_trail_trimmed_exact(s: Seq<char>, quotes: bool, n: int)
    requires
        0 <= n <= s.len(),
        forall|j: int| s.len() - n <= j < s.len() ==> trimmed_char(s[j], quotes),
        n == s.len() || !trimmed_char(s[s.len() - n - 1], quotes),
    ensures
        trail_trimmed(s, quotes) == n,
    decreases n,
{
    if n > 0 {
        let t = s.drop_last();
        assert forall|j: int| t.len() - (n - 1) <= j < t.len() implies trimmed_char(t[j], quotes) by {
            assert(t[j] == s[j]);
        }
        if n - 1 < t.len() {
            assert(t[t.len() - (n - 1) - 1] == s[s.len() - n - 1]);
        }
        lemma_trail_trimmed_exact(t, quotes, n - 1);
    }
}

/// Whether `c` is trimmed from the ends of a word.
fn is_trimmed(c: char, quotes: bool) -> (b: bool)
    ensures
        b == trimmed_char(c, quotes),
{
    if quotes {
        c == '"'
    } else {
        !is_alphanumeric_char(c) && c != '-' && c != '_'
    }
}

/// `v` without the trimmed characters at either end.
fn trim_matching_chars(v: &Vec<char>, quotes: bool) -> (r: Vec<char>)
    ensures
        r@ == trim_matching(v@, quotes),
{
    let n = v.len();
    let mut i: usize = 0;
    while i < n && is_trimmed(v[i], quotes)
        invariant
            n == v.len(),
            i <= n,
            forall|j: int| 0 <= j < i ==> trimmed_char(v@[j], quotes),
        decreases n - i,
    {
        i += 1;
    }
    proof {
        lemma_lead_trimmed_exact(v@, quotes, i as int);
    }
    let mut j: usize = n;
    while j > i && is_trimmed(v[j - 1], quotes)
        invariant
            n == v.len(),
            i <= j <= n,
            forall|k: int| j <= k < n ==> trimmed_char(v@[k], quotes),
        decreases j - i,
    {
        j -= 1;
    }
    proof {
        let t = v@.skip(i as int);
        let m = (n - j) as int;
        assert forall|k: int| t.len() - m <= k < t.len() implies trimmed_char(t[k], quotes) by {
            assert(t[k] == v@[i + k]);
        }
        if m < t.len() {
            assert(t[t.len() - m - 1] == v@[j - 1]);
        }
        lemma_trail_trimmed_exact(t, quotes, m);
        assert(t.take(t.len() - m) == v@.subrange(i as int, j as int));
    }
    slice_chars(v, i, j)
}

/// The words that look for a service name after them.
pub open spec fn service_keyword(i: int) -> Seq<char> {
    if i == 0 {
        "from"@
    } else if i == 1 {
        "in"@
    } else if i == 2 {
        "service"@
    } else if i == 3 {
        "app"@
    } else if i == 4 {
        "job"@
    } else {
        "container"@
    }
}

fn service_keyword_str(i: usize) -> (s: &'static str)
    requires
        i < 6,
    ensures
        s@ == service_keyword(i as int),
{
    if i == 0 {
        "from"
    } else if i == 1 {
        "in"
    } else if i == 2 {
        "service"
    } else if i == 3 {
        "app"
    } else if i == 4 {
        "job"
    } else {
        "container"
    }
}

/// The words that introduce a text to search for.
pub open spec fn search_keyword(i: int) -> Seq<char> {
    if i == 0 {
        "containing"@
    } else if i == 1 {
        "with"@
    } else if i == 2 {
        "matching"@
    } else if i == 3 {
        "like"@
    } else if i == 4 {
        "about"@
    } else {
        "for"@
    }
}

fn search_keyword_str(i: usize) -> (s: &'static str)
    requires
        i < 6,
    ensures
        s@ == search_keyword(i as int),
{
    if i == 0 {
        "containing"
    } else if i == 1 {
        "with"
    } else if i == 2 {
        "matching"
    } else if i == 3 {
        "like"
    } else if i == 4 {
        "about"
    } else {
        "for"
    }
}

/// The byte offset just past the first occurrence of `kw` in `lower`, the
/// way `str::find` on the lowercase text locates it.
pub open spec fn keyword_end(lower: Seq<char>, kw: Seq<char>) -> Option<int> {
    match first_occurrence(lower, kw, 0) {
        Some(k) => Some((byte_len(lower.take(k)) + byte_len(kw)) as int),
        None => None,
    }
}

/// The text of `input` from byte offset `b` on.
pub open spec fn text_from_byte(input: Seq<char>, b: int) -> Seq<char> {
    input.skip(char_at_byte(input, b))
}

/// Where `kw` ends in the lowercase text `lower`, as a byte offset.
fn keyword_end_exec(lower: &str, lv: &Vec<char>, kw: &str) -> (r: Option<usize>)
    requires
        lv@ == lower@,
    ensures
        match r {
            Some(b) => keyword_end(lower@, kw@) == Some(b as int),
            None => keyword_end(lower@, kw@) is None,
        },
{
    let kv = chars_of(kw);
    match find_first(lv, &kv) {
        Some(k) => {
            proof {
                assert(first_occurrence(lv@, kv@, 0) == Some(k as int));
                crate::text::lemma_first_occurrence_bound(lv@, kv@, 0);
                assert(occurs_at(lv@, kv@, k as int));
                assert(k + kv@.len() <= lv@.len());
            }
            let total = lv.len();
            let m = kv.len();
            assert(k + m <= total);
            let end = k + m;
            let b = char_to_byte_offset(lower, end);
            proof {
                let s = lower@;
                assert(occurs_at(s, kw@, k as int));
                assert(s.take(k + kw@.len()) == s.take(k as int) + kw@);
                lemma_encode_concat(s.take(k as int), kw@);
            }
            Some(b)
        },
        None => None,
    }
}

/// The characters of `input` from byte offset `b` on.
fn text_from_byte_exec(input: &str, iv: &Vec<char>, b: usize) -> (r: Vec<char>)
    requires
        iv@ == input@,
        is_char_offset(input@, b as int),
    ensures
        r@ == text_from_byte(input@, b as int),
{
    let j = byte_to_char_offset(input, b);
    proof {
        lemma_char_at_byte(input@, j as int);
        assert(iv@.subrange(j as int, iv@.len() as int) == input@.skip(j as int));
    }
    slice_chars(iv, j, iv.len())
}

/// Words that say when rather than which service, as in "in the last
/// hour".
pub open spec fn is_time_word(w: Seq<char>) -> bool {
    w == "last"@ || w == "past"@ || w == "since"@ || w == "today"@ || w == "yesterday"@ || w
        == "hour"@ || w == "hours"@ || w == "minute"@ || w == "minutes"@ || w == "day"@ || w
        == "days"@ || w == "week"@ || w == "weeks"@
}

/// The first word of `ws` that is not a filler word (case ignored).
pub open spec fn first_content_word(ws: Seq<Seq<char>>) -> Option<Seq<char>>
    decreases ws.len(),
{
    if ws.len() == 0 {
        None
    } else if is_filler_word(lowercase(ws[0])) {
        first_content_word(ws.drop_first())
    } else {
        Some(ws[0])
    }
}

/// Position of the first word of `ws` that is not a filler word.
fn first_content(ws: &Vec<Vec<char>>) -> (r: Option<usize>)
    ensures
        match r {
            Some(k) => k < ws@.len() && first_content_word(char_vec_views(ws@)) == Some(ws@[k as int]@),
            None => first_content_word(char_vec_views(ws@)) is None,
        },
{
    let ghost cv = char_vec_views(ws@);
    let mut k: usize = 0;
    proof {
        assert(cv.skip(0) =~= cv);
    }
    while k < ws.len()
        invariant
            k <= ws@.len(),
            cv == char_vec_views(ws@),
            first_content_word(cv) == first_content_word(cv.skip(k as int)),
        decreases ws@.len() - k,
    {
        proof {
            assert(cv.skip(k as int)[0] == ws@[k as int]@);
            assert(cv.skip(k as int).drop_first() =~= cv.skip(k + 1));
        }
        let low = to_lowercase(string_from_chars(&ws[k]).as_str());
        if !filler_word(&chars_of(low.as_str())) {
            return Some(k);
        }
        k += 1;
    }
    proof {
        assert(cv.skip(k as int) =~= Seq::<Seq<char>>::empty());
    }
    None
}

/// Whether `w` is a time word (case ignored).
fn time_word(w: &Vec<char>) -> (b: bool)
    ensures
        b == is_time_word(lowercase(w@)),
{
    let low = to_lowercase(string_from_chars(w).as_str());
    let t = low.as_str();
    str_eq(t, "last") || str_eq(t, "past") || str_eq(t, "since") || str_eq(t, "today") || str_eq(
        t,
        "yesterday",
    ) || str_eq(t, "hour") || str_eq(t, "hours") || str_eq(t, "minute") || str_eq(t, "minutes")
        || str_eq(t, "day") || str_eq(t, "days") || str_eq(t, "week") || str_eq(t, "weeks")
}

/// The service name that follows the `i`-th service keyword and later
/// ones, skipping filler words, and not a word of time: `Some(None)` when there is none, `None` when cutting the input at
/// a keyword would fall inside a character (which panics).
pub open spec fn service_scan(input: Seq<char>, lower: Seq<char>, i: int) -> Option<
    Option<Seq<char>>,
>
    decreases 6 - i,
{
    if i < 0 || i >= 6 {
        Some(None)
    } else {
        match keyword_end(lower, service_keyword(i)) {
            None => service_scan(input, lower, i + 1),
            Some(b) => if !is_char_offset(input, b) {
                None
            } else {
                let ws = words(trim_start(text_from_byte(input, b)));
                match first_content_word(ws) {
                    Some(w) => if !is_time_word(lowercase(w)) && trim_matching(w, false).len() > 0
                        && byte_len(trim_matching(w, false)) > 1 {
                        Some(Some(trim_matching(w, false)))
                    } else {
                        service_scan(input, lower, i + 1)
                    },
                    None => service_scan(input, lower, i + 1),
                }
            },
        }
    }
}

/// Finds the service name the input mentions.
fn scan_service(input: &str, iv: &Vec<char>, lower: &str, lv: &Vec<char>) -> (r: Option<Option<Vec<char>>>)
    requires
        iv@ == input@,
        lv@ == lower@,
    ensures
        match r {
            Some(Some(w)) => service_scan(input@, lower@, 0) == Some(Some(w@)),
            Some(None) => service_scan(input@, lower@, 0) == Some(None::<Seq<char>>),
            None => service_scan(input@, lower@, 0) is None,
        },
{
    let mut i: usize = 0;
    while i < 6
        invariant
            i <= 6,
            iv@ == input@,
            lv@ == lower@,
            service_scan(input@, lower@, 0) == service_scan(input@, lower@, i as int),
        decreases 6 - i,
    {
        let kw = service_keyword_str(i);
        match keyword_end_exec(lower, lv, kw) {
            None => {},
            Some(b) => {
                if !is_char_boundary(iv, b) {
                    return None;
                }
                let rest = text_from_byte_exec(input, iv, b);
                let rest = trim_start_chars(&rest);
                let ws = split_words(&rest);
                match first_content(&ws) {
                    Some(k) => {
                        if !time_word(&ws[k]) {
                            let c = trim_matching_chars(&ws[k], false);
                            if c.len() > 0 && byte_len_of(&c) > 1 {
                                return Some(Some(c));
                            }
                        }
                    },
                    None => {},
                }
            },
        }
        i += 1;
    }
    Some(None)
}

/// Whether a (lowercased) word ends a search text.
pub open spec fn is_stop_word(w: Seq<char>) -> bool {
    w == "from"@ || w == "in"@ || w == "last"@ || w == "since"@ || w == "between"@
}

/// Number of leading words of `ws` before the first stop word.
pub open spec fn leading_terms(ws: Seq<Seq<char>>) -> nat
    decreases ws.len(),
{
    if ws.len() == 0 || is_stop_word(lowercase(ws[0])) {
        0
    } else {
        1 + leading_terms(ws.drop_first())
    }
}

proof fn lemma_leading_terms_exact(ws: Seq<Seq<char>>, n: int)
    requires
        0 <= n <= ws.len(),
        forall|j: int| 0 <= j < n ==> !is_stop_word(lowercase(ws[j])),
        n == ws.len() || is_stop_word(lowercase(ws[n])),
    ensures
        leading_terms(ws) == n,
    decreases n,
{
    if n > 0 {
        let t = ws.drop_first();
        assert forall|j: int| 0 <= j < n - 1 implies !is_stop_word(lowercase(t[j])) by {
            assert(t[j] == ws[j + 1]);
        }
        if n - 1 < t.len() {
            assert(t[n - 1] == ws[n]);
        }
        lemma_leading_terms_exact(t, n - 1);
    }
}

/// The search text of a quoted `rest`: the quotes at either end removed,
/// up to the next quote.
pub open spec fn quoted_term(rest: Seq<char>) -> Seq<char> {
    let u = trim_matching(rest, true);
    match first_occurrence(u, seq!['"'], 0) {
        Some(k) => u.take(k),
        None => u,
    }
}

/// The search text that `rest` starts with: a quoted text, or the words up
/// to the first stop word, joined by single spaces.
pub open spec fn search_term(rest: Seq<char>) -> Seq<char> {
    if rest.len() > 0 && rest[0] == '"' {
        quoted_term(rest)
    } else {
        join_words(words(rest).take(leading_terms(words(rest)) as int), " "@)
    }
}

/// Whether the lowercase form of `w` is a stop word.
fn stop_word(w: &Vec<char>) -> (b: bool)
    ensures
        b == is_stop_word(lowercase(w@)),
{
    let s = string_from_chars(w);
    let l = to_lowercase(s.as_str());
    let t = l.as_str();
    str_eq(t, "from") || str_eq(t, "in") || str_eq(t, "last") || str_eq(t, "since") || str_eq(
        t,
        "between",
    )
}

/// The search text that `rest` starts with.
fn search_term_exec(rest: &Vec<char>) -> (r: String)
    ensures
        r@ == search_term(rest@),
{
    if rest.len() > 0 && rest[0] == '"' {
        let u = trim_matching_chars(rest, true);
        let quote: Vec<char> = vec!['"'];
        proof {
            assert(quote@ == seq!['"']);
        }
        match find_first(&u, &quote) {
            Some(k) => {
                proof {
                    assert(first_occurrence(u@, quote@, 0) == Some(k as int));
                    crate::text::lemma_first_occurrence_bound(u@, quote@, 0);
                }
                let part = slice_chars(&u, 0, k);
                proof {
                    assert(part@ == u@.take(k as int));
                }
                string_from_chars(&part)
            },
            None => string_from_chars(&u),
        }
    } else {
        let ws = split_words(rest);
        let mut n: usize = 0;
        while n < ws.len() && !stop_word(&ws[n])
            invariant
                n <= ws.len(),
                char_vec_views(ws@) == words(rest@),
                forall|j: int| 0 <= j < n ==> !is_stop_word(lowercase(#[trigger] ws@[j]@)),
            decreases ws.len() - n,
        {
            n += 1;
        }
        proof {
            let views = char_vec_views(ws@);
            assert forall|j: int| 0 <= j < n implies !is_stop_word(lowercase(views[j])) by {
                assert(views[j] == ws@[j]@);
            }
            if n < views.len() {
                assert(views[n as int] == ws@[n as int]@);
            }
            lemma_leading_terms_exact(views, n as int);
        }
        let mut kept: Vec<Vec<char>> = Vec::new();
        let mut i: usize = 0;
        while i < n
            invariant
                i <= n <= ws.len(),
                kept@.len() == i,
                char_vec_views(kept@) == char_vec_views(ws@).take(i as int),
            decreases n - i,
        {
            let w = slice_chars(&ws[i], 0, ws[i].len());
            proof {
                assert(w@ == ws@[i as int]@);
            }
            let ghost before = kept@;
            kept.push(w);
            proof {
                assert forall|j: int| 0 <= j <= i implies char_vec_views(kept@)[j] == char_vec_views(
                    ws@,
                ).take(i + 1)[j] by {
                    if j < i {
                        assert(kept@[j] == before[j]);
                        assert(char_vec_views(before)[j] == before[j]@);
                    }
                }
                assert(char_vec_views(kept@) =~= char_vec_views(ws@).take(i + 1));
            }
            i += 1;
        }
        join_char_vecs(&kept, " ")
    }
}

/// The search text that follows the `i`-th search keyword and later ones:
/// `Some(None)` when there is none, `None` when cutting the input at a
/// keyword would fall inside a character (which panics).
pub open spec fn search_scan(input: Seq<char>, lower: Seq<char>, i: int) -> Option<
    Option<Seq<char>>,
>
    decreases 6 - i,
{
    if i < 0 || i >= 6 {
        Some(None)
    } else {
        match keyword_end(lower, search_keyword(i)) {
            None => search_scan(input, lower, i + 1),
            Some(b) => if !is_char_offset(input, b) {
                None
            } else {
                let term = search_term(trim_start(text_from_byte(input, b)));
                if term.len() > 0 && byte_len(term) > 1 {
                    Some(Some(term))
                } else {
                    search_scan(input, lower, i + 1)
                }
            },
        }
    }
}

/// Finds the text the input asks to search for.
fn scan_search(input: &str, iv: &Vec<char>, lower: &str, lv: &Vec<char>) -> (r: Option<Option<String>>)
    requires
        iv@ == input@,
        lv@ == lower@,
    ensures
        match r {
            Some(Some(t)) => search_scan(input@, lower@, 0) == Some(Some(t@)),
            Some(None) => search_scan(input@, lower@, 0) == Some(None::<Seq<char>>),
            None => search_scan(input@, lower@, 0) is None,
        },
{
    let mut i: usize = 0;
    while i < 6
        invariant
            i <= 6,
            iv@ == input@,
            lv@ == lower@,
            search_scan(input@, lower@, 0) == search_scan(input@, lower@, i as int),
        decreases 6 - i,
    {
        let kw = search_keyword_str(i);
        match keyword_end_exec(lower, lv, kw) {
            None => {},
            Some(b) => {
                if !is_char_boundary(iv, b) {
                    return None;
                }
                let rest = text_from_byte_exec(input, iv, b);
                let rest = trim_start_chars(&rest);
                let term = search_term_exec(&rest);
                let tv = chars_of(term.as_str());
                if tv.len() > 0 && byte_len_of(&tv) > 1 {
                    return Some(Some(term));
                }
            },
        }
        i += 1;
    }
    Some(None)
}


/// The level words the input is searched for, with the level each stands for.
pub open spec fn level_entry(i: int) -> (Seq<char>, Seq<char>) {
    if i == 0 {
        ("error"@, "error"@)
    } else if i == 1 {
        ("errors"@, "error"@)
    } else if i == 2 {
        ("warning"@, "warn"@)
    } else if i == 3 {
        ("warnings"@, "warn"@)
    } else if i == 4 {
        ("warn"@, "warn"@)
    } else if i == 5 {
        ("info"@, "info"@)
    } else if i == 6 {
        ("debug"@, "debug"@)
    } else if i == 7 {
        ("fatal"@, "fatal"@)
    } else if i == 8 {
        ("critical"@, "fatal"@)
    } else {
        ("panic"@, "fatal"@)
    }
}

fn level_entry_str(i: usize) -> (r: (&'static str, &'static str))
    requires
        i < 10,
    ensures
        (r.0@, r.1@) == level_entry(i as int),
{
    if i == 0 {
        ("error", "error")
    } else if i == 1 {
        ("errors", "error")
    } else if i == 2 {
        ("warning", "warn")
    } else if i == 3 {
        ("warnings", "warn")
    } else if i == 4 {
        ("warn", "warn")
    } else if i == 5 {
        ("info", "info")
    } else if i == 6 {
        ("debug", "debug")
    } else if i == 7 {
        ("fatal", "fatal")
    } else if i == 8 {
        ("critical", "fatal")
    } else {
        ("panic", "fatal")
    }
}

/// The HTTP status patterns the input is searched for, with the code text
/// each filters on.
pub open spec fn status_entry(i: int) -> (Seq<char>, Seq<char>) {
    if i == 0 {
        ("500"@, "500"@)
    } else if i == 1 {
        ("5xx"@, "5"@)
    } else if i == 2 {
        ("5XX"@, "5"@)
    } else if i == 3 {
        ("404"@, "404"@)
    } else if i == 4 {
        ("4xx"@, "4"@)
    } else if i == 5 {
        ("4XX"@, "4"@)
    } else if i == 6 {
        ("503"@, "503"@)
    } else if i == 7 {
        ("502"@, "502"@)
    } else {
        ("200"@, "200"@)
    }
}

fn status_entry_str(i: usize) -> (r: (&'static str, &'static str))
    requires
        i < 9,
    ensures
        (r.0@, r.1@) == status_entry(i as int),
{
    if i == 0 {
        ("500", "500")
    } else if i == 1 {
        ("5xx", "5")
    } else if i == 2 {
        ("5XX", "5")
    } else if i == 3 {
        ("404", "404")
    } else if i == 4 {
        ("4xx", "4")
    } else if i == 5 {
        ("4XX", "4")
    } else if i == 6 {
        ("503", "503")
    } else if i == 7 {
        ("502", "502")
    } else {
        ("200", "200")
    }
}

/// The first level entry, from the `i`-th on, whose word occurs in `lower`.
pub open spec fn level_scan(lower: Seq<char>, i: int) -> Option<int>
    decreases 10 - i,
{
    if i < 0 || i >= 10 {
        None
    } else if has_infix(lower, level_entry(i).0) {
        Some(i)
    } else {
        level_scan(lower, i + 1)
    }
}

/// The first status entry, from the `i`-th on, whose lowercased pattern
/// occurs in `lower`.
pub open spec fn status_scan(lower: Seq<char>, i: int) -> Option<int>
    decreases 9 - i,
{
    if i < 0 || i >= 9 {
        None
    } else if has_infix(lower, lowercase(status_entry(i).0)) {
        Some(i)
    } else {
        status_scan(lower, i + 1)
    }
}

/// A query being assembled: selector parts, parser stages, line filters,
/// label filters, and the explanation lines.
pub struct DraftModel {
    /// Stream selector matchers, such as `job="api"`.
    pub selectors: Seq<Seq<char>>,
    /// Parser stages, such as `json`.
    pub stages: Seq<Seq<char>>,
    /// Line filters, such as `|= "error"`.
    pub line_filters: Seq<Seq<char>>,
    /// Label filters, such as `duration > 2000`.
    pub label_filters: Seq<Seq<char>>,
    /// One line of explanation per part.
    pub explanations: Seq<Seq<char>>,
}

/// `s` between double quotes.
pub open spec fn quoted(s: Seq<char>) -> Seq<char> {
    "\""@ + s + "\""@
}

/// The label that names a service: `job`, `app` or `service`, the first
/// the backend knows of (`job` when it knows none of them).
pub open spec fn service_label(labels: Seq<Seq<char>>) -> Seq<char> {
    if labels.contains("job"@) {
        "job"@
    } else if labels.contains("app"@) {
        "app"@
    } else if labels.contains("service"@) {
        "service"@
    } else {
        "job"@
    }
}

/// The draft after the service name, if any, was found.
pub open spec fn step_service(d: DraftModel, svc: Option<Seq<char>>, labels: Seq<Seq<char>>) -> DraftModel {
    match svc {
        None => d,
        Some(w) => {
            let m = service_label(labels) + "="@ + quoted(w);
            DraftModel {
                selectors: d.selectors.push(m),
                explanations: d.explanations.push("Filter to "@ + m),
                ..d
            }
        },
    }
}

/// The draft after looking for a log level word; a mentioned HTTP status
/// code takes the place of the level (in "500 errors" the errors are the
/// status code).
pub open spec fn step_level(d: DraftModel, lower: Seq<char>, labels: Seq<Seq<char>>) -> DraftModel {
    match level_scan(lower, 0) {
        None => d,
        Some(_) if status_scan(lower, 0) is Some => d,
        Some(i) => {
            let lv = level_entry(i).1;
            if labels.contains("level"@) {
                DraftModel {
                    label_filters: d.label_filters.push("level="@ + quoted(lv)),
                    explanations: d.explanations.push("Filter level="@ + lv),
                    ..d
                }
            } else {
                DraftModel {
                    line_filters: d.line_filters.push("|= "@ + quoted(lv)),
                    explanations: d.explanations.push("Match lines containing "@ + quoted(lv)),
                    ..d
                }
            }
        },
    }
}

/// The draft after looking for an HTTP status pattern.
pub open spec fn step_status(d: DraftModel, lower: Seq<char>) -> DraftModel {
    match status_scan(lower, 0) {
        None => d,
        Some(i) => {
            let (p, c) = status_entry(i);
            if has_infix(p, "xx"@) || has_infix(p, "XX"@) {
                DraftModel {
                    line_filters: d.line_filters.push("|~ "@ + quoted(c + "[0-9]{2}"@)),
                    explanations: d.explanations.push("Match "@ + p + " status codes"@),
                    ..d
                }
            } else {
                DraftModel {
                    line_filters: d.line_filters.push("|= "@ + quoted(c)),
                    explanations: d.explanations.push("Match status code "@ + c),
                    ..d
                }
            }
        },
    }
}

/// Whether the input asks for slow requests.
pub open spec fn asks_for_slow(lower: Seq<char>) -> bool {
    has_infix(lower, "slow"@) || has_infix(lower, "latency"@) || has_infix(lower, "timeout"@)
}

/// The draft after looking for slow requests, filtering on a duration
/// over `slow_ms` milliseconds.
pub open spec fn step_slow(d: DraftModel, lower: Seq<char>, slow_ms: u64) -> DraftModel {
    if asks_for_slow(lower) {
        DraftModel {
            stages: d.stages.push("json"@),
            label_filters: d.label_filters.push("duration > "@ + decimal(slow_ms as nat)),
            explanations: d.explanations.push(
                "Parse JSON, filter duration > "@ + decimal(slow_ms as nat) + "ms"@,
            ),
            ..d
        }
    } else {
        d
    }
}

/// The draft after looking for a request to parse JSON.
pub open spec fn step_json(d: DraftModel, lower: Seq<char>) -> DraftModel {
    if (has_infix(lower, "json"@) || has_infix(lower, "structured"@) || has_infix(lower, "parse"@))
        && !d.stages.contains("json"@) {
        DraftModel {
            stages: d.stages.push("json"@),
            explanations: d.explanations.push("Parse JSON fields"@),
            ..d
        }
    } else {
        d
    }
}

/// The draft after the search text, if any, was found.
pub open spec fn step_search(d: DraftModel, term: Option<Seq<char>>) -> DraftModel {
    match term {
        None => d,
        Some(t) => DraftModel {
            line_filters: d.line_filters.push("|= "@ + quoted(t)),
            explanations: d.explanations.push("Match lines containing "@ + quoted(t)),
            ..d
        },
    }
}

/// Words that carry no meaning for a search.
pub open spec fn is_filler_word(w: Seq<char>) -> bool {
    w == "show"@ || w == "me"@ || w == "the"@ || w == "all"@ || w == "find"@ || w == "get"@ || w
        == "logs"@ || w == "log"@ || w == "please"@ || w == "can"@ || w == "you"@ || w == "i"@
        || w == "want"@ || w == "to"@ || w == "see"@ || w == "display"@ || w == "list"@
}

/// The words of `ws` that are not filler, in order.
pub open spec fn meaningful_words(ws: Seq<Seq<char>>) -> Seq<Seq<char>>
    decreases ws.len(),
{
    if ws.len() == 0 {
        seq![]
    } else if is_filler_word(ws.last()) {
        meaningful_words(ws.drop_last())
    } else {
        meaningful_words(ws.drop_last()).push(ws.last())
    }
}

/// The draft after falling back to the meaningful words as a search text,
/// which happens when nothing else was recognised.
pub open spec fn step_fallback(d: DraftModel, lower: Seq<char>) -> DraftModel {
    let m = meaningful_words(words(lower));
    if d.line_filters.len() == 0 && d.label_filters.len() == 0 && d.stages.len() == 0 && m.len()
        > 0 {
        let t = join_words(m, " "@);
        DraftModel {
            line_filters: d.line_filters.push("|= "@ + quoted(t)),
            explanations: d.explanations.push("Search for "@ + quoted(t)),
            ..d
        }
    } else {
        d
    }
}

/// Each item of `items` preceded by `prefix`, all concatenated.
pub open spec fn prefixed_all(prefix: Seq<char>, items: Seq<Seq<char>>) -> Seq<char>
    decreases items.len(),
{
    if items.len() == 0 {
        seq![]
    } else {
        prefixed_all(prefix, items.drop_last()) + prefix + items.last()
    }
}

/// The query a draft spells: the selector, then ` | stage` for each parser
/// stage, ` filter` for each line filter and ` | filter` for each label
/// filter.
pub open spec fn draft_query(d: DraftModel) -> Seq<char> {
    let sel = if d.selectors.len() == 0 {
        "{}"@
    } else {
        "{"@ + join_words(d.selectors, ", "@) + "}"@
    };
    sel + prefixed_all(" | "@, d.stages) + prefixed_all(" "@, d.line_filters) + prefixed_all(
        " | "@,
        d.label_filters,
    )
}

/// The result of a scan, taken as "found" or "not found".
pub open spec fn scanned(o: Option<Option<Seq<char>>>) -> Option<Seq<char>> {
    match o {
        Some(x) => x,
        None => None,
    }
}

/// The draft that all the heuristics build for `input`.
pub open spec fn nl_draft(input: Seq<char>, labels: Seq<Seq<char>>, slow_ms: u64) -> DraftModel {
    let lower = lowercase(input);
    let d0 = DraftModel {
        selectors: seq![],
        stages: seq![],
        line_filters: seq![],
        label_filters: seq![],
        explanations: seq![],
    };
    let d1 = step_service(d0, scanned(service_scan(input, lower, 0)), labels);
    let d2 = step_level(d1, lower, labels);
    let d3 = step_status(d2, lower);
    let d4 = step_slow(d3, lower, slow_ms);
    let d5 = step_json(d4, lower);
    let d6 = step_search(d5, scanned(search_scan(input, lower, 0)));
    step_fallback(d6, lower)
}

/// The query and explanation lines generated for `input`, where `labels`
/// are the label names the backend knows and `slow_ms` the duration
/// threshold (in milliseconds) that the input asks for.
pub open spec fn nl_translation(input: Seq<char>, labels: Seq<Seq<char>>, slow_ms: u64) -> (
    Seq<char>,
    Seq<Seq<char>>,
) {
    let d = nl_draft(input, labels, slow_ms);
    let q = draft_query(d);
    if q == "{}"@ {
        ("{} "@, d.explanations.push("No specific filters detected \u{2014} showing all logs"@))
    } else {
        (q, d.explanations)
    }
}

/// How an explanation line reporting a matched status code begins.
pub open spec fn status_note() -> Seq<char> {
    "Match status code "@
}

/// Every explanation line that reports a matched status code names one of
/// the codes 500, 503, 502, 404 and 200, and that code, lowercased, occurs
/// in `lower`.
pub open spec fn status_notes_typed(es: Seq<Seq<char>>, lower: Seq<char>) -> bool {
    forall|k: int|
        0 <= k < es.len() && crate::text::has_prefix(#[trigger] es[k], status_note()) ==> {
            let c = es[k].skip(18);
            &&& (c == "500"@ || c == "503"@ || c == "502"@ || c == "404"@ || c == "200"@)
            &&& has_infix(lower, lowercase(c))
        }
}

/// A line that differs from the status note at position `i` is no status
/// note.
proof fn lemma_not_status_note(x: Seq<char>, i: int)
    requires
        0 <= i < 18,
        i < x.len(),
        x[i] != status_note()[i],
    ensures
        !crate::text::has_prefix(x, status_note()),
{
    reveal_strlit("Match status code ");
    if crate::text::has_prefix(x, status_note()) {
        assert(x.take(18)[i] == x[i]);
    }
}

/// Adding a line that is no status note keeps the status notes typed.
proof fn lemma_push_other(es: Seq<Seq<char>>, x: Seq<char>, lower: Seq<char>)
    requires
        status_notes_typed(es, lower),
        !crate::text::has_prefix(x, status_note()),
    ensures
        status_notes_typed(es.push(x), lower),
{
    assert forall|k: int|
        0 <= k < es.push(x).len() && crate::text::has_prefix(#[trigger] es.push(x)[k], status_note()) implies {
        let c = es.push(x)[k].skip(18);
        &&& (c == "500"@ || c == "503"@ || c == "502"@ || c == "404"@ || c == "200"@)
        &&& has_infix(lower, lowercase(c))
    } by {
        if k < es.len() {
            assert(es.push(x)[k] == es[k]);
        }
    }
}

/// The status scan finds a pattern that occurs in the text.
proof fn lemma_status_scan_found(lower: Seq<char>, j: int)
    ensures
        status_scan(lower, j) matches Some(i) ==> j <= i < 9 && 0 <= i && has_infix(
            lower,
            lowercase(status_entry(i).0),
        ),
    decreases 9 - j,
{
    if 0 <= j < 9 && !has_infix(lower, lowercase(status_entry(j).0)) {
        lemma_status_scan_found(lower, j + 1);
    }
}

/// The explanation lines of a draft whose every step is no status step
/// keep the status notes typed; this is the step that adds one.
proof fn lemma_step_status_typed(d: DraftModel, lower: Seq<char>)
    requires
        status_notes_typed(d.explanations, lower),
    ensures
        status_notes_typed(step_status(d, lower).explanations, lower),
{
    reveal_strlit("Match status code ");
    reveal_strlit("Match ");
    reveal_strlit("500");
    reveal_strlit("5xx");
    reveal_strlit("5XX");
    reveal_strlit("404");
    reveal_strlit("4xx");
    reveal_strlit("4XX");
    reveal_strlit("503");
    reveal_strlit("502");
    reveal_strlit("200");
    reveal_strlit("xx");
    reveal_strlit("XX");
    lemma_status_scan_found(lower, 0);
    match status_scan(lower, 0) {
        None => {},
        Some(i) => {
            let (p, c) = status_entry(i);
            if has_infix(p, "xx"@) || has_infix(p, "XX"@) {
                let x = "Match "@ + p + " status codes"@;
                assert(x[6] == p[0]);
                lemma_not_status_note(x, 6);
                lemma_push_other(d.explanations, x, lower);
            } else {
                if i == 1 || i == 4 {
                    assert(p.subrange(1, 3) =~= "xx"@);
                    assert(crate::text::occurs_at(p, "xx"@, 1));
                } else if i == 2 || i == 5 {
                    assert(p.subrange(1, 3) =~= "XX"@);
                    assert(crate::text::occurs_at(p, "XX"@, 1));
                }
                assert(c == p);
                let x = status_note() + c;
                assert(x.skip(18) =~= c);
                assert(x.take(18) =~= status_note());
                let es = d.explanations.push(x);
                assert forall|k: int|
                    0 <= k < es.len() && crate::text::has_prefix(#[trigger] es[k], status_note()) implies {
                    let cc = es[k].skip(18);
                    &&& (cc == "500"@ || cc == "503"@ || cc == "502"@ || cc == "404"@ || cc == "200"@)
                    &&& has_infix(lower, lowercase(cc))
                } by {
                    if k < d.explanations.len() {
                        assert(es[k] == d.explanations[k]);
                    }
                }
                assert(step_status(d, lower).explanations == es);
            }
        },
    }
}

/// Every status code the translation reports matching is one of 500, 503,
/// 502, 404 and 200 and is typed in the input: the explanation line
/// `Match status code c` only appears for a code `c` that occurs in the
/// input (both lowercased, as all matching is), so the query's status
/// filter is the very code the user typed.
pub proof fn law_status_code_typed(input: Seq<char>, labels: Seq<Seq<char>>, slow_ms: u64)
    ensures
        status_notes_typed(nl_translation(input, labels, slow_ms).1, lowercase(input)),
{
    reveal_strlit("Filter to ");
    reveal_strlit("Filter level=");
    reveal_strlit("Match lines containing ");
    reveal_strlit("Parse JSON, filter duration > ");
    reveal_strlit("Parse JSON fields");
    reveal_strlit("Search for ");
    reveal_strlit("No specific filters detected \u{2014} showing all logs");
    reveal_strlit("Match status code ");
    let lower = lowercase(input);
    let d0 = DraftModel {
        selectors: seq![],
        stages: seq![],
        line_filters: seq![],
        label_filters: seq![],
        explanations: seq![],
    };
    let d1 = step_service(d0, scanned(service_scan(input, lower, 0)), labels);
    match scanned(service_scan(input, lower, 0)) {
        None => {},
        Some(w) => {
            let m = service_label(labels) + "="@ + quoted(w);
            lemma_not_status_note("Filter to "@ + m, 0);
            lemma_push_other(d0.explanations, "Filter to "@ + m, lower);
        },
    }
    let d2 = step_level(d1, lower, labels);
    match level_scan(lower, 0) {
        None => {},
        Some(i) => {
            if status_scan(lower, 0) is None {
                let lv = level_entry(i).1;
                if labels.contains("level"@) {
                    lemma_not_status_note("Filter level="@ + lv, 0);
                    lemma_push_other(d1.explanations, "Filter level="@ + lv, lower);
                } else {
                    lemma_not_status_note("Match lines containing "@ + quoted(lv), 6);
                    lemma_push_other(d1.explanations, "Match lines containing "@ + quoted(lv), lower);
                }
            }
        },
    }
    let d3 = step_status(d2, lower);
    lemma_step_status_typed(d2, lower);
    let d4 = step_slow(d3, lower, slow_ms);
    if asks_for_slow(lower) {
        let x = "Parse JSON, filter duration > "@ + decimal(slow_ms as nat) + "ms"@;
        lemma_not_status_note(x, 0);
        lemma_push_other(d3.explanations, x, lower);
    }
    let d5 = step_json(d4, lower);
    if (has_infix(lower, "json"@) || has_infix(lower, "structured"@) || has_infix(lower, "parse"@))
        && !d4.stages.contains("json"@) {
        lemma_not_status_note("Parse JSON fields"@, 0);
        lemma_push_other(d4.explanations, "Parse JSON fields"@, lower);
    }
    let d6 = step_search(d5, scanned(search_scan(input, lower, 0)));
    match scanned(search_scan(input, lower, 0)) {
        None => {},
        Some(t) => {
            lemma_not_status_note("Match lines containing "@ + quoted(t), 6);
            lemma_push_other(d5.explanations, "Match lines containing "@ + quoted(t), lower);
        },
    }
    let d7 = step_fallback(d6, lower);
    let m = meaningful_words(words(lower));
    if d6.line_filters.len() == 0 && d6.label_filters.len() == 0 && d6.stages.len() == 0 && m.len() > 0 {
        let t = join_words(m, " "@);
        lemma_not_status_note("Search for "@ + quoted(t), 0);
        lemma_push_other(d6.explanations, "Search for "@ + quoted(t), lower);
    }
    assert(d7 == nl_draft(input, labels, slow_ms));
    if draft_query(d7) == "{}"@ {
        let x = "No specific filters detected \u{2014} showing all logs"@;
        lemma_not_status_note(x, 0);
        lemma_push_other(d7.explanations, x, lower);
    }
}

/// A line in a list stays in it when another is added.
proof fn lemma_contains_push(es: Seq<Seq<char>>, x: Seq<char>, y: Seq<char>)
    requires
        es.contains(x),
    ensures
        es.push(y).contains(x),
{
    let k = choose|k: int| 0 <= k < es.len() && es[k] == x;
    assert(es.push(y)[k] == x);
}

/// When the only status pattern the input holds is one of the codes 500,
/// 503, 502, 404 and 200, the explanation reports matching that very
/// code.
pub proof fn law_status_code_found(input: Seq<char>, labels: Seq<Seq<char>>, slow_ms: u64, p: Seq<char>)
    requires
        p == "500"@ || p == "503"@ || p == "502"@ || p == "404"@ || p == "200"@,
        has_infix(lowercase(input), lowercase(p)),
        forall|i: int|
            0 <= i < 9 && #[trigger] status_entry(i).0 != p ==> !has_infix(lowercase(input), lowercase(status_entry(i).0)),
    ensures
        nl_translation(input, labels, slow_ms).1.contains(status_note() + p),
{
    reveal_strlit("500");
    reveal_strlit("5xx");
    reveal_strlit("5XX");
    reveal_strlit("404");
    reveal_strlit("4xx");
    reveal_strlit("4XX");
    reveal_strlit("503");
    reveal_strlit("502");
    reveal_strlit("200");
    reveal_strlit("xx");
    reveal_strlit("XX");
    let lower = lowercase(input);
    // The code is one of the patterns, so the scan finds a pattern, and the
    // only one present is the code.
    let ip: int = if p == "500"@ { 0 } else if p == "404"@ { 3 } else if p == "503"@ { 6 } else if p == "502"@ {
        7
    } else {
        8
    };
    assert(status_entry(ip).0 == p);
    lemma_status_scan_found(lower, 0);
    lemma_status_scan_some(lower, 0, ip);
    let i = status_scan(lower, 0)->0;
    assert(status_entry(i).0 == p);
    let (pp, c) = status_entry(i);
    assert(p[1] == '0');
    assert(status_entry(1).0[1] == 'x' && status_entry(2).0[1] == 'X');
    assert(status_entry(4).0[1] == 'x' && status_entry(5).0[1] == 'X');
    assert(i == 0 || i == 3 || i == 6 || i == 7 || i == 8);
    assert(c == p);
    if has_infix(pp, "xx"@) {
        let w = choose|w: int| occurs_at(pp, "xx"@, w);
        assert(pp.subrange(w, w + 2)[0] == pp[w]);
    }
    if has_infix(pp, "XX"@) {
        let w = choose|w: int| occurs_at(pp, "XX"@, w);
        assert(pp.subrange(w, w + 2)[0] == pp[w]);
    }
    let d0 = DraftModel {
        selectors: seq![],
        stages: seq![],
        line_filters: seq![],
        label_filters: seq![],
        explanations: seq![],
    };
    let d1 = step_service(d0, scanned(service_scan(input, lower, 0)), labels);
    let d2 = step_level(d1, lower, labels);
    let d3 = step_status(d2, lower);
    let note = status_note() + p;
    assert(d3.explanations == d2.explanations.push(note));
    assert(d3.explanations[d2.explanations.len() as int] == note);
    assert(d3.explanations.contains(note));
    let d4 = step_slow(d3, lower, slow_ms);
    if asks_for_slow(lower) {
        lemma_contains_push(d3.explanations, note, d4.explanations.last());
        assert(d4.explanations == d3.explanations.push(d4.explanations.last()));
    }
    assert(d4.explanations.contains(note));
    let d5 = step_json(d4, lower);
    if d5.explanations != d4.explanations {
        lemma_contains_push(d4.explanations, note, d5.explanations.last());
        assert(d5.explanations == d4.explanations.push(d5.explanations.last()));
    }
    assert(d5.explanations.contains(note));
    let d6 = step_search(d5, scanned(search_scan(input, lower, 0)));
    if d6.explanations != d5.explanations {
        lemma_contains_push(d5.explanations, note, d6.explanations.last());
        assert(d6.explanations == d5.explanations.push(d6.explanations.last()));
    }
    assert(d6.explanations.contains(note));
    let d7 = step_fallback(d6, lower);
    if d7.explanations != d6.explanations {
        lemma_contains_push(d6.explanations, note, d7.explanations.last());
        assert(d7.explanations == d6.explanations.push(d7.explanations.last()));
    }
    assert(d7.explanations.contains(note));
    assert(d7 == nl_draft(input, labels, slow_ms));
    if draft_query(d7) == "{}"@ {
        lemma_contains_push(
            d7.explanations,
            note,
            "No specific filters detected \u{2014} showing all logs"@,
        );
    }
}

/// The status scan finds a pattern whenever one from the `j`-th on occurs.
proof fn lemma_status_scan_some(lower: Seq<char>, j: int, k: int)
    requires
        0 <= j <= k < 9,
        has_infix(lower, lowercase(status_entry(k).0)),
    ensures
        status_scan(lower, j) is Some,
    decreases k - j,
{
    if !has_infix(lower, lowercase(status_entry(j).0)) {
        lemma_status_scan_some(lower, j + 1, k);
    }
}

/// Whether translating `input` would panic: a keyword found in the
/// lowercase text ends at a byte offset that is not a character boundary
/// of the input (possible where lowercasing changes byte lengths).
pub open spec fn nl_panics(input: Seq<char>) -> bool {
    ||| service_scan(input, lowercase(input), 0) is None
    ||| search_scan(input, lowercase(input), 0) is None
}


/// The characters of an optional character vector.
pub open spec fn opt_chars(o: Option<Vec<char>>) -> Option<Seq<char>> {
    match o {
        Some(w) => Some(w@),
        None => None,
    }
}

/// The characters of an optional string.
pub open spec fn opt_string(o: Option<String>) -> Option<Seq<char>> {
    match o {
        Some(w) => Some(w@),
        None => None,
    }
}

/// Appends a string to a list of strings.
fn push_string(v: &mut Vec<String>, s: String)
    ensures
        string_views(final(v)@) == string_views(old(v)@).push(s@),
{
    let ghost before = v@;
    v.push(s);
    proof {
        assert(string_views(v@) =~= string_views(before).push(s@));
    }
}

/// Whether `v` holds a string equal to `name`.
pub(crate) fn has_string(v: &Vec<String>, name: &str) -> (b: bool)
    ensures
        b == string_views(v@).contains(name@),
{
    let mut i: usize = 0;
    while i < v.len()
        invariant
            i <= v.len(),
            forall|j: int| 0 <= j < i ==> string_views(v@)[j] != name@,
        decreases v.len() - i,
    {
        if str_eq(v[i].as_str(), name) {
            proof {
                assert(string_views(v@)[i as int] == name@);
            }
            return true;
        }
        i += 1;
    }
    false
}

/// `s` between double quotes.
fn quoted_string(s: &str) -> (r: String)
    ensures
        r@ == quoted(s@),
{
    let mut r = String::from_str("\"");
    r.append(s);
    r.append("\"");
    r
}

/// `a` followed by `b`.
fn concat2(a: &str, b: &str) -> (r: String)
    ensures
        r@ == a@ + b@,
{
    let mut r = String::from_str(a);
    r.append(b);
    r
}

/// A query being assembled, as lists of strings.
struct QueryDraft {
    selectors: Vec<String>,
    stages: Vec<String>,
    line_filters: Vec<String>,
    label_filters: Vec<String>,
    explanations: Vec<String>,
}

impl QueryDraft {
    spec fn model(&self) -> DraftModel {
        DraftModel {
            selectors: string_views(self.selectors@),
            stages: string_views(self.stages@),
            line_filters: string_views(self.line_filters@),
            label_filters: string_views(self.label_filters@),
            explanations: string_views(self.explanations@),
        }
    }
}

fn apply_service(d: &mut QueryDraft, svc: Option<Vec<char>>, labels: &Vec<String>)
    ensures
        final(d).model() == step_service(old(d).model(), opt_chars(svc), string_views(labels@)),
{
    if let Some(w) = svc {
        let key = if has_string(labels, "job") {
            "job"
        } else if has_string(labels, "app") {
            "app"
        } else if has_string(labels, "service") {
            "service"
        } else {
            "job"
        };
        let ws = string_from_chars(&w);
        let q = quoted_string(ws.as_str());
        let kq = concat2(key, "=");
        let m = concat2(kq.as_str(), q.as_str());
        let e = concat2("Filter to ", m.as_str());
        push_string(&mut d.selectors, m);
        push_string(&mut d.explanations, e);
    }
}

fn apply_level(d: &mut QueryDraft, lv: &Vec<char>, labels: &Vec<String>, status: bool)
    requires
        status == status_scan(lv@, 0) is Some,
    ensures
        final(d).model() == step_level(old(d).model(), lv@, string_views(labels@)),
{
    if status {
        return;
    }
    let mut i: usize = 0;
    while i < 10
        invariant
            i <= 10,
            status_scan(lv@, 0) is None,
            level_scan(lv@, 0) == level_scan(lv@, i as int),
            *d == *old(d),
        decreases 10 - i,
    {
        let (word, level) = level_entry_str(i);
        let wv = chars_of(word);
        if contains_chars(lv, &wv) {
            let q = quoted_string(level);
            if has_string(labels, "level") {
                let f = concat2("level=", q.as_str());
                let e = concat2("Filter level=", level);
                push_string(&mut d.label_filters, f);
                push_string(&mut d.explanations, e);
            } else {
                let f = concat2("|= ", q.as_str());
                let e = concat2("Match lines containing ", q.as_str());
                push_string(&mut d.line_filters, f);
                push_string(&mut d.explanations, e);
            }
            return;
        }
        i += 1;
    }
}

/// Whether the text mentions an HTTP status pattern.
fn mentions_status(lv: &Vec<char>) -> (b: bool)
    ensures
        b == status_scan(lv@, 0) is Some,
{
    let mut i: usize = 0;
    while i < 9
        invariant
            i <= 9,
            status_scan(lv@, 0) == status_scan(lv@, i as int),
        decreases 9 - i,
    {
        let (pattern, _code) = status_entry_str(i);
        let pl = to_lowercase(pattern);
        let pv = chars_of(pl.as_str());
        if contains_chars(lv, &pv) {
            return true;
        }
        i += 1;
    }
    false
}

fn apply_status(d: &mut QueryDraft, lv: &Vec<char>)
    ensures
        final(d).model() == step_status(old(d).model(), lv@),
{
    let mut i: usize = 0;
    while i < 9
        invariant
            i <= 9,
            status_scan(lv@, 0) == status_scan(lv@, i as int),
            *d == *old(d),
        decreases 9 - i,
    {
        let (pattern, code) = status_entry_str(i);
        let pl = to_lowercase(pattern);
        let pv = chars_of(pl.as_str());
        if contains_chars(lv, &pv) {
            let patv = chars_of(pattern);
            let xx = chars_of("xx");
            let big = chars_of("XX");
            if contains_chars(&patv, &xx) || contains_chars(&patv, &big) {
                let c = concat2(code, "[0-9]{2}");
                let q = quoted_string(c.as_str());
                let f = concat2("|~ ", q.as_str());
                let e0 = concat2("Match ", pattern);
                let e = concat2(e0.as_str(), " status codes");
                push_string(&mut d.line_filters, f);
                push_string(&mut d.explanations, e);
            } else {
                let q = quoted_string(code);
                let f = concat2("|= ", q.as_str());
                let e = concat2("Match status code ", code);
                push_string(&mut d.line_filters, f);
                push_string(&mut d.explanations, e);
            }
            return;
        }
        i += 1;
    }
}

fn apply_slow(d: &mut QueryDraft, lv: &Vec<char>, slow_ms: u64)
    ensures
        final(d).model() == step_slow(old(d).model(), lv@, slow_ms),
{
    let slow = chars_of("slow");
    let latency = chars_of("latency");
    let timeout = chars_of("timeout");
    if contains_chars(lv, &slow) || contains_chars(lv, &latency) || contains_chars(lv, &timeout) {
        let n = decimal_string(slow_ms);
        let f = concat2("duration > ", n.as_str());
        let e0 = concat2("Parse JSON, filter duration > ", n.as_str());
        let e = concat2(e0.as_str(), "ms");
        push_string(&mut d.stages, String::from_str("json"));
        push_string(&mut d.label_filters, f);
        push_string(&mut d.explanations, e);
    }
}

fn apply_json(d: &mut QueryDraft, lv: &Vec<char>)
    ensures
        final(d).model() == step_json(old(d).model(), lv@),
{
    let json = chars_of("json");
    let structured = chars_of("structured");
    let parse = chars_of("parse");
    if (contains_chars(lv, &json) || contains_chars(lv, &structured) || contains_chars(lv, &parse))
        && !has_string(&d.stages, "json") {
        push_string(&mut d.stages, String::from_str("json"));
        push_string(&mut d.explanations, String::from_str("Parse JSON fields"));
    }
}

fn apply_search(d: &mut QueryDraft, term: Option<String>)
    ensures
        final(d).model() == step_search(old(d).model(), opt_string(term)),
{
    if let Some(t) = term {
        let q = quoted_string(t.as_str());
        let f = concat2("|= ", q.as_str());
        let e = concat2("Match lines containing ", q.as_str());
        push_string(&mut d.line_filters, f);
        push_string(&mut d.explanations, e);
    }
}

/// Whether `w` is a filler word.
fn filler_word(w: &Vec<char>) -> (b: bool)
    ensures
        b == is_filler_word(w@),
{
    let s = string_from_chars(w);
    let t = s.as_str();
    str_eq(t, "show") || str_eq(t, "me") || str_eq(t, "the") || str_eq(t, "all") || str_eq(t, "find")
        || str_eq(t, "get") || str_eq(t, "logs") || str_eq(t, "log") || str_eq(t, "please")
        || str_eq(t, "can") || str_eq(t, "you") || str_eq(t, "i") || str_eq(t, "want") || str_eq(
        t,
        "to",
    ) || str_eq(t, "see") || str_eq(t, "display") || str_eq(t, "list")
}

fn apply_fallback(d: &mut QueryDraft, lv: &Vec<char>)
    ensures
        final(d).model() == step_fallback(old(d).model(), lv@),
{
    let ws = split_words(lv);
    let mut kept: Vec<Vec<char>> = Vec::new();
    let mut i: usize = 0;
    while i < ws.len()
        invariant
            i <= ws.len(),
            char_vec_views(ws@) == words(lv@),
            char_vec_views(kept@) == meaningful_words(char_vec_views(ws@).take(i as int)),
        decreases ws.len() - i,
    {
        let ghost views = char_vec_views(ws@);
        proof {
            assert(views.take(i + 1).drop_last() == views.take(i as int));
            assert(views.take(i + 1).last() == ws@[i as int]@);
        }
        if !filler_word(&ws[i]) {
            let w = slice_chars(&ws[i], 0, ws[i].len());
            proof {
                assert(w@ == ws@[i as int]@);
            }
            let ghost before = kept@;
            kept.push(w);
            proof {
                assert(char_vec_views(kept@) =~= char_vec_views(before).push(w@));
            }
        }
        proof {
            let t = views.take(i + 1);
            assert(meaningful_words(t) == if is_filler_word(t.last()) {
                meaningful_words(t.drop_last())
            } else {
                meaningful_words(t.drop_last()).push(t.last())
            });
        }
        i += 1;
    }
    proof {
        assert(char_vec_views(ws@).take(ws@.len() as int) == char_vec_views(ws@));
    }
    if d.line_filters.len() == 0 && d.label_filters.len() == 0 && d.stages.len() == 0 && kept.len()
        > 0 {
        let t = join_char_vecs(&kept, " ");
        let q = quoted_string(t.as_str());
        let f = concat2("|= ", q.as_str());
        let e = concat2("Search for ", q.as_str());
        push_string(&mut d.line_filters, f);
        push_string(&mut d.explanations, e);
    }
}

/// Appends each item of `items`, preceded by `prefix`.
fn append_prefixed(r: &mut String, prefix: &str, items: &Vec<String>)
    ensures
        final(r)@ == old(r)@ + prefixed_all(prefix@, string_views(items@)),
{
    let ghost start = r@;
    let mut i: usize = 0;
    proof {
        assert(string_views(items@).take(0) =~= Seq::<Seq<char>>::empty());
        assert(r@ == start + Seq::<char>::empty());
    }
    while i < items.len()
        invariant
            i <= items.len(),
            r@ == start + prefixed_all(prefix@, string_views(items@).take(i as int)),
        decreases items.len() - i,
    {
        let ghost views = string_views(items@);
        proof {
            assert(views.take(i + 1).drop_last() == views.take(i as int));
            assert(views.take(i + 1).last() == items@[i as int]@);
        }
        let ghost mid = r@;
        r.append(prefix);
        r.append(items[i].as_str());
        proof {
            assert(r@ =~= start + prefixed_all(prefix@, views.take(i + 1)));
        }
        i += 1;
    }
    proof {
        assert(string_views(items@).take(items@.len() as int) == string_views(items@));
    }
}

/// The query a draft spells.
fn draft_query_exec(d: &QueryDraft) -> (q: String)
    ensures
        q@ == draft_query(d.model()),
{
    let mut q = if d.selectors.len() == 0 {
        String::from_str("{}")
    } else {
        let j = join_strings(&d.selectors, ", ");
        let a = concat2("{", j.as_str());
        concat2(a.as_str(), "}")
    };
    append_prefixed(&mut q, " | ", &d.stages);
    append_prefixed(&mut q, " ", &d.line_filters);
    append_prefixed(&mut q, " | ", &d.label_filters);
    q
}

/// Whether translating `input` would panic (see [`nl_panics`]).
pub fn translation_would_panic(input: &str) -> (b: bool)
    ensures
        b == nl_panics(input@),
{
    let lower_s = to_lowercase(input);
    let lower = lower_s.as_str();
    let iv = chars_of(input);
    let lv = chars_of(lower);
    scan_service(input, &iv, lower, &lv).is_none() || scan_search(input, &iv, lower, &lv).is_none()
}

/// The query and explanation lines generated for `input`.
pub fn translation(input: &str, labels: &Vec<String>, slow_ms: u64) -> (r: (String, Vec<String>))
    requires
        !nl_panics(input@),
    ensures
        (r.0@, string_views(r.1@)) == nl_translation(input@, string_views(labels@), slow_ms),
{
    let lower_s = to_lowercase(input);
    let lower = lower_s.as_str();
    let iv = chars_of(input);
    let lv = chars_of(lower);
    let mut d = QueryDraft {
        selectors: Vec::new(),
        stages: Vec::new(),
        line_filters: Vec::new(),
        label_filters: Vec::new(),
        explanations: Vec::new(),
    };
    proof {
        assert(d.model().selectors =~= Seq::<Seq<char>>::empty());
        assert(d.model().stages =~= Seq::<Seq<char>>::empty());
        assert(d.model().line_filters =~= Seq::<Seq<char>>::empty());
        assert(d.model().label_filters =~= Seq::<Seq<char>>::empty());
        assert(d.model().explanations =~= Seq::<Seq<char>>::empty());
    }
    let svc = match scan_service(input, &iv, lower, &lv) {
        Some(x) => x,
        None => None,
    };
    apply_service(&mut d, svc, labels);
    let status = mentions_status(&lv);
    apply_level(&mut d, &lv, labels, status);
    apply_status(&mut d, &lv);
    apply_slow(&mut d, &lv, slow_ms);
    apply_json(&mut d, &lv);
    let term = match scan_search(input, &iv, lower, &lv) {
        Some(x) => x,
        None => None,
    };
    apply_search(&mut d, term);
    apply_fallback(&mut d, &lv);
    let q = draft_query_exec(&d);
    let mut expl = d.explanations;
    if str_eq(q.as_str(), "{}") {
        push_string(&mut expl, String::from_str("No specific filters detected \u{2014} showing all logs"));
        (String::from_str("{} "), expl)
    } else {
        (q, expl)
    }
}


/// Whether `c` is an ASCII decimal digit.
pub open spec fn ascii_digit(c: char) -> bool {
    48 <= (c as u32) <= 57
}

/// Number of leading characters of `s` that are digits or dots.
pub open spec fn number_len(s: Seq<char>) -> nat
    decreases s.len(),
{
    if s.len() == 0 || !(ascii_digit(s[0]) || s[0] == '.') {
        0
    } else {
        1 + number_len(s.drop_first())
    }
}

/// The first number written in `s`: from its first ASCII digit, the run of
/// digits and dots (empty when `s` holds no digit).
pub open spec fn number_run(s: Seq<char>) -> Seq<char>
    decreases s.len(),
{
    if s.len() == 0 {
        seq![]
    } else if ascii_digit(s[0]) {
        s.take(number_len(s) as int)
    } else {
        number_run(s.drop_first())
    }
}

proof fn lemma_number_run_skip(s: Seq<char>, i: int)
    requires
        0 <= i <= s.len(),
        forall|j: int| 0 <= j < i ==> !ascii_digit(s[j]),
    ensures
        number_run(s) == number_run(s.skip(i)),
    decreases i,
{
    if i > 0 {
        assert(s.skip(i) == s.drop_first().skip(i - 1));
        assert forall|j: int| 0 <= j < i - 1 implies !ascii_digit(s.drop_first()[j]) by {
            assert(s.drop_first()[j] == s[j + 1]);
        }
        lemma_number_run_skip(s.drop_first(), i - 1);
    } else {
        assert(s.skip(0) == s);
    }
}

proof fn lemma_number_len_exact(s: Seq<char>, n: int)
    requires
        0 <= n <= s.len(),
        forall|j: int| 0 <= j < n ==> ascii_digit(s[j]) || s[j] == '.',
        n == s.len() || !(ascii_digit(s[n]) || s[n] == '.'),
    ensures
        number_len(s) == n,
    decreases n,
{
    if n > 0 {
        let t = s.drop_first();
        assert forall|j: int| 0 <= j < n - 1 implies ascii_digit(t[j]) || t[j] == '.' by {
            assert(t[j] == s[j + 1]);
        }
        if n - 1 < t.len() {
            assert(t[n - 1] == s[n]);
        }
        lemma_number_len_exact(t, n - 1);
    }
}

/// The text of the first number in `s`: from its first ASCII digit, the run
/// of digits and dots; empty when `s` holds no digit. (The duration
/// threshold of a "slow" query is this text read as a decimal number.)
pub fn number_text(s: &str) -> (r: String)
    ensures
        r@ == number_run(s@),
{
    let v = chars_of(s);
    let n = v.len();
    let mut i: usize = 0;
    while i < n && !(48 <= (v[i] as u32) && (v[i] as u32) <= 57)
        invariant
            n == v.len(),
            v@ == s@,
            i <= n,
            forall|j: int| 0 <= j < i ==> !ascii_digit(v@[j]),
        decreases n - i,
    {
        i += 1;
    }
    proof {
        lemma_number_run_skip(v@, i as int);
    }
    if i == n {
        proof {
            assert(v@.skip(i as int).len() == 0);
        }
        return String::new();
    }
    let mut j: usize = i;
    while j < n && ((48 <= (v[j] as u32) && (v[j] as u32) <= 57) || v[j] == '.')
        invariant
            n == v.len(),
            i <= j <= n,
            forall|k: int| i <= k < j ==> ascii_digit(v@[k]) || v@[k] == '.',
        decreases n - j,
    {
        j += 1;
    }
    proof {
        let t = v@.skip(i as int);
        assert(t[0] == v@[i as int]);
        let m = (j - i) as int;
        assert forall|k: int| 0 <= k < m implies ascii_digit(t[k]) || t[k] == '.' by {
            assert(t[k] == v@[i + k]);
        }
        if m < t.len() {
            assert(t[m] == v@[j as int]);
        }
        lemma_number_len_exact(t, m);
        assert(t.take(m) == v@.subrange(i as int, j as int));
    }
    string_from_range(&v, i, j)
}

/// The natural-language query overlay: the description being typed, the
/// query generated from it with its explanation, the label names known to
/// the backend, and the past translations.
pub struct NlQuery {
    /// Whether the overlay is shown.
    pub visible: bool,
    /// Colors.
    pub theme: Theme,
    /// The description being typed.
    pub input: InputState,
    /// The query generated from the description, until it is edited.
    pub generated_query: Option<String>,
    /// One line of explanation per part of the generated query.
    pub explanation: Vec<String>,
    /// Label names known to the backend.
    pub available_labels: Vec<String>,
    /// Past translations: (description, generated query).
    pub history: Vec<(String, String)>,
}

impl NlQuery {
    /// A hidden overlay with an empty description.
    pub fn new(theme: Theme) -> (r: NlQuery)
        ensures
            !r.visible,
            r.theme == theme,
            r.input.spec_value() == Seq::<char>::empty(),
            r.generated_query is None,
            r.explanation@.len() == 0,
            r.available_labels@.len() == 0,
            r.history@.len() == 0,
    {
        NlQuery {
            visible: false,
            theme,
            input: InputState::empty(),
            generated_query: None,
            explanation: Vec::new(),
            available_labels: Vec::new(),
            history: Vec::new(),
        }
    }

    /// Show or hide the overlay; showing it starts from an empty description.
    pub fn toggle(&mut self)
        ensures
            final(self).visible == !old(self).visible,
            final(self).theme == old(self).theme,
            final(self).available_labels == old(self).available_labels,
            final(self).history == old(self).history,
            final(self).visible ==> final(self).input.spec_value() == Seq::<char>::empty()
                && final(self).input.spec_cursor() == 0 && final(self).generated_query is None
                && final(self).explanation@.len() == 0,
            !final(self).visible ==> final(self).input == old(self).input
                && final(self).generated_query == old(self).generated_query
                && final(self).explanation == old(self).explanation,
    {
        self.visible = !self.visible;
        if self.visible {
            self.input = InputState::empty();
            self.generated_query = None;
            self.explanation = Vec::new();
        }
    }

    /// Whether the overlay is shown.
    pub fn is_visible(&self) -> (b: bool)
        ensures
            b == self.visible,
    {
        self.visible
    }

    /// Set the label names known to the backend.
    pub fn set_labels(&mut self, labels: Vec<String>)
        ensures
            *final(self) == (NlQuery { available_labels: labels, ..*old(self) }),
    {
        self.available_labels = labels;
    }

    /// Translate `input` into a query, given the duration threshold (in
    /// milliseconds) that it asks for: the query and its explanation are
    /// shown, and the pair is added to the history.
    pub fn translate(&mut self, input: &str, slow_ms: u64)
        requires
            !nl_panics(input@),
        ensures
            ({
                let (q, e) = nl_translation(input@, string_views(old(self).available_labels@), slow_ms);
                &&& opt_string(final(self).generated_query) == Some(q)
                &&& string_views(final(self).explanation@) == e
                &&& final(self).history@.len() == old(self).history@.len() + 1
                &&& final(self).history@.take(old(self).history@.len() as int) == old(self).history@
                &&& final(self).history@.last().0@ == input@
                &&& final(self).history@.last().1@ == q
            }),
            final(self).visible == old(self).visible,
            final(self).theme == old(self).theme,
            final(self).input == old(self).input,
            final(self).available_labels == old(self).available_labels,
    {
        let (q, e) = translation(input, &self.available_labels, slow_ms);
        self.generated_query = Some(q.clone());
        self.explanation = e;
        let ghost before = self.history@;
        self.history.push((String::from_str(input), q));
        proof {
            assert(self.history@.take(before.len() as int) == before);
        }
    }

    /// Handle a key: Esc hides the overlay; Enter translates the
    /// description (given the duration threshold it asks for) or, once a
    /// query was generated, hides the overlay and submits it; Tab moves the
    /// generated query into the input for editing; other keys edit the
    /// description and drop the generated query.
    pub fn handle_key(&mut self, key: KeyPress, slow_ms: u64) -> (r: Option<Action>)
        requires
            key.code == Key::Enter && old(self).input.spec_value().len() > 0
                && old(self).generated_query is None ==> !nl_panics(old(self).input.spec_value()),
        ensures
            ({
                let b = *old(self);
                let a = *final(self);
                if key.code == Key::Esc {
                    a == (NlQuery { visible: false, ..b }) && r == Some(Action::Noop)
                } else if key.code == Key::Enter {
                    if b.input.spec_value().len() == 0 {
                        a == b && r == Some(Action::Noop)
                    } else if b.generated_query is None {
                        let (q, e) = nl_translation(
                            b.input.spec_value(),
                            string_views(b.available_labels@),
                            slow_ms,
                        );
                        &&& r == Some(Action::Noop)
                        &&& opt_string(a.generated_query) == Some(q)
                        &&& string_views(a.explanation@) == e
                        &&& a.history@.len() == b.history@.len() + 1
                        &&& a.history@.take(b.history@.len() as int) == b.history@
                        &&& a.history@.last().0@ == b.input.spec_value()
                        &&& a.history@.last().1@ == q
                        &&& a.visible == b.visible && a.input == b.input
                        &&& a.available_labels == b.available_labels
                    } else {
                        &&& !a.visible
                        &&& a.generated_query == b.generated_query
                        &&& a.input == b.input && a.explanation == b.explanation
                        &&& a.history == b.history && a.available_labels == b.available_labels
                        &&& r matches Some(Action::SubmitQuery(q)) && opt_string(b.generated_query)
                            == Some(q@)
                    }
                } else if key.code == Key::Tab {
                    &&& r == Some(Action::Noop)
                    &&& match opt_string(b.generated_query) {
                        Some(q) => a.input.spec_value() == q && a.input.spec_cursor() == q.len()
                            && a.generated_query is None && a.explanation@.len() == 0
                            && a.visible == b.visible && a.history == b.history
                            && a.available_labels == b.available_labels,
                        None => a == b,
                    }
                } else {
                    &&& r == Some(Action::Noop)
                    &&& input_edited(b.input, a.input, key)
                    &&& a.visible == b.visible && a.history == b.history
                    &&& a.available_labels == b.available_labels
                    &&& a.generated_query is None
                    &&& (if b.generated_query is Some {
                        a.explanation@.len() == 0
                    } else {
                        a.explanation == b.explanation
                    })
                }
            }),
    {
        if key.code == Key::Esc {
            self.visible = false;
            return Some(Action::Noop);
        }
        if key.code == Key::Enter {
            let text = String::from_str(self.input.value());
            if text.as_str().is_empty() {
                return Some(Action::Noop);
            }
            return match &self.generated_query {
                None => {
                    self.translate(text.as_str(), slow_ms);
                    Some(Action::Noop)
                },
                Some(q) => {
                    let q = q.clone();
                    self.visible = false;
                    Some(Action::SubmitQuery(q))
                },
            };
        }
        if key.code == Key::Tab {
            if let Some(q) = &self.generated_query {
                self.input = InputState::new(q.clone());
                self.generated_query = None;
                self.explanation = Vec::new();
            }
            return Some(Action::Noop);
        }
        if self.generated_query.is_some() {
            self.generated_query = None;
            self.explanation = Vec::new();
        }
        self.input.handle_key(key);
        Some(Action::Noop)
    }
}

} // verus!
