//! Regular expressions, compiled and run by the `regex` crate.
//!
//! A [`CompiledRegex`] keeps the pattern text it was compiled from, so that
//! contracts can speak of what a match or a replacement gives for that text.

use vstd::prelude::*;
use crate::text::is_char_offset;

verus! {

#[verifier::external_type_specification]
#[verifier::external_body]
pub struct ExRegex(regex::Regex);

/// Whether `regex` accepts `pattern` (`Regex::new(pattern)` returns `Ok`).
pub uninterp spec fn regex_compiles(pattern: Seq<char>) -> bool;

/// Whether the regex compiled from `pattern` matches somewhere in `hay`.
pub uninterp spec fn regex_is_match(pattern: Seq<char>, hay: Seq<char>) -> bool;

/// `hay` with every non-overlapping match of the regex compiled from
/// `pattern` replaced by `rep` (`Regex::replace_all`).
pub uninterp spec fn regex_replaced(pattern: Seq<char>, hay: Seq<char>, rep: Seq<char>) -> Seq<char>;

/// The message `regex` gives for refusing `pattern` (the error's
/// `Display` text).
pub uninterp spec fn regex_error_text(pattern: Seq<char>) -> Seq<char>;

/// For each capture group of the first match of `pattern` in `hay`, in
/// order (group 0 is the whole match): its byte range and text when it took
/// part in the match. Empty when there is no match (`Regex::captures`).
pub uninterp spec fn regex_captures(pattern: Seq<char>, hay: Seq<char>) -> Seq<Option<(usize, usize, Seq<char>)>>;

/// The names of the capture groups of `pattern`, in order (group 0 and
/// unnamed groups have none) (`Regex::capture_names`).
pub uninterp spec fn regex_capture_names(pattern: Seq<char>) -> Seq<Option<Seq<char>>>;

/// The byte ranges of the successive non-overlapping matches of `pattern`
/// in `hay`, in order (`Regex::find_iter`, each match taken as its start and
/// end).
pub uninterp spec fn regex_find_ranges(pattern: Seq<char>, hay: Seq<char>) -> Seq<(usize, usize)>;

/// Each range of `rs` starts no later than it ends, and both its ends fall
/// on character boundaries of `hay`.
pub open spec fn ranges_in_text(hay: Seq<char>, rs: Seq<(usize, usize)>) -> bool {
    forall|i: int|
        0 <= i < rs.len() ==> {
            &&& #[trigger] rs[i].0 <= rs[i].1
            &&& is_char_offset(hay, rs[i].0 as int)
            &&& is_char_offset(hay, rs[i].1 as int)
        }
}

/// Ranges as `regex` reports matches of `hay`: inside the text, and each
/// ending no later than the next one starts.
pub open spec fn match_ranges_ok(hay: Seq<char>, rs: Seq<(usize, usize)>) -> bool {
    &&& ranges_in_text(hay, rs)
    &&& forall|i: int, j: int| 0 <= i < j < rs.len() ==> #[trigger] rs[i].1 <= #[trigger] rs[j].0
}

/// The characters that `regex` treats as meta characters.
pub open spec fn is_meta_char(c: char) -> bool {
    c == '\\' || c == '.' || c == '+' || c == '*' || c == '?' || c == '(' || c == ')' || c == '|'
        || c == '[' || c == ']' || c == '{' || c == '}' || c == '^' || c == '$' || c == '#'
        || c == '&' || c == '-' || c == '~'
}

/// `s` with a backslash put before every meta character.
pub open spec fn escaped(s: Seq<char>) -> Seq<char>
    decreases s.len(),
{
    if s.len() == 0 {
        Seq::empty()
    } else {
        let c = s.last();
        escaped(s.drop_last()) + if is_meta_char(c) {
            seq!['\\', c]
        } else {
            seq![c]
        }
    }
}

/// A regular expression together with the pattern it was compiled from.
/// Only [`compile`] builds one.
pub struct CompiledRegex {
    source: String,
    re: regex::Regex,
}

impl CompiledRegex {
    /// The pattern this regex was compiled from.
    pub closed spec fn spec_source(&self) -> Seq<char> {
        self.source@
    }

    /// The pattern this regex was compiled from.
    pub fn source(&self) -> (s: &str)
        ensures
            s@ == self.spec_source(),
    {
        self.source.as_str()
    }
}

/// Compiles `pattern` (`regex::Regex::new`); where the crate refuses it,
/// its error message. The compiled regex keeps `pattern` as its source.
#[verifier::external_body]
pub(crate) fn compile(pattern: &str) -> (r: Result<CompiledRegex, String>)
    ensures
        r is Ok <==> regex_compiles(pattern@),
        r matches Ok(c) ==> c.spec_source() == pattern@,
        r matches Err(e) ==> e@ == regex_error_text(pattern@),
{
    match regex::Regex::new(pattern) {
        Ok(re) => Ok(CompiledRegex { source: pattern.to_string(), re }),
        Err(e) => Err(e.to_string()),
    }
}

/// Whether `re` matches somewhere in `hay` (`Regex::is_match`).
#[verifier::external_body]
pub(crate) fn is_match(re: &CompiledRegex, hay: &str) -> (b: bool)
    ensures
        b == regex_is_match(re.spec_source(), hay@),
{
    re.re.is_match(hay)
}

/// `hay` with every match of `re` replaced by `rep` (`Regex::replace_all`).
#[verifier::external_body]
pub(crate) fn replace_all(re: &CompiledRegex, hay: &str, rep: &str) -> (s: String)
    ensures
        s@ == regex_replaced(re.spec_source(), hay@, rep@),
{
    re.re.replace_all(hay, rep).into_owned()
}

/// The capture groups of the first match of `re` in `hay`
/// (`Regex::captures`, each group taken as its range and text).
#[verifier::external_body]
pub(crate) fn captures(re: &CompiledRegex, hay: &str) -> (v: Vec<Option<(usize, usize, String)>>)
    ensures
        string_captures(v@) == regex_captures(re.spec_source(), hay@),
        v@.len() > 0 ==> v@[0] is Some,
{
    match re.re.captures(hay) {
        Some(caps) => caps.iter().map(|g| g.map(|m| (m.start(), m.end(), m.as_str().to_string()))).collect(),
        None => Vec::new(),
    }
}

/// The capture groups' names of `re` (`Regex::capture_names`).
#[verifier::external_body]
pub(crate) fn capture_names(re: &CompiledRegex) -> (v: Vec<Option<String>>)
    ensures
        optional_views(v@) == regex_capture_names(re.spec_source()),
{
    re.re.capture_names().map(|n| n.map(|x| x.to_string())).collect()
}

/// The byte ranges of the successive non-overlapping matches of `re` in
/// `hay` (`Regex::find_iter`). The crate documents that a match starts no
/// later than it ends, that both ends fall on character boundaries, and that
/// the matches come in order without overlapping.
#[verifier::external_body]
pub(crate) fn find_ranges(re: &CompiledRegex, hay: &str) -> (v: Vec<(usize, usize)>)
    ensures
        v@ == regex_find_ranges(re.spec_source(), hay@),
        match_ranges_ok(hay@, v@),
{
    re.re.find_iter(hay).map(|m| (m.start(), m.end())).collect()
}

/// The captures with their texts as characters.
pub open spec fn string_captures(v: Seq<Option<(usize, usize, String)>>) -> Seq<Option<(usize, usize, Seq<char>)>> {
    Seq::new(
        v.len(),
        |i: int|
            match v[i] {
                Some((a, b, t)) => Some((a, b, t@)),
                None => None,
            },
    )
}

/// Optional strings as optional characters.
pub open spec fn optional_views(v: Seq<Option<String>>) -> Seq<Option<Seq<char>>> {
    Seq::new(
        v.len(),
        |i: int|
            match v[i] {
                Some(t) => Some(t@),
                None => None,
            },
    )
}

/// `text` with every meta character escaped by a backslash
/// (`regex::escape`), so that it matches itself literally.
#[verifier::external_body]
pub(crate) fn escape(text: &str) -> (s: String)
    ensures
        s@ == escaped(text@),
{
    regex::escape(text)
}

} // verus!
