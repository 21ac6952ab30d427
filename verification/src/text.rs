//! Character-level text helpers shared by the components: truncation with an
//! ellipsis, thousands separators, and conversions between character and
//! UTF-8 byte offsets.

use vstd::prelude::*;
use vstd::utf8::*;

verus! {

broadcast use vstd::utf8::char_is_scalar;

/// Number of UTF-8 bytes that encode `c`.
pub open spec fn char_width(c: char) -> nat {
    encode_scalar(c as u32).len()
}

/// Number of UTF-8 bytes that encode the character sequence `s`.
pub open spec fn byte_len(s: Seq<char>) -> nat {
    encode_utf8(s).len()
}

/// Whether `b` is the byte offset of some character position of `s`
/// (including its end).
pub open spec fn is_char_offset(s: Seq<char>, b: int) -> bool {
    exists|k: int| 0 <= k <= s.len() && #[trigger] byte_len(s.take(k)) == b
}

/// The horizontal ellipsis character used to mark truncated text.
pub open spec fn ellipsis() -> char {
    '\u{2026}'
}

/// `s` cut to at most `max_len` characters: when it is longer, its first
/// `max_len - 1` characters followed by an ellipsis.
pub open spec fn truncated(s: Seq<char>, max_len: nat) -> Seq<char> {
    if s.len() <= max_len {
        s
    } else {
        s.take(if max_len == 0 { 0 } else { max_len - 1 }) + seq![ellipsis()]
    }
}

/// The views of a list of strings.
pub open spec fn string_views(v: Seq<String>) -> Seq<Seq<char>> {
    Seq::new(v.len(), |i: int| v[i]@)
}

/// Appends one character to a string.
#[verifier::external_body]
pub(crate) fn push_char(s: &mut String, c: char)
    ensures
        final(s)@ == old(s)@.push(c),
{
    s.push(c);
}

/// The characters of `s`, in order.
pub fn chars_of(s: &str) -> (v: Vec<char>)
    ensures
        v@ == s@,
{
    let mut v: Vec<char> = Vec::new();
    for c in it: s.chars()
        invariant
            it.seq() == s@,
            v@ == it.seq().take(it.index() as int),
    {
        v.push(c);
    }
    assert(v@ == s@.take(s@.len() as int));
    v
}

/// The string made of the characters `v[lo..hi]`.
pub fn string_from_range(v: &Vec<char>, lo: usize, hi: usize) -> (r: String)
    requires
        lo <= hi <= v.len(),
    ensures
        r@ == v@.subrange(lo as int, hi as int),
{
    let mut r = String::new();
    let mut i = lo;
    while i < hi
        invariant
            lo <= i <= hi <= v.len(),
            r@ == v@.subrange(lo as int, i as int),
        decreases hi - i,
    {
        push_char(&mut r, v[i]);
        assert(v@.subrange(lo as int, i + 1) == v@.subrange(lo as int, i as int).push(v@[i as int]));
        i += 1;
    }
    r
}

/// The string made of all the characters of `v`.
pub fn string_from_chars(v: &Vec<char>) -> (r: String)
    ensures
        r@ == v@,
{
    let r = string_from_range(v, 0, v.len());
    assert(v@.subrange(0, v@.len() as int) == v@);
    r
}

/// Whether two strings hold the same characters.
pub fn str_eq(a: &str, b: &str) -> (r: bool)
    ensures
        r == (a@ == b@),
{
    let va = chars_of(a);
    let vb = chars_of(b);
    if va.len() != vb.len() {
        return false;
    }
    let mut i: usize = 0;
    while i < va.len()
        invariant
            va.len() == vb.len(),
            va@ == a@,
            vb@ == b@,
            i <= va.len(),
            forall|j: int| 0 <= j < i ==> va@[j] == vb@[j],
        decreases va.len() - i,
    {
        if va[i] != vb[i] {
            return false;
        }
        i += 1;
    }
    assert(va@ =~= vb@);
    true
}

/// Number of UTF-8 bytes that encode `c`.
pub fn char_width_of(c: char) -> (w: usize)
    ensures
        w == char_width(c),
        1 <= w <= 4,
{
    let v = c as u32;
    if v <= 0x7F {
        1
    } else if v <= 0x7FF {
        2
    } else if v <= 0xFFFF {
        3
    } else {
        4
    }
}

/// The encoding of a concatenation is the concatenation of the encodings.
pub proof fn lemma_encode_concat(a: Seq<char>, b: Seq<char>)
    ensures
        encode_utf8(a + b) == encode_utf8(a) + encode_utf8(b),
    decreases a.len(),
{
    if a.len() == 0 {
        assert(a + b == b);
    } else {
        lemma_encode_concat(a.drop_first(), b);
        assert((a + b).drop_first() == a.drop_first() + b);
    }
}

/// Extending a prefix by one character adds that character's width.
pub proof fn lemma_byte_len_step(s: Seq<char>, k: int)
    requires
        0 <= k < s.len(),
    ensures
        byte_len(s.take(k + 1)) == byte_len(s.take(k)) + char_width(s[k]),
{
    lemma_encode_concat(s.take(k), seq![s[k]]);
    assert(s.take(k + 1) == s.take(k) + seq![s[k]]);
    let one = seq![s[k]];
    assert(one.drop_first() == Seq::<char>::empty());
    assert(encode_utf8(one.drop_first()) == Seq::<u8>::empty());
    assert(encode_utf8(one) == encode_scalar(one[0] as u32) + encode_utf8(one.drop_first()));
    assert(encode_utf8(one) =~= encode_scalar(s[k] as u32));
}

/// Byte length grows with the prefix length.
pub proof fn lemma_byte_len_monotone(s: Seq<char>, j: int, k: int)
    requires
        0 <= j <= k <= s.len(),
    ensures
        byte_len(s.take(j)) <= byte_len(s.take(k)),
        j < k ==> byte_len(s.take(j)) < byte_len(s.take(k)),
    decreases k - j,
{
    if j < k {
        lemma_byte_len_monotone(s, j, k - 1);
        lemma_byte_len_step(s, k - 1);
    }
}

/// `s` cut to at most `max_len` characters, ending in the one-character
/// ellipsis `…` when cut, as the statistics, regex playground and trace
/// views cut their text (the analytics panel cuts with three dots instead:
/// see `components::analytics_panel::truncate`).
pub fn truncate(s: &str, max_len: usize) -> (r: String)
    ensures
        r@ == truncated(s@, max_len as nat),
{
    let chars = chars_of(s);
    if chars.len() <= max_len {
        string_from_chars(&chars)
    } else {
        let keep = if max_len == 0 { 0 } else { max_len - 1 };
        let mut r = string_from_range(&chars, 0, keep);
        push_char(&mut r, '\u{2026}');
        assert(chars@.subrange(0, keep as int) == s@.take(keep as int));
        r
    }
}

/// Byte offset at which the character with index `char_idx` starts, or the
/// byte length of `s` when `char_idx` is past its end.
pub fn char_to_byte_offset(s: &str, char_idx: usize) -> (r: usize)
    ensures
        r == byte_len(s@.take(if char_idx <= s@.len() { char_idx as int } else { s@.len() as int })),
{
    let chars = chars_of(s);
    let total = s.as_bytes().len();
    let limit = if char_idx <= chars.len() { char_idx } else { chars.len() };
    let mut i: usize = 0;
    let mut bytes: usize = 0;
    proof {
        lemma_byte_len_monotone(s@, limit as int, s@.len() as int);
        assert(s@.take(s@.len() as int) == s@);
        assert(s@.take(0) == Seq::<char>::empty());
    }
    while i < limit
        invariant
            chars@ == s@,
            limit <= chars.len(),
            i <= limit,
            bytes == byte_len(s@.take(i as int)),
            byte_len(s@.take(limit as int)) <= total,
        decreases limit - i,
    {
        proof {
            lemma_byte_len_step(s@, i as int);
            lemma_byte_len_monotone(s@, i as int + 1, limit as int);
        }
        bytes = bytes + char_width_of(chars[i]);
        i += 1;
    }
    bytes
}

/// Number of characters that precede byte offset `byte_offset` of `s`,
/// which must fall on a character boundary.
pub fn byte_to_char_offset(s: &str, byte_offset: usize) -> (r: usize)
    requires
        is_char_offset(s@, byte_offset as int),
    ensures
        r <= s@.len(),
        byte_len(s@.take(r as int)) == byte_offset,
{
    let chars = chars_of(s);
    let ghost k = choose|k: int| 0 <= k <= s@.len() && #[trigger] byte_len(s@.take(k)) == byte_offset;
    let n = chars.len();
    let mut i: usize = 0;
    let mut bytes: usize = 0;
    proof {
        assert(s@.take(0) == Seq::<char>::empty());
    }
    while bytes < byte_offset
        invariant
            chars@ == s@,
            n == chars.len(),
            0 <= k <= s@.len(),
            byte_len(s@.take(k)) == byte_offset,
            i <= k,
            bytes == byte_len(s@.take(i as int)),
        decreases k - i,
    {
        proof {
            if i == k {
                assert(false);
            }
            lemma_byte_len_step(s@, i as int);
            lemma_byte_len_monotone(s@, i as int + 1, k);
        }
        assert(i < k);
        bytes = bytes + char_width_of(chars[i]);
        i += 1;
    }
    proof {
        if i < k {
            lemma_byte_len_monotone(s@, i as int, k);
        }
    }
    i
}

/// The ASCII character of decimal digit `d`.
pub open spec fn digit_char(d: nat) -> char {
    ((48 + d) as u8) as char
}

/// Decimal representation of `n`, most significant digit first.
pub open spec fn decimal(n: nat) -> Seq<char>
    decreases n,
{
    if n < 10 {
        seq![digit_char(n)]
    } else {
        decimal(n / 10).push(digit_char(n % 10))
    }
}

/// The first `i` characters of `d` with a comma inserted before every
/// character (but the first) that starts a group of three counted from the
/// right end of `d`.
pub open spec fn grouped_prefix(d: Seq<char>, i: nat) -> Seq<char>
    decreases i,
{
    if i == 0 {
        Seq::empty()
    } else {
        let j = (i - 1) as nat;
        let sep = if j > 0 && (d.len() - j) % 3 == 0 {
            seq![',']
        } else {
            Seq::empty()
        };
        grouped_prefix(d, j) + sep + seq![d[j as int]]
    }
}

/// `n` in decimal with thousands separated by commas (`1234567` gives
/// `1,234,567`).
pub open spec fn grouped_count(n: nat) -> Seq<char> {
    grouped_prefix(decimal(n), decimal(n).len())
}

/// Appends the decimal digits of `n` to `v`.
fn push_decimal(v: &mut Vec<char>, n: u64)
    ensures
        final(v)@ == old(v)@ + decimal(n as nat),
    decreases n,
{
    if n >= 10 {
        push_decimal(v, n / 10);
    }
    let d = (n % 10) as u8;
    v.push((48u8 + d) as char);
    proof {
        if n >= 10 {
            assert(old(v)@ + decimal(n as nat) == old(v)@ + decimal((n / 10) as nat) + seq![
                digit_char((n % 10) as nat)]);
        } else {
            assert(old(v)@ + decimal(n as nat) == old(v)@ + seq![digit_char((n % 10) as nat)]);
        }
    }
}

/// The decimal digits of `n`.
pub fn decimal_chars(n: u64) -> (v: Vec<char>)
    ensures
        v@ == decimal(n as nat),
{
    let mut v: Vec<char> = Vec::new();
    push_decimal(&mut v, n);
    assert(v@ == Seq::<char>::empty() + decimal(n as nat));
    v
}

/// The decimal representation of `n` as a string.
pub fn decimal_string(n: u64) -> (s: String)
    ensures
        s@ == decimal(n as nat),
{
    let v = decimal_chars(n);
    string_from_chars(&v)
}

/// Format a count with thousands separators (`1234567` gives `1,234,567`).
pub fn format_count(n: u64) -> (s: String)
    ensures
        s@ == grouped_count(n as nat),
{
    let digits = decimal_chars(n);
    let len = digits.len();
    let mut result = String::new();
    let mut i: usize = 0;
    while i < len
        invariant
            len == digits@.len(),
            digits@ == decimal(n as nat),
            i <= len,
            result@ == grouped_prefix(digits@, i as nat),
        decreases len - i,
    {
        if i > 0 && (len - i) % 3 == 0 {
            push_char(&mut result, ',');
        }
        push_char(&mut result, digits[i]);
        i += 1;
    }
    result
}

/// A trace identifier cut to at most `max_len` bytes: when it is longer, its
/// first `max_len - 1` bytes followed by an ellipsis. The cut must fall on a
/// character boundary.
pub fn truncate_id(id: &str, max_len: usize) -> (r: String)
    requires
        byte_len(id@) > max_len ==> is_char_offset(id@, if max_len == 0 { 0 } else { max_len - 1 }),
    ensures
        byte_len(id@) <= max_len ==> r@ == id@,
        byte_len(id@) > max_len ==> exists|k: int|
            0 <= k <= id@.len() && byte_len(id@.take(k)) == (if max_len == 0 { 0 } else { max_len
                - 1 }) && r@ == id@.take(k) + seq![ellipsis()],
{
    let chars = chars_of(id);
    let total = id.as_bytes().len();
    if total <= max_len {
        string_from_chars(&chars)
    } else {
        let cut = if max_len == 0 { 0 } else { max_len - 1 };
        let k = byte_to_char_offset(id, cut);
        let mut r = string_from_range(&chars, 0, k);
        push_char(&mut r, '\u{2026}');
        assert(chars@.subrange(0, k as int) == id@.take(k as int));
        r
    }
}

/// The lowercase form of `s` as Rust's `str::to_lowercase` computes it
/// (Unicode lowercase mapping, which may change the length).
pub uninterp spec fn lowercase(s: Seq<char>) -> Seq<char>;

/// Whether every character of `s` is ASCII.
pub open spec fn all_ascii(s: Seq<char>) -> bool {
    forall|i: int| 0 <= i < s.len() ==> (s[i] as u32) < 128
}

/// `s` with the ASCII capitals `A`-`Z` made small and every other
/// character kept.
pub open spec fn ascii_lowercase(s: Seq<char>) -> Seq<char> {
    Seq::new(
        s.len(),
        |i: int|
            if 65 <= (s[i] as u32) <= 90 {
                ((s[i] as u32) + 32) as char
            } else {
                s[i]
            },
    )
}

/// The lowercase form of `s` (`str::to_lowercase`). The contract names the
/// result; the Unicode case tables are not restated here, except that on
/// ASCII text it is the ASCII lowercase form (each character's lowercase
/// mapping in the Unicode tables).
#[verifier::external_body]
pub(crate) fn to_lowercase(s: &str) -> (r: String)
    ensures
        r@ == lowercase(s@),
        all_ascii(s@) ==> r@ == ascii_lowercase(s@),
{
    s.to_lowercase()
}

/// Whether `p` is a prefix of `s`.
pub open spec fn has_prefix(s: Seq<char>, p: Seq<char>) -> bool {
    p.len() <= s.len() && s.take(p.len() as int) == p
}

/// Whether `p` occurs in `s` starting at position `i`.
pub open spec fn occurs_at(s: Seq<char>, p: Seq<char>, i: int) -> bool {
    0 <= i && i + p.len() <= s.len() && s.subrange(i, i + p.len()) == p
}

/// Whether `p` occurs anywhere in `s`.
pub open spec fn has_infix(s: Seq<char>, p: Seq<char>) -> bool {
    exists|i: int| occurs_at(s, p, i)
}

/// Whether `p` occurs in `v` at position `i`.
pub fn occurs_at_exec(v: &Vec<char>, p: &Vec<char>, i: usize) -> (b: bool)
    ensures
        b == occurs_at(v@, p@, i as int),
{
    if i > v.len() || p.len() > v.len() - i {
        return false;
    }
    let mut k: usize = 0;
    while k < p.len()
        invariant
            i + p.len() <= v.len(),
            k <= p.len(),
            forall|j: int| 0 <= j < k ==> v@[i + j] == p@[j],
        decreases p.len() - k,
    {
        if v[i + k] != p[k] {
            assert(v@.subrange(i as int, i + p@.len())[k as int] != p@[k as int]);
            return false;
        }
        k += 1;
    }
    assert(v@.subrange(i as int, i + p@.len()) =~= p@);
    true
}

/// Whether `p` is a prefix of `v`.
pub fn starts_with_chars(v: &Vec<char>, p: &Vec<char>) -> (b: bool)
    ensures
        b == has_prefix(v@, p@),
{
    let r = occurs_at_exec(v, p, 0);
    proof {
        if p@.len() <= v@.len() {
            assert(v@.subrange(0, p@.len() as int) == v@.take(p@.len() as int));
        }
    }
    r
}

/// First position at or after `from` where `p` occurs in `v`.
pub fn find_from(v: &Vec<char>, p: &Vec<char>, from: usize) -> (r: Option<usize>)
    ensures
        match r {
            Some(i) => from <= i && occurs_at(v@, p@, i as int) && forall|j: int|
                from <= j < i ==> !occurs_at(v@, p@, j),
            None => forall|j: int| from <= j ==> !occurs_at(v@, p@, j),
        },
{
    if from > v.len() {
        return None;
    }
    let mut i = from;
    loop
        invariant
            from <= i <= v.len(),
            forall|j: int| from <= j < i ==> !occurs_at(v@, p@, j),
        decreases v.len() - i,
    {
        if occurs_at_exec(v, p, i) {
            return Some(i);
        }
        if i == v.len() {
            return None;
        }
        i += 1;
    }
}

/// Whether `p` occurs in `v`.
pub fn contains_chars(v: &Vec<char>, p: &Vec<char>) -> (b: bool)
    ensures
        b == has_infix(v@, p@),
{
    match find_from(v, p, 0) {
        Some(_) => true,
        None => {
            assert forall|j: int| !occurs_at(v@, p@, j) by {
                if j >= 0 {
                }
            }
            false
        },
    }
}

/// Last position at or before `upto` where `p` occurs in `v`.
pub fn rfind_upto(v: &Vec<char>, p: &Vec<char>, upto: usize) -> (r: Option<usize>)
    ensures
        match r {
            Some(i) => i <= upto && occurs_at(v@, p@, i as int) && forall|j: int|
                i < j <= upto ==> !occurs_at(v@, p@, j),
            None => forall|j: int| 0 <= j <= upto ==> !occurs_at(v@, p@, j),
        },
{
    let mut i = upto;
    loop
        invariant
            i <= upto,
            forall|j: int| i < j <= upto ==> !occurs_at(v@, p@, j),
        decreases i,
    {
        if occurs_at_exec(v, p, i) {
            return Some(i);
        }
        if i == 0 {
            return None;
        }
        i -= 1;
    }
}

/// Whether `c` has the Unicode `White_Space` property (`char::is_whitespace`).
pub open spec fn is_space(c: char) -> bool {
    let v = c as u32;
    (0x09 <= v <= 0x0D) || v == 0x20 || v == 0x85 || v == 0xA0 || v == 0x1680 || (0x2000 <= v
        <= 0x200A) || v == 0x2028 || v == 0x2029 || v == 0x202F || v == 0x205F || v == 0x3000
}

/// Whether `c` has the Unicode `White_Space` property.
pub fn is_space_char(c: char) -> (b: bool)
    ensures
        b == is_space(c),
{
    let v = c as u32;
    (0x09 <= v && v <= 0x0D) || v == 0x20 || v == 0x85 || v == 0xA0 || v == 0x1680 || (0x2000
        <= v && v <= 0x200A) || v == 0x2028 || v == 0x2029 || v == 0x202F || v == 0x205F || v
        == 0x3000
}

/// Number of leading white-space characters of `s`.
pub open spec fn leading_space(s: Seq<char>) -> nat
    decreases s.len(),
{
    if s.len() == 0 || !is_space(s[0]) {
        0
    } else {
        1 + leading_space(s.drop_first())
    }
}

/// Number of trailing white-space characters of `s`.
pub open spec fn trailing_space(s: Seq<char>) -> nat
    decreases s.len(),
{
    if s.len() == 0 || !is_space(s.last()) {
        0
    } else {
        1 + trailing_space(s.drop_last())
    }
}

/// `s` without leading white space (`str::trim_start`).
pub open spec fn trim_start(s: Seq<char>) -> Seq<char> {
    s.skip(leading_space(s) as int)
}

/// `s` without trailing white space (`str::trim_end`).
pub open spec fn trim_end(s: Seq<char>) -> Seq<char> {
    s.take(s.len() - trailing_space(s))
}

/// `s` without leading or trailing white space (`str::trim`).
pub open spec fn trim(s: Seq<char>) -> Seq<char> {
    trim_end(trim_start(s))
}

/// Leading white space never exceeds the length.
pub proof fn lemma_leading_space_bound(s: Seq<char>)
    ensures
        leading_space(s) <= s.len(),
        forall|i: int| 0 <= i < leading_space(s) ==> is_space(#[trigger] s[i]),
        leading_space(s) < s.len() ==> !is_space(s[leading_space(s) as int]),
    decreases s.len(),
{
    if s.len() > 0 && is_space(s[0]) {
        lemma_leading_space_bound(s.drop_first());
        assert forall|i: int| 0 <= i < leading_space(s) implies is_space(#[trigger] s[i]) by {
            if i > 0 {
                assert(s[i] == s.drop_first()[i - 1]);
            }
        }
    }
}

/// Trailing white space never exceeds the length.
pub proof fn lemma_trailing_space_bound(s: Seq<char>)
    ensures
        trailing_space(s) <= s.len(),
        forall|i: int| s.len() - trailing_space(s) <= i < s.len() ==> is_space(#[trigger] s[i]),
        trailing_space(s) < s.len() ==> !is_space(s[s.len() - trailing_space(s) - 1]),
    decreases s.len(),
{
    if s.len() > 0 && is_space(s.last()) {
        lemma_trailing_space_bound(s.drop_last());
        assert forall|i: int| s.len() - trailing_space(s) <= i < s.len() implies is_space(
            #[trigger] s[i],
        ) by {
            if i < s.len() - 1 {
                assert(s[i] == s.drop_last()[i]);
            }
        }
    }
}

/// Number of leading white-space characters of `v[lo..hi]`.
pub fn count_leading_space(v: &Vec<char>, lo: usize, hi: usize) -> (n: usize)
    requires
        lo <= hi <= v.len(),
    ensures
        n == leading_space(v@.subrange(lo as int, hi as int)),
        lo + n <= hi,
{
    let mut i = lo;
    while i < hi && is_space_char(v[i])
        invariant
            lo <= i <= hi <= v.len(),
            forall|j: int| lo <= j < i ==> is_space(v@[j]),
        decreases hi - i,
    {
        i += 1;
    }
    proof {
        let s = v@.subrange(lo as int, hi as int);
        lemma_leading_space_bound(s);
        let n = (i - lo) as int;
        assert forall|j: int| 0 <= j < n implies is_space(s[j]) by {
            assert(s[j] == v@[lo + j]);
        }
        lemma_leading_space_exact(s, n);
    }
    i - lo
}

/// The leading white space is exactly the first run of spaces.
pub proof fn lemma_leading_space_exact(s: Seq<char>, n: int)
    requires
        0 <= n <= s.len(),
        forall|j: int| 0 <= j < n ==> is_space(s[j]),
        n == s.len() || !is_space(s[n]),
    ensures
        leading_space(s) == n,
    decreases n,
{
    if n > 0 {
        let t = s.drop_first();
        assert forall|j: int| 0 <= j < n - 1 implies is_space(t[j]) by {
            assert(t[j] == s[j + 1]);
        }
        if n - 1 < t.len() {
            assert(t[n - 1] == s[n]);
        }
        lemma_leading_space_exact(t, n - 1);
    }
}

/// The trailing white space is exactly the last run of spaces.
pub proof fn lemma_trailing_space_exact(s: Seq<char>, n: int)
    requires
        0 <= n <= s.len(),
        forall|j: int| s.len() - n <= j < s.len() ==> is_space(s[j]),
        n == s.len() || !is_space(s[s.len() - n - 1]),
    ensures
        trailing_space(s) == n,
    decreases n,
{
    if n > 0 {
        let t = s.drop_last();
        assert forall|j: int| t.len() - (n - 1) <= j < t.len() implies is_space(t[j]) by {
            assert(t[j] == s[j]);
        }
        if n - 1 < t.len() {
            assert(t[t.len() - (n - 1) - 1] == s[s.len() - n - 1]);
        }
        lemma_trailing_space_exact(t, n - 1);
    }
}

/// Number of trailing white-space characters of `v[lo..hi]`.
pub fn count_trailing_space(v: &Vec<char>, lo: usize, hi: usize) -> (n: usize)
    requires
        lo <= hi <= v.len(),
    ensures
        n == trailing_space(v@.subrange(lo as int, hi as int)),
        lo + n <= hi,
{
    let mut i = hi;
    while i > lo && is_space_char(v[i - 1])
        invariant
            lo <= i <= hi <= v.len(),
            forall|j: int| i <= j < hi ==> is_space(v@[j]),
        decreases i - lo,
    {
        i -= 1;
    }
    proof {
        let s = v@.subrange(lo as int, hi as int);
        let n = (hi - i) as int;
        assert forall|j: int| s.len() - n <= j < s.len() implies is_space(s[j]) by {
            assert(s[j] == v@[lo + j]);
        }
        if n < s.len() {
            assert(s[s.len() - n - 1] == v@[i - 1]);
        }
        lemma_trailing_space_exact(s, n);
    }
    hi - i
}

/// The characters `v[lo..hi]`.
pub fn slice_chars(v: &Vec<char>, lo: usize, hi: usize) -> (r: Vec<char>)
    requires
        lo <= hi <= v.len(),
    ensures
        r@ == v@.subrange(lo as int, hi as int),
{
    let mut r: Vec<char> = Vec::new();
    let mut i = lo;
    while i < hi
        invariant
            lo <= i <= hi <= v.len(),
            r@ == v@.subrange(lo as int, i as int),
        decreases hi - i,
    {
        r.push(v[i]);
        assert(v@.subrange(lo as int, i + 1) == v@.subrange(lo as int, i as int).push(v@[i as int]));
        i += 1;
    }
    r
}


/// The characters of `v` without leading or trailing white space.
pub fn trim_chars(v: &Vec<char>) -> (r: Vec<char>)
    ensures
        r@ == trim(v@),
{
    let n = v.len();
    let lead = count_leading_space(v, 0, n);
    proof {
        assert(v@.subrange(0, n as int) == v@);
    }
    let trail = count_trailing_space(v, lead, n);
    proof {
        assert(v@.subrange(lead as int, n as int) == trim_start(v@));
        assert(trim_start(v@).take(trim_start(v@).len() - trail) == v@.subrange(
            lead as int,
            (n - trail) as int,
        ));
    }
    slice_chars(v, lead, n - trail)
}

/// Whether byte offset `b` of `s` falls on a character boundary.
pub fn is_char_boundary(s: &Vec<char>, b: usize) -> (r: bool)
    ensures
        r == is_char_offset(s@, b as int),
{
    let n = s.len();
    let mut i: usize = 0;
    let mut bytes: usize = 0;
    proof {
        assert(s@.take(0) == Seq::<char>::empty());
    }
    while i < n && bytes < b
        invariant
            n == s.len(),
            i <= n,
            bytes == byte_len(s@.take(i as int)),
            forall|k: int| 0 <= k < i ==> byte_len(#[trigger] s@.take(k)) < b,
        decreases n - i,
    {
        proof {
            lemma_byte_len_step(s@, i as int);
        }
        let w = char_width_of(s[i]);
        if w > b || bytes > b - w {
            proof {
                assert forall|k: int| 0 <= k <= s@.len() implies byte_len(#[trigger] s@.take(k))
                    != b by {
                    if k > i {
                        lemma_byte_len_monotone(s@, i as int + 1, k);
                    }
                }
            }
            return false;
        }
        bytes = bytes + w;
        i += 1;
    }
    if bytes == b {
        return true;
    }
    proof {
        assert forall|k: int| 0 <= k <= s@.len() implies byte_len(#[trigger] s@.take(k)) != b by {
            if k > i {
                lemma_byte_len_monotone(s@, i as int, k);
            }
        }
    }
    false
}

/// The value of the decimal digits `s` (most significant first).
pub open spec fn digits_value(s: Seq<char>) -> nat
    decreases s.len(),
{
    if s.len() == 0 {
        0
    } else {
        digits_value(s.drop_last()) * 10 + ((s.last() as u32) - 48) as nat
    }
}

/// Whether every character of `s` is an ASCII decimal digit.
pub open spec fn all_decimal(s: Seq<char>) -> bool {
    forall|i: int| 0 <= i < s.len() ==> 48 <= (#[trigger] s[i] as u32) <= 57
}

/// What `str::parse::<u8>` gives for `s`: an optional `+` followed by at
/// least one decimal digit, whose value fits in a byte.
pub open spec fn decimal_u8(s: Seq<char>) -> Option<u8> {
    let d = if s.len() > 1 && s[0] == '+' { s.drop_first() } else { s };
    if d.len() > 0 && all_decimal(d) && digits_value(d) < 256 {
        Some(digits_value(d) as u8)
    } else {
        None
    }
}

/// Parses a byte written in decimal, as `str::parse::<u8>` does.
pub fn parse_decimal_u8(v: &Vec<char>) -> (r: Option<u8>)
    ensures
        r == decimal_u8(v@),
{
    let start: usize = if v.len() > 1 && v[0] == '+' { 1 } else { 0 };
    let ghost d = if v@.len() > 1 && v@[0] == '+' { v@.drop_first() } else { v@ };
    proof {
        assert(d == v@.subrange(start as int, v@.len() as int));
    }
    if start == v.len() {
        return None;
    }
    let mut acc: u32 = 0;
    let mut i = start;
    proof {
        assert(v@.subrange(start as int, start as int) == Seq::<char>::empty());
    }
    while i < v.len()
        invariant
            start <= i <= v.len(),
            d == v@.subrange(start as int, v@.len() as int),
            d == (if v@.len() > 1 && v@[0] == '+' { v@.drop_first() } else { v@ }),
            forall|j: int| start <= j < i ==> 48 <= (#[trigger] v@[j] as u32) <= 57,
            acc == (if digits_value(v@.subrange(start as int, i as int)) < 256 {
                digits_value(v@.subrange(start as int, i as int))
            } else {
                256
            }),
        decreases v.len() - i,
    {
        let c = v[i] as u32;
        if c < 48 || c > 57 {
            proof {
                assert(d[i - start] == v@[i as int]);
                assert(!all_decimal(d));
            }
            return None;
        }
        let ghost pre = v@.subrange(start as int, i as int);
        proof {
            let next = v@.subrange(start as int, i + 1);
            assert(next.drop_last() == pre);
            assert(next.last() == v@[i as int]);
        }
        if acc < 256 {
            acc = acc * 10 + (c - 48);
            if acc > 256 {
                acc = 256;
            }
        }
        i += 1;
    }
    proof {
        assert(v@.subrange(start as int, i as int) == d);
        assert forall|j: int| 0 <= j < d.len() implies 48 <= (#[trigger] d[j] as u32) <= 57 by {
            assert(d[j] == v@[start + j]);
        }
    }
    if acc < 256 {
        Some(acc as u8)
    } else {
        None
    }
}


/// Number of leading characters of `s` that are not white space.
pub open spec fn word_len(s: Seq<char>) -> nat
    decreases s.len(),
{
    if s.len() == 0 || is_space(s[0]) {
        0
    } else {
        1 + word_len(s.drop_first())
    }
}

/// A word never runs past the end, holds no white space, and stops at white space.
pub proof fn lemma_word_len(s: Seq<char>)
    ensures
        word_len(s) <= s.len(),
        forall|i: int| 0 <= i < word_len(s) ==> !is_space(#[trigger] s[i]),
        word_len(s) < s.len() ==> is_space(s[word_len(s) as int]),
    decreases s.len(),
{
    if s.len() > 0 && !is_space(s[0]) {
        lemma_word_len(s.drop_first());
        assert forall|i: int| 0 <= i < word_len(s) implies !is_space(#[trigger] s[i]) by {
            if i > 0 {
                assert(s[i] == s.drop_first()[i - 1]);
            }
        }
    }
}

/// The leading word is exactly the first run of non-space characters.
pub proof fn lemma_word_len_exact(s: Seq<char>, n: int)
    requires
        0 <= n <= s.len(),
        forall|j: int| 0 <= j < n ==> !is_space(s[j]),
        n == s.len() || is_space(s[n]),
    ensures
        word_len(s) == n,
    decreases n,
{
    if n > 0 {
        let t = s.drop_first();
        assert forall|j: int| 0 <= j < n - 1 implies !is_space(t[j]) by {
            assert(t[j] == s[j + 1]);
        }
        if n - 1 < t.len() {
            assert(t[n - 1] == s[n]);
        }
        lemma_word_len_exact(t, n - 1);
    }
}

/// The white-space separated words of `s`, in order (`str::split_whitespace`).
pub open spec fn words(s: Seq<char>) -> Seq<Seq<char>>
    decreases s.len(),
{
    if s.len() == 0 {
        seq![]
    } else if is_space(s[0]) {
        words(s.drop_first())
    } else {
        proof {
            lemma_word_len(s);
        }
        seq![s.take(word_len(s) as int)] + words(s.skip(word_len(s) as int))
    }
}

/// The views of a list of character vectors.
pub open spec fn char_vec_views(v: Seq<Vec<char>>) -> Seq<Seq<char>> {
    Seq::new(v.len(), |i: int| v[i]@)
}

/// The words of `v`, as `str::split_whitespace` yields them.
pub fn split_words(v: &Vec<char>) -> (r: Vec<Vec<char>>)
    ensures
        char_vec_views(r@) == words(v@),
{
    let mut r: Vec<Vec<char>> = Vec::new();
    let mut i: usize = 0;
    proof {
        assert(v@.skip(0) == v@);
        assert(char_vec_views(r@) == Seq::<Seq<char>>::empty());
        assert(char_vec_views(r@) + words(v@) == words(v@));
    }
    while i < v.len()
        invariant
            i <= v.len(),
            char_vec_views(r@) + words(v@.skip(i as int)) == words(v@),
        decreases v.len() - i,
    {
        let ghost s = v@.skip(i as int);
        proof {
            assert(s[0] == v@[i as int]);
        }
        if is_space_char(v[i]) {
            proof {
                assert(s.drop_first() == v@.skip(i + 1));
            }
            i += 1;
        } else {
            let mut j = i;
            while j < v.len() && !is_space_char(v[j])
                invariant
                    i <= j <= v.len(),
                    forall|k: int| i <= k < j ==> !is_space(v@[k]),
                decreases v.len() - j,
            {
                j += 1;
            }
            proof {
                let n = (j - i) as int;
                assert forall|k: int| 0 <= k < n implies !is_space(s[k]) by {
                    assert(s[k] == v@[i + k]);
                }
                if n < s.len() {
                    assert(s[n] == v@[j as int]);
                }
                lemma_word_len_exact(s, n);
                assert(s.take(n) == v@.subrange(i as int, j as int));
                assert(s.skip(n) == v@.skip(j as int));
            }
            let w = slice_chars(v, i, j);
            let ghost before = char_vec_views(r@);
            r.push(w);
            proof {
                assert(char_vec_views(r@) == before.push(w@));
                assert(before.push(w@) + words(v@.skip(j as int)) == before + (seq![s.take(
                    (j - i) as int,
                )] + words(s.skip((j - i) as int))));
            }
            i = j;
        }
    }
    proof {
        assert(v@.skip(i as int).len() == 0);
        assert(char_vec_views(r@) + Seq::<Seq<char>>::empty() == char_vec_views(r@));
    }
    r
}

/// The strings of `ws` joined with `sep` between neighbours (`slice::join`).
pub open spec fn join_words(ws: Seq<Seq<char>>, sep: Seq<char>) -> Seq<char>
    decreases ws.len(),
{
    if ws.len() == 0 {
        seq![]
    } else if ws.len() == 1 {
        ws[0]
    } else {
        join_words(ws.drop_last(), sep) + sep + ws.last()
    }
}

/// The character vectors `ws` joined with `sep` between neighbours.
pub fn join_char_vecs(ws: &Vec<Vec<char>>, sep: &str) -> (r: String)
    ensures
        r@ == join_words(char_vec_views(ws@), sep@),
{
    let mut r = String::new();
    let mut i: usize = 0;
    while i < ws.len()
        invariant
            i <= ws.len(),
            r@ == join_words(char_vec_views(ws@).take(i as int), sep@),
        decreases ws.len() - i,
    {
        let ghost views = char_vec_views(ws@);
        proof {
            assert(views.take(i + 1).drop_last() == views.take(i as int));
            assert(views.take(i + 1).last() == ws@[i as int]@);
        }
        if i > 0 {
            r.append(sep);
        }
        let w = string_from_chars(&ws[i]);
        r.append(w.as_str());
        proof {
            if i == 0 {
                assert(views.take(1)[0] == ws@[0]@);
                assert(r@ == Seq::<char>::empty() + ws@[0]@);
            }
        }
        i += 1;
    }
    proof {
        assert(char_vec_views(ws@).take(ws@.len() as int) == char_vec_views(ws@));
    }
    r
}

/// The strings `ws` joined with `sep` between neighbours.
pub fn join_strings(ws: &Vec<String>, sep: &str) -> (r: String)
    ensures
        r@ == join_words(string_views(ws@), sep@),
{
    let mut r = String::new();
    let mut i: usize = 0;
    while i < ws.len()
        invariant
            i <= ws.len(),
            r@ == join_words(string_views(ws@).take(i as int), sep@),
        decreases ws.len() - i,
    {
        let ghost views = string_views(ws@);
        proof {
            assert(views.take(i + 1).drop_last() == views.take(i as int));
            assert(views.take(i + 1).last() == ws@[i as int]@);
        }
        if i > 0 {
            r.append(sep);
        }
        r.append(ws[i].as_str());
        proof {
            if i == 0 {
                assert(views.take(1)[0] == ws@[0]@);
                assert(r@ == Seq::<char>::empty() + ws@[0]@);
            }
        }
        i += 1;
    }
    proof {
        assert(string_views(ws@).take(ws@.len() as int) == string_views(ws@));
    }
    r
}

/// Position of the first occurrence of `p` in `s` at or after `i`.
pub open spec fn first_occurrence(s: Seq<char>, p: Seq<char>, i: int) -> Option<int>
    decreases s.len() - i,
{
    if i < 0 || i > s.len() {
        None
    } else if occurs_at(s, p, i) {
        Some(i)
    } else if i == s.len() {
        None
    } else {
        first_occurrence(s, p, i + 1)
    }
}

/// An occurrence with none before it, from `from` on, is the first one.
pub proof fn lemma_first_occurrence_found(s: Seq<char>, p: Seq<char>, from: int, i: int)
    requires
        0 <= from <= i,
        occurs_at(s, p, i),
        forall|j: int| from <= j < i ==> !occurs_at(s, p, j),
    ensures
        first_occurrence(s, p, from) == Some(i),
    decreases i - from,
{
    if from < i {
        lemma_first_occurrence_found(s, p, from + 1, i);
    }
}

/// With no occurrence from `from` on, there is no first one.
pub proof fn lemma_first_occurrence_none(s: Seq<char>, p: Seq<char>, from: int)
    requires
        0 <= from,
        forall|j: int| from <= j ==> !occurs_at(s, p, j),
    ensures
        first_occurrence(s, p, from) is None,
    decreases s.len() - from,
{
    if from < s.len() {
        lemma_first_occurrence_none(s, p, from + 1);
    }
}

/// Position of the first occurrence of `p` in `v` (`str::find`, counted in characters).
pub fn find_first(v: &Vec<char>, p: &Vec<char>) -> (r: Option<usize>)
    ensures
        match r {
            Some(i) => first_occurrence(v@, p@, 0) == Some(i as int),
            None => first_occurrence(v@, p@, 0) is None,
        },
{
    let r = find_from(v, p, 0);
    proof {
        match r {
            Some(i) => lemma_first_occurrence_found(v@, p@, 0, i as int),
            None => lemma_first_occurrence_none(v@, p@, 0),
        }
    }
    r
}

/// The character position of `s` at byte offset `b`.
pub open spec fn char_at_byte(s: Seq<char>, b: int) -> int {
    choose|k: int| 0 <= k <= s.len() && byte_len(s.take(k)) == b
}

/// Byte offsets of character positions determine the positions.
pub proof fn lemma_char_at_byte(s: Seq<char>, k: int)
    requires
        0 <= k <= s.len(),
    ensures
        char_at_byte(s, byte_len(s.take(k)) as int) == k,
{
    let b = byte_len(s.take(k)) as int;
    assert(0 <= k <= s.len() && byte_len(s.take(k)) == b);
    let c = char_at_byte(s, b);
    if c < k {
        lemma_byte_len_monotone(s, c, k);
    } else if c > k {
        lemma_byte_len_monotone(s, k, c);
    }
}


/// The characters of `v` without leading white space.
pub fn trim_start_chars(v: &Vec<char>) -> (r: Vec<char>)
    ensures
        r@ == trim_start(v@),
{
    let lead = count_leading_space(v, 0, v.len());
    proof {
        assert(v@.subrange(0, v@.len() as int) == v@);
        assert(v@.skip(lead as int) == v@.subrange(lead as int, v@.len() as int));
    }
    slice_chars(v, lead, v.len())
}

/// Number of UTF-8 bytes that encode the characters of `v`.
pub fn byte_len_of(v: &Vec<char>) -> (n: usize)
    ensures
        n == byte_len(v@),
{
    let s = string_from_chars(v);
    let n = char_to_byte_offset(s.as_str(), v.len());
    proof {
        assert(v@.take(v@.len() as int) == v@);
    }
    n
}


/// The first occurrence is an occurrence, at or after the start.
pub proof fn lemma_first_occurrence_bound(s: Seq<char>, p: Seq<char>, from: int)
    ensures
        match first_occurrence(s, p, from) {
            Some(k) => from <= k <= s.len() && occurs_at(s, p, k),
            None => true,
        },
    decreases s.len() - from,
{
    if 0 <= from < s.len() && !occurs_at(s, p, from) {
        lemma_first_occurrence_bound(s, p, from + 1);
    }
}

/// Whether `a` comes strictly before `b` in lexicographic order of
/// characters (by code point).
pub open spec fn lex_lt(a: Seq<char>, b: Seq<char>) -> bool
    decreases a.len(),
{
    if a.len() == 0 {
        b.len() > 0
    } else if b.len() == 0 {
        false
    } else if a[0] != b[0] {
        (a[0] as int) < (b[0] as int)
    } else {
        lex_lt(a.drop_first(), b.drop_first())
    }
}

/// Whether `a` comes strictly before `b`, character by character.
pub fn lex_less(a: &Vec<char>, b: &Vec<char>) -> (r: bool)
    ensures
        r == lex_lt(a@, b@),
{
    let mut i: usize = 0;
    assert(a@.skip(0) == a@);
    assert(b@.skip(0) == b@);
    while i < a.len() && i < b.len() && a[i] == b[i]
        invariant
            i <= a@.len(),
            i <= b@.len(),
            lex_lt(a@, b@) == lex_lt(a@.skip(i as int), b@.skip(i as int)),
        decreases a@.len() - i,
    {
        assert(a@.skip(i as int).drop_first() == a@.skip(i + 1));
        assert(b@.skip(i as int).drop_first() == b@.skip(i + 1));
        i += 1;
    }
    if i == a.len() {
        i < b.len()
    } else if i == b.len() {
        false
    } else {
        a[i] < b[i]
    }
}

/// Lexicographic order is transitive.
pub proof fn lemma_lex_transitive(a: Seq<char>, b: Seq<char>, c: Seq<char>)
    requires
        lex_lt(a, b),
        lex_lt(b, c),
    ensures
        lex_lt(a, c),
    decreases a.len(),
{
    if a.len() > 0 && b.len() > 0 && c.len() > 0 && a[0] == b[0] && b[0] == c[0] {
        lemma_lex_transitive(a.drop_first(), b.drop_first(), c.drop_first());
    }
}

/// Of two different sequences one comes first, and never both.
pub proof fn lemma_lex_total(a: Seq<char>, b: Seq<char>)
    ensures
        a != b ==> lex_lt(a, b) || lex_lt(b, a),
        !(lex_lt(a, b) && lex_lt(b, a)),
        !lex_lt(a, a),
    decreases a.len(),
{
    if a.len() > 0 && b.len() > 0 && a[0] != b[0] {
        assert((a[0] as int) != (b[0] as int));
    }
    if a.len() == 0 && b.len() == 0 {
        assert(a =~= b);
    }
    if a.len() > 0 && b.len() > 0 && a[0] == b[0] {
        lemma_lex_total(a.drop_first(), b.drop_first());
        if a != b {
            assert(a.drop_first() != b.drop_first()) by {
                if a.drop_first() == b.drop_first() {
                    assert(a =~= seq![a[0]] + a.drop_first());
                    assert(b =~= seq![b[0]] + b.drop_first());
                }
            }
        }
    }
    if a.len() > 0 {
        lemma_lex_total(a.drop_first(), a.drop_first());
    }
}


/// `t` without one trailing carriage return.
pub open spec fn strip_cr(t: Seq<char>) -> Seq<char> {
    if t.len() > 0 && t.last() == '\r' {
        t.drop_last()
    } else {
        t
    }
}

/// The lines of `s` from a line that starts at `start`, scanning from `i`:
/// each newline ends a line (dropping a carriage return just before it),
/// and what follows the last newline is a line when it is not empty.
pub open spec fn lines_from(s: Seq<char>, start: int, i: int) -> Seq<Seq<char>>
    decreases s.len() - i,
{
    if i >= s.len() {
        if start < s.len() {
            seq![s.subrange(start, s.len() as int)]
        } else {
            seq![]
        }
    } else if s[i] == '\n' {
        seq![strip_cr(s.subrange(start, i))] + lines_from(s, i + 1, i + 1)
    } else {
        lines_from(s, start, i + 1)
    }
}

/// The lines of `s`, as `str::lines` splits them.
pub open spec fn text_lines(s: Seq<char>) -> Seq<Seq<char>> {
    lines_from(s, 0, 0)
}

/// The lines of `text`, as `str::lines` splits them.
pub fn split_lines(text: &str) -> (r: Vec<String>)
    ensures
        string_views(r@) == text_lines(text@),
{
    let v = chars_of(text);
    let mut out: Vec<String> = Vec::new();
    let mut start: usize = 0;
    let mut i: usize = 0;
    while i < v.len()
        invariant
            v@ == text@,
            start <= i <= v@.len(),
            text_lines(v@) == string_views(out@) + lines_from(v@, start as int, i as int),
        decreases v@.len() - i,
    {
        if v[i] == '\n' {
            let end = if i > start && v[i - 1] == '\r' { i - 1 } else { i };
            let piece = string_from_range(&v, start, end);
            proof {
                assert(piece@ == strip_cr(v@.subrange(start as int, i as int)));
            }
            let ghost before = string_views(out@);
            out.push(piece);
            proof {
                let rest = lines_from(v@, i + 1, i + 1);
                assert(string_views(out@) =~= before + seq![piece@]);
                assert(before + (seq![piece@] + rest) =~= (before + seq![piece@]) + rest);
            }
            start = i + 1;
        }
        i += 1;
    }
    if start < v.len() {
        let ghost before = string_views(out@);
        let piece = string_from_range(&v, start, v.len());
        out.push(piece);
        proof {
            assert(string_views(out@) =~= before + seq![piece@]);
        }
    } else {
        proof {
            assert(string_views(out@) + Seq::<Seq<char>>::empty() =~= string_views(out@));
        }
    }
    out
}

} // verus!
