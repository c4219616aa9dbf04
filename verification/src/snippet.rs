//! The snippet shown for a literal-search hit: the first line of a chunk that
//! matches the query (as text or as a regular expression), cut to a window of
//! characters around the match.

use vstd::prelude::*;
use crate::text::{
    byte_len, char_width, char_width_exec, chars_of, chars_within_bytes, find, find_first,
    is_char_boundary_at, lines_of, lines_spec, string_of,
};

verus! {

#[verifier::external_type_specification]
#[verifier::external_body]
pub struct ExRegex(regex::Regex);

/// What `regex::Regex::new` decides of a pattern: whether it compiles (with the
/// default size limits).
pub uninterp spec fn regex_compiles(pattern: Seq<char>) -> bool;

/// The byte offset at which the leftmost-first match of `pattern` in `haystack`
/// starts (`Regex::find(..).start()`), if there is a match.
pub uninterp spec fn regex_first_match_start(pattern: Seq<char>, haystack: Seq<char>) -> Option<
    usize,
>;

/// `regex::Regex::new`: compiles `pattern`; the contract states that whether it
/// succeeds depends on the pattern alone (named `regex_compiles`).
#[verifier::external_body]
fn regex_compile(pattern: &str) -> (r: Option<regex::Regex>)
    ensures
        r is Some == regex_compiles(pattern@),
{
    regex::Regex::new(pattern).ok()
}

/// A compiled regular expression together with the pattern it was compiled from.
pub struct LineRegex {
    pattern: String,
    re: regex::Regex,
}

impl LineRegex {
    /// The pattern this regular expression was compiled from.
    pub closed spec fn pattern_view(&self) -> Seq<char> {
        self.pattern@
    }

    /// Compiles `pattern` (`Regex::new(..).ok()`).
    pub fn new(pattern: &str) -> (r: Option<LineRegex>)
        ensures
            r is Some == regex_compiles(pattern@),
            r matches Some(x) ==> x.pattern_view() == pattern@,
    {
        match regex_compile(pattern) {
            Some(re) => Some(LineRegex { pattern: pattern.to_owned(), re }),
            None => None,
        }
    }
}

/// `Regex::find(haystack).map(|m| m.start())` on the regular expression held by
/// `matcher`, which was compiled from `matcher`'s pattern: the byte offset of the
/// leftmost-first match, a function of the pattern and the haystack
/// (named `regex_first_match_start`).
#[verifier::external_body]
fn regex_find_start(matcher: &LineRegex, haystack: &str) -> (r: Option<usize>)
    ensures
        r == regex_first_match_start(matcher.pattern_view(), haystack@),
{
    matcher.re.find(haystack).map(|found| found.start())
}

/// The first character of the window of `max` characters around character `m` of a
/// line of `n` characters: `max / 2` characters before `m`, shifted to stay inside.
pub open spec fn window_start(n: int, m: int, max: int) -> int {
    let s0 = if m - max / 2 > 0 {
        m - max / 2
    } else {
        0
    };
    if s0 < n - max {
        s0
    } else {
        n - max
    }
}

/// `line` itself when it has at most `max` characters, else the window of `max`
/// characters around character `m`.
pub open spec fn truncate_around_spec(line: Seq<char>, m: int, max: int) -> Seq<char> {
    if line.len() <= max {
        line
    } else {
        let s = window_start(line.len() as int, m, max);
        line.subrange(s, s + max)
    }
}

/// The character index of byte offset `b` in `s` (whole characters within `b` bytes).
fn char_index_at_byte(s: &[char], b: usize) -> (k: usize)
    ensures
        k == chars_within_bytes(s@, b as int),
{
    let mut k: usize = 0;
    let mut used: usize = 0;
    assert(s@.skip(0) =~= s@);
    while k < s.len() && char_width_exec(s[k]) <= b - used
        invariant
            0 <= k <= s@.len(),
            used <= b,
            chars_within_bytes(s@, b as int) == k + chars_within_bytes(
                s@.skip(k as int),
                b - used,
            ),
        decreases s@.len() - k,
    {
        let w = char_width_exec(s[k]);
        assert(s@.skip(k as int).drop_first() =~= s@.skip(k + 1));
        assert(s@.skip(k as int)[0] == s@[k as int]);
        used = used + w;
        k = k + 1;
    }
    if k < s.len() {
        assert(s@.skip(k as int)[0] == s@[k as int]);
    }
    k
}

/// The window of `max_chars` characters around character `m` of `chars`.
fn truncate_chars(chars: &[char], m: usize, max_chars: usize) -> (r: String)
    requires
        m <= chars@.len(),
        chars@.len() <= usize::MAX / 2,
    ensures
        r@ == truncate_around_spec(chars@, m as int, max_chars as int),
{
    let n = chars.len();
    if n <= max_chars {
        return string_of(chars);
    }
    let half = max_chars / 2;
    let mut start = if m > half {
        m - half
    } else {
        0
    };
    let end = if start + max_chars < n {
        start + max_chars
    } else {
        n
    };
    if end - start < max_chars {
        start = if end > max_chars {
            end - max_chars
        } else {
            0
        };
    }
    assert(start == window_start(n as int, m as int, max_chars as int));
    assert(end == start + max_chars);
    string_of(&chars[start..end])
}

/// Cut `line` to at most `max_chars` characters around the character at byte offset
/// `match_start_byte`: `max_chars / 2` characters before it, shifted to stay inside.
pub fn truncate_line_around_match(line: &str, match_start_byte: usize, max_chars: usize) -> (r:
    String)
    requires
        line@.len() <= usize::MAX / 2,
        line@.len() > max_chars ==> is_char_boundary_at(
            line@,
            if match_start_byte <= byte_len(line@) {
                match_start_byte as int
            } else {
                byte_len(line@) as int
            },
        ),
    ensures
        r@ == truncate_around_spec(
            line@,
            chars_within_bytes(line@, match_start_byte as int) as int,
            max_chars as int,
        ),
{
    let chars = chars_of(line);
    let m = char_index_at_byte(chars.as_slice(), match_start_byte);
    proof {
        lemma_chars_within_bytes_le(line@, match_start_byte as int);
    }
    truncate_chars(chars.as_slice(), m, max_chars)
}

proof fn lemma_chars_within_bytes_le(s: Seq<char>, b: int)
    ensures
        chars_within_bytes(s, b) <= s.len(),
    decreases s.len(),
{
    if s.len() > 0 && char_width(s[0]) <= b {
        lemma_chars_within_bytes_le(s.drop_first(), b - char_width(s[0]));
    }
}

/// A snippet has `min(n, max)` characters of the line, taken in one piece, and when the
/// line is cut, the window holds the matched character.
pub proof fn law_truncate_window(line: Seq<char>, m: int, max: int)
    requires
        0 <= max,
    ensures
        truncate_around_spec(line, m, max).len() == if line.len() <= max {
            line.len() as int
        } else {
            max
        },
        exists|s: int|
            0 <= s <= line.len() - truncate_around_spec(line, m, max).len() && truncate_around_spec(
                line,
                m,
                max,
            ) == #[trigger] line.subrange(s, s + truncate_around_spec(line, m, max).len()),
        line.len() > max >= 1 && 0 <= m < line.len() ==> window_start(line.len() as int, m, max)
            <= m < window_start(line.len() as int, m, max) + max,
{
    let t = truncate_around_spec(line, m, max);
    if line.len() <= max {
        assert(line.subrange(0int, 0int + t.len()) =~= line);
    } else {
        let s = window_start(line.len() as int, m, max);
        assert(0 <= s <= line.len() - max);
        assert(t == line.subrange(s, s + t.len()));
    }
}

proof fn lemma_byte_offset_char_index(s: Seq<char>, k: int)
    requires
        0 <= k <= s.len(),
    ensures
        chars_within_bytes(s, byte_len(s.take(k)) as int) == k,
    decreases k,
{
    if k > 0 {
        let t = s.drop_first();
        assert(s.take(k).drop_first() =~= t.take(k - 1));
        assert(s.take(k)[0] == s[0]);
        lemma_byte_offset_char_index(t, k - 1);
    }
}

/// The byte offset of a character (as `str::find` reports it) is a character boundary,
/// and truncation reads it back as that character's index; so a snippet is centered
/// on the character at which the match starts.
pub proof fn law_byte_offset_roundtrip(s: Seq<char>, k: int)
    requires
        0 <= k <= s.len(),
    ensures
        is_char_boundary_at(s, byte_len(s.take(k)) as int),
        chars_within_bytes(s, byte_len(s.take(k)) as int) == k,
{
    lemma_byte_offset_char_index(s, k);
}

/// The character index at which `line` matches: the start of the regular expression's
/// match when there is one, else the first occurrence of `query`.
pub open spec fn line_match_index(line: Seq<char>, query: Seq<char>, pattern: Option<Seq<char>>) -> Option<
    int,
> {
    match pattern {
        Some(p) => match regex_first_match_start(p, line) {
            Some(b) => Some(chars_within_bytes(line, b as int) as int),
            None => None,
        },
        None => find_first(line, query),
    }
}

/// The first line from line `i` on that matches, with its index and its snippet.
pub open spec fn first_matching_line(
    lines: Seq<Seq<char>>,
    i: int,
    query: Seq<char>,
    pattern: Option<Seq<char>>,
) -> Option<(int, Seq<char>)>
    decreases lines.len() - i,
{
    if i < 0 || i >= lines.len() {
        None
    } else {
        match line_match_index(lines[i], query, pattern) {
            Some(m) => Some((i, truncate_around_spec(lines[i], m, 200))),
            None => first_matching_line(lines, i + 1, query, pattern),
        }
    }
}

/// The index and snippet of the first line of `content` that matches; none for an
/// empty query.
pub open spec fn match_line_spec(
    content: Seq<char>,
    query: Seq<char>,
    pattern: Option<Seq<char>>,
) -> Option<(int, Seq<char>)> {
    if query.len() == 0 {
        None
    } else {
        first_matching_line(lines_spec(content), 0, query, pattern)
    }
}

proof fn lemma_first_matching_line(
    lines: Seq<Seq<char>>,
    i: int,
    query: Seq<char>,
    pattern: Option<Seq<char>>,
)
    requires
        0 <= i,
    ensures
        first_matching_line(lines, i, query, pattern) matches Some((k, snip)) ==> {
            &&& i <= k < lines.len()
            &&& line_match_index(lines[k], query, pattern) is Some
            &&& snip == truncate_around_spec(
                lines[k],
                line_match_index(lines[k], query, pattern)->0,
                200,
            )
            &&& forall|j: int| i <= j < k ==> line_match_index(lines[j], query, pattern) is None
        },
        first_matching_line(lines, i, query, pattern) is None ==> forall|j: int|
            i <= j < lines.len() ==> line_match_index(lines[j], query, pattern) is None,
    decreases lines.len() - i,
{
    if i < lines.len() && line_match_index(lines[i], query, pattern) is None {
        lemma_first_matching_line(lines, i + 1, query, pattern);
    }
}

/// The line reported is the first line of the content that matches, every earlier line
/// fails to match, and its snippet has at most 200 characters; when nothing is reported
/// for a non-empty query, no line matches.
pub proof fn law_match_line_is_first(
    content: Seq<char>,
    query: Seq<char>,
    pattern: Option<Seq<char>>,
)
    ensures
        match_line_spec(content, query, pattern) matches Some((k, snip)) ==> {
            &&& 0 <= k < lines_spec(content).len()
            &&& line_match_index(lines_spec(content)[k], query, pattern) is Some
            &&& forall|j: int|
                0 <= j < k ==> line_match_index(lines_spec(content)[j], query, pattern) is None
            &&& snip.len() <= 200
        },
        query.len() > 0 && match_line_spec(content, query, pattern) is None ==> forall|j: int|
            0 <= j < lines_spec(content).len() ==> line_match_index(
                lines_spec(content)[j],
                query,
                pattern,
            ) is None,
{
    lemma_first_matching_line(lines_spec(content), 0, query, pattern);
    if let Some((k, snip)) = match_line_spec(content, query, pattern) {
        let line = lines_spec(content)[k];
        law_truncate_window(line, line_match_index(line, query, pattern)->0, 200);
    }
}

/// The pattern of an optional regular expression.
pub open spec fn pattern_of(regex: Option<&LineRegex>) -> Option<Seq<char>> {
    match regex {
        Some(r) => Some(r.pattern_view()),
        None => None,
    }
}

proof fn lemma_lines_bounded(s: Seq<char>)
    ensures
        forall|k: int| 0 <= k < lines_spec(s).len() ==> (#[trigger] lines_spec(s)[k]).len() <= s.len(),
    decreases s.len(),
{
    crate::text::lemma_find_char(s, '\n');
    if s.len() > 0 {
        match find_first(s, seq!['\n']) {
            Some(i) => {
                if 0 <= i < s.len() {
                    lemma_lines_bounded(s.skip(i + 1));
                    let rest = lines_spec(s.skip(i + 1));
                    assert forall|k: int| 0 <= k < lines_spec(s).len() implies (#[trigger] lines_spec(
                        s,
                    )[k]).len() <= s.len() by {
                        if k > 0 {
                            assert(lines_spec(s)[k] == rest[k - 1]);
                        }
                    }
                }
            },
            None => {},
        }
    }
}

/// Find the first line of `content` matching `query` (or `regex`, when given), and
/// return its index with a snippet of at most 200 characters around the match.
pub fn match_line_for_literal(content: &str, query: &str, regex: Option<&LineRegex>) -> (r: Option<
    (usize, String),
>)
    requires
        content@.len() <= usize::MAX / 2,
    ensures
        match (r, match_line_spec(content@, query@, pattern_of(regex))) {
            (Some((i, s)), Some((si, ss))) => i == si && s@ == ss,
            (None, None) => true,
            _ => false,
        },
{
    let q = chars_of(query);
    if q.len() == 0 {
        return None;
    }
    let chars = chars_of(content);
    let lines = lines_of(chars.as_slice());
    let ghost lv = lines.deep_view();
    proof {
        lemma_lines_bounded(content@);
    }
    let mut idx: usize = 0;
    while idx < lines.len()
        invariant
            0 <= idx <= lines@.len(),
            lv == lines.deep_view(),
            lv == lines_spec(content@),
            content@.len() <= usize::MAX / 2,
            forall|k: int| 0 <= k < lv.len() ==> (#[trigger] lv[k]).len() <= content@.len(),
            q@ == query@,
            q@.len() > 0,
            match_line_spec(content@, query@, pattern_of(regex)) == first_matching_line(
                lv,
                idx as int,
                query@,
                pattern_of(regex),
            ),
        decreases lines@.len() - idx,
    {
        let line = lines[idx].as_slice();
        assert(line@ == lv[idx as int]);
        match regex {
            Some(re) => {
                let line_str = string_of(line);
                match regex_find_start(re, line_str.as_str()) {
                    Some(b) => {
                        let m = char_index_at_byte(line, b);
                        proof {
                            lemma_chars_within_bytes_le(line@, b as int);
                        }
                        return Some((idx, truncate_chars(line, m, 200)));
                    },
                    None => {},
                }
            },
            None => {
                proof {
                    crate::text::lemma_find_first(line@, q@);
                }
                match find(line, q.as_slice()) {
                    Some(pos) => {
                        return Some((idx, truncate_chars(line, pos, 200)));
                    },
                    None => {},
                }
            },
        }
        idx = idx + 1;
    }
    None
}

} // verus!
