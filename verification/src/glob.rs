//! A small glob matcher for file-path filters.
//!
//! Supported patterns:
//! - `src/mcp/**` matches any path starting with `src/mcp/`
//! - `**/*.rs` matches any path ending with `.rs`
//! - `src/**/*.rs` matches a path starting with `src/` and ending with `.rs`
//! - `*.rs` matches a path of one segment ending with `.rs` (`*` matches any
//!   characters except `/`)
//! - `foo.rs` matches exactly
//!
//! Backslashes in the pattern and in the path are read as `/`.

use vstd::prelude::*;
use crate::text::{
    chars_of, contains_char, ends_with, eq_chars, find, find_first, is_prefix_of, is_suffix_of,
    lemma_find_first, replace_char, replace_char_spec, split_char, split_spec,
    starts_with,
};

verus! {

/// `x` holds no `/`.
pub open spec fn no_slash(x: Seq<char>) -> bool {
    !x.contains('/')
}

/// What a `*` may stand for: anything, or, when `slash_free`, only text without `/`.
pub open spec fn gap_ok(x: Seq<char>, slash_free: bool) -> bool {
    !slash_free || no_slash(x)
}

/// `n` strings for the `*`s of a pattern, each one a `*` may stand for.
pub open spec fn fills_ok(fills: Seq<Seq<char>>, n: int, slash_free: bool) -> bool {
    fills.len() == n && forall|i: int| 0 <= i < n ==> gap_ok(#[trigger] fills[i], slash_free)
}

/// The pieces of a pattern with `fills[i]` put in place of the `*` after piece `i`:
/// `parts[0] + fills[0] + parts[1] + ... + parts[n - 1]`.
pub open spec fn fill_stars(parts: Seq<Seq<char>>, fills: Seq<Seq<char>>) -> Seq<char>
    decreases parts.len(),
{
    if parts.len() == 0 {
        seq![]
    } else if parts.len() == 1 {
        parts[0]
    } else {
        parts[0] + fills[0] + fill_stars(parts.drop_first(), fills.drop_first())
    }
}

/// The pieces between the `*`s of a pattern match `s`: some strings (without `/` when
/// `slash_free`), put in place of the `*`s, turn the pieces into `s`.
pub open spec fn pieces_match(parts: Seq<Seq<char>>, s: Seq<char>, slash_free: bool) -> bool {
    exists|fills: Seq<Seq<char>>|
        fills_ok(fills, parts.len() - 1, slash_free) && #[trigger] fill_stars(parts, fills) == s
}

/// A pattern in which `*` matches any characters except `/` matches `path`: each `*`
/// can be replaced by a string without `/` so that the pattern becomes the path.
pub open spec fn star_match_spec(pattern: Seq<char>, path: Seq<char>) -> bool {
    pieces_match(split_spec(pattern, '*'), path, true)
}

/// A segment pattern in which `*` matches any characters matches `segment`: each `*`
/// can be replaced by some string so that the pattern becomes the segment (so a pattern
/// without `*` matches only the segment equal to it).
pub open spec fn segment_match_spec(pattern: Seq<char>, segment: Seq<char>) -> bool {
    pieces_match(split_spec(pattern, '*'), segment, false)
}

/// The `/`-separated pieces of `suffix` match the last pieces of `path`, one for
/// one: a piece with `*` as a segment pattern, any other piece exactly.
pub open spec fn suffix_with_star_spec(suffix: Seq<char>, path: Seq<char>) -> bool {
    let sp = split_spec(suffix, '/');
    let ps = split_spec(path, '/');
    &&& sp.len() <= ps.len()
    &&& forall|k: int|
        0 <= k < sp.len() ==> {
            let a = #[trigger] sp[k];
            let b = ps[ps.len() - sp.len() + k];
            if a.contains('*') {
                segment_match_spec(a, b)
            } else {
                a == b
            }
        }
}

/// `s` without one leading `/`, if it has one.
pub open spec fn strip_slash(s: Seq<char>) -> Seq<char> {
    if s.len() > 0 && s[0] == '/' {
        s.skip(1)
    } else {
        s
    }
}

/// `s` with `\` read as `/`.
pub open spec fn normalize_seps(s: Seq<char>) -> Seq<char> {
    replace_char_spec(s, '\\', '/')
}

/// A pattern holding `**`, split at its first `**`, matches `path` (both normalized).
pub open spec fn double_star_match_spec(pat: Seq<char>, i: int, pth: Seq<char>) -> bool {
    let prefix = pat.take(i);
    let suffix = strip_slash(pat.skip(i + 2));
    if prefix.len() > 0 && !is_prefix_of(prefix, pth) {
        false
    } else {
        let p = strip_slash(pth.skip(prefix.len() as int));
        if suffix.len() == 0 {
            true
        } else if suffix.contains('*') {
            suffix_with_star_spec(suffix, p)
        } else {
            is_suffix_of(suffix, p)
        }
    }
}

/// Whether `path` matches the glob `pattern`.
pub open spec fn glob_match_spec(pattern: Seq<char>, path: Seq<char>) -> bool {
    let pat = normalize_seps(pattern);
    let pth = normalize_seps(path);
    if !pat.contains('*') {
        pth == pat
    } else {
        match find_first(pat, seq!['*', '*']) {
            Some(i) => double_star_match_spec(pat, i, pth),
            None => star_match_spec(pat, pth),
        }
    }
}

/// The last piece alone matches exactly itself.
proof fn lemma_pieces_last(parts: Seq<Seq<char>>, k: int, s: Seq<char>, j: int, sf: bool)
    requires
        k == parts.len() - 1,
        0 <= k,
        0 <= j <= s.len(),
    ensures
        pieces_match(parts.skip(k), s.skip(j), sf) <==> s.skip(j) == parts[k],
{
    let q = parts.skip(k);
    assert(q.len() == 1);
    assert(q[0] == parts[k]);
    if pieces_match(q, s.skip(j), sf) {
        let f = choose|f: Seq<Seq<char>>|
            fills_ok(f, q.len() - 1, sf) && #[trigger] fill_stars(q, f) == s.skip(j);
    }
    if s.skip(j) == parts[k] {
        let f = Seq::<Seq<char>>::empty();
        assert(fills_ok(f, 0, sf));
        assert(fill_stars(q, f) == s.skip(j));
    }
}

/// Piece `k` (not the last) matches at `j` when it starts there and, after a stretch
/// its `*` may stand for, the remaining pieces match from some later position `i`.
proof fn lemma_pieces_step(parts: Seq<Seq<char>>, k: int, s: Seq<char>, j: int, sf: bool)
    requires
        0 <= k < parts.len() - 1,
        0 <= j <= s.len(),
    ensures
        pieces_match(parts.skip(k), s.skip(j), sf) <==> (is_prefix_of(parts[k], s.skip(j)) && exists|i: int|
            j + parts[k].len() <= i <= s.len() && gap_ok(s.subrange(j + parts[k].len(), i), sf)
                && #[trigger] pieces_match(parts.skip(k + 1), s.skip(i), sf)),
{
    let q = parts.skip(k);
    let pk = parts[k];
    let from = j + pk.len();
    assert(q[0] == pk);
    assert(q.drop_first() =~= parts.skip(k + 1));
    if pieces_match(q, s.skip(j), sf) {
        let f = choose|f: Seq<Seq<char>>|
            fills_ok(f, q.len() - 1, sf) && #[trigger] fill_stars(q, f) == s.skip(j);
        let rest = fill_stars(q.drop_first(), f.drop_first());
        assert(fill_stars(q, f) == pk + f[0] + rest);
        assert(gap_ok(f[0], sf));
        let i = from + f[0].len();
        assert(s.skip(j).take(pk.len() as int) =~= pk);
        assert(s.subrange(from, i) =~= f[0]) by {
            assert forall|t: int| 0 <= t < f[0].len() implies s.subrange(from, i)[t] == f[0][t] by {
                assert(s.skip(j)[pk.len() + t] == (pk + f[0] + rest)[pk.len() + t]);
            }
        }
        assert(s.skip(i) =~= rest) by {
            assert forall|t: int| 0 <= t < rest.len() implies s.skip(i)[t] == rest[t] by {
                assert(s.skip(j)[pk.len() + f[0].len() + t] == (pk + f[0] + rest)[pk.len()
                    + f[0].len() + t]);
            }
        }
        let g = f.drop_first();
        assert(fills_ok(g, parts.skip(k + 1).len() - 1, sf)) by {
            assert forall|t: int| 0 <= t < g.len() implies gap_ok(#[trigger] g[t], sf) by {
                assert(g[t] == f[t + 1]);
            }
        }
        assert(fill_stars(parts.skip(k + 1), g) == s.skip(i));
        assert(pieces_match(parts.skip(k + 1), s.skip(i), sf));
    }
    if is_prefix_of(pk, s.skip(j)) && exists|i: int|
        from <= i <= s.len() && gap_ok(s.subrange(from, i), sf) && #[trigger] pieces_match(
            parts.skip(k + 1),
            s.skip(i),
            sf,
        ) {
        let i = choose|i: int|
            from <= i <= s.len() && gap_ok(s.subrange(from, i), sf) && #[trigger] pieces_match(
                parts.skip(k + 1),
                s.skip(i),
                sf,
            );
        let g = choose|g: Seq<Seq<char>>|
            fills_ok(g, parts.skip(k + 1).len() - 1, sf) && #[trigger] fill_stars(
                parts.skip(k + 1),
                g,
            ) == s.skip(i);
        let gap = s.subrange(from, i);
        let f = seq![gap] + g;
        assert(f.drop_first() =~= g);
        assert(f[0] == gap);
        assert(fills_ok(f, q.len() - 1, sf)) by {
            assert forall|t: int| 0 <= t < f.len() implies gap_ok(#[trigger] f[t], sf) by {
                if t > 0 {
                    assert(f[t] == g[t - 1]);
                }
            }
        }
        assert(fill_stars(q, f) == pk + gap + s.skip(i));
        assert(s.skip(j).take(pk.len() as int) =~= pk);
        assert(pk + gap + s.skip(i) =~= s.skip(j));
        assert(pieces_match(q, s.skip(j), sf));
    }
}

/// Whether some position `i` from `from` on, reached from `from` over a stretch a `*`
/// may stand for, is marked in `reach`.
fn reach_ahead(reach: &Vec<bool>, s: &[char], from: usize, sf: bool) -> (r: bool)
    requires
        from <= s@.len(),
        reach@.len() == s@.len() + 1,
    ensures
        r == exists|i: int|
            from <= i <= s@.len() && gap_ok(s@.subrange(from as int, i), sf) && #[trigger] reach@[i],
{
    let mut i: usize = from;
    assert(s@.subrange(from as int, from as int) =~= Seq::<char>::empty());
    loop
        invariant
            from <= i <= s@.len(),
            reach@.len() == s@.len() + 1,
            gap_ok(s@.subrange(from as int, i as int), sf),
            forall|t: int| from <= t < i ==> !#[trigger] reach@[t],
        decreases s@.len() - i,
    {
        if reach[i] {
            return true;
        }
        if i == s.len() {
            return false;
        }
        if sf && s[i] == '/' {
            proof {
                assert forall|t: int|
                    from <= t <= s@.len() && #[trigger] reach@[t] implies !gap_ok(
                    s@.subrange(from as int, t),
                    sf,
                ) by {
                    assert(t > i);
                    assert(s@.subrange(from as int, t)[i - from] == '/');
                }
            }
            return false;
        }
        assert(s@.subrange(from as int, i + 1) =~= s@.subrange(from as int, i as int).push(s@[i as int]));
        i = i + 1;
    }
}

/// Whether each `*` of `pattern` can be replaced by a string (without `/` when
/// `slash_free`) so that the pattern becomes `path`.
fn pieces_match_chars(pattern: &[char], path: &[char], slash_free: bool) -> (r: bool)
    ensures
        r == pieces_match(split_spec(pattern@, '*'), path@, slash_free),
{
    let parts = split_char(pattern, '*');
    let ghost pv = parts.deep_view();
    let n = path.len();
    let m = parts.len();
    let last = parts[m - 1].as_slice();
    assert(last@ == pv[m - 1]);
    // reach[t]: the pieces from the current one on match the path from `t` on
    let mut reach: Vec<bool> = Vec::new();
    while reach.len() <= n
        invariant
            reach@.len() <= n + 1,
            n == path@.len(),
            m == pv.len(),
            m >= 1,
            last@ == pv[m - 1],
            forall|t: int|
                0 <= t < reach@.len() ==> #[trigger] reach@[t] == pieces_match(
                    pv.skip(m - 1),
                    path@.skip(t),
                    slash_free,
                ),
        decreases n + 1 - reach@.len(),
    {
        let j = reach.len();
        let tail = &path[j..n];
        assert(tail@ =~= path@.skip(j as int));
        let v = eq_chars(tail, last);
        proof {
            lemma_pieces_last(pv, m - 1, path@, j as int, slash_free);
        }
        reach.push(v);
    }
    let mut k: usize = m - 1;
    while k > 0
        invariant
            0 <= k < m,
            m == pv.len(),
            pv == parts.deep_view(),
            n == path@.len(),
            reach@.len() == n + 1,
            forall|t: int|
                0 <= t <= n ==> #[trigger] reach@[t] == pieces_match(pv.skip(k as int), path@.skip(t), slash_free),
        decreases k,
    {
        let p = parts[k - 1].as_slice();
        assert(p@ == pv[k - 1]);
        let mut next: Vec<bool> = Vec::new();
        while next.len() <= n
            invariant
                next@.len() <= n + 1,
                0 < k < m,
                m == pv.len(),
                n == path@.len(),
                p@ == pv[k - 1],
                reach@.len() == n + 1,
                forall|t: int|
                    0 <= t <= n ==> #[trigger] reach@[t] == pieces_match(
                        pv.skip(k as int),
                        path@.skip(t),
                        slash_free,
                    ),
                forall|t: int|
                    0 <= t < next@.len() ==> #[trigger] next@[t] == pieces_match(
                        pv.skip(k - 1),
                        path@.skip(t),
                        slash_free,
                    ),
            decreases n + 1 - next@.len(),
        {
            let j = next.len();
            let tail = &path[j..n];
            assert(tail@ =~= path@.skip(j as int));
            let v = if starts_with(tail, p) {
                reach_ahead(&reach, path, j + p.len(), slash_free)
            } else {
                false
            };
            proof {
                lemma_pieces_step(pv, k - 1, path@, j as int, slash_free);
                let from = j + p@.len();
                if is_prefix_of(p@, path@.skip(j as int)) {
                    if v {
                        let i = choose|i: int|
                            from <= i <= path@.len() && gap_ok(path@.subrange(from, i), slash_free)
                                && #[trigger] reach@[i];
                        assert(pieces_match(pv.skip(k as int), path@.skip(i), slash_free));
                    }
                    if exists|i: int|
                        from <= i <= path@.len() && gap_ok(path@.subrange(from, i), slash_free)
                            && #[trigger] pieces_match(pv.skip(k as int), path@.skip(i), slash_free) {
                        let i = choose|i: int|
                            from <= i <= path@.len() && gap_ok(path@.subrange(from, i), slash_free)
                                && #[trigger] pieces_match(pv.skip(k as int), path@.skip(i), slash_free);
                        assert(reach@[i]);
                    }
                }
                assert(pv.skip(k - 1 + 1) == pv.skip(k as int));
            }
            next.push(v);
        }
        reach = next;
        k = k - 1;
    }
    assert(pv.skip(0) =~= pv);
    assert(path@.skip(0) =~= path@);
    reach[0]
}

/// Match a suffix pattern against the end of a path, given as characters.
fn suffix_match_chars(suffix: &[char], path: &[char]) -> (r: bool)
    ensures
        r == suffix_with_star_spec(suffix@, path@),
{
    let suffix_parts = split_char(suffix, '/');
    let path_segments = split_char(path, '/');
    let ghost sp = suffix_parts.deep_view();
    let ghost ps = path_segments.deep_view();
    if suffix_parts.len() > path_segments.len() {
        return false;
    }
    let off = path_segments.len() - suffix_parts.len();
    let mut k: usize = 0;
    while k < suffix_parts.len()
        invariant
            sp == suffix_parts.deep_view(),
            ps == path_segments.deep_view(),
            sp == split_spec(suffix@, '/'),
            ps == split_spec(path@, '/'),
            sp.len() <= ps.len(),
            off == ps.len() - sp.len(),
            off + suffix_parts@.len() == path_segments@.len(),
            path_segments@.len() <= usize::MAX,
            0 <= k <= sp.len(),
            forall|j: int|
                0 <= j < k ==> {
                    let a = #[trigger] sp[j];
                    let b = ps[ps.len() - sp.len() + j];
                    if a.contains('*') {
                        segment_match_spec(a, b)
                    } else {
                        a == b
                    }
                },
        decreases sp.len() - k,
    {
        let sp_k = suffix_parts[k].as_slice();
        let pp = path_segments[off + k].as_slice();
        assert(sp_k@ == sp[k as int]);
        assert(pp@ == ps[off + k]);
        if contains_char(sp_k, '*') {
            if !pieces_match_chars(sp_k, pp, false) {
                return false;
            }
        } else if !eq_chars(sp_k, pp) {
            return false;
        }
        k = k + 1;
    }
    true
}

/// `s` without one leading `/`, if it has one.
fn strip_leading_slash(s: &[char]) -> (r: &[char])
    ensures
        r@ == strip_slash(s@),
{
    if s.len() > 0 && s[0] == '/' {
        &s[1..s.len()]
    } else {
        s
    }
}

/// Match a file path against a simple glob pattern.
///
/// Supported patterns:
/// - `src/mcp/**` → any path starting with `src/mcp/`
/// - `**/*.rs` → any path ending with `.rs`
/// - `src/**/*.rs` → path starting with `src/` and ending with `.rs`
/// - `*.rs` → `*` within a single segment
/// - `foo.rs` → exact match
pub fn simple_glob_match(pattern: &str, path: &str) -> (r: bool)
    ensures
        r == glob_match_spec(pattern@, path@),
{
    let pattern_chars = chars_of(pattern);
    let path_chars = chars_of(path);
    let pat = replace_char(pattern_chars.as_slice(), '\\', '/');
    let pth = replace_char(path_chars.as_slice(), '\\', '/');
    let pat = pat.as_slice();
    let pth = pth.as_slice();

    if !contains_char(pat, '*') {
        return eq_chars(pth, pat);
    }
    let dstar = ['*', '*'];
    assert(dstar@ =~= seq!['*', '*']);
    proof {
        lemma_find_first(pat@, seq!['*', '*']);
    }
    let pat_len = pat.len();
    match find(pat, &dstar) {
        Some(i) => {
            let prefix = &pat[0..i];
            let suffix = strip_leading_slash(&pat[i + 2..pat.len()]);
            assert(prefix@ =~= pat@.take(i as int));
            let mut p: &[char] = pth;
            if prefix.len() > 0 && !starts_with(p, prefix) {
                return false;
            }
            if prefix.len() > 0 {
                p = &p[prefix.len()..p.len()];
            }
            assert(p@ =~= pth@.skip(prefix@.len() as int));
            let p = strip_leading_slash(p);
            if suffix.len() == 0 {
                return true;
            }
            if contains_char(suffix, '*') {
                return suffix_match_chars(suffix, p);
            }
            ends_with(p, suffix)
        },
        None => pieces_match_chars(pat, pth, true),
    }
}


/// Match a single segment pattern against a single segment path part.
/// `*` matches any characters within the segment. A pattern without `*` matches only
/// the segment equal to it.
pub fn single_segment_match(pattern: &str, segment: &str) -> (r: bool)
    ensures
        r == segment_match_spec(pattern@, segment@),
{
    let p = chars_of(pattern);
    let s = chars_of(segment);
    pieces_match_chars(p.as_slice(), s.as_slice(), false)
}

/// Match a single-star glob pattern where `*` matches any characters except `/`.
pub fn simple_glob_match_single_star(pattern: &str, path: &str) -> (r: bool)
    ensures
        r == star_match_spec(pattern@, path@),
{
    let p = chars_of(pattern);
    let s = chars_of(path);
    pieces_match_chars(p.as_slice(), s.as_slice(), true)
}

/// Match a suffix pattern (containing `*`) against the end of a path.
/// The `*` matches within a single segment only.
pub fn match_suffix_with_star(suffix: &str, path: &str) -> (r: bool)
    ensures
        r == suffix_with_star_spec(suffix@, path@),
{
    let p = chars_of(suffix);
    let s = chars_of(path);
    suffix_match_chars(p.as_slice(), s.as_slice())
}

} // verus!
