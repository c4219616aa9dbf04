//! Properties of the glob matcher that its documentation promises.

use vstd::prelude::*;
use crate::text::{
    find_first, is_prefix_of, is_suffix_of, lemma_find_char, lemma_find_first, occurs_at,
    split_spec,
};
use crate::glob::{
    double_star_match_spec, fill_stars, glob_match_spec, no_slash, normalize_seps, pieces_match,
    fills_ok, gap_ok, segment_match_spec, star_match_spec, strip_slash, suffix_with_star_spec,
};

verus! {

proof fn lemma_normalize_idempotent(s: Seq<char>)
    ensures
        normalize_seps(normalize_seps(s)) == normalize_seps(s),
{
    assert(normalize_seps(normalize_seps(s)) =~= normalize_seps(s));
}

proof fn lemma_normalize_keeps(s: Seq<char>, c: char)
    requires
        c != '\\',
    ensures
        normalize_seps(s).contains(c) <==> (s.contains(c) || (c == '/' && s.contains('\\'))),
{
    let n = normalize_seps(s);
    if s.contains(c) {
        let j = choose|j: int| 0 <= j < s.len() && s[j] == c;
        assert(n[j] == c);
    }
    if c == '/' && s.contains('\\') {
        let j = choose|j: int| 0 <= j < s.len() && s[j] == '\\';
        assert(n[j] == c);
    }
    if n.contains(c) {
        let j = choose|j: int| 0 <= j < n.len() && n[j] == c;
        assert(s[j] == c || s[j] == '\\');
    }
}

proof fn lemma_normalize_plain(s: Seq<char>)
    requires
        !s.contains('\\'),
    ensures
        normalize_seps(s) == s,
{
    assert forall|j: int| 0 <= j < s.len() implies normalize_seps(s)[j] == s[j] by {
        if s[j] == '\\' {
            assert(s.contains('\\'));
        }
    }
    assert(normalize_seps(s) =~= s);
}

/// Splitting a sequence without the separator gives the sequence itself.
proof fn lemma_split_none(s: Seq<char>, c: char)
    requires
        !s.contains(c),
    ensures
        split_spec(s, c) == seq![s],
{
    lemma_find_char(s, c);
}

/// Splitting `c + t` at `c`, where `t` holds no `c`, gives an empty piece and `t`.
proof fn lemma_split_lead(t: Seq<char>, c: char)
    requires
        !t.contains(c),
    ensures
        split_spec(seq![c] + t, c) == seq![Seq::<char>::empty(), t],
{
    let s = seq![c] + t;
    lemma_find_char(s, c);
    assert(s[0] == c);
    assert(s.take(0) =~= Seq::<char>::empty());
    assert(s.skip(1) =~= t);
    lemma_split_none(t, c);
}

/// The last piece of a split is a suffix holding no separator, preceded by the separator
/// unless it is the whole sequence; a split has at least one piece.
proof fn lemma_split_last(s: Seq<char>, c: char)
    ensures
        split_spec(s, c).len() >= 1,
        is_suffix_of(split_spec(s, c).last(), s),
        !split_spec(s, c).last().contains(c),
        split_spec(s, c).last().len() < s.len() ==> s[s.len() - split_spec(s, c).last().len()
            - 1] == c,
    decreases s.len(),
{
    lemma_find_char(s, c);
    match find_first(s, seq![c]) {
        Some(i) => {
            let t = s.skip(i + 1);
            lemma_split_last(t, c);
            let l = split_spec(t, c).last();
            assert(split_spec(s, c) == seq![s.take(i)] + split_spec(t, c));
            assert(split_spec(s, c).last() == l);
            assert(s.skip(s.len() - l.len()) =~= t.skip(t.len() - l.len()));
            if l.len() == t.len() {
                assert(s[s.len() - l.len() - 1] == s[i]);
            } else {
                assert(s[s.len() - l.len() - 1] == t[t.len() - l.len() - 1]);
            }
        },
        None => {
            assert(s.skip(0) =~= s);
        },
    }
}

/// For `e` without the separator, `e` ends the sequence exactly when it ends its last piece.
proof fn lemma_suffix_last_piece(s: Seq<char>, c: char, e: Seq<char>)
    requires
        !e.contains(c),
    ensures
        is_suffix_of(e, split_spec(s, c).last()) <==> is_suffix_of(e, s),
{
    lemma_split_last(s, c);
    let l = split_spec(s, c).last();
    if is_suffix_of(e, l) {
        assert(s.skip(s.len() - e.len()) =~= l.skip(l.len() - e.len()));
    }
    if is_suffix_of(e, s) {
        if e.len() > l.len() {
            let j = s.len() - l.len() - 1;
            assert(e[j - (s.len() - e.len())] == s[j]);
            assert(e.contains(c));
        } else {
            assert(s.skip(s.len() - e.len()) =~= l.skip(l.len() - e.len()));
        }
    }
}

/// For `e` without `/`, dropping a leading `/` does not change whether `e` ends the path.
proof fn lemma_suffix_strip_slash(s: Seq<char>, e: Seq<char>)
    requires
        !e.contains('/'),
    ensures
        is_suffix_of(e, strip_slash(s)) <==> is_suffix_of(e, s),
{
    if s.len() > 0 && s[0] == '/' {
        let t = s.skip(1);
        if is_suffix_of(e, t) {
            assert(s.skip(s.len() - e.len()) =~= t.skip(t.len() - e.len()));
        }
        if is_suffix_of(e, s) {
            if e.len() == s.len() {
                assert(e[0] == s[0]);
                assert(e.contains('/'));
            } else {
                assert(s.skip(s.len() - e.len()) =~= t.skip(t.len() - e.len()));
            }
        }
    }
}

/// The pattern `*e` (with `e` free of `*`) matches exactly the sequences that end with
/// `e` after a stretch the `*` may stand for.
proof fn lemma_star_ext(e: Seq<char>, s: Seq<char>, sf: bool)
    requires
        !e.contains('*'),
    ensures
        pieces_match(split_spec(seq!['*'] + e, '*'), s, sf) <==> (is_suffix_of(e, s) && gap_ok(
            s.take(s.len() - e.len()),
            sf,
        )),
{
    lemma_split_lead(e, '*');
    let parts = seq![Seq::<char>::empty(), e];
    assert(parts.drop_first() =~= seq![e]);
    if pieces_match(parts, s, sf) {
        let f = choose|f: Seq<Seq<char>>|
            fills_ok(f, parts.len() - 1, sf) && #[trigger] fill_stars(parts, f) == s;
        assert(fill_stars(parts.drop_first(), f.drop_first()) == e);
        assert(fill_stars(parts, f) == Seq::<char>::empty() + f[0] + e);
        assert(gap_ok(f[0], sf));
        assert(s.skip(s.len() - e.len()) =~= e);
        assert(s.take(s.len() - e.len()) =~= f[0]);
    }
    if is_suffix_of(e, s) && gap_ok(s.take(s.len() - e.len()), sf) {
        let f = seq![s.take(s.len() - e.len())];
        assert(fills_ok(f, 1, sf)) by {
            assert forall|t: int| 0 <= t < 1 implies gap_ok(#[trigger] f[t], sf) by {}
        }
        assert(fill_stars(parts.drop_first(), f.drop_first()) == e);
        assert(fill_stars(parts, f) == Seq::<char>::empty() + f[0] + e);
        assert(Seq::<char>::empty() + f[0] + e =~= s);
        assert(pieces_match(parts, s, sf));
    }
}

/// A path pattern without `*` matches exactly the paths equal to it, reading `\` as `/`.
pub proof fn law_glob_exact(pattern: Seq<char>, path: Seq<char>)
    requires
        !pattern.contains('*'),
    ensures
        glob_match_spec(pattern, path) <==> normalize_seps(path) == normalize_seps(pattern),
{
    lemma_normalize_keeps(pattern, '*');
}

/// Reading `\` as `/` beforehand, in the pattern or in the path, changes no answer.
pub proof fn law_glob_separator_invariant(pattern: Seq<char>, path: Seq<char>)
    ensures
        glob_match_spec(pattern, path) == glob_match_spec(
            normalize_seps(pattern),
            normalize_seps(path),
        ),
{
    lemma_normalize_idempotent(pattern);
    lemma_normalize_idempotent(path);
}

/// When `*` first appears at `pl` and is doubled there, the first `**` starts at `pl`.
proof fn lemma_first_double_star(pattern: Seq<char>, pl: int)
    requires
        0 <= pl,
        pl + 2 <= pattern.len(),
        pattern[pl] == '*',
        pattern[pl + 1] == '*',
        forall|j: int| 0 <= j < pl ==> pattern[j] != '*',
    ensures
        find_first(pattern, seq!['*', '*']) == Some(pl),
{
    let pd = seq!['*', '*'];
    lemma_find_first(pattern, pd);
    assert(occurs_at(pattern, pd, pl)) by {
        assert(pattern.subrange(pl, pl + 2) =~= pd);
    }
    match find_first(pattern, pd) {
        Some(k) => {
            if k < pl {
                assert(pattern.subrange(k, k + 2)[0] == pattern[k]);
            }
        },
        None => {},
    }
}

/// `P**`, for a prefix `P` without `*` or `\`, matches exactly the paths that start with
/// `P` (reading `\` as `/` in the path).
pub proof fn law_glob_prefix_double_star(prefix: Seq<char>, path: Seq<char>)
    requires
        !prefix.contains('*'),
        !prefix.contains('\\'),
    ensures
        glob_match_spec(prefix + seq!['*', '*'], path) <==> is_prefix_of(
            prefix,
            normalize_seps(path),
        ),
{
    let pattern = prefix + seq!['*', '*'];
    let pl = prefix.len() as int;
    assert forall|j: int| 0 <= j < pl implies pattern[j] != '*' by {
        assert(pattern[j] == prefix[j]);
    }
    lemma_first_double_star(pattern, pl);
    assert(!pattern.contains('\\')) by {
        if pattern.contains('\\') {
            let j = choose|j: int| 0 <= j < pattern.len() && pattern[j] == '\\';
            if j < pl {
                assert(prefix[j] == '\\');
            }
        }
    }
    lemma_normalize_plain(pattern);
    assert(pattern[pl] == '*');
    assert(pattern.take(pl) =~= prefix);
    assert(pattern.skip(pl + 2) =~= Seq::<char>::empty());
    let pth = normalize_seps(path);
    assert(glob_match_spec(pattern, path) == double_star_match_spec(pattern, pl, pth));
    assert(strip_slash(Seq::<char>::empty()) =~= Seq::<char>::empty());
    if pl == 0 {
        assert(pth.take(0) =~= prefix);
    }
}

/// `**/*E`, for an ending `E` without `*`, `/` or `\`, matches exactly the paths that end
/// with `E` (reading `\` as `/` in the path).
pub proof fn law_glob_any_dir_extension(ext: Seq<char>, path: Seq<char>)
    requires
        !ext.contains('*'),
        !ext.contains('/'),
        !ext.contains('\\'),
    ensures
        glob_match_spec(seq!['*', '*', '/', '*'] + ext, path) <==> is_suffix_of(
            ext,
            normalize_seps(path),
        ),
{
    law_glob_prefix_any_dir_extension(Seq::<char>::empty(), ext, path);
    assert(Seq::<char>::empty() + seq!['*', '*', '/', '*'] + ext =~= seq!['*', '*', '/', '*']
        + ext);
    assert(normalize_seps(path).skip(0) =~= normalize_seps(path));
    assert(normalize_seps(path).take(0) =~= Seq::<char>::empty());
}

/// `P**/*E`, for a prefix `P` without `*` or `\` and an ending `E` without `*`, `/` or `\`,
/// matches exactly the paths that start with `P` and whose rest ends with `E`.
pub proof fn law_glob_prefix_any_dir_extension(prefix: Seq<char>, ext: Seq<char>, path: Seq<char>)
    requires
        !prefix.contains('*'),
        !prefix.contains('\\'),
        !ext.contains('*'),
        !ext.contains('/'),
        !ext.contains('\\'),
    ensures
        glob_match_spec(prefix + seq!['*', '*', '/', '*'] + ext, path) <==> (is_prefix_of(
            prefix,
            normalize_seps(path),
        ) && is_suffix_of(ext, normalize_seps(path).skip(prefix.len() as int))),
{
    let mid = seq!['*', '*', '/', '*'];
    let pattern = prefix + mid + ext;
    let pth = normalize_seps(path);
    let pl = prefix.len() as int;
    assert(!pattern.contains('\\')) by {
        if pattern.contains('\\') {
            let j = choose|j: int| 0 <= j < pattern.len() && pattern[j] == '\\';
            if j < pl {
                assert(prefix[j] == '\\');
            } else if j >= pl + 4 {
                assert(ext[j - pl - 4] == '\\');
            }
        }
    }
    lemma_normalize_plain(pattern);
    assert(pattern[pl] == '*');
    let pd = seq!['*', '*'];
    lemma_find_first(pattern, pd);
    assert(occurs_at(pattern, pd, pl)) by {
        assert(pattern.subrange(pl, pl + 2) =~= pd);
    }
    assert forall|j: int| 0 <= j < pl implies !occurs_at(pattern, pd, j) by {
        if occurs_at(pattern, pd, j) {
            assert(pattern.subrange(j, j + 2)[0] == pattern[j]);
            assert(prefix[j] == '*');
        }
    }
    assert(find_first(pattern, pd) == Some(pl));
    assert(pattern.take(pl) =~= prefix);
    let suffix = seq!['*'] + ext;
    assert(pattern.skip(pl + 2) =~= seq!['/'] + suffix);
    assert(strip_slash(pattern.skip(pl + 2)) =~= suffix);
    assert(suffix.contains('*')) by {
        assert(suffix[0] == '*');
    }
    assert(!suffix.contains('/')) by {
        if suffix.contains('/') {
            let j = choose|j: int| 0 <= j < suffix.len() && suffix[j] == '/';
            assert(ext[j - 1] == '/');
        }
    }
    let p = strip_slash(pth.skip(pl));
    lemma_split_none(suffix, '/');
    lemma_split_last(p, '/');
    let ps = split_spec(p, '/');
    assert(suffix_with_star_spec(suffix, p) <==> segment_match_spec(suffix, ps.last())) by {
        let sp = split_spec(suffix, '/');
        assert(sp =~= seq![suffix]);
        if suffix_with_star_spec(suffix, p) {
            assert(sp[0] == suffix);
        }
    }
    lemma_star_ext(ext, ps.last(), false);
    lemma_suffix_last_piece(p, '/', ext);
    lemma_suffix_strip_slash(pth.skip(pl), ext);
    if pl == 0 {
        assert(pth.take(0) =~= prefix);
    }
}

/// A `/` that begins the rest of a path does not change which texts not beginning with
/// `/` end it.
proof fn lemma_suffix_strip_lead_slash(s: Seq<char>, e: Seq<char>)
    requires
        e.len() == 0 || e[0] != '/',
    ensures
        is_suffix_of(e, strip_slash(s)) <==> is_suffix_of(e, s),
{
    if s.len() > 0 && s[0] == '/' {
        let t = s.skip(1);
        if is_suffix_of(e, t) {
            assert(s.skip(s.len() - e.len()) =~= t.skip(t.len() - e.len()));
        }
        if is_suffix_of(e, s) {
            if e.len() == s.len() {
                assert(s.skip(0) =~= s);
                assert(e[0] == s[0]);
            } else {
                assert(s.skip(s.len() - e.len()) =~= t.skip(t.len() - e.len()));
            }
        }
    }
}

/// `P**/S`, for a prefix `P` and a plain suffix `S` (neither holding `*` or `\`, and `S`
/// not beginning with `/`), matches exactly the paths that start with `P` and whose rest
/// ends with `S`; `S` may span several segments (`src/**/mcp/mod.rs` matches
/// `src/mcp/mod.rs` and `src/a/mcp/mod.rs`).
pub proof fn law_glob_prefix_any_dir_plain_suffix(
    prefix: Seq<char>,
    suffix: Seq<char>,
    path: Seq<char>,
)
    requires
        !prefix.contains('*'),
        !prefix.contains('\\'),
        !suffix.contains('*'),
        !suffix.contains('\\'),
        suffix.len() == 0 || suffix[0] != '/',
    ensures
        glob_match_spec(prefix + seq!['*', '*', '/'] + suffix, path) <==> (is_prefix_of(
            prefix,
            normalize_seps(path),
        ) && is_suffix_of(suffix, normalize_seps(path).skip(prefix.len() as int))),
{
    let mid = seq!['*', '*', '/'];
    let pattern = prefix + mid + suffix;
    let pth = normalize_seps(path);
    let pl = prefix.len() as int;
    assert(!pattern.contains('\\')) by {
        if pattern.contains('\\') {
            let j = choose|j: int| 0 <= j < pattern.len() && pattern[j] == '\\';
            if j < pl {
                assert(prefix[j] == '\\');
            } else if j >= pl + 3 {
                assert(suffix[j - pl - 3] == '\\');
            }
        }
    }
    lemma_normalize_plain(pattern);
    assert(pattern[pl] == '*');
    let pd = seq!['*', '*'];
    lemma_find_first(pattern, pd);
    assert(occurs_at(pattern, pd, pl)) by {
        assert(pattern.subrange(pl, pl + 2) =~= pd);
    }
    assert forall|j: int| 0 <= j < pl implies !occurs_at(pattern, pd, j) by {
        if occurs_at(pattern, pd, j) {
            assert(pattern.subrange(j, j + 2)[0] == pattern[j]);
            assert(prefix[j] == '*');
        }
    }
    assert(find_first(pattern, pd) == Some(pl));
    assert(pattern.take(pl) =~= prefix);
    assert(pattern.skip(pl + 2) =~= seq!['/'] + suffix);
    assert(strip_slash(pattern.skip(pl + 2)) =~= suffix);
    lemma_suffix_strip_lead_slash(pth.skip(pl), suffix);
    if pl == 0 {
        assert(pth.take(0) =~= prefix);
    }
    assert(pattern.contains('*'));
    let rest = strip_slash(pth.skip(pl));
    if suffix.len() == 0 {
        assert(rest.skip(rest.len() - 0) =~= suffix);
        assert(pth.skip(pl).skip(pth.skip(pl).len() - 0) =~= suffix);
    }
    assert(glob_match_spec(pattern, path) == double_star_match_spec(pattern, pl, pth));
}

/// `*E`, for an ending `E` without `*`, `/` or `\\`, matches exactly the paths of one
/// segment (no `/`, reading `\\` as `/`) that end with `E`: the `*` never crosses `/`.
pub proof fn law_glob_single_star_extension(ext: Seq<char>, path: Seq<char>)
    requires
        !ext.contains('*'),
        !ext.contains('/'),
        !ext.contains('\\'),
    ensures
        glob_match_spec(seq!['*'] + ext, path) <==> (is_suffix_of(ext, normalize_seps(path))
            && no_slash(normalize_seps(path))),
{
    let pattern = seq!['*'] + ext;
    let pth = normalize_seps(path);
    assert(!pattern.contains('\\')) by {
        if pattern.contains('\\') {
            let j = choose|j: int| 0 <= j < pattern.len() && pattern[j] == '\\';
            assert(ext[j - 1] == '\\');
        }
    }
    lemma_normalize_plain(pattern);
    assert(pattern[0] == '*');
    let pd = seq!['*', '*'];
    lemma_find_first(pattern, pd);
    assert forall|j: int| 0 <= j implies !occurs_at(pattern, pd, j) by {
        if occurs_at(pattern, pd, j) {
            assert(pattern.subrange(j, j + 2)[1] == pattern[j + 1]);
            assert(ext[j] == '*');
        }
    }
    assert(find_first(pattern, pd) is None);
    lemma_star_ext(ext, pth, true);
    if is_suffix_of(ext, pth) {
        let head = pth.take(pth.len() - ext.len());
        assert(pth =~= head + ext);
        if no_slash(head) && pth.contains('/') {
            let t = choose|t: int| 0 <= t < pth.len() && pth[t] == '/';
            if t < head.len() {
                assert(head[t] == '/');
            } else {
                assert(ext[t - head.len()] == '/');
            }
        }
        if no_slash(pth) && head.contains('/') {
            let t = choose|t: int| 0 <= t < head.len() && head[t] == '/';
            assert(pth[t] == '/');
        }
    }
}

/// The pieces of a pattern are the text between its `*`s: none holds a `*`, and putting a
/// `*` back between each two gives the pattern again. So a pattern without `**` matches a
/// path exactly when each of its `*`s can be replaced by a string without `/` so that the
/// pattern becomes the path.
pub proof fn law_star_pieces_rebuild(pattern: Seq<char>)
    ensures
        forall|k: int|
            0 <= k < split_spec(pattern, '*').len() ==> !(#[trigger] split_spec(pattern, '*')[k]).contains(
                '*',
            ),
        fill_stars(
            split_spec(pattern, '*'),
            Seq::new((split_spec(pattern, '*').len() - 1) as nat, |i: int| seq!['*']),
        ) == pattern,
    decreases pattern.len(),
{
    lemma_find_char(pattern, '*');
    let parts = split_spec(pattern, '*');
    match find_first(pattern, seq!['*']) {
        Some(i) => {
            let t = pattern.skip(i + 1);
            law_star_pieces_rebuild(t);
            let rest = split_spec(t, '*');
            lemma_split_last(t, '*');
            assert(parts == seq![pattern.take(i)] + rest);
            assert(parts.drop_first() =~= rest);
            assert(!pattern.take(i).contains('*')) by {
                if pattern.take(i).contains('*') {
                    let j = choose|j: int| 0 <= j < pattern.take(i).len() && pattern.take(i)[j] == '*';
                    assert(pattern[j] == '*');
                }
            }
            assert forall|k: int| 0 <= k < parts.len() implies !(#[trigger] parts[k]).contains('*') by {
                if k > 0 {
                    assert(parts[k] == rest[k - 1]);
                }
            }
            let stars = Seq::new((parts.len() - 1) as nat, |j: int| seq!['*']);
            assert(stars.drop_first() =~= Seq::new((rest.len() - 1) as nat, |j: int| seq!['*']));
            assert(fill_stars(parts, stars) == pattern.take(i) + seq!['*'] + t);
            assert(pattern.take(i) + seq!['*'] + t =~= pattern);
        },
        None => {
            assert(parts == seq![pattern]);
        },
    }
}

/// A pattern with `*` but no `**` matches a path exactly when each `*` can be replaced by
/// a string without `/` so that the pattern becomes the path (`\\` read as `/` in both).
pub proof fn law_glob_single_star_meaning(pattern: Seq<char>, path: Seq<char>)
    requires
        pattern.contains('*'),
        find_first(normalize_seps(pattern), seq!['*', '*']) is None,
    ensures
        glob_match_spec(pattern, path) <==> star_match_spec(
            normalize_seps(pattern),
            normalize_seps(path),
        ),
{
    let pat = normalize_seps(pattern);
    let j = choose|j: int| 0 <= j < pattern.len() && pattern[j] == '*';
    assert(pat[j] == '*');
}

} // verus!
