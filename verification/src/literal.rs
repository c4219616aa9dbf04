//! The literal-search tool: post-filters on language and file glob, snippets at the
//! first matching line, and the grep-style output.

use vstd::prelude::*;
use crate::format::{decimal_spec, join_spec, push_chars, push_str, decimal_chars};
use crate::glob::{glob_match_spec, simple_glob_match};
use crate::search_tools::{take_at_most, ChunkRecord, ToolAnswer};
use crate::status::{no_filtered_results_message, no_literal_results_message};
use crate::snippet::{match_line_for_literal, match_line_spec, pattern_of, LineRegex};
use crate::sorting::reversed;
use crate::text::{
    chars_of, eq_chars, is_prefix_of, lines_of, lines_spec, starts_with, string_of,
    trim_start_seq, trim_start_seq_spec,
};
use crate::types::LiteralSearchResultItem;

verus! {

/// A full-text hit whose chunk was found: the chunk, the order key of its score, and
/// the name of the language of its file.
pub struct LiteralCandidate {
    pub chunk: ChunkRecord,
    pub score: u32,
    pub language: String,
}

/// `path` relative to the project root: without the root prefix and leading `/`s.
pub open spec fn relative_path_spec(path: Seq<char>, root: Seq<char>) -> Seq<char> {
    trim_start_seq_spec(
        if is_prefix_of(root, path) {
            path.skip(root.len() as int)
        } else {
            path
        },
        seq!['/'],
    )
}

/// A candidate passes the post-filters: its language is the requested one and its
/// path relative to the root matches the requested glob (when these are given).
pub open spec fn literal_keep(
    c: LiteralCandidate,
    language: Option<Seq<char>>,
    glob: Option<Seq<char>>,
    root: Seq<char>,
) -> bool {
    &&& match language {
        Some(l) => c.language@ == l,
        None => true,
    }
    &&& match glob {
        Some(g) => glob_match_spec(g, relative_path_spec(c.chunk.path@, root)),
        None => true,
    }
}

/// The candidates that pass the post-filters, in order.
pub open spec fn literal_kept(
    cands: Seq<LiteralCandidate>,
    language: Option<Seq<char>>,
    glob: Option<Seq<char>>,
    root: Seq<char>,
) -> Seq<LiteralCandidate>
    decreases cands.len(),
{
    if cands.len() == 0 {
        seq![]
    } else {
        let prev = literal_kept(cands.drop_last(), language, glob, root);
        if literal_keep(cands.last(), language, glob, root) {
            prev.push(cands.last())
        } else {
            prev
        }
    }
}

/// The first line of `content`, or nothing when it has no lines.
pub open spec fn first_line(content: Seq<char>) -> Seq<char> {
    if lines_spec(content).len() > 0 {
        lines_spec(content)[0]
    } else {
        seq![]
    }
}

/// The line offset and snippet of a chunk: those of its first matching line, else the
/// first line at offset 0.
pub open spec fn snippet_of(
    content: Seq<char>,
    query: Seq<char>,
    pattern: Option<Seq<char>>,
) -> (int, Seq<char>) {
    match match_line_spec(content, query, pattern) {
        Some((i, s)) => (i, s),
        None => (0, first_line(content)),
    }
}

/// The result item for a candidate: its path, the line of the snippet, its end line,
/// the snippet, its score, and its kind and signature when non-empty.
pub open spec fn literal_item_ok(
    item: LiteralSearchResultItem,
    c: LiteralCandidate,
    query: Seq<char>,
    pattern: Option<Seq<char>>,
) -> bool {
    let (offset, snippet) = snippet_of(c.chunk.content@, query, pattern);
    &&& item.path == c.chunk.path
    &&& item.start_line == c.chunk.start_line + offset
    &&& item.end_line == c.chunk.end_line
    &&& item.snippet@ == snippet
    &&& item.score == c.score
    &&& item.kind == if c.chunk.kind@.len() == 0 {
        None
    } else {
        Some(c.chunk.kind)
    }
    &&& item.signature == match c.chunk.signature {
        Some(s) => if s@.len() == 0 {
            None
        } else {
            Some(s)
        },
        None => None,
    }
}

/// The candidate's content fits a `str` (whose length is at most `isize::MAX`).
pub open spec fn candidate_fits(c: LiteralCandidate) -> bool {
    c.chunk.content@.len() <= usize::MAX / 2
}

/// The line number of the candidate's snippet fits a `usize`.
pub open spec fn snippet_line_fits(c: LiteralCandidate, query: Seq<char>, pattern: Option<Seq<char>>) -> bool {
    c.chunk.start_line + snippet_of(c.chunk.content@, query, pattern).0 <= usize::MAX
}

/// The line number of some kept candidate's snippet overflows a `usize`.
pub open spec fn some_snippet_overflows(
    kept: Seq<LiteralCandidate>,
    query: Seq<char>,
    pattern: Option<Seq<char>>,
) -> bool {
    exists|j: int| 0 <= j < kept.len() && !snippet_line_fits(#[trigger] kept[j], query, pattern)
}

/// What literal search gives for the kept candidates: nothing when the line number of
/// some kept candidate's snippet overflows a `usize`; else one item per kept candidate.
pub open spec fn literal_items_ok(
    r: Option<Vec<LiteralSearchResultItem>>,
    kept: Seq<LiteralCandidate>,
    query: Seq<char>,
    pattern: Option<Seq<char>>,
) -> bool {
    match r {
        None => some_snippet_overflows(kept, query, pattern),
        Some(items) => {
            &&& items@.len() == kept.len()
            &&& forall|j: int|
                0 <= j < kept.len() ==> snippet_line_fits(#[trigger] kept[j], query, pattern)
                    && literal_item_ok(items@[j], kept[j], query, pattern)
        },
    }
}

/// `path` relative to the project root: without the root prefix and leading `/`s.
pub fn relative_path(path: &str, root: &str) -> (r: Vec<char>)
    ensures
        r@ == relative_path_spec(path@, root@),
{
    let p = chars_of(path);
    let rt = chars_of(root);
    let slash = ['/'];
    assert(slash@ =~= seq!['/']);
    let rest: &[char] = if starts_with(p.as_slice(), rt.as_slice()) {
        &p.as_slice()[rt.len()..p.len()]
    } else {
        p.as_slice()
    };
    let r = trim_start_seq(rest, &slash);
    vstd::slice::slice_to_vec(r)
}

fn keep_candidate(c: &LiteralCandidate, language: Option<&str>, glob: Option<&str>, root: &str) -> (r:
    bool)
    ensures
        r == literal_keep(
            *c,
            match language {
                Some(l) => Some(l@),
                None => None,
            },
            match glob {
                Some(g) => Some(g@),
                None => None,
            },
            root@,
        ),
{
    match language {
        Some(l) => {
            let a = chars_of(c.language.as_str());
            let b = chars_of(l);
            if !eq_chars(a.as_slice(), b.as_slice()) {
                return false;
            }
        },
        None => {},
    }
    match glob {
        Some(g) => {
            let rel = relative_path(c.chunk.path.as_str(), root);
            let rel_s = string_of(rel.as_slice());
            simple_glob_match(g, rel_s.as_str())
        },
        None => true,
    }
}

/// The result items of literal search: the candidates that pass the language and glob
/// post-filters, at most `limit` of them, each with the snippet of its first matching
/// line (or its first line).
pub fn literal_search_items(
    candidates: Vec<LiteralCandidate>,
    language: Option<&str>,
    glob: Option<&str>,
    project_root: &str,
    query: &str,
    regex: Option<&LineRegex>,
    limit: usize,
) -> (r: Option<Vec<LiteralSearchResultItem>>)
    requires
        forall|k: int| 0 <= k < candidates@.len() ==> candidate_fits(#[trigger] candidates@[k]),
    ensures
        literal_items_ok(
            r,
            take_at_most(
                literal_kept(
                    candidates@,
                    match language {
                        Some(l) => Some(l@),
                        None => None,
                    },
                    match glob {
                        Some(g) => Some(g@),
                        None => None,
                    },
                    project_root@,
                ),
                limit as int,
            ),
            query@,
            pattern_of(regex),
        ),
{
    let ghost lang_s = match language {
        Some(l) => Some(l@),
        None => None,
    };
    let ghost glob_s = match glob {
        Some(g) => Some(g@),
        None => None,
    };
    let ghost all = candidates@;
    let mut rev = reversed(candidates);
    let n = rev.len();
    let mut items: Vec<LiteralSearchResultItem> = Vec::new();
    let mut i: usize = 0;
    let ghost mut kept: Seq<LiteralCandidate> = Seq::empty();
    assert(all.take(0) =~= Seq::<LiteralCandidate>::empty());
    while rev.len() > 0 && items.len() < limit
        invariant
            i + rev@.len() == all.len(),
            all == candidates@,
            all.len() <= usize::MAX,
            lang_s == match language {
                Some(l) => Some(l@),
                None => None,
            },
            glob_s == match glob {
                Some(g) => Some(g@),
                None => None,
            },
            forall|k: int| 0 <= k < rev@.len() ==> #[trigger] rev@[k] == all[all.len() - 1 - k],
            forall|k: int| 0 <= k < all.len() ==> candidate_fits(#[trigger] all[k]),
            kept == literal_kept(all.take(i as int), lang_s, glob_s, project_root@),
            items@.len() == kept.len(),
            items@.len() <= limit,
            forall|j: int|
                0 <= j < kept.len() ==> snippet_line_fits(#[trigger] kept[j], query@, pattern_of(regex))
                    && literal_item_ok(items@[j], kept[j], query@, pattern_of(regex)),
        decreases rev@.len(),
    {
        let c = rev.pop().unwrap();
        assert(c == all[i as int]);
        assert(all.take(i + 1).drop_last() =~= all.take(i as int));
        assert(all.take(i + 1).last() == all[i as int]);
        assert(candidate_fits(c));
        let ghost cg = c;
        let keep = keep_candidate(&c, language, glob, project_root);
        proof {
            assert(keep == literal_keep(cg, lang_s, glob_s, project_root@));
            assert(literal_kept(all.take(i + 1), lang_s, glob_s, project_root@) == if keep {
                kept.push(cg)
            } else {
                kept
            });
        }
        if keep {
            let (offset, snippet) = match match_line_for_literal(c.chunk.content.as_str(), query, regex) {
                Some(found) => found,
                None => {
                    let content = chars_of(c.chunk.content.as_str());
                    let lines = lines_of(content.as_slice());
                    if lines.len() > 0 {
                        let first = string_of(lines[0].as_slice());
                        assert(lines[0]@ == lines.deep_view()[0]);
                        (0, first)
                    } else {
                        (0, String::new())
                    }
                },
            };
            proof {
                crate::snippet::law_match_line_is_first(c.chunk.content@, query@, pattern_of(regex));
            }
            let kind = if c.chunk.kind.as_str().is_empty() {
                None
            } else {
                Some(c.chunk.kind)
            };
            let signature = match c.chunk.signature {
                Some(s) => if s.as_str().is_empty() {
                    None
                } else {
                    Some(s)
                },
                None => None,
            };
            assert(offset == snippet_of(cg.chunk.content@, query@, pattern_of(regex)).0);
            let start_line = match c.chunk.start_line.checked_add(offset) {
                Some(line) => line,
                None => {
                    proof {
                        lemma_kept_prefix(all, lang_s, glob_s, project_root@, i + 1);
                        let full = literal_kept(all, lang_s, glob_s, project_root@);
                        let b = literal_kept(all.take(i + 1), lang_s, glob_s, project_root@);
                        let k = kept.len() as int;
                        assert(b == kept.push(cg));
                        assert(full.take(b.len() as int) == b);
                        assert(full.take(b.len() as int)[k] == full[k]);
                        assert(full[k] == cg);
                        assert(k < limit);
                        assert(k < take_at_most(full, limit as int).len());
                        assert(take_at_most(full, limit as int)[k] == cg);
                        assert(!snippet_line_fits(take_at_most(full, limit as int)[k], query@, pattern_of(regex)));
                        assert(literal_items_ok(None, take_at_most(full, limit as int), query@, pattern_of(regex)));
                    }
                    return None;
                },
            };
            let item = LiteralSearchResultItem {
                path: c.chunk.path,
                start_line,
                end_line: c.chunk.end_line,
                snippet,
                score: c.score,
                kind,
                signature,
            };
            proof {
                kept = kept.push(cg);
            }
            items.push(item);
        }
        i = i + 1;
    }
    proof {
        lemma_kept_prefix(all, lang_s, glob_s, project_root@, i as int);
        let full = literal_kept(all, lang_s, glob_s, project_root@);
        if rev@.len() == 0 {
            assert(all.take(i as int) =~= all);
            assert(full.take(full.len() as int) =~= full);
        }
        assert(take_at_most(full, limit as int) =~= kept);
    }
    Some(items)
}

proof fn lemma_kept_prefix(
    cands: Seq<LiteralCandidate>,
    language: Option<Seq<char>>,
    glob: Option<Seq<char>>,
    root: Seq<char>,
    i: int,
)
    requires
        0 <= i <= cands.len(),
    ensures
        literal_kept(cands.take(i), language, glob, root).len() <= literal_kept(
            cands,
            language,
            glob,
            root,
        ).len(),
        literal_kept(cands, language, glob, root).take(
            literal_kept(cands.take(i), language, glob, root).len() as int,
        ) == literal_kept(cands.take(i), language, glob, root),
    decreases cands.len() - i,
{
    if i < cands.len() {
        lemma_kept_prefix(cands, language, glob, root, i + 1);
        assert(cands.take(i + 1).drop_last() =~= cands.take(i));
        let a = literal_kept(cands.take(i), language, glob, root);
        let b = literal_kept(cands.take(i + 1), language, glob, root);
        let full = literal_kept(cands, language, glob, root);
        assert(full.take(a.len() as int) =~= b.take(a.len() as int));
    } else {
        assert(cands.take(i) =~= cands);
        let full = literal_kept(cands, language, glob, root);
        assert(full.take(full.len() as int) =~= full);
    }
}

/// The grep-style line of an item: `path:line:snippet`.
pub open spec fn grep_line(item: LiteralSearchResultItem) -> Seq<char> {
    item.path@ + seq![':'] + decimal_spec(item.start_line as nat) + seq![':'] + item.snippet@
}

/// The grep-style lines of the items.
pub open spec fn grep_lines(items: Seq<LiteralSearchResultItem>) -> Seq<Seq<char>> {
    items.map_values(|it: LiteralSearchResultItem| grep_line(it))
}

/// The grep-style output: one `path:line:snippet` line per item, joined by newlines.
pub fn grep_output(items: &Vec<LiteralSearchResultItem>) -> (s: String)
    ensures
        s@ == join_spec(grep_lines(items@), seq!['\n']),
{
    let mut lines: Vec<Vec<char>> = Vec::new();
    let mut i: usize = 0;
    while i < items.len()
        invariant
            0 <= i <= items@.len(),
            lines@.len() == i,
            forall|k: int| 0 <= k < i ==> (#[trigger] lines@[k])@ == grep_line(items@[k]),
        decreases items@.len() - i,
    {
        let it = &items[i];
        let mut line: Vec<char> = Vec::new();
        push_str(&mut line, it.path.as_str());
        line.push(':');
        let num = decimal_chars(it.start_line);
        push_chars(&mut line, num.as_slice());
        line.push(':');
        push_str(&mut line, it.snippet.as_str());
        assert(line@ =~= grep_line(*it));
        lines.push(line);
        i = i + 1;
    }
    assert forall|k: int| 0 <= k < lines@.len() implies lines.deep_view()[k] == grep_lines(
        items@,
    )[k] by {
        assert(lines.deep_view()[k] == lines@[k]@);
    }
    assert(lines.deep_view() =~= grep_lines(items@));
    crate::format::join_lines(lines.as_slice())
}


/// Which full-text query a literal search runs.
pub enum LiteralMode {
    /// A regular-expression search
    Regex,
    /// A phrase search
    Phrase,
    /// A BM25 term search (the default)
    Terms,
}

/// The query a literal search runs: a regex search when `regex` is set, else a phrase
/// search when `phrase` is set, else a term search.
pub fn literal_mode(regex: Option<bool>, phrase: Option<bool>) -> (r: LiteralMode)
    ensures
        r == (if regex == Some(true) {
            LiteralMode::Regex
        } else if phrase == Some(true) {
            LiteralMode::Phrase
        } else {
            LiteralMode::Terms
        }),
{
    if regex == Some(true) {
        LiteralMode::Regex
    } else if phrase == Some(true) {
        LiteralMode::Phrase
    } else {
        LiteralMode::Terms
    }
}

/// The full-text query a literal search runs, the number of results it reports (the
/// request's, default 20), and the number of hits it asks the index for (three times
/// that).
pub fn literal_search_plan(regex: Option<bool>, phrase: Option<bool>, limit: Option<usize>) -> (r: (
    LiteralMode,
    usize,
    usize,
))
    requires
        limit matches Some(l) ==> l * 3 <= usize::MAX,
    ensures
        r.0 == (if regex == Some(true) {
            LiteralMode::Regex
        } else if phrase == Some(true) {
            LiteralMode::Phrase
        } else {
            LiteralMode::Terms
        }),
        r.1 == match limit {
            Some(l) => l,
            None => 20,
        },
        r.2 == r.1 * 3,
{
    let l = match limit {
        Some(l) => l,
        None => 20,
    };
    (literal_mode(regex, phrase), l, l * 3)
}

/// Whether the requested output format is the grep-style one (the default is JSON).
pub fn is_grep_format(format: &Option<String>) -> (r: bool)
    ensures
        r == (match format {
            Some(f) => f@ == "grep"@,
            None => false,
        }),
{
    proof {
        reveal_strlit("grep");
    }
    match format {
        Some(f) => {
            let a = chars_of(f.as_str());
            let b = chars_of("grep");
            eq_chars(a.as_slice(), b.as_slice())
        },
        None => false,
    }
}


/// The answer of literal search for what the full-text search found: a message when it
/// found no hit (`searched_hits == 0`) or none passes the post-filters; else the result
/// items of `literal_search_items`, as grep-style text when `grep` is set. `None` when the
/// line number of a kept candidate's snippet overflows a `usize`.
pub fn literal_search_answer(
    query: &str,
    searched_hits: usize,
    candidates: Vec<LiteralCandidate>,
    language: Option<&str>,
    glob: Option<&str>,
    project_root: &str,
    regex: Option<&LineRegex>,
    limit: usize,
    grep: bool,
) -> (r: Option<ToolAnswer<LiteralSearchResultItem>>)
    requires
        forall|k: int| 0 <= k < candidates@.len() ==> candidate_fits(#[trigger] candidates@[k]),
    ensures
        ({
            let kept = take_at_most(
                literal_kept(
                    candidates@,
                    match language {
                        Some(l) => Some(l@),
                        None => None,
                    },
                    match glob {
                        Some(g) => Some(g@),
                        None => None,
                    },
                    project_root@,
                ),
                limit as int,
            );
            if searched_hits == 0 {
                r matches Some(ToolAnswer::Text(m)) && m@ == "No results found for '"@ + query@
                    + "'. Try a different query or mode."@
            } else if kept.len() == 0 {
                r matches Some(ToolAnswer::Text(m)) && m@ == "No results found for '"@ + query@
                    + "' after applying filters."@
            } else if some_snippet_overflows(kept, query@, pattern_of(regex)) {
                r is None
            } else {
                exists|items: Seq<LiteralSearchResultItem>|
                    {
                        &&& items.len() == kept.len()
                        &&& forall|j: int|
                            0 <= j < kept.len() ==> literal_item_ok(
                                #[trigger] items[j],
                                kept[j],
                                query@,
                                pattern_of(regex),
                            )
                        &&& if grep {
                            r matches Some(ToolAnswer::Text(t)) && t@ == join_spec(
                                grep_lines(items),
                                seq!['\n'],
                            )
                        } else {
                            r matches Some(ToolAnswer::Items(v)) && v@ == items
                        }
                    }
            }
        }),
{
    if searched_hits == 0 {
        return Some(ToolAnswer::Text(no_literal_results_message(query)));
    }
    let ghost kept = take_at_most(
        literal_kept(
            candidates@,
            match language {
                Some(l) => Some(l@),
                None => None,
            },
            match glob {
                Some(g) => Some(g@),
                None => None,
            },
            project_root@,
        ),
        limit as int,
    );
    let found = literal_search_items(candidates, language, glob, project_root, query, regex, limit);
    assert(literal_items_ok(found, kept, query@, pattern_of(regex)));
    let items = match found {
        Some(items) => items,
        None => {
            proof {
                let j = choose|j: int|
                    0 <= j < kept.len() && !snippet_line_fits(#[trigger] kept[j], query@, pattern_of(regex));
                assert(kept.len() > 0);
            }
            return None;
        },
    };
    if items.len() == 0 {
        Some(ToolAnswer::Text(no_filtered_results_message(query)))
    } else if grep {
        let text = grep_output(&items);
        Some(ToolAnswer::Text(text))
    } else {
        Some(ToolAnswer::Items(items))
    }
}

} // verus!
