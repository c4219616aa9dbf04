//! The navigation tools: chunk context, file outline, imports of a file, and the
//! files that depend on a module or symbol.

use std::collections::HashSet;
use vstd::prelude::*;
use crate::definition::{import_kinds, is_import_kind};
use crate::format::join_spec;
use crate::imports::{ImportItem, ImportView, imports_of_lines, parse_import_lines, import_lines_fit};
use crate::scoring::FtsResult;
use crate::search_tools::{ChunkRecord, ToolAnswer};
use crate::status::{no_dependents_message, no_imports_message, no_outline_message};
use crate::sorting::{lex_le, lex_le_exec, lemma_lex_total, lemma_lex_transitive, reversed, stable_sort, stable_sort_spec, Ordered};
use crate::text::{chars_of, contains_seq, eq_chars, find, lemma_find_first, lines_of, lines_spec, string_of};
use crate::types::{DependentItem, FileOutlineItem, GetChunkResponse};

verus! {

// ---------------------------------------------------------------- get_chunk

/// The context lines to include: the request's (default 0), at most 20, and whether
/// the request was clamped.
pub fn clamp_context_lines(requested: Option<usize>) -> (r: (usize, bool))
    ensures
        r == match requested {
            Some(n) => if n > 20 {
                (20usize, true)
            } else {
                (n, false)
            },
            None => (0usize, false),
        },
{
    let n = match requested {
        Some(n) => n,
        None => 0,
    };
    if n > 20 {
        (20, true)
    } else {
        (n, false)
    }
}

/// The lines `lo..hi` of `lines`, joined by newlines, when that range is not empty.
pub open spec fn joined_range(lines: Seq<Seq<char>>, lo: int, hi: int) -> Option<Seq<char>> {
    if lo < hi {
        Some(join_spec(lines.subrange(lo, hi), seq!['\n']))
    } else {
        None
    }
}

/// The up to `ctx` source lines before line `start` (0-based) of the chunk.
pub open spec fn context_before_spec(lines: Seq<Seq<char>>, start: int, ctx: int) -> Option<Seq<char>> {
    if lines.len() == 0 {
        None
    } else {
        let lo = if start > ctx {
            start - ctx
        } else {
            0
        };
        let hi = if start < lines.len() {
            start
        } else {
            lines.len() as int
        };
        joined_range(lines, lo, hi)
    }
}

/// The up to `ctx` source lines from line `end` (0-based) on, after the chunk.
pub open spec fn context_after_spec(lines: Seq<Seq<char>>, end: int, ctx: int) -> Option<Seq<char>> {
    if lines.len() == 0 {
        None
    } else {
        let lo = if end < lines.len() {
            end
        } else {
            lines.len() as int
        };
        let hi = if end + ctx < lines.len() {
            end + ctx
        } else {
            lines.len() as int
        };
        joined_range(lines, lo, hi)
    }
}

/// An optional string's characters.
pub open spec fn opt_view(o: Option<String>) -> Option<Seq<char>> {
    match o {
        Some(s) => Some(s@),
        None => None,
    }
}

fn join_range(lines: &Vec<Vec<char>>, lo: usize, hi: usize) -> (r: Option<String>)
    requires
        hi <= lines@.len(),
    ensures
        opt_view(r) == joined_range(lines.deep_view(), lo as int, hi as int),
{
    if lo < hi {
        let part = &lines.as_slice()[lo..hi];
        assert(part.deep_view() =~= lines.deep_view().subrange(lo as int, hi as int)) by {
            assert forall|k: int| 0 <= k < part@.len() implies part.deep_view()[k]
                == lines.deep_view().subrange(lo as int, hi as int)[k] by {
                assert(part@[k] == lines@[lo + k]);
            }
        }
        Some(crate::format::join_lines(part))
    } else {
        None
    }
}

/// The source lines around a chunk: up to `context_lines` before its start line and up
/// to `context_lines` from its end line on (line numbers are 0-based indexes into the
/// source's lines).
pub fn chunk_context(source: &str, start_line: usize, end_line: usize, context_lines: usize) -> (r: (
    Option<String>,
    Option<String>,
))
    requires
        end_line + context_lines <= usize::MAX,
    ensures
        opt_view(r.0) == context_before_spec(lines_spec(source@), start_line as int, context_lines as int),
        opt_view(r.1) == context_after_spec(lines_spec(source@), end_line as int, context_lines as int),
{
    let chars = chars_of(source);
    let lines = lines_of(chars.as_slice());
    if lines.len() == 0 {
        return (None, None);
    }
    let before_start = if start_line > context_lines {
        start_line - context_lines
    } else {
        0
    };
    let before_end = if start_line < lines.len() {
        start_line
    } else {
        lines.len()
    };
    let before = join_range(&lines, before_start, before_end);
    let after_start = if end_line < lines.len() {
        end_line
    } else {
        lines.len()
    };
    let after_end = if end_line + context_lines < lines.len() {
        end_line + context_lines
    } else {
        lines.len()
    };
    let after = join_range(&lines, after_start, after_end);
    (before, after)
}

/// The get_chunk response for a stored chunk. `source` is `None` when no context was
/// asked for, `Some(None)` when the source file could not be read, and `Some(Some(text))`
/// with the file's text otherwise.
pub open spec fn chunk_response_ok(
    r: GetChunkResponse,
    chunk_id: u32,
    chunk: ChunkRecord,
    context_lines: usize,
    clamped: bool,
    source: Option<Option<String>>,
) -> bool {
    &&& r.chunk_id == chunk_id
    &&& r.path == chunk.path
    &&& r.start_line == chunk.start_line
    &&& r.end_line == chunk.end_line
    &&& r.kind == chunk.kind
    &&& r.signature == chunk.signature
    &&& r.content == chunk.content
    &&& r.context_lines_clamped == if clamped {
        Some(true)
    } else {
        None
    }
    &&& match source {
        Some(Some(text)) => {
            &&& opt_view(r.context_before) == context_before_spec(
                lines_spec(text@),
                chunk.start_line as int,
                context_lines as int,
            )
            &&& opt_view(r.context_after) == context_after_spec(
                lines_spec(text@),
                chunk.end_line as int,
                context_lines as int,
            )
            &&& r.note is None
        },
        Some(None) => {
            &&& r.context_before is None
            &&& r.context_after is None
            &&& r.note matches Some(n) && n@
                == "source file not readable, returning indexed content only"@
        },
        None => r.context_before is None && r.context_after is None && r.note is None,
    }
}

/// Assemble the get_chunk response from the stored chunk and, when context was asked
/// for, the outcome of reading its source file.
pub fn chunk_response(
    chunk_id: u32,
    chunk: ChunkRecord,
    context_lines: usize,
    clamped: bool,
    source: Option<Option<String>>,
) -> (r: GetChunkResponse)
    requires
        chunk.end_line + context_lines <= usize::MAX,
    ensures
        chunk_response_ok(r, chunk_id, chunk, context_lines, clamped, source),
{
    let (context_before, context_after, note) = match source {
        Some(Some(text)) => {
            let (b, a) = chunk_context(text.as_str(), chunk.start_line, chunk.end_line, context_lines);
            (b, a, None)
        },
        Some(None) => (None, None, Some("source file not readable, returning indexed content only".to_owned())),
        None => (None, None, None),
    };
    GetChunkResponse {
        chunk_id,
        path: chunk.path,
        start_line: chunk.start_line,
        end_line: chunk.end_line,
        kind: chunk.kind,
        signature: chunk.signature,
        content: chunk.content,
        context_before,
        context_after,
        context_lines_clamped: if clamped {
            Some(true)
        } else {
            None
        },
        note,
    }
}

// ---------------------------------------------------------------- file_outline

/// Outline entries are listed by start line; entries on the same line keep their order.
impl Ordered for FileOutlineItem {
    open spec fn le_spec(a: FileOutlineItem, b: FileOutlineItem) -> bool {
        a.start_line <= b.start_line
    }

    proof fn lemma_le_total(a: FileOutlineItem, b: FileOutlineItem) {
    }

    proof fn lemma_le_transitive(a: FileOutlineItem, b: FileOutlineItem, c: FileOutlineItem) {
    }

    fn le(&self, other: &FileOutlineItem) -> (r: bool) {
        self.start_line <= other.start_line
    }
}

/// The outline of a file: its chunks sorted by start line, stably.
pub fn sort_outline(items: Vec<FileOutlineItem>) -> (r: Vec<FileOutlineItem>)
    ensures
        r@ == stable_sort_spec(items@),
{
    stable_sort(items)
}

// ---------------------------------------------------------------- find_imports

/// Imports are listed by line; imports on the same line keep their order.
impl Ordered for ImportItem {
    open spec fn le_spec(a: ImportItem, b: ImportItem) -> bool {
        a.line <= b.line
    }

    proof fn lemma_le_total(a: ImportItem, b: ImportItem) {
    }

    proof fn lemma_le_transitive(a: ImportItem, b: ImportItem, c: ImportItem) {
    }

    fn le(&self, other: &ImportItem) -> (r: bool) {
        self.line <= other.line
    }
}

/// The imports of a file, sorted by line, stably.
pub fn sort_imports(items: Vec<ImportItem>) -> (r: Vec<ImportItem>)
    ensures
        r@ == stable_sort_spec(items@),
{
    stable_sort(items)
}

/// The imports found in import chunks `(content, start_line)`, chunk after chunk.
pub open spec fn imports_of_chunks(chunks: Seq<(String, usize)>) -> Seq<ImportView>
    decreases chunks.len(),
{
    if chunks.len() == 0 {
        seq![]
    } else {
        imports_of_chunks(chunks.drop_last()) + imports_of_lines(
            lines_spec(chunks.last().0@),
            chunks.last().1 as int,
        )
    }
}

/// The imports found in import chunks `(content, start_line)`, chunk after chunk.
pub fn imports_from_chunks(chunks: Vec<(String, usize)>) -> (items: Vec<ImportItem>)
    requires
        forall|k: int|
            0 <= k < chunks@.len() ==> import_lines_fit(
                (#[trigger] chunks@[k]).0@,
                chunks@[k].1 as int,
            ),
    ensures
        items@.map_values(|it: ImportItem| it.view()) == imports_of_chunks(chunks@),
{
    let mut items: Vec<ImportItem> = Vec::new();
    let mut i: usize = 0;
    while i < chunks.len()
        invariant
            0 <= i <= chunks@.len(),
            forall|k: int|
                0 <= k < chunks@.len() ==> import_lines_fit(
                    (#[trigger] chunks@[k]).0@,
                    chunks@[k].1 as int,
                ),
            items@.map_values(|it: ImportItem| it.view()) == imports_of_chunks(
                chunks@.take(i as int),
            ),
        decreases chunks@.len() - i,
    {
        let (content, start) = (&chunks[i].0, chunks[i].1);
        assert(import_lines_fit(chunks@[i as int].0@, chunks@[i as int].1 as int));
        let mut parsed = parse_import_lines(content.as_str(), start);
        let ghost before = items@;
        let ghost added = parsed@;
        items.append(&mut parsed);
        assert(chunks@.take(i + 1).drop_last() =~= chunks@.take(i as int));
        assert(chunks@.take(i + 1).last() == chunks@[i as int]);
        assert(items@.map_values(|it: ImportItem| it.view()) =~= before.map_values(
            |it: ImportItem| it.view(),
        ) + added.map_values(|it: ImportItem| it.view()));
        i = i + 1;
    }
    assert(chunks@.take(chunks@.len() as int) =~= chunks@);
    items
}

/// How many exact hits per keyword the import fallback search asks for.
pub const IMPORT_FALLBACK_LIMIT: usize = 40;

/// The keywords the import fallback searches for when a file has no import chunks,
/// in the order they are searched.
pub fn import_fallback_keywords() -> (r: Vec<String>)
    ensures
        r@.map_values(|k: String| k@) == seq!["import"@, "use"@, "from"@, "require"@, "include"@],
{
    let v = vec![
        "import".to_owned(),
        "use".to_owned(),
        "from".to_owned(),
        "require".to_owned(),
        "include".to_owned(),
    ];
    assert(v@.map_values(|k: String| k@) =~= seq!["import"@, "use"@, "from"@, "require"@, "include"@]);
    v
}

/// The keyword searches of the import fallback: when the file's import chunks gave no
/// import, each fallback keyword with `IMPORT_FALLBACK_LIMIT` hits; otherwise none.
pub fn import_fallback_searches(items: &Vec<ImportItem>) -> (r: Vec<(String, usize)>)
    ensures
        items@.len() == 0 ==> r@.map_values(|q: (String, usize)| (q.0@, q.1)) == seq![
            ("import"@, 40usize),
            ("use"@, 40usize),
            ("from"@, 40usize),
            ("require"@, 40usize),
            ("include"@, 40usize),
        ],
        items@.len() > 0 ==> r@.len() == 0,
{
    let mut out: Vec<(String, usize)> = Vec::new();
    if items.len() == 0 {
        let keywords = import_fallback_keywords();
        let ghost kv = keywords@.map_values(|k: String| k@);
        let mut i: usize = 0;
        while i < keywords.len()
            invariant
                0 <= i <= keywords@.len(),
                kv == keywords@.map_values(|k: String| k@),
                kv == seq!["import"@, "use"@, "from"@, "require"@, "include"@],
                out@.len() == i,
                forall|t: int|
                    0 <= t < i ==> (#[trigger] out@[t]).0@ == kv[t] && out@[t].1 == IMPORT_FALLBACK_LIMIT,
            decreases keywords@.len() - i,
        {
            assert(keywords@[i as int]@ == kv[i as int]);
            out.push((keywords[i].clone(), IMPORT_FALLBACK_LIMIT));
            i = i + 1;
        }
        assert(out@.map_values(|q: (String, usize)| (q.0@, q.1)) =~= seq![
            ("import"@, 40usize),
            ("use"@, 40usize),
            ("from"@, 40usize),
            ("require"@, 40usize),
            ("include"@, 40usize),
        ]);
    }
    out
}

/// The chunk ids of `hits`, each once, in order of first appearance.
pub open spec fn first_seen_spec(hits: Seq<FtsResult>) -> Seq<u32>
    decreases hits.len(),
{
    if hits.len() == 0 {
        seq![]
    } else {
        let prev = first_seen_spec(hits.drop_last());
        if prev.contains(hits.last().chunk_id) {
            prev
        } else {
            prev.push(hits.last().chunk_id)
        }
    }
}

/// The chunk ids of the hits, each once, in order of first appearance.
pub fn first_seen_ids(hits: &Vec<FtsResult>) -> (r: Vec<u32>)
    ensures
        r@ == first_seen_spec(hits@),
{
    let mut out: Vec<u32> = Vec::new();
    let mut seen: HashSet<u32> = HashSet::new();
    let mut i: usize = 0;
    while i < hits.len()
        invariant
            0 <= i <= hits@.len(),
            out@ == first_seen_spec(hits@.take(i as int)),
            forall|x: u32| seen@.contains(x) <==> out@.contains(x),
        decreases hits@.len() - i,
    {
        let id = hits[i].chunk_id;
        assert(hits@.take(i + 1).drop_last() =~= hits@.take(i as int));
        assert(hits@.take(i + 1).last() == hits@[i as int]);
        let ghost before = out@;
        if seen.insert(id) {
            out.push(id);
            proof {
                assert forall|x: u32| seen@.contains(x) <==> out@.contains(x) by {
                    if before.contains(x) {
                        let j = choose|j: int| 0 <= j < before.len() && before[j] == x;
                        assert(out@[j] == x);
                    }
                    if out@.contains(x) && x != id {
                        let j = choose|j: int| 0 <= j < out@.len() && out@[j] == x;
                        assert(j < before.len());
                        assert(before[j] == x);
                    }
                    if x == id {
                        assert(out@[out@.len() - 1] == x);
                    }
                }
            }
        }
        i = i + 1;
    }
    assert(hits@.take(hits@.len() as int) =~= hits@);
    out
}

// ---------------------------------------------------------------- find_dependents

/// The number of dependents to return (the request's, default 20, at most 200) and the
/// number of search hits to examine (ten times that, at least 200).
pub fn dependents_limits(limit: Option<usize>) -> (r: (usize, usize))
    ensures
        r.0 == match limit {
            Some(l) => if l < 200 {
                l
            } else {
                200
            },
            None => 20,
        },
        r.1 == if r.0 * 10 > 200 {
            r.0 * 10
        } else {
            200
        },
{
    let l = match limit {
        Some(l) => l,
        None => 20,
    };
    let l = if l < 200 {
        l
    } else {
        200
    };
    let high = if l * 10 > 200 {
        l * 10
    } else {
        200
    };
    (l, high)
}

/// What `str::to_lowercase` returns for a string (full Unicode lowercase mapping).
pub uninterp spec fn lowercase(s: Seq<char>) -> Seq<char>;

/// `str::to_lowercase`: the contract names the result (`lowercase`), a function of the
/// string alone; the Unicode case tables are not restated.
#[verifier::external_body]
fn to_lowercase(s: &str) -> (r: String)
    ensures
        r@ == lowercase(s@),
{
    s.to_lowercase()
}

/// Whether two language names are the same, ignoring case (their lowercase forms are
/// equal).
pub fn same_language(a: &str, b: &str) -> (r: bool)
    ensures
        r == (lowercase(a@) == lowercase(b@)),
{
    let la = to_lowercase(a);
    let lb = to_lowercase(b);
    let ca = chars_of(la.as_str());
    let cb = chars_of(lb.as_str());
    eq_chars(ca.as_slice(), cb.as_slice())
}

/// The first of `lines` whose lowercase form contains `needle`, or nothing.
pub open spec fn first_line_containing(lines: Seq<Seq<char>>, needle: Seq<char>) -> Seq<char>
    decreases lines.len(),
{
    if lines.len() == 0 {
        seq![]
    } else if contains_seq(lowercase(lines[0]), needle) {
        lines[0]
    } else {
        first_line_containing(lines.drop_first(), needle)
    }
}

/// The import statement shown for a dependent chunk: the first line mentioning the
/// symbol (ignoring case) when the chunk mentions it, else the chunk's signature when
/// non-empty, else its first line.
pub open spec fn import_statement_spec(c: ChunkRecord, symbol: Seq<char>) -> Seq<char> {
    let needle = lowercase(symbol);
    if contains_seq(lowercase(c.content@), needle) {
        first_line_containing(lines_spec(c.content@), needle)
    } else {
        match c.signature {
            Some(s) => if s@.len() > 0 {
                s@
            } else {
                crate::literal::first_line(c.content@)
            },
            None => crate::literal::first_line(c.content@),
        }
    }
}

/// Whether find_dependents runs its broad full-text search, and for how many hits:
/// only when the exact search found nothing, with the same budget.
pub fn dependents_broad_search(exact_hits: &Vec<FtsResult>, high_limit: usize) -> (r: Option<usize>)
    ensures
        r == if exact_hits@.len() == 0 {
            Some(high_limit)
        } else {
            None::<usize>
        },
{
    if exact_hits.len() == 0 {
        Some(high_limit)
    } else {
        None
    }
}

/// What a store lookup of a chunk gave.
pub enum ChunkLookup<T> {
    Found(T),
    Missing,
    Failed,
}

/// A hit's chunk with the normalized form of its path.
pub struct DependentCandidate {
    pub chunk: ChunkRecord,
    pub normalized_path: String,
}

/// A dependent as plain values.
pub struct DependentView {
    pub path: Seq<char>,
    pub line: int,
    pub import_statement: Seq<char>,
}

impl DependentItem {
    pub open spec fn view(&self) -> DependentView {
        DependentView {
            path: self.path@,
            line: self.line as int,
            import_statement: self.import_statement@,
        }
    }
}

/// Walking the lookups in order: stop once `max(limit, 1)` dependents are collected;
/// a failed lookup before that fails the whole walk (`None`); import chunks of a path
/// not seen yet become dependents.
pub open spec fn dependents_fold(
    lookups: Seq<ChunkLookup<DependentCandidate>>,
    symbol: Seq<char>,
    limit: int,
) -> Option<(Set<Seq<char>>, Seq<DependentView>)>
    decreases lookups.len(),
{
    if lookups.len() == 0 {
        Some((Set::empty(), seq![]))
    } else {
        match dependents_fold(lookups.drop_last(), symbol, limit) {
            None => None,
            Some((seen, out)) => if out.len() >= limit && out.len() >= 1 {
                Some((seen, out))
            } else {
                match lookups.last() {
                    ChunkLookup::Failed => None,
                    ChunkLookup::Missing => Some((seen, out)),
                    ChunkLookup::Found(c) => if !import_kinds().contains(c.chunk.kind@) || seen.contains(
                        c.normalized_path@,
                    ) {
                        Some((seen, out))
                    } else {
                        Some(
                            (
                                seen.insert(c.normalized_path@),
                                out.push(
                                    DependentView {
                                        path: c.chunk.path@,
                                        line: c.chunk.start_line as int,
                                        import_statement: import_statement_spec(c.chunk, symbol),
                                    },
                                ),
                            ),
                        )
                    },
                }
            },
        }
    }
}

/// Whether the lowercase form of `s` contains `needle`.
fn lower_contains(s: &str, needle: &[char]) -> (r: bool)
    ensures
        r == contains_seq(lowercase(s@), needle@),
{
    let low = to_lowercase(s);
    let lc = chars_of(low.as_str());
    proof {
        lemma_find_first(lc@, needle@);
    }
    find(lc.as_slice(), needle).is_some()
}

/// The import statement shown for a dependent chunk.
fn import_statement(c: &ChunkRecord, symbol: &str) -> (r: String)
    ensures
        r@ == import_statement_spec(*c, symbol@),
{
    let low_sym = to_lowercase(symbol);
    let needle = chars_of(low_sym.as_str());
    if lower_contains(c.content.as_str(), needle.as_slice()) {
        let chars = chars_of(c.content.as_str());
        let lines = lines_of(chars.as_slice());
        let ghost lv = lines.deep_view();
        let mut i: usize = 0;
        assert(lv.skip(0) =~= lv);
        while i < lines.len()
            invariant
                0 <= i <= lines@.len(),
                lv == lines.deep_view(),
                needle@ == lowercase(symbol@),
                lv == lines_spec(c.content@),
                contains_seq(lowercase(c.content@), needle@),
                first_line_containing(lv, needle@) == first_line_containing(lv.skip(i as int), needle@),
            decreases lines@.len() - i,
        {
            let line = string_of(lines[i].as_slice());
            assert(lines[i as int]@ == lv[i as int]);
            assert(lv.skip(i as int)[0] == lv[i as int]);
            if lower_contains(line.as_str(), needle.as_slice()) {
                return line;
            }
            assert(lv.skip(i as int).drop_first() =~= lv.skip(i + 1));
            i = i + 1;
        }
        assert(lv.skip(i as int).len() == 0);
        String::new()
    } else {
        let sig_ok = match &c.signature {
            Some(s) => !s.as_str().is_empty(),
            None => false,
        };
        if sig_ok {
            match &c.signature {
                Some(s) => s.clone(),
                None => String::new(),
            }
        } else {
            let chars = chars_of(c.content.as_str());
            let lines = lines_of(chars.as_slice());
            if lines.len() > 0 {
                assert(lines[0]@ == lines.deep_view()[0]);
                string_of(lines[0].as_slice())
            } else {
                String::new()
            }
        }
    }
}

/// Whether `p` is among `seen`.
fn seen_contains(seen: &Vec<Vec<char>>, p: &[char]) -> (r: bool)
    ensures
        r == exists|k: int| 0 <= k < seen@.len() && (#[trigger] seen@[k])@ == p@,
{
    let mut k: usize = 0;
    while k < seen.len()
        invariant
            0 <= k <= seen@.len(),
            forall|j: int| 0 <= j < k ==> (#[trigger] seen@[j])@ != p@,
        decreases seen@.len() - k,
    {
        if eq_chars(seen[k].as_slice(), p) {
            return true;
        }
        k = k + 1;
    }
    false
}

/// The dependents found in the looked-up chunks, in order: import chunks, one per
/// normalized path, until `max(limit, 1)` are collected; `None` when a lookup reached
/// before then failed.
pub fn select_dependents(
    lookups: Vec<ChunkLookup<DependentCandidate>>,
    symbol: &str,
    limit: usize,
) -> (r: Option<Vec<DependentItem>>)
    ensures
        match (r, dependents_fold(lookups@, symbol@, limit as int)) {
            (Some(items), Some((_, out))) => items@.map_values(|it: DependentItem| it.view()) == out,
            (None, None) => true,
            _ => false,
        },
{
    let ghost all = lookups@;
    let mut rev = reversed(lookups);
    let n = rev.len();
    let mut out: Vec<DependentItem> = Vec::new();
    let mut seen: Vec<Vec<char>> = Vec::new();
    let ghost mut seen_set: Set<Seq<char>> = Set::empty();
    let mut i: usize = 0;
    assert(all.take(0) =~= Seq::<ChunkLookup<DependentCandidate>>::empty());
    while rev.len() > 0 && (out.len() < limit || out.len() == 0)
        invariant
            i + rev@.len() == all.len(),
            all.len() <= usize::MAX,
            all == lookups@,
            forall|k: int| 0 <= k < rev@.len() ==> #[trigger] rev@[k] == all[all.len() - 1 - k],
            dependents_fold(all.take(i as int), symbol@, limit as int) == Some(
                (seen_set, out@.map_values(|it: DependentItem| it.view())),
            ),
            forall|p: Seq<char>|
                seen_set.contains(p) <==> exists|k: int|
                    0 <= k < seen@.len() && (#[trigger] seen@[k])@ == p,
        decreases rev@.len(),
    {
        let lookup = rev.pop().unwrap();
        assert(lookup == all[i as int]);
        assert(all.take(i + 1).drop_last() =~= all.take(i as int));
        assert(all.take(i + 1).last() == all[i as int]);
        let ghost out_v = out@.map_values(|it: DependentItem| it.view());
        match lookup {
            ChunkLookup::Failed => {
                proof {
                    assert(dependents_fold(all.take(i + 1), symbol@, limit as int) is None);
                    lemma_fold_failed_stays(all, symbol@, limit as int, i as int + 1);
                    assert(dependents_fold(all, symbol@, limit as int) is None);
                }
                return None;
            },
            ChunkLookup::Missing => {},
            ChunkLookup::Found(c) => {
                let norm = chars_of(c.normalized_path.as_str());
                if is_import_kind(c.chunk.kind.as_str()) && !seen_contains(&seen, norm.as_slice()) {
                    let statement = import_statement(&c.chunk, symbol);
                    let ghost cg = c;
                    let ghost old_seen = seen@;
                    let ghost old_set = seen_set;
                    seen.push(norm);
                    proof {
                        seen_set = seen_set.insert(cg.normalized_path@);
                        assert forall|p: Seq<char>|
                            seen_set.contains(p) <==> exists|k: int|
                                0 <= k < seen@.len() && (#[trigger] seen@[k])@ == p by {
                            if old_set.contains(p) {
                                let k = choose|k: int|
                                    0 <= k < old_seen.len() && (#[trigger] old_seen[k])@ == p;
                                assert(seen@[k] == old_seen[k]);
                            }
                            if exists|k: int| 0 <= k < seen@.len() && (#[trigger] seen@[k])@ == p {
                                let k = choose|k: int| 0 <= k < seen@.len() && (#[trigger] seen@[k])@ == p;
                                if k < old_seen.len() {
                                    assert(seen@[k] == old_seen[k]);
                                    assert(old_set.contains(p));
                                }
                            }
                            if p == cg.normalized_path@ {
                                assert(seen@[seen@.len() - 1]@ == p);
                            }
                        }
                    }
                    let ghost before = out@;
                    out.push(
                        DependentItem {
                            path: c.chunk.path,
                            line: c.chunk.start_line,
                            import_statement: statement,
                        },
                    );
                    assert(out@.map_values(|it: DependentItem| it.view()) =~= out_v.push(
                        DependentView {
                            path: cg.chunk.path@,
                            line: cg.chunk.start_line as int,
                            import_statement: import_statement_spec(cg.chunk, symbol@),
                        },
                    ));
                } else {
                    proof {
                        if import_kinds().contains(c.chunk.kind@) {
                            assert(seen_set.contains(c.normalized_path@));
                        }
                    }
                }
            },
        }
        i = i + 1;
    }
    proof {
        lemma_fold_done_stays(all, symbol@, limit as int, i as int);
    }
    Some(out)
}

proof fn lemma_fold_failed_stays(
    lookups: Seq<ChunkLookup<DependentCandidate>>,
    symbol: Seq<char>,
    limit: int,
    i: int,
)
    requires
        0 <= i <= lookups.len(),
        dependents_fold(lookups.take(i), symbol, limit) is None,
    ensures
        dependents_fold(lookups, symbol, limit) is None,
    decreases lookups.len() - i,
{
    if i < lookups.len() {
        assert(lookups.take(i + 1).drop_last() =~= lookups.take(i));
        lemma_fold_failed_stays(lookups, symbol, limit, i + 1);
    } else {
        assert(lookups.take(i) =~= lookups);
    }
}

proof fn lemma_fold_done_stays(
    lookups: Seq<ChunkLookup<DependentCandidate>>,
    symbol: Seq<char>,
    limit: int,
    i: int,
)
    requires
        0 <= i <= lookups.len(),
        dependents_fold(lookups.take(i), symbol, limit) matches Some((_, out)) && (i
            == lookups.len() || (out.len() >= limit && out.len() >= 1)),
    ensures
        dependents_fold(lookups, symbol, limit) == dependents_fold(lookups.take(i), symbol, limit),
    decreases lookups.len() - i,
{
    if i < lookups.len() {
        assert(lookups.take(i + 1).drop_last() =~= lookups.take(i));
        lemma_fold_done_stays(lookups, symbol, limit, i + 1);
    } else {
        assert(lookups.take(i) =~= lookups);
    }
}

/// Dependents are listed by path; dependents with the same path keep their order.
impl Ordered for DependentItem {
    open spec fn le_spec(a: DependentItem, b: DependentItem) -> bool {
        lex_le(a.path@, b.path@)
    }

    proof fn lemma_le_total(a: DependentItem, b: DependentItem) {
        lemma_lex_total(a.path@, b.path@);
    }

    proof fn lemma_le_transitive(a: DependentItem, b: DependentItem, c: DependentItem) {
        lemma_lex_transitive(a.path@, b.path@, c.path@);
    }

    fn le(&self, other: &DependentItem) -> (r: bool) {
        let a = chars_of(self.path.as_str());
        let b = chars_of(other.path.as_str());
        lex_le_exec(a.as_slice(), b.as_slice())
    }
}

/// The dependents sorted by path, stably.
pub fn sort_dependents(items: Vec<DependentItem>) -> (r: Vec<DependentItem>)
    ensures
        r@ == stable_sort_spec(items@),
{
    stable_sort(items)
}

/// find_dependents reports at most `max(limit, 1)` files.
pub proof fn law_dependents_bounded(
    lookups: Seq<ChunkLookup<DependentCandidate>>,
    symbol: Seq<char>,
    limit: int,
)
    requires
        0 <= limit,
    ensures
        dependents_fold(lookups, symbol, limit) matches Some((_, out)) ==> out.len() <= if limit
            >= 1 {
            limit
        } else {
            1
        },
    decreases lookups.len(),
{
    if lookups.len() > 0 {
        law_dependents_bounded(lookups.drop_last(), symbol, limit);
    }
}


/// Only import chunks claim a file: taking out a lookup that found a chunk of another
/// kind, or found nothing, leaves find_dependents' walk unchanged, whatever stands
/// before or after it (a function chunk of `src/app.rs` does not hide that file's import
/// chunk).
pub proof fn law_dependents_ignore_other_kinds(
    lookups: Seq<ChunkLookup<DependentCandidate>>,
    k: int,
    symbol: Seq<char>,
    limit: int,
)
    requires
        0 <= k < lookups.len(),
        match lookups[k] {
            ChunkLookup::Found(c) => !import_kinds().contains(c.chunk.kind@),
            ChunkLookup::Missing => true,
            ChunkLookup::Failed => false,
        },
    ensures
        dependents_fold(lookups.remove(k), symbol, limit) == dependents_fold(lookups, symbol, limit),
    decreases lookups.len(),
{
    let r = lookups.remove(k);
    if k == lookups.len() - 1 {
        assert(r =~= lookups.drop_last());
        assert(lookups.last() == lookups[k]);
    } else {
        let d = lookups.drop_last();
        law_dependents_ignore_other_kinds(d, k, symbol, limit);
        assert(r.drop_last() =~= d.remove(k));
        assert(r.last() == lookups.last());
    }
}

/// The normalized path of a lookup that found an import chunk.
pub open spec fn import_path_of(l: ChunkLookup<DependentCandidate>) -> Option<Seq<char>> {
    match l {
        ChunkLookup::Found(c) => if import_kinds().contains(c.chunk.kind@) {
            Some(c.normalized_path@)
        } else {
            None
        },
        _ => None,
    }
}

/// The files find_dependents reports are those of its import chunks: each reported
/// (normalized) path is that of a found import chunk, one dependent per path; and while
/// fewer than `max(limit, 1)` dependents are collected, every found import chunk's path
/// is reported.
pub proof fn law_dependents_files(
    lookups: Seq<ChunkLookup<DependentCandidate>>,
    symbol: Seq<char>,
    limit: int,
)
    ensures
        dependents_fold(lookups, symbol, limit) matches Some((seen, out)) ==> {
            &&& seen.finite()
            &&& seen.len() == out.len()
            &&& forall|p: Seq<char>| #[trigger]
                seen.contains(p) ==> exists|k: int|
                    0 <= k < lookups.len() && #[trigger] import_path_of(lookups[k]) == Some(p)
            &&& (out.len() < limit || out.len() == 0) ==> forall|k: int|
                0 <= k < lookups.len() && (#[trigger] import_path_of(lookups[k])) is Some
                    ==> seen.contains(import_path_of(lookups[k])->0)
        },
    decreases lookups.len(),
{
    if lookups.len() > 0 {
        let d = lookups.drop_last();
        law_dependents_files(d, symbol, limit);
        let n = lookups.len() - 1;
        assert forall|k: int| 0 <= k < n implies d[k] == lookups[k] by {}
        assert(lookups.last() == lookups[n]);
        match dependents_fold(d, symbol, limit) {
            None => {},
            Some((seen0, out0)) => {
                assert forall|p: Seq<char>| #[trigger] seen0.contains(p) implies exists|k: int|
                    0 <= k < lookups.len() && #[trigger] import_path_of(lookups[k]) == Some(p) by {
                    let k = choose|k: int| 0 <= k < d.len() && #[trigger] import_path_of(d[k]) == Some(p);
                    assert(lookups[k] == d[k]);
                }
                if !(out0.len() >= limit && out0.len() >= 1) {
                    match lookups.last() {
                        ChunkLookup::Failed => {},
                        ChunkLookup::Missing => {
                            assert forall|k: int|
                                0 <= k < lookups.len() && (#[trigger] import_path_of(lookups[k])) is Some
                                    implies seen0.contains(import_path_of(lookups[k])->0) by {
                                if k < n {
                                    assert(d[k] == lookups[k]);
                                }
                            }
                        },
                        ChunkLookup::Found(cl) => {
                            let np = cl.normalized_path@;
                            if import_kinds().contains(cl.chunk.kind@) && !seen0.contains(np) {
                                let seen1 = seen0.insert(np);
                                assert forall|p: Seq<char>| #[trigger] seen1.contains(p) implies exists|k: int|
                                    0 <= k < lookups.len() && #[trigger] import_path_of(lookups[k]) == Some(p) by {
                                    if !seen0.contains(p) {
                                        assert(import_path_of(lookups[n]) == Some(p));
                                    }
                                }
                                assert forall|k: int|
                                    0 <= k < lookups.len() && (#[trigger] import_path_of(lookups[k])) is Some
                                        implies seen1.contains(import_path_of(lookups[k])->0) by {
                                    if k < n {
                                        assert(d[k] == lookups[k]);
                                    }
                                }
                            } else {
                                assert forall|k: int|
                                    0 <= k < lookups.len() && (#[trigger] import_path_of(lookups[k])) is Some
                                        implies seen0.contains(import_path_of(lookups[k])->0) by {
                                    if k < n {
                                        assert(d[k] == lookups[k]);
                                    }
                                }
                            }
                        },
                    }
                }
            },
        }
    }
}

/// The answer of file_outline: the file's chunks sorted by start line, or a message
/// when none is indexed.
pub fn outline_answer(items: Vec<FileOutlineItem>) -> (r: ToolAnswer<FileOutlineItem>)
    ensures
        if items@.len() == 0 {
            r matches ToolAnswer::Text(m) && m@
                == "No indexed chunks found for path. Verify the file is within the project root and the index is up to date."@
        } else {
            r matches ToolAnswer::Items(v) && v@ == stable_sort_spec(items@)
        },
{
    if items.len() == 0 {
        ToolAnswer::Text(no_outline_message())
    } else {
        ToolAnswer::Items(sort_outline(items))
    }
}

/// The import chunks `(normalized path, content, start_line)` that belong to the file
/// `target`, as `(content, start_line)`, in order.
pub open spec fn chunks_of_file(chunks: Seq<(String, String, usize)>, target: Seq<char>) -> Seq<(String, usize)>
    decreases chunks.len(),
{
    if chunks.len() == 0 {
        seq![]
    } else {
        let prev = chunks_of_file(chunks.drop_last(), target);
        if chunks.last().0@ == target {
            prev.push((chunks.last().1, chunks.last().2))
        } else {
            prev
        }
    }
}

/// The chunks `(normalized path, content, start_line)` whose path is `target`, as
/// `(content, start_line)`, in order.
pub fn file_chunks(chunks: Vec<(String, String, usize)>, target: &str) -> (r: Vec<(String, usize)>)
    ensures
        r@ == chunks_of_file(chunks@, target@),
{
    let ghost all = chunks@;
    let n = chunks.len();
    let mut rev = reversed(chunks);
    let t = chars_of(target);
    let mut out: Vec<(String, usize)> = Vec::new();
    let mut i: usize = 0;
    assert(all.take(0) =~= Seq::<(String, String, usize)>::empty());
    while rev.len() > 0
        invariant
            i + rev@.len() == all.len(),
            all.len() <= usize::MAX,
            t@ == target@,
            forall|k: int| 0 <= k < rev@.len() ==> #[trigger] rev@[k] == all[all.len() - 1 - k],
            out@ == chunks_of_file(all.take(i as int), target@),
        decreases rev@.len(),
    {
        let c = rev.pop().unwrap();
        assert(c == all[i as int]);
        assert(all.take(i + 1).drop_last() =~= all.take(i as int));
        assert(all.take(i + 1).last() == all[i as int]);
        let p = chars_of(c.0.as_str());
        if eq_chars(p.as_slice(), t.as_slice()) {
            out.push((c.1, c.2));
        }
        i = i + 1;
    }
    assert(all.take(i as int) =~= all);
    out
}

/// The answer of find_imports: the imports sorted by line, or a message when there is
/// none.
pub fn imports_answer(items: Vec<ImportItem>) -> (r: ToolAnswer<ImportItem>)
    ensures
        if items@.len() == 0 {
            r matches ToolAnswer::Text(m) && m@
                == "No import chunks found. The index may not include import statements for this language, or the file has no imports."@
        } else {
            r matches ToolAnswer::Items(v) && v@ == stable_sort_spec(items@)
        },
{
    if items.len() == 0 {
        ToolAnswer::Text(no_imports_message())
    } else {
        ToolAnswer::Items(sort_imports(items))
    }
}

/// The answer of find_dependents: `None` when a chunk lookup failed; else the
/// dependents of `select_dependents` sorted by path, or a message when there is none.
pub fn dependents_answer(
    lookups: Vec<ChunkLookup<DependentCandidate>>,
    symbol_or_path: &str,
    limit: usize,
) -> (r: Option<ToolAnswer<DependentItem>>)
    ensures
        match dependents_fold(lookups@, symbol_or_path@, limit as int) {
            None => r is None,
            Some((_, out)) => if out.len() == 0 {
                r matches Some(ToolAnswer::Text(m)) && m@ == "No dependent files found for '"@
                    + symbol_or_path@ + "'."@
            } else {
                r matches Some(ToolAnswer::Items(v)) && exists|w: Seq<DependentItem>|
                    w.map_values(|it: DependentItem| it.view()) == out && v@ == stable_sort_spec(w)
            },
        },
{
    match select_dependents(lookups, symbol_or_path, limit) {
        None => None,
        Some(items) => {
            if items.len() == 0 {
                Some(ToolAnswer::Text(no_dependents_message(symbol_or_path)))
            } else {
                let sorted = sort_dependents(items);
                Some(ToolAnswer::Items(sorted))
            }
        },
    }
}

} // verus!
