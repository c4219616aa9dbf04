//! The decisions of the search tools: which stored chunks become definition or usage
//! results, how fused rankings map back to search hits, and how a semantic-search
//! response is assembled.
//!
//! The index stores are read by the caller; these functions take what was read.

use vstd::prelude::*;
use crate::definition::{definition_kinds, is_definition_chunk, is_definition_chunk_spec, is_definition_kind};
use crate::scoring::{compute_low_confidence, low_confidence_spec, FtsResult};
use crate::status::{definition_not_indexed_message, no_definition_message, only_definitions_message, usages_not_indexed_message};
use crate::text::{chars_of, eq_chars};
use crate::types::{ReferenceItem, SearchResultItem, SemanticSearchResponse};

verus! {

/// A stored chunk, as the vector store returns it.
pub struct ChunkRecord {
    pub path: String,
    pub start_line: usize,
    pub end_line: usize,
    pub kind: String,
    pub signature: Option<String>,
    pub content: String,
    pub context_prev: Option<String>,
    pub context_next: Option<String>,
}

/// A search hit: a chunk, its id and the order key of its score.
pub struct SearchHit {
    pub id: u32,
    pub chunk: ChunkRecord,
    pub score: u32,
}

/// A copy of an optional string.
pub fn clone_opt_string(o: &Option<String>) -> (r: Option<String>)
    ensures
        r == *o,
{
    match o {
        Some(s) => Some(s.clone()),
        None => None,
    }
}

/// A copy of a stored chunk.
pub fn clone_chunk(c: &ChunkRecord) -> (r: ChunkRecord)
    ensures
        r == *c,
{
    ChunkRecord {
        path: c.path.clone(),
        start_line: c.start_line,
        end_line: c.end_line,
        kind: c.kind.clone(),
        signature: clone_opt_string(&c.signature),
        content: c.content.clone(),
        context_prev: clone_opt_string(&c.context_prev),
        context_next: clone_opt_string(&c.context_next),
    }
}

/// The reference item for a hit on a chunk.
pub open spec fn reference_of(f: FtsResult, c: ChunkRecord) -> ReferenceItem {
    ReferenceItem {
        chunk_id: f.chunk_id,
        path: c.path,
        line: c.start_line,
        kind: c.kind,
        signature: c.signature,
        score: f.score,
    }
}

/// A hit is a definition result: its chunk was found, has a definition kind, and has
/// the requested kind when one is given.
pub open spec fn is_definition_hit(hit: (FtsResult, Option<ChunkRecord>), kind: Option<String>) -> bool {
    match hit.1 {
        Some(c) => definition_kinds().contains(c.kind@) && match kind {
            Some(k) => c.kind@ == k@,
            None => true,
        },
        None => false,
    }
}

/// The definition results among `hits`, in order.
pub open spec fn definitions_spec(
    hits: Seq<(FtsResult, Option<ChunkRecord>)>,
    kind: Option<String>,
) -> Seq<ReferenceItem>
    decreases hits.len(),
{
    if hits.len() == 0 {
        seq![]
    } else {
        let prev = definitions_spec(hits.drop_last(), kind);
        if is_definition_hit(hits.last(), kind) {
            prev.push(reference_of(hits.last().0, hits.last().1->0))
        } else {
            prev
        }
    }
}

/// At most `limit` items: the first ones.
pub open spec fn take_at_most<T>(s: Seq<T>, limit: int) -> Seq<T> {
    if s.len() <= limit {
        s
    } else {
        s.take(limit)
    }
}

proof fn lemma_definitions_prefix(
    hits: Seq<(FtsResult, Option<ChunkRecord>)>,
    kind: Option<String>,
    i: int,
)
    requires
        0 <= i <= hits.len(),
    ensures
        definitions_spec(hits.take(i), kind).len() <= definitions_spec(hits, kind).len(),
        definitions_spec(hits, kind).take(definitions_spec(hits.take(i), kind).len() as int)
            == definitions_spec(hits.take(i), kind),
    decreases hits.len() - i,
{
    if i < hits.len() {
        lemma_definitions_prefix(hits, kind, i + 1);
        assert(hits.take(i + 1).drop_last() =~= hits.take(i));
        let a = definitions_spec(hits.take(i), kind);
        let b = definitions_spec(hits.take(i + 1), kind);
        let full = definitions_spec(hits, kind);
        assert(full.take(a.len() as int) =~= b.take(a.len() as int));
    } else {
        assert(hits.take(i) =~= hits);
        let full = definitions_spec(hits, kind);
        assert(full.take(full.len() as int) =~= full);
    }
}

/// Whether a found chunk's kind is the requested one.
fn kind_matches(chunk_kind: &String, kind: &Option<String>) -> (r: bool)
    ensures
        r == match kind {
            Some(k) => chunk_kind@ == k@,
            None => true,
        },
{
    match kind {
        Some(k) => {
            let a = chars_of(chunk_kind.as_str());
            let b = chars_of(k.as_str());
            eq_chars(a.as_slice(), b.as_slice())
        },
        None => true,
    }
}

/// The definition results among the hits, in hit order, at most `limit` of them: hits
/// whose chunk was found, has a definition kind, and the requested kind if given.
pub fn select_definitions(
    hits: Vec<(FtsResult, Option<ChunkRecord>)>,
    kind: &Option<String>,
    limit: usize,
) -> (items: Vec<ReferenceItem>)
    ensures
        items@ == take_at_most(definitions_spec(hits@, *kind), limit as int),
{
    let ghost all = hits@;
    let mut hits = hits;
    let mut rev: Vec<(FtsResult, Option<ChunkRecord>)> = Vec::new();
    let n = hits.len();
    while hits.len() > 0
        invariant
            hits@.len() + rev@.len() == all.len(),
            hits@ == all.take(hits@.len() as int),
            forall|k: int| 0 <= k < rev@.len() ==> #[trigger] rev@[k] == all[all.len() - 1 - k],
        decreases hits@.len(),
    {
        let h = hits.pop().unwrap();
        rev.push(h);
    }
    let mut items: Vec<ReferenceItem> = Vec::new();
    let mut i: usize = 0;
    assert(all.take(0) =~= Seq::<(FtsResult, Option<ChunkRecord>)>::empty());
    while rev.len() > 0 && items.len() < limit
        invariant
            i + rev@.len() == all.len(),
            all.len() <= usize::MAX,
            forall|k: int| 0 <= k < rev@.len() ==> #[trigger] rev@[k] == all[all.len() - 1 - k],
            items@ == definitions_spec(all.take(i as int), *kind),
            items@.len() <= limit,
        decreases rev@.len(),
    {
        let (f, chunk) = rev.pop().unwrap();
        assert((f, chunk) == all[i as int]);
        let ghost before = items@;
        assert(all.take(i + 1).drop_last() =~= all.take(i as int));
        assert(all.take(i + 1).last() == all[i as int]);
        match chunk {
            Some(c) => {
                if is_definition_kind(c.kind.as_str()) && kind_matches(&c.kind, kind) {
                    items.push(
                        ReferenceItem {
                            chunk_id: f.chunk_id,
                            path: c.path,
                            line: c.start_line,
                            kind: c.kind,
                            signature: c.signature,
                            score: f.score,
                        },
                    );
                }
            },
            None => {},
        }
        i = i + 1;
    }
    proof {
        lemma_definitions_prefix(all, *kind, i as int);
        if rev@.len() == 0 {
            assert(all.take(i as int) =~= all);
        }
    }
    items
}

/// A hit is a usage result: its chunk was found and is not the symbol's definition.
pub open spec fn is_usage_hit(hit: (FtsResult, Option<ChunkRecord>), symbol: Seq<char>) -> bool {
    match hit.1 {
        Some(c) => !is_definition_chunk_spec(c.kind@, c.signature, symbol),
        None => false,
    }
}

/// The usage results among `hits`, in order.
pub open spec fn usages_spec(
    hits: Seq<(FtsResult, Option<ChunkRecord>)>,
    symbol: Seq<char>,
) -> Seq<ReferenceItem>
    decreases hits.len(),
{
    if hits.len() == 0 {
        seq![]
    } else {
        let prev = usages_spec(hits.drop_last(), symbol);
        if is_usage_hit(hits.last(), symbol) {
            prev.push(reference_of(hits.last().0, hits.last().1->0))
        } else {
            prev
        }
    }
}

proof fn lemma_usages_prefix(hits: Seq<(FtsResult, Option<ChunkRecord>)>, symbol: Seq<char>, i: int)
    requires
        0 <= i <= hits.len(),
    ensures
        usages_spec(hits.take(i), symbol).len() <= usages_spec(hits, symbol).len(),
        usages_spec(hits, symbol).take(usages_spec(hits.take(i), symbol).len() as int)
            == usages_spec(hits.take(i), symbol),
    decreases hits.len() - i,
{
    if i < hits.len() {
        lemma_usages_prefix(hits, symbol, i + 1);
        assert(hits.take(i + 1).drop_last() =~= hits.take(i));
        let a = usages_spec(hits.take(i), symbol);
        let b = usages_spec(hits.take(i + 1), symbol);
        let full = usages_spec(hits, symbol);
        assert(full.take(a.len() as int) =~= b.take(a.len() as int));
    } else {
        assert(hits.take(i) =~= hits);
        let full = usages_spec(hits, symbol);
        assert(full.take(full.len() as int) =~= full);
    }
}

/// The usage results among the hits, in hit order, at most `limit` of them: hits whose
/// chunk was found and is not a definition of `symbol`.
pub fn select_usages(hits: Vec<(FtsResult, Option<ChunkRecord>)>, symbol: &str, limit: usize) -> (items:
    Vec<ReferenceItem>)
    ensures
        items@ == take_at_most(usages_spec(hits@, symbol@), limit as int),
{
    let ghost all = hits@;
    let mut hits = hits;
    let mut rev: Vec<(FtsResult, Option<ChunkRecord>)> = Vec::new();
    let n = hits.len();
    while hits.len() > 0
        invariant
            hits@.len() + rev@.len() == all.len(),
            hits@ == all.take(hits@.len() as int),
            forall|k: int| 0 <= k < rev@.len() ==> #[trigger] rev@[k] == all[all.len() - 1 - k],
        decreases hits@.len(),
    {
        let h = hits.pop().unwrap();
        rev.push(h);
    }
    let mut items: Vec<ReferenceItem> = Vec::new();
    let mut i: usize = 0;
    assert(all.take(0) =~= Seq::<(FtsResult, Option<ChunkRecord>)>::empty());
    while rev.len() > 0 && items.len() < limit
        invariant
            i + rev@.len() == all.len(),
            all.len() <= usize::MAX,
            forall|k: int| 0 <= k < rev@.len() ==> #[trigger] rev@[k] == all[all.len() - 1 - k],
            items@ == usages_spec(all.take(i as int), symbol@),
            items@.len() <= limit,
        decreases rev@.len(),
    {
        let (f, chunk) = rev.pop().unwrap();
        assert((f, chunk) == all[i as int]);
        assert(all.take(i + 1).drop_last() =~= all.take(i as int));
        assert(all.take(i + 1).last() == all[i as int]);
        match chunk {
            Some(c) => {
                if !is_definition_chunk(c.kind.as_str(), &c.signature, symbol) {
                    items.push(
                        ReferenceItem {
                            chunk_id: f.chunk_id,
                            path: c.path,
                            line: c.start_line,
                            kind: c.kind,
                            signature: c.signature,
                            score: f.score,
                        },
                    );
                }
            },
            None => {},
        }
        i = i + 1;
    }
    proof {
        lemma_usages_prefix(all, symbol@, i as int);
        if rev@.len() == 0 {
            assert(all.take(i as int) =~= all);
        }
    }
    items
}

/// A search hit as a result item: metadata only when `compact`, else with its content
/// and surrounding context.
pub open spec fn result_item_of(h: SearchHit, compact: bool) -> SearchResultItem {
    SearchResultItem {
        chunk_id: h.id,
        path: h.chunk.path,
        start_line: h.chunk.start_line,
        end_line: h.chunk.end_line,
        kind: h.chunk.kind,
        score: h.score,
        signature: h.chunk.signature,
        content: if compact {
            None
        } else {
            Some(h.chunk.content)
        },
        context_prev: if compact {
            None
        } else {
            h.chunk.context_prev
        },
        context_next: if compact {
            None
        } else {
            h.chunk.context_next
        },
    }
}

/// A search hit as a result item.
pub fn to_result_item(h: SearchHit, compact: bool) -> (r: SearchResultItem)
    ensures
        r == result_item_of(h, compact),
{
    let c = h.chunk;
    SearchResultItem {
        chunk_id: h.id,
        path: c.path,
        start_line: c.start_line,
        end_line: c.end_line,
        kind: c.kind,
        score: h.score,
        signature: c.signature,
        content: if compact {
            None
        } else {
            Some(c.content)
        },
        context_prev: if compact {
            None
        } else {
            c.context_prev
        },
        context_next: if compact {
            None
        } else {
            c.context_next
        },
    }
}

/// The result items of the hits that pass the path filter, in order.
pub open spec fn filtered_items_spec(hits: Seq<SearchHit>, keep: Seq<bool>, compact: bool) -> Seq<
    SearchResultItem,
>
    decreases hits.len(),
{
    if hits.len() == 0 {
        seq![]
    } else {
        let prev = filtered_items_spec(hits.drop_last(), keep, compact);
        if keep[hits.len() - 1] {
            prev.push(result_item_of(hits.last(), compact))
        } else {
            prev
        }
    }
}

/// The response for the hits: no hits at all is a low-confidence empty response that
/// suggests `literal_search`; otherwise the hits that pass the path filter
/// (`keep[i]` for hit `i`), with the low-confidence signal of the first item's score.
pub open spec fn semantic_response_ok(
    r: SemanticSearchResponse,
    hits: Seq<SearchHit>,
    keep: Seq<bool>,
    compact: bool,
    has_identifiers: bool,
) -> bool {
    if hits.len() == 0 {
        &&& r.results@.len() == 0
        &&& r.low_confidence == Some(true)
        &&& r.suggested_tool matches Some(t) && t@ == "literal_search"@
    } else {
        let items = filtered_items_spec(hits, keep, compact);
        let top = if items.len() > 0 {
            Some(items[0].score)
        } else {
            None
        };
        let lc = low_confidence_spec(top, has_identifiers);
        &&& r.results@ == items
        &&& r.low_confidence == lc.0
        &&& match (r.suggested_tool, lc.1) {
            (Some(s), Some(t)) => s@ == t,
            (None, None) => true,
            _ => false,
        }
    }
}

/// Build the semantic-search response with low-confidence signaling. `keep[i]` says
/// whether hit `i` lies under the requested path filter (all `true` without a filter).
pub fn build_semantic_response(
    hits: Vec<SearchHit>,
    keep: Vec<bool>,
    compact: bool,
    has_identifiers: bool,
) -> (r: SemanticSearchResponse)
    requires
        keep@.len() == hits@.len(),
    ensures
        semantic_response_ok(r, hits@, keep@, compact, has_identifiers),
{
    if hits.len() == 0 {
        return SemanticSearchResponse {
            results: Vec::new(),
            low_confidence: Some(true),
            suggested_tool: Some("literal_search".to_owned()),
        };
    }
    let ghost all = hits@;
    let mut hits = hits;
    let mut rev: Vec<SearchHit> = Vec::new();
    let n = hits.len();
    while hits.len() > 0
        invariant
            hits@.len() + rev@.len() == all.len(),
            hits@ == all.take(hits@.len() as int),
            forall|k: int| 0 <= k < rev@.len() ==> #[trigger] rev@[k] == all[all.len() - 1 - k],
        decreases hits@.len(),
    {
        let h = hits.pop().unwrap();
        rev.push(h);
    }
    let mut items: Vec<SearchResultItem> = Vec::new();
    let mut i: usize = 0;
    assert(all.take(0) =~= Seq::<SearchHit>::empty());
    while rev.len() > 0
        invariant
            i + rev@.len() == all.len(),
            all.len() <= usize::MAX,
            keep@.len() == all.len(),
            forall|k: int| 0 <= k < rev@.len() ==> #[trigger] rev@[k] == all[all.len() - 1 - k],
            items@ == filtered_items_spec(all.take(i as int), keep@, compact),
        decreases rev@.len(),
    {
        let h = rev.pop().unwrap();
        assert(h == all[i as int]);
        assert(all.take(i + 1).drop_last() =~= all.take(i as int));
        assert(all.take(i + 1).last() == all[i as int]);
        if keep[i] {
            items.push(to_result_item(h, compact));
        }
        i = i + 1;
    }
    assert(all.take(i as int) =~= all);
    let top = if items.len() > 0 {
        Some(items[0].score)
    } else {
        None
    };
    let (low_confidence, suggested_tool) = compute_low_confidence(top, has_identifiers);
    SemanticSearchResponse { results: items, low_confidence, suggested_tool }
}

/// Which search path a semantic-search request takes.
pub enum SearchMode {
    /// Full-text search only, no embedding
    Lexical,
    /// Vector search only, no full-text fusion
    Semantic,
    /// Vector and full-text search fused ("auto", "hybrid" and any other mode)
    Hybrid,
}

/// The search path for the request's `mode` ("auto" when absent).
pub open spec fn search_mode_spec(mode: Option<String>) -> SearchMode {
    match mode {
        Some(m) => if m@ == "lexical"@ {
            SearchMode::Lexical
        } else if m@ == "semantic"@ {
            SearchMode::Semantic
        } else {
            SearchMode::Hybrid
        },
        None => SearchMode::Hybrid,
    }
}

/// The search path for the request's `mode` ("auto" when absent).
pub fn search_mode(mode: &Option<String>) -> (r: SearchMode)
    ensures
        r == search_mode_spec(*mode),
{
    proof {
        reveal_strlit("lexical");
        reveal_strlit("semantic");
        reveal_strlit("auto");
        assert("auto"@.len() != "lexical"@.len());
        assert("auto"@.len() != "semantic"@.len());
    }
    let m = match mode {
        Some(m) => chars_of(m.as_str()),
        None => chars_of("auto"),
    };
    if eq_chars(m.as_slice(), chars_of("lexical").as_slice()) {
        SearchMode::Lexical
    } else if eq_chars(m.as_slice(), chars_of("semantic").as_slice()) {
        SearchMode::Semantic
    } else {
        SearchMode::Hybrid
    }
}

/// The last hit in `hits` for chunk `id`, as a map built from the hits keeps it.
pub open spec fn last_hit_for(hits: Seq<SearchHit>, id: u32) -> Option<SearchHit>
    decreases hits.len(),
{
    if hits.len() == 0 {
        None
    } else if hits.last().id == id {
        Some(hits.last())
    } else {
        last_hit_for(hits.drop_last(), id)
    }
}

/// The hits for the first `limit` fused entries `(chunk_id, fused score)`, in fused
/// order, each with its fused score; entries whose chunk is not among `hits` are
/// dropped.
pub open spec fn fused_results_spec(fused: Seq<(u32, u32)>, hits: Seq<SearchHit>) -> Seq<SearchHit>
    decreases fused.len(),
{
    if fused.len() == 0 {
        seq![]
    } else {
        let prev = fused_results_spec(fused.drop_last(), hits);
        match last_hit_for(hits, fused.last().0) {
            Some(h) => prev.push(SearchHit { id: h.id, chunk: h.chunk, score: fused.last().1 }),
            None => prev,
        }
    }
}

/// The last hit for chunk `id`.
fn find_last_hit(hits: &Vec<SearchHit>, id: u32) -> (r: Option<usize>)
    ensures
        match r {
            Some(i) => i < hits@.len() && last_hit_for(hits@, id) == Some(hits@[i as int]),
            None => last_hit_for(hits@, id) is None,
        },
{
    let mut i: usize = hits.len();
    assert(hits@.take(i as int) =~= hits@);
    while i > 0
        invariant
            0 <= i <= hits@.len(),
            last_hit_for(hits@, id) == last_hit_for(hits@.take(i as int), id),
        decreases i,
    {
        assert(hits@.take(i as int).drop_last() =~= hits@.take(i - 1));
        if hits[i - 1].id == id {
            return Some(i - 1);
        }
        i = i - 1;
    }
    None
}

/// Map the first `limit` fused entries `(chunk_id, fused score)` back to the hits they
/// came from, in fused order, carrying the fused score.
pub fn map_fused_results(fused: &Vec<(u32, u32)>, hits: &Vec<SearchHit>, limit: usize) -> (r: Vec<
    SearchHit,
>)
    ensures
        r@ == fused_results_spec(take_at_most(fused@, limit as int), hits@),
{
    let end = if fused.len() <= limit {
        fused.len()
    } else {
        limit
    };
    let ghost taken = take_at_most(fused@, limit as int);
    assert(taken =~= fused@.take(end as int));
    let mut out: Vec<SearchHit> = Vec::new();
    let mut i: usize = 0;
    while i < end
        invariant
            0 <= i <= end <= fused@.len(),
            taken == fused@.take(end as int),
            out@ == fused_results_spec(taken.take(i as int), hits@),
        decreases end - i,
    {
        let (id, score) = fused[i];
        assert(taken.take(i + 1).drop_last() =~= taken.take(i as int));
        assert(taken.take(i + 1).last() == fused@[i as int]);
        match find_last_hit(hits, id) {
            Some(k) => {
                let h = &hits[k];
                out.push(SearchHit { id: h.id, chunk: clone_chunk(&h.chunk), score });
            },
            None => {},
        }
        i = i + 1;
    }
    assert(taken.take(end as int) =~= taken);
    out
}

/// The hits for the first `limit` full-text results whose chunk was found
/// (`chunks[i]` is what the store returned for result `i`), each with its score.
pub open spec fn resolved_hits_spec(fts: Seq<FtsResult>, chunks: Seq<Option<ChunkRecord>>) -> Seq<
    SearchHit,
>
    decreases fts.len(),
{
    if fts.len() == 0 {
        seq![]
    } else {
        let prev = resolved_hits_spec(fts.drop_last(), chunks);
        match chunks[fts.len() - 1] {
            Some(c) => prev.push(
                SearchHit { id: fts.last().chunk_id, chunk: c, score: fts.last().score },
            ),
            None => prev,
        }
    }
}

/// Resolve the first `limit` full-text results to search hits; `chunks[i]` is the
/// stored chunk for result `i`, if it was found.
pub fn resolve_fts_hits(fts: &Vec<FtsResult>, chunks: Vec<Option<ChunkRecord>>, limit: usize) -> (r:
    Vec<SearchHit>)
    requires
        chunks@.len() == take_at_most(fts@, limit as int).len(),
    ensures
        r@ == resolved_hits_spec(take_at_most(fts@, limit as int), chunks@),
{
    let end = chunks.len();
    let ghost taken = take_at_most(fts@, limit as int);
    let ghost all = chunks@;
    let mut chunks = chunks;
    let mut rev: Vec<Option<ChunkRecord>> = Vec::new();
    while chunks.len() > 0
        invariant
            chunks@.len() + rev@.len() == all.len(),
            chunks@ == all.take(chunks@.len() as int),
            forall|k: int| 0 <= k < rev@.len() ==> #[trigger] rev@[k] == all[all.len() - 1 - k],
        decreases chunks@.len(),
    {
        let c = chunks.pop().unwrap();
        rev.push(c);
    }
    let mut out: Vec<SearchHit> = Vec::new();
    let mut i: usize = 0;
    assert(taken.take(0) =~= Seq::<FtsResult>::empty());
    while rev.len() > 0
        invariant
            i + rev@.len() == all.len(),
            all.len() == taken.len(),
            taken == take_at_most(fts@, limit as int),
            all.len() <= fts@.len(),
            forall|k: int| 0 <= k < rev@.len() ==> #[trigger] rev@[k] == all[all.len() - 1 - k],
            out@ == resolved_hits_spec(taken.take(i as int), all),
        decreases rev@.len(),
    {
        let c = rev.pop().unwrap();
        assert(c == all[i as int]);
        assert(taken.take(i + 1).drop_last() =~= taken.take(i as int));
        assert(taken.take(i + 1).last() == taken[i as int]);
        assert(taken[i as int] == fts@[i as int]);
        let f = fts[i];
        match c {
            Some(chunk) => {
                out.push(SearchHit { id: f.chunk_id, chunk, score: f.score });
            },
            None => {},
        }
        i = i + 1;
    }
    assert(taken.take(i as int) =~= taken);
    out
}

/// The similar-chunk results: the neighbors other than the chunk itself, at most
/// `limit` of them, as compact items.
pub open spec fn similar_spec(chunk_id: u32, neighbors: Seq<SearchHit>) -> Seq<SearchResultItem>
    decreases neighbors.len(),
{
    if neighbors.len() == 0 {
        seq![]
    } else {
        let prev = similar_spec(chunk_id, neighbors.drop_last());
        if neighbors.last().id != chunk_id {
            prev.push(result_item_of(neighbors.last(), true))
        } else {
            prev
        }
    }
}

/// The number of similar chunks to return: the requested limit (default 5), at most 20.
pub fn similar_limit(limit: Option<usize>) -> (r: usize)
    ensures
        r == match limit {
            Some(l) => if l < 20 {
                l
            } else {
                20
            },
            None => 5,
        },
{
    let l = match limit {
        Some(l) => l,
        None => 5,
    };
    if l < 20 {
        l
    } else {
        20
    }
}

/// The similar-chunk results from the nearest neighbors of a chunk's embedding: the
/// chunk itself is left out, at most `limit` remain, and no content is included.
pub fn similar_chunk_items(chunk_id: u32, neighbors: Vec<SearchHit>, limit: usize) -> (r: Vec<
    SearchResultItem,
>)
    ensures
        r@ == take_at_most(similar_spec(chunk_id, neighbors@), limit as int),
{
    let ghost all = neighbors@;
    let mut neighbors = neighbors;
    let mut rev: Vec<SearchHit> = Vec::new();
    let n = neighbors.len();
    while neighbors.len() > 0
        invariant
            neighbors@.len() + rev@.len() == all.len(),
            neighbors@ == all.take(neighbors@.len() as int),
            forall|k: int| 0 <= k < rev@.len() ==> #[trigger] rev@[k] == all[all.len() - 1 - k],
        decreases neighbors@.len(),
    {
        let h = neighbors.pop().unwrap();
        rev.push(h);
    }
    let mut items: Vec<SearchResultItem> = Vec::new();
    let mut i: usize = 0;
    assert(all.take(0) =~= Seq::<SearchHit>::empty());
    while rev.len() > 0 && items.len() < limit
        invariant
            i + rev@.len() == all.len(),
            all.len() <= usize::MAX,
            forall|k: int| 0 <= k < rev@.len() ==> #[trigger] rev@[k] == all[all.len() - 1 - k],
            items@ == similar_spec(chunk_id, all.take(i as int)),
            items@.len() <= limit,
        decreases rev@.len(),
    {
        let h = rev.pop().unwrap();
        assert(h == all[i as int]);
        assert(all.take(i + 1).drop_last() =~= all.take(i as int));
        assert(all.take(i + 1).last() == all[i as int]);
        if h.id != chunk_id {
            items.push(to_result_item(h, true));
        }
        i = i + 1;
    }
    proof {
        lemma_similar_prefix(chunk_id, all, i as int);
        if rev@.len() == 0 {
            assert(all.take(i as int) =~= all);
        }
    }
    items
}

proof fn lemma_similar_prefix(chunk_id: u32, hits: Seq<SearchHit>, i: int)
    requires
        0 <= i <= hits.len(),
    ensures
        similar_spec(chunk_id, hits.take(i)).len() <= similar_spec(chunk_id, hits).len(),
        similar_spec(chunk_id, hits).take(similar_spec(chunk_id, hits.take(i)).len() as int)
            == similar_spec(chunk_id, hits.take(i)),
    decreases hits.len() - i,
{
    if i < hits.len() {
        lemma_similar_prefix(chunk_id, hits, i + 1);
        assert(hits.take(i + 1).drop_last() =~= hits.take(i));
        let a = similar_spec(chunk_id, hits.take(i));
        let b = similar_spec(chunk_id, hits.take(i + 1));
        let full = similar_spec(chunk_id, hits);
        assert(full.take(a.len() as int) =~= b.take(a.len() as int));
    } else {
        assert(hits.take(i) =~= hits);
        let full = similar_spec(chunk_id, hits);
        assert(full.take(full.len() as int) =~= full);
    }
}

/// find_definition reports only definitions: every result's chunk has a definition
/// kind, and the requested kind when one is given; there are at most `limit` results.
pub proof fn law_definitions_are_definitions(
    hits: Seq<(FtsResult, Option<ChunkRecord>)>,
    kind: Option<String>,
    limit: int,
)
    requires
        0 <= limit,
    ensures
        take_at_most(definitions_spec(hits, kind), limit).len() <= limit,
        forall|j: int|
            0 <= j < take_at_most(definitions_spec(hits, kind), limit).len() ==> {
                let it = #[trigger] take_at_most(definitions_spec(hits, kind), limit)[j];
                &&& definition_kinds().contains(it.kind@)
                &&& (kind matches Some(k) ==> it.kind@ == k@)
            },
{
    lemma_definitions_kinds(hits, kind);
}

proof fn lemma_definitions_kinds(hits: Seq<(FtsResult, Option<ChunkRecord>)>, kind: Option<String>)
    ensures
        forall|j: int|
            0 <= j < definitions_spec(hits, kind).len() ==> {
                let it = #[trigger] definitions_spec(hits, kind)[j];
                &&& definition_kinds().contains(it.kind@)
                &&& (kind matches Some(k) ==> it.kind@ == k@)
            },
    decreases hits.len(),
{
    if hits.len() > 0 {
        lemma_definitions_kinds(hits.drop_last(), kind);
    }
}

/// The hits whose chunk was found and does not define `symbol`, in hit order.
pub open spec fn found_non_definition_hits(
    hits: Seq<(FtsResult, Option<ChunkRecord>)>,
    symbol: Seq<char>,
) -> Seq<(FtsResult, Option<ChunkRecord>)> {
    hits.filter(
        |h: (FtsResult, Option<ChunkRecord>)|
            h.1 is Some && !is_definition_chunk_spec(h.1->0.kind@, h.1->0.signature, symbol),
    )
}

/// A reference item reports a hit's chunk id, score and chunk as they are.
pub open spec fn reports_hit(it: ReferenceItem, h: (FtsResult, Option<ChunkRecord>)) -> bool {
    &&& h.1 is Some
    &&& it.chunk_id == h.0.chunk_id
    &&& it.score == h.0.score
    &&& it.path == h.1->0.path
    &&& it.line == h.1->0.start_line
    &&& it.kind == h.1->0.kind
    &&& it.signature == h.1->0.signature
}

proof fn lemma_usages_are_non_definition_hits(
    hits: Seq<(FtsResult, Option<ChunkRecord>)>,
    symbol: Seq<char>,
)
    ensures
        usages_spec(hits, symbol).len() == found_non_definition_hits(hits, symbol).len(),
        forall|j: int|
            0 <= j < usages_spec(hits, symbol).len() ==> reports_hit(
                #[trigger] usages_spec(hits, symbol)[j],
                found_non_definition_hits(hits, symbol)[j],
            ),
    decreases hits.len(),
{
    reveal(Seq::filter);
    if hits.len() > 0 {
        lemma_usages_are_non_definition_hits(hits.drop_last(), symbol);
    }
}

/// find_usages reports every hit whose chunk was found and is not a definition of the
/// symbol, in hit order, up to `limit`: a chunk whose signature merely mentions the
/// symbol (`fn load() -> Config` for `Config`) is a usage.
pub proof fn law_usages_complete(hits: Seq<(FtsResult, Option<ChunkRecord>)>, symbol: Seq<char>, limit: int)
    requires
        0 <= limit,
    ensures
        ({
            let items = take_at_most(usages_spec(hits, symbol), limit);
            let wanted = found_non_definition_hits(hits, symbol);
            &&& items.len() == if wanted.len() <= limit {
                wanted.len() as int
            } else {
                limit
            }
            &&& forall|j: int| 0 <= j < items.len() ==> reports_hit(#[trigger] items[j], wanted[j])
        }),
{
    lemma_usages_are_non_definition_hits(hits, symbol);
}

/// The hits whose chunk was found and has a definition kind (the requested one, when
/// one is given), in hit order.
pub open spec fn found_definition_hits(
    hits: Seq<(FtsResult, Option<ChunkRecord>)>,
    kind: Option<String>,
) -> Seq<(FtsResult, Option<ChunkRecord>)> {
    hits.filter(
        |h: (FtsResult, Option<ChunkRecord>)|
            h.1 is Some && definition_kinds().contains(h.1->0.kind@) && (kind is None || h.1->0.kind@
                == kind->0@),
    )
}

proof fn lemma_definitions_are_definition_hits(
    hits: Seq<(FtsResult, Option<ChunkRecord>)>,
    kind: Option<String>,
)
    ensures
        definitions_spec(hits, kind).len() == found_definition_hits(hits, kind).len(),
        forall|j: int|
            0 <= j < definitions_spec(hits, kind).len() ==> reports_hit(
                #[trigger] definitions_spec(hits, kind)[j],
                found_definition_hits(hits, kind)[j],
            ),
    decreases hits.len(),
{
    reveal(Seq::filter);
    if hits.len() > 0 {
        lemma_definitions_are_definition_hits(hits.drop_last(), kind);
    }
}

/// find_definition reports every hit whose chunk was found and has a definition kind
/// (the requested kind, when one is given), in hit order, up to `limit`.
pub proof fn law_definitions_complete(
    hits: Seq<(FtsResult, Option<ChunkRecord>)>,
    kind: Option<String>,
    limit: int,
)
    requires
        0 <= limit,
    ensures
        ({
            let items = take_at_most(definitions_spec(hits, kind), limit);
            let wanted = found_definition_hits(hits, kind);
            &&& items.len() == if wanted.len() <= limit {
                wanted.len() as int
            } else {
                limit
            }
            &&& forall|j: int| 0 <= j < items.len() ==> reports_hit(#[trigger] items[j], wanted[j])
        }),
{
    lemma_definitions_are_definition_hits(hits, kind);
}

/// find_usages never reports a chunk that defines the symbol; there are at most `limit`
/// results.
pub proof fn law_usages_exclude_definitions(
    hits: Seq<(FtsResult, Option<ChunkRecord>)>,
    symbol: Seq<char>,
    limit: int,
)
    requires
        0 <= limit,
    ensures
        take_at_most(usages_spec(hits, symbol), limit).len() <= limit,
        forall|j: int|
            0 <= j < take_at_most(usages_spec(hits, symbol), limit).len() ==> {
                let it = #[trigger] take_at_most(usages_spec(hits, symbol), limit)[j];
                !is_definition_chunk_spec(it.kind@, it.signature, symbol)
            },
{
    lemma_usages_not_definitions(hits, symbol);
}

proof fn lemma_usages_not_definitions(hits: Seq<(FtsResult, Option<ChunkRecord>)>, symbol: Seq<char>)
    ensures
        forall|j: int|
            0 <= j < usages_spec(hits, symbol).len() ==> {
                let it = #[trigger] usages_spec(hits, symbol)[j];
                !is_definition_chunk_spec(it.kind@, it.signature, symbol)
            },
    decreases hits.len(),
{
    if hits.len() > 0 {
        lemma_usages_not_definitions(hits.drop_last(), symbol);
    }
}

/// similar_chunks never reports the chunk it was asked about, reports at most `limit`
/// chunks, and includes no content.
pub proof fn law_similar_excludes_self(chunk_id: u32, neighbors: Seq<SearchHit>, limit: int)
    requires
        0 <= limit,
    ensures
        take_at_most(similar_spec(chunk_id, neighbors), limit).len() <= limit,
        forall|j: int|
            0 <= j < take_at_most(similar_spec(chunk_id, neighbors), limit).len() ==> {
                let it = #[trigger] take_at_most(similar_spec(chunk_id, neighbors), limit)[j];
                &&& it.chunk_id != chunk_id
                &&& it.content is None
                &&& it.context_prev is None
                &&& it.context_next is None
            },
{
    lemma_similar_items(chunk_id, neighbors);
}

proof fn lemma_similar_items(chunk_id: u32, neighbors: Seq<SearchHit>)
    ensures
        forall|j: int|
            0 <= j < similar_spec(chunk_id, neighbors).len() ==> {
                let it = #[trigger] similar_spec(chunk_id, neighbors)[j];
                &&& it.chunk_id != chunk_id
                &&& it.content is None
                &&& it.context_prev is None
                &&& it.context_next is None
            },
    decreases neighbors.len(),
{
    if neighbors.len() > 0 {
        lemma_similar_items(chunk_id, neighbors.drop_last());
    }
}


/// A result item reports a hit's id, score, path, line range, kind and signature as
/// they are.
pub open spec fn carries_hit(it: SearchResultItem, h: SearchHit) -> bool {
    &&& it.chunk_id == h.id
    &&& it.score == h.score
    &&& it.path == h.chunk.path
    &&& it.start_line == h.chunk.start_line
    &&& it.end_line == h.chunk.end_line
    &&& it.kind == h.chunk.kind
    &&& it.signature == h.chunk.signature
}

/// A hit's result item carries the hit's id, score, path, line range (a chunk from line
/// 40 to 58 is reported from 40 to 58), kind and signature unchanged; its content and
/// context are the chunk's when not compact.
pub proof fn law_result_item_carries_hit(h: SearchHit, compact: bool)
    ensures
        carries_hit(result_item_of(h, compact), h),
        !compact ==> result_item_of(h, compact).content == Some(h.chunk.content)
            && result_item_of(h, compact).context_prev == h.chunk.context_prev
            && result_item_of(h, compact).context_next == h.chunk.context_next,
{
}

/// `it` carries a hit that passed the path filter.
pub open spec fn from_kept_hit(it: SearchResultItem, hits: Seq<SearchHit>, keep: Seq<bool>) -> bool {
    exists|i: int| 0 <= i < hits.len() && keep[i] && #[trigger] carries_hit(it, hits[i])
}

proof fn lemma_filtered_items_carry(hits: Seq<SearchHit>, keep: Seq<bool>, compact: bool)
    requires
        hits.len() <= keep.len(),
    ensures
        forall|j: int|
            0 <= j < filtered_items_spec(hits, keep, compact).len() ==> from_kept_hit(
                #[trigger] filtered_items_spec(hits, keep, compact)[j],
                hits,
                keep,
            ),
    decreases hits.len(),
{
    if hits.len() > 0 {
        let d = hits.drop_last();
        lemma_filtered_items_carry(d, keep, compact);
        let items = filtered_items_spec(hits, keep, compact);
        let prev = filtered_items_spec(d, keep, compact);
        assert forall|j: int| 0 <= j < items.len() implies from_kept_hit(
            #[trigger] items[j],
            hits,
            keep,
        ) by {
            if j < prev.len() {
                assert(items[j] == prev[j]);
                assert(from_kept_hit(prev[j], d, keep));
                let i = choose|i: int| 0 <= i < d.len() && keep[i] && #[trigger] carries_hit(prev[j], d[i]);
                assert(d[i] == hits[i]);
                assert(carries_hit(items[j], hits[i]));
            } else {
                let n = hits.len() - 1;
                assert(carries_hit(items[j], hits[n]));
            }
        }
    }
}

/// Each semantic-search result carries, unchanged, the id, score, path, line range,
/// kind and signature of a hit that passed the path filter.
pub proof fn law_semantic_results_carry_hits(hits: Seq<SearchHit>, keep: Seq<bool>, compact: bool)
    requires
        keep.len() == hits.len(),
    ensures
        forall|j: int|
            0 <= j < filtered_items_spec(hits, keep, compact).len() ==> from_kept_hit(
                #[trigger] filtered_items_spec(hits, keep, compact)[j],
                hits,
                keep,
            ),
{
    lemma_filtered_items_carry(hits, keep, compact);
}

/// `it` carries a neighbor other than the chunk `chunk_id`.
pub open spec fn from_other_neighbor(it: SearchResultItem, neighbors: Seq<SearchHit>, chunk_id: u32) -> bool {
    exists|i: int| 0 <= i < neighbors.len() && neighbors[i].id != chunk_id && #[trigger] carries_hit(
        it,
        neighbors[i],
    )
}

/// Each similar_chunks result carries, unchanged, the id, score, path, line range, kind
/// and signature of a neighbor other than the chunk asked about.
pub proof fn law_similar_results_carry_neighbors(chunk_id: u32, neighbors: Seq<SearchHit>)
    ensures
        forall|j: int|
            0 <= j < similar_spec(chunk_id, neighbors).len() ==> from_other_neighbor(
                #[trigger] similar_spec(chunk_id, neighbors)[j],
                neighbors,
                chunk_id,
            ),
    decreases neighbors.len(),
{
    if neighbors.len() > 0 {
        let d = neighbors.drop_last();
        law_similar_results_carry_neighbors(chunk_id, d);
        let items = similar_spec(chunk_id, neighbors);
        let prev = similar_spec(chunk_id, d);
        assert forall|j: int| 0 <= j < items.len() implies from_other_neighbor(
            #[trigger] items[j],
            neighbors,
            chunk_id,
        ) by {
            if j < prev.len() {
                assert(items[j] == prev[j]);
                assert(from_other_neighbor(prev[j], d, chunk_id));
                let i = choose|i: int|
                    0 <= i < d.len() && d[i].id != chunk_id && #[trigger] carries_hit(prev[j], d[i]);
                assert(d[i] == neighbors[i]);
                assert(carries_hit(items[j], neighbors[i]));
            } else {
                let n = neighbors.len() - 1;
                assert(carries_hit(items[j], neighbors[n]));
            }
        }
    }
}

/// A compact semantic-search response carries metadata only: no result has content
/// or surrounding context; a full one carries each hit's content. Either way the
/// results are the hits under the path filter, in order.
pub proof fn law_compact_results_have_no_content(
    hits: Seq<SearchHit>,
    keep: Seq<bool>,
    compact: bool,
)
    requires
        keep.len() == hits.len(),
    ensures
        forall|j: int|
            0 <= j < filtered_items_spec(hits, keep, compact).len() ==> {
                let it = #[trigger] filtered_items_spec(hits, keep, compact)[j];
                &&& compact ==> it.content is None && it.context_prev is None
                    && it.context_next is None
                &&& !compact ==> it.content is Some
            },
        filtered_items_spec(hits, keep, compact).len() <= hits.len(),
    decreases hits.len(),
{
    if hits.len() > 0 {
        law_compact_results_have_no_content(hits.drop_last(), keep.drop_last(), compact);
        assert forall|k: int| 0 <= k < hits.len() - 1 implies keep.drop_last()[k] == keep[k] by {}
        lemma_filtered_keep_prefix(hits.drop_last(), keep, keep.drop_last(), compact);
    }
}

proof fn lemma_filtered_keep_prefix(hits: Seq<SearchHit>, a: Seq<bool>, b: Seq<bool>, compact: bool)
    requires
        hits.len() <= a.len(),
        hits.len() <= b.len(),
        forall|k: int| 0 <= k < hits.len() ==> a[k] == b[k],
    ensures
        filtered_items_spec(hits, a, compact) == filtered_items_spec(hits, b, compact),
    decreases hits.len(),
{
    if hits.len() > 0 {
        lemma_filtered_keep_prefix(hits.drop_last(), a, b, compact);
    }
}

/// find_definition's number of results (the request's, default 20) and the number of
/// full-text hits it asks for (three times that).
pub fn definition_limits(limit: Option<usize>) -> (r: (usize, usize))
    requires
        limit matches Some(l) ==> l * 3 <= usize::MAX,
    ensures
        r.0 == match limit {
            Some(l) => l,
            None => 20,
        },
        r.1 == r.0 * 3,
{
    let l = match limit {
        Some(l) => l,
        None => 20,
    };
    (l, l * 3)
}

/// find_usages' number of results (the request's, default 20) and the number of
/// full-text hits it asks for (twice that).
pub fn usages_limits(limit: Option<usize>) -> (r: (usize, usize))
    requires
        limit matches Some(l) ==> l * 2 <= usize::MAX,
    ensures
        r.0 == match limit {
            Some(l) => l,
            None => 20,
        },
        r.1 == r.0 * 2,
{
    let l = match limit {
        Some(l) => l,
        None => 20,
    };
    (l, l * 2)
}

/// What a tool answers: a text for the user, or its result items.
pub enum ToolAnswer<T> {
    Text(String),
    Items(Vec<T>),
}

/// The answer of find_definition for the full-text hits of `symbol` (each with its
/// looked-up chunk): a message when the search found nothing or no hit is a
/// definition, else at most `limit` definition results.
pub fn find_definition_answer(
    symbol: &str,
    hits: Vec<(FtsResult, Option<ChunkRecord>)>,
    kind: &Option<String>,
    limit: usize,
) -> (r: ToolAnswer<ReferenceItem>)
    ensures
        ({
            let items = take_at_most(definitions_spec(hits@, *kind), limit as int);
            if hits@.len() == 0 {
                r matches ToolAnswer::Text(m) && m@ == "No definition found for '"@ + symbol@
                    + "'. The symbol may not be indexed."@
            } else if items.len() == 0 {
                r matches ToolAnswer::Text(m) && m@ == "No definition found for '"@ + symbol@
                    + "'. Try find_usages() to find references, or broaden your search."@
            } else {
                r matches ToolAnswer::Items(v) && v@ == items
            }
        }),
{
    if hits.len() == 0 {
        return ToolAnswer::Text(definition_not_indexed_message(symbol));
    }
    let items = select_definitions(hits, kind, limit);
    if items.len() == 0 {
        ToolAnswer::Text(no_definition_message(symbol))
    } else {
        ToolAnswer::Items(items)
    }
}

/// The answer of find_usages for the full-text hits of `symbol` (each with its
/// looked-up chunk): a message when the search found nothing or every hit is the
/// symbol's definition, else at most `limit` usage results.
pub fn find_usages_answer(symbol: &str, hits: Vec<(FtsResult, Option<ChunkRecord>)>, limit: usize) -> (r:
    ToolAnswer<ReferenceItem>)
    ensures
        ({
            let items = take_at_most(usages_spec(hits@, symbol@), limit as int);
            if hits@.len() == 0 {
                r matches ToolAnswer::Text(m) && m@ == "No usages found for '"@ + symbol@
                    + "'. The symbol may not be indexed."@
            } else if items.len() == 0 {
                r matches ToolAnswer::Text(m) && m@ == "No usages found for '"@ + symbol@
                    + "' (only definitions were found). Try find_definition() to locate the declaration."@
            } else {
                r matches ToolAnswer::Items(v) && v@ == items
            }
        }),
{
    if hits.len() == 0 {
        return ToolAnswer::Text(usages_not_indexed_message(symbol));
    }
    let items = select_usages(hits, symbol, limit);
    if items.len() == 0 {
        ToolAnswer::Text(only_definitions_message(symbol))
    } else {
        ToolAnswer::Items(items)
    }
}

} // verus!
