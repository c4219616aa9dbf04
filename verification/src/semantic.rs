//! The course of a semantic search: which path each mode takes, what each outside step
//! is asked to do, and what the tool answers when a step fails.
//!
//! The caller performs each action (embedding the query, reading the stores, fusing
//! rankings) and reports what came of it as an event; `semantic_step` decides what comes
//! next.

use vstd::prelude::*;
use crate::format::push_str;
use crate::search_tools::{search_mode, search_mode_spec, SearchMode};
use crate::text::string_of;

verus! {

/// The settings of one semantic search: the number of results (default 10), whether
/// they are compact (default true), the search path, and whether the query names
/// identifiers.
pub struct SemanticPlan {
    pub limit: usize,
    pub compact: bool,
    pub mode: SearchMode,
    pub has_identifiers: bool,
}

/// The settings of a semantic-search request.
pub fn semantic_plan(
    limit: Option<usize>,
    compact: Option<bool>,
    mode: &Option<String>,
    has_identifiers: bool,
) -> (r: SemanticPlan)
    ensures
        r.limit == match limit {
            Some(l) => l,
            None => 10,
        },
        r.compact == match compact {
            Some(c) => c,
            None => true,
        },
        r.mode == search_mode_spec(*mode),
        r.has_identifiers == has_identifiers,
{
    SemanticPlan {
        limit: match limit {
            Some(l) => l,
            None => 10,
        },
        compact: match compact {
            Some(c) => c,
            None => true,
        },
        mode: search_mode(mode),
        has_identifiers,
    }
}

/// Where a semantic search stands.
pub enum SemanticState {
    /// Waiting to hear whether the index database exists
    CheckingDatabase,
    /// Waiting for the query's embedding
    Embedding,
    /// Waiting for the vector search
    SearchingVectors,
    /// Waiting for the full-text search and its fusion with the vector results
    Fusing,
    /// The search has answered
    Finished,
}

/// What came of the last action.
pub enum SemanticEvent {
    /// The database is missing; the text says where it was looked for
    DatabaseMissing(String),
    DatabaseFound,
    /// The embedding service could not be started (its error)
    EmbeddingServiceFailed(String),
    /// The query could not be embedded (the error)
    EmbedFailed(String),
    QueryEmbedded,
    /// The vector search failed (the error)
    VectorSearchFailed(String),
    VectorsFound,
    /// The full-text store could not be read
    FullTextUnavailable,
    /// The full-text hits were fused with the vector results
    Fused,
}

/// A step of a semantic search that failed.
pub enum Failure {
    /// The embedding service could not be started
    EmbeddingService,
    /// The query could not be embedded
    Embedding,
    /// The vector search failed
    VectorSearch,
}

/// What to do next.
pub enum SemanticAction {
    /// Check that the index database exists
    CheckDatabase,
    /// Answer with this text
    Reply(String),
    /// Answer that a step failed, with its error (`failure_message`)
    Fail { failure: Failure, error: String },
    /// Run the full-text-only search: `fts_count` full-text hits and `exact_count` exact
    /// hits per identifier, merged and ranked (`lexical_ranking`), then answer
    RunLexical { fts_count: usize, exact_count: usize },
    /// Embed the query
    EmbedQuery,
    /// Search the vector store for `count` neighbors of the query
    SearchVectors { count: usize },
    /// Answer with the first `limit` vector results in their fused order
    RespondVectorOnly { limit: usize },
    /// Search the full-text store for `fts_count` hits and, when `with_exact`, for
    /// `exact_count` exact hits per identifier (`collect_exact_hits`), and fuse them
    /// with the vector results
    FuseWithFullText { fts_count: usize, exact_count: usize, with_exact: bool },
    /// Answer with the first `limit` fused results, boosted
    RespondFused { limit: usize },
    /// Answer with the first `limit` vector results as they are, boosted
    RespondVectorFallback { limit: usize },
}

/// The events that can follow each state.
pub open spec fn semantic_event_fits(state: SemanticState, event: SemanticEvent) -> bool {
    match state {
        SemanticState::CheckingDatabase => event is DatabaseMissing || event is DatabaseFound,
        SemanticState::Embedding => event is EmbeddingServiceFailed || event is EmbedFailed
            || event is QueryEmbedded,
        SemanticState::SearchingVectors => event is VectorSearchFailed || event is VectorsFound,
        SemanticState::Fusing => event is FullTextUnavailable || event is Fused,
        SemanticState::Finished => false,
    }
}

/// The next state and action of a semantic search: a missing database is answered
/// with its message; the lexical mode runs the full-text search alone; the other modes
/// embed the query and search the vectors (three times the limit), the semantic mode
/// answers from the vectors alone, and the others fuse them with full-text hits,
/// falling back to the vector results when the full-text store cannot be read; a
/// failed step is answered with its error.
pub open spec fn semantic_step_spec(plan: SemanticPlan, state: SemanticState, event: SemanticEvent) -> (
    SemanticState,
    SemanticAction,
) {
    let l = plan.limit;
    match (state, event) {
        (SemanticState::CheckingDatabase, SemanticEvent::DatabaseMissing(m)) => (
            SemanticState::Finished,
            SemanticAction::Reply(m),
        ),
        (SemanticState::CheckingDatabase, _) => if plan.mode is Lexical {
            (
                SemanticState::Finished,
                SemanticAction::RunLexical {
                    fts_count: (l * 3) as usize,
                    exact_count: (l * 2) as usize,
                },
            )
        } else {
            (SemanticState::Embedding, SemanticAction::EmbedQuery)
        },
        (SemanticState::Embedding, SemanticEvent::EmbeddingServiceFailed(e)) => (
            SemanticState::Finished,
            SemanticAction::Fail { failure: Failure::EmbeddingService, error: e },
        ),
        (SemanticState::Embedding, SemanticEvent::EmbedFailed(e)) => (
            SemanticState::Finished,
            SemanticAction::Fail { failure: Failure::Embedding, error: e },
        ),
        (SemanticState::Embedding, _) => (
            SemanticState::SearchingVectors,
            SemanticAction::SearchVectors { count: (l * 3) as usize },
        ),
        (SemanticState::SearchingVectors, SemanticEvent::VectorSearchFailed(e)) => (
            SemanticState::Finished,
            SemanticAction::Fail { failure: Failure::VectorSearch, error: e },
        ),
        (SemanticState::SearchingVectors, _) => if plan.mode is Semantic {
            (SemanticState::Finished, SemanticAction::RespondVectorOnly { limit: l })
        } else {
            (
                SemanticState::Fusing,
                SemanticAction::FuseWithFullText {
                    fts_count: (l * 3) as usize,
                    exact_count: (l * 2) as usize,
                    with_exact: plan.has_identifiers,
                },
            )
        },
        (SemanticState::Fusing, SemanticEvent::FullTextUnavailable) => (
            SemanticState::Finished,
            SemanticAction::RespondVectorFallback { limit: l },
        ),
        (_, _) => (SemanticState::Finished, SemanticAction::RespondFused { limit: l }),
    }
}

/// What a failed step's answer begins with.
pub open spec fn failure_prefix(f: Failure) -> Seq<char> {
    match f {
        Failure::EmbeddingService => "Error initializing embedding service: "@,
        Failure::Embedding => "Error embedding query: "@,
        Failure::VectorSearch => "Error searching vector store: "@,
    }
}

/// The answer for a failed step: what failed, then the error.
pub fn failure_message(failure: &Failure, error: &str) -> (r: String)
    ensures
        r@ == failure_prefix(*failure) + error@,
{
    let mut v: Vec<char> = Vec::new();
    match failure {
        Failure::EmbeddingService => push_str(&mut v, "Error initializing embedding service: "),
        Failure::Embedding => push_str(&mut v, "Error embedding query: "),
        Failure::VectorSearch => push_str(&mut v, "Error searching vector store: "),
    }
    push_str(&mut v, error);
    string_of(v.as_slice())
}

/// The first action of a semantic search: check for the database.
pub fn semantic_start() -> (r: (SemanticState, SemanticAction))
    ensures
        r.0 is CheckingDatabase,
        r.1 is CheckDatabase,
{
    (SemanticState::CheckingDatabase, SemanticAction::CheckDatabase)
}

/// The next state and action of a semantic search after `event`.
pub fn semantic_step(plan: &SemanticPlan, state: SemanticState, event: SemanticEvent) -> (r: (
    SemanticState,
    SemanticAction,
))
    requires
        plan.limit * 3 <= usize::MAX,
        semantic_event_fits(state, event),
    ensures
        r == semantic_step_spec(*plan, state, event),
{
    let l = plan.limit;
    match state {
        SemanticState::CheckingDatabase => match event {
            SemanticEvent::DatabaseMissing(m) => (SemanticState::Finished, SemanticAction::Reply(m)),
            _ => match plan.mode {
                SearchMode::Lexical => (
                    SemanticState::Finished,
                    SemanticAction::RunLexical { fts_count: l * 3, exact_count: l * 2 },
                ),
                _ => (SemanticState::Embedding, SemanticAction::EmbedQuery),
            },
        },
        SemanticState::Embedding => match event {
            SemanticEvent::EmbeddingServiceFailed(e) => (
                SemanticState::Finished,
                SemanticAction::Fail { failure: Failure::EmbeddingService, error: e },
            ),
            SemanticEvent::EmbedFailed(e) => (
                SemanticState::Finished,
                SemanticAction::Fail { failure: Failure::Embedding, error: e },
            ),
            _ => (SemanticState::SearchingVectors, SemanticAction::SearchVectors { count: l * 3 }),
        },
        SemanticState::SearchingVectors => match event {
            SemanticEvent::VectorSearchFailed(e) => (
                SemanticState::Finished,
                SemanticAction::Fail { failure: Failure::VectorSearch, error: e },
            ),
            _ => match plan.mode {
                SearchMode::Semantic => (
                    SemanticState::Finished,
                    SemanticAction::RespondVectorOnly { limit: l },
                ),
                _ => (
                    SemanticState::Fusing,
                    SemanticAction::FuseWithFullText {
                        fts_count: l * 3,
                        exact_count: l * 2,
                        with_exact: plan.has_identifiers,
                    },
                ),
            },
        },
        _ => match event {
            SemanticEvent::FullTextUnavailable => (
                SemanticState::Finished,
                SemanticAction::RespondVectorFallback { limit: l },
            ),
            _ => (SemanticState::Finished, SemanticAction::RespondFused { limit: l }),
        },
    }
}

/// The modes take their documented paths: the lexical mode never embeds the query, the
/// semantic mode never fuses with full-text hits, and the other modes fuse; every
/// search answers after at most four steps, and a step that fails is answered with its
/// error.
pub proof fn law_semantic_paths(plan: SemanticPlan, e: String)
    ensures
        ({
            let found = semantic_step_spec(plan, SemanticState::CheckingDatabase, SemanticEvent::DatabaseFound);
            &&& plan.mode is Lexical ==> found.0 is Finished && found.1 is RunLexical
            &&& !(plan.mode is Lexical) ==> found.0 is Embedding && found.1 is EmbedQuery
        }),
        ({
            let vectors = semantic_step_spec(plan, SemanticState::SearchingVectors, SemanticEvent::VectorsFound);
            &&& plan.mode is Semantic ==> vectors.0 is Finished && vectors.1 is RespondVectorOnly
            &&& plan.mode is Hybrid ==> vectors.0 is Fusing && vectors.1 is FuseWithFullText
        }),
        semantic_step_spec(plan, SemanticState::Fusing, SemanticEvent::FullTextUnavailable).1
            is RespondVectorFallback,
        semantic_step_spec(plan, SemanticState::Embedding, SemanticEvent::EmbedFailed(e))
            == (SemanticState::Finished, SemanticAction::Fail { failure: Failure::Embedding, error: e }),
        forall|s: SemanticState, ev: SemanticEvent|
            semantic_event_fits(s, ev) ==> #[trigger] state_rank(semantic_step_spec(plan, s, ev).0)
                < state_rank(s),
{
}

/// How many steps a search in this state can still take at most.
pub open spec fn state_rank(s: SemanticState) -> int {
    match s {
        SemanticState::CheckingDatabase => 4,
        SemanticState::Embedding => 3,
        SemanticState::SearchingVectors => 2,
        SemanticState::Fusing => 1,
        SemanticState::Finished => 0,
    }
}

} // verus!
