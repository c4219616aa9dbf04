//! Index status, database discovery summaries, the server instructions, and the
//! messages the tools answer with when they have no results.

use vstd::prelude::*;
use crate::format::{decimal_spec, decimal_chars, push_chars, push_str};
use crate::text::{chars_of, eq_chars, string_of};
use crate::types::IndexStatusResponse;

verus! {

/// `a` followed by `b` followed by `c`, as a string.
fn concat3(a: &str, b: &str, c: &str) -> (r: String)
    ensures
        r@ == a@ + b@ + c@,
{
    let mut v: Vec<char> = Vec::new();
    push_str(&mut v, a);
    push_str(&mut v, b);
    push_str(&mut v, c);
    string_of(v.as_slice())
}

// ---------------------------------------------------------------- tool messages

/// What find_definition answers when the search finds nothing.
pub fn definition_not_indexed_message(symbol: &str) -> (r: String)
    ensures
        r@ == "No definition found for '"@ + symbol@ + "'. The symbol may not be indexed."@,
{
    concat3("No definition found for '", symbol, "'. The symbol may not be indexed.")
}

/// What find_definition answers when no hit is a definition.
pub fn no_definition_message(symbol: &str) -> (r: String)
    ensures
        r@ == "No definition found for '"@ + symbol@
            + "'. Try find_usages() to find references, or broaden your search."@,
{
    concat3(
        "No definition found for '",
        symbol,
        "'. Try find_usages() to find references, or broaden your search.",
    )
}

/// What find_usages answers when the search finds nothing.
pub fn usages_not_indexed_message(symbol: &str) -> (r: String)
    ensures
        r@ == "No usages found for '"@ + symbol@ + "'. The symbol may not be indexed."@,
{
    concat3("No usages found for '", symbol, "'. The symbol may not be indexed.")
}

/// What find_usages answers when every hit is a definition.
pub fn only_definitions_message(symbol: &str) -> (r: String)
    ensures
        r@ == "No usages found for '"@ + symbol@
            + "' (only definitions were found). Try find_definition() to locate the declaration."@,
{
    concat3(
        "No usages found for '",
        symbol,
        "' (only definitions were found). Try find_definition() to locate the declaration.",
    )
}

/// What literal_search answers when the search finds nothing.
pub fn no_literal_results_message(query: &str) -> (r: String)
    ensures
        r@ == "No results found for '"@ + query@ + "'. Try a different query or mode."@,
{
    concat3("No results found for '", query, "'. Try a different query or mode.")
}

/// What literal_search answers when the post-filters remove every hit.
pub fn no_filtered_results_message(query: &str) -> (r: String)
    ensures
        r@ == "No results found for '"@ + query@ + "' after applying filters."@,
{
    concat3("No results found for '", query, "' after applying filters.")
}

/// What find_dependents answers when nothing depends on the module or symbol.
pub fn no_dependents_message(symbol_or_path: &str) -> (r: String)
    ensures
        r@ == "No dependent files found for '"@ + symbol_or_path@ + "'."@,
{
    concat3("No dependent files found for '", symbol_or_path, "'.")
}

/// What get_chunk answers for an unknown chunk id.
pub fn chunk_not_found_message(chunk_id: u32) -> (r: String)
    ensures
        r@ == "Chunk "@ + decimal_spec(chunk_id as nat) + " not found. Verify the chunk_id and index state."@,
{
    let mut v: Vec<char> = Vec::new();
    push_str(&mut v, "Chunk ");
    let d = decimal_chars(chunk_id as usize);
    push_chars(&mut v, d.as_slice());
    push_str(&mut v, " not found. Verify the chunk_id and index state.");
    string_of(v.as_slice())
}

/// What every tool answers when the index database is missing: where it was looked
/// for, and how to build it from the project directory.
pub fn missing_database_message(db_path: &str, project_path: &str) -> (r: String)
    ensures
        r@ == "❌ No index database found at: "@ + db_path@ + "\n\n⚠️  IMPORTANT: This MCP server cannot index the codebase itself. Indexing takes 30-60 seconds and must be done manually.\n\nTo fix this, run the following command in your terminal:\n$ cd "@ + project_path@ + "\n$ codesearch index\n\nFor more information about database locations, use the find_databases tool."@,
{
    let mut v: Vec<char> = Vec::new();
    push_str(&mut v, "❌ No index database found at: ");
    push_str(&mut v, db_path);
    push_str(&mut v, "\n\n⚠️  IMPORTANT: This MCP server cannot index the codebase itself. Indexing takes 30-60 seconds and must be done manually.\n\nTo fix this, run the following command in your terminal:\n$ cd ");
    push_str(&mut v, project_path);
    push_str(&mut v, "\n$ codesearch index\n\nFor more information about database locations, use the find_databases tool.");
    string_of(v.as_slice())
}

/// What file_outline answers when no chunk of the file is indexed.
pub fn no_outline_message() -> (r: String)
    ensures
        r@ == "No indexed chunks found for path. Verify the file is within the project root and the index is up to date."@,
{
    "No indexed chunks found for path. Verify the file is within the project root and the index is up to date.".to_owned()
}

/// What find_imports answers when no import is found.
pub fn no_imports_message() -> (r: String)
    ensures
        r@ == "No import chunks found. The index may not include import statements for this language, or the file has no imports."@,
{
    "No import chunks found. The index may not include import statements for this language, or the file has no imports.".to_owned()
}

// ---------------------------------------------------------------- index_status

/// The index statistics the vector store reports.
pub struct IndexStats {
    pub indexed: bool,
    pub total_chunks: usize,
    pub total_files: usize,
    pub dimensions: usize,
    pub max_chunk_id: u32,
}

/// The status when there is no database.
pub open spec fn not_indexed_ok(r: IndexStatusResponse, db_path: String, project_path: String) -> bool {
    &&& !r.indexed
    &&& r.status@ == "not_indexed"@
    &&& r.status_message@
        == "No index found. Run 'codesearch index' or start with --create-index=true to automatically create one."@
    &&& r.total_chunks == 0 && r.total_files == 0 && r.dimensions == 0 && r.max_chunk_id == 0
    &&& r.model@ == "none"@
    &&& r.db_path == db_path && r.project_path == project_path
    &&& r.error_message is None
}

/// The status when the statistics could not be read.
pub open spec fn error_status_ok(
    r: IndexStatusResponse,
    error: String,
    model: String,
    db_path: String,
    project_path: String,
) -> bool {
    &&& !r.indexed
    &&& r.status@ == "error"@
    &&& r.status_message == error
    &&& r.total_chunks == 0 && r.total_files == 0 && r.dimensions == 0 && r.max_chunk_id == 0
    &&& r.model == model
    &&& r.db_path == db_path && r.project_path == project_path
    &&& r.error_message == Some(error)
}

/// The status of a readable index.
pub open spec fn index_status_ok(
    r: IndexStatusResponse,
    stats: IndexStats,
    model: String,
    db_path: String,
    project_path: String,
) -> bool {
    &&& r.indexed == stats.indexed
    &&& r.status@ == if stats.total_chunks == 0 {
        "building"@
    } else {
        "ready"@
    }
    &&& r.status_message@ == if stats.total_chunks == 0 {
        "Index is being built in the background. Searches may fail until indexing completes. Please check back in a few minutes."@
    } else {
        "Index is ready for searching."@
    }
    &&& r.total_chunks == stats.total_chunks
    &&& r.total_files == stats.total_files
    &&& r.dimensions == stats.dimensions
    &&& r.max_chunk_id == stats.max_chunk_id
    &&& r.model == model
    &&& r.db_path == db_path && r.project_path == project_path
    &&& r.error_message is None
}

/// The answer of index_status: not indexed without a database (`stats` is `None`, the
/// store was not read), the error when the statistics could not be read, else the
/// statistics.
pub fn index_status_answer(
    stats: Option<Result<IndexStats, String>>,
    model: String,
    db_path: String,
    project_path: String,
) -> (r: IndexStatusResponse)
    ensures
        match stats {
            None => not_indexed_ok(r, db_path, project_path),
            Some(Err(e)) => error_status_ok(r, e, model, db_path, project_path),
            Some(Ok(s)) => index_status_ok(r, s, model, db_path, project_path),
        },
{
    match stats {
        None => not_indexed_status(db_path, project_path),
        Some(Err(e)) => error_status(e, model, db_path, project_path),
        Some(Ok(s)) => index_status_response(s, model, db_path, project_path),
    }
}

/// The status when there is no database.
pub fn not_indexed_status(db_path: String, project_path: String) -> (r: IndexStatusResponse)
    ensures
        not_indexed_ok(r, db_path, project_path),
{
    IndexStatusResponse {
        indexed: false,
        status: "not_indexed".to_owned(),
        status_message: "No index found. Run 'codesearch index' or start with --create-index=true to automatically create one.".to_owned(),
        total_chunks: 0,
        total_files: 0,
        model: "none".to_owned(),
        dimensions: 0,
        max_chunk_id: 0,
        db_path,
        project_path,
        error_message: None,
    }
}

/// The status when the statistics could not be read: the error is both the status
/// message and the error message.
pub fn error_status(error: String, model: String, db_path: String, project_path: String) -> (r:
    IndexStatusResponse)
    ensures
        error_status_ok(r, error, model, db_path, project_path),
{
    IndexStatusResponse {
        indexed: false,
        status: "error".to_owned(),
        status_message: error.clone(),
        total_chunks: 0,
        total_files: 0,
        model,
        dimensions: 0,
        max_chunk_id: 0,
        db_path,
        project_path,
        error_message: Some(error),
    }
}

/// The status of a readable index: "building" while it has no chunks, else "ready",
/// with the store's statistics.
pub fn index_status_response(
    stats: IndexStats,
    model: String,
    db_path: String,
    project_path: String,
) -> (r: IndexStatusResponse)
    ensures
        index_status_ok(r, stats, model, db_path, project_path),
{
    let (status, status_message) = if stats.total_chunks == 0 {
        (
            "building".to_owned(),
            "Index is being built in the background. Searches may fail until indexing completes. Please check back in a few minutes.".to_owned(),
        )
    } else {
        ("ready".to_owned(), "Index is ready for searching.".to_owned())
    };
    IndexStatusResponse {
        indexed: stats.indexed,
        status,
        status_message,
        total_chunks: stats.total_chunks,
        total_files: stats.total_files,
        model,
        dimensions: stats.dimensions,
        max_chunk_id: stats.max_chunk_id,
        db_path,
        project_path,
        error_message: None,
    }
}

// ---------------------------------------------------------------- find_databases

/// The embedding dimensions of a model, by its short name (384 for unknown names).
pub open spec fn model_dimensions(name: Seq<char>) -> usize {
    if name == "minilm-l6"@ || name == "minilm-l6-q"@ || name == "minilm-l12"@ || name
        == "minilm-l12-q"@ || name == "bge-small"@ || name == "bge-small-q"@ || name
        == "e5-multilingual"@ {
        384
    } else if name == "bge-base"@ || name == "jina-code"@ || name == "nomic-v1.5"@ {
        768
    } else if name == "bge-large"@ || name == "mxbai-large"@ {
        1024
    } else {
        384
    }
}

fn is_name(a: &[char], b: &str) -> (r: bool)
    ensures
        r == (a@ == b@),
{
    let bc = chars_of(b);
    eq_chars(a, bc.as_slice())
}

/// The embedding dimensions of a model, by its short name (384 for unknown names).
pub fn dimensions_for_model(name: &str) -> (d: usize)
    ensures
        d == model_dimensions(name@),
{
    let n = chars_of(name);
    let n = n.as_slice();
    if is_name(n, "minilm-l6") || is_name(n, "minilm-l6-q") || is_name(n, "minilm-l12") || is_name(
        n,
        "minilm-l12-q",
    ) || is_name(n, "bge-small") || is_name(n, "bge-small-q") || is_name(n, "e5-multilingual") {
        384
    } else if is_name(n, "bge-base") || is_name(n, "jina-code") || is_name(n, "nomic-v1.5") {
        768
    } else if is_name(n, "bge-large") || is_name(n, "mxbai-large") {
        1024
    } else {
        384
    }
}

/// The summary message of database discovery.
pub open spec fn databases_message_spec(count: nat, has_current: bool) -> Seq<char> {
    if count == 0 {
        "❌ No databases found. Run 'codesearch index' to create an index."@
    } else if has_current {
        "✅ Found "@ + decimal_spec(count) + " database(s). Current directory has an index."@
    } else {
        "⚠️  Found "@ + decimal_spec(count)
            + " database(s) in parent/global directories, but not in current directory."@
    }
}

/// The summary message of database discovery: none found, found with one for the
/// current directory, or found only in parent or global locations.
pub fn databases_message(count: usize, has_current: bool) -> (r: String)
    ensures
        r@ == databases_message_spec(count as nat, has_current),
{
    if count == 0 {
        return "❌ No databases found. Run 'codesearch index' to create an index.".to_owned();
    }
    let d = decimal_string(count);
    if has_current {
        concat3("✅ Found ", d.as_str(), " database(s). Current directory has an index.")
    } else {
        concat3(
            "⚠️  Found ",
            d.as_str(),
            " database(s) in parent/global directories, but not in current directory.",
        )
    }
}

fn decimal_string(n: usize) -> (s: String)
    ensures
        s@ == decimal_spec(n as nat),
{
    crate::format::decimal_string(n)
}

// ---------------------------------------------------------------- server info

/// The instructions text before the project path.
pub open spec fn instructions_head() -> Seq<char> {
    "codesearch — semantic + lexical code search MCP server.\n\nTOOLS:\n| Tool              | Use for                                              |\n|-------------------|------------------------------------------------------|\n| semantic_search   | Conceptual queries, identifier + natural-language mix |\n| find_definition   | Where is symbol X defined                             |\n| find_usages       | Who uses / calls symbol X                             |\n| find_references   | DEPRECATED — alias for find_usages                    |\n| index_status      | Verify the index is ready                             |\n| find_databases    | Discover available indexes                            |\n| literal_search    | Fast exact text search (regex, phrase, BM25)          |\n\nIndexing is done via CLI: `codesearch index`. The MCP server cannot index.\n\nCurrent project: "@
}

/// The server instructions: the tool routing table, then the current project, the
/// database with whether it exists, and the model with its dimensions.
pub open spec fn instructions_spec(
    project: Seq<char>,
    db: Seq<char>,
    db_exists: bool,
    model: Seq<char>,
    dims: nat,
) -> Seq<char> {
    instructions_head() + project + "\nCurrent database: "@ + db + " ("@ + (if db_exists {
        "ready"@
    } else {
        "not found"@
    }) + ")\nModel: "@ + model + " ("@ + decimal_spec(dims) + "d)\n"@
}

/// The instructions the server gives to its clients.
pub fn server_instructions(
    project: &str,
    db: &str,
    db_exists: bool,
    model: &str,
    dims: usize,
) -> (r: String)
    ensures
        r@ == instructions_spec(project@, db@, db_exists, model@, dims as nat),
{
    let mut v: Vec<char> = Vec::new();
    push_str(
        &mut v,
        "codesearch — semantic + lexical code search MCP server.\n\nTOOLS:\n| Tool              | Use for                                              |\n|-------------------|------------------------------------------------------|\n| semantic_search   | Conceptual queries, identifier + natural-language mix |\n| find_definition   | Where is symbol X defined                             |\n| find_usages       | Who uses / calls symbol X                             |\n| find_references   | DEPRECATED — alias for find_usages                    |\n| index_status      | Verify the index is ready                             |\n| find_databases    | Discover available indexes                            |\n| literal_search    | Fast exact text search (regex, phrase, BM25)          |\n\nIndexing is done via CLI: `codesearch index`. The MCP server cannot index.\n\nCurrent project: ",
    );
    push_str(&mut v, project);
    push_str(&mut v, "\nCurrent database: ");
    push_str(&mut v, db);
    push_str(&mut v, " (");
    push_str(
        &mut v,
        if db_exists {
            "ready"
        } else {
            "not found"
        },
    );
    push_str(&mut v, ")\nModel: ");
    push_str(&mut v, model);
    push_str(&mut v, " (");
    let d = decimal_chars(dims);
    push_chars(&mut v, d.as_slice());
    push_str(&mut v, "d)\n");
    string_of(v.as_slice())
}

} // verus!
