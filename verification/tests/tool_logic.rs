use codesearch::metadata::{recorded_dimensions, recorded_model, recorded_model_name};
use codesearch::literal::literal_search_plan;
use codesearch::navigation::{import_fallback_searches, same_language};
use codesearch::search_tools::{definition_limits, usages_limits};
use codesearch::semantic::{
    failure_message, semantic_plan, semantic_start, semantic_step, Failure, SemanticAction,
    SemanticEvent, SemanticState,
};
use codesearch::navigation::dependents_broad_search;
use codesearch::stores::{first_vector_read, next_vector_read, VectorReadStep};
use codesearch::format::{decimal_string, join_lines};
use codesearch::glob::{match_suffix_with_star, simple_glob_match, simple_glob_match_single_star, single_segment_match};
use codesearch::definition::{is_definition_chunk, is_import_kind};
use codesearch::imports::parse_import_lines;
use codesearch::literal::{
    grep_output, is_grep_format, literal_mode, literal_search_answer, literal_search_items,
    relative_path, LiteralCandidate, LiteralMode,
};
use codesearch::navigation::{
    chunk_context, chunk_response, clamp_context_lines, dependents_answer, dependents_limits,
    file_chunks, first_seen_ids, import_fallback_keywords, imports_answer, imports_from_chunks, outline_answer,
    select_dependents, sort_dependents, sort_imports, sort_outline, ChunkLookup,
    DependentCandidate,
};
use codesearch::paths::{normalize_tool_path, resolve_path, trimmed_project_root};
use codesearch::scoring::{
    add_unseen_hits, collect_exact_hits, compute_low_confidence, lexical_ranking, merge_exact_into_fts, score_bits_from_key,
    score_key_from_bits, sort_by_score_desc, FtsResult,
};
use codesearch::search_tools::{
    build_semantic_response, find_definition_answer, find_usages_answer, map_fused_results,
    resolve_fts_hits, search_mode, select_definitions, select_usages, similar_chunk_items,
    similar_limit, ChunkRecord, SearchHit, SearchMode, ToolAnswer,
};
use codesearch::snippet::{match_line_for_literal, truncate_line_around_match, LineRegex};
use codesearch::status::{
    chunk_not_found_message, databases_message, definition_not_indexed_message,
    dimensions_for_model, error_status, index_status_response, missing_database_message,
    no_definition_message, no_dependents_message, no_filtered_results_message, no_imports_message,
    no_literal_results_message, no_outline_message, not_indexed_status, only_definitions_message,
    server_instructions, usages_not_indexed_message, IndexStats,
};
use codesearch::types::{DependentItem, FileOutlineItem, LiteralSearchResultItem};
use codesearch::imports::ImportItem;

fn key(score: f32) -> u32 {
    score_key_from_bits(score.to_bits())
}

fn score(key: u32) -> f32 {
    f32::from_bits(score_bits_from_key(key))
}

fn hit(chunk_id: u32, s: f32) -> FtsResult {
    FtsResult { chunk_id, score: key(s) }
}

fn chunk(path: &str, start: usize, end: usize, kind: &str, sig: Option<&str>, content: &str) -> ChunkRecord {
    ChunkRecord {
        path: path.to_string(),
        start_line: start,
        end_line: end,
        kind: kind.to_string(),
        signature: sig.map(|s| s.to_string()),
        content: content.to_string(),
        context_prev: Some("prev".to_string()),
        context_next: Some("next".to_string()),
    }
}

fn search_hit(id: u32, s: f32, path: &str) -> SearchHit {
    SearchHit { id, chunk: chunk(path, 1, 2, "Function", Some("fn f"), "body"), score: key(s) }
}

// === score keys ===

#[test]
fn score_keys_round_trip_and_keep_order() {
    for v in [0.0f32, 0.02, 0.5, 1.0, 3.25, -1.0, -0.5] {
        assert_eq!(score(key(v)), v);
    }
    assert!(key(0.5) > key(0.1));
    assert!(key(0.0) > key(-1.0));
    assert!(key(-0.5) > key(-2.0));
    assert!(key(1e9) > key(1.0));
}

// === merging and collecting exact hits ===

#[test]
fn merge_exact_dedupes_by_chunk_and_keeps_best_score() {
    let mut base = vec![hit(1, 0.3), hit(2, 0.1)];
    merge_exact_into_fts(&mut base, vec![hit(2, 0.4), hit(3, 0.2), hit(1, 0.05), hit(3, 0.6)]);
    let got: Vec<(u32, f32)> = base.iter().map(|r| (r.chunk_id, score(r.score))).collect();
    assert_eq!(got, vec![(1, 0.3), (2, 0.4), (3, 0.6)]);
}

#[test]
fn add_unseen_hits_keeps_first_hit_of_each_chunk() {
    let mut all = vec![hit(1, 0.9)];
    add_unseen_hits(&mut all, &vec![hit(1, 0.1), hit(2, 0.2), hit(2, 0.8), hit(3, 0.3)]);
    add_unseen_hits(&mut all, &vec![hit(3, 0.7), hit(4, 0.4)]);
    let got: Vec<(u32, f32)> = all.iter().map(|r| (r.chunk_id, score(r.score))).collect();
    assert_eq!(got, vec![(1, 0.9), (2, 0.2), (3, 0.3), (4, 0.4)]);
}

#[test]
fn add_unseen_hits_with_nothing_found_changes_nothing() {
    let mut all = vec![hit(5, 0.5)];
    add_unseen_hits(&mut all, &vec![]);
    assert_eq!(all, vec![hit(5, 0.5)]);
}

#[test]
fn sort_by_score_desc_is_stable() {
    let sorted = sort_by_score_desc(vec![hit(1, 0.1), hit(2, 0.5), hit(3, 0.1), hit(4, 0.9), hit(5, 0.5)]);
    let ids: Vec<u32> = sorted.iter().map(|r| r.chunk_id).collect();
    assert_eq!(ids, vec![4, 2, 5, 1, 3]);
}

#[test]
fn low_confidence_threshold_is_two_hundredths() {
    assert_eq!(compute_low_confidence(Some(key(0.0199)), false), (Some(true), Some("literal_search".to_string())));
    assert_eq!(compute_low_confidence(Some(key(0.02)), true), (None, None));
    assert_eq!(compute_low_confidence(Some(key(-1.0)), true), (Some(true), Some("find_definition".to_string())));
}

// === glob helpers ===

#[test]
fn glob_helpers_on_concrete_values() {
    assert!(single_segment_match("*.rs", "main.rs"));
    assert!(!single_segment_match("*.rs", "main.py"));
    assert!(single_segment_match("test_*_spec.rb", "test_user_spec.rb"));
    assert!(simple_glob_match_single_star("src/*.rs", "src/lib.rs"));
    assert!(!simple_glob_match_single_star("src/*.rs", "src/a/lib.rs"));
    assert!(match_suffix_with_star("*.rs", "src/deep/lib.rs"));
    assert!(match_suffix_with_star("mcp/*.rs", "src/mcp/mod.rs"));
    assert!(!match_suffix_with_star("mcp/*.rs", "src/cache/mod.rs"));
    assert!(!simple_glob_match("/src/**", "src/a.rs"));
    assert!(simple_glob_match("src\\**\\*.rs", "src/a/b.rs"));
    assert!(!simple_glob_match("src/**/*.rs", "tests/a.rs"));
}

// === definitions, usages, imports ===

#[test]
fn import_kinds_are_recognized() {
    for k in ["Import", "Use", "Require", "Include", "Imports"] {
        assert!(is_import_kind(k));
    }
    assert!(!is_import_kind("import"));
    assert!(!is_import_kind("Function"));
}

#[test]
fn definition_requires_whole_symbol_after_prefix() {
    assert!(is_definition_chunk("Function", &Some("fn run\t(".to_string()), "run"));
    assert!(!is_definition_chunk("Function", &Some("fn runner()".to_string()), "run"));
    assert!(!is_definition_chunk("Function", &Some(String::new()), "run"));
    assert!(!is_definition_chunk("Variable", &Some("fn run()".to_string()), "run"));
}

fn definition_hits() -> Vec<(FtsResult, Option<ChunkRecord>)> {
    vec![
        (hit(1, 0.9), Some(chunk("a.rs", 10, 20, "Function", Some("fn parse("), "fn parse() {}"))),
        (hit(2, 0.8), Some(chunk("b.rs", 5, 6, "Variable", None, "let x = parse();"))),
        (hit(3, 0.7), None),
        (hit(4, 0.6), Some(chunk("c.rs", 1, 3, "Struct", Some("struct Parser"), "struct Parser;"))),
        (hit(5, 0.5), Some(chunk("d.rs", 7, 9, "Function", Some("fn main()"), "parse()"))),
    ]
}

#[test]
fn select_definitions_keeps_definition_kinds_in_order() {
    let items = select_definitions(definition_hits(), &None, 20);
    let got: Vec<(u32, String, usize)> = items.iter().map(|i| (i.chunk_id, i.path.clone(), i.line)).collect();
    assert_eq!(got, vec![(1, "a.rs".to_string(), 10), (4, "c.rs".to_string(), 1), (5, "d.rs".to_string(), 7)]);
    assert_eq!(score(items[0].score), 0.9);
}

#[test]
fn select_definitions_filters_by_kind_and_limit() {
    let items = select_definitions(definition_hits(), &Some("Struct".to_string()), 20);
    assert_eq!(items.len(), 1);
    assert_eq!(items[0].chunk_id, 4);
    let items = select_definitions(definition_hits(), &None, 2);
    let ids: Vec<u32> = items.iter().map(|i| i.chunk_id).collect();
    assert_eq!(ids, vec![1, 4]);
}

#[test]
fn select_usages_excludes_the_definition_itself() {
    let items = select_usages(definition_hits(), "parse", 20);
    let ids: Vec<u32> = items.iter().map(|i| i.chunk_id).collect();
    assert_eq!(ids, vec![2, 4, 5]);
    let items = select_usages(definition_hits(), "parse", 1);
    assert_eq!(items.len(), 1);
    assert_eq!(items[0].chunk_id, 2);
}

#[test]
fn parse_import_lines_numbers_and_trims() {
    let items = parse_import_lines("\n  use std::io;\n#include <stdio.h>\nlet x = require('y');\nplain", 7);
    let got: Vec<(String, usize, String)> =
        items.iter().map(|i| (i.imported.clone(), i.line, i.kind.clone())).collect();
    assert_eq!(
        got,
        vec![
            ("std::io".to_string(), 8, "use".to_string()),
            ("<stdio.h>".to_string(), 9, "include".to_string()),
            ("let x = require('y');".to_string(), 10, "require".to_string()),
        ]
    );
}

#[test]
fn imports_from_chunks_concatenates_and_sort_orders_by_line() {
    let items = imports_from_chunks(vec![
        ("import b".to_string(), 10),
        ("use a;\nfrom c import d".to_string(), 2),
    ]);
    let lines: Vec<usize> = items.iter().map(|i| i.line).collect();
    assert_eq!(lines, vec![10, 2, 3]);
    let sorted = sort_imports(items);
    let got: Vec<(usize, String)> = sorted.iter().map(|i| (i.line, i.imported.clone())).collect();
    assert_eq!(got, vec![(2, "a".to_string()), (3, "c import d".to_string()), (10, "b".to_string())]);
}

#[test]
fn sort_imports_keeps_order_of_equal_lines() {
    let mk = |imported: &str, line: usize| ImportItem { imported: imported.to_string(), line, kind: "use".to_string() };
    let sorted = sort_imports(vec![mk("x", 3), mk("y", 1), mk("z", 3)]);
    let got: Vec<String> = sorted.iter().map(|i| i.imported.clone()).collect();
    assert_eq!(got, vec!["y", "x", "z"]);
}

#[test]
fn first_seen_ids_dedupes_in_order() {
    let ids = first_seen_ids(&vec![hit(3, 0.1), hit(1, 0.2), hit(3, 0.3), hit(2, 0.4), hit(1, 0.5)]);
    assert_eq!(ids, vec![3, 1, 2]);
}

// === outline and chunks ===

#[test]
fn sort_outline_by_start_line() {
    let mk = |id: u32, start: usize| FileOutlineItem {
        chunk_id: id,
        kind: "Function".to_string(),
        signature: None,
        start_line: start,
        end_line: start + 1,
    };
    let sorted = sort_outline(vec![mk(1, 30), mk(2, 5), mk(3, 30), mk(4, 1)]);
    let ids: Vec<u32> = sorted.iter().map(|i| i.chunk_id).collect();
    assert_eq!(ids, vec![4, 2, 1, 3]);
}

#[test]
fn clamp_context_lines_defaults_and_caps() {
    assert_eq!(clamp_context_lines(None), (0, false));
    assert_eq!(clamp_context_lines(Some(20)), (20, false));
    assert_eq!(clamp_context_lines(Some(21)), (20, true));
}

#[test]
fn chunk_context_takes_lines_around_the_chunk() {
    let src = "l0\nl1\nl2\nl3\nl4\nl5";
    assert_eq!(chunk_context(src, 2, 4, 1), (Some("l1".to_string()), Some("l4".to_string())));
    assert_eq!(chunk_context(src, 2, 4, 5), (Some("l0\nl1".to_string()), Some("l4\nl5".to_string())));
    assert_eq!(chunk_context(src, 0, 6, 3), (None, None));
    assert_eq!(chunk_context("", 0, 1, 3), (None, None));
}

#[test]
fn chunk_response_reports_unreadable_source() {
    let c = chunk("a.rs", 1, 2, "Function", Some("fn a"), "fn a() {}");
    let r = chunk_response(9, c, 3, true, Some(None));
    assert_eq!(r.chunk_id, 9);
    assert_eq!(r.context_before, None);
    assert_eq!(r.note, Some("source file not readable, returning indexed content only".to_string()));
    assert_eq!(r.context_lines_clamped, Some(true));
    let c = chunk("a.rs", 1, 2, "Function", Some("fn a"), "fn a() {}");
    let r = chunk_response(9, c, 1, false, Some(Some("x\ny\nz".to_string())));
    assert_eq!(r.context_before, Some("x".to_string()));
    assert_eq!(r.context_after, Some("z".to_string()));
    assert_eq!(r.note, None);
    assert_eq!(r.context_lines_clamped, None);
}

// === dependents ===

fn candidate(path: &str, kind: &str, sig: Option<&str>, content: &str) -> ChunkLookup<DependentCandidate> {
    ChunkLookup::Found(DependentCandidate {
        chunk: chunk(path, 4, 8, kind, sig, content),
        normalized_path: path.to_lowercase(),
    })
}

#[test]
fn dependents_limits_defaults_and_budget() {
    assert_eq!(dependents_limits(None), (20, 200));
    assert_eq!(dependents_limits(Some(50)), (50, 500));
    assert_eq!(dependents_limits(Some(1000)), (200, 2000));
    assert_eq!(dependents_limits(Some(0)), (0, 200));
}

#[test]
fn select_dependents_one_per_file_with_matching_line() {
    let lookups = vec![
        candidate("b.rs", "Imports", None, "use std::io;\nuse crate::Cache;"),
        ChunkLookup::Missing,
        candidate("B.rs", "Imports", None, "use crate::cache;"),
        candidate("c.rs", "Function", None, "cache()"),
        candidate("a.rs", "Use", Some("use thing"), "use other;"),
    ];
    let items = select_dependents(lookups, "CACHE", 10).unwrap();
    let got: Vec<(String, usize, String)> =
        items.iter().map(|i| (i.path.clone(), i.line, i.import_statement.clone())).collect();
    assert_eq!(
        got,
        vec![
            ("b.rs".to_string(), 4, "use crate::Cache;".to_string()),
            ("a.rs".to_string(), 4, "use thing".to_string()),
        ]
    );
    let sorted = sort_dependents(items);
    let paths: Vec<String> = sorted.iter().map(|i| i.path.clone()).collect();
    assert_eq!(paths, vec!["a.rs", "b.rs"]);
}

#[test]
fn select_dependents_stops_at_limit_and_fails_on_store_error() {
    let lookups = vec![
        candidate("a.rs", "Imports", None, "first line\nsecond"),
        ChunkLookup::Failed,
    ];
    let items = select_dependents(lookups, "zzz", 1).unwrap();
    assert_eq!(items.len(), 1);
    assert_eq!(items[0].import_statement, "first line");
    let lookups = vec![ChunkLookup::Failed, candidate("a.rs", "Imports", None, "x")];
    assert!(select_dependents(lookups, "x", 5).is_none());
}

#[test]
fn sort_dependents_is_stable_on_equal_paths() {
    let mk = |p: &str, line: usize| DependentItem { path: p.to_string(), line, import_statement: String::new() };
    let sorted = sort_dependents(vec![mk("b", 1), mk("a", 2), mk("b", 3), mk("a", 4)]);
    let lines: Vec<usize> = sorted.iter().map(|i| i.line).collect();
    assert_eq!(lines, vec![2, 4, 1, 3]);
}

// === semantic search ===

#[test]
fn search_mode_from_request() {
    assert!(matches!(search_mode(&None), SearchMode::Hybrid));
    assert!(matches!(search_mode(&Some("lexical".to_string())), SearchMode::Lexical));
    assert!(matches!(search_mode(&Some("semantic".to_string())), SearchMode::Semantic));
    assert!(matches!(search_mode(&Some("hybrid".to_string())), SearchMode::Hybrid));
    assert!(matches!(search_mode(&Some("Lexical".to_string())), SearchMode::Hybrid));
}

#[test]
fn build_semantic_response_empty_is_low_confidence() {
    let r = build_semantic_response(vec![], vec![], true, true);
    assert!(r.results.is_empty());
    assert_eq!(r.low_confidence, Some(true));
    assert_eq!(r.suggested_tool, Some("literal_search".to_string()));
}

#[test]
fn build_semantic_response_filters_and_compacts() {
    let hits = vec![search_hit(1, 0.01, "x/a.rs"), search_hit(2, 0.5, "y/b.rs"), search_hit(3, 0.3, "x/c.rs")];
    let r = build_semantic_response(hits, vec![false, true, true], true, false);
    let ids: Vec<u32> = r.results.iter().map(|i| i.chunk_id).collect();
    assert_eq!(ids, vec![2, 3]);
    assert_eq!(r.results[0].content, None);
    assert_eq!(r.results[0].context_prev, None);
    assert_eq!(r.low_confidence, None);
    assert_eq!(r.suggested_tool, None);

    let hits = vec![search_hit(1, 0.01, "x/a.rs")];
    let r = build_semantic_response(hits, vec![true], false, true);
    assert_eq!(r.results[0].content, Some("body".to_string()));
    assert_eq!(r.results[0].context_next, Some("next".to_string()));
    assert_eq!(r.low_confidence, Some(true));
    assert_eq!(r.suggested_tool, Some("find_definition".to_string()));

    let hits = vec![search_hit(1, 0.9, "x/a.rs")];
    let r = build_semantic_response(hits, vec![false], true, true);
    assert!(r.results.is_empty());
    assert_eq!(r.low_confidence, Some(true));
    assert_eq!(r.suggested_tool, Some("literal_search".to_string()));
}

#[test]
fn map_fused_results_takes_fused_order_and_scores() {
    let hits = vec![search_hit(1, 0.7, "a"), search_hit(2, 0.6, "b"), search_hit(3, 0.5, "c")];
    let fused = vec![(3, key(0.03)), (9, key(0.02)), (1, key(0.01)), (2, key(0.005))];
    let r = map_fused_results(&fused, &hits, 3);
    let got: Vec<(u32, f32, String)> = r.iter().map(|h| (h.id, score(h.score), h.chunk.path.clone())).collect();
    assert_eq!(got, vec![(3, 0.03, "c".to_string()), (1, 0.01, "a".to_string())]);
}

#[test]
fn resolve_fts_hits_drops_missing_chunks() {
    let fts = vec![hit(4, 0.4), hit(5, 0.3), hit(6, 0.2)];
    let chunks = vec![Some(chunk("a", 1, 2, "Function", None, "c")), None];
    let r = resolve_fts_hits(&fts, chunks, 2);
    assert_eq!(r.len(), 1);
    assert_eq!(r[0].id, 4);
    assert_eq!(score(r[0].score), 0.4);
}

#[test]
fn similar_chunks_exclude_self_and_cap() {
    assert_eq!(similar_limit(None), 5);
    assert_eq!(similar_limit(Some(50)), 20);
    assert_eq!(similar_limit(Some(3)), 3);
    let neighbors = vec![search_hit(7, 1.0, "self"), search_hit(8, 0.9, "a"), search_hit(9, 0.8, "b"), search_hit(10, 0.7, "c")];
    let items = similar_chunk_items(7, neighbors, 2);
    let ids: Vec<u32> = items.iter().map(|i| i.chunk_id).collect();
    assert_eq!(ids, vec![8, 9]);
    assert!(items.iter().all(|i| i.content.is_none() && i.context_prev.is_none()));
}

// === literal search ===

fn literal(path: &str, lang: &str, content: &str, s: f32) -> LiteralCandidate {
    LiteralCandidate {
        chunk: chunk(path, 10, 20, "", Some(""), content),
        score: key(s),
        language: lang.to_string(),
    }
}

#[test]
fn literal_mode_and_format() {
    assert!(matches!(literal_mode(Some(true), Some(true)), LiteralMode::Regex));
    assert!(matches!(literal_mode(Some(false), Some(true)), LiteralMode::Phrase));
    assert!(matches!(literal_mode(None, None), LiteralMode::Terms));
    assert!(is_grep_format(&Some("grep".to_string())));
    assert!(!is_grep_format(&Some("json".to_string())));
    assert!(!is_grep_format(&None));
}

#[test]
fn relative_path_strips_root_and_slashes() {
    assert_eq!(relative_path("/proj/src/a.rs", "/proj").iter().collect::<String>(), "src/a.rs");
    assert_eq!(relative_path("other/a.rs", "/proj").iter().collect::<String>(), "other/a.rs");
    assert_eq!(relative_path("//a.rs", "").iter().collect::<String>(), "a.rs");
}

#[test]
fn literal_search_items_filter_snippet_and_limit() {
    let cands = vec![
        literal("/proj/src/a.rs", "rust", "first\nlet needle = 1;\nlast", 0.9),
        literal("/proj/docs/b.md", "markdown", "needle", 0.8),
        literal("/proj/src/c.rs", "rust", "no match here", 0.7),
        literal("/proj/src/d.rs", "rust", "needle", 0.6),
    ];
    let items = literal_search_items(cands, Some("rust"), Some("src/**/*.rs"), "/proj", "needle", None, 2).unwrap();
    let got: Vec<(String, usize, String)> =
        items.iter().map(|i| (i.path.clone(), i.start_line, i.snippet.clone())).collect();
    assert_eq!(
        got,
        vec![
            ("/proj/src/a.rs".to_string(), 11, "let needle = 1;".to_string()),
            ("/proj/src/c.rs".to_string(), 10, "no match here".to_string()),
        ]
    );
    assert_eq!(items[0].kind, None);
    assert_eq!(items[0].signature, None);
    assert_eq!(score(items[1].score), 0.7);
}

#[test]
fn literal_search_items_with_regex_pattern() {
    let re = LineRegex::new(r"ne+dle\d").unwrap();
    let cands = vec![literal("a.rs", "rust", "needle\nneedle7 here", 0.5)];
    let items = literal_search_items(cands, None, None, "", "ne+dle\\d", Some(&re), 10).unwrap();
    assert_eq!(items[0].start_line, 11);
    assert_eq!(items[0].snippet, "needle7 here");
}

#[test]
fn grep_output_lines() {
    let mk = |p: &str, l: usize, s: &str| LiteralSearchResultItem {
        path: p.to_string(),
        start_line: l,
        end_line: l,
        snippet: s.to_string(),
        score: 0,
        kind: None,
        signature: None,
    };
    assert_eq!(grep_output(&vec![mk("a.rs", 3, "x"), mk("b.rs", 40, "y:z")]), "a.rs:3:x\nb.rs:40:y:z");
    assert_eq!(grep_output(&vec![]), "");
}

// === snippets ===

#[test]
fn truncate_line_centers_on_match() {
    assert_eq!(truncate_line_around_match("short", 2, 10), "short");
    assert_eq!(truncate_line_around_match("abcdefghij", 5, 4), "defg");
    assert_eq!(truncate_line_around_match("abcdefghij", 0, 4), "abcd");
    assert_eq!(truncate_line_around_match("abcdefghij", 9, 4), "ghij");
    assert_eq!(truncate_line_around_match("abcdefghij", 100, 4), "ghij");
    assert_eq!(truncate_line_around_match("ééééé", 6, 2), "éé");
}

#[test]
fn match_line_for_literal_empty_query_and_long_line() {
    assert_eq!(match_line_for_literal("abc", "", None), None);
    let long = format!("{}needle{}", "x".repeat(300), "y".repeat(300));
    let (idx, snippet) = match_line_for_literal(&format!("top\n{}", long), "needle", None).unwrap();
    assert_eq!(idx, 1);
    assert_eq!(snippet.chars().count(), 200);
    assert!(snippet.contains("needle"));
}

#[test]
fn line_regex_rejects_invalid_pattern() {
    assert!(LineRegex::new("(unclosed").is_none());
    assert!(LineRegex::new("a|b").is_some());
    let re = LineRegex::new("b+").unwrap();
    assert_eq!(match_line_for_literal("aaa\nxbbby", "b+", Some(&re)), Some((1, "xbbby".to_string())));
}

// === paths ===

#[test]
fn tool_paths_resolve_against_root() {
    assert_eq!(normalize_tool_path("src/main.rs", "/proj"), "/proj/src/main.rs");
    assert_eq!(normalize_tool_path("src/main.rs", "/proj/"), "/proj/src/main.rs");
    assert_eq!(normalize_tool_path("/abs/x.rs", "/proj"), "/abs/x.rs");
    assert_eq!(resolve_path("a.rs", ""), "a.rs");
    assert_eq!(trimmed_project_root("/proj//"), "/proj");
    assert_eq!(trimmed_project_root("/"), "");
}

// === messages and status ===

#[test]
fn tool_messages() {
    assert_eq!(definition_not_indexed_message("Foo"), "No definition found for 'Foo'. The symbol may not be indexed.");
    assert_eq!(
        no_definition_message("Foo"),
        "No definition found for 'Foo'. Try find_usages() to find references, or broaden your search."
    );
    assert_eq!(usages_not_indexed_message("x"), "No usages found for 'x'. The symbol may not be indexed.");
    assert_eq!(
        only_definitions_message("x"),
        "No usages found for 'x' (only definitions were found). Try find_definition() to locate the declaration."
    );
    assert_eq!(no_literal_results_message("q"), "No results found for 'q'. Try a different query or mode.");
    assert_eq!(no_filtered_results_message("q"), "No results found for 'q' after applying filters.");
    assert_eq!(no_dependents_message("m"), "No dependent files found for 'm'.");
    assert_eq!(chunk_not_found_message(4096), "Chunk 4096 not found. Verify the chunk_id and index state.");
    assert!(no_outline_message().starts_with("No indexed chunks found for path."));
    assert!(no_imports_message().starts_with("No import chunks found."));
    let m = missing_database_message("/db", "/proj");
    assert!(m.starts_with("❌ No index database found at: /db\n\n"));
    assert!(m.contains("\n$ cd /proj\n$ codesearch index\n"));
}

#[test]
fn decimal_and_join() {
    assert_eq!(decimal_string(0), "0");
    assert_eq!(decimal_string(1234567), "1234567");
    assert_eq!(join_lines(&[vec!['a'], vec![], vec!['b', 'c']]), "a\n\nbc");
    assert_eq!(join_lines(&[]), "");
}

#[test]
fn index_status_responses() {
    let r = not_indexed_status("/db".to_string(), "/p".to_string());
    assert!(!r.indexed);
    assert_eq!(r.status, "not_indexed");
    assert_eq!(r.model, "none");
    let r = error_status("boom".to_string(), "bge-small".to_string(), "/db".to_string(), "/p".to_string());
    assert_eq!(r.status, "error");
    assert_eq!(r.error_message, Some("boom".to_string()));
    let stats = |chunks: usize| IndexStats { indexed: true, total_chunks: chunks, total_files: 3, dimensions: 384, max_chunk_id: 9 };
    let r = index_status_response(stats(0), "m".to_string(), "/db".to_string(), "/p".to_string());
    assert_eq!(r.status, "building");
    let r = index_status_response(stats(12), "m".to_string(), "/db".to_string(), "/p".to_string());
    assert_eq!(r.status, "ready");
    assert_eq!(r.status_message, "Index is ready for searching.");
    assert_eq!(r.total_chunks, 12);
}

#[test]
fn model_dimensions_and_database_messages() {
    assert_eq!(dimensions_for_model("minilm-l6"), 384);
    assert_eq!(dimensions_for_model("jina-code"), 768);
    assert_eq!(dimensions_for_model("mxbai-large"), 1024);
    assert_eq!(dimensions_for_model("unknown"), 384);
    assert_eq!(databases_message(0, false), "❌ No databases found. Run 'codesearch index' to create an index.");
    assert_eq!(databases_message(2, true), "✅ Found 2 database(s). Current directory has an index.");
    assert_eq!(
        databases_message(3, false),
        "⚠️  Found 3 database(s) in parent/global directories, but not in current directory."
    );
}

#[test]
fn instructions_name_project_database_and_model() {
    let text = server_instructions("/p", "/p/.codesearch.db", false, "minilm-l6", 384);
    assert!(text.starts_with("codesearch — semantic + lexical code search MCP server."));
    assert!(text.ends_with("Current project: /p\nCurrent database: /p/.codesearch.db (not found)\nModel: minilm-l6 (384d)\n"));
}

// === tool answers ===

fn text_of<T>(a: ToolAnswer<T>) -> String {
    match a {
        ToolAnswer::Text(t) => t,
        ToolAnswer::Items(_) => panic!("expected a text answer"),
    }
}

fn items_of<T>(a: ToolAnswer<T>) -> Vec<T> {
    match a {
        ToolAnswer::Items(v) => v,
        ToolAnswer::Text(t) => panic!("expected items, got {}", t),
    }
}

#[test]
fn find_definition_answer_messages_and_items() {
    assert_eq!(
        text_of(find_definition_answer("parse", vec![], &None, 20)),
        "No definition found for 'parse'. The symbol may not be indexed."
    );
    let only_usage = vec![(hit(2, 0.8), Some(chunk("b.rs", 5, 6, "Variable", None, "parse()")))];
    assert_eq!(
        text_of(find_definition_answer("parse", only_usage, &None, 20)),
        "No definition found for 'parse'. Try find_usages() to find references, or broaden your search."
    );
    let items = items_of(find_definition_answer("parse", definition_hits(), &None, 20));
    assert_eq!(items.len(), 3);
}

#[test]
fn find_usages_answer_messages_and_items() {
    assert_eq!(
        text_of(find_usages_answer("parse", vec![], 20)),
        "No usages found for 'parse'. The symbol may not be indexed."
    );
    let only_def = vec![(hit(1, 0.9), Some(chunk("a.rs", 1, 2, "Function", Some("fn parse("), "fn parse() {}")))];
    assert_eq!(
        text_of(find_usages_answer("parse", only_def, 20)),
        "No usages found for 'parse' (only definitions were found). Try find_definition() to locate the declaration."
    );
    let items = items_of(find_usages_answer("parse", definition_hits(), 2));
    let ids: Vec<u32> = items.iter().map(|i| i.chunk_id).collect();
    assert_eq!(ids, vec![2, 4]);
}

#[test]
fn literal_search_answer_messages_grep_and_items() {
    assert_eq!(
        text_of(literal_search_answer("q", 0, vec![], None, None, "", None, 20, false).unwrap()),
        "No results found for 'q'. Try a different query or mode."
    );
    let cands = vec![literal("/proj/docs/b.md", "markdown", "q here", 0.8)];
    assert_eq!(
        text_of(literal_search_answer("q", 3, cands, Some("rust"), None, "/proj", None, 20, false).unwrap()),
        "No results found for 'q' after applying filters."
    );
    let cands = vec![
        literal("/proj/src/a.rs", "rust", "x\nfind q", 0.8),
        literal("/proj/src/b.rs", "rust", "q", 0.7),
    ];
    assert_eq!(
        text_of(literal_search_answer("q", 2, cands, None, None, "/proj", None, 20, true).unwrap()),
        "/proj/src/a.rs:11:find q\n/proj/src/b.rs:10:q"
    );
    let cands = vec![literal("/proj/src/b.rs", "rust", "q", 0.7)];
    let items = items_of(literal_search_answer("q", 1, cands, None, None, "/proj", None, 20, false).unwrap());
    assert_eq!(items.len(), 1);
    assert_eq!(items[0].snippet, "q");
}

#[test]
fn outline_and_imports_answers() {
    assert!(text_of(outline_answer(vec![])).starts_with("No indexed chunks found for path."));
    let mk = |id: u32, start: usize| FileOutlineItem {
        chunk_id: id,
        kind: "Function".to_string(),
        signature: None,
        start_line: start,
        end_line: start,
    };
    let ids: Vec<u32> = items_of(outline_answer(vec![mk(1, 9), mk(2, 3)])).iter().map(|i| i.chunk_id).collect();
    assert_eq!(ids, vec![2, 1]);
    assert!(text_of(imports_answer(vec![])).starts_with("No import chunks found."));
    let imp = |s: &str, line: usize| ImportItem { imported: s.to_string(), line, kind: "use".to_string() };
    let got: Vec<usize> = items_of(imports_answer(vec![imp("b", 4), imp("a", 1)])).iter().map(|i| i.line).collect();
    assert_eq!(got, vec![1, 4]);
}

#[test]
fn file_chunks_keeps_chunks_of_the_target_file() {
    let chunks = vec![
        ("/p/a.rs".to_string(), "use x;".to_string(), 1),
        ("/p/b.rs".to_string(), "use y;".to_string(), 2),
        ("/p/a.rs".to_string(), "import z".to_string(), 9),
    ];
    let got = file_chunks(chunks, "/p/a.rs");
    assert_eq!(got, vec![("use x;".to_string(), 1), ("import z".to_string(), 9)]);
    let imports = imports_from_chunks(got);
    let names: Vec<String> = imports.iter().map(|i| i.imported.clone()).collect();
    assert_eq!(names, vec!["x", "z"]);
}

#[test]
fn dependents_answer_sorts_or_reports() {
    assert!(dependents_answer(vec![ChunkLookup::Failed], "m", 5).is_none());
    assert_eq!(
        text_of(dependents_answer(vec![ChunkLookup::Missing], "m", 5).unwrap()),
        "No dependent files found for 'm'."
    );
    let lookups = vec![
        candidate("z.rs", "Imports", None, "use m;"),
        candidate("a.rs", "Imports", None, "use m::x;"),
    ];
    let items = items_of(dependents_answer(lookups, "m", 5).unwrap());
    let paths: Vec<String> = items.iter().map(|i| i.path.clone()).collect();
    assert_eq!(paths, vec!["a.rs", "z.rs"]);
}

#[test]
fn collect_exact_hits_across_identifiers() {
    let lists = vec![vec![hit(1, 0.5), hit(2, 0.4)], vec![], vec![hit(2, 0.9), hit(3, 0.1), hit(1, 0.8)]];
    let got: Vec<(u32, f32)> = collect_exact_hits(&lists).iter().map(|r| (r.chunk_id, score(r.score))).collect();
    assert_eq!(got, vec![(1, 0.5), (2, 0.4), (3, 0.1)]);
    assert!(collect_exact_hits(&vec![]).is_empty());
}

#[test]
fn lexical_ranking_merges_then_sorts() {
    let fts = vec![hit(1, 0.2), hit(2, 0.5)];
    let exact = vec![vec![hit(1, 0.7), hit(3, 0.5)], vec![hit(2, 0.1), hit(4, 0.05)]];
    let got: Vec<(u32, f32)> = lexical_ranking(fts, exact).iter().map(|r| (r.chunk_id, score(r.score))).collect();
    assert_eq!(got, vec![(1, 0.7), (2, 0.5), (3, 0.5), (4, 0.05)]);
}

#[test]
fn import_fallback_keywords_in_search_order() {
    assert_eq!(import_fallback_keywords(), vec!["import", "use", "from", "require", "include"]);
}

#[test]
fn vector_read_fallbacks() {
    assert!(matches!(first_vector_read(false), VectorReadStep::Standalone));
    assert!(matches!(first_vector_read(true), VectorReadStep::Shared));
    assert!(matches!(next_vector_read(&VectorReadStep::Shared, true, true), VectorReadStep::Finish));
    assert!(matches!(next_vector_read(&VectorReadStep::Shared, false, true), VectorReadStep::Readonly));
    assert!(matches!(next_vector_read(&VectorReadStep::Shared, false, false), VectorReadStep::Standalone));
    assert!(matches!(next_vector_read(&VectorReadStep::Readonly, false, true), VectorReadStep::Finish));
    assert!(matches!(next_vector_read(&VectorReadStep::Standalone, false, false), VectorReadStep::Finish));
}

#[test]
fn resolving_twice_under_absolute_root_changes_nothing() {
    let once = normalize_tool_path("src/a.rs", "/proj");
    assert_eq!(normalize_tool_path(&once, "/proj"), once);
    assert_eq!(resolve_path("/x/y.rs", "/proj"), "/x/y.rs");
}

#[test]
fn single_star_never_crosses_slash() {
    assert!(simple_glob_match_single_star("src/*/mod.rs", "src/mcp/mod.rs"));
    assert!(!simple_glob_match_single_star("src*", "src/main.rs"));
    assert!(!simple_glob_match_single_star("*.rs", "main.rs/x"));
    assert!(simple_glob_match_single_star("a*b*c", "aXbYbc"));
    assert!(!simple_glob_match_single_star("a*b*c", "aXb/c"));
    assert!(simple_glob_match_single_star("*", ""));
    assert!(!simple_glob_match_single_star("*", "a/b"));
    assert!(simple_glob_match_single_star("src/*", "src/"));
    assert!(simple_glob_match("*/*.rs", "src/main.rs"));
    assert!(!simple_glob_match("*.rs", "src/main.rs"));
    assert!(!single_segment_match("foo", "foobar"));
    assert!(single_segment_match("*", "a/b"));
    assert!(single_segment_match("a*b", "a/x/b"));
    assert!(single_segment_match("foo", "foo"));
    assert!(single_segment_match("*a*a", "aa"));
    assert!(!single_segment_match("a*a", "a"));
}

#[test]
fn literal_snippet_line_overflow_is_reported() {
    let mut c = literal("a.rs", "rust", "x\nq", 0.5);
    c.chunk.start_line = usize::MAX;
    assert!(literal_search_items(vec![c], None, None, "", "q", None, 10).is_none());
    // the same candidate dropped by a filter does not matter
    let mut c = literal("a.rs", "rust", "x\nq", 0.5);
    c.chunk.start_line = usize::MAX;
    let ok = literal("b.rs", "rust", "q", 0.5);
    let items = literal_search_items(vec![c, ok], Some("python"), None, "", "q", None, 10).unwrap();
    assert!(items.is_empty());
    // a snippet on the first line still fits
    let mut c = literal("a.rs", "rust", "q\nx", 0.5);
    c.chunk.start_line = usize::MAX;
    assert_eq!(literal_search_items(vec![c], None, None, "", "q", None, 10).unwrap()[0].start_line, usize::MAX);
}

#[test]
fn semantic_search_modes_take_their_paths() {
    let plan = semantic_plan(None, None, &None, true);
    assert_eq!((plan.limit, plan.compact), (10, true));
    let (state, action) = semantic_start();
    assert!(matches!(action, SemanticAction::CheckDatabase));
    let (state, action) = semantic_step(&plan, state, SemanticEvent::DatabaseFound);
    assert!(matches!(action, SemanticAction::EmbedQuery));
    let (state, action) = semantic_step(&plan, state, SemanticEvent::QueryEmbedded);
    assert!(matches!(action, SemanticAction::SearchVectors { count: 30 }));
    let (state, action) = semantic_step(&plan, state, SemanticEvent::VectorsFound);
    assert!(matches!(action, SemanticAction::FuseWithFullText { fts_count: 30, exact_count: 20, with_exact: true }));
    let (state, action) = semantic_step(&plan, state, SemanticEvent::FullTextUnavailable);
    assert!(matches!(state, SemanticState::Finished));
    assert!(matches!(action, SemanticAction::RespondVectorFallback { limit: 10 }));

    let lexical = semantic_plan(Some(4), Some(false), &Some("lexical".to_string()), false);
    let (_, action) = semantic_step(&lexical, SemanticState::CheckingDatabase, SemanticEvent::DatabaseFound);
    assert!(matches!(action, SemanticAction::RunLexical { fts_count: 12, exact_count: 8 }));

    let semantic = semantic_plan(Some(4), None, &Some("semantic".to_string()), false);
    let (_, action) = semantic_step(&semantic, SemanticState::SearchingVectors, SemanticEvent::VectorsFound);
    assert!(matches!(action, SemanticAction::RespondVectorOnly { limit: 4 }));

    let (state, action) = semantic_step(&plan, SemanticState::CheckingDatabase, SemanticEvent::DatabaseMissing("gone".to_string()));
    assert!(matches!(state, SemanticState::Finished));
    match action {
        SemanticAction::Reply(t) => assert_eq!(t, "gone"),
        _ => panic!("expected a reply"),
    }
    match semantic_step(&plan, SemanticState::Embedding, SemanticEvent::EmbedFailed("boom".to_string())).1 {
        SemanticAction::Fail { failure, error } => assert_eq!(failure_message(&failure, &error), "Error embedding query: boom"),
        _ => panic!("expected a failure"),
    }
    assert_eq!(failure_message(&Failure::EmbeddingService, "x"), "Error initializing embedding service: x");
    assert_eq!(failure_message(&Failure::VectorSearch, "y"), "Error searching vector store: y");
}

#[test]
fn dependents_broad_search_only_without_exact_hits() {
    assert_eq!(dependents_broad_search(&vec![], 200), Some(200));
    assert_eq!(dependents_broad_search(&vec![hit(1, 0.1)], 200), None);
}

#[test]
fn merging_twice_changes_nothing() {
    let mut v = vec![hit(1, 0.3), hit(2, 0.1), hit(1, 0.2)];
    let exact = vec![hit(2, 0.4), hit(3, 0.2), hit(1, 0.9), hit(3, 0.7)];
    merge_exact_into_fts(&mut v, exact.clone());
    let once = v.clone();
    merge_exact_into_fts(&mut v, exact);
    assert_eq!(v, once);
}

#[test]
fn parsing_concatenated_texts() {
    let a = "use a;\nfoo\n";
    let b = "import b\n#include <c>";
    let joined = parse_import_lines(&format!("{}{}", a, b), 5);
    let mut split = parse_import_lines(a, 5);
    split.extend(parse_import_lines(b, 5 + a.lines().count()));
    let view = |v: &Vec<ImportItem>| v.iter().map(|i| (i.imported.clone(), i.line, i.kind.clone())).collect::<Vec<_>>();
    assert_eq!(view(&joined), view(&split));
}

#[test]
fn index_status_answer_three_ways() {
    let s = IndexStats { indexed: true, total_chunks: 3, total_files: 1, dimensions: 384, max_chunk_id: 7 };
    let r = codesearch::status::index_status_answer(Some(Ok(s)), "m".to_string(), "/db".to_string(), "/p".to_string());
    assert_eq!(r.status, "ready");
    let r = codesearch::status::index_status_answer(Some(Err("bad".to_string())), "m".to_string(), "/db".to_string(), "/p".to_string());
    assert_eq!(r.status, "error");
    let r = codesearch::status::index_status_answer(None, "m".to_string(), "/db".to_string(), "/p".to_string());
    assert_eq!(r.status, "not_indexed");
}

#[test]
fn recorded_model_from_metadata_text() {
    let text = r#"{"model_short_name":"bge-base","dimensions":768,"indexed_at":"x"}"#;
    assert_eq!(recorded_model(Some(text)), Some(("bge-base".to_string(), 768)));
    assert_eq!(recorded_model(Some("{}")), Some(("minilm-l6".to_string(), 384)));
    assert_eq!(recorded_model(Some(r#"{"dimensions":"big"}"#)), Some(("minilm-l6".to_string(), 384)));
    assert_eq!(recorded_model(Some("not json")), None);
    assert_eq!(recorded_model(None), Some(("minilm-l6".to_string(), 384)));
    assert_eq!(recorded_model_name(Some(text)), "bge-base");
    assert_eq!(recorded_model_name(Some("{}")), "unknown");
    assert_eq!(recorded_model_name(Some("[1, 2")), "unknown");
    assert_eq!(recorded_model_name(None), "unknown");
    assert_eq!(recorded_dimensions(Some(text)), 768);
    assert_eq!(recorded_dimensions(Some("oops")), 384);
    assert_eq!(recorded_dimensions(None), 384);
}

#[test]
fn search_counts_and_default_limits() {
    assert_eq!(definition_limits(None), (20, 60));
    assert_eq!(definition_limits(Some(5)), (5, 15));
    assert_eq!(usages_limits(None), (20, 40));
    assert_eq!(usages_limits(Some(7)), (7, 14));
    let (mode, limit, count) = literal_search_plan(None, Some(true), None);
    assert!(matches!(mode, LiteralMode::Phrase));
    assert_eq!((limit, count), (20, 60));
    let (mode, limit, count) = literal_search_plan(Some(true), None, Some(2));
    assert!(matches!(mode, LiteralMode::Regex));
    assert_eq!((limit, count), (2, 6));
}

#[test]
fn import_fallback_only_without_imports() {
    let searches = import_fallback_searches(&vec![]);
    let got: Vec<(String, usize)> = searches;
    assert_eq!(
        got,
        vec![
            ("import".to_string(), 40),
            ("use".to_string(), 40),
            ("from".to_string(), 40),
            ("require".to_string(), 40),
            ("include".to_string(), 40),
        ]
    );
    let one = vec![ImportItem { imported: "x".to_string(), line: 1, kind: "use".to_string() }];
    assert!(import_fallback_searches(&one).is_empty());
}

#[test]
fn languages_compare_ignoring_case() {
    assert!(same_language("Rust", "rust"));
    assert!(same_language("TypeScript", "TYPESCRIPT"));
    assert!(!same_language("Rust", "Python"));
}
