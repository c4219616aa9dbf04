use codesearch::definition::is_definition_chunk;
use codesearch::glob::simple_glob_match;
use codesearch::imports::parse_import_lines;
use codesearch::scoring::{
    compute_low_confidence, merge_exact_into_fts, score_bits_from_key, score_key_from_bits,
    FtsResult, LOW_CONFIDENCE_THRESHOLD,
};
use codesearch::snippet::{match_line_for_literal, LineRegex};
use codesearch::status::server_instructions;

fn key(score: f32) -> u32 {
    score_key_from_bits(score.to_bits())
}

fn score(key: u32) -> f32 {
    f32::from_bits(score_bits_from_key(key))
}

fn hit(chunk_id: u32, s: f32) -> FtsResult {
    FtsResult { chunk_id, score: key(s) }
}

// === is_definition_chunk tests ===

#[test]
fn test_is_definition_chunk_rust_function() {
    assert!(is_definition_chunk(
        "Function",
        &Some("fn authenticate(".to_string()),
        "authenticate"
    ));
    assert!(is_definition_chunk(
        "Function",
        &Some("pub fn CodesearchService".to_string()),
        "CodesearchService"
    ));
    assert!(is_definition_chunk(
        "Function",
        &Some("pub async fn handle_request".to_string()),
        "handle_request"
    ));
}

#[test]
fn test_is_definition_chunk_rust_struct() {
    assert!(is_definition_chunk(
        "Struct",
        &Some("pub struct CodesearchService".to_string()),
        "CodesearchService"
    ));
    assert!(is_definition_chunk(
        "Struct",
        &Some("struct SearchResult".to_string()),
        "SearchResult"
    ));
}

#[test]
fn test_is_definition_chunk_rust_trait() {
    assert!(is_definition_chunk(
        "Trait",
        &Some("pub trait Searchable".to_string()),
        "Searchable"
    ));
}

#[test]
fn test_is_definition_chunk_rust_enum() {
    assert!(is_definition_chunk(
        "Enum",
        &Some("pub enum ModelType".to_string()),
        "ModelType"
    ));
}

#[test]
fn test_is_definition_chunk_non_definition_kind() {
    assert!(!is_definition_chunk(
        "Comment",
        &Some("fn authenticate(".to_string()),
        "authenticate"
    ));
    assert!(!is_definition_chunk(
        "Import",
        &Some("use authenticate".to_string()),
        "authenticate"
    ));
}

#[test]
fn test_is_definition_chunk_usage_not_definition() {
    assert!(!is_definition_chunk(
        "Function",
        &Some("fn handle_request".to_string()),
        "authenticate"
    ));
}

#[test]
fn test_is_definition_chunk_no_signature() {
    assert!(!is_definition_chunk("Function", &None, "authenticate"));
    assert!(!is_definition_chunk(
        "Function",
        &Some(String::new()),
        "authenticate"
    ));
}

#[test]
fn test_is_definition_chunk_python() {
    assert!(is_definition_chunk(
        "Function",
        &Some("def authenticate(".to_string()),
        "authenticate"
    ));
    assert!(is_definition_chunk(
        "Class",
        &Some("class UserService".to_string()),
        "UserService"
    ));
}

#[test]
fn test_is_definition_chunk_impl_block() {
    assert!(is_definition_chunk(
        "Struct",
        &Some("impl CodesearchService".to_string()),
        "CodesearchService"
    ));
}

#[test]
fn test_is_definition_chunk_const() {
    assert!(is_definition_chunk(
        "Function",
        &Some("const MAX_SIZE".to_string()),
        "MAX_SIZE"
    ));
    assert!(is_definition_chunk(
        "Function",
        &Some("static INSTANCE".to_string()),
        "INSTANCE"
    ));
}

#[test]
fn test_is_definition_chunk_type_alias() {
    assert!(is_definition_chunk(
        "TypeAlias",
        &Some("type Result".to_string()),
        "Result"
    ));
    assert!(is_definition_chunk(
        "TypeAlias",
        &Some("pub type Error".to_string()),
        "Error"
    ));
}

#[test]
fn test_is_definition_chunk_interface() {
    assert!(is_definition_chunk(
        "Interface",
        &Some("interface Searchable".to_string()),
        "Searchable"
    ));
}

#[test]
fn test_is_definition_chunk_with_generics() {
    assert!(is_definition_chunk(
        "Function",
        &Some("fn parse<T>".to_string()),
        "parse"
    ));
    assert!(is_definition_chunk(
        "Struct",
        &Some("struct HashMap<K, V>".to_string()),
        "HashMap"
    ));
}

#[test]
fn test_is_definition_chunk_with_colon() {
    assert!(is_definition_chunk(
        "Trait",
        &Some("trait AsRef<T>:".to_string()),
        "AsRef"
    ));
}

#[test]
fn test_is_definition_chunk_wrong_symbol() {
    assert!(!is_definition_chunk(
        "Function",
        &Some("fn authenticate".to_string()),
        "authorize"
    ));
}

#[test]
fn test_is_definition_chunk_symbol_as_prefix_of_other() {
    assert!(!is_definition_chunk(
        "Function",
        &Some("fn authenticate_user".to_string()),
        "authenticate"
    ));
}

#[test]
fn test_is_definition_chunk_method() {
    assert!(is_definition_chunk(
        "Method",
        &Some("fn search".to_string()),
        "search"
    ));
    assert!(is_definition_chunk(
        "Method",
        &Some("pub async fn handle".to_string()),
        "handle"
    ));
}

#[test]
fn test_is_definition_chunk_all_kinds() {
    let test_cases = [
        ("Function", "fn foo(", "foo"),
        ("Class", "class Bar", "Bar"),
        ("Method", "fn baz(", "baz"),
        ("Struct", "struct Qux", "Qux"),
        ("Trait", "trait Quux", "Quux"),
        ("Enum", "enum Corge", "Corge"),
        ("TypeAlias", "type Grault", "Grault"),
        ("Interface", "interface Garply", "Garply"),
    ];
    for (kind, sig, symbol) in &test_cases {
        assert!(
            is_definition_chunk(kind, &Some(sig.to_string()), symbol),
            "is_definition_chunk({kind}, {sig}, {symbol}) should be true"
        );
    }
}

// === low-confidence tests ===

#[test]
fn test_low_confidence_below_threshold_with_identifiers() {
    let (lc, tool) = compute_low_confidence(Some(key(0.01)), true);
    assert_eq!(lc, Some(true));
    assert_eq!(tool.as_deref(), Some("find_definition"));
}

#[test]
fn test_low_confidence_below_threshold_without_identifiers() {
    let (lc, tool) = compute_low_confidence(Some(key(0.01)), false);
    assert_eq!(lc, Some(true));
    assert_eq!(tool.as_deref(), Some("literal_search"));
}

#[test]
fn test_low_confidence_above_threshold() {
    let (lc, tool) = compute_low_confidence(Some(key(0.5)), true);
    assert_eq!(lc, None);
    assert_eq!(tool, None);
}

#[test]
fn test_low_confidence_exactly_at_threshold() {
    let (lc, tool) = compute_low_confidence(Some(LOW_CONFIDENCE_THRESHOLD), false);
    assert_eq!(lc, None);
    assert_eq!(tool, None);
}

#[test]
fn test_low_confidence_no_results() {
    let (lc, tool) = compute_low_confidence(None, false);
    assert_eq!(lc, Some(true));
    assert_eq!(tool.as_deref(), Some("literal_search"));
}

#[test]
fn test_low_confidence_no_results_with_identifiers() {
    let (lc, tool) = compute_low_confidence(None, true);
    assert_eq!(lc, Some(true));
    assert_eq!(tool.as_deref(), Some("literal_search"));
}

// === Instructions length test ===

#[test]
fn test_instructions_max_50_lines() {
    let text = server_instructions(
        "/home/user/project",
        "/home/user/project/.codesearch.db",
        true,
        "minilm-l6",
        384,
    );
    assert!(text.starts_with("codesearch — semantic + lexical"));
    let line_count = text.lines().count();
    assert!(
        line_count <= 50,
        "Instructions block is {} lines, must be ≤ 50 lines.\nContent:\n{}",
        line_count,
        text
    );
}

// === simple_glob_match tests ===

#[test]
fn test_simple_glob_match_exact() {
    assert!(simple_glob_match("src/main.rs", "src/main.rs"));
    assert!(!simple_glob_match("src/main.rs", "src/other.rs"));
}

#[test]
fn test_simple_glob_match_double_star_prefix() {
    assert!(simple_glob_match("src/mcp/**", "src/mcp/mod.rs"));
    assert!(simple_glob_match("src/mcp/**", "src/mcp/types.rs"));
    assert!(simple_glob_match("src/mcp/**", "src/mcp/sub/deep.rs"));
    assert!(!simple_glob_match("src/mcp/**", "src/other/mod.rs"));
}

#[test]
fn test_simple_glob_match_double_star_suffix() {
    assert!(simple_glob_match("**/*.rs", "src/main.rs"));
    assert!(simple_glob_match("**/*.rs", "deep/nested/file.rs"));
    assert!(!simple_glob_match("**/*.rs", "src/main.ts"));
}

#[test]
fn test_simple_glob_match_double_star_both() {
    assert!(simple_glob_match("src/**/*.rs", "src/main.rs"));
    assert!(simple_glob_match("src/**/*.rs", "src/mcp/mod.rs"));
    assert!(!simple_glob_match("src/**/*.rs", "tests/main.rs"));
    assert!(!simple_glob_match("src/**/*.rs", "src/main.ts"));
}

#[test]
fn test_simple_glob_match_single_star() {
    assert!(simple_glob_match("*.rs", "main.rs"));
    assert!(!simple_glob_match("*.rs", "main.ts"));
    assert!(simple_glob_match("src/*.rs", "src/main.rs"));
    assert!(!simple_glob_match("src/*.rs", "src/sub/main.rs"));
}

#[test]
fn test_simple_glob_match_backslash_normalization() {
    assert!(simple_glob_match("src/mcp/**", r"src\mcp\mod.rs"));
    assert!(simple_glob_match(r"src\mcp\**", "src/mcp/mod.rs"));
}

#[test]
fn test_glob_exact_match_no_star() {
    assert!(simple_glob_match("src/main.rs", "src/main.rs"));
    assert!(!simple_glob_match("src/main.rs", "src/other.rs"));
    assert!(!simple_glob_match("src/main.rs", "src/main.rs.bak"));
}

#[test]
fn test_glob_double_star_prefix_empty() {
    assert!(simple_glob_match("**/test.rs", "test.rs"));
    assert!(simple_glob_match("**/test.rs", "src/test.rs"));
    assert!(simple_glob_match("**/test.rs", "a/b/c/test.rs"));
}

#[test]
fn test_glob_double_star_suffix_empty() {
    assert!(simple_glob_match("src/**", "src/"));
    assert!(simple_glob_match("src/**", "src/foo"));
    assert!(simple_glob_match("src/**", "src/a/b/c"));
}

#[test]
fn test_glob_both_double_stars() {
    assert!(simple_glob_match("**/**", "anything"));
    assert!(simple_glob_match("**/**", "a/b/c"));
}

#[test]
fn test_glob_nested_double_star() {
    assert!(simple_glob_match("src/**/*.rs", "src/lib.rs"));
    assert!(simple_glob_match("src/**/*.rs", "src/mcp/mod.rs"));
    assert!(simple_glob_match("src/**/*.rs", "src/a/b/c/d.rs"));
    assert!(!simple_glob_match("src/**/*.rs", "test/lib.rs"));
    assert!(!simple_glob_match("src/**/*.rs", "src/lib.ts"));
}

#[test]
fn test_glob_single_star_multiple() {
    assert!(simple_glob_match("test_*.rs", "test_foo.rs"));
    assert!(!simple_glob_match("test_*.rs", "test_foo.ts"));
}

#[test]
fn test_glob_single_star_stays_in_segment() {
    assert!(!simple_glob_match("*.rs", "src/main.rs"));
    assert!(!simple_glob_match("src/*.rs", "src/sub/main.rs"));
}

#[test]
fn test_glob_empty_pattern() {
    assert!(simple_glob_match("", ""));
    assert!(!simple_glob_match("", "foo.rs"));
}

#[test]
fn test_glob_trailing_slash_in_prefix() {
    assert!(simple_glob_match("src/mcp/**", "src/mcp/mod.rs"));
}

#[test]
fn test_glob_double_star_middle() {
    assert!(simple_glob_match("src/**/test.rs", "src/test.rs"));
    assert!(simple_glob_match("src/**/test.rs", "src/a/test.rs"));
    assert!(simple_glob_match("src/**/test.rs", "src/a/b/c/test.rs"));
    assert!(!simple_glob_match("src/**/test.rs", "src/a/other.rs"));
}

// === merge_exact_into_fts tests ===

#[test]
fn test_merge_exact_empty_base() {
    let mut fts: Vec<FtsResult> = vec![];
    let exact = vec![hit(1, 0.5), hit(2, 0.3)];
    merge_exact_into_fts(&mut fts, exact);
    assert_eq!(fts.len(), 2);
    assert_eq!(fts[0].chunk_id, 1);
    assert_eq!(fts[1].chunk_id, 2);
}

#[test]
fn test_merge_exact_dedupe_keeps_max_score() {
    let mut fts = vec![hit(1, 0.8), hit(2, 0.3)];
    let exact = vec![
        hit(1, 0.5), // lower score → keep 0.8
        hit(2, 0.9), // higher score → upgrade to 0.9
    ];
    merge_exact_into_fts(&mut fts, exact);
    assert_eq!(fts.len(), 2);
    assert!((score(fts[0].score) - 0.8).abs() < 0.001);
    assert!((score(fts[1].score) - 0.9).abs() < 0.001);
}

#[test]
fn test_merge_exact_adds_new_chunks() {
    let mut fts = vec![hit(1, 0.5)];
    let exact = vec![hit(2, 0.7), hit(3, 0.4)];
    merge_exact_into_fts(&mut fts, exact);
    assert_eq!(fts.len(), 3);
    assert_eq!(fts[1].chunk_id, 2);
    assert_eq!(fts[2].chunk_id, 3);
}

#[test]
fn test_merge_exact_empty_exact() {
    let mut fts = vec![hit(1, 0.5)];
    merge_exact_into_fts(&mut fts, vec![]);
    assert_eq!(fts.len(), 1);
}

#[test]
fn test_merge_exact_multiple_hits_same_chunk() {
    let mut fts = vec![];
    let exact = vec![hit(1, 0.3), hit(1, 0.7)];
    merge_exact_into_fts(&mut fts, exact);
    assert_eq!(fts.len(), 1);
    // First is added (0.3), second dedupes and upgrades to 0.7
    assert!((score(fts[0].score) - 0.7).abs() < 0.001);
}

// === match_line_for_literal tests ===

#[test]
fn test_match_line_for_literal_plain_and_fallback() {
    let content = "first line\nsecond has needle\nthird";
    let matched = match_line_for_literal(content, "needle", None);
    assert!(matched.is_some());
    let (offset, snippet) = matched.unwrap();
    assert_eq!(offset, 1);
    assert!(snippet.contains("needle"));

    let not_found = match_line_for_literal(content, "absent", None);
    assert!(not_found.is_none());
}

#[test]
fn test_match_line_for_literal_regex() {
    let content = "alpha\nbeta123\ngamma";
    let re = LineRegex::new(r"beta\d+").unwrap();
    let matched = match_line_for_literal(content, "beta", Some(&re));
    assert!(matched.is_some());
    let (offset, snippet) = matched.unwrap();
    assert_eq!(offset, 1);
    assert!(snippet.contains("beta123"));
}

// === parse_import_lines tests ===

#[test]
fn test_parse_import_lines_detects_common_forms() {
    let content = "use std::fs;\nimport os\nfrom pkg import thing\n#include <stdio.h>\nconst x = require('x')\nlet y = 1;";
    let imports = parse_import_lines(content, 10);
    assert_eq!(imports.len(), 5);
    assert_eq!(imports[0].kind, "use");
    assert_eq!(imports[0].line, 10);
    assert_eq!(imports[1].kind, "import");
    assert_eq!(imports[1].line, 11);
    assert_eq!(imports[2].kind, "import");
    assert_eq!(imports[2].line, 12);
    assert_eq!(imports[3].kind, "include");
    assert_eq!(imports[3].line, 13);
    assert_eq!(imports[4].kind, "require");
    assert_eq!(imports[4].line, 14);
}
