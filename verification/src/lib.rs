//! Codesearch MCP tool logic with verified contracts: glob matching, definition
//! detection, import parsing, snippet extraction, merging and ranking of search hits,
//! and the answer each tool gives for what the index stores returned.

pub mod text;
pub mod glob;
pub mod glob_laws;
pub mod definition;
pub mod scoring;
pub mod imports;
pub mod snippet;
pub mod types;
pub mod sorting;
pub mod format;
pub mod search_tools;
pub mod literal;
pub mod navigation;
pub mod status;
pub mod paths;
pub mod stores;
pub mod semantic;
pub mod metadata;
