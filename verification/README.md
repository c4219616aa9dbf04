# codesearch tool logic

The decisions behind the codesearch MCP tools, verified with Verus: glob matching of
file paths, recognition of definition chunks, parsing of import lines, snippet
extraction, merging and ranking of full-text hits, low-confidence signaling, and the
answers each tool gives for what the index returned.

- `src/` — the verified library. Contracts speak of strings as sequences of
  characters; relevance scores are held as order keys of their floating-point
  values (see the `scoring` module).
- `tests/` — tests of the library on concrete values.
- `app/` — the JSON shapes of requests and responses (serde), file and metadata
  reading, the float arithmetic of the language boost, and the tool handlers, which
  read the index through the `IndexStores` trait and let the library decide.

The index stores (vector and full-text) are not part of this crate: the tool
functions take what a store returned as plain values.
