//! The model recorded with an index in its `metadata.json`: the model's short name and
//! the dimensions of its vectors, with the defaults used where they are not recorded.
//!
//! The caller reads the file; these functions take its text (`None` when there is no
//! file, or it could not be read).

use vstd::prelude::*;

verus! {

/// What the JSON text of `metadata.json` records: `None` when it is not JSON; else the
/// `model_short_name` field when it is a string, and the `dimensions` field when it is
/// an integer that fits a `u64`.
pub uninterp spec fn metadata_fields(text: Seq<char>) -> Option<(Option<Seq<char>>, Option<u64>)>;

/// The view of an optional string.
pub open spec fn opt_seq(s: Option<String>) -> Option<Seq<char>> {
    match s {
        Some(x) => Some(x@),
        None => None,
    }
}

/// `serde_json::from_str::<serde_json::Value>` on the text, then `get("model_short_name")`
/// read with `as_str` and `get("dimensions")` read with `as_u64`. The contract names the
/// result (`metadata_fields`), a function of the text alone; the JSON grammar is not
/// restated.
#[verifier::external_body]
fn parse_metadata(text: &str) -> (r: Option<(Option<String>, Option<u64>)>)
    ensures
        match (r, metadata_fields(text@)) {
            (None, None) => true,
            (Some((name, dims)), Some((fname, fdims))) => opt_seq(name) == fname && dims == fdims,
            _ => false,
        },
{
    match serde_json::from_str::<serde_json::Value>(text) {
        Ok(json) => Some(
            (
                json.get("model_short_name").and_then(|v| v.as_str()).map(|s| s.to_string()),
                json.get("dimensions").and_then(|v| v.as_u64()),
            ),
        ),
        Err(_) => None,
    }
}

/// The model name and dimensions an index was built with: "minilm-l6" and 384 when there
/// is no metadata file; nothing when its text is not JSON; else the recorded name and
/// dimensions, each defaulting to "minilm-l6" and 384 when not recorded.
pub open spec fn recorded_model_spec(text: Option<Seq<char>>) -> Option<(Seq<char>, u64)> {
    match text {
        None => Some(("minilm-l6"@, 384u64)),
        Some(t) => match metadata_fields(t) {
            None => None,
            Some((name, dims)) => Some(
                (
                    match name {
                        Some(n) => n,
                        None => "minilm-l6"@,
                    },
                    match dims {
                        Some(d) => d,
                        None => 384u64,
                    },
                ),
            ),
        },
    }
}

/// The model name and dimensions an index was built with, from the text of its
/// `metadata.json` (`None` when there is no such file).
pub fn recorded_model(text: Option<&str>) -> (r: Option<(String, u64)>)
    ensures
        match (r, recorded_model_spec(
            match text {
                Some(t) => Some(t@),
                None => None,
            },
        )) {
            (None, None) => true,
            (Some((name, dims)), Some((sname, sdims))) => name@ == sname && dims == sdims,
            _ => false,
        },
{
    proof {
        reveal_strlit("minilm-l6");
    }
    match text {
        None => Some(("minilm-l6".to_owned(), 384)),
        Some(t) => match parse_metadata(t) {
            None => None,
            Some((name, dims)) => Some(
                (
                    match name {
                        Some(n) => n,
                        None => "minilm-l6".to_owned(),
                    },
                    match dims {
                        Some(d) => d,
                        None => 384,
                    },
                ),
            ),
        },
    }
}

/// The model name shown for a discovered database: the recorded name, or "unknown"
/// when there is no metadata, it is not JSON, or it records no name.
pub open spec fn recorded_model_name_spec(text: Option<Seq<char>>) -> Seq<char> {
    match text {
        Some(t) => match metadata_fields(t) {
            Some((Some(n), _)) => n,
            _ => "unknown"@,
        },
        None => "unknown"@,
    }
}

/// The model name shown for a discovered database, from the text of its
/// `metadata.json` (`None` when there is no such file or it cannot be read).
pub fn recorded_model_name(text: Option<&str>) -> (r: String)
    ensures
        r@ == recorded_model_name_spec(
            match text {
                Some(t) => Some(t@),
                None => None,
            },
        ),
{
    match text {
        Some(t) => match parse_metadata(t) {
            Some((Some(n), _)) => n,
            _ => "unknown".to_owned(),
        },
        None => "unknown".to_owned(),
    }
}

/// The vector dimensions the server starts with: the recorded ones, or 384 when there
/// is no metadata, it is not JSON, or it records none.
pub open spec fn recorded_dimensions_spec(text: Option<Seq<char>>) -> u64 {
    match text {
        Some(t) => match metadata_fields(t) {
            Some((_, Some(d))) => d,
            _ => 384,
        },
        None => 384,
    }
}

/// The vector dimensions the server starts with, from the text of `metadata.json`
/// (`None` when there is no such file or it cannot be read).
pub fn recorded_dimensions(text: Option<&str>) -> (r: u64)
    ensures
        r == recorded_dimensions_spec(
            match text {
                Some(t) => Some(t@),
                None => None,
            },
        ),
{
    match text {
        Some(t) => match parse_metadata(t) {
            Some((_, Some(d))) => d,
            _ => 384,
        },
        None => 384,
    }
}

} // verus!
