//! Trusted boundary to `serde_json`.
//!
//! The extractor's structured output is parsed by `serde_json`; this
//! module wraps the few calls the crate makes. Each wrapper goes from
//! text to plain values, and its result — a function of the text alone —
//! is given a name, so that the callers' contracts can tie what they
//! return to the input text.

use crate::formats::RawFormat;
use vstd::prelude::*;

verus! {

#[verifier::external_type_specification]
#[verifier::external_body]
pub struct ExValue(serde_json::Value);

/// The pieces of the extractor's metadata document that this crate
/// reads: the title, the thumbnail URL, and the raw format array, every
/// field `None` when absent or of another type.
pub struct DocParts {
    pub title: Option<String>,
    pub thumbnail: Option<String>,
    pub formats: Option<Vec<RawFormat>>,
}

/// What decoding the metadata document yields: a function of the text
/// alone, `None` exactly when the text is not valid JSON, named so that
/// contracts can speak of it.
pub uninterp spec fn doc_of(s: Seq<char>) -> Option<DocParts>;

/// Relies on `serde_json::from_str::<Value>`, `Value`'s `Index`,
/// `Value::as_str`, `Value::as_array` and `Value::as_f64`: parses the
/// document and copies out the fields this crate reads — absent fields
/// and fields of another type become `None`, bitrates are truncated to
/// whole kbit/s — `None` overall when the text is not valid JSON.
#[verifier::external_body]
pub fn decode_document(s: &str) -> (r: Option<DocParts>)
    ensures
        r == doc_of(s@),
{
    let v: serde_json::Value = serde_json::from_str(s).ok()?;
    let g = |f: &serde_json::Value, k| f[k].as_str().map(str::to_string);
    let fmt = |f: &serde_json::Value| RawFormat {
        format_id: g(f, "format_id"), vcodec: g(f, "vcodec"), acodec: g(f, "acodec"),
        resolution: g(f, "resolution"), format_note: g(f, "format_note"),
        abr_kbps: f["abr"].as_f64().map(|x| x as i64),
        tbr_kbps: f["tbr"].as_f64().map(|x| x as i64),
    };
    Some(DocParts {
        title: g(&v, "title"), thumbnail: g(&v, "thumbnail"),
        formats: v["formats"].as_array().map(|a| a.iter().map(fmt).collect()),
    })
}

/// The `tag_name` string of a release document: a function of the text
/// alone, named here so that contracts can speak of it.
pub uninterp spec fn release_tag_of(s: Seq<char>) -> Option<String>;

/// Relies on `serde_json::from_str::<Value>`, `Value::get` and
/// `Value::as_str`: the release document's `tag_name` string, `None`
/// when the text is not JSON or carries no such string.
#[verifier::external_body]
pub fn decode_release_tag(s: &str) -> (r: Option<String>)
    ensures
        r == release_tag_of(s@),
{
    let v: serde_json::Value = match serde_json::from_str(s) {
        Ok(v) => v,
        Err(_) => return None,
    };
    v.get("tag_name").and_then(|t| t.as_str()).map(|t| t.to_string())
}

} // verus!
