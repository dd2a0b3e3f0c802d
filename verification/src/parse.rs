//! Trusted bridges to the outside document parsers: YAML for template files,
//! JSON for probe response bodies. Each parser's result is converted into the
//! library's own document tree, one variant arm at a time.

use vstd::prelude::*;
use crate::document::{DocSpec, DocValue};

verus! {

#[verifier::external_type_specification]
#[verifier::external_body]
pub struct ExYamlValue(serde_yaml::Value);

#[verifier::external_type_specification]
#[verifier::external_body]
pub struct ExJsonValue(serde_json::Value);

/// What serde_yaml parses the text into, as the library's document tree:
/// a pure function of the text, `None` when the text is malformed.
pub uninterp spec fn yaml_doc_of(s: Seq<char>) -> Option<DocSpec>;

/// What serde_json parses the text into, as the library's document tree:
/// a pure function of the text, `None` when the text is not valid JSON.
pub uninterp spec fn json_doc_of(s: Seq<char>) -> Option<DocSpec>;

/// Relies on serde_yaml's `Value`: picks a mapping key's string, one
/// variant arm, moving the field only; a non-string key becomes `None`.
#[verifier::external_body]
fn yaml_key(k: serde_yaml::Value) -> (r: Option<String>) {
    match k {
        serde_yaml::Value::String(s) => Some(s),
        _ => None,
    }
}

/// Relies on serde_yaml's `Value`: converts the parsed node into the
/// library's tree, one variant arm each, moving fields only. Numbers
/// outside `i64` and tagged or null scalars become `Other`.
#[verifier::external_body]
fn yaml_to_doc(v: serde_yaml::Value) -> (r: DocValue) {
    match v {
        serde_yaml::Value::String(s) => DocValue::Text(s),
        serde_yaml::Value::Bool(b) => DocValue::Bool(b),
        serde_yaml::Value::Number(n) => n.as_i64().map_or(DocValue::Other, DocValue::Int),
        serde_yaml::Value::Sequence(xs) => DocValue::List(xs.into_iter().map(yaml_to_doc).collect()),
        serde_yaml::Value::Mapping(m) => DocValue::Entries(
            m.into_iter().map(|kv| (yaml_key(kv.0), yaml_to_doc(kv.1))).collect(),
        ),
        _ => DocValue::Other,
    }
}

/// Relies on serde_json's `Value`: converts the parsed node into the
/// library's tree, one variant arm each, moving fields only. Numbers
/// outside `i64` and null become `Other`.
#[verifier::external_body]
fn json_to_doc(v: serde_json::Value) -> (r: DocValue) {
    match v {
        serde_json::Value::String(s) => DocValue::Text(s),
        serde_json::Value::Bool(b) => DocValue::Bool(b),
        serde_json::Value::Number(n) => n.as_i64().map_or(DocValue::Other, DocValue::Int),
        serde_json::Value::Array(xs) => DocValue::List(xs.into_iter().map(json_to_doc).collect()),
        serde_json::Value::Object(m) => DocValue::Entries(
            m.into_iter().map(|kv| (Some(kv.0), json_to_doc(kv.1))).collect(),
        ),
        serde_json::Value::Null => DocValue::Other,
    }
}

/// Relies on serde_yaml::from_str: parsing is deterministic in the text, and
/// succeeds exactly on well-formed YAML documents.
#[verifier::external_body]
pub fn parse_yaml_doc(s: &str) -> (r: Option<DocValue>)
    ensures
        match r {
            Some(doc) => yaml_doc_of(s@) == Some(doc@),
            None => yaml_doc_of(s@) == None::<DocSpec>,
        },
{
    serde_yaml::from_str::<serde_yaml::Value>(s).ok().map(yaml_to_doc)
}

/// Relies on serde_json::from_str: parsing is deterministic in the text, and
/// succeeds exactly on valid JSON documents.
#[verifier::external_body]
pub fn parse_json_doc(s: &str) -> (r: Option<DocValue>)
    ensures
        match r {
            Some(doc) => json_doc_of(s@) == Some(doc@),
            None => json_doc_of(s@) == None::<DocSpec>,
        },
{
    serde_json::from_str::<serde_json::Value>(s).ok().map(json_to_doc)
}

} // verus!
