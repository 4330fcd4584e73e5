//! Trusted boundary to the YAML library: parsing manifest text into the
//! document tree, and serializing a document tree back to text.
//!
//! Everything the rest of the crate knows about these two operations is
//! stated here: parsing and serialization are functions of their input
//! alone, named by `yaml_doc_of` and `yaml_text_of`.

use vstd::prelude::*;
use crate::doc::{Doc, DocV};
use crate::errors::EngineError;
use serde_yaml::Value;

verus! {

#[verifier::external_type_specification]
#[verifier::external_body]
pub struct ExValue(Value);

/// The document that the YAML library parses `s` into, or `None` when
/// `s` is not well-formed YAML (or exceeds the parser's limits).
pub uninterp spec fn yaml_doc_of(s: Seq<char>) -> Option<DocV>;

/// The text that the YAML library serializes `d` into, or `None` when
/// the serializer refuses the document.
pub uninterp spec fn yaml_text_of(d: DocV) -> Option<Seq<char>>;

/// Relies on `serde_yaml::from_str`: parsing is a function of the text
/// alone. The parsed tree of mappings, sequences and scalars is carried
/// over node for node: numbers keep their decimal text, tags are dropped.
#[verifier::external_body]
pub fn parse_yaml(s: &str) -> (r: Result<Doc, EngineError>)
    ensures
        match r {
            Ok(d) => yaml_doc_of(s@) == Some(d@),
            Err(e) => yaml_doc_of(s@) is None && e is Parse,
        },
{
    match serde_yaml::from_str::<Value>(s) {
        Ok(v) => Ok(doc_of_value(v)),
        Err(_) => Err(EngineError::Parse),
    }
}

/// Converts one parsed YAML node into the document tree, variant by
/// variant; part of the [`parse_yaml`] boundary and called nowhere else.
#[verifier::external_body]
fn doc_of_value(v: Value) -> Doc {
    match v {
        Value::Null => Doc::Null,
        Value::Bool(b) => Doc::Bool(b),
        Value::Number(n) => Doc::Num(n.to_string()),
        Value::String(s) => Doc::Str(s),
        Value::Sequence(xs) => Doc::List(xs.into_iter().map(doc_of_value).collect()),
        Value::Mapping(m) => Doc::Dict(
            m.into_iter().map(|(k, w)| (doc_of_value(k), doc_of_value(w))).collect(),
        ),
        Value::Tagged(t) => doc_of_value(t.value),
    }
}

/// Relies on `serde_yaml::to_string`: serialization is a function of the
/// document alone.
#[verifier::external_body]
pub fn emit_yaml(d: &Doc) -> (r: Result<String, EngineError>)
    ensures
        match r {
            Ok(t) => yaml_text_of(d@) == Some(t@),
            Err(e) => yaml_text_of(d@) is None && e is Emit,
        },
{
    match serde_yaml::to_string(&value_of_doc(d)) {
        Ok(t) => Ok(t),
        Err(_) => Err(EngineError::Emit),
    }
}

/// Converts one document node back to a YAML node, variant by variant;
/// part of the [`emit_yaml`] boundary and called nowhere else.
#[verifier::external_body]
fn value_of_doc(d: &Doc) -> Value {
    match d {
        Doc::Null => Value::Null,
        Doc::Bool(b) => Value::Bool(*b),
        Doc::Num(s) => match s.parse::<serde_yaml::Number>() {
            Ok(n) => Value::Number(n),
            Err(_) => Value::String(s.clone()),
        },
        Doc::Str(s) => Value::String(s.clone()),
        Doc::List(xs) => Value::Sequence(xs.iter().map(value_of_doc).collect()),
        Doc::Dict(es) => Value::Mapping(
            es.iter().map(|(k, w)| (value_of_doc(k), value_of_doc(w))).collect(),
        ),
    }
}

} // verus!
