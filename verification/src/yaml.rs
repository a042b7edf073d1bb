//! Reading YAML (and so JSON) text into a [`DocValue`] with `serde_yaml`.
//!
//! Parsing is left to `serde_yaml`; nothing here is proved about it. The two
//! names below stand for what it returns, so that callers can state their own
//! results exactly in terms of the parsed document.

use vstd::prelude::*;
use crate::document::DocValue;

verus! {

/// `serde_yaml::Value`: what the parser returns, opaque until it is moved
/// into a [`DocValue`].
#[verifier::external_type_specification]
#[verifier::external_body]
pub struct ExYamlValue(serde_yaml::Value);

/// `serde_yaml::Error`: why the parser rejected a text.
#[verifier::external_type_specification]
#[verifier::external_body]
pub struct ExYamlError(serde_yaml::Error);

/// The document that `serde_yaml::from_str::<serde_yaml::Value>` reads from
/// `text`, or `None` where it rejects the text.
pub uninterp spec fn yaml_document(text: Seq<char>) -> Option<DocValue>;

/// What a `serde_yaml::Value` holds, node for node, as a document.
pub uninterp spec fn yaml_contents(value: serde_yaml::Value) -> DocValue;

/// `serde_yaml::from_str::<serde_yaml::Value>`. The parser is a function of
/// the text alone: the contract only ties its outcome to [`yaml_document`].
#[verifier::external_body]
fn parse_yaml(text: &str) -> (parsed: Result<serde_yaml::Value, serde_yaml::Error>)
    ensures
        match parsed {
            Ok(value) => yaml_document(text@) == Some(yaml_contents(value)),
            Err(_) => yaml_document(text@) is None,
        },
{
    serde_yaml::from_str::<serde_yaml::Value>(text)
}

/// Moves a `serde_yaml::Value` into a [`DocValue`], variant by variant:
/// sequences and mappings keep their order, and a number and a tag are kept
/// as `serde_yaml::Number` and `serde_yaml::value::Tag` display them.
#[verifier::external_body]
fn document_of(value: serde_yaml::Value) -> (doc: DocValue)
    ensures
        doc == yaml_contents(value),
{
    match value {
        serde_yaml::Value::Null => DocValue::Null,
        serde_yaml::Value::Bool(b) => DocValue::Bool(b),
        serde_yaml::Value::Number(n) => DocValue::Number(n.to_string()),
        serde_yaml::Value::String(s) => DocValue::Text(s),
        serde_yaml::Value::Sequence(items) => DocValue::Sequence(items.into_iter().map(document_of).collect()),
        serde_yaml::Value::Mapping(m) => DocValue::Mapping(m.into_iter().map(|(k, v)| (document_of(k), document_of(v))).collect()),
        serde_yaml::Value::Tagged(t) => DocValue::Tagged(t.tag.to_string(), Box::new(document_of(t.value))),
    }
}

/// Parses YAML text into a document; `None` where the text is not valid YAML.
pub fn parse_document(text: &str) -> (doc: Option<DocValue>)
    ensures
        doc == yaml_document(text@),
{
    match parse_yaml(text) {
        Ok(value) => Some(document_of(value)),
        Err(_) => None,
    }
}

} // verus!
