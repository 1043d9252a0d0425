//! Parsed JSON documents and what they hold.

use serde_json::Value as JsonValue;
use vstd::prelude::*;

verus! {

/// A parsed JSON document: opaque, opened level by level with [`open_node`].
#[verifier::external_type_specification]
#[verifier::external_body]
pub struct ExJsonValue(JsonValue);

/// What a JSON document holds. A number holds its readings as an unsigned integer,
/// as a signed one and as the bit pattern of a double; an object holds its members
/// in the order in which the document hands them out.
pub enum JsonTree {
    Null,
    Bool(bool),
    Number { unsigned: Option<u64>, signed: Option<i64>, double: Option<u64> },
    Text(Seq<char>),
    Array(Seq<JsonTree>),
    Object(Seq<(Seq<char>, JsonTree)>),
}

/// What a JSON document holds.
pub uninterp spec fn json_tree(value: JsonValue) -> JsonTree;

/// The top level of a JSON document.
pub enum JsonNode<'a> {
    Null,
    Bool(bool),
    Number { unsigned: Option<u64>, signed: Option<i64>, double: Option<u64> },
    Text(&'a String),
    Array(&'a Vec<JsonValue>),
    Object(Vec<(&'a String, &'a JsonValue)>),
}

/// What the document with this top level holds.
pub open spec fn node_tree(node: JsonNode<'_>) -> JsonTree {
    match node {
        JsonNode::Null => JsonTree::Null,
        JsonNode::Bool(b) => JsonTree::Bool(b),
        JsonNode::Number { unsigned, signed, double } => JsonTree::Number { unsigned, signed, double },
        JsonNode::Text(text) => JsonTree::Text(text@),
        JsonNode::Array(items) => JsonTree::Array(
            Seq::new(items@.len(), |i: int| json_tree(items@[i])),
        ),
        JsonNode::Object(members) => JsonTree::Object(
            Seq::new(members@.len(), |i: int| (members@[i].0@, json_tree(*members@[i].1))),
        ),
    }
}

/// Tells the variants of `serde_json::Value` apart and hands out their fields: a
/// number by `as_u64`, `as_i64` and `as_f64`, an object by its `iter`. The document
/// holds what its top level and the documents below it hold, and a number that reads
/// as a signed integer of at least 0 reads as the same unsigned one.
#[verifier::external_body]
pub(crate) fn open_node(value: &JsonValue) -> (node: JsonNode<'_>)
    ensures
        json_tree(*value) == node_tree(node),
        match node {
            JsonNode::Number { unsigned, signed: Some(n), .. } => n >= 0 ==> unsigned == Some(
                n as u64,
            ),
            _ => true,
        },
{
    match value {
        JsonValue::Null => JsonNode::Null,
        JsonValue::Bool(b) => JsonNode::Bool(*b),
        JsonValue::Number(n) => {
            let double = n.as_f64().map(|number| number.to_bits());
            JsonNode::Number { unsigned: n.as_u64(), signed: n.as_i64(), double }
        },
        JsonValue::String(text) => JsonNode::Text(text),
        JsonValue::Array(items) => JsonNode::Array(items),
        JsonValue::Object(members) => JsonNode::Object(members.iter().collect()),
    }
}

} // verus!
