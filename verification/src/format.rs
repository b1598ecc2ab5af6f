//! The boundary to the serde text formats. Parsing and writing are done by
//! the outside crates; everything either side of the calls works on the
//! library's own `Node` tree, and all decoding logic past this boundary is
//! verified.

use vstd::prelude::*;
use serde_json::Value as SerdeValue;
use crate::node::{canonical, depth_le, node_view, JVal, Node};

verus! {

/// serde_json's document tree, opaque to the verifier; values of it only
/// pass through the conversion helpers below.
#[verifier::external_type_specification]
#[verifier::external_body]
pub struct ExSerdeValue(SerdeValue);

/// What parsing a text as JSON yields: the document's model, or nothing when
/// the text is not well-formed JSON. The result depends on the text alone.
pub uninterp spec fn json_of(s: Seq<char>) -> Option<JVal>;

/// What parsing a text as YAML yields, for documents whose shape JSON can
/// also hold (string keys, no format-specific node kinds); anything else
/// yields nothing. The result depends on the text alone.
pub uninterp spec fn yaml_of(s: Seq<char>) -> Option<JVal>;

/// Relies on the variant accessors of serde_json::Value: rebuilds the parsed
/// tree as the library's own `Node`, dropping number payloads.
#[verifier::external_body]
fn from_serde(v: &SerdeValue) -> Node {
    match v {
        SerdeValue::Null => Node::Null,
        SerdeValue::Bool(b) => Node::Bool(*b),
        SerdeValue::Number(_) => Node::Num,
        SerdeValue::String(s) => Node::Str(s.clone()),
        SerdeValue::Array(a) => Node::Arr(a.iter().map(from_serde).collect()),
        SerdeValue::Object(m) => Node::Obj(
            m.iter().map(|p| (p.0.clone(), from_serde(p.1))).collect(),
        ),
    }
}

/// Rebuilds a `Node` as serde_json's tree; a number node becomes zero, the
/// one number the tree can still name.
#[verifier::external_body]
fn to_serde(n: &Node) -> SerdeValue {
    match n {
        Node::Null => SerdeValue::Null,
        Node::Bool(b) => SerdeValue::Bool(*b),
        Node::Num => SerdeValue::Number(serde_json::Number::from(0u8)),
        Node::Str(s) => SerdeValue::String(s.clone()),
        Node::Arr(items) => SerdeValue::Array(items.iter().map(to_serde).collect()),
        Node::Obj(fields) => SerdeValue::Object(
            fields.iter().map(|p| (p.0.clone(), to_serde(&p.1))).collect(),
        ),
    }
}

/// Relies on serde_json::from_str building a serde_json::Value: parses the
/// text as JSON. The outcome is a function of the text alone.
#[verifier::external_body]
pub fn parse_json(s: &str) -> (r: Option<Node>)
    ensures
        match r {
            Some(n) => json_of(s@) == Some(node_view(n)),
            None => json_of(s@) is None,
        },
{
    serde_json::from_str::<SerdeValue>(s).ok().map(|v| from_serde(&v))
}

/// Relies on serde_yaml::from_str building a serde_json::Value: parses the
/// text as YAML, rejecting documents whose shape JSON cannot hold. The
/// outcome is a function of the text alone.
#[verifier::external_body]
pub fn parse_yaml(s: &str) -> (r: Option<Node>)
    ensures
        match r {
            Some(n) => yaml_of(s@) == Some(node_view(n)),
            None => yaml_of(s@) is None,
        },
{
    serde_yaml::from_str::<SerdeValue>(s).ok().map(|v| from_serde(&v))
}

/// Relies on serde_json::to_string on a serde_json::Value, which always
/// succeeds, opens an object's text with `{`, and emits text that parses
/// back to the value it was given: its object maps iterate sorted by key, so
/// a canonical node comes back as the same node. The reader enforces a
/// recursion limit of 128 nested containers while the writer has none, so
/// the round trip is only promised for trees of bounded depth; the bound
/// here stays well under the reader's limit.
#[verifier::external_body]
pub fn node_to_json(n: &Node) -> (r: String)
    requires
        canonical(node_view(*n)),
        depth_le(node_view(*n), 64),
    ensures
        json_of(r@) == Some(node_view(*n)),
        node_view(*n) is Obj ==> r@.len() >= 1 && r@[0] == '{',
{
    match serde_json::to_string(&to_serde(n)) {
        Ok(s) => s,
        Err(_) => String::new(),
    }
}

} // verus!
