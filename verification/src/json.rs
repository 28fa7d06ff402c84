//! One level of a JSON document, as `serde_json` reads it.
//!
//! A document is read one level at a time: its top-level value is described
//! by a [`JsonNode`] whose array elements and object members are kept as
//! their own JSON text, to be read in turn.
use vstd::prelude::*;
use crate::text::{chars_of, string_of};
use serde_json::Value;

verus! {

/// The top level of a JSON value; nested values are kept as JSON text.
pub enum JsonNode {
    Null,
    Bool(bool),
    /// A number, in its JSON rendering.
    Number(String),
    Str(String),
    /// The elements, each as JSON text.
    Array(Vec<String>),
    /// The members in the order `serde_json` keeps them: key and JSON text of the value.
    Object(Vec<(String, String)>),
}

/// The mathematical value of a [`JsonNode`].
pub enum JsonNodeView {
    Null,
    Bool(bool),
    Number(Seq<char>),
    Str(Seq<char>),
    Array(Seq<Seq<char>>),
    Object(Seq<(Seq<char>, Seq<char>)>),
}

impl View for JsonNode {
    type V = JsonNodeView;

    open spec fn view(&self) -> JsonNodeView {
        match self {
            JsonNode::Null => JsonNodeView::Null,
            JsonNode::Bool(b) => JsonNodeView::Bool(*b),
            JsonNode::Number(n) => JsonNodeView::Number(n@),
            JsonNode::Str(s) => JsonNodeView::Str(s@),
            JsonNode::Array(a) => JsonNodeView::Array(a@.map_values(|s: String| s@)),
            JsonNode::Object(o) => JsonNodeView::Object(
                o@.map_values(|p: (String, String)| (p.0@, p.1@)),
            ),
        }
    }
}

/// What `serde_json::from_str::<serde_json::Value>` makes of `text`: the top
/// level of the value (nested values as their compact JSON text), or the
/// rendering of the error.
pub uninterp spec fn json_node(text: Seq<char>) -> Result<JsonNodeView, Seq<char>>;

pub open spec fn node_result_view(r: Result<JsonNode, String>) -> Result<JsonNodeView, Seq<char>> {
    match r {
        Ok(n) => Ok(n@),
        Err(e) => Err(e@),
    }
}

/// Reads `text` with `serde_json::from_str` into a `serde_json::Value` and
/// describes its top level: arrays and objects by the compact JSON text of
/// their elements (`Value`'s `Display`), numbers by their rendering, errors by
/// their message. The contract claims only that the result is
/// [`json_node`] of the text, a function of the text alone.
#[verifier::external_body]
pub(crate) fn parse_json_node(text: &str) -> (r: Result<JsonNode, String>)
    ensures
        node_result_view(r) == json_node(text@),
{
    match serde_json::from_str::<Value>(text) {
        Err(e) => Err(e.to_string()),
        Ok(Value::Null) => Ok(JsonNode::Null),
        Ok(Value::Bool(b)) => Ok(JsonNode::Bool(b)),
        Ok(Value::Number(n)) => Ok(JsonNode::Number(n.to_string())),
        Ok(Value::String(s)) => Ok(JsonNode::Str(s)),
        Ok(Value::Array(a)) => Ok(JsonNode::Array(a.iter().map(Value::to_string).collect())),
        Ok(Value::Object(m)) => Ok(JsonNode::Object(m.into_iter().map(|(k, v)| (k, v.to_string())).collect())),
    }
}

/// The index of the first member of `members` named `key`.
pub open spec fn first_member(members: Seq<(Seq<char>, Seq<char>)>, key: Seq<char>) -> Option<int>
    decreases members.len(),
{
    if members.len() == 0 {
        None
    } else if members[0].0 == key {
        Some(0)
    } else {
        match first_member(members.drop_first(), key) {
            Some(i) => Some(i + 1),
            None => None,
        }
    }
}

/// `Value::get(key)`: the JSON text of the member `key` of an object.
pub open spec fn member(node: JsonNodeView, key: Seq<char>) -> Option<Seq<char>> {
    match node {
        JsonNodeView::Object(members) => match first_member(members, key) {
            Some(i) => Some(members[i].1),
            None => None,
        },
        _ => None,
    }
}

/// `v.as_str()` of the JSON text `text`.
pub open spec fn text_as_str(text: Seq<char>) -> Option<Seq<char>> {
    match json_node(text) {
        Ok(JsonNodeView::Str(s)) => Some(s),
        _ => None,
    }
}

/// `v.as_array()` of the JSON text `text`: the element texts.
pub open spec fn text_as_array(text: Seq<char>) -> Option<Seq<Seq<char>>> {
    match json_node(text) {
        Ok(JsonNodeView::Array(a)) => Some(a),
        _ => None,
    }
}

/// `v.as_object()` of the JSON text `text`: the members.
pub open spec fn text_as_object(text: Seq<char>) -> Option<Seq<(Seq<char>, Seq<char>)>> {
    match json_node(text) {
        Ok(JsonNodeView::Object(o)) => Some(o),
        _ => None,
    }
}

/// `v.get(key).and_then(|x| x.as_str())` for the JSON text `text`.
pub open spec fn str_member(text: Seq<char>, key: Seq<char>) -> Option<Seq<char>> {
    match json_node(text) {
        Ok(node) => match member(node, key) {
            Some(child) => text_as_str(child),
            None => None,
        },
        Err(_) => None,
    }
}

/// `v.get(key).and_then(|x| x.as_array())` for a read node.
pub open spec fn array_member(node: JsonNodeView, key: Seq<char>) -> Option<Seq<Seq<char>>> {
    match member(node, key) {
        Some(child) => text_as_array(child),
        None => None,
    }
}

/// The JSON text of the member `key` of an object node.
pub fn member_exec(node: &JsonNode, key: &str) -> (r: Option<String>)
    ensures
        match r {
            Some(s) => member(node@, key@) == Some(s@),
            None => member(node@, key@) is None,
        },
{
    match node {
        JsonNode::Object(members) => {
            let ghost mv = members@.map_values(|p: (String, String)| (p.0@, p.1@));
            let key_string = string_of(&chars_of(key));
            let mut i: usize = 0;
            proof {
                assert(mv.skip(0) =~= mv);
                assert(node@ == JsonNodeView::Object(mv));
            }
            while i < members.len()
                invariant
                    i <= members.len(),
                    mv == members@.map_values(|p: (String, String)| (p.0@, p.1@)),
                    node@ == JsonNodeView::Object(mv),
                    key_string@ == key@,
                    first_member(mv, key@) == match first_member(mv.skip(i as int), key@) {
                        Some(j) => Some(j + i),
                        None => None,
                    },
                decreases members.len() - i,
            {
                proof {
                    assert(mv.skip(i as int)[0] == mv[i as int]);
                    assert(mv.skip(i as int).drop_first() =~= mv.skip(i + 1));
                }
                if members[i].0 == key_string {
                    proof {
                        assert(mv[i as int] == (members@[i as int].0@, members@[i as int].1@));
                        assert(first_member(mv.skip(i as int), key@) == Some(0int));
                    }
                    return Some(members[i].1.clone());
                }
                i = i + 1;
            }
            None
        },
        _ => None,
    }
}

/// `as_str()` of the JSON text `text`.
pub fn as_str_exec(text: &str) -> (r: Option<String>)
    ensures
        match r {
            Some(s) => text_as_str(text@) == Some(s@),
            None => text_as_str(text@) is None,
        },
{
    match parse_json_node(text) {
        Ok(JsonNode::Str(s)) => Some(s),
        _ => None,
    }
}

/// `as_array()` of the JSON text `text`.
pub fn as_array_exec(text: &str) -> (r: Option<Vec<String>>)
    ensures
        match r {
            Some(a) => text_as_array(text@) == Some(a@.map_values(|s: String| s@)),
            None => text_as_array(text@) is None,
        },
{
    match parse_json_node(text) {
        Ok(JsonNode::Array(a)) => Some(a),
        _ => None,
    }
}

/// `as_object()` of the JSON text `text`.
pub fn as_object_exec(text: &str) -> (r: Option<Vec<(String, String)>>)
    ensures
        match r {
            Some(o) => text_as_object(text@) == Some(
                o@.map_values(|p: (String, String)| (p.0@, p.1@)),
            ),
            None => text_as_object(text@) is None,
        },
{
    match parse_json_node(text) {
        Ok(JsonNode::Object(o)) => Some(o),
        _ => None,
    }
}

/// `get(key).and_then(|x| x.as_str())` of the JSON text `text`.
pub fn str_member_exec(text: &str, key: &str) -> (r: Option<String>)
    ensures
        match r {
            Some(s) => str_member(text@, key@) == Some(s@),
            None => str_member(text@, key@) is None,
        },
{
    match parse_json_node(text) {
        Ok(node) => match member_exec(&node, key) {
            Some(child) => as_str_exec(child.as_str()),
            None => None,
        },
        Err(_) => None,
    }
}

/// `get(key).and_then(|x| x.as_array())` of a read node.
pub fn array_member_exec(node: &JsonNode, key: &str) -> (r: Option<Vec<String>>)
    ensures
        match r {
            Some(a) => array_member(node@, key@) == Some(a@.map_values(|s: String| s@)),
            None => array_member(node@, key@) is None,
        },
{
    match member_exec(node, key) {
        Some(child) => as_array_exec(child.as_str()),
        None => None,
    }
}

} // verus!
