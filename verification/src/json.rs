//! The JSON documents that other programs hand to this crate.
//!
//! Documents are values of `serde_json`. The verifier does not look inside
//! them: what it knows of a value is its [`JsonNode`], and every function of
//! `serde_json` that this crate calls is given a contract over that tree.
//! Those contracts are believed, not proved.

use vstd::prelude::*;
use serde_json::Value;

verus! {

/// `serde_json::Value`, any JSON value; known only by its `json_node`.
#[verifier::external_type_specification]
#[verifier::external_body]
pub struct ExJsonValue(serde_json::Value);

/// `serde_json::Map`, the members of a JSON object; known only by its
/// `object_members`.
#[verifier::external_type_specification]
#[verifier::external_body]
#[verifier::reject_recursive_types(K)]
#[verifier::reject_recursive_types(V)]
pub struct ExJsonMap<K, V>(serde_json::Map<K, V>);

/// `serde_json::Error`, what the parser fails with.
#[verifier::external_type_specification]
#[verifier::external_body]
pub struct ExJsonError(serde_json::Error);

/// What a JSON number holds.
pub enum JsonNumber {
    /// An integer that is not negative.
    Unsigned(u64),
    /// An integer below zero.
    Negative(i64),
    /// A floating-point number, by its bit pattern.
    Float(u64),
}

/// The tree a JSON value stands for.
pub enum JsonNode {
    Null,
    Bool(bool),
    Number(JsonNumber),
    Text(Seq<char>),
    Array(Seq<JsonNode>),
    /// The members of an object, each a name and its value, in the order in
    /// which the object iterates; no name occurs twice.
    Object(Seq<(Seq<char>, JsonNode)>),
}

/// The tree that a `serde_json::Value` stands for.
pub uninterp spec fn json_node(v: Value) -> JsonNode;

/// The members of a `serde_json::Map`, in the order in which it iterates.
pub uninterp spec fn object_members(m: serde_json::Map<String, Value>) -> Seq<
    (Seq<char>, JsonNode),
>;

/// The tree that `serde_json::from_str` reads from `text`, where it reads one.
pub uninterp spec fn parsed_json(text: Seq<char>) -> Option<JsonNode>;

/// The index of the first member called `name`, or the number of members
/// where there is none.
pub open spec fn member_index(members: Seq<(Seq<char>, JsonNode)>, name: Seq<char>) -> int
    decreases members.len(),
{
    if members.len() == 0 {
        0
    } else if members[0].0 == name {
        0
    } else {
        1 + member_index(members.drop_first(), name)
    }
}

/// The member called `name` of an object; a value that is no object has no
/// members.
pub open spec fn member(node: JsonNode, name: Seq<char>) -> Option<JsonNode> {
    match node {
        JsonNode::Object(members) => {
            let i = member_index(members, name);
            if 0 <= i < members.len() {
                Some(members[i].1)
            } else {
                None
            }
        },
        _ => None,
    }
}

/// The members that a vector of borrowed names and values stands for.
pub open spec fn member_nodes(pairs: Seq<(&String, &Value)>) -> Seq<(Seq<char>, JsonNode)> {
    Seq::new(pairs.len(), |i: int| (pairs[i].0@, json_node(*pairs[i].1)))
}

/// `serde_json::from_str` at `Value`: parses a JSON document. It succeeds
/// exactly where `parsed_json` is defined, and the value then stands for
/// that tree.
#[verifier::external_body]
pub(crate) fn json_from_str(text: &str) -> (r: Result<Value, serde_json::Error>)
    ensures
        match r {
            Ok(v) => parsed_json(text@) == Some(json_node(v)),
            Err(_) => parsed_json(text@) is None,
        },
{
    serde_json::from_str::<Value>(text)
}

/// The message of a `serde_json::Error`, as its `Display` writes it.
#[verifier::external_body]
pub(crate) fn json_error_text(e: &serde_json::Error) -> String {
    e.to_string()
}

/// `Value::get` with a text: the member of that name, where the value is an
/// object that has it.
#[verifier::external_body]
pub(crate) fn json_get<'a>(v: &'a Value, name: &str) -> (r: Option<&'a Value>)
    ensures
        match r {
            Some(found) => member(json_node(*v), name@) == Some(json_node(*found)),
            None => member(json_node(*v), name@) is None,
        },
{
    v.get(name)
}

/// `Value::as_str`: the text, where the value is one.
#[verifier::external_body]
pub(crate) fn json_as_str<'a>(v: &'a Value) -> (r: Option<&'a str>)
    ensures
        match r {
            Some(text) => json_node(*v) == JsonNode::Text(text@),
            None => !(json_node(*v) is Text),
        },
{
    v.as_str()
}

/// `Value::as_object`: the map, where the value is an object.
#[verifier::external_body]
pub(crate) fn json_as_object<'a>(v: &'a Value) -> (r: Option<&'a serde_json::Map<String, Value>>)
    ensures
        match r {
            Some(m) => json_node(*v) == JsonNode::Object(object_members(*m)),
            None => !(json_node(*v) is Object),
        },
{
    v.as_object()
}

/// `Map::iter`: the members, in order, each as a name and its value.
#[verifier::external_body]
pub(crate) fn object_pairs<'a>(m: &'a serde_json::Map<String, Value>) -> (r: Vec<
    (&'a String, &'a Value),
>)
    ensures
        member_nodes(r@) == object_members(*m),
{
    m.iter().collect()
}

} // verus!
