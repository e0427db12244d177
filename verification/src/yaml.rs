//! The YAML documents this crate reads and rewrites.
//!
//! Documents are values of `serde_yaml`. The verifier does not look inside
//! them: what it knows of a value is its [`Node`], the tree the value stands
//! for, and every function of `serde_yaml` that this crate calls is given a
//! contract over that tree. Those contracts are believed, not proved.

use vstd::prelude::*;
use serde_yaml::{Mapping, Number, Value};

verus! {

/// `serde_yaml::Value`, any YAML value; known only by its `value_node`.
#[verifier::external_type_specification]
#[verifier::external_body]
pub struct ExValue(serde_yaml::Value);

/// `serde_yaml::Mapping`, a YAML mapping; known only by its
/// `mapping_entries`.
#[verifier::external_type_specification]
#[verifier::external_body]
pub struct ExMapping(serde_yaml::Mapping);

/// `serde_yaml::Number`, a YAML number; known only by its `number_node`.
#[verifier::external_type_specification]
#[verifier::external_body]
pub struct ExNumber(serde_yaml::Number);

/// `serde_yaml::Error`, what the parser and the writer fail with.
#[verifier::external_type_specification]
#[verifier::external_body]
pub struct ExYamlError(serde_yaml::Error);

/// What a YAML number holds.
pub enum NumberNode {
    /// An integer that is not negative.
    Unsigned(u64),
    /// An integer below zero.
    Negative(i64),
    /// A floating-point number, by its bit pattern.
    Float(u64),
}

/// The tree a YAML value stands for.
pub enum Node {
    Null,
    Bool(bool),
    Number(NumberNode),
    Text(Seq<char>),
    Sequence(Seq<Node>),
    /// The entries of a mapping, each a key and its value, in document order.
    Mapping(Seq<(Node, Node)>),
    /// A value under a `!tag`.
    Tagged(Seq<char>, Box<Node>),
}

/// The tree that a `serde_yaml::Value` stands for.
pub uninterp spec fn value_node(v: Value) -> Node;

/// The entries of a `serde_yaml::Mapping`, in the order in which it iterates.
pub uninterp spec fn mapping_entries(m: Mapping) -> Seq<(Node, Node)>;

/// What a `serde_yaml::Number` holds.
pub uninterp spec fn number_node(n: Number) -> NumberNode;

/// The tree that `serde_yaml::from_str` reads from `text`, where it reads one.
pub uninterp spec fn parsed_yaml(text: Seq<char>) -> Option<Node>;

/// The text that `serde_yaml::to_string` writes for a tree, where it writes one.
pub uninterp spec fn emitted_yaml(node: Node) -> Option<Seq<char>>;

/// The trees of a vector of values.
pub open spec fn nodes(items: Seq<Value>) -> Seq<Node> {
    Seq::new(items.len(), |i: int| value_node(items[i]))
}

/// The entries that a vector of borrowed keys and values stands for.
pub open spec fn pair_nodes(pairs: Seq<(&Value, &Value)>) -> Seq<(Node, Node)> {
    Seq::new(pairs.len(), |i: int| (value_node(*pairs[i].0), value_node(*pairs[i].1)))
}

/// A value seen one level deep: which kind it is, and what it holds.
pub enum Shape<'a> {
    Text(&'a String),
    Number(&'a Number),
    Sequence(&'a Vec<Value>),
    Mapping(&'a Mapping),
    /// Null, a boolean or a tagged value.
    Other,
}

/// `shape` is the one-level view of a value whose tree is `node`.
pub open spec fn shape_of(shape: Shape<'_>, node: Node) -> bool {
    match shape {
        Shape::Text(s) => node == Node::Text(s@),
        Shape::Number(n) => node == Node::Number(number_node(*n)),
        Shape::Sequence(items) => node == Node::Sequence(nodes(items@)),
        Shape::Mapping(m) => node == Node::Mapping(mapping_entries(*m)),
        Shape::Other => node is Null || node is Bool || node is Tagged,
    }
}

/// `serde_yaml::from_str` at `Value`: parses a YAML document. It succeeds
/// exactly where `parsed_yaml` is defined, and the value then stands for
/// that tree.
#[verifier::external_body]
pub(crate) fn yaml_from_str(text: &str) -> (r: Result<Value, serde_yaml::Error>)
    ensures
        match r {
            Ok(v) => parsed_yaml(text@) == Some(value_node(v)),
            Err(_) => parsed_yaml(text@) is None,
        },
{
    serde_yaml::from_str::<Value>(text)
}

/// `serde_yaml::to_string` at `Value`: writes a value as YAML text. It
/// succeeds exactly where `emitted_yaml` is defined on the value's tree, and
/// gives that text.
#[verifier::external_body]
pub(crate) fn yaml_to_string(v: &Value) -> (r: Result<String, serde_yaml::Error>)
    ensures
        match r {
            Ok(s) => emitted_yaml(value_node(*v)) == Some(s@),
            Err(_) => emitted_yaml(value_node(*v)) is None,
        },
{
    serde_yaml::to_string(v)
}

/// The message of a `serde_yaml::Error`, as its `Display` writes it.
#[verifier::external_body]
pub(crate) fn yaml_error_text(e: &serde_yaml::Error) -> String {
    e.to_string()
}

/// Tells the variants of `serde_yaml::Value` apart and hands out what the
/// variant holds. Tags are not looked through.
#[verifier::external_body]
pub(crate) fn shape<'a>(v: &'a Value) -> (r: Shape<'a>)
    ensures
        shape_of(r, value_node(*v)),
{
    match v {
        Value::String(s) => Shape::Text(s),
        Value::Number(n) => Shape::Number(n),
        Value::Sequence(items) => Shape::Sequence(items),
        Value::Mapping(m) => Shape::Mapping(m),
        Value::Null => Shape::Other,
        Value::Bool(_) => Shape::Other,
        Value::Tagged(_) => Shape::Other,
    }
}

/// `Number::as_u64`: the integer, where the number is one that is not
/// negative.
#[verifier::external_body]
pub(crate) fn number_as_u64(n: &Number) -> (r: Option<u64>)
    ensures
        r == match number_node(*n) {
            NumberNode::Unsigned(u) => Some(u),
            _ => None,
        },
{
    n.as_u64()
}

/// `Mapping::iter`: the entries, in order, each as a key and its value.
#[verifier::external_body]
pub(crate) fn mapping_pairs<'a>(m: &'a Mapping) -> (r: Vec<(&'a Value, &'a Value)>)
    ensures
        pair_nodes(r@) == mapping_entries(*m),
{
    m.iter().collect()
}

/// `Mapping::values_mut`, to overwrite the value of entry `i`: the key and
/// all other entries stay as they are.
#[verifier::external_body]
pub(crate) fn mapping_set_value(m: &mut Mapping, i: usize, v: Value)
    requires
        i < mapping_entries(*old(m)).len(),
    ensures
        mapping_entries(*final(m)) == mapping_entries(*old(m)).update(
            i as int,
            (mapping_entries(*old(m))[i as int].0, value_node(v)),
        ),
{
    *m.values_mut().nth(i).unwrap() = v;
}

/// `Mapping::clone`: a mapping with the same entries.
#[verifier::external_body]
pub(crate) fn mapping_clone(m: &Mapping) -> (r: Mapping)
    ensures
        mapping_entries(r) == mapping_entries(*m),
{
    m.clone()
}

/// `Value::clone`: a value that stands for the same tree.
#[verifier::external_body]
pub(crate) fn value_clone(v: &Value) -> (r: Value)
    ensures
        value_node(r) == value_node(*v),
{
    v.clone()
}

/// `Value::String`: the value that holds the text `s`.
#[verifier::external_body]
pub(crate) fn value_text(s: String) -> (r: Value)
    ensures
        value_node(r) == Node::Text(s@),
{
    Value::String(s)
}

/// `Value::Number` of `Number::from(n)`: the value that holds the integer `n`.
#[verifier::external_body]
pub(crate) fn value_unsigned(n: u64) -> (r: Value)
    ensures
        value_node(r) == Node::Number(NumberNode::Unsigned(n)),
{
    Value::Number(Number::from(n))
}

/// `Value::Sequence`: the value that holds `items`, in order.
#[verifier::external_body]
pub(crate) fn value_sequence(items: Vec<Value>) -> (r: Value)
    ensures
        value_node(r) == Node::Sequence(nodes(items@)),
{
    Value::Sequence(items)
}

/// `Value::Mapping`: the value that holds the mapping `m`.
#[verifier::external_body]
pub(crate) fn value_mapping(m: Mapping) -> (r: Value)
    ensures
        value_node(r) == Node::Mapping(mapping_entries(m)),
{
    Value::Mapping(m)
}

} // verus!
