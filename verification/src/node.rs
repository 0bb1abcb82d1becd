//! Documents as the parsers hand them over, before the library has looked at
//! what they hold.

use vstd::prelude::*;

use crate::format::Format;
use crate::syntax::Syntax;

verus! {

/// A parsed document: strings, arrays and tables as they stand in the text,
/// and `Other` for any scalar that is no string (a number, a boolean, a null,
/// a date).
#[derive(Debug)]
pub enum Node {
    Text(String),
    List(Vec<Node>),
    Table(Vec<(String, Node)>),
    Other,
}

/// The model of a node: the same document, its strings as sequences of
/// characters.
pub open spec fn syntax_of(node: Node) -> Syntax
    decreases node,
{
    match node {
        Node::Text(text) => Syntax::Text(text@),
        Node::List(items) => Syntax::List(
            Seq::new(
                items@.len(),
                |i: int|
                    if 0 <= i < items@.len() {
                        syntax_of(items@[i])
                    } else {
                        Syntax::Other
                    },
            ),
        ),
        Node::Table(entries) => Syntax::Table(
            Seq::new(
                entries@.len(),
                |i: int|
                    if 0 <= i < entries@.len() {
                        (entries@[i].0@, syntax_of(entries@[i].1))
                    } else {
                        (Seq::empty(), Syntax::Other)
                    },
            ),
        ),
        Node::Other => Syntax::Other,
    }
}

impl View for Node {
    type V = Syntax;

    open spec fn view(&self) -> Syntax {
        syntax_of(*self)
    }
}

/// A JSON value as serde_json holds it, on its way to becoming a node.
#[verifier::external_body]
struct JsonTree {
    root: serde_json::Value,
}

/// Why serde_json refused a text.
#[verifier::external_type_specification]
#[verifier::external_body]
pub struct ExJsonError(serde_json::Error);

/// A TOML value as toml holds it, on its way to becoming a node.
#[verifier::external_body]
struct TomlTree {
    root: toml::Value,
}

/// Why toml refused a text.
#[verifier::external_type_specification]
#[verifier::external_body]
pub struct ExTomlError(toml::de::Error);

/// The document that `serde_json::from_str` reads from a text as a
/// `serde_json::Value`, and nothing where it refuses the text.
pub uninterp spec fn json_document(text: Seq<char>) -> Option<Syntax>;

/// The document that `toml::Value`'s `from_str` reads from a text, and nothing
/// where it refuses the text.
pub uninterp spec fn toml_document(text: Seq<char>) -> Option<Syntax>;

/// Hands a `serde_json::Value` over as a node, variant by variant: strings,
/// arrays and objects with what they hold, the entries of an object in the
/// order in which serde_json's map gives them out, and null, booleans and
/// numbers as `Other`. Nothing is claimed of the result here.
#[verifier::external_body]
fn json_node(tree: JsonTree) -> (node: Node) {
    match tree.root {
        serde_json::Value::String(text) => Node::Text(text),
        serde_json::Value::Array(items) => Node::List(
            items.into_iter().map(|item| json_node(JsonTree { root: item })).collect(),
        ),
        serde_json::Value::Object(entries) => Node::Table(
            entries.into_iter().map(|(key, item)| (key, json_node(JsonTree { root: item }))).collect(),
        ),
        serde_json::Value::Null => Node::Other,
        serde_json::Value::Bool(_) => Node::Other,
        serde_json::Value::Number(_) => Node::Other,
    }
}

/// Hands a `toml::Value` over as a node, variant by variant: strings, arrays
/// and tables with what they hold, the entries of a table in the order in
/// which toml's map gives them out, and integers, floats, booleans and dates
/// as `Other`. Nothing is claimed of the result here.
#[verifier::external_body]
fn toml_node(tree: TomlTree) -> (node: Node) {
    match tree.root {
        toml::Value::String(text) => Node::Text(text),
        toml::Value::Array(items) => Node::List(
            items.into_iter().map(|item| toml_node(TomlTree { root: item })).collect(),
        ),
        toml::Value::Table(entries) => Node::Table(
            entries.into_iter().map(|(key, item)| (key, toml_node(TomlTree { root: item }))).collect(),
        ),
        toml::Value::Integer(_) => Node::Other,
        toml::Value::Float(_) => Node::Other,
        toml::Value::Boolean(_) => Node::Other,
        toml::Value::Datetime(_) => Node::Other,
    }
}

/// Calls `serde_json::from_str` for a `serde_json::Value`. The parser reads
/// the text alone, so what it returns is a function of the text: the contract
/// gives that function the name `json_document`, and says nothing of what it
/// is on any text. serde_json refuses a document nested deeper than 128
/// levels, so the nodes that come back are no deeper.
#[verifier::external_body]
fn parse_json(text: &str) -> (r: Result<Node, serde_json::Error>)
    ensures
        json_document(text@) == match r {
            Ok(node) => Some(node@),
            Err(_) => None::<Syntax>,
        },
{
    match serde_json::from_str::<serde_json::Value>(text) {
        Ok(root) => Ok(json_node(JsonTree { root })),
        Err(error) => Err(error),
    }
}

/// Calls `from_str` of `toml::Value`, which reads the text as a TOML document.
/// The parser reads the text alone, so what it returns is a function of the
/// text: the contract gives that function the name `toml_document`, and says
/// nothing of what it is on any text. toml sets no limit to how deep a
/// document may be nested and descends once for each level, as the functions
/// of this library on nodes and values do: the contract speaks of the calls
/// that return, and a document nested many hundreds deep may exhaust the
/// stack before one does.
#[verifier::external_body]
fn parse_toml(text: &str) -> (r: Result<Node, toml::de::Error>)
    ensures
        toml_document(text@) == match r {
            Ok(node) => Some(node@),
            Err(_) => None::<Syntax>,
        },
{
    match text.parse::<toml::Value>() {
        Ok(root) => Ok(toml_node(TomlTree { root })),
        Err(error) => Err(error),
    }
}

/// The document that a text holds in a format, and nothing where the parser
/// of that format refuses the text.
pub open spec fn document(text: Seq<char>, format: Format) -> Option<Syntax> {
    match format {
        Format::Json => json_document(text),
        Format::Toml => toml_document(text),
    }
}

impl Node {
    /// Reads a text in a format.
    pub fn parse(text: &str, format: Format) -> (r: Option<Node>)
        ensures
            document(text@, format) == match r {
                Some(node) => Some(node@),
                None => None::<Syntax>,
            },
    {
        match format {
            Format::Json => match parse_json(text) {
                Ok(node) => Some(node),
                Err(_) => None,
            },
            Format::Toml => match parse_toml(text) {
                Ok(node) => Some(node),
                Err(_) => None,
            },
        }
    }
}

} // verus!
