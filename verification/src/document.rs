//! What a JSON or YAML document holds, as far as the proxy reads it.

use vstd::prelude::*;

verus! {

/// What a document, or a part of one, holds.
pub enum Node {
    /// The null value.
    Null,
    /// A truth value.
    Flag(bool),
    /// A whole number from 0 to 2^64 - 1.
    Number(u64),
    /// A text.
    Text(Seq<char>),
    /// A sequence of parts.
    List(Seq<Node>),
    /// Parts under text keys.
    Table(Map<Seq<char>, Node>),
    /// A part with a tag on it.
    Tagged(Box<Node>),
    /// Anything else: a number of another kind, or a table with keys that
    /// are no texts.
    Other,
}

/// The parts that a node holds under keys: those of a table, also where
/// the table has tags on it.
pub open spec fn members(node: Node) -> Map<Seq<char>, Node>
    decreases node,
{
    match node {
        Node::Table(m) => m,
        Node::Tagged(inner) => members(*inner),
        _ => Map::empty(),
    }
}

/// The part that a node holds under a key.
pub open spec fn entry(node: Node, key: Seq<char>) -> Option<Node> {
    if members(node).contains_key(key) {
        Some(members(node)[key])
    } else {
        None
    }
}

/// The text that a node is.
pub open spec fn as_text(node: Node) -> Option<Seq<char>> {
    match node {
        Node::Text(t) => Some(t),
        _ => None,
    }
}

/// The truth value that a node is.
pub open spec fn as_flag(node: Node) -> Option<bool> {
    match node {
        Node::Flag(b) => Some(b),
        _ => None,
    }
}

/// The number that a node is.
pub open spec fn as_number(node: Node) -> Option<u64> {
    match node {
        Node::Number(n) => Some(n),
        _ => None,
    }
}

/// The text that a node holds under a key: nothing where it holds nothing
/// there, or something that is no text.
pub open spec fn text_entry(node: Node, key: Seq<char>) -> Option<Seq<char>> {
    match entry(node, key) {
        Some(part) => as_text(part),
        None => None,
    }
}

/// The truth value that a node holds under a key: nothing where it holds
/// nothing there, or something that is no truth value.
pub open spec fn flag_entry(node: Node, key: Seq<char>) -> Option<bool> {
    match entry(node, key) {
        Some(part) => as_flag(part),
        None => None,
    }
}

/// The truth value that may stand under a key: nothing where the node
/// holds nothing there, and a failure where it holds something that is no
/// truth value.
pub open spec fn flag_if_any(node: Node, key: Seq<char>) -> Result<Option<bool>, ()> {
    match entry(node, key) {
        Some(part) => match as_flag(part) {
            Some(b) => Ok(Some(b)),
            None => Err(()),
        },
        None => Ok(None),
    }
}

/// The number that may stand under a key: nothing where the node holds
/// nothing there, and a failure where it holds something that is no whole
/// number from 0 to 2^64 - 1.
pub open spec fn number_if_any(node: Node, key: Seq<char>) -> Result<Option<u64>, ()> {
    match entry(node, key) {
        Some(part) => match as_number(part) {
            Some(n) => Ok(Some(n)),
            None => Err(()),
        },
        None => Ok(None),
    }
}

} // verus!
