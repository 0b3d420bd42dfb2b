//! Reading a document: the parser's tree is copied node by node into the
//! library's own elements, and two documents are compared from their bytes.

use vstd::prelude::*;

use crate::compare::{diff_output, diff_trees, lines_of};
use crate::node::{height, lemma_child_height, Node};
use crate::paint::{is_painted, Color};
use crate::tag::bar;
use crate::utils::{level_tag, log, log_text, LogLevel};
use crate::xml::{
    xml_attributes, xml_children, xml_model, xml_name, xml_parse, xml_parsed, xml_text,
};

verus! {

/// Copies a tree of the parser into an element of the library.
fn node_of(el: &xmltree::Element) -> (r: Node)
    ensures
        r@ == xml_model(*el),
        r.wf(),
    decreases height(xml_model(*el)),
{
    let name = xml_name(el).clone();
    let attributes = xml_attributes(el);
    let text = match xml_text(el) {
        Some(t) => Some(t.clone()),
        None => None,
    };
    let nodes = xml_children(el);
    let mut children: Vec<Node> = Vec::new();
    let mut i: usize = 0;
    while i < nodes.len()
        invariant
            i <= nodes.len(),
            children@.len() == i,
            nodes@.len() == xml_model(*el).children.len(),
            forall|k: int|
                0 <= k < nodes@.len() ==> xml_model(#[trigger] nodes@[k]) == xml_model(*el).children[k],
            forall|k: int| 0 <= k < i ==> (#[trigger] children@[k])@ == xml_model(*el).children[k],
            forall|k: int| 0 <= k < i ==> (#[trigger] children@[k]).wf(),
        decreases nodes.len() - i,
    {
        proof {
            lemma_child_height(xml_model(*el), i as int);
        }
        let child = node_of(&nodes[i]);
        children.push(child);
        i = i + 1;
    }
    let r = Node { name, attributes, text, children };
    assert(r@.children =~= xml_model(*el).children);
    r
}

/// Why two documents could not be compared.
#[derive(Debug, Clone, Copy, PartialEq, Eq, Structural)]
pub enum DiffError {
    /// The first document is not XML that the parser accepts.
    ParseLeft,
    /// The second document is not XML that the parser accepts.
    ParseRight,
    /// The first document is nested more deeply than an indentation can
    /// count.
    TooDeep,
}

/// What a failure says.
pub open spec fn diff_error_text(e: DiffError) -> Seq<char> {
    match e {
        DiffError::ParseLeft => "Unable to parse XML document."@,
        DiffError::ParseRight => "Unable to parse XML document."@,
        DiffError::TooDeep => "XML document is nested too deeply."@,
    }
}

impl DiffError {
    /// The error line of this failure.
    pub fn to_string(&self) -> (r: String)
        ensures
            exists|prefix: Seq<char>|
                is_painted(prefix, Color::Red, level_tag(LogLevel::Error)) && r@ == #[trigger] log_text(
                    prefix,
                    diff_error_text(*self),
                ),
    {
        let message = match self {
            DiffError::ParseLeft => "Unable to parse XML document.",
            DiffError::ParseRight => "Unable to parse XML document.",
            DiffError::TooDeep => "XML document is nested too deeply.",
        };
        assert(message@ == diff_error_text(*self));
        log(&LogLevel::Error, message)
    }
}

/// The greatest height whose indentation fits a `usize`.
pub open spec fn max_height() -> nat {
    (usize::MAX / 2) as nat
}

/// Parses a document into an element tree.
pub fn parse_document(bytes: &[u8]) -> (r: Option<Node>)
    ensures
        match r {
            Some(e) => e.wf() && xml_parsed(bytes@) == Some(e@),
            None => xml_parsed(bytes@) is None,
        },
{
    match xml_parse(bytes) {
        Ok(el) => Some(node_of(&el)),
        Err(_) => None,
    }
}

/// Parses two documents and compares them. A document that does not parse
/// ends the run, the first before the second; so does a first document that is
/// more than `max_height` high, which no memory holds.
pub fn diff_documents(left: &[u8], right: &[u8]) -> (r: Result<Vec<String>, DiffError>)
    ensures
        match r {
            Ok(lines) => {
                &&& xml_parsed(left@) matches Some(x)
                &&& xml_parsed(right@) matches Some(y)
                &&& height(x) <= max_height()
                &&& exists|left_bar: Seq<char>, right_bar: Seq<char>|
                    is_painted(left_bar, Color::Green, bar()) && is_painted(
                        right_bar,
                        Color::Red,
                        bar(),
                    ) && lines_of(lines@) == #[trigger] diff_output(x, y, left_bar, right_bar)
            },
            Err(DiffError::ParseLeft) => xml_parsed(left@) is None,
            Err(DiffError::ParseRight) => xml_parsed(left@) is Some && xml_parsed(right@) is None,
            Err(DiffError::TooDeep) => {
                &&& xml_parsed(left@) matches Some(x)
                &&& xml_parsed(right@) is Some
                &&& height(x) > max_height()
            },
        },
{
    let x = match parse_document(left) {
        Some(e) => e,
        None => {
            return Err(DiffError::ParseLeft);
        },
    };
    let y = match parse_document(right) {
        Some(e) => e,
        None => {
            return Err(DiffError::ParseRight);
        },
    };
    if !x.height_at_most(usize::MAX / 2) {
        return Err(DiffError::TooDeep);
    }
    Ok(diff_trees(&x, &y))
}

} // verus!
