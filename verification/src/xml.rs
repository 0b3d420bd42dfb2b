//! The XML parser: `xmltree`, its tree and what is read of it.

use vstd::prelude::*;

use crate::node::{distinct_keys, mapping_of, pairs_of, text_of, NodeView};

verus! {

/// `xmltree::Element`, a node of the tree that the parser builds.
#[verifier::external_type_specification]
#[verifier::external_body]
pub struct ExElement(xmltree::Element);

/// `xmltree::ParseError`, the parser's error.
#[verifier::external_type_specification]
#[verifier::external_body]
pub struct ExParseError(xmltree::ParseError);

/// What `xmltree::Element::parse` makes of the bytes of a document: the model
/// of the root element, or nothing where the parser reports an error.
pub uninterp spec fn xml_parsed(bytes: Seq<u8>) -> Option<NodeView>;

/// What a node of the parser's tree holds: its name, its attributes as a
/// mapping, its text and the same of its children, in their order.
pub uninterp spec fn xml_model(el: xmltree::Element) -> NodeView;

/// Calls `xmltree::Element::parse`. The parser reads nothing but the bytes, so
/// the tree it returns, or that it fails, is named by `xml_parsed`. The parser
/// descends once for each level of nesting: a document nested so deeply that
/// the stack runs out ends the process, and the contract speaks of the calls
/// that return.
#[verifier::external_body]
pub(crate) fn xml_parse(bytes: &[u8]) -> (r: Result<xmltree::Element, xmltree::ParseError>)
    ensures
        match r {
            Ok(el) => xml_parsed(bytes@) == Some(xml_model(el)),
            Err(_) => xml_parsed(bytes@) is None,
        },
{
    xmltree::Element::parse(bytes)
}

/// Reads the field `name` of an `xmltree::Element`.
#[verifier::external_body]
pub(crate) fn xml_name(el: &xmltree::Element) -> (r: &String)
    ensures
        r@ == xml_model(*el).name,
{
    &el.name
}

/// Reads the field `text` of an `xmltree::Element`.
#[verifier::external_body]
pub(crate) fn xml_text(el: &xmltree::Element) -> (r: &Option<String>)
    ensures
        text_of(*r) == xml_model(*el).text,
{
    &el.text
}

/// Copies the field `attributes` of an `xmltree::Element`, a hash map from
/// key to value, into a vector of pairs. The pairs come in the order in which
/// the map is walked, which is not fixed; a map holds each key once.
#[verifier::external_body]
pub(crate) fn xml_attributes(el: &xmltree::Element) -> (r: Vec<(String, String)>)
    ensures
        distinct_keys(pairs_of(r@)),
        mapping_of(pairs_of(r@)) == xml_model(*el).attributes,
{
    el.attributes.iter().map(|(k, v)| (k.clone(), v.clone())).collect()
}

/// Reads the field `children` of an `xmltree::Element`: the child nodes in
/// document order.
#[verifier::external_body]
pub(crate) fn xml_children(el: &xmltree::Element) -> (r: &Vec<xmltree::Element>)
    ensures
        r@.len() == xml_model(*el).children.len(),
        forall|i: int| 0 <= i < r@.len() ==> xml_model(#[trigger] r@[i]) == xml_model(*el).children[i],
{
    &el.children
}

} // verus!
