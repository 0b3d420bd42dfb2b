//! Structural comparison of two XML documents, rendered as an indented,
//! left-anchored diff: the first document is printed element by element, and
//! each element that has no equal among the children of its partner in the
//! second document is flagged.
//!
//! Attribute order and the whitespace between tags do not count. `node` holds
//! the element tree and its model, `tag` the canonical view of one element
//! with its equality and rendering, `compare` the walk over both trees, and
//! `parse` the way from the bytes of two documents to the printed lines.
//! `laws` states what holds of tags in general.

pub mod attr;
pub mod compare;
pub mod laws;
pub mod node;
pub mod paint;
pub mod parse;
pub mod sorting;
pub mod tag;
pub mod text;
pub mod utils;
pub mod xml;
