//! One attribute of an element: a key and a value, ordered by the key.

use std::cmp::Ordering;
use vstd::prelude::*;

use crate::text::{compare_keys, key_order, KeyOrder};

verus! {

/// A key/value pair that borrows both strings from the element tree.
#[derive(Debug, Clone, Copy)]
pub struct Attr<'attr> {
    pub key: &'attr str,
    pub value: &'attr str,
}

impl<'attr> View for Attr<'attr> {
    type V = (Seq<char>, Seq<char>);

    open spec fn view(&self) -> (Seq<char>, Seq<char>) {
        (self.key@, self.value@)
    }
}

/// The key/value pairs of a sequence of attributes.
pub open spec fn attr_views(attrs: Seq<Attr>) -> Seq<(Seq<char>, Seq<char>)> {
    Seq::new(attrs.len(), |i: int| attrs[i]@)
}

/// The text of one attribute: the key, `="`, the value and `"`, the value
/// taken as it is.
pub open spec fn attr_text(a: (Seq<char>, Seq<char>)) -> Seq<char> {
    a.0 + seq!['=', '"'] + a.1 + seq!['"']
}

impl<'attr> Attr<'attr> {
    /// Makes an attribute of a key and a value.
    pub fn new(data: (&'attr str, &'attr str)) -> (r: Attr<'attr>)
        ensures
            r.key == data.0,
            r.value == data.1,
            r@ == (data.0@, data.1@),
    {
        Attr { key: data.0, value: data.1 }
    }

    /// Renders the attribute as `key="value"`.
    pub fn print(&self) -> (r: String)
        ensures
            r@ == attr_text(self@),
    {
        let mut r = String::from_str(self.key);
        proof {
            reveal_strlit("=\"");
            reveal_strlit("\"");
        }
        r.append("=\"");
        r.append(self.value);
        r.append("\"");
        r
    }

    /// Orders two attributes by their keys alone.
    pub fn cmp(&self, rhs: &Attr<'attr>) -> (r: Ordering)
        ensures
            r == match key_order(self.key@, rhs.key@) {
                KeyOrder::Before => Ordering::Less,
                KeyOrder::Same => Ordering::Equal,
                KeyOrder::After => Ordering::Greater,
            },
    {
        match compare_keys(self.key, rhs.key) {
            KeyOrder::Before => Ordering::Less,
            KeyOrder::Same => Ordering::Equal,
            KeyOrder::After => Ordering::Greater,
        }
    }
}

impl<'attr> PartialEq for Attr<'attr> {
    fn eq(&self, other: &Attr<'attr>) -> (r: bool) {
        match compare_keys(self.key, other.key) {
            KeyOrder::Same => match compare_keys(self.value, other.value) {
                KeyOrder::Same => true,
                _ => false,
            },
            _ => false,
        }
    }
}

impl<'attr> vstd::std_specs::cmp::PartialEqSpecImpl for Attr<'attr> {
    open spec fn obeys_eq_spec() -> bool {
        true
    }

    open spec fn eq_spec(&self, other: &Attr<'attr>) -> bool {
        self@ == other@
    }
}

} // verus!
