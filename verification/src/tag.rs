//! The canonical view of one element: its attributes in ascending key order,
//! the equality that matching goes by, and the lines it is rendered as.

use vstd::prelude::*;

use crate::attr::{attr_text, attr_views, Attr};
use crate::node::{distinct_keys, has_key, mapping_of, pairs_of, text_of, Node, NodeView};
use crate::paint::{is_painted, paint, Color};
use crate::sorting::{
    ascending, lemma_ascending_unique, lemma_sorted, same_entries, sort_attrs, sorted,
};
use crate::text::{indentation, spaces};

verus! {

/// A view over one element that carries the element's attributes sorted by
/// key. It borrows every string from the element tree.
#[derive(Debug)]
pub struct Tag<'tag> {
    pub el: &'tag Node,
    pub attrs: Vec<Attr<'tag>>,
}

/// What equality and rendering read of a tag.
pub struct TagView {
    pub name: Seq<char>,
    pub attrs: Seq<(Seq<char>, Seq<char>)>,
    pub text: Option<Seq<char>>,
}

impl<'tag> View for Tag<'tag> {
    type V = TagView;

    open spec fn view(&self) -> TagView {
        TagView { name: self.el.name@, attrs: attr_views(self.attrs@), text: text_of(self.el.text) }
    }
}

/// `s` holds exactly the key/value pairs of the mapping `m`.
pub open spec fn lists(s: Seq<(Seq<char>, Seq<char>)>, m: Map<Seq<char>, Seq<char>>) -> bool {
    forall|p: (Seq<char>, Seq<char>)| s.contains(p) <==> m.contains_pair(p.0, p.1)
}

/// The entries of a mapping in ascending key order.
pub open spec fn sorted_entries(m: Map<Seq<char>, Seq<char>>) -> Seq<(Seq<char>, Seq<char>)> {
    choose|s: Seq<(Seq<char>, Seq<char>)>| ascending(s) && lists(s, m)
}

/// The tag of an element: its name and text, and its attributes in ascending
/// key order.
pub open spec fn tag_of(e: NodeView) -> TagView {
    TagView { name: e.name, attrs: sorted_entries(e.attributes), text: e.text }
}

/// The equality that matching goes by. A left tag with text equals whatever
/// has the same text; one without equals whatever has its name and its
/// attributes.
pub open spec fn same_node(x: TagView, y: TagView) -> bool {
    if x.text is Some {
        x.text == y.text
    } else {
        x.name == y.name && x.attrs == y.attrs
    }
}

/// Pairs with distinct keys hold exactly the entries of the mapping they
/// stand for.
pub proof fn lemma_mapping_lists(pairs: Seq<(Seq<char>, Seq<char>)>)
    requires
        distinct_keys(pairs),
    ensures
        lists(pairs, mapping_of(pairs)),
{
    let m = mapping_of(pairs);
    assert forall|p: (Seq<char>, Seq<char>)| pairs.contains(p) <==> m.contains_pair(p.0, p.1) by {}
}

/// The ascending listing of a mapping is unique: whatever ascends and lists
/// the mapping is its `sorted_entries`.
pub proof fn lemma_sorted_entries_unique(s: Seq<(Seq<char>, Seq<char>)>, m: Map<Seq<char>, Seq<char>>)
    requires
        ascending(s),
        lists(s, m),
    ensures
        sorted_entries(m) == s,
{
    lemma_ascending_unique(sorted_entries(m), s);
}

/// The mapping of pairs with distinct keys has an ascending listing, and
/// `sorted_entries` is it.
pub proof fn lemma_sorted_entries(pairs: Seq<(Seq<char>, Seq<char>)>)
    requires
        distinct_keys(pairs),
    ensures
        ascending(sorted_entries(mapping_of(pairs))),
        lists(sorted_entries(mapping_of(pairs)), mapping_of(pairs)),
        same_entries(sorted_entries(mapping_of(pairs)), pairs),
{
    lemma_sorted(pairs);
    lemma_mapping_lists(pairs);
    lemma_sorted_entries_unique(sorted(pairs), mapping_of(pairs));
}

/// The attributes of an opening line: each one preceded by a single space, in
/// the order of `attrs`.
pub open spec fn attrs_text(attrs: Seq<(Seq<char>, Seq<char>)>) -> Seq<char>
    decreases attrs.len(),
{
    if attrs.len() == 0 {
        Seq::empty()
    } else {
        attrs_text(attrs.drop_last()) + seq![' '] + attr_text(attrs.last())
    }
}

/// The closing tag `</name>`.
pub open spec fn end_text(name: Seq<char>) -> Seq<char> {
    seq!['<', '/'] + name + seq!['>']
}

/// The opening line of a tag at `indent` columns: the indentation, `<name`,
/// the attributes and `>`; where the element has text, the text and the
/// closing tag follow on the same line.
pub open spec fn open_line(t: TagView, indent: nat) -> Seq<char> {
    let head = spaces(indent) + seq!['<'] + t.name + attrs_text(t.attrs) + seq!['>'];
    match t.text {
        Some(text) => head + text + end_text(t.name),
        None => head,
    }
}

/// The closing line of a tag at `indent` columns, for an element without
/// text; an element with text has none.
pub open spec fn close_line(t: TagView, indent: nat) -> Option<Seq<char>> {
    match t.text {
        Some(_) => None,
        None => Some(spaces(indent) + end_text(t.name)),
    }
}

/// The marker that both lines of a mismatch begin with.
pub open spec fn bar() -> Seq<char> {
    seq!['|']
}

/// The column that the opening line of a mismatch is rendered at: one less
/// than `indent`, the marker taking the first column, and 0 at the margin.
pub open spec fn marker_indent(indent: nat) -> nat {
    if indent > 0 {
        (indent - 1) as nat
    } else {
        0
    }
}

/// The two lines that flag a left-only element: the left bar and the opening
/// line on the first, the right bar alone on the second.
pub open spec fn mismatch_block(t: TagView, indent: nat, left_bar: Seq<char>, right_bar: Seq<char>) -> Seq<
    char,
> {
    left_bar + open_line(t, marker_indent(indent)) + seq!['\n'] + right_bar
}

impl<'tag> Tag<'tag> {
    /// The attributes ascend by key and are those of the element.
    pub open spec fn wf(&self) -> bool {
        &&& ascending(self@.attrs)
        &&& lists(self@.attrs, self.el@.attributes)
    }

    /// Builds the tag of an element whose attribute keys are distinct.
    pub fn new(el: &'tag Node) -> (r: Tag<'tag>)
        requires
            distinct_keys(pairs_of(el.attributes@)),
        ensures
            r.el == el,
            r.wf(),
            r@ == tag_of(el@),
    {
        let ghost pairs = pairs_of(el.attributes@);
        let mut attrs: Vec<Attr<'tag>> = Vec::new();
        let mut i: usize = 0;
        while i < el.attributes.len()
            invariant
                i <= el.attributes.len(),
                pairs == pairs_of(el.attributes@),
                attr_views(attrs@) == pairs.take(i as int),
            decreases el.attributes.len() - i,
        {
            let ghost before = attr_views(attrs@);
            let attr = Attr::new((el.attributes[i].0.as_str(), el.attributes[i].1.as_str()));
            attrs.push(attr);
            assert(attr_views(attrs@) =~= before.push(attr@));
            i = i + 1;
        }
        assert(pairs.take(i as int) =~= pairs);
        let sorted = sort_attrs(&attrs);
        let ret_val = Tag { el, attrs: sorted };
        proof {
            lemma_mapping_lists(pairs);
            lemma_sorted_entries_unique(ret_val@.attrs, el@.attributes);
        }
        ret_val
    }

    /// Renders the opening line at `indent` columns.
    pub fn print(&self, indent: &usize) -> (r: String)
        ensures
            r@ == open_line(self@, *indent as nat),
    {
        let mut ret_val = indentation(*indent);
        proof {
            reveal_strlit("<");
            reveal_strlit(" ");
            reveal_strlit(">");
            reveal_strlit("</");
        }
        ret_val.append("<");
        ret_val.append(self.el.name.as_str());
        let ghost head = ret_val@;
        let mut i: usize = 0;
        while i < self.attrs.len()
            invariant
                i <= self.attrs.len(),
                ret_val@ == head + attrs_text(attr_views(self.attrs@).take(i as int)),
            decreases self.attrs.len() - i,
        {
            let ghost before = attr_views(self.attrs@).take(i as int);
            let ghost after = attr_views(self.attrs@).take(i + 1);
            ret_val.append(" ");
            let piece = self.attrs[i].print();
            ret_val.append(piece.as_str());
            proof {
                reveal_strlit(" ");
                assert(after.drop_last() =~= before);
            }
            i = i + 1;
        }
        assert(attr_views(self.attrs@).take(i as int) =~= attr_views(self.attrs@));
        ret_val.append(">");
        match &self.el.text {
            Some(text) => {
                ret_val.append(text.as_str());
                ret_val.append("</");
                ret_val.append(self.el.name.as_str());
                ret_val.append(">");
            },
            None => {},
        }
        ret_val
    }

    /// Renders the closing line at `indent` columns, if the element has one.
    pub fn print_end(&self, indent: &usize) -> (r: Option<String>)
        ensures
            text_of(r) == close_line(self@, *indent as nat),
    {
        if !self.has_text() {
            let mut line = indentation(*indent);
            proof {
                reveal_strlit("</");
                reveal_strlit(">");
            }
            line.append("</");
            line.append(self.el.name.as_str());
            line.append(">");
            Some(line)
        } else {
            None
        }
    }

    /// Renders the mismatch marker of this tag with the two bars given.
    pub fn print_diff_with(&self, indent: &usize, left_bar: &str, right_bar: &str) -> (r: String)
        ensures
            r@ == mismatch_block(self@, *indent as nat, left_bar@, right_bar@),
    {
        let column: usize = if *indent > 0 {
            *indent - 1
        } else {
            0
        };
        let line = self.print(&column);
        let mut r = String::from_str(left_bar);
        proof {
            reveal_strlit("\n");
        }
        r.append(line.as_str());
        r.append("\n");
        r.append(right_bar);
        r
    }

    /// Renders the mismatch marker of this tag: a green bar and the opening
    /// line, then a red bar on a line of its own.
    pub fn print_diff(&self, indent: &usize) -> (r: String)
        ensures
            exists|left_bar: Seq<char>, right_bar: Seq<char>|
                is_painted(left_bar, Color::Green, bar()) && is_painted(right_bar, Color::Red, bar())
                    && r@ == #[trigger] mismatch_block(self@, *indent as nat, left_bar, right_bar),
    {
        proof {
            reveal_strlit("|");
        }
        let left_bar = paint(Color::Green, "|");
        let right_bar = paint(Color::Red, "|");
        assert("|"@ =~= bar());
        self.print_diff_with(indent, left_bar.as_str(), right_bar.as_str())
    }

    /// Whether the element has direct text content.
    pub fn has_text(&self) -> (r: bool)
        ensures
            r == (self@.text is Some),
    {
        self.el.text.is_some()
    }
}

impl<'tag> PartialEq for Tag<'tag> {
    /// Decides `same_node`: by the text where this tag has one, by name and
    /// attributes where it has none.
    fn eq(&self, rhs: &Tag<'tag>) -> (r: bool) {
        match &self.el.text {
            Some(text) => match &rhs.el.text {
                Some(other) => *text == *other,
                None => false,
            },
            None => {
                let r = self.el.name == rhs.el.name && self.attrs == rhs.attrs;
                proof {
                    let a = attr_views(self.attrs@);
                    let b = attr_views(rhs.attrs@);
                    if self.attrs@.len() == rhs.attrs@.len() && (forall|i: int|
                        0 <= i < self.attrs@.len() ==> self.attrs@[i]@ == rhs.attrs@[i]@) {
                        assert(a =~= b);
                    }
                    if a == b {
                        assert(a.len() == b.len());
                        assert forall|i: int| 0 <= i < self.attrs@.len() implies self.attrs@[i]@
                            == rhs.attrs@[i]@ by {
                            assert(a[i] == self.attrs@[i]@);
                        }
                    }
                }
                r
            },
        }
    }
}

impl<'tag> vstd::std_specs::cmp::PartialEqSpecImpl for Tag<'tag> {
    open spec fn obeys_eq_spec() -> bool {
        true
    }

    open spec fn eq_spec(&self, other: &Tag<'tag>) -> bool {
        same_node(self@, other@)
    }
}

} // verus!
