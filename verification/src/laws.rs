//! What holds of tags whatever the element: the rendered attributes ascend,
//! equality is reflexive and, with one exception, symmetric, and the order in
//! which an element lists its attributes does not show.

use vstd::prelude::*;

use crate::node::{distinct_keys, mapping_of, pairs_of, text_of, Node};
use crate::sorting::ascending;
use crate::tag::{
    attrs_text, close_line, end_text, lemma_mapping_lists, lemma_sorted_entries, lists, open_line,
    same_node, tag_of, TagView,
};
use crate::text::spaces;

verus! {

/// The opening line of an element's tag at the margin is `<`, the name, the
/// attributes and `>` (and, for an element with text, the text and the closing
/// tag); the attributes are those of the element, each once, and their keys
/// ascend strictly from each to the next.
pub proof fn law_attributes_ascend(e: Node)
    requires
        e.wf(),
    ensures
        ascending(tag_of(e@).attrs),
        lists(tag_of(e@).attrs, e@.attributes),
        open_line(tag_of(e@), 0) == seq!['<'] + e@.name + attrs_text(tag_of(e@).attrs) + seq!['>'] + (
        match e@.text {
            Some(text) => text + end_text(e@.name),
            None => Seq::empty(),
        }),
{
    lemma_sorted_entries(pairs_of(e.attributes@));
}

/// Every tag equals itself.
pub proof fn law_equality_reflexive(e: Node)
    ensures
        same_node(tag_of(e@), tag_of(e@)),
{
}

/// Equality of tags can be turned round, unless the left tag has no text and
/// the right one has: a tag without text equals a tag with text that has its
/// name and attributes, and that tag, which goes by its text, does not equal
/// the first.
pub proof fn law_equality_symmetric(e1: Node, e2: Node)
    requires
        same_node(tag_of(e1@), tag_of(e2@)),
        e1@.text is Some || e2@.text is None,
    ensures
        same_node(tag_of(e2@), tag_of(e1@)),
{
}

/// Two lists of pairs with distinct keys that are permutations of each other
/// stand for the same mapping.
pub proof fn law_mapping_ignores_order(a: Seq<(Seq<char>, Seq<char>)>, b: Seq<(Seq<char>, Seq<char>)>)
    requires
        distinct_keys(a),
        distinct_keys(b),
        a.to_multiset() == b.to_multiset(),
    ensures
        mapping_of(a) == mapping_of(b),
{
    a.to_multiset_ensures();
    b.to_multiset_ensures();
    lemma_mapping_lists(a);
    lemma_mapping_lists(b);
    let ma = mapping_of(a);
    let mb = mapping_of(b);
    assert forall|k: Seq<char>| #[trigger] ma.dom().contains(k) implies mb.dom().contains(k) && ma[k]
        == mb[k] by {
        assert(a.to_multiset().count((k, ma[k])) > 0);
    }
    assert forall|k: Seq<char>| #[trigger] mb.dom().contains(k) implies ma.dom().contains(k) by {
        assert(b.to_multiset().count((k, mb[k])) > 0);
    }
}

/// Permuting the attributes of an element changes neither its tag nor its
/// opening line at any indentation.
pub proof fn law_attribute_order_irrelevant(e1: Node, e2: Node, k: nat)
    requires
        e1.wf(),
        e2.wf(),
        e1.name@ == e2.name@,
        text_of(e1.text) == text_of(e2.text),
        pairs_of(e1.attributes@).to_multiset() == pairs_of(e2.attributes@).to_multiset(),
    ensures
        tag_of(e1@) == tag_of(e2@),
        open_line(tag_of(e1@), k) == open_line(tag_of(e2@), k),
{
    law_mapping_ignores_order(pairs_of(e1.attributes@), pairs_of(e2.attributes@));
}

/// The opening line of a tag with text `text` ends with `>`, the text and the
/// closing tag, and the tag has no closing line.
pub proof fn law_text_is_inlined(t: TagView, text: Seq<char>, indent: nat)
    requires
        t.text == Some(text),
    ensures
        (seq!['>'] + text + end_text(t.name)).is_suffix_of(open_line(t, indent)),
        close_line(t, indent) is None,
{
    let front = spaces(indent) + seq!['<'] + t.name + attrs_text(t.attrs);
    let tail = seq!['>'] + text + end_text(t.name);
    assert(open_line(t, indent) =~= front + tail);
}

} // verus!
