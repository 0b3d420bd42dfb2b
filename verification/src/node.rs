//! The element tree that is compared: its data, its mathematical model and its
//! well-formedness.

use vstd::prelude::*;

use crate::text::{compare_keys, KeyOrder};

verus! {

/// An element of an XML document, a node of its tree.
///
/// `attributes` holds the attribute mapping as key/value pairs in no particular
/// order; in a well-formed element no key occurs twice. `text` is the text
/// directly inside the element, `children` the child elements in document
/// order.
#[derive(Debug, PartialEq, Eq)]
pub struct Node {
    pub name: String,
    pub attributes: Vec<(String, String)>,
    pub text: Option<String>,
    pub children: Vec<Node>,
}

/// The model of an element: its name, its attribute mapping, its direct text
/// and the models of its children, in document order.
pub struct NodeView {
    pub name: Seq<char>,
    pub attributes: Map<Seq<char>, Seq<char>>,
    pub text: Option<Seq<char>>,
    pub children: Seq<NodeView>,
}

/// The key/value pairs of an attribute list, as character sequences.
pub open spec fn pairs_of(attributes: Seq<(String, String)>) -> Seq<(Seq<char>, Seq<char>)> {
    Seq::new(attributes.len(), |i: int| (attributes[i].0@, attributes[i].1@))
}

/// No key occurs twice among `pairs`.
pub open spec fn distinct_keys(pairs: Seq<(Seq<char>, Seq<char>)>) -> bool {
    forall|i: int, j: int|
        0 <= i < pairs.len() && 0 <= j < pairs.len() && i != j ==> pairs[i].0 != pairs[j].0
}

/// `k` is the key of one of `pairs`.
pub open spec fn has_key(pairs: Seq<(Seq<char>, Seq<char>)>, k: Seq<char>) -> bool {
    exists|i: int| 0 <= i < pairs.len() && #[trigger] pairs[i].0 == k
}

/// The mapping that `pairs` lists: each key with the value of a pair that
/// holds it.
pub open spec fn mapping_of(pairs: Seq<(Seq<char>, Seq<char>)>) -> Map<Seq<char>, Seq<char>> {
    Map::new(
        |k: Seq<char>| has_key(pairs, k),
        |k: Seq<char>| pairs[choose|i: int| 0 <= i < pairs.len() && #[trigger] pairs[i].0 == k].1,
    )
}

/// The model of an optional string.
pub open spec fn text_of(text: Option<String>) -> Option<Seq<char>> {
    match text {
        Some(t) => Some(t@),
        None => None,
    }
}

/// The model of an element and, through it, of everything below it.
pub open spec fn model_of(e: Node) -> NodeView
    decreases e,
{
    NodeView {
        name: e.name@,
        attributes: mapping_of(pairs_of(e.attributes@)),
        text: text_of(e.text),
        children: Seq::new(
            e.children@.len(),
            |i: int|
                if 0 <= i < e.children@.len() {
                    model_of(e.children@[i])
                } else {
                    arbitrary()
                },
        ),
    }
}

impl View for Node {
    type V = NodeView;

    open spec fn view(&self) -> NodeView {
        model_of(*self)
    }
}

impl Node {
    /// In this element and in every element below it no attribute key occurs
    /// twice.
    pub open spec fn wf(&self) -> bool
        decreases self,
    {
        &&& distinct_keys(pairs_of(self.attributes@))
        &&& forall|i: int| 0 <= i < self.children@.len() ==> (#[trigger] self.children@[i]).wf()
    }
}

/// The number of elements on the longest path from an element down to a leaf.
#[verifier::opaque]
pub open spec fn height(e: NodeView) -> nat
    decreases e,
{
    1 + tallest(e.children, e.children.len())
}

/// The greatest height among the first `n` of `elements`, 0 if there is none.
pub open spec fn tallest(elements: Seq<NodeView>, n: nat) -> nat
    decreases elements, n,
{
    if n == 0 || n > elements.len() {
        0
    } else {
        let rest = tallest(elements, (n - 1) as nat);
        let h = height(elements[n - 1]);
        if h > rest {
            h
        } else {
            rest
        }
    }
}

/// Every element is at least 1 high.
pub proof fn lemma_height_positive(e: NodeView)
    ensures
        height(e) >= 1,
{
    reveal(height);
}

/// `tallest` is at least the height of each element it ranges over.
pub proof fn lemma_tallest_bounds(elements: Seq<NodeView>, n: nat, i: int)
    requires
        0 <= i < n <= elements.len(),
    ensures
        height(elements[i]) <= tallest(elements, n),
    decreases n,
{
    reveal(height);
    if i < n - 1 {
        lemma_tallest_bounds(elements, (n - 1) as nat, i);
    }
}

/// A child is less high than its parent.
pub proof fn lemma_child_height(e: NodeView, i: int)
    requires
        0 <= i < e.children.len(),
    ensures
        height(e.children[i]) < height(e),
{
    reveal(height);
    lemma_tallest_bounds(e.children, e.children.len(), i);
}

/// How a child of a well-formed element stands to it: its model is the
/// model's child, it is well formed, and it is less high.
pub proof fn lemma_child(e: Node, i: int)
    requires
        e.wf(),
        0 <= i < e.children@.len(),
    ensures
        e@.children.len() == e.children@.len(),
        e@.children[i] == e.children@[i]@,
        e.children@[i].wf(),
        height(e.children@[i]@) < height(e@),
{
    lemma_child_height(e@, i);
}

/// Whether no key occurs twice among `attributes`.
pub fn keys_are_distinct(attributes: &Vec<(String, String)>) -> (r: bool)
    ensures
        r == distinct_keys(pairs_of(attributes@)),
{
    let ghost pairs = pairs_of(attributes@);
    let mut i: usize = 0;
    while i < attributes.len()
        invariant
            i <= attributes.len(),
            pairs == pairs_of(attributes@),
            forall|a: int, b: int| 0 <= a < i && a < b < pairs.len() ==> pairs[a].0 != pairs[b].0,
        decreases attributes.len() - i,
    {
        let mut j: usize = i + 1;
        while j < attributes.len()
            invariant
                i < j <= attributes.len(),
                pairs == pairs_of(attributes@),
                forall|b: int| i < b < j ==> pairs[i as int].0 != pairs[b].0,
            decreases attributes.len() - j,
        {
            match compare_keys(attributes[i].0.as_str(), attributes[j].0.as_str()) {
                KeyOrder::Same => {
                    assert(pairs[i as int].0 == pairs[j as int].0);
                    return false;
                },
                _ => {},
            }
            j = j + 1;
        }
        i = i + 1;
    }
    assert forall|a: int, b: int|
        0 <= a < pairs.len() && 0 <= b < pairs.len() && a != b implies pairs[a].0 != pairs[b].0 by {}
    true
}

impl Node {
    /// Whether the element is well formed: decides `wf`.
    pub fn is_well_formed(&self) -> (r: bool)
        ensures
            r == self.wf(),
        decreases height(self@),
    {
        if !keys_are_distinct(&self.attributes) {
            return false;
        }
        let mut i: usize = 0;
        while i < self.children.len()
            invariant
                i <= self.children.len(),
                distinct_keys(pairs_of(self.attributes@)),
                forall|k: int| 0 <= k < i ==> (#[trigger] self.children@[k]).wf(),
            decreases self.children.len() - i,
        {
            proof {
                lemma_child_height(self@, i as int);
            }
            if !self.children[i].is_well_formed() {
                return false;
            }
            i = i + 1;
        }
        true
    }

    /// Whether the element is at most `limit` high.
    pub fn height_at_most(&self, limit: usize) -> (r: bool)
        ensures
            r == (height(self@) <= limit),
        decreases height(self@),
    {
        proof {
            reveal(height);
        }
        if limit == 0 {
            return false;
        }
        let ghost kids = self@.children;
        let mut i: usize = 0;
        while i < self.children.len()
            invariant
                i <= self.children.len(),
                limit > 0,
                kids == self@.children,
                kids.len() == self.children@.len(),
                tallest(kids, i as nat) <= limit - 1,
            decreases self.children.len() - i,
        {
            proof {
                reveal(height);
                lemma_child_height(self@, i as int);
            }
            if !self.children[i].height_at_most(limit - 1) {
                proof {
                    lemma_tallest_bounds(kids, kids.len(), i as int);
                }
                return false;
            }
            i = i + 1;
        }
        true
    }
}

} // verus!
