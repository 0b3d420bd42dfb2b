//! The comparison itself: the lines that the left tree is printed as, each
//! child paired with the first child on the right that equals it, and the
//! children that find no partner flagged.

use vstd::prelude::*;

use crate::node::{height, lemma_child, lemma_height_positive, Node, NodeView};
use crate::paint::{is_painted, paint, Color};
use crate::tag::{
    bar, close_line, lemma_sorted_entries_unique, mismatch_block, open_line, same_node, tag_of, Tag,
    TagView,
};

verus! {

/// The character sequences that strings hold, in their order.
pub open spec fn lines_of(strings: Seq<String>) -> Seq<Seq<char>> {
    Seq::new(strings.len(), |i: int| strings[i]@)
}

/// The models of a sequence of elements.
pub open spec fn views_of(elements: Seq<Node>) -> Seq<NodeView> {
    Seq::new(elements.len(), |i: int| elements[i]@)
}

/// Candidate `j` equals the tag `t`.
pub open spec fn matches_at(t: TagView, candidates: Seq<NodeView>, j: int) -> bool {
    0 <= j < candidates.len() && same_node(t, tag_of(candidates[j]))
}

/// The index of the first candidate that equals `t`, if there is one.
pub open spec fn first_match(t: TagView, candidates: Seq<NodeView>) -> Option<int> {
    if exists|j: int| matches_at(t, candidates, j) {
        Some(
            choose|j: int|
                matches_at(t, candidates, j) && forall|k: int|
                    0 <= k < j ==> !matches_at(t, candidates, k),
        )
    } else {
        None
    }
}

/// The lines of comparing `x` with `y` at `indent` columns: the opening line
/// of `x`, the lines of its children two columns further in, and its closing
/// line where it has one.
pub open spec fn diff_lines(
    x: NodeView,
    y: NodeView,
    indent: nat,
    left_bar: Seq<char>,
    right_bar: Seq<char>,
) -> Seq<Seq<char>>
    decreases x, x.children.len() + 1,
{
    let closing = match close_line(tag_of(x), indent) {
        Some(line) => seq![line],
        None => Seq::empty(),
    };
    seq![open_line(tag_of(x), indent)] + children_lines(x, y, 0, indent + 2, left_bar, right_bar)
        + closing
}

/// The lines of the children of `x` from index `from` on, in order. A child
/// that equals a child of `y` is compared with the first such child; one
/// that equals none gives a mismatch marker and is not descended into.
pub open spec fn children_lines(
    x: NodeView,
    y: NodeView,
    from: nat,
    indent: nat,
    left_bar: Seq<char>,
    right_bar: Seq<char>,
) -> Seq<Seq<char>>
    decreases x, x.children.len() - from,
{
    if from >= x.children.len() {
        Seq::empty()
    } else {
        let child = x.children[from as int];
        let lines = match first_match(tag_of(child), y.children) {
            Some(j) => diff_lines(child, y.children[j], indent, left_bar, right_bar),
            None => seq![mismatch_block(tag_of(child), indent, left_bar, right_bar)],
        };
        lines + children_lines(x, y, from + 1, indent, left_bar, right_bar)
    }
}

/// Finds the first of `candidates` whose tag equals `tag`, and returns that
/// tag.
pub fn find_match<'a>(tag: &Tag, candidates: &'a Vec<Node>) -> (r: Option<Tag<'a>>)
    requires
        forall|i: int| 0 <= i < candidates@.len() ==> (#[trigger] candidates@[i]).wf(),
    ensures
        match r {
            Some(found) => {
                &&& first_match(tag@, views_of(candidates@)) matches Some(j)
                &&& 0 <= j < candidates@.len()
                &&& *found.el == candidates@[j]
                &&& found.wf()
            },
            None => first_match(tag@, views_of(candidates@)) is None,
        },
{
    let ghost views = views_of(candidates@);
    let mut j: usize = 0;
    while j < candidates.len()
        invariant
            j <= candidates.len(),
            views == views_of(candidates@),
            forall|i: int| 0 <= i < candidates@.len() ==> (#[trigger] candidates@[i]).wf(),
            forall|k: int| 0 <= k < j ==> !matches_at(tag@, views, k),
        decreases candidates.len() - j,
    {
        let candidate = Tag::new(&candidates[j]);
        if *tag == candidate {
            proof {
                assert(matches_at(tag@, views, j as int));
                let first = first_match(tag@, views)->0;
                assert(first == j);
            }
            return Some(candidate);
        }
        j = j + 1;
    }
    None
}

/// Compares the element of `tag_x` with that of `tag_y` and appends the lines
/// to `out`, with the two bars given for the mismatch markers. `indent` is the
/// column of the opening line; it is moved in by two for the children and
/// back again.
///
/// Each string of `out` is to be printed on a line of its own; a mismatch
/// marker is one string of two lines. The two tags are meant to be equal, as
/// the roots of two documents that are compared and every pair found below
/// them are, but nothing here depends on it.
pub fn compare_with_bars(
    tag_x: &Tag,
    tag_y: &Tag,
    indent: &mut usize,
    left_bar: &str,
    right_bar: &str,
    out: &mut Vec<String>,
)
    requires
        tag_x.wf(),
        tag_x.el.wf(),
        tag_y.el.wf(),
        *old(indent) + 2 * height(tag_x.el@) <= usize::MAX,
    ensures
        *final(indent) == *old(indent),
        lines_of(final(out)@) == lines_of(old(out)@) + diff_lines(
            tag_x.el@,
            tag_y.el@,
            *old(indent) as nat,
            left_bar@,
            right_bar@,
        ),
    decreases height(tag_x.el@),
{
    let ghost x = tag_x.el@;
    let ghost y = tag_y.el@;
    let ghost base = lines_of(out@);
    let ghost column = *indent as nat;
    let ghost inner = column + 2;
    let start_tag = tag_x.print(indent);
    let end_tag = tag_x.print_end(indent);

    proof {
        lemma_height_positive(x);
    }
    *indent += 2;

    out.push(start_tag);
    proof {
        lemma_sorted_entries_unique(tag_x@.attrs, x.attributes);
        assert(tag_x@ == tag_of(x));
        assert(y.children =~= views_of(tag_y.el.children@));
        assert(lines_of(out@) =~= base + seq![open_line(tag_of(x), column)]);
    }

    let mut i: usize = 0;
    while i < tag_x.el.children.len()
        invariant
            i <= tag_x.el.children.len(),
            x == tag_x.el@,
            y == tag_y.el@,
            y.children == views_of(tag_y.el.children@),
            tag_x.el.wf(),
            tag_y.el.wf(),
            *indent == inner,
            inner == column + 2,
            column + 2 * height(x) <= usize::MAX,
            lines_of(out@) + children_lines(x, y, i as nat, inner, left_bar@, right_bar@) == base
                + seq![open_line(tag_of(x), column)] + children_lines(
                x,
                y,
                0,
                inner,
                left_bar@,
                right_bar@,
            ),
        decreases tag_x.el.children.len() - i,
    {
        let ghost before = lines_of(out@);
        let ghost rest = children_lines(x, y, (i + 1) as nat, inner, left_bar@, right_bar@);
        let child_x = &tag_x.el.children[i];
        proof {
            lemma_child(*tag_x.el, i as int);
        }
        let tag_child_x = Tag::new(child_x);
        match find_match(&tag_child_x, &tag_y.el.children) {
            Some(tag_child_y) => {
                compare_with_bars(&tag_child_x, &tag_child_y, indent, left_bar, right_bar, out);
                proof {
                    let j = first_match(tag_of(child_x@), y.children)->0;
                    assert(y.children[j] == tag_child_y.el@);
                    let lines = diff_lines(child_x@, y.children[j], inner, left_bar@, right_bar@);
                    assert(lines_of(out@) == before + lines);
                    assert((before + lines) + rest =~= before + (lines + rest));
                }
            },
            None => {
                let marker = tag_child_x.print_diff_with(indent, left_bar, right_bar);
                out.push(marker);
                proof {
                    let lines = seq![mismatch_block(tag_of(child_x@), inner, left_bar@, right_bar@)];
                    assert(lines_of(out@) =~= before + lines);
                    assert((before + lines) + rest =~= before + (lines + rest));
                }
            },
        }
        i = i + 1;
    }

    proof {
        assert(children_lines(x, y, i as nat, inner, left_bar@, right_bar@) =~= Seq::<Seq<char>>::empty());
    }
    let ghost walked = lines_of(out@);
    if let Some(v) = end_tag {
        out.push(v);
        assert(lines_of(out@) =~= walked + seq![v@]);
    }

    *indent -= 2;
    proof {
        let middle = children_lines(x, y, 0, inner, left_bar@, right_bar@);
        let opening = seq![open_line(tag_of(x), column)];
        assert(walked =~= base + opening + middle);
        assert(lines_of(out@) =~= base + diff_lines(x, y, column, left_bar@, right_bar@));
    }
}

/// Compares the element of `tag_x` with that of `tag_y` and returns the lines,
/// the mismatch markers with a green and a red bar.
pub fn compare_nodes(tag_x: &Tag, tag_y: &Tag, indent: &mut usize) -> (lines: Vec<String>)
    requires
        tag_x.wf(),
        tag_x.el.wf(),
        tag_y.el.wf(),
        *old(indent) + 2 * height(tag_x.el@) <= usize::MAX,
    ensures
        *final(indent) == *old(indent),
        exists|left_bar: Seq<char>, right_bar: Seq<char>|
            is_painted(left_bar, Color::Green, bar()) && is_painted(right_bar, Color::Red, bar())
                && lines_of(lines@) == #[trigger] diff_lines(
                tag_x.el@,
                tag_y.el@,
                *old(indent) as nat,
                left_bar,
                right_bar,
            ),
{
    proof {
        reveal_strlit("|");
    }
    let left_bar = paint(Color::Green, "|");
    let right_bar = paint(Color::Red, "|");
    assert("|"@ =~= bar());
    let mut lines: Vec<String> = Vec::new();
    compare_with_bars(tag_x, tag_y, indent, left_bar.as_str(), right_bar.as_str(), &mut lines);
    assert(lines_of(lines@) =~= diff_lines(
        tag_x.el@,
        tag_y.el@,
        *old(indent) as nat,
        left_bar@,
        right_bar@,
    ));
    lines
}

/// What comparing two documents prints: the comparison of the roots from the
/// margin where their tags are equal, and a single mismatch marker for the
/// left root where they are not.
pub open spec fn diff_output(x: NodeView, y: NodeView, left_bar: Seq<char>, right_bar: Seq<char>) -> Seq<
    Seq<char>,
> {
    if same_node(tag_of(x), tag_of(y)) {
        diff_lines(x, y, 0, left_bar, right_bar)
    } else {
        seq![mismatch_block(tag_of(x), 0, left_bar, right_bar)]
    }
}

/// Compares two documents by their roots, with the two bars given for the
/// mismatch markers.
pub fn diff_trees_with_bars(x: &Node, y: &Node, left_bar: &str, right_bar: &str) -> (lines: Vec<
    String,
>)
    requires
        x.wf(),
        y.wf(),
        2 * height(x@) <= usize::MAX,
    ensures
        lines_of(lines@) == diff_output(x@, y@, left_bar@, right_bar@),
{
    let mut indent: usize = 0;
    let tag_x = Tag::new(x);
    let tag_y = Tag::new(y);
    let mut lines: Vec<String> = Vec::new();
    if tag_x == tag_y {
        compare_with_bars(&tag_x, &tag_y, &mut indent, left_bar, right_bar, &mut lines);
        assert(lines_of(lines@) =~= diff_lines(x@, y@, 0, left_bar@, right_bar@));
    } else {
        lines.push(tag_x.print_diff_with(&indent, left_bar, right_bar));
        assert(lines_of(lines@) =~= seq![mismatch_block(tag_of(x@), 0, left_bar@, right_bar@)]);
    }
    lines
}

/// Compares two documents by their roots, the mismatch markers with a green
/// and a red bar.
pub fn diff_trees(x: &Node, y: &Node) -> (lines: Vec<String>)
    requires
        x.wf(),
        y.wf(),
        2 * height(x@) <= usize::MAX,
    ensures
        exists|left_bar: Seq<char>, right_bar: Seq<char>|
            is_painted(left_bar, Color::Green, bar()) && is_painted(right_bar, Color::Red, bar())
                && lines_of(lines@) == #[trigger] diff_output(x@, y@, left_bar, right_bar),
{
    proof {
        reveal_strlit("|");
    }
    let left_bar = paint(Color::Green, "|");
    let right_bar = paint(Color::Red, "|");
    assert("|"@ =~= bar());
    diff_trees_with_bars(x, y, left_bar.as_str(), right_bar.as_str())
}

} // verus!
