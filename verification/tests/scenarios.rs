// Whole documents, from bytes to printed lines. Colour is switched off in every
// test of this file, so the bars of a mismatch marker are plain.

use xmldiff::parse::{diff_documents, DiffError};

fn diff(left: &str, right: &str) -> Vec<String> {
    colored::control::set_override(false);
    diff_documents(left.as_bytes(), right.as_bytes()).expect("both documents parse")
}

#[test]
fn identity() {
    let doc = "<root><a x=\"1\"/></root>";
    assert_eq!(diff(doc, doc), vec!["<root>", "  <a x=\"1\">", "  </a>", "</root>"]);
}

#[test]
fn attribute_reorder_is_not_a_diff() {
    let lines = diff("<r><a x=\"1\" y=\"2\"/></r>", "<r><a y=\"2\" x=\"1\"/></r>");
    assert_eq!(lines, vec!["<r>", "  <a x=\"1\" y=\"2\">", "  </a>", "</r>"]);
}

#[test]
fn attribute_reorder_on_the_left_prints_sorted() {
    let lines = diff("<r><a y=\"2\" x=\"1\"/></r>", "<r><a x=\"1\" y=\"2\"/></r>");
    assert_eq!(lines, vec!["<r>", "  <a x=\"1\" y=\"2\">", "  </a>", "</r>"]);
}

#[test]
fn left_only_child() {
    let lines = diff("<r><a/><b/></r>", "<r><a/></r>");
    assert_eq!(lines, vec!["<r>", "  <a>", "  </a>", "| <b>\n|", "</r>"]);
}

#[test]
fn right_only_child_is_silent() {
    let lines = diff("<r><a/></r>", "<r><a/><b/></r>");
    assert_eq!(lines, vec!["<r>", "  <a>", "  </a>", "</r>"]);
}

#[test]
fn text_bearing_leaf_text_differs() {
    let lines = diff("<r><a>hi</a></r>", "<r><a>bye</a></r>");
    assert_eq!(lines, vec!["<r>", "| <a>hi</a>\n|", "</r>"]);
}

#[test]
fn text_bearing_leaf_text_equal_attributes_differ() {
    let lines = diff("<r><a x=\"1\">hi</a></r>", "<r><a x=\"2\">hi</a></r>");
    assert_eq!(lines, vec!["<r>", "  <a x=\"1\">hi</a>", "</r>"]);
}

#[test]
fn root_mismatch() {
    let lines = diff("<a/>", "<b/>");
    assert_eq!(lines, vec!["|<a>\n|"]);
}

#[test]
fn root_mismatch_does_not_descend() {
    let lines = diff("<a><c/><d/></a>", "<b><c/><d/></b>");
    assert_eq!(lines, vec!["|<a>\n|"]);
}

#[test]
fn mismatched_child_is_not_descended_into() {
    let lines = diff("<r><a k=\"1\"><deep/></a></r>", "<r><a k=\"2\"><deep/></a></r>");
    assert_eq!(lines, vec!["<r>", "| <a k=\"1\">\n|", "</r>"]);
}

#[test]
fn nesting_indents_by_two() {
    let doc = "<a><b><c><d/></c></b></a>";
    assert_eq!(
        diff(doc, doc),
        vec!["<a>", "  <b>", "    <c>", "      <d>", "      </d>", "    </c>", "  </b>", "</a>"]
    );
}

#[test]
fn deep_mismatch_sits_one_column_left_of_its_siblings() {
    let lines = diff("<a><b><c/><d/></b></a>", "<a><b><c/></b></a>");
    assert_eq!(
        lines,
        vec!["<a>", "  <b>", "    <c>", "    </c>", "|   <d>\n|", "  </b>", "</a>"]
    );
}

#[test]
fn first_match_wins_and_may_be_taken_twice() {
    // Both left children equal the single right child: each is compared with it.
    let lines = diff("<r><a/><a/></r>", "<r><a/></r>");
    assert_eq!(lines, vec!["<r>", "  <a>", "  </a>", "  <a>", "  </a>", "</r>"]);
}

#[test]
fn a_child_is_compared_with_the_first_equal_child_on_the_right() {
    // The first <a> on the right has no <x>, the second has: the first is taken.
    let lines = diff("<r><a><x/></a></r>", "<r><a/><a><x/></a></r>");
    assert_eq!(lines, vec!["<r>", "  <a>", "|   <x>\n|", "  </a>", "</r>"]);
}

#[test]
fn text_branch_ignores_the_name() {
    let lines = diff("<r><a>hi</a></r>", "<r><b>hi</b></r>");
    assert_eq!(lines, vec!["<r>", "  <a>hi</a>", "</r>"]);
}

#[test]
fn element_with_text_and_children_walks_the_children() {
    let doc = "<r><a>hi<b/></a></r>";
    assert_eq!(diff(doc, doc), vec!["<r>", "  <a>hi</a>", "    <b>", "    </b>", "</r>"]);
}

#[test]
fn whitespace_between_tags_is_ignored() {
    let lines = diff("<r>\n  <a/>\n</r>", "<r><a/></r>");
    assert_eq!(lines, vec!["<r>", "  <a>", "  </a>", "</r>"]);
}

#[test]
fn attribute_values_are_not_escaped() {
    let doc = "<r a=\"x &amp; &quot;y&quot;\"/>";
    assert_eq!(diff(doc, doc), vec!["<r a=\"x & \"y\"\">", "</r>"]);
}

#[test]
fn unparsable_left_document() {
    colored::control::set_override(false);
    assert_eq!(diff_documents(b"<a>", b"<a/>"), Err(DiffError::ParseLeft));
    assert_eq!(diff_documents(b"", b"<a/>"), Err(DiffError::ParseLeft));
    assert_eq!(diff_documents(b"not xml", b"also not"), Err(DiffError::ParseLeft));
}

#[test]
fn unparsable_right_document() {
    colored::control::set_override(false);
    assert_eq!(diff_documents(b"<a/>", b"<a"), Err(DiffError::ParseRight));
    assert_eq!(diff_documents(b"<a/>", b"<a></b>"), Err(DiffError::ParseRight));
}
