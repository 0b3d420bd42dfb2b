// Trees built by hand and trees read from bytes: matching, the walk and the
// bound on the height.

use xmldiff::compare::{compare_with_bars, diff_trees_with_bars, find_match};
use xmldiff::node::{keys_are_distinct, Node};
use xmldiff::parse::parse_document;
use xmldiff::tag::Tag;

fn node(name: &str, attributes: &[(&str, &str)], text: Option<&str>, children: Vec<Node>) -> Node {
    Node {
        name: name.to_string(),
        attributes: attributes.iter().map(|(k, v)| (k.to_string(), v.to_string())).collect(),
        text: text.map(|t| t.to_string()),
        children,
    }
}

fn chain(depth: usize) -> Node {
    let mut e = node("leaf", &[], None, vec![]);
    for _ in 1..depth {
        e = node("n", &[], None, vec![e]);
    }
    e
}

#[test]
fn parse_document_reads_names_text_and_children() {
    let e = parse_document(b"<r><a>hi</a><b><c/></b></r>").unwrap();
    assert_eq!(
        e,
        node(
            "r",
            &[],
            None,
            vec![
                node("a", &[], Some("hi"), vec![]),
                node("b", &[], None, vec![node("c", &[], None, vec![])]),
            ]
        )
    );
}

#[test]
fn parse_document_reads_every_attribute_once() {
    let e = parse_document(b"<r c=\"3\" a=\"1\" b=\"2\"/>").unwrap();
    assert_eq!(e.name, "r");
    let mut attributes = e.attributes.clone();
    attributes.sort();
    assert_eq!(
        attributes,
        vec![
            ("a".to_string(), "1".to_string()),
            ("b".to_string(), "2".to_string()),
            ("c".to_string(), "3".to_string()),
        ]
    );
    assert_eq!(e.text, None);
    assert!(e.children.is_empty());
}

#[test]
fn parse_document_skips_the_declaration_and_comments() {
    let e = parse_document(b"<?xml version=\"1.0\"?><!-- c --><r><!-- d --><a/></r>").unwrap();
    assert_eq!(e, node("r", &[], None, vec![node("a", &[], None, vec![])]));
}

#[test]
fn parse_document_rejects_what_is_not_a_document() {
    assert_eq!(parse_document(b""), None);
    assert_eq!(parse_document(b"plain text"), None);
    assert_eq!(parse_document(b"<a><b></a>"), None);
    assert_eq!(parse_document(b"<a"), None);
}

#[test]
fn find_match_returns_the_first_equal_candidate() {
    let wanted = node("a", &[("k", "v")], None, vec![]);
    let candidates = vec![
        node("b", &[("k", "v")], None, vec![]),
        node("a", &[("k", "w")], None, vec![]),
        node("a", &[("k", "v")], None, vec![node("first", &[], None, vec![])]),
        node("a", &[("k", "v")], None, vec![node("second", &[], None, vec![])]),
    ];
    let found = find_match(&Tag::new(&wanted), &candidates).unwrap();
    assert_eq!(found.el, &candidates[2]);
}

#[test]
fn find_match_finds_nothing_among_unequal_candidates() {
    let wanted = node("a", &[], Some("hi"), vec![]);
    let candidates = vec![node("a", &[], Some("bye"), vec![]), node("a", &[], None, vec![])];
    assert!(find_match(&Tag::new(&wanted), &candidates).is_none());
    assert!(find_match(&Tag::new(&wanted), &Vec::new()).is_none());
}

#[test]
fn compare_with_bars_appends_and_restores_the_indent() {
    let x = node("r", &[], None, vec![node("a", &[], None, vec![]), node("b", &[], None, vec![])]);
    let y = node("r", &[], None, vec![node("a", &[], None, vec![])]);
    let mut out = vec!["kept".to_string()];
    let mut indent: usize = 2;
    compare_with_bars(&Tag::new(&x), &Tag::new(&y), &mut indent, "<", ">", &mut out);
    assert_eq!(indent, 2);
    assert_eq!(out, vec!["kept", "  <r>", "    <a>", "    </a>", "<   <b>\n>", "  </r>"]);
}

#[test]
fn compare_with_bars_does_not_ask_for_equal_tags() {
    let x = node("left", &[], None, vec![]);
    let y = node("right", &[], None, vec![]);
    let mut out = Vec::new();
    let mut indent: usize = 0;
    compare_with_bars(&Tag::new(&x), &Tag::new(&y), &mut indent, "|", "|", &mut out);
    assert_eq!(out, vec!["<left>", "</left>"]);
}

#[test]
fn diff_trees_with_bars_dispatches_on_the_roots() {
    let a = node("a", &[], None, vec![node("c", &[], None, vec![])]);
    let b = node("b", &[], None, vec![node("c", &[], None, vec![])]);
    assert_eq!(diff_trees_with_bars(&a, &a, "|", "|"), vec!["<a>", "  <c>", "  </c>", "</a>"]);
    assert_eq!(diff_trees_with_bars(&a, &b, "L", "R"), vec!["L<a>\nR"]);
}

#[test]
fn the_left_tree_is_printed_in_document_order() {
    let x = parse_document(b"<r><a><a1/><a2/></a><b/><c><c1><c2/></c1></c></r>").unwrap();
    let lines = diff_trees_with_bars(&x, &x, "|", "|");
    assert_eq!(
        lines,
        vec![
            "<r>", "  <a>", "    <a1>", "    </a1>", "    <a2>", "    </a2>", "  </a>", "  <b>",
            "  </b>", "  <c>", "    <c1>", "      <c2>", "      </c2>", "    </c1>", "  </c>",
            "</r>",
        ]
    );
}

#[test]
fn height_at_most_counts_the_longest_path() {
    let leaf = node("a", &[], None, vec![]);
    assert!(!leaf.height_at_most(0));
    assert!(leaf.height_at_most(1));
    assert!(leaf.height_at_most(usize::MAX));
    let e = node("r", &[], None, vec![chain(1), chain(4), chain(2)]);
    assert!(!e.height_at_most(4));
    assert!(e.height_at_most(5));
    assert!(e.height_at_most(6));
    assert!(!chain(10).height_at_most(9));
    assert!(chain(10).height_at_most(10));
}

#[test]
fn keys_are_distinct_finds_a_repeated_key() {
    let pair = |k: &str, v: &str| (k.to_string(), v.to_string());
    assert!(keys_are_distinct(&vec![]));
    assert!(keys_are_distinct(&vec![pair("a", "1")]));
    assert!(keys_are_distinct(&vec![pair("a", "1"), pair("b", "1"), pair("c", "1")]));
    assert!(!keys_are_distinct(&vec![pair("a", "1"), pair("b", "2"), pair("a", "3")]));
    assert!(!keys_are_distinct(&vec![pair("b", "1"), pair("a", "2"), pair("a", "2")]));
}

#[test]
fn is_well_formed_looks_at_every_element() {
    let good = node("r", &[("a", "1"), ("b", "2")], None, vec![node("c", &[("a", "1")], None, vec![])]);
    assert!(good.is_well_formed());
    let bad_root = node("r", &[("a", "1"), ("a", "2")], None, vec![]);
    assert!(!bad_root.is_well_formed());
    let bad_leaf = node(
        "r",
        &[],
        None,
        vec![node("c", &[], None, vec![node("d", &[("k", "1"), ("k", "1")], None, vec![])])],
    );
    assert!(!bad_leaf.is_well_formed());
}

#[test]
fn parsed_documents_are_well_formed() {
    let e = parse_document(b"<r a=\"1\" b=\"2\"><c a=\"1\" z=\"9\"><d k=\"v\"/></c></r>").unwrap();
    assert!(e.is_well_formed());
    assert!(e.height_at_most(3));
    assert!(!e.height_at_most(2));
}
