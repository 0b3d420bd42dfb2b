// Colour switched on in every test of this file: what is painted carries the
// escape sequences.

use xmldiff::compare::{compare_nodes, diff_trees};
use xmldiff::node::Node;
use xmldiff::parse::diff_documents;
use xmldiff::tag::Tag;
use xmldiff::utils::{log, LogLevel, UtilsErrors};

fn node(name: &str, children: Vec<Node>) -> Node {
    Node { name: name.to_string(), attributes: Vec::new(), text: None, children }
}

#[test]
fn mismatch_marker_is_green_then_red() {
    colored::control::set_override(true);
    let b = node("b", vec![]);
    let tag = Tag::new(&b);
    assert_eq!(tag.print_diff(&2), "\x1b[32m|\x1b[0m <b>\n\x1b[31m|\x1b[0m");
    assert_eq!(tag.print_diff(&0), "\x1b[32m|\x1b[0m<b>\n\x1b[31m|\x1b[0m");
}

#[test]
fn compared_documents_carry_coloured_markers() {
    colored::control::set_override(true);
    let lines = diff_documents(b"<r><a/><b/></r>", b"<r><a/></r>").unwrap();
    assert_eq!(
        lines,
        vec!["<r>", "  <a>", "  </a>", "\x1b[32m|\x1b[0m <b>\n\x1b[31m|\x1b[0m", "</r>"]
    );
}

#[test]
fn root_mismatch_is_coloured() {
    colored::control::set_override(true);
    let lines = diff_trees(&node("a", vec![]), &node("b", vec![]));
    assert_eq!(lines, vec!["\x1b[32m|\x1b[0m<a>\n\x1b[31m|\x1b[0m"]);
}

#[test]
fn compare_nodes_colours_its_markers_and_restores_the_indent() {
    colored::control::set_override(true);
    let x = node("r", vec![node("gone", vec![])]);
    let y = node("r", vec![]);
    let mut indent: usize = 4;
    let lines = compare_nodes(&Tag::new(&x), &Tag::new(&y), &mut indent);
    assert_eq!(indent, 4);
    assert_eq!(
        lines,
        vec!["    <r>", "\x1b[32m|\x1b[0m     <gone>\n\x1b[31m|\x1b[0m", "    </r>"]
    );
}

#[test]
fn log_levels_have_their_colours() {
    colored::control::set_override(true);
    assert_eq!(log(&LogLevel::Info, "started"), "\x1b[37m[INFO]\x1b[0m started");
    assert_eq!(log(&LogLevel::Warning, "careful"), "\x1b[33m[WARNING]\x1b[0m careful");
    assert_eq!(log(&LogLevel::Error, "broken"), "\x1b[31m[ERROR]\x1b[0m broken");
}

#[test]
fn failures_are_red_error_lines() {
    colored::control::set_override(true);
    assert_eq!(
        UtilsErrors::IoOpen("a.xml".to_string()).to_string(),
        "\x1b[31m[ERROR]\x1b[0m Unable to open file a.xml"
    );
    assert_eq!(
        UtilsErrors::IoRead("b.xml".to_string()).to_string(),
        "\x1b[31m[ERROR]\x1b[0m Unable to read file b.xml"
    );
}
