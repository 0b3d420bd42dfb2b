// The order on keys against the order that std gives to strings.

use std::cmp::Ordering;

use xmldiff::text::{compare_keys, indentation, KeyOrder};

fn expected(a: &str, b: &str) -> KeyOrder {
    match a.cmp(b) {
        Ordering::Less => KeyOrder::Before,
        Ordering::Equal => KeyOrder::Same,
        Ordering::Greater => KeyOrder::After,
    }
}

#[test]
fn compare_keys_on_chosen_pairs() {
    assert_eq!(compare_keys("", ""), KeyOrder::Same);
    assert_eq!(compare_keys("", "a"), KeyOrder::Before);
    assert_eq!(compare_keys("a", ""), KeyOrder::After);
    assert_eq!(compare_keys("a", "b"), KeyOrder::Before);
    assert_eq!(compare_keys("b", "a"), KeyOrder::After);
    assert_eq!(compare_keys("ab", "abc"), KeyOrder::Before);
    assert_eq!(compare_keys("abc", "ab"), KeyOrder::After);
    assert_eq!(compare_keys("abc", "abd"), KeyOrder::Before);
    assert_eq!(compare_keys("key", "key"), KeyOrder::Same);
    assert_eq!(compare_keys("Z", "a"), KeyOrder::Before);
    assert_eq!(compare_keys("10", "9"), KeyOrder::Before);
}

#[test]
fn compare_keys_agrees_with_the_order_of_strings() {
    let samples = [
        "", "a", "A", "aa", "ab", "b", "ba", "x", "xml", "xmlns", "y", "z", "0", "9", "10", "_", "-",
        "\u{e9}", "e\u{301}", "\u{7f}", "\u{80}", "\u{7ff}", "\u{800}", "\u{d7ff}", "\u{e000}",
        "\u{ffff}", "\u{10000}", "\u{10ffff}", "a\u{10000}", "a\u{ffff}", "\u{4e2d}\u{6587}",
        "\u{4e2d}", "id", "Id", "ID",
    ];
    for a in samples.iter() {
        for b in samples.iter() {
            assert_eq!(compare_keys(a, b), expected(a, b), "{:?} against {:?}", a, b);
        }
    }
}

#[test]
fn compare_keys_is_reflexive_asymmetric_and_transitive_on_samples() {
    let samples = ["", "a", "ab", "abc", "b", "\u{e9}", "\u{10000}"];
    for a in samples.iter() {
        assert_eq!(compare_keys(a, a), KeyOrder::Same);
        for b in samples.iter() {
            if compare_keys(a, b) == KeyOrder::Before {
                assert_eq!(compare_keys(b, a), KeyOrder::After);
                for c in samples.iter() {
                    if compare_keys(b, c) == KeyOrder::Before {
                        assert_eq!(compare_keys(a, c), KeyOrder::Before);
                    }
                }
            }
        }
    }
}

#[test]
fn indentation_is_that_many_spaces() {
    assert_eq!(indentation(0), "");
    assert_eq!(indentation(1), " ");
    assert_eq!(indentation(4), "    ");
    assert_eq!(indentation(37).len(), 37);
    assert!(indentation(37).chars().all(|c| c == ' '));
}
