use binary_tree::text::push_decimal;
use binary_tree::tree::Tree;

fn numeral(value: i32) -> String {
    let mut out = String::new();
    push_decimal(&mut out, value);
    out
}

#[test]
fn empty_tree_prints_nothing() {
    assert_eq!(Tree::new().print_tree(), "");
}

#[test]
fn single_node_prints_one_line() {
    let mut tree = Tree::new();
    assert_eq!(tree.insert(10), Ok(()));
    assert_eq!(tree.print_tree(), "10\n");
}

#[test]
fn seven_nodes_print_right_before_left() {
    let mut tree = Tree::new();
    for v in [5, 3, 7, 2, 4, 6, 8] {
        assert_eq!(tree.insert(v), Ok(()));
    }
    assert_eq!(tree.print_tree(), "5\n  7\n    8\n    6\n  3\n    4\n    2\n");
    assert!(tree.remove(3));
    assert_eq!(tree.print_tree(), "5\n  7\n    8\n    6\n  4\n    2\n");
}

#[test]
fn margin_grows_by_two_spaces_per_level() {
    let mut tree = Tree::new();
    for v in [1, 2, 3, 4] {
        assert_eq!(tree.insert(v), Ok(()));
    }
    assert_eq!(tree.print_tree(), "1\n  2\n    3\n      4\n");
}

#[test]
fn negative_keys_print_with_a_sign() {
    let mut tree = Tree::new();
    for v in [0, -12, 305] {
        assert_eq!(tree.insert(v), Ok(()));
    }
    assert_eq!(tree.print_tree(), "0\n  305\n  -12\n");
}

#[test]
fn print_recursive_appends_behind_the_margin() {
    let mut tree = Tree::new();
    for v in [2, 1] {
        assert_eq!(tree.insert(v), Ok(()));
    }
    let mut out = String::from("head\n");
    Tree::print_tree_recursive(&tree.root, "> ", &mut out);
    assert_eq!(out, "head\n> 2\n>   1\n");
}

#[test]
fn numerals_match_the_standard_form() {
    assert_eq!(numeral(0), "0");
    assert_eq!(numeral(7), "7");
    assert_eq!(numeral(10), "10");
    assert_eq!(numeral(1234567890), "1234567890");
    assert_eq!(numeral(-1), "-1");
    assert_eq!(numeral(-100), "-100");
    assert_eq!(numeral(i32::MAX), "2147483647");
    assert_eq!(numeral(i32::MIN), "-2147483648");
    for v in [-99999, -10, -9, 9, 99, 100, 101, 65536] {
        assert_eq!(numeral(v), v.to_string());
    }
}

#[test]
fn numeral_is_appended_to_what_is_there() {
    let mut out = String::from("x=");
    push_decimal(&mut out, -42);
    assert_eq!(out, "x=-42");
}
