use bst::tree::Tree;
use bst::value::TreeValue;
use std::cmp::Ordering;

fn tree_of(values: &[u32]) -> Tree<u32> {
    let mut t = Tree::new_empty();
    for v in values {
        t.put(*v);
    }
    t
}

#[test]
fn render_of_empty_tree_is_null() {
    let t: Tree<u32> = Tree::new_empty();
    assert_eq!(t.render(), "Null");
}

#[test]
fn find_max_of_empty_tree_is_none() {
    let t: Tree<u32> = Tree::new_empty();
    assert_eq!(t.find_max(), None);
}

#[test]
fn singleton_renders_its_value() {
    let t = Tree::new_filled(34u32);
    assert_eq!(t.render(), "34\n");
    assert_eq!(t.find_max(), Some(34));
}

#[test]
fn scenario_three_five_seven() {
    let t = tree_of(&[3, 5, 7, 6, 10, 1, 3]);
    assert_eq!(t.find_max(), Some(10));
    let text = t.render();
    assert_eq!(
        text,
        "3\n├ 5\n│ ├ 7\n│ │ ├ 10\n│ │ └ 6\n│ └ 3\n└ 1\n"
    );
    assert_eq!(text.lines().next(), Some("3"));
}

#[test]
fn equal_values_go_right() {
    let t = tree_of(&[5, 5]);
    assert_eq!(t.render(), "5\n└ 5\n");
}

#[test]
fn lesser_values_go_left() {
    let t = tree_of(&[5, 4]);
    assert_eq!(t.render(), "5\n└ 4\n");
    assert_eq!(t.find_max(), Some(5));
}

#[test]
fn find_max_is_largest_inserted() {
    let mut t: Tree<i64> = Tree::new_empty();
    for v in [4i64, -2, 9, 9, 0, -7] {
        t.put(v);
    }
    assert_eq!(t.find_max(), Some(9));
}

#[test]
fn find_max_of_descending_chain() {
    let t = tree_of(&[9, 8, 7, 6]);
    assert_eq!(t.find_max(), Some(9));
    assert_eq!(t.render(), "9\n└ 8\n  └ 7\n    └ 6\n");
}

#[test]
fn one_node_per_inserted_value() {
    let values = [3u32, 5, 7, 6, 10, 1, 3, 3, 0];
    let t = tree_of(&values);
    assert_eq!(t.render().lines().count(), values.len());
}

#[test]
fn equality_by_root_value() {
    assert!(Tree::new_filled(5u32).equals(&Tree::new_filled(5u32)));
    assert!(!Tree::new_filled(5u32).equals(&Tree::new_filled(6u32)));
    assert!(Tree::new_filled(5u32) == Tree::new_filled(5u32));
    assert!(Tree::new_filled(5u32) != Tree::new_filled(6u32));
}

#[test]
fn equal_roots_with_different_subtrees_are_equal() {
    let a = tree_of(&[5, 1, 9]);
    let b = tree_of(&[5, 7]);
    assert!(a.equals(&b));
    assert!(a == b);
    assert_eq!(a.compare(&b), Ordering::Equal);
    assert_ne!(a.render(), b.render());
}

#[test]
fn empty_tree_comes_first() {
    let empty: Tree<u32> = Tree::new_empty();
    for x in [0u32, 1, 42, u32::MAX] {
        let one = Tree::new_filled(x);
        assert_eq!(empty.compare(&one), Ordering::Less);
        assert_eq!(one.compare(&empty), Ordering::Greater);
        assert_eq!(empty.partial_cmp(&one), Some(Ordering::Less));
        assert!(empty < one);
        assert!(!empty.equals(&one));
    }
    let other: Tree<u32> = Tree::new_empty();
    assert_eq!(empty.compare(&other), Ordering::Equal);
    assert!(empty.equals(&other));
    assert!(empty == other);
}

#[test]
fn trees_ordered_by_root_value() {
    let a = Tree::new_filled(3i32);
    let b = Tree::new_filled(8i32);
    assert_eq!(a.compare(&b), Ordering::Less);
    assert_eq!(b.compare(&a), Ordering::Greater);
    assert!(a < b);
}

#[test]
fn tree_of_trees_renders_nested_diagrams() {
    let mut t1 = Tree::new_filled(73u32);
    t1.put(23);
    t1.put(21);
    t1.put(50);
    t1.put(80);
    t1.put(60);
    assert_eq!(t1.render(), "73\n├ 80\n└ 23\n  ├ 50\n  │ └ 60\n  └ 21\n");

    let mut t2 = Tree::new_filled(22u32);
    t2.put(10);
    t2.put(34);
    assert_eq!(t2.render(), "22\n├ 34\n└ 10\n");

    let mut tt: Tree<Tree<u32>> = Tree::new_empty();
    tt.put(t2);
    tt.put(t1);
    assert_eq!(
        tt.render(),
        "22\n├ 34\n└ 10\n└ 73\n  ├ 80\n  └ 23\n    ├ 50\n    │ └ 60\n    └ 21\n"
    );
    let max = tt.find_max().unwrap();
    assert_eq!(max.find_max(), Some(80));
}

#[test]
fn nested_diagram_under_a_tee_keeps_the_bar() {
    let mut hi = Tree::new_filled(9u32);
    hi.put(12);
    let mut tt: Tree<Tree<u32>> = Tree::new_empty();
    tt.put(Tree::new_filled(5));
    tt.put(hi);
    tt.put(Tree::new_filled(1));
    assert_eq!(tt.render(), "5\n├ 9\n│ └ 12\n└ 1\n");
}

#[test]
fn empty_tree_inside_a_tree_renders_null() {
    let mut tt: Tree<Tree<u32>> = Tree::new_empty();
    tt.put(Tree::new_filled(4));
    tt.put(Tree::new_empty());
    assert_eq!(tt.render(), "4\n└ Null\n");
}

#[test]
fn render_twice_gives_same_text() {
    let t = tree_of(&[3, 5, 7, 6, 10, 1, 3]);
    let first = t.render();
    let second = t.render();
    assert_eq!(first, second);
}

#[test]
fn integer_text_is_decimal() {
    assert_eq!(0u32.text(), "0");
    assert_eq!(1234567u64.text(), "1234567");
    assert_eq!(u64::MAX.text(), "18446744073709551615");
    assert_eq!((-45i32).text(), "-45");
    assert_eq!(i64::MIN.text(), "-9223372036854775808");
    assert_eq!(i32::MAX.text(), "2147483647");
}

#[test]
fn duplicate_copies_whole_tree() {
    let t = tree_of(&[3, 5, 7, 1]);
    let c = t.duplicate();
    assert_eq!(c.render(), t.render());
    assert_eq!(c.find_max(), Some(7));
}

#[test]
fn is_le_orders_integers_and_trees() {
    assert!(3u64.is_le(&3));
    assert!(!4u64.is_le(&3));
    assert!((-5i64).is_le(&-4));
    let empty: Tree<u32> = Tree::new_empty();
    assert!(empty.is_le(&Tree::new_filled(0)));
    assert!(!Tree::new_filled(0u32).is_le(&empty));
}
