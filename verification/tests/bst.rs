use ordered_tree::BinarySearchTree;

#[test]
fn test_insert_and_search() {
    let mut bst = BinarySearchTree::new();

    assert_eq!(bst.search(1), false);

    bst.insert(5);
    bst.insert(3);
    bst.insert(7);
    bst.insert(2);
    bst.insert(4);

    assert_eq!(bst.search(5), true);
    assert_eq!(bst.search(3), true);
    assert_eq!(bst.search(7), true);
    assert_eq!(bst.search(2), true);
    assert_eq!(bst.search(4), true);

    assert_eq!(bst.search(1), false);
    assert_eq!(bst.search(6), false);
}

#[test]
fn test_insert_duplicate() {
    let mut bst = BinarySearchTree::new();

    bst.insert(1);
    bst.insert(1);

    assert_eq!(bst.search(1), true);

    match bst.root {
        Some(ref node) => {
            assert!(node.left.is_none());
            assert!(node.right.is_none());
        }
        None => panic!("Root should not be None after insertion"),
    }
}

#[test]
fn search_on_fresh_tree_finds_nothing() {
    let bst = BinarySearchTree::new();
    assert_eq!(bst.search(1), false);
    assert_eq!(bst.search(0), false);
    assert_eq!(bst.search(-1), false);
}

#[test]
fn inserts_place_values_by_order() {
    let mut bst = BinarySearchTree::new();
    bst.insert(5);
    bst.insert(3);
    bst.insert(7);
    bst.insert(2);
    bst.insert(4);

    let root = bst.root.as_ref().expect("root must exist");
    assert_eq!(root.value, 5);

    let left = root.left.as_ref().expect("smaller value must go left");
    assert_eq!(left.value, 3);
    let right = root.right.as_ref().expect("larger value must go right");
    assert_eq!(right.value, 7);

    let left_left = left.left.as_ref().expect("2 must sit left of 3");
    assert_eq!(left_left.value, 2);
    let left_right = left.right.as_ref().expect("4 must sit right of 3");
    assert_eq!(left_right.value, 4);

    assert!(right.left.is_none());
    assert!(right.right.is_none());
}

#[test]
fn sorted_input_builds_a_right_chain() {
    let mut bst = BinarySearchTree::new();
    bst.insert(1);
    bst.insert(2);
    bst.insert(3);

    let root = bst.root.as_ref().expect("root must exist");
    assert_eq!(root.value, 1);
    assert!(root.left.is_none());

    let second = root.right.as_ref().expect("2 must sit right of 1");
    assert_eq!(second.value, 2);
    assert!(second.left.is_none());

    let third = second.right.as_ref().expect("3 must sit right of 2");
    assert_eq!(third.value, 3);
    assert!(third.left.is_none());
    assert!(third.right.is_none());
}

#[test]
fn duplicate_below_the_root_changes_nothing() {
    let mut bst = BinarySearchTree::new();
    bst.insert(5);
    bst.insert(3);
    bst.insert(7);
    bst.insert(3);

    assert_eq!(bst.search(3), true);

    let root = bst.root.as_ref().expect("root must exist");
    let left = root.left.as_ref().expect("3 must sit left of 5");
    assert_eq!(left.value, 3);
    assert!(left.left.is_none());
    assert!(left.right.is_none());
}

#[test]
fn extreme_values_are_handled() {
    let mut bst = BinarySearchTree::new();
    bst.insert(i64::MAX);
    bst.insert(i64::MIN);
    bst.insert(0);

    assert_eq!(bst.search(i64::MAX), true);
    assert_eq!(bst.search(i64::MIN), true);
    assert_eq!(bst.search(0), true);
    assert_eq!(bst.search(1), false);
    assert_eq!(bst.search(-1), false);
}

#[test]
fn absent_values_stay_absent() {
    let mut bst = BinarySearchTree::new();
    let present = [20, 10, 30, 5, 15, 25, 35];
    for v in present {
        bst.insert(v);
    }
    for v in present {
        assert_eq!(bst.search(v), true);
    }
    for v in [0, 7, 12, 17, 22, 27, 32, 40] {
        assert_eq!(bst.search(v), false);
    }
}
