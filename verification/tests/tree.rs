//! Behavioural tests for the multi-way tree node: construction, size,
//! double-ended and indexed mutation, lookup, iteration and the two
//! recursive traversals.

use std::cell::RefCell;

use multitree::Node;

#[test]
fn new_node_is_empty() {
    let node: Node<i32> = Node::new(42);
    assert_eq!(node.len(), 0);
    assert_eq!(*node.value(), 42);
}

#[test]
fn size_tracks_attaches_and_detaches() {
    let mut node = Node::new(0u32);
    node.push_back(Node::new(1));
    node.push_front(Node::new(2));
    node.insert(1, Node::new(3));
    assert_eq!(node.len(), 3);
    assert!(node.pop_back().is_some());
    assert!(node.remove(0).is_some());
    assert_eq!(node.len(), 1);
    assert!(node.remove(5).is_none());
    assert_eq!(node.len(), 1);
    assert!(node.pop_front().is_some());
    assert!(node.pop_front().is_none());
    assert_eq!(node.len(), 0);
}

#[test]
fn push_back_preserves_order() {
    let mut node = Node::new(-1i64);
    for v in 0..5i64 {
        node.push_back(Node::new(v));
    }
    for i in 0..5usize {
        assert_eq!(*node.get(i).expect("child must be present").value(), i as i64);
    }
    let collected: Vec<i64> = node.children().map(|c| *c.value()).collect();
    assert_eq!(collected, vec![0, 1, 2, 3, 4]);
}

#[test]
fn front_back_duality() {
    let mut node = Node::new('r');
    node.push_front(Node::new('x'));
    let back = node.pop_back().expect("the pushed child must come back");
    assert_eq!(*back.value(), 'x');
    assert_eq!(node.len(), 0);

    node.push_back(Node::new('y'));
    let front = node.pop_front().expect("the pushed child must come back");
    assert_eq!(*front.value(), 'y');
    assert_eq!(node.len(), 0);
}

#[test]
fn insert_then_remove_restores_children() {
    let mut node = Node::new(0u8);
    node.push_back(Node::new(10));
    node.push_back(Node::new(20));
    node.push_back(Node::new(30));

    for index in 0..=3usize {
        node.insert(index, Node::new(99));
        assert_eq!(node.len(), 4);
        assert_eq!(*node.get(index).expect("inserted child").value(), 99);
        let removed = node.remove(index).expect("the inserted child again");
        assert_eq!(*removed.value(), 99);
        assert_eq!(node.len(), 3);
        let values: Vec<u8> = node.children().map(|c| *c.value()).collect();
        assert_eq!(values, vec![10, 20, 30]);
    }
}

#[test]
fn absence_on_empty_node() {
    let mut node: Node<u16> = Node::new(5);
    assert!(node.get(0).is_none());
    assert!(node.front().is_none());
    assert!(node.back().is_none());
    assert!(node.front_mut().is_none());
    assert!(node.back_mut().is_none());
    assert!(node.pop_front().is_none());
    assert!(node.pop_back().is_none());
    assert!(node.remove(0).is_none());
}

#[test]
fn absence_past_the_end() {
    let mut node = Node::new(0i32);
    node.push_back(Node::new(1));
    node.push_back(Node::new(2));
    assert!(node.get(2).is_none());
    assert!(node.get_mut(2).is_none());
    assert!(node.remove(2).is_none());
    assert!(node.get(usize::MAX).is_none());
    assert_eq!(node.len(), 2);
}

#[test]
fn positional_lookup_borrows_ends() {
    let mut node = Node::new(0u64);
    node.push_back(Node::new(1));
    node.push_back(Node::new(2));
    node.push_back(Node::new(3));
    assert_eq!(*node.front().expect("has a first child").value(), 1);
    assert_eq!(*node.back().expect("has a last child").value(), 3);
    assert_eq!(*node.get(1).expect("has a middle child").value(), 2);
}

#[test]
fn mutable_lookup_writes_through() {
    let mut node = Node::new(0i8);
    node.push_back(Node::new(1));
    node.push_back(Node::new(2));
    node.push_back(Node::new(3));

    *node.get_mut(1).expect("child at index 1").value_mut() = -2;
    *node.front_mut().expect("first child").value_mut() = -1;
    *node.back_mut().expect("last child").value_mut() = -3;
    node.get_mut(0).expect("first child").push_back(Node::new(7));

    let values: Vec<i8> = node.children().map(|c| *c.value()).collect();
    assert_eq!(values, vec![-1, -2, -3]);
    assert_eq!(*node.get(0).unwrap().get(0).unwrap().value(), 7);
}

#[test]
fn value_transparency() {
    let mut node = Node::new(String::from("before"));
    assert_eq!(node.value(), "before");
    *node.value_mut() = String::from("after");
    assert_eq!(node.value(), "after");
    node.value_mut().push('!');
    assert_eq!(node.value(), "after!");
}

#[test]
fn children_iterates_in_order_without_recursing() {
    let mut node = Node::new(0u32);
    let mut deep = Node::new(1);
    deep.push_back(Node::new(100));
    node.push_back(deep);
    node.push_back(Node::new(2));

    let direct: Vec<u32> = node.children().map(|c| *c.value()).collect();
    assert_eq!(direct, vec![1, 2]);
    assert_eq!(node.children().count(), 2);
}

#[test]
fn children_mut_writes_through() {
    let mut node = Node::new(0u32);
    node.push_back(Node::new(1));
    node.push_back(Node::new(2));
    for child in node.children_mut() {
        *child.value_mut() *= 10;
    }
    let values: Vec<u32> = node.children().map(|c| *c.value()).collect();
    assert_eq!(values, vec![10, 20]);
}

#[test]
fn detached_subtree_is_whole() {
    let mut node = Node::new(0u16);
    let mut child = Node::new(1);
    child.push_back(Node::new(2));
    child.push_back(Node::new(3));
    node.push_back(child);

    let detached = node.pop_back().expect("the attached child");
    assert_eq!(node.len(), 0);
    assert_eq!(*detached.value(), 1);
    let grandchildren: Vec<u16> = detached.children().map(|c| *c.value()).collect();
    assert_eq!(grandchildren, vec![2, 3]);
}

#[test]
fn scenario_double_ended_build() {
    let mut root = Node::new(1i32);
    root.push_back(Node::new(2));
    root.push_back(Node::new(3));
    root.push_front(Node::new(0));

    let order: Vec<i32> = root.children().map(|c| *c.value()).collect();
    assert_eq!(order, vec![0, 2, 3]);
    assert_eq!(root.len(), 3);

    let popped = root.pop_back().expect("last child");
    assert_eq!(*popped.value(), 3);
    assert_eq!(root.len(), 2);
}

/// The tree root(1) -> [child(2) -> [child(4)], child(3)] used by the
/// traversal tests.
fn sample_tree() -> Node<u64> {
    let mut root = Node::new(1);
    let mut two = Node::new(2);
    two.push_back(Node::new(4));
    root.push_back(two);
    root.push_back(Node::new(3));
    root
}

#[test]
fn traverse_visits_preorder_exactly_once() {
    let root = sample_tree();
    let seen: RefCell<Vec<u64>> = RefCell::new(Vec::new());
    root.traverse(|n: &Node<u64>| {
        seen.borrow_mut().push(*n.value());
    });
    assert_eq!(seen.into_inner(), vec![1, 2, 4, 3]);
}

#[test]
fn traverse_single_node() {
    let root = Node::new(9u64);
    let count: RefCell<usize> = RefCell::new(0);
    root.traverse(|_n: &Node<u64>| {
        *count.borrow_mut() += 1;
    });
    assert_eq!(count.into_inner(), 1);
}

#[test]
fn traverse_mut_rewrites_every_value_in_shape() {
    let mut root = sample_tree();
    root.traverse_mut(|v: &u64| v + 1);

    assert_eq!(*root.value(), 2);
    assert_eq!(root.len(), 2);
    let first = root.get(0).expect("first child");
    assert_eq!(*first.value(), 3);
    assert_eq!(first.len(), 1);
    assert_eq!(*first.get(0).expect("grandchild").value(), 5);
    assert_eq!(root.get(0).unwrap().get(0).unwrap().len(), 0);
    let second = root.get(1).expect("second child");
    assert_eq!(*second.value(), 4);
    assert_eq!(second.len(), 0);

    let seen: RefCell<Vec<u64>> = RefCell::new(Vec::new());
    root.traverse(|n: &Node<u64>| {
        seen.borrow_mut().push(*n.value());
    });
    assert_eq!(seen.into_inner(), vec![2, 3, 5, 4]);
}

#[test]
fn traverse_mut_runs_once_per_node() {
    let mut root = sample_tree();
    root.traverse_mut(|v: &u64| v * 10);
    let seen: RefCell<Vec<u64>> = RefCell::new(Vec::new());
    root.traverse(|n: &Node<u64>| {
        seen.borrow_mut().push(*n.value());
    });
    assert_eq!(seen.into_inner(), vec![10, 20, 40, 30]);
}

#[test]
fn clone_copies_the_whole_subtree() {
    let original = sample_tree();
    let mut copy = original.clone();
    *copy.value_mut() = 99;
    copy.get_mut(0).expect("first child of the copy").push_back(Node::new(77));

    let originals: RefCell<Vec<u64>> = RefCell::new(Vec::new());
    original.traverse(|n: &Node<u64>| {
        originals.borrow_mut().push(*n.value());
    });
    assert_eq!(originals.into_inner(), vec![1, 2, 4, 3]);

    let copies: RefCell<Vec<u64>> = RefCell::new(Vec::new());
    copy.traverse(|n: &Node<u64>| {
        copies.borrow_mut().push(*n.value());
    });
    assert_eq!(copies.into_inner(), vec![99, 2, 4, 77, 3]);
}
