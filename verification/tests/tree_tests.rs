use baselib::structures::tree::{RBNode, RBTree};

fn node(key: u128, value: usize) -> RBNode {
    RBNode { key, value, idx: usize::MAX }
}

fn tree_of(keys: &[u128]) -> RBTree {
    let mut t = RBTree::new();
    for &k in keys {
        t.put(node(k, (k * 10) as usize));
    }
    t
}

#[test]
fn new_node_is_empty() {
    let n = RBNode::new();
    assert_eq!((n.key, n.value, n.idx), (0, 0, usize::MAX));
}

#[test]
fn put_then_get() {
    let mut t = RBTree::new();
    t.put(node(30, 3));
    t.put(node(10, 1));
    t.put(node(20, 2));
    assert_eq!(t.size(), 3);
    assert_eq!(t.get(20), Some(2));
    assert_eq!(t.get(25), None);
    t.put(node(20, 7));
    assert_eq!(t.size(), 3);
    assert_eq!(t.get(20), Some(7));
}

#[test]
fn putting_a_present_key_keeps_its_index() {
    let mut t = RBTree::new();
    t.put(RBNode { key: 5, value: 1, idx: 42 });
    t.put(RBNode { key: 5, value: 2, idx: 99 });
    let n = t.ceiling_node(5).unwrap();
    assert_eq!((n.key, n.value, n.idx), (5, 2, 42));
}

#[test]
fn empty_tree_answers() {
    let t = RBTree::new();
    assert_eq!(t.size(), 0);
    assert_eq!(t.min(), 0);
    assert_eq!(t.max(), 0);
    assert_eq!(t.ceiling(1), None);
    assert_eq!(t.floor(1), None);
    assert_eq!(t.select(0), None);
    assert_eq!(t.rank(5), 0);
}

#[test]
fn order_queries() {
    let t = tree_of(&[50, 10, 40, 20, 30]);
    assert_eq!(t.min(), 10);
    assert_eq!(t.max(), 50);
    assert_eq!(t.ceiling(25), Some(30));
    assert_eq!(t.ceiling(30), Some(30));
    assert_eq!(t.ceiling(51), None);
    assert_eq!(t.floor(25), Some(20));
    assert_eq!(t.floor(10), Some(10));
    assert_eq!(t.floor(9), None);
    assert_eq!(t.rank(10), 0);
    assert_eq!(t.rank(35), 3);
    assert_eq!(t.rank(100), 5);
    assert_eq!(t.select(0), Some(10));
    assert_eq!(t.select(4), Some(50));
    assert_eq!(t.select(5), None);
}

#[test]
fn rank_and_select_undo_each_other() {
    let t = tree_of(&[7, 3, 99, 15, 1, 64]);
    for i in 0..t.size() {
        let k = t.select(i).unwrap();
        assert_eq!(t.rank(k), i);
    }
}

#[test]
fn deletions() {
    let mut t = tree_of(&[50, 10, 40, 20, 30]);
    t.delete(30);
    assert_eq!(t.get(30), None);
    assert_eq!(t.size(), 4);
    t.delete_min();
    assert_eq!(t.min(), 20);
    t.delete_max();
    assert_eq!(t.max(), 40);
    assert_eq!(t.size(), 2);
    assert_eq!(t.get(20), Some(200));
    assert_eq!(t.get(40), Some(400));
}
