use wired::tree::{Node, Tree};

#[test]
fn node_children() {
    let mut n = Node::new("a");
    n.add_child(3);
    n.add_child(5);
    assert_eq!(n.get_children(), &vec![3, 5]);
    assert_eq!(n.data, "a");
}

#[test]
fn tree_insert_links_parent() {
    let mut t: Tree<&str> = Tree::new();
    let r = t.insert_root("root");
    let c = t.insert("child", r);
    let g = t.insert("grandchild", c);
    assert_eq!((r, c, g), (0, 1, 2));
    assert_eq!(t.get(0).unwrap().get_children(), &vec![1]);
    assert_eq!(t.get(1).unwrap().get_children(), &vec![2]);
    assert_eq!(t.get(2).unwrap().data, "grandchild");
    assert!(t.get(3).is_none());
    t.get_mut(2).unwrap().data = "changed";
    assert_eq!(t.get(2).unwrap().data, "changed");
    assert!(t.get_mut(9).is_none());
}

#[test]
fn every_index_has_one_parent_and_indices_count_up() {
    let mut t = Tree::new();
    assert_eq!(t.insert_root("r"), 0);
    assert_eq!(t.insert("a", 0), 1);
    assert_eq!(t.insert("b", 0), 2);
    assert_eq!(t.insert("c", 1), 3);
    assert_eq!(t.insert_root("s"), 4);
    let mut seen = vec![0usize; t.nodes.len()];
    for (i, n) in t.nodes.iter().enumerate() {
        for &c in n.get_children() {
            assert!(i < c && c < t.nodes.len());
            seen[c] += 1;
        }
    }
    assert_eq!(seen, vec![0, 1, 1, 1, 0]);
    assert_eq!(t.nodes[0].get_children(), &vec![1, 2]);
}

#[test]
fn children_keep_call_order_and_duplicates() {
    let mut n = Node::new(7);
    for c in [4usize, 2, 4, 9] {
        n.add_child(c);
    }
    assert_eq!(n.get_children(), &vec![4, 2, 4, 9]);
    assert_eq!(n.data, 7);
}
