use id_tree::InsertBehavior::{AsRoot, UnderNode};
use id_tree::{AncestorIds, Ancestors, Children, ChildrenIds, Node, NodeId, NodeIdError, Tree};

fn sample_tree() -> (Tree<i32>, Vec<NodeId>) {
    let mut tree = Tree::new();
    let root = tree.insert(Node::new(0), AsRoot).unwrap();
    let one = tree.insert(Node::new(1), UnderNode(&root)).unwrap();
    let two = tree.insert(Node::new(2), UnderNode(&one)).unwrap();
    let three = tree.insert(Node::new(3), UnderNode(&one)).unwrap();
    (tree, vec![root, one, two, three])
}

fn ancestor_data(tree: &Tree<i32>, id: NodeId) -> Vec<i32> {
    let mut walk = Ancestors::new(tree, id);
    let mut out = Vec::new();
    while let Some(node) = walk.next() {
        out.push(*node.data());
    }
    out
}

fn ancestor_id_data(tree: &Tree<i32>, id: NodeId) -> Vec<i32> {
    let mut walk = AncestorIds::new(tree, id);
    let mut out = Vec::new();
    while let Some(a) = walk.next() {
        out.push(*tree.get_unsafe(a).data());
    }
    out
}

fn child_data(tree: &Tree<i32>, id: NodeId) -> Vec<i32> {
    let mut walk = Children::new(tree, id);
    let mut out = Vec::new();
    while let Some(node) = walk.next() {
        out.push(*node.data());
    }
    out
}

fn child_ids(tree: &Tree<i32>, id: NodeId) -> Vec<NodeId> {
    let mut walk = ChildrenIds::new(tree, id);
    let mut out = Vec::new();
    while let Some(c) = walk.next() {
        out.push(*c);
    }
    out
}

#[test]
fn scenario_ancestors_and_children() {
    let (tree, ids) = sample_tree();
    assert_eq!(ancestor_data(&tree, ids[1]), vec![0]);
    assert_eq!(ancestor_data(&tree, ids[2]), vec![1, 0]);
    assert_eq!(ancestor_data(&tree, ids[3]), vec![1, 0]);
    assert_eq!(ancestor_data(&tree, ids[0]), Vec::<i32>::new());
    assert_eq!(child_data(&tree, ids[0]), vec![1]);
    assert_eq!(child_data(&tree, ids[1]), vec![2, 3]);
    assert_eq!(child_data(&tree, ids[2]), Vec::<i32>::new());
    assert_eq!(child_data(&tree, ids[3]), Vec::<i32>::new());
}

#[test]
fn ancestor_count_is_depth_and_ends_at_root() {
    let (tree, ids) = sample_tree();
    let depths = [0usize, 1, 2, 2];
    for (id, depth) in ids.iter().zip(depths.iter()) {
        let data = ancestor_data(&tree, *id);
        assert_eq!(data.len(), *depth);
        if let Some(last) = data.last() {
            assert_eq!(*last, 0);
        }
    }
}

#[test]
fn ancestor_ids_resolve_to_ancestor_nodes() {
    let (tree, ids) = sample_tree();
    for id in &ids {
        assert_eq!(ancestor_id_data(&tree, *id), ancestor_data(&tree, *id));
    }
}

#[test]
fn root_has_no_ancestors() {
    let (tree, ids) = sample_tree();
    let root = *tree.root_node_id().unwrap();
    assert_eq!(root, ids[0]);
    assert!(Ancestors::new(&tree, root).next().is_none());
    assert!(AncestorIds::new(&tree, root).next().is_none());
}

#[test]
fn children_keep_insertion_order() {
    let mut tree = Tree::new();
    let root = tree.insert(Node::new(10), AsRoot).unwrap();
    let a = tree.insert(Node::new(11), UnderNode(&root)).unwrap();
    let b = tree.insert(Node::new(12), UnderNode(&root)).unwrap();
    let c = tree.insert(Node::new(13), UnderNode(&root)).unwrap();
    assert_eq!(child_ids(&tree, root), vec![a, b, c]);
    assert_eq!(child_data(&tree, root), vec![11, 12, 13]);
    assert_eq!(tree.get(&root).unwrap().children(), &vec![a, b, c]);
}

#[test]
fn leaf_has_no_children() {
    let (tree, ids) = sample_tree();
    assert!(Children::new(&tree, ids[2]).next().is_none());
    assert!(ChildrenIds::new(&tree, ids[3]).next().is_none());
}

#[test]
fn exhaustion_is_sticky() {
    let (tree, ids) = sample_tree();

    let mut ancestors = Ancestors::new(&tree, ids[2]);
    assert!(ancestors.next().is_some());
    assert!(ancestors.next().is_some());
    assert!(ancestors.next().is_none());
    assert!(ancestors.next().is_none());
    assert!(ancestors.next().is_none());

    let mut ancestor_ids = AncestorIds::new(&tree, ids[1]);
    assert_eq!(ancestor_ids.next(), Some(&ids[0]));
    assert!(ancestor_ids.next().is_none());
    assert!(ancestor_ids.next().is_none());

    let mut children = Children::new(&tree, ids[0]);
    assert_eq!(children.next().map(|n| *n.data()), Some(1));
    assert!(children.next().is_none());
    assert!(children.next().is_none());

    let mut children_ids = ChildrenIds::new(&tree, ids[1]);
    assert_eq!(children_ids.next(), Some(&ids[2]));
    assert_eq!(children_ids.next(), Some(&ids[3]));
    assert!(children_ids.next().is_none());
    assert!(children_ids.next().is_none());
}

#[test]
fn unknown_handle_is_refused() {
    let (tree, ids) = sample_tree();
    let mut other = Tree::new();
    let mut last = other.insert(Node::new(0), AsRoot).unwrap();
    for k in 1..6 {
        last = other.insert(Node::new(k), UnderNode(&last)).unwrap();
    }
    assert_eq!(tree.get(&last).err(), Some(NodeIdError::InvalidNodeIdForTree));
    assert!(tree.ancestors(&last).is_err());
    assert!(tree.ancestor_ids(&last).is_err());
    assert!(tree.children(&last).is_err());
    assert!(tree.children_ids(&last).is_err());
    assert_eq!(other.insert(Node::new(9), UnderNode(&ids[0])).map(|id| *other.get(&id).unwrap().data()), Ok(9));
}

#[test]
fn insert_under_unknown_handle_changes_nothing() {
    let (mut tree, ids) = sample_tree();
    let mut other = Tree::new();
    let mut last = other.insert(Node::new(0), AsRoot).unwrap();
    for k in 1..6 {
        last = other.insert(Node::new(k), UnderNode(&last)).unwrap();
    }
    assert_eq!(tree.insert(Node::new(7), UnderNode(&last)), Err(NodeIdError::InvalidNodeIdForTree));
    assert_eq!(child_data(&tree, ids[1]), vec![2, 3]);
    assert_eq!(ancestor_data(&tree, ids[3]), vec![1, 0]);
}

#[test]
fn new_root_adopts_former_root() {
    let (mut tree, ids) = sample_tree();
    let top = tree.insert(Node::new(-1), AsRoot).unwrap();
    assert_eq!(tree.root_node_id(), Some(&top));
    assert_eq!(tree.get(&ids[0]).unwrap().parent(), Some(&top));
    assert!(tree.get(&top).unwrap().parent().is_none());
    assert_eq!(child_ids(&tree, top), vec![ids[0]]);
    assert_eq!(ancestor_data(&tree, ids[2]), vec![1, 0, -1]);
    assert_eq!(ancestor_data(&tree, top), Vec::<i32>::new());
}

#[test]
fn empty_tree_has_no_root() {
    let tree: Tree<i32> = Tree::new();
    assert!(tree.root_node_id().is_none());
}
