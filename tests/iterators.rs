use id_tree::InsertBehavior::{AsRoot, UnderNode};
use id_tree::{Node, NodeId, Tree};

fn sample_tree() -> (Tree<i32>, NodeId, NodeId, NodeId, NodeId) {
    let mut tree = Tree::new();

    let root_id = tree.insert(Node::new(0), AsRoot).unwrap();
    let node_1 = tree.insert(Node::new(1), UnderNode(&root_id)).unwrap();
    let node_2 = tree.insert(Node::new(2), UnderNode(&node_1)).unwrap();
    let node_3 = tree.insert(Node::new(3), UnderNode(&node_1)).unwrap();
    (tree, root_id, node_1, node_2, node_3)
}

#[test]
fn test_ancestors() {
    let (tree, root_id, node_1, node_2, node_3) = sample_tree();

    let mut ancestors = tree.ancestors(&root_id).unwrap();
    let mut count = 0;
    while ancestors.next().is_some() {
        count += 1;
    }
    assert_eq!(count, 0);

    let data = [0];
    let mut ancestors = tree.ancestors(&node_1).unwrap();
    let mut index = 0;
    while let Some(node) = ancestors.next() {
        assert_eq!(node.data(), &data[index]);
        index += 1;
    }
    assert_eq!(index, data.len());

    let data = [1, 0];
    let mut ancestors = tree.ancestors(&node_2).unwrap();
    let mut index = 0;
    while let Some(node) = ancestors.next() {
        assert_eq!(node.data(), &data[index]);
        index += 1;
    }
    assert_eq!(index, data.len());

    let data = [1, 0];
    let mut ancestors = tree.ancestors(&node_3).unwrap();
    let mut index = 0;
    while let Some(node) = ancestors.next() {
        assert_eq!(node.data(), &data[index]);
        index += 1;
    }
    assert_eq!(index, data.len());
}

#[test]
fn test_ancestor_ids() {
    let (tree, root_id, node_1, node_2, node_3) = sample_tree();

    let mut ancestor_ids = tree.ancestor_ids(&root_id).unwrap();
    let mut count = 0;
    while ancestor_ids.next().is_some() {
        count += 1;
    }
    assert_eq!(count, 0);

    let data = [0];
    let mut ancestor_ids = tree.ancestor_ids(&node_1).unwrap();
    let mut index = 0;
    while let Some(node_id) = ancestor_ids.next() {
        assert_eq!(tree.get(node_id).unwrap().data(), &data[index]);
        index += 1;
    }
    assert_eq!(index, data.len());

    let data = [1, 0];
    let mut ancestor_ids = tree.ancestor_ids(&node_2).unwrap();
    let mut index = 0;
    while let Some(node_id) = ancestor_ids.next() {
        assert_eq!(tree.get(node_id).unwrap().data(), &data[index]);
        index += 1;
    }
    assert_eq!(index, data.len());

    let data = [1, 0];
    let mut ancestor_ids = tree.ancestor_ids(&node_3).unwrap();
    let mut index = 0;
    while let Some(node_id) = ancestor_ids.next() {
        assert_eq!(tree.get(node_id).unwrap().data(), &data[index]);
        index += 1;
    }
    assert_eq!(index, data.len());
}

#[test]
fn test_children() {
    let (tree, root_id, node_1, node_2, node_3) = sample_tree();

    let data = [1];
    let mut children = tree.children(&root_id).unwrap();
    let mut index = 0;
    while let Some(node) = children.next() {
        assert_eq!(node.data(), &data[index]);
        index += 1;
    }
    assert_eq!(index, data.len());

    let data = [2, 3];
    let mut children = tree.children(&node_1).unwrap();
    let mut index = 0;
    while let Some(node) = children.next() {
        assert_eq!(node.data(), &data[index]);
        index += 1;
    }
    assert_eq!(index, data.len());

    let mut children = tree.children(&node_2).unwrap();
    let mut count = 0;
    while children.next().is_some() {
        count += 1;
    }
    assert_eq!(count, 0);

    let mut children = tree.children(&node_3).unwrap();
    let mut count = 0;
    while children.next().is_some() {
        count += 1;
    }
    assert_eq!(count, 0);
}

#[test]
fn test_children_ids() {
    let (tree, root_id, node_1, node_2, node_3) = sample_tree();

    let data = [1];
    let mut children_ids = tree.children_ids(&root_id).unwrap();
    let mut index = 0;
    while let Some(node_id) = children_ids.next() {
        assert_eq!(tree.get(node_id).unwrap().data(), &data[index]);
        index += 1;
    }
    assert_eq!(index, data.len());

    let data = [2, 3];
    let mut children_ids = tree.children_ids(&node_1).unwrap();
    let mut index = 0;
    while let Some(node_id) = children_ids.next() {
        assert_eq!(tree.get(node_id).unwrap().data(), &data[index]);
        index += 1;
    }
    assert_eq!(index, data.len());

    let mut children_ids = tree.children_ids(&node_2).unwrap();
    let mut count = 0;
    while children_ids.next().is_some() {
        count += 1;
    }
    assert_eq!(count, 0);

    let mut children_ids = tree.children_ids(&node_3).unwrap();
    let mut count = 0;
    while children_ids.next().is_some() {
        count += 1;
    }
    assert_eq!(count, 0);
}
