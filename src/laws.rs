use vstd::prelude::*;

use crate::tree::{Node, NodeId, Tree};

verus! {

/// From a live node, the walk toward the root yields exactly as many ancestors
/// as the node's depth, and the last of them, if any, is the root.
pub proof fn lemma_ancestors_match_depth<T>(tree: &Tree<T>, id: NodeId)
    requires
        tree.wf(),
        tree.contains(id),
    ensures
        tree.ancestors_of(id).len() == tree.depth(id),
        tree.ancestor_ids_of(id).len() == tree.depth(id),
        tree.ancestors_of(id).len() > 0 ==> {
            &&& tree.spec_root() matches Some(r)
            &&& tree.ancestor_ids_of(id).last() == r
            &&& tree.ancestors_of(id).last() == tree.node(r)
        },
    decreases tree.depth(id),
{
    if let Some(p) = tree.parent_of(id) {
        lemma_ancestors_match_depth(tree, p);
        if tree.ancestors_of(p).len() == 0 {
            assert(tree.parent_of(p) is None);
        }
    }
}

/// Resolving each handle that the walk toward the root yields gives, element
/// for element, the nodes that the walk by node yields.
pub proof fn lemma_ancestor_ids_resolve<T>(tree: &Tree<T>, id: NodeId)
    requires
        tree.wf(),
        tree.contains(id),
    ensures
        tree.ancestor_ids_of(id).map_values(|a: NodeId| tree.node(a)) == tree.ancestors_of(id),
    decreases tree.depth(id),
{
    if let Some(p) = tree.parent_of(id) {
        lemma_ancestor_ids_resolve(tree, p);
        assert(tree.ancestor_ids_of(id).map_values(|a: NodeId| tree.node(a)) =~= seq![tree.node(p)]
            + tree.ancestor_ids_of(p).map_values(|a: NodeId| tree.node(a)));
    } else {
        assert(tree.ancestor_ids_of(id).map_values(|a: NodeId| tree.node(a)) =~= tree.ancestors_of(id));
    }
}

/// The walk toward the root that starts at the root yields nothing.
pub proof fn lemma_root_has_no_ancestors<T>(tree: &Tree<T>, root: NodeId)
    requires
        tree.wf(),
        tree.spec_root() == Some(root),
    ensures
        tree.ancestors_of(root) == Seq::<Node<T>>::empty(),
        tree.ancestor_ids_of(root) == Seq::<NodeId>::empty(),
{
    assert(tree.contains(root));
    assert(tree.ancestors_of(root) =~= Seq::<Node<T>>::empty());
    assert(tree.ancestor_ids_of(root) =~= Seq::<NodeId>::empty());
}

/// The walk over the children of a live node yields one node for each node
/// whose parent it is, each once, in the order of the node's child list.
pub proof fn lemma_children_match_direct_children<T>(tree: &Tree<T>, id: NodeId)
    requires
        tree.wf(),
        tree.contains(id),
    ensures
        tree.child_ids_of(id).to_set() == tree.direct_children(id),
        tree.direct_children(id).finite(),
        tree.children_of(id).len() == tree.direct_children(id).len(),
        tree.child_ids_of(id).len() == tree.direct_children(id).len(),
        forall|j: int|
            0 <= j < tree.children_of(id).len() ==> #[trigger] tree.children_of(id)[j] == tree.node(
                tree.child_ids_of(id)[j],
            ),
{
    let ids = tree.child_ids_of(id);
    assert forall|c: NodeId| #[trigger] tree.direct_children(id).contains(c) implies ids.contains(c) by {
        assert(tree.parent_of(c) is Some);
    }
    assert forall|c: NodeId| #[trigger] ids.contains(c) implies tree.direct_children(id).contains(c) by {
        let j = choose|j: int| 0 <= j < ids.len() && ids[j] == c;
        assert(tree.child_ids_of(id)[j] == c);
    }
    assert(ids.to_set() =~= tree.direct_children(id));
    ids.unique_seq_to_set();
}

/// A leaf, a node whose parent no node is, has no children to walk over.
pub proof fn lemma_leaf_has_no_children<T>(tree: &Tree<T>, id: NodeId)
    requires
        tree.wf(),
        tree.contains(id),
        tree.direct_children(id) == Set::<NodeId>::empty(),
    ensures
        tree.child_ids_of(id).len() == 0,
        tree.children_of(id).len() == 0,
{
    if tree.child_ids_of(id).len() > 0 {
        let c = tree.child_ids_of(id)[0];
        assert(tree.direct_children(id).contains(c));
    }
}

} // verus!
