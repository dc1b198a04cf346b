use vstd::prelude::*;

use crate::iterators::{AncestorIds, Ancestors, Children, ChildrenIds};

verus! {

/// A handle naming one node's slot in a `Tree`.
///
/// It is cheap to copy and carries no ownership: it is a back-reference, not a pointer.
#[derive(Clone, Copy, Debug, PartialEq, Eq, Structural, Hash)]
pub struct NodeId {
    index: usize,
}

impl NodeId {
    /// The slot that the handle names.
    pub closed spec fn view(self) -> nat {
        self.index as nat
    }
}

/// One node of a `Tree`: a payload, an optional parent, and an ordered list of children.
pub struct Node<T> {
    data: T,
    parent: Option<NodeId>,
    children: Vec<NodeId>,
}

impl<T> Node<T> {
    /// The payload.
    pub closed spec fn spec_data(&self) -> T {
        self.data
    }

    /// The parent's handle; `None` for a root or a detached node.
    pub closed spec fn spec_parent(&self) -> Option<NodeId> {
        self.parent
    }

    /// The children's handles, in insertion order.
    pub closed spec fn spec_children(&self) -> Seq<NodeId> {
        self.children@
    }

    /// A detached node holding `data`, with no parent and no children.
    pub fn new(data: T) -> (r: Node<T>)
        ensures
            r.spec_data() == data,
            r.spec_parent() is None,
            r.spec_children() == Seq::<NodeId>::empty(),
    {
        Node { data, parent: None, children: Vec::new() }
    }

    /// The payload.
    pub fn data(&self) -> (r: &T)
        ensures
            *r == self.spec_data(),
    {
        &self.data
    }

    /// The parent's handle, if the node has a parent.
    pub fn parent(&self) -> (r: Option<&NodeId>)
        ensures
            match r {
                Some(p) => self.spec_parent() == Some(*p),
                None => self.spec_parent() is None,
            },
    {
        match &self.parent {
            Some(p) => Some(p),
            None => None,
        }
    }

    /// The children's handles, in the order in which they were inserted.
    pub fn children(&self) -> (r: &Vec<NodeId>)
        ensures
            r@ == self.spec_children(),
    {
        &self.children
    }
}

/// Why a handle was refused.
#[derive(Clone, Copy, Debug, PartialEq, Eq, Structural)]
pub enum NodeIdError {
    /// The handle names no node of this tree.
    InvalidNodeIdForTree,
}

/// Where `Tree::insert` puts a new node.
pub enum InsertBehavior<'a> {
    /// As the new root; a former root becomes its only child.
    AsRoot,
    /// As the last child of the given node.
    UnderNode(&'a NodeId),
}

/// A tree whose nodes live in one arena and name each other by `NodeId`.
///
/// Nodes are never removed, so a handle that the tree gave out stays valid.
pub struct Tree<T> {
    nodes: Vec<Node<T>>,
    root: Option<NodeId>,
    depths: Ghost<Seq<nat>>,
}

impl<T> Tree<T> {
    /// The arena: the node named by `id` sits at position `id@`.
    pub closed spec fn spec_nodes(&self) -> Seq<Node<T>> {
        self.nodes@
    }

    /// The root's handle; `None` exactly when the tree is empty.
    pub closed spec fn spec_root(&self) -> Option<NodeId> {
        self.root
    }

    /// The number of parent links from the node up to the root; `wf` ties it to
    /// the links (the root has depth 0, a child one more than its parent).
    pub closed spec fn depth(&self, id: NodeId) -> nat {
        self.depths@[id@ as int]
    }

    /// `id` names a live node of this tree.
    pub open spec fn contains(&self, id: NodeId) -> bool {
        id@ < self.spec_nodes().len()
    }

    /// The node that `id` names.
    pub open spec fn node(&self, id: NodeId) -> Node<T> {
        self.spec_nodes()[id@ as int]
    }

    /// The parent's handle of the node that `id` names.
    pub open spec fn parent_of(&self, id: NodeId) -> Option<NodeId> {
        self.node(id).spec_parent()
    }

    /// The children's handles of the node that `id` names, in insertion order.
    pub open spec fn child_ids_of(&self, id: NodeId) -> Seq<NodeId> {
        self.node(id).spec_children()
    }

    /// Every node has a recorded depth.
    pub closed spec fn depths_recorded(&self) -> bool {
        self.depths@.len() == self.nodes@.len()
    }

    /// Well-formedness: one root exactly when the tree is not empty, parent and
    /// child links that agree, name live nodes, and only lead toward the root.
    pub open spec fn wf(&self) -> bool {
        &&& self.depths_recorded()
        &&& (self.spec_root() is None <==> self.spec_nodes().len() == 0)
        &&& forall|r: NodeId|
            self.spec_root() == Some(r) ==> #[trigger] self.contains(r) && self.parent_of(r) is None
        &&& forall|id: NodeId|
            #![trigger self.parent_of(id)]
            self.contains(id) && self.parent_of(id) is None ==> self.spec_root() == Some(id)
                && self.depth(id) == 0
        &&& forall|id: NodeId|
            #![trigger self.parent_of(id)]
            self.contains(id) && self.parent_of(id) is Some ==> {
                let p = self.parent_of(id)->Some_0;
                &&& self.contains(p)
                &&& self.depth(p) + 1 == self.depth(id)
                &&& self.child_ids_of(p).contains(id)
            }
        &&& forall|id: NodeId, j: int|
            #![trigger self.child_ids_of(id)[j]]
            self.contains(id) && 0 <= j < self.child_ids_of(id).len() ==> {
                let c = self.child_ids_of(id)[j];
                self.contains(c) && self.parent_of(c) == Some(id)
            }
        &&& forall|id: NodeId| #[trigger]
            self.contains(id) ==> self.child_ids_of(id).no_duplicates()
    }

    /// The handles of the ancestors of `id`, from its parent up to the root.
    pub open spec fn ancestor_ids_of(&self, id: NodeId) -> Seq<NodeId>
        decreases self.depth(id),
    {
        match self.parent_of(id) {
            Some(p) => if self.depth(p) < self.depth(id) {
                seq![p] + self.ancestor_ids_of(p)
            } else {
                seq![]
            },
            None => seq![],
        }
    }

    /// The ancestors of `id`, from its parent up to the root.
    pub open spec fn ancestors_of(&self, id: NodeId) -> Seq<Node<T>>
        decreases self.depth(id),
    {
        match self.parent_of(id) {
            Some(p) => if self.depth(p) < self.depth(id) {
                seq![self.node(p)] + self.ancestors_of(p)
            } else {
                seq![]
            },
            None => seq![],
        }
    }

    /// The children of `id`, in the order of its child list.
    pub open spec fn children_of(&self, id: NodeId) -> Seq<Node<T>> {
        self.child_ids_of(id).map_values(|c: NodeId| self.node(c))
    }

    /// The nodes whose parent is `id`.
    pub open spec fn direct_children(&self, id: NodeId) -> Set<NodeId> {
        Set::new(|c: NodeId| self.contains(c) && self.parent_of(c) == Some(id))
    }

    /// An empty tree.
    pub fn new() -> (r: Tree<T>)
        ensures
            r.wf(),
            r.spec_nodes().len() == 0,
    {
        Tree { nodes: Vec::new(), root: None, depths: Ghost(Seq::empty()) }
    }

    /// The root's handle, if the tree is not empty.
    pub fn root_node_id(&self) -> (r: Option<&NodeId>)
        ensures
            match r {
                Some(id) => self.spec_root() == Some(*id),
                None => self.spec_root() is None,
            },
    {
        match &self.root {
            Some(id) => Some(id),
            None => None,
        }
    }

    /// The node named by `id`, which must be live.
    pub fn get_unsafe(&self, id: &NodeId) -> (r: &Node<T>)
        requires
            self.contains(*id),
        ensures
            *r == self.node(*id),
    {
        &self.nodes[id.index]
    }

    /// Adds a node holding `node`'s payload and returns its handle.
    ///
    /// Under a live node, the new node becomes that node's last child; under a
    /// handle that names no node, nothing changes and the error is returned. As
    /// root, the new node takes the former root, if any, as its only child.
    pub fn insert(&mut self, node: Node<T>, behavior: InsertBehavior) -> (r: Result<NodeId, NodeIdError>)
        requires
            old(self).wf(),
        ensures
            final(self).wf(),
            match behavior {
                InsertBehavior::UnderNode(p) => if old(self).contains(*p) {
                    &&& r matches Ok(id)
                    &&& id@ == old(self).spec_nodes().len()
                    &&& final(self).spec_nodes().len() == old(self).spec_nodes().len() + 1
                    &&& final(self).spec_root() == old(self).spec_root()
                    &&& final(self).node(id).spec_data() == node.spec_data()
                    &&& final(self).parent_of(id) == Some(*p)
                    &&& final(self).child_ids_of(id) == Seq::<NodeId>::empty()
                    &&& final(self).parent_of(*p) == old(self).parent_of(*p)
                    &&& final(self).node(*p).spec_data() == old(self).node(*p).spec_data()
                    &&& final(self).child_ids_of(*p) == old(self).child_ids_of(*p).push(id)
                    &&& forall|o: NodeId|
                        old(self).contains(o) && o != *p ==> #[trigger] final(self).node(o)
                            == old(self).node(o)
                } else {
                    &&& r == Err::<NodeId, NodeIdError>(NodeIdError::InvalidNodeIdForTree)
                    &&& *final(self) == *old(self)
                },
                InsertBehavior::AsRoot => {
                    &&& r matches Ok(id)
                    &&& id@ == old(self).spec_nodes().len()
                    &&& final(self).spec_nodes().len() == old(self).spec_nodes().len() + 1
                    &&& final(self).spec_root() == Some(id)
                    &&& final(self).node(id).spec_data() == node.spec_data()
                    &&& final(self).parent_of(id) is None
                    &&& final(self).child_ids_of(id) == match old(self).spec_root() {
                        Some(o) => seq![o],
                        None => Seq::<NodeId>::empty(),
                    }
                    &&& forall|o: NodeId|
                        old(self).contains(o) && old(self).spec_root() != Some(o)
                            ==> #[trigger] final(self).node(o) == old(self).node(o)
                    &&& forall|o: NodeId|
                        old(self).spec_root() == Some(o) ==> {
                            &&& final(self).parent_of(o) == Some(id)
                            &&& final(self).node(o).spec_data() == old(self).node(o).spec_data()
                            &&& final(self).child_ids_of(o) == old(self).child_ids_of(o)
                        }
                },
            },
    {
        let ghost pre = *self;
        let new_id = NodeId { index: self.nodes.len() };
        let data = node.data;
        match behavior {
            InsertBehavior::UnderNode(p) => {
                if p.index >= self.nodes.len() {
                    return Err(NodeIdError::InvalidNodeIdForTree);
                }
                let parent_id = *p;
                let ghost d = self.depths@[parent_id@ as int] + 1;
                self.nodes.push(Node { data, parent: Some(parent_id), children: Vec::new() });
                self.nodes[parent_id.index].children.push(new_id);
                self.depths = Ghost(self.depths@.push(d));
                proof {
                    assert forall|o: NodeId| pre.contains(o) && o != parent_id implies #[trigger] self.node(o) == pre.node(o) by {
                        assert(o@ != parent_id@);
                    }
                    assert(self.node(new_id).spec_parent() == Some(parent_id));
                    assert(self.depth(new_id) == self.depth(parent_id) + 1);
                    assert(self.child_ids_of(parent_id) == pre.child_ids_of(parent_id).push(new_id));
                    assert(self.child_ids_of(parent_id).last() == new_id);
                    assert(self.child_ids_of(parent_id).contains(new_id));
                    assert forall|id: NodeId| #[trigger] self.contains(id) implies self.depth(id) == if id == new_id { d } else { pre.depth(id) } by {
                        if id != new_id { assert(id@ != new_id@); }
                    }
                    assert forall|id: NodeId| #[trigger] self.contains(id) && id != new_id implies pre.contains(id) by {
                        assert(id@ != new_id@);
                    }
                    assert forall|id: NodeId|
                        self.contains(id) && #[trigger] self.parent_of(id) is None implies self.spec_root() == Some(id) && self.depth(id) == 0 by {
                        if id != new_id { assert(pre.contains(id)); if id != parent_id { assert(pre.parent_of(id) is None); } }
                    }
                    assert forall|id: NodeId|
                        self.contains(id) && #[trigger] self.parent_of(id) is Some implies {
                            let p = self.parent_of(id)->Some_0;
                            &&& self.contains(p)
                            &&& self.depth(p) + 1 == self.depth(id)
                            &&& self.child_ids_of(p).contains(id)
                        } by {
                        if id != new_id {
                            assert(pre.contains(id));
                            assert(pre.parent_of(id) == self.parent_of(id));
                            let p = self.parent_of(id)->Some_0;
                            assert(pre.contains(p));
                            assert(p != new_id);
                            if p == parent_id {
                                let k = choose|k: int| 0 <= k < pre.child_ids_of(p).len() && pre.child_ids_of(p)[k] == id;
                                assert(self.child_ids_of(p)[k] == id);
                            } else {
                                assert(pre.child_ids_of(p) == self.child_ids_of(p));
                            }
                        }
                    }
                    assert forall|id: NodeId, j: int|
                        self.contains(id) && 0 <= j < self.child_ids_of(id).len() implies {
                            let c = #[trigger] self.child_ids_of(id)[j];
                            self.contains(c) && self.parent_of(c) == Some(id)
                        } by {
                        if id == parent_id {
                            if j < pre.child_ids_of(id).len() {
                                let c = pre.child_ids_of(id)[j];
                                assert(pre.contains(c) && pre.parent_of(c) == Some(id));
                                assert(c != new_id);
                            }
                        } else if id != new_id {
                            assert(pre.contains(id));
                            let c = pre.child_ids_of(id)[j];
                            assert(pre.contains(c) && pre.parent_of(c) == Some(id));
                            assert(c != new_id);
                        }
                    }
                    assert forall|id: NodeId| #[trigger] self.contains(id) implies self.child_ids_of(id).no_duplicates() by {
                        if id == parent_id {
                            assert(pre.child_ids_of(id).no_duplicates());
                            assert forall|j: int| 0 <= j < pre.child_ids_of(id).len() implies #[trigger] pre.child_ids_of(id)[j] != new_id by {
                                assert(pre.contains(pre.child_ids_of(id)[j]));
                            }
                        } else if id != new_id {
                            assert(pre.contains(id));
                        }
                    }
                }
                Ok(new_id)
            },
            InsertBehavior::AsRoot => {
                let mut children: Vec<NodeId> = Vec::new();
                match self.root {
                    Some(old_root) => {
                        assert(self.contains(old_root));
                        children.push(old_root);
                        self.nodes[old_root.index].parent = Some(new_id);
                    },
                    None => {},
                }
                self.nodes.push(Node { data, parent: None, children });
                self.root = Some(new_id);
                self.depths = Ghost(self.depths@.map_values(|d: nat| d + 1).push(0));
                proof {
                    assert forall|o: NodeId| pre.contains(o) && pre.spec_root() != Some(o) implies #[trigger] self.node(o) == pre.node(o) by {
                        if let Some(r) = pre.spec_root() { assert(o@ != r@); }
                    }
                    assert forall|id: NodeId| #[trigger] self.contains(id) && id != new_id implies pre.contains(id) && self.depth(id) == pre.depth(id) + 1 by {
                        assert(id@ != new_id@);
                    }
                    assert(self.depth(new_id) == 0);
                    assert(self.child_ids_of(new_id) =~= match pre.spec_root() {
                        Some(o) => seq![o],
                        None => Seq::<NodeId>::empty(),
                    });
                    assert forall|id: NodeId|
                        self.contains(id) && #[trigger] self.parent_of(id) is None implies self.spec_root() == Some(id) && self.depth(id) == 0 by {
                        if id != new_id {
                            assert(pre.contains(id));
                            if pre.spec_root() != Some(id) {
                                assert(pre.parent_of(id) is None);
                            }
                        }
                    }
                    assert forall|id: NodeId|
                        self.contains(id) && #[trigger] self.parent_of(id) is Some implies {
                            let p = self.parent_of(id)->Some_0;
                            &&& self.contains(p)
                            &&& self.depth(p) + 1 == self.depth(id)
                            &&& self.child_ids_of(p).contains(id)
                        } by {
                        if id != new_id {
                            assert(pre.contains(id));
                            if pre.spec_root() == Some(id) {
                                assert(self.child_ids_of(new_id)[0] == id);
                            } else {
                                assert(pre.parent_of(id) == self.parent_of(id));
                                let p = self.parent_of(id)->Some_0;
                                assert(pre.contains(p));
                                assert(p != new_id);
                                if pre.spec_root() == Some(p) {
                                    assert(pre.child_ids_of(p) == self.child_ids_of(p));
                                } else {
                                    assert(pre.child_ids_of(p) == self.child_ids_of(p));
                                }
                            }
                        }
                    }
                    assert forall|id: NodeId, j: int|
                        self.contains(id) && 0 <= j < self.child_ids_of(id).len() implies {
                            let c = #[trigger] self.child_ids_of(id)[j];
                            self.contains(c) && self.parent_of(c) == Some(id)
                        } by {
                        if id != new_id {
                            assert(pre.contains(id));
                            assert(pre.child_ids_of(id) == self.child_ids_of(id));
                            let c = pre.child_ids_of(id)[j];
                            assert(pre.contains(c) && pre.parent_of(c) == Some(id));
                            assert(c != new_id);
                            assert(pre.spec_root() != Some(c));
                        }
                    }
                    assert forall|id: NodeId| #[trigger] self.contains(id) implies self.child_ids_of(id).no_duplicates() by {
                        if id != new_id {
                            assert(pre.contains(id));
                            assert(pre.child_ids_of(id) == self.child_ids_of(id));
                        }
                    }
                }
                Ok(new_id)
            },
        }
    }

    /// A walk over the ancestors of `id`, or an error if it names no node.
    pub fn ancestors(&self, id: &NodeId) -> (r: Result<Ancestors<'_, T>, NodeIdError>)
        requires
            self.wf(),
        ensures
            match r {
                Ok(a) => {
                    &&& self.contains(*id)
                    &&& a.wf()
                    &&& a.spec_tree() == *self
                    &&& a@ == self.ancestors_of(*id)
                },
                Err(e) => !self.contains(*id) && e == NodeIdError::InvalidNodeIdForTree,
            },
    {
        if id.index < self.nodes.len() {
            Ok(Ancestors::new(self, *id))
        } else {
            Err(NodeIdError::InvalidNodeIdForTree)
        }
    }

    /// A walk over the handles of the ancestors of `id`, or an error if it names
    /// no node.
    pub fn ancestor_ids(&self, id: &NodeId) -> (r: Result<AncestorIds<'_, T>, NodeIdError>)
        requires
            self.wf(),
        ensures
            match r {
                Ok(a) => {
                    &&& self.contains(*id)
                    &&& a.wf()
                    &&& a.spec_tree() == *self
                    &&& a@ == self.ancestor_ids_of(*id)
                },
                Err(e) => !self.contains(*id) && e == NodeIdError::InvalidNodeIdForTree,
            },
    {
        if id.index < self.nodes.len() {
            Ok(AncestorIds::new(self, *id))
        } else {
            Err(NodeIdError::InvalidNodeIdForTree)
        }
    }

    /// A walk over the children of `id`, or an error if it names no node.
    pub fn children(&self, id: &NodeId) -> (r: Result<Children<'_, T>, NodeIdError>)
        requires
            self.wf(),
        ensures
            match r {
                Ok(c) => {
                    &&& self.contains(*id)
                    &&& c.wf()
                    &&& c.spec_tree() == *self
                    &&& c@ == self.children_of(*id)
                },
                Err(e) => !self.contains(*id) && e == NodeIdError::InvalidNodeIdForTree,
            },
    {
        if id.index < self.nodes.len() {
            Ok(Children::new(self, *id))
        } else {
            Err(NodeIdError::InvalidNodeIdForTree)
        }
    }

    /// A walk over the handles of the children of `id`, or an error if it names
    /// no node.
    pub fn children_ids(&self, id: &NodeId) -> (r: Result<ChildrenIds<'_>, NodeIdError>)
        requires
            self.wf(),
        ensures
            match r {
                Ok(c) => {
                    &&& self.contains(*id)
                    &&& c.wf()
                    &&& c@ == self.child_ids_of(*id)
                },
                Err(e) => !self.contains(*id) && e == NodeIdError::InvalidNodeIdForTree,
            },
    {
        if id.index < self.nodes.len() {
            Ok(ChildrenIds::new(self, *id))
        } else {
            Err(NodeIdError::InvalidNodeIdForTree)
        }
    }

    /// The node named by `id`, or an error if it names none.
    pub fn get(&self, id: &NodeId) -> (r: Result<&Node<T>, NodeIdError>)
        ensures
            match r {
                Ok(n) => self.contains(*id) && *n == self.node(*id),
                Err(e) => !self.contains(*id) && e == NodeIdError::InvalidNodeIdForTree,
            },
    {
        if id.index < self.nodes.len() {
            Ok(&self.nodes[id.index])
        } else {
            Err(NodeIdError::InvalidNodeIdForTree)
        }
    }
}

} // verus!
