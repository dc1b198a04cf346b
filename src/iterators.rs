use vstd::prelude::*;

use crate::tree::{Node, NodeId, Tree};

verus! {

/// Walks the ancestors of a node, from its parent up to the root, yielding each
/// ancestor node.
pub struct Ancestors<'a, T> {
    tree: &'a Tree<T>,
    node_id: Option<NodeId>,
}

impl<'a, T> Ancestors<'a, T> {
    /// The tree that is walked.
    pub closed spec fn spec_tree(&self) -> Tree<T> {
        *self.tree
    }

    /// The nodes that the walk has yet to yield, in order.
    pub closed spec fn view(&self) -> Seq<Node<T>> {
        match self.node_id {
            Some(id) => self.tree.ancestors_of(id),
            None => Seq::empty(),
        }
    }

    /// The walk is over: no further step yields a node.
    pub closed spec fn is_exhausted(&self) -> bool {
        self.node_id is None
    }

    /// The tree is well formed and the walk stands on one of its nodes, if any.
    pub closed spec fn wf(&self) -> bool {
        &&& self.tree.wf()
        &&& self.node_id matches Some(id) ==> self.tree.contains(id)
    }

    /// A walk that starts at `node_id`, which must be a live node of `tree`.
    pub fn new(tree: &'a Tree<T>, node_id: NodeId) -> (r: Ancestors<'a, T>)
        requires
            tree.wf(),
            tree.contains(node_id),
        ensures
            r.wf(),
            r.spec_tree() == *tree,
            r@ == tree.ancestors_of(node_id),
    {
        Ancestors { tree, node_id: Some(node_id) }
    }

    /// Moves one level toward the root and yields the parent reached, or yields
    /// nothing once the root has been passed, then and on every later call.
    pub fn next(&mut self) -> (r: Option<&'a Node<T>>)
        requires
            old(self).wf(),
        ensures
            final(self).wf(),
            final(self).spec_tree() == old(self).spec_tree(),
            match r {
                Some(n) => {
                    &&& old(self)@.len() > 0
                    &&& *n == old(self)@[0]
                    &&& final(self)@ == old(self)@.drop_first()
                },
                None => old(self)@.len() == 0 && final(self).is_exhausted(),
            },
            old(self).is_exhausted() ==> r is None,
            final(self).is_exhausted() ==> final(self)@.len() == 0,
    {
        if let Some(current_id) = self.node_id {
            if let Some(parent_id) = self.tree.get_unsafe(&current_id).parent() {
                let parent = self.tree.get_unsafe(parent_id);
                self.node_id = Some(*parent_id);
                return Some(parent);
            } else {
                self.node_id = None;
            }
        }
        None
    }
}

/// Walks the ancestors of a node, from its parent up to the root, yielding each
/// ancestor's handle.
pub struct AncestorIds<'a, T> {
    tree: &'a Tree<T>,
    node_id: Option<NodeId>,
}

impl<'a, T> AncestorIds<'a, T> {
    /// The tree that is walked.
    pub closed spec fn spec_tree(&self) -> Tree<T> {
        *self.tree
    }

    /// The handles that the walk has yet to yield, in order.
    pub closed spec fn view(&self) -> Seq<NodeId> {
        match self.node_id {
            Some(id) => self.tree.ancestor_ids_of(id),
            None => Seq::empty(),
        }
    }

    /// The walk is over: no further step yields a handle.
    pub closed spec fn is_exhausted(&self) -> bool {
        self.node_id is None
    }

    /// The tree is well formed and the walk stands on one of its nodes, if any.
    pub closed spec fn wf(&self) -> bool {
        &&& self.tree.wf()
        &&& self.node_id matches Some(id) ==> self.tree.contains(id)
    }

    /// A walk that starts at `node_id`, which must be a live node of `tree`.
    pub fn new(tree: &'a Tree<T>, node_id: NodeId) -> (r: AncestorIds<'a, T>)
        requires
            tree.wf(),
            tree.contains(node_id),
        ensures
            r.wf(),
            r.spec_tree() == *tree,
            r@ == tree.ancestor_ids_of(node_id),
    {
        AncestorIds { tree, node_id: Some(node_id) }
    }

    /// Moves one level toward the root and yields the parent's handle, or yields
    /// nothing once the root has been passed, then and on every later call.
    pub fn next(&mut self) -> (r: Option<&'a NodeId>)
        requires
            old(self).wf(),
        ensures
            final(self).wf(),
            final(self).spec_tree() == old(self).spec_tree(),
            match r {
                Some(id) => {
                    &&& old(self)@.len() > 0
                    &&& *id == old(self)@[0]
                    &&& final(self)@ == old(self)@.drop_first()
                },
                None => old(self)@.len() == 0 && final(self).is_exhausted(),
            },
            old(self).is_exhausted() ==> r is None,
            final(self).is_exhausted() ==> final(self)@.len() == 0,
    {
        if let Some(current_id) = self.node_id {
            if let Some(parent_id) = self.tree.get_unsafe(&current_id).parent() {
                self.node_id = Some(*parent_id);
                return Some(parent_id);
            } else {
                self.node_id = None;
            }
        }
        None
    }
}

/// Walks the children of a node in the order of its child list, yielding each
/// child node. The list is taken when the walk is made.
pub struct Children<'a, T> {
    tree: &'a Tree<T>,
    child_ids: &'a Vec<NodeId>,
    pos: usize,
}

impl<'a, T> Children<'a, T> {
    /// The tree that is walked.
    pub closed spec fn spec_tree(&self) -> Tree<T> {
        *self.tree
    }

    /// The nodes that the walk has yet to yield, in order.
    pub closed spec fn view(&self) -> Seq<Node<T>> {
        self.child_ids@.subrange(self.pos as int, self.child_ids@.len() as int).map_values(
            |c: NodeId| self.tree.node(c),
        )
    }

    /// The walk is over: no further step yields a node.
    pub closed spec fn is_exhausted(&self) -> bool {
        self.pos >= self.child_ids@.len()
    }

    /// The tree is well formed, the position lies within the list, and the list
    /// names live nodes.
    pub closed spec fn wf(&self) -> bool {
        &&& self.tree.wf()
        &&& self.pos <= self.child_ids@.len()
        &&& forall|j: int|
            0 <= j < self.child_ids@.len() ==> self.tree.contains(#[trigger] self.child_ids@[j])
    }

    /// A walk over the children of `node_id`, which must be a live node of `tree`.
    pub fn new(tree: &'a Tree<T>, node_id: NodeId) -> (r: Children<'a, T>)
        requires
            tree.wf(),
            tree.contains(node_id),
        ensures
            r.wf(),
            r.spec_tree() == *tree,
            r@ == tree.children_of(node_id),
    {
        let child_ids = tree.get_unsafe(&node_id).children();
        let r = Children { tree, child_ids, pos: 0 };
        assert(r@ =~= tree.children_of(node_id)) by {
            assert(child_ids@.subrange(0, child_ids@.len() as int) =~= child_ids@);
        }
        r
    }

    /// Yields the next child node, or nothing once all have been yielded, then
    /// and on every later call.
    pub fn next(&mut self) -> (r: Option<&'a Node<T>>)
        requires
            old(self).wf(),
        ensures
            final(self).wf(),
            final(self).spec_tree() == old(self).spec_tree(),
            match r {
                Some(n) => {
                    &&& old(self)@.len() > 0
                    &&& *n == old(self)@[0]
                    &&& final(self)@ == old(self)@.drop_first()
                },
                None => old(self)@.len() == 0 && final(self).is_exhausted(),
            },
            old(self).is_exhausted() ==> r is None,
            final(self).is_exhausted() ==> final(self)@.len() == 0,
    {
        if self.pos < self.child_ids.len() {
            let ids: &'a Vec<NodeId> = self.child_ids;
            let child = self.tree.get_unsafe(&ids[self.pos]);
            let ghost pre = *self;
            self.pos = self.pos + 1;
            assert(self@ =~= pre@.drop_first());
            Some(child)
        } else {
            None
        }
    }
}

/// Walks the children of a node in the order of its child list, yielding each
/// child's handle. The list is taken when the walk is made.
pub struct ChildrenIds<'a> {
    child_ids: &'a Vec<NodeId>,
    pos: usize,
}

impl<'a> ChildrenIds<'a> {
    /// The handles that the walk has yet to yield, in order.
    pub closed spec fn view(&self) -> Seq<NodeId> {
        self.child_ids@.subrange(self.pos as int, self.child_ids@.len() as int)
    }

    /// The walk is over: no further step yields a handle.
    pub closed spec fn is_exhausted(&self) -> bool {
        self.pos >= self.child_ids@.len()
    }

    /// The position lies within the list.
    pub closed spec fn wf(&self) -> bool {
        self.pos <= self.child_ids@.len()
    }

    /// A walk over the children of `node_id`, which must be a live node of `tree`.
    pub fn new<T>(tree: &'a Tree<T>, node_id: NodeId) -> (r: ChildrenIds<'a>)
        requires
            tree.wf(),
            tree.contains(node_id),
        ensures
            r.wf(),
            r@ == tree.child_ids_of(node_id),
    {
        let child_ids = tree.get_unsafe(&node_id).children();
        let r = ChildrenIds { child_ids, pos: 0 };
        assert(r@ =~= child_ids@);
        r
    }

    /// Yields the next child's handle, or nothing once all have been yielded,
    /// then and on every later call.
    pub fn next(&mut self) -> (r: Option<&'a NodeId>)
        requires
            old(self).wf(),
        ensures
            final(self).wf(),
            match r {
                Some(id) => {
                    &&& old(self)@.len() > 0
                    &&& *id == old(self)@[0]
                    &&& final(self)@ == old(self)@.drop_first()
                },
                None => old(self)@.len() == 0 && final(self).is_exhausted(),
            },
            old(self).is_exhausted() ==> r is None,
            final(self).is_exhausted() ==> final(self)@.len() == 0,
    {
        if self.pos < self.child_ids.len() {
            let ids: &'a Vec<NodeId> = self.child_ids;
            let id = &ids[self.pos];
            let ghost pre = *self;
            self.pos = self.pos + 1;
            assert(self@ =~= pre@.drop_first());
            Some(id)
        } else {
            None
        }
    }
}

} // verus!
